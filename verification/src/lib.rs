//! Contract testing for Model Context Protocol servers and clients: the
//! matching engine, the persisted interaction fragment, the JSON-RPC envelope,
//! the mock's interaction selection, auth resolution and the plugin's
//! request/response glue, each stated and proved over a JSON model.
pub mod json;
pub mod model;
pub mod text;
pub mod content;
pub mod jsonrpc;
pub mod catalogue;
pub mod auth;
pub mod config;
pub mod matchers;
pub mod server;
pub mod mock;
pub mod transport;
pub mod verify;
pub mod cli;
