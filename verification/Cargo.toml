[package]
name = "pact-mcp-plugin"
version = "0.1.0"
edition = "2021"
publish = false

[dependencies]
serde = { version = "1", features = ["derive"] }
serde_json = "1"
rmcp = { version = "2.2", features = ["client", "server", "transport-child-process", "transport-io", "transport-streamable-http-client-reqwest"] }
tokio = { version = "1", features = ["full"] }
anyhow = "1"
thiserror = "2"
tracing-subscriber = "0.3"
http = "1"
