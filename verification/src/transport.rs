//! How a request reaches a real MCP server and how its answer is reshaped
//! into the MCP-to-pact response shape. The connection and the awaits are
//! the application's; the decisions before and after them are here.
use vstd::prelude::*;
use crate::json::{Json, JsonV, jget, jget_str, json_view, entries_view, copy_entries};
use crate::text::cat2;

verus! {

/// The MCP protocol version the engine speaks; the connection negotiates it
/// once per session, never per interaction.
pub const SUPPORTED_PROTOCOL_VERSION: &'static str = "2025-06-18";

/// Why a transport failed.
#[derive(Debug)]
pub enum TransportError {
    /// The server could not be spawned or connected to.
    Connect(String),
    /// The `initialize` handshake failed.
    Handshake(String),
    /// A request failed.
    Request(String),
}

/// The model of a `TransportError`.
pub enum TransportErrorV {
    Connect(Seq<char>),
    Handshake(Seq<char>),
    Request(Seq<char>),
}

impl View for TransportError {
    type V = TransportErrorV;

    open spec fn view(&self) -> TransportErrorV {
        match self {
            TransportError::Connect(s) => TransportErrorV::Connect(s@),
            TransportError::Handshake(s) => TransportErrorV::Handshake(s@),
            TransportError::Request(s) => TransportErrorV::Request(s@),
        }
    }
}

/// The one-line description of a transport error.
pub open spec fn transport_message(e: TransportErrorV) -> Seq<char> {
    match e {
        TransportErrorV::Connect(s) => "failed to spawn/connect transport: "@ + s,
        TransportErrorV::Handshake(s) => "initialize handshake failed: "@ + s,
        TransportErrorV::Request(s) => "request failed: "@ + s,
    }
}

impl TransportError {
    /// A one-line description of the error.
    pub fn message(&self) -> (r: String)
        ensures
            r@ == transport_message(self@),
    {
        match self {
            TransportError::Connect(s) => cat2("failed to spawn/connect transport: ", s.as_str()),
            TransportError::Handshake(s) => cat2("initialize handshake failed: ", s.as_str()),
            TransportError::Request(s) => cat2("request failed: ", s.as_str()),
        }
    }
}

/// The parameters of a `tools/call`: the tool name and, when the request has
/// an `arguments` object, its entries.
#[derive(Debug)]
pub struct CallParams {
    pub name: String,
    pub arguments: Option<Vec<(String, Json)>>,
}

/// The `arguments` object of a request, if it has one.
pub open spec fn arguments_of(request: JsonV) -> Option<Seq<(Seq<char>, JsonV)>> {
    match jget(request, "arguments"@) {
        Some(JsonV::Object(e)) => Some(e),
        _ => None,
    }
}

/// The model of optional owned entries.
pub open spec fn owned_entries(a: Option<Vec<(String, Json)>>) -> Option<Seq<(Seq<char>, JsonV)>> {
    match a {
        Some(v) => Some(entries_view(v@)),
        None => None,
    }
}

/// The `tools/call` parameters of an interaction's request; its `name` is
/// required.
pub fn call_tool_params(request: &Json) -> (r: Result<CallParams, TransportError>)
    ensures
        match r {
            Ok(p) => jget_str(request@, "name"@) == Some(p.name@) && owned_entries(p.arguments) == arguments_of(
                request@,
            ),
            Err(e) => jget_str(request@, "name"@) is None && e@ == TransportErrorV::Request(
                "mcp.request.name is required for tools/call"@,
            ),
        },
{
    let name = match request.get("name") {
        Some(n) => n.as_str(),
        None => None,
    };
    let name = match name {
        Some(n) => String::from_str(n),
        None => {
            return Err(TransportError::Request(String::from_str("mcp.request.name is required for tools/call")));
        },
    };
    let arguments = match request.get("arguments") {
        Some(a) => match a.as_object() {
            Some(o) => Some(copy_entries(o)),
            None => None,
        },
        None => None,
    };
    Ok(CallParams { name, arguments })
}

/// A `tools/call` result with `isError: false` added when it has no `isError`.
pub open spec fn with_is_error(v: JsonV) -> JsonV {
    match v {
        JsonV::Object(e) => if jget(v, "isError"@) is None {
            JsonV::Object(e.push(("isError"@, JsonV::Bool(false))))
        } else {
            v
        },
        _ => v,
    }
}

/// Makes a successful `tools/call` result state `isError` explicitly.
pub fn normalize_call_result(value: Json) -> (r: Json)
    ensures
        r@ == with_is_error(value@),
{
    let missing = value.get("isError").is_none();
    match value {
        Json::Object(mut e) => {
            if missing {
                let ghost prev = e@;
                let k = String::from_str("isError");
                let b = Json::Bool(false);
                assert(b@ == JsonV::Bool(false));
                e.push((k, b));
                assert(e@.drop_last() == prev);
                assert(e@.last().0@ == "isError"@);
                assert(json_view(e@.last().1) == JsonV::Bool(false));
                assert(entries_view(e@) == entries_view(prev).push(("isError"@, JsonV::Bool(false))));
            }
            Json::Object(e)
        },
        other => other,
    }
}

/// A list result under its field: `{"<field>": <value>}`.
pub fn list_result(field: &str, value: Json) -> (r: Json)
    ensures
        r@ == JsonV::Object(seq![(field@, value@)]),
{
    let ghost v = value@;
    let mut e: Vec<(String, Json)> = Vec::new();
    e.push((String::from_str(field), value));
    proof {
        assert(e@.drop_last() =~= Seq::<(String, Json)>::empty());
        assert(entries_view(e@.drop_last()) =~= Seq::<(Seq<char>, JsonV)>::empty());
        assert(entries_view(e@) =~= seq![(field@, v)]);
    }
    Json::Object(e)
}

} // verus!
