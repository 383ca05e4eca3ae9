//! JSON-RPC 2.0 envelopes. The envelope (`jsonrpc`, `id`, `method`) is never
//! authored by the user: `method` is derived from the operation and ids are
//! allocated by the engine.
use vstd::prelude::*;
use crate::json::{Json, JsonV, json_view, json_eq, json_equal, opt_view, entries_view, lemma_entries_view};
use crate::model::{Operation, method_name};
use crate::text::{int_text, i64_text};

verus! {

/// A source of request ids: each call hands out the next one, starting at 1
/// and counting up (wrapping at the top of the `i64` range).
#[derive(Debug)]
pub struct IdAllocator {
    pub next: i64,
}

/// The id handed out after `n`.
pub open spec fn id_after(n: i64) -> i64 {
    if n == i64::MAX {
        i64::MIN
    } else {
        (n + 1) as i64
    }
}

impl IdAllocator {
    /// A fresh allocator; its first id is 1.
    pub fn new() -> (r: IdAllocator)
        ensures
            r.next == 1,
    {
        IdAllocator { next: 1 }
    }

    /// Allocates the next request id.
    pub fn next_id(&mut self) -> (r: i64)
        ensures
            r == old(self).next,
            final(self).next == id_after(old(self).next),
    {
        let id = self.next;
        self.next = if id == i64::MAX {
            i64::MIN
        } else {
            id + 1
        };
        id
    }
}

/// Ids handed out one after the other strictly increase until the top of the
/// `i64` range.
pub proof fn law_ids_increase(n: i64)
    requires
        n < i64::MAX,
    ensures
        id_after(n) > n,
{
}

/// A JSON-RPC request envelope.
#[derive(Debug)]
pub struct JsonRpcRequest {
    pub jsonrpc: String,
    pub id: Json,
    pub method: String,
    pub params: Option<Json>,
}

/// A JSON-RPC error object.
#[derive(Debug)]
pub struct JsonRpcError {
    pub code: i64,
    pub message: String,
    pub data: Option<Json>,
}

/// A JSON-RPC response envelope.
#[derive(Debug)]
pub struct JsonRpcResponse {
    pub jsonrpc: String,
    pub id: Json,
    pub result: Option<Json>,
    pub error: Option<JsonRpcError>,
}

impl JsonRpcRequest {
    /// The request envelope for an interaction's request params.
    pub fn for_operation(operation: Operation, id: i64, params: Json) -> (r: JsonRpcRequest)
        ensures
            r.jsonrpc@ == "2.0"@,
            r.id@ == JsonV::Number(int_text(id as int)),
            r.method@ == method_name(operation),
            opt_view(
                match r.params {
                    Some(p) => Some(&p),
                    None => None,
                },
            ) == Some(params@),
    {
        JsonRpcRequest {
            jsonrpc: String::from_str("2.0"),
            id: Json::Number(i64_text(id)),
            method: String::from_str(operation.method()),
            params: Some(params),
        }
    }
}

/// The MCP-shape value of a protocol error: `{"error": {"code", "message", "data"}}`
/// with `data` `null` when absent.
pub open spec fn error_value(code: i64, message: Seq<char>, data: Option<JsonV>) -> JsonV {
    JsonV::Object(
        seq![
            (
                "error"@,
                JsonV::Object(
                    seq![
                        ("code"@, JsonV::Number(int_text(code as int))),
                        ("message"@, JsonV::Str(message)),
                        ("data"@, or_null(data)),
                    ],
                ),
            ),
        ],
    )
}

/// The value, `null` when absent.
pub open spec fn or_null(o: Option<JsonV>) -> JsonV {
    match o {
        Some(x) => x,
        None => JsonV::Null,
    }
}

/// The value matched against an interaction's expected response: the
/// protocol error in the `{"error": {...}}` shape, else the `result`, else `null`.
pub open spec fn mcp_response_value(r: JsonRpcResponse) -> JsonV {
    match r.error {
        Some(e) => error_value(
            e.code,
            e.message@,
            opt_view(
                match e.data {
                    Some(d) => Some(&d),
                    None => None,
                },
            ),
        ),
        None => match r.result {
            Some(v) => v@,
            None => JsonV::Null,
        },
    }
}

/// Builds the `{"error": {"code", "message", "data"}}` value.
pub fn protocol_error_value(code: i64, message: &str, data: Option<&Json>) -> (r: Json)
    ensures
        r@ == error_value(code, message@, opt_view(data)),
{
    let mut inner: Vec<(String, Json)> = Vec::new();
    inner.push((String::from_str("code"), Json::Number(i64_text(code))));
    inner.push((String::from_str("message"), Json::Str(String::from_str(message))));
    let d = match data {
        Some(x) => x.copy(),
        None => Json::Null,
    };
    inner.push((String::from_str("data"), d));
    proof {
        lemma_entries_view(inner@);
        assert(entries_view(inner@) =~= seq![
            ("code"@, JsonV::Number(int_text(code as int))),
            ("message"@, JsonV::Str(message@)),
            ("data"@, or_null(opt_view(data))),
        ]);
    }
    let ghost iv = entries_view(inner@);
    let mut outer: Vec<(String, Json)> = Vec::new();
    let inner_json = Json::Object(inner);
    assert(inner_json@ == JsonV::Object(iv));
    outer.push((String::from_str("error"), inner_json));
    let r = Json::Object(outer);
    proof {
        lemma_entries_view(outer@);
        assert(entries_view(outer@) =~= match error_value(code, message@, opt_view(data)) {
            JsonV::Object(e) => e,
            _ => Seq::empty(),
        });
    }
    r
}

impl JsonRpcResponse {
    /// The "MCP-shape" value the engine matches against (see `mcp_response_value`).
    pub fn to_mcp_response_value(&self) -> (r: Json)
        ensures
            r@ == mcp_response_value(*self),
    {
        match &self.error {
            Some(err) => protocol_error_value(
                err.code,
                err.message.as_str(),
                match &err.data {
                    Some(d) => Some(d),
                    None => None,
                },
            ),
            None => match &self.result {
                Some(v) => v.copy(),
                None => Json::Null,
            },
        }
    }

    /// Whether this response's `id` is the number `id` (JSON equality).
    pub fn correlates(&self, id: i64) -> (r: bool)
        ensures
            r == json_eq(self.id@, JsonV::Number(int_text(id as int))),
    {
        let expected = Json::Number(i64_text(id));
        json_equal(&self.id, &expected)
    }
}

} // verus!
