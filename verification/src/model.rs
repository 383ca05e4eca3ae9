//! The persisted MCP <-> Pact interaction fragment:
//! `{"pact:content-type": "application/mcp+json", "mcp": {...}}`.
use vstd::prelude::*;
use crate::json::{Json, JsonV, jget, jstr, lookup, lookup_from, opt_view};
use crate::text::cat2;

verus! {

/// The content type this plugin owns.
pub const CONTENT_TYPE: &'static str = "application/mcp+json";

/// The version of the interaction schema.
pub const SCHEMA_VERSION: &'static str = "0";

/// An MCP operation: a closed set, each with its JSON-RPC method name.
#[derive(Debug, Clone, Copy, PartialEq, Eq, Structural)]
pub enum Operation {
    ToolsCall,
    ToolsList,
    ResourcesRead,
    ResourcesList,
    PromptsGet,
    PromptsList,
}

/// The JSON-RPC method name of an operation.
pub open spec fn method_name(op: Operation) -> Seq<char> {
    match op {
        Operation::ToolsCall => "tools/call"@,
        Operation::ToolsList => "tools/list"@,
        Operation::ResourcesRead => "resources/read"@,
        Operation::ResourcesList => "resources/list"@,
        Operation::PromptsGet => "prompts/get"@,
        Operation::PromptsList => "prompts/list"@,
    }
}

/// The operation whose method name is `s`, if any.
pub open spec fn parse_operation(s: Seq<char>) -> Option<Operation> {
    if s == "tools/call"@ {
        Some(Operation::ToolsCall)
    } else if s == "tools/list"@ {
        Some(Operation::ToolsList)
    } else if s == "resources/read"@ {
        Some(Operation::ResourcesRead)
    } else if s == "resources/list"@ {
        Some(Operation::ResourcesList)
    } else if s == "prompts/get"@ {
        Some(Operation::PromptsGet)
    } else if s == "prompts/list"@ {
        Some(Operation::PromptsList)
    } else {
        None
    }
}

impl Operation {
    /// The JSON-RPC method name synthesized for this operation.
    pub fn method(&self) -> (r: &'static str)
        ensures
            r@ == method_name(*self),
    {
        match self {
            Operation::ToolsCall => "tools/call",
            Operation::ToolsList => "tools/list",
            Operation::ResourcesRead => "resources/read",
            Operation::ResourcesList => "resources/list",
            Operation::PromptsGet => "prompts/get",
            Operation::PromptsList => "prompts/list",
        }
    }

    /// The operation named by a method name; `None` for any other text.
    pub fn parse(s: &str) -> (r: Option<Operation>)
        ensures
            r == parse_operation(s@),
    {
        if s.eq("tools/call") {
            Some(Operation::ToolsCall)
        } else if s.eq("tools/list") {
            Some(Operation::ToolsList)
        } else if s.eq("resources/read") {
            Some(Operation::ResourcesRead)
        } else if s.eq("resources/list") {
            Some(Operation::ResourcesList)
        } else if s.eq("prompts/get") {
            Some(Operation::PromptsGet)
        } else if s.eq("prompts/list") {
            Some(Operation::PromptsList)
        } else {
            None
        }
    }
}

/// Parsing an operation's method name gives the operation back, and an
/// operation is parsed only from its own method name.
pub proof fn law_operation_method_round_trip(op: Operation, s: Seq<char>)
    ensures
        parse_operation(method_name(op)) == Some(op),
        parse_operation(s) == Some(op) ==> s == method_name(op),
{
    reveal_strlit("tools/call");
    reveal_strlit("tools/list");
    reveal_strlit("resources/read");
    reveal_strlit("resources/list");
    reveal_strlit("prompts/get");
    reveal_strlit("prompts/list");
    let tc = "tools/call"@;
    let tl = "tools/list"@;
    let rr = "resources/read"@;
    let rl = "resources/list"@;
    let pg = "prompts/get"@;
    let pl = "prompts/list"@;
    assert(tc[6] != tl[6]);
    assert(tc.len() != rr.len() && tc.len() != rl.len() && tc.len() != pg.len() && tc.len() != pl.len());
    assert(tl.len() != rr.len() && tl.len() != rl.len() && tl.len() != pg.len() && tl.len() != pl.len());
    assert(rr[10] != rl[10]);
    assert(rr.len() != pg.len() && rr.len() != pl.len());
    assert(rl.len() != pg.len() && rl.len() != pl.len());
    assert(pg.len() != pl.len());
}

/// Provider-verification hint: which transport the provider is reached over.
#[derive(Debug, PartialEq)]
pub struct ServerHint {
    pub transport: String,
}

/// One MCP interaction: the operation, the request the consumer sends and
/// the response it expects.
#[derive(Debug, PartialEq)]
pub struct McpInteraction {
    pub schema_version: String,
    pub operation: Operation,
    /// Operation-specific JSON-RPC params (the semantic request).
    pub request: Json,
    /// Operation-specific JSON-RPC result (the semantic response).
    pub response: Json,
    pub server: Option<ServerHint>,
    /// Provider states of the interaction, applied at verification time;
    /// never part of the persisted fragment.
    pub provider_states: Option<Json>,
}

/// The persisted plugin-specific interaction contents.
#[derive(Debug, PartialEq)]
pub struct McpFragment {
    pub pact_content_type: String,
    pub mcp: McpInteraction,
}

/// The model of an `McpInteraction`.
pub struct McpInteractionV {
    pub schema_version: Seq<char>,
    pub operation: Operation,
    pub request: JsonV,
    pub response: JsonV,
    pub server: Option<Seq<char>>,
    pub provider_states: Option<JsonV>,
}

/// The model of an `McpFragment`.
pub struct McpFragmentV {
    pub pact_content_type: Seq<char>,
    pub mcp: McpInteractionV,
}

impl View for McpInteraction {
    type V = McpInteractionV;

    open spec fn view(&self) -> McpInteractionV {
        McpInteractionV {
            schema_version: self.schema_version@,
            operation: self.operation,
            request: self.request@,
            response: self.response@,
            server: match self.server {
                Some(h) => Some(h.transport@),
                None => None,
            },
            provider_states: opt_view(match self.provider_states {
                Some(p) => Some(&p),
                None => None,
            }),
        }
    }
}

impl View for McpFragment {
    type V = McpFragmentV;

    open spec fn view(&self) -> McpFragmentV {
        McpFragmentV { pact_content_type: self.pact_content_type@, mcp: self.mcp@ }
    }
}

impl McpInteraction {
    /// An interaction of the current schema version, with no server hint and
    /// no provider states.
    pub fn new(operation: Operation, request: Json, response: Json) -> (r: McpInteraction)
        ensures
            r@ == (McpInteractionV {
                schema_version: SCHEMA_VERSION@,
                operation,
                request: request@,
                response: response@,
                server: None,
                provider_states: None,
            }),
    {
        McpInteraction {
            schema_version: String::from_str(SCHEMA_VERSION),
            operation,
            request,
            response,
            server: None,
            provider_states: None,
        }
    }
}

impl McpFragment {
    /// The fragment of an interaction, under this plugin's content type.
    pub fn new(mcp: McpInteraction) -> (r: McpFragment)
        ensures
            r@ == (McpFragmentV { pact_content_type: CONTENT_TYPE@, mcp: mcp@ }),
    {
        McpFragment { pact_content_type: String::from_str(CONTENT_TYPE), mcp }
    }
}

/// Why a JSON value is not an interaction fragment.
#[derive(Debug)]
pub enum DecodeError {
    /// The value (or the named member) is neither an object nor an array.
    NotAnObject(String),
    /// A required member is absent.
    MissingField(String),
    /// A member has the wrong kind of value.
    InvalidField(String),
    /// `operation` is not one of the known operations.
    UnknownOperation(String),
    /// The array form of the named value has the wrong number of elements.
    InvalidLength(String),
}

/// The model of a `DecodeError`.
pub enum DecodeErrorV {
    NotAnObject(Seq<char>),
    MissingField(Seq<char>),
    InvalidField(Seq<char>),
    UnknownOperation(Seq<char>),
    InvalidLength(Seq<char>),
}

/// The message of a decode error.
pub open spec fn decode_message(e: DecodeErrorV) -> Seq<char> {
    match e {
        DecodeErrorV::NotAnObject(f) => "expected an object at `"@ + f + "`"@,
        DecodeErrorV::MissingField(f) => "missing field `"@ + f + "`"@,
        DecodeErrorV::InvalidField(f) => "invalid type for field `"@ + f + "`"@,
        DecodeErrorV::UnknownOperation(o) => "unknown mcp operation `"@ + o + "`"@,
        DecodeErrorV::InvalidLength(f) => "invalid length for `"@ + f + "`"@,
    }
}

impl View for DecodeError {
    type V = DecodeErrorV;

    open spec fn view(&self) -> DecodeErrorV {
        match self {
            DecodeError::NotAnObject(s) => DecodeErrorV::NotAnObject(s@),
            DecodeError::MissingField(s) => DecodeErrorV::MissingField(s@),
            DecodeError::InvalidField(s) => DecodeErrorV::InvalidField(s@),
            DecodeError::UnknownOperation(s) => DecodeErrorV::UnknownOperation(s@),
            DecodeError::InvalidLength(s) => DecodeErrorV::InvalidLength(s@),
        }
    }
}

impl DecodeError {
    /// A one-line description of the error.
    pub fn message(&self) -> (r: String)
        ensures
            r@ == decode_message(self@),
    {
        match self {
            DecodeError::NotAnObject(f) => crate::text::cat3("expected an object at `", f.as_str(), "`"),
            DecodeError::MissingField(f) => crate::text::cat3("missing field `", f.as_str(), "`"),
            DecodeError::InvalidField(f) => crate::text::cat3("invalid type for field `", f.as_str(), "`"),
            DecodeError::UnknownOperation(o) => crate::text::cat3("unknown mcp operation `", o.as_str(), "`"),
            DecodeError::InvalidLength(f) => crate::text::cat3("invalid length for `", f.as_str(), "`"),
        }
    }
}

/// The JSON form of an interaction: `schemaVersion`, `operation` (its method
/// name), `request`, `response`, and `server` only when a hint is set.
/// Provider states are not part of it.
pub open spec fn interaction_json(i: McpInteractionV) -> JsonV {
    JsonV::Object(
        seq![
            ("schemaVersion"@, JsonV::Str(i.schema_version)),
            ("operation"@, JsonV::Str(method_name(i.operation))),
            ("request"@, i.request),
            ("response"@, i.response),
        ] + match i.server {
            Some(t) => seq![("server"@, JsonV::Object(seq![("transport"@, JsonV::Str(t))]))],
            None => Seq::empty(),
        },
    )
}

/// The JSON form of a fragment: `pact:content-type` and `mcp`.
pub open spec fn fragment_json(f: McpFragmentV) -> JsonV {
    JsonV::Object(seq![("pact:content-type"@, JsonV::Str(f.pact_content_type)), ("mcp"@, interaction_json(f.mcp))])
}

/// A required string member.
pub open spec fn decode_str(v: JsonV, key: Seq<char>) -> Result<Seq<char>, DecodeErrorV> {
    match jget(v, key) {
        None => Err(DecodeErrorV::MissingField(key)),
        Some(x) => match jstr(x) {
            Some(s) => Ok(s),
            None => Err(DecodeErrorV::InvalidField(key)),
        },
    }
}

/// An operation: its method name, or a one-member object `{"<method>": null}`
/// (the map form of a unit variant).
pub open spec fn decode_operation(x: JsonV) -> Result<Operation, DecodeErrorV> {
    let name = match x {
        JsonV::Str(s) => Some(s),
        JsonV::Object(e) => if e.len() == 1 && e[0].1 is Null {
            Some(e[0].0)
        } else {
            None
        },
        _ => None,
    };
    match name {
        None => Err(DecodeErrorV::InvalidField("operation"@)),
        Some(s) => match parse_operation(s) {
            Some(op) => Ok(op),
            None => Err(DecodeErrorV::UnknownOperation(s)),
        },
    }
}

/// A server hint value: `null` is no hint; otherwise an object with a string
/// `transport`, or the one-element array form `[transport]`.
pub open spec fn decode_hint(h: JsonV) -> Result<Option<Seq<char>>, DecodeErrorV> {
    match h {
        JsonV::Null => Ok(None),
        JsonV::Object(_) => match decode_str(h, "transport"@) {
            Ok(t) => Ok(Some(t)),
            Err(e) => Err(e),
        },
        JsonV::Array(items) => if items.len() != 1 {
            Err(DecodeErrorV::InvalidLength("server"@))
        } else {
            match items[0] {
                JsonV::Str(t) => Ok(Some(t)),
                _ => Err(DecodeErrorV::InvalidField("transport"@)),
            }
        },
        _ => Err(DecodeErrorV::InvalidField("server"@)),
    }
}

/// The optional `server` hint of an interaction object: absent is no hint.
pub open spec fn decode_server(v: JsonV) -> Result<Option<Seq<char>>, DecodeErrorV> {
    match jget(v, "server"@) {
        None => Ok(None),
        Some(h) => decode_hint(h),
    }
}

/// An interaction from its members, read in order: `schemaVersion`,
/// `operation`, `request`, `response`, `server`.
pub open spec fn interaction_parts(
    sv: Option<JsonV>,
    op: Option<JsonV>,
    req: Option<JsonV>,
    resp: Option<JsonV>,
    server: Result<Option<Seq<char>>, DecodeErrorV>,
) -> Result<McpInteractionV, DecodeErrorV> {
    match sv {
        None => Err(DecodeErrorV::MissingField("schemaVersion"@)),
        Some(JsonV::Str(sv)) => match op {
            None => Err(DecodeErrorV::MissingField("operation"@)),
            Some(o) => match decode_operation(o) {
                Err(e) => Err(e),
                Ok(op) => match req {
                    None => Err(DecodeErrorV::MissingField("request"@)),
                    Some(req) => match resp {
                        None => Err(DecodeErrorV::MissingField("response"@)),
                        Some(resp) => match server {
                            Err(e) => Err(e),
                            Ok(server) => Ok(
                                McpInteractionV {
                                    schema_version: sv,
                                    operation: op,
                                    request: req,
                                    response: resp,
                                    server,
                                    provider_states: None,
                                },
                            ),
                        },
                    },
                },
            },
        },
        Some(_) => Err(DecodeErrorV::InvalidField("schemaVersion"@)),
    }
}

/// Reading an interaction from its JSON form: an object (extra members are
/// ignored), or the array form `[schemaVersion, operation, request,
/// response, server]` with exactly those five elements. Provider states are
/// never read from it.
pub open spec fn decode_interaction(v: JsonV) -> Result<McpInteractionV, DecodeErrorV> {
    match v {
        JsonV::Object(_) => interaction_parts(
            jget(v, "schemaVersion"@),
            jget(v, "operation"@),
            jget(v, "request"@),
            jget(v, "response"@),
            decode_server(v),
        ),
        JsonV::Array(items) => if items.len() != 5 {
            Err(DecodeErrorV::InvalidLength("mcp"@))
        } else {
            interaction_parts(Some(items[0]), Some(items[1]), Some(items[2]), Some(items[3]), decode_hint(items[4]))
        },
        _ => Err(DecodeErrorV::NotAnObject("mcp"@)),
    }
}

/// A fragment from its members: `pact:content-type`, then `mcp`.
pub open spec fn fragment_parts(ct: Option<JsonV>, m: Option<JsonV>) -> Result<McpFragmentV, DecodeErrorV> {
    match ct {
        None => Err(DecodeErrorV::MissingField("pact:content-type"@)),
        Some(JsonV::Str(ct)) => match m {
            None => Err(DecodeErrorV::MissingField("mcp"@)),
            Some(m) => match decode_interaction(m) {
                Err(e) => Err(e),
                Ok(i) => Ok(McpFragmentV { pact_content_type: ct, mcp: i }),
            },
        },
        Some(_) => Err(DecodeErrorV::InvalidField("pact:content-type"@)),
    }
}

/// Reading a fragment from its JSON form: an object with `pact:content-type`
/// and `mcp` (extra members ignored), or the array form `[content type,
/// mcp]` with exactly those two elements.
pub open spec fn decode_fragment(v: JsonV) -> Result<McpFragmentV, DecodeErrorV> {
    match v {
        JsonV::Object(_) => fragment_parts(jget(v, "pact:content-type"@), jget(v, "mcp"@)),
        JsonV::Array(items) => if items.len() != 2 {
            Err(DecodeErrorV::InvalidLength("$"@))
        } else {
            fragment_parts(Some(items[0]), Some(items[1]))
        },
        _ => Err(DecodeErrorV::NotAnObject("$"@)),
    }
}

fn decode_str_exec(v: &Json, key: &str) -> (r: Result<String, DecodeError>)
    ensures
        match r {
            Ok(s) => decode_str(v@, key@) == Ok::<Seq<char>, DecodeErrorV>(s@),
            Err(e) => decode_str(v@, key@) == Err::<Seq<char>, DecodeErrorV>(e@),
        },
{
    match v.get(key) {
        None => Err(DecodeError::MissingField(String::from_str(key))),
        Some(x) => match x.as_str() {
            Some(s) => Ok(String::from_str(s)),
            None => Err(DecodeError::InvalidField(String::from_str(key))),
        },
    }
}

impl McpInteraction {
    /// The JSON form of the interaction (see `interaction_json`).
    pub fn to_json(&self) -> (r: Json)
        ensures
            r@ == interaction_json(self@),
    {
        let mut entries: Vec<(String, Json)> = Vec::new();
        entries.push((String::from_str("schemaVersion"), Json::Str(self.schema_version.clone())));
        entries.push((String::from_str("operation"), Json::Str(String::from_str(self.operation.method()))));
        entries.push((String::from_str("request"), self.request.copy()));
        entries.push((String::from_str("response"), self.response.copy()));
        match &self.server {
            Some(h) => {
                let mut hint: Vec<(String, Json)> = Vec::new();
                hint.push((String::from_str("transport"), Json::Str(h.transport.clone())));
                proof {
                    crate::json::lemma_entries_view(hint@);
                    assert(crate::json::entries_view(hint@) =~= seq![("transport"@, JsonV::Str(h.transport@))]);
                }
                entries.push((String::from_str("server"), Json::Object(hint)));
            },
            None => {},
        }
        let r = Json::Object(entries);
        proof {
            crate::json::lemma_entries_view(entries@);
            assert(crate::json::entries_view(entries@) =~= match interaction_json(self@) {
                JsonV::Object(e) => e,
                _ => Seq::empty(),
            });
        }
        r
    }

    /// Reads an interaction from its JSON form (see `decode_interaction`).
    pub fn from_json(v: &Json) -> (r: Result<McpInteraction, DecodeError>)
        ensures
            match r {
                Ok(i) => decode_interaction(v@) == Ok::<McpInteractionV, DecodeErrorV>(i@),
                Err(e) => decode_interaction(v@) == Err::<McpInteractionV, DecodeErrorV>(e@),
            },
    {
        match v {
            Json::Object(_) => interaction_parts_exec(
                v.get("schemaVersion"),
                v.get("operation"),
                v.get("request"),
                v.get("response"),
                decode_server_exec(v),
            ),
            Json::Array(items) => {
                proof {
                    crate::json::lemma_items_view(items@);
                }
                if items.len() != 5 {
                    Err(DecodeError::InvalidLength(String::from_str("mcp")))
                } else {
                    interaction_parts_exec(
                        Some(&items[0]),
                        Some(&items[1]),
                        Some(&items[2]),
                        Some(&items[3]),
                        decode_hint_exec(&items[4]),
                    )
                }
            },
            _ => Err(DecodeError::NotAnObject(String::from_str("mcp"))),
        }
    }
}

impl McpFragment {
    /// The JSON form of the fragment (see `fragment_json`).
    pub fn to_json(&self) -> (r: Json)
        ensures
            r@ == fragment_json(self@),
    {
        let mut entries: Vec<(String, Json)> = Vec::new();
        entries.push((String::from_str("pact:content-type"), Json::Str(self.pact_content_type.clone())));
        entries.push((String::from_str("mcp"), self.mcp.to_json()));
        proof {
            crate::json::lemma_entries_view(entries@);
            assert(crate::json::entries_view(entries@) =~= match fragment_json(self@) {
                JsonV::Object(e) => e,
                _ => Seq::empty(),
            });
        }
        Json::Object(entries)
    }

    /// Reads a fragment from its JSON form (see `decode_fragment`).
    pub fn from_json(v: &Json) -> (r: Result<McpFragment, DecodeError>)
        ensures
            match r {
                Ok(f) => decode_fragment(v@) == Ok::<McpFragmentV, DecodeErrorV>(f@),
                Err(e) => decode_fragment(v@) == Err::<McpFragmentV, DecodeErrorV>(e@),
            },
    {
        match v {
            Json::Object(_) => fragment_parts_exec(v.get("pact:content-type"), v.get("mcp")),
            Json::Array(items) => {
                proof {
                    crate::json::lemma_items_view(items@);
                }
                if items.len() != 2 {
                    Err(DecodeError::InvalidLength(String::from_str("$")))
                } else {
                    fragment_parts_exec(Some(&items[0]), Some(&items[1]))
                }
            },
            _ => Err(DecodeError::NotAnObject(String::from_str("$"))),
        }
    }
}

/// The model of a decoded server hint.
pub open spec fn hint_result_view(r: Result<Option<String>, DecodeError>) -> Result<Option<Seq<char>>, DecodeErrorV> {
    match r {
        Ok(Some(t)) => Ok(Some(t@)),
        Ok(None) => Ok(None),
        Err(e) => Err(e@),
    }
}

fn decode_operation_exec(x: &Json) -> (r: Result<Operation, DecodeError>)
    ensures
        match r {
            Ok(op) => decode_operation(x@) == Ok::<Operation, DecodeErrorV>(op),
            Err(e) => decode_operation(x@) == Err::<Operation, DecodeErrorV>(e@),
        },
{
    let name: Option<&str> = match x {
        Json::Str(s) => Some(s.as_str()),
        Json::Object(e) => {
            proof {
                crate::json::lemma_entries_view(e@);
            }
            if e.len() == 1 && e[0].1.is_null() {
                Some(e[0].0.as_str())
            } else {
                None
            }
        },
        _ => None,
    };
    assert(match name {
        Some(n) => Some(n@),
        None => None::<Seq<char>>,
    } == match x@ {
        JsonV::Str(s) => Some(s),
        JsonV::Object(e) => if e.len() == 1 && e[0].1 is Null {
            Some(e[0].0)
        } else {
            None
        },
        _ => None,
    });
    match name {
        None => Err(DecodeError::InvalidField(String::from_str("operation"))),
        Some(n) => match Operation::parse(n) {
            Some(op) => Ok(op),
            None => Err(DecodeError::UnknownOperation(String::from_str(n))),
        },
    }
}

fn decode_hint_exec(h: &Json) -> (r: Result<Option<String>, DecodeError>)
    ensures
        hint_result_view(r) == decode_hint(h@),
{
    match h {
        Json::Null => Ok(None),
        Json::Object(_) => match decode_str_exec(h, "transport") {
            Ok(t) => Ok(Some(t)),
            Err(e) => Err(e),
        },
        Json::Array(items) => {
            proof {
                crate::json::lemma_items_view(items@);
            }
            if items.len() != 1 {
                Err(DecodeError::InvalidLength(String::from_str("server")))
            } else {
                match &items[0] {
                    Json::Str(t) => Ok(Some(t.clone())),
                    _ => Err(DecodeError::InvalidField(String::from_str("transport"))),
                }
            }
        },
        _ => Err(DecodeError::InvalidField(String::from_str("server"))),
    }
}

fn decode_server_exec(v: &Json) -> (r: Result<Option<String>, DecodeError>)
    ensures
        hint_result_view(r) == decode_server(v@),
{
    match v.get("server") {
        None => Ok(None),
        Some(h) => decode_hint_exec(h),
    }
}

fn interaction_parts_exec(
    sv: Option<&Json>,
    op: Option<&Json>,
    req: Option<&Json>,
    resp: Option<&Json>,
    server: Result<Option<String>, DecodeError>,
) -> (r: Result<McpInteraction, DecodeError>)
    ensures
        match r {
            Ok(i) => interaction_parts(opt_view(sv), opt_view(op), opt_view(req), opt_view(resp), hint_result_view(server))
                == Ok::<McpInteractionV, DecodeErrorV>(i@),
            Err(e) => interaction_parts(opt_view(sv), opt_view(op), opt_view(req), opt_view(resp), hint_result_view(server))
                == Err::<McpInteractionV, DecodeErrorV>(e@),
        },
{
    let schema_version = match sv {
        None => return Err(DecodeError::MissingField(String::from_str("schemaVersion"))),
        Some(x) => match x {
            Json::Str(s) => s.clone(),
            _ => return Err(DecodeError::InvalidField(String::from_str("schemaVersion"))),
        },
    };
    let operation = match op {
        None => return Err(DecodeError::MissingField(String::from_str("operation"))),
        Some(o) => match decode_operation_exec(o) {
            Ok(op) => op,
            Err(e) => return Err(e),
        },
    };
    let request = match req {
        Some(x) => x.copy(),
        None => return Err(DecodeError::MissingField(String::from_str("request"))),
    };
    let response = match resp {
        Some(x) => x.copy(),
        None => return Err(DecodeError::MissingField(String::from_str("response"))),
    };
    let server = match server {
        Ok(Some(t)) => Some(ServerHint { transport: t }),
        Ok(None) => None,
        Err(e) => return Err(e),
    };
    Ok(McpInteraction { schema_version, operation, request, response, server, provider_states: None })
}

fn fragment_parts_exec(ct: Option<&Json>, m: Option<&Json>) -> (r: Result<McpFragment, DecodeError>)
    ensures
        match r {
            Ok(f) => fragment_parts(opt_view(ct), opt_view(m)) == Ok::<McpFragmentV, DecodeErrorV>(f@),
            Err(e) => fragment_parts(opt_view(ct), opt_view(m)) == Err::<McpFragmentV, DecodeErrorV>(e@),
        },
{
    let ct = match ct {
        None => return Err(DecodeError::MissingField(String::from_str("pact:content-type"))),
        Some(x) => match x {
            Json::Str(s) => s.clone(),
            _ => return Err(DecodeError::InvalidField(String::from_str("pact:content-type"))),
        },
    };
    let m = match m {
        Some(m) => m,
        None => return Err(DecodeError::MissingField(String::from_str("mcp"))),
    };
    match McpInteraction::from_json(m) {
        Ok(i) => Ok(McpFragment { pact_content_type: ct, mcp: i }),
        Err(e) => Err(e),
    }
}

/// Writing an interaction to its JSON form and reading it back gives the same
/// interaction, except that provider states (never persisted) come back absent.
pub proof fn law_interaction_round_trip(i: McpInteractionV)
    ensures
        decode_interaction(interaction_json(i)) == Ok::<McpInteractionV, DecodeErrorV>(
            McpInteractionV { provider_states: None, ..i },
        ),
{
    reveal_strlit("schemaVersion");
    reveal_strlit("operation");
    reveal_strlit("request");
    reveal_strlit("response");
    reveal_strlit("server");
    reveal_strlit("transport");
    law_operation_method_round_trip(i.operation, method_name(i.operation));
    let e = match interaction_json(i) {
        JsonV::Object(e) => e,
        _ => Seq::empty(),
    };
    assert(e[0].0 == "schemaVersion"@);
    assert(e[1].0 == "operation"@);
    assert(e[2].0 == "request"@);
    assert(e[3].0 == "response"@);
    assert("operation"@ != "schemaVersion"@);
    assert("request"@ != "schemaVersion"@ && "request"@ != "operation"@);
    assert("response"@ != "schemaVersion"@ && "response"@ != "operation"@ && "response"@ != "request"@);
    assert("server"@ != "schemaVersion"@ && "server"@ != "operation"@ && "server"@ != "request"@ && "server"@ != "response"@);
    assert(lookup(e, "schemaVersion"@) == Some(JsonV::Str(i.schema_version)));
    assert(lookup_from(e, "operation"@, 1) == Some(JsonV::Str(method_name(i.operation))));
    assert(lookup(e, "operation"@) == Some(JsonV::Str(method_name(i.operation))));
    assert(lookup_from(e, "request"@, 2) == Some(i.request));
    assert(lookup_from(e, "request"@, 1) == Some(i.request));
    assert(lookup(e, "request"@) == Some(i.request));
    assert(lookup_from(e, "response"@, 3) == Some(i.response));
    assert(lookup_from(e, "response"@, 2) == Some(i.response));
    assert(lookup_from(e, "response"@, 1) == Some(i.response));
    assert(lookup(e, "response"@) == Some(i.response));
    match i.server {
        Some(t) => {
            let h = JsonV::Object(seq![("transport"@, JsonV::Str(t))]);
            assert(e[4].0 == "server"@);
            assert(lookup_from(e, "server"@, 4) == Some(h));
            assert(lookup_from(e, "server"@, 3) == Some(h));
            assert(lookup_from(e, "server"@, 2) == Some(h));
            assert(lookup_from(e, "server"@, 1) == Some(h));
            assert(lookup(e, "server"@) == Some(h));
            assert(lookup(seq![("transport"@, JsonV::Str(t))], "transport"@) == Some(JsonV::Str(t)));
        },
        None => {
            assert(e.len() == 4);
            assert(lookup_from(e, "server"@, 4) is None);
            assert(lookup_from(e, "server"@, 3) is None);
            assert(lookup_from(e, "server"@, 2) is None);
            assert(lookup_from(e, "server"@, 1) is None);
            assert(lookup(e, "server"@) is None);
        },
    }
}

/// Writing a fragment to its JSON form and reading it back gives the same
/// fragment, except that provider states come back absent.
pub proof fn law_fragment_round_trip(f: McpFragmentV)
    ensures
        decode_fragment(fragment_json(f)) == Ok::<McpFragmentV, DecodeErrorV>(
            McpFragmentV { mcp: McpInteractionV { provider_states: None, ..f.mcp }, ..f },
        ),
{
    reveal_strlit("pact:content-type");
    reveal_strlit("mcp");
    law_interaction_round_trip(f.mcp);
    let e = seq![("pact:content-type"@, JsonV::Str(f.pact_content_type)), ("mcp"@, interaction_json(f.mcp))];
    assert("mcp"@.len() != "pact:content-type"@.len());
    assert(lookup(e, "pact:content-type"@) == Some(JsonV::Str(f.pact_content_type)));
    assert(lookup_from(e, "mcp"@, 1) == Some(interaction_json(f.mcp)));
    assert(lookup(e, "mcp"@) == Some(interaction_json(f.mcp)));
}

/// Provider states are applied at verification time and never persisted:
/// the fragment's JSON form is the same whatever states the interaction has.
pub proof fn law_provider_states_never_persisted(f: McpFragmentV, states: Option<JsonV>)
    ensures
        fragment_json(f) == fragment_json(
            McpFragmentV { mcp: McpInteractionV { provider_states: states, ..f.mcp }, ..f },
        ),
{
}

/// An operation is written as its JSON-RPC method name, and that name reads
/// back as the same operation; so no two operations share a name.
pub proof fn law_method_name_round_trip(op: Operation, other: Operation)
    ensures
        parse_operation(method_name(op)) == Some(op),
        method_name(op) == method_name(other) ==> op == other,
{
    reveal_strlit("tools/call");
    reveal_strlit("tools/list");
    reveal_strlit("resources/read");
    reveal_strlit("resources/list");
    reveal_strlit("prompts/get");
    reveal_strlit("prompts/list");
    assert("tools/call"@[6] != "tools/list"@[6]);
    assert("resources/read"@[10] != "resources/list"@[10]);
    assert("prompts/get"@.len() != "prompts/list"@.len());
    assert("tools/call"@.len() != "resources/read"@.len());
    assert("tools/call"@.len() != "prompts/get"@.len());
    assert("tools/call"@.len() != "resources/list"@.len());
    assert("tools/call"@.len() != "prompts/list"@.len());
    assert("tools/list"@.len() != "resources/read"@.len());
    assert("tools/list"@.len() != "prompts/get"@.len());
    assert("tools/list"@.len() != "resources/list"@.len());
    assert("tools/list"@.len() != "prompts/list"@.len());
    assert("resources/read"@.len() != "prompts/get"@.len());
    assert("resources/read"@.len() != "prompts/list"@.len());
    assert("resources/list"@.len() != "prompts/get"@.len());
    assert("resources/list"@.len() != "prompts/list"@.len());
}

} // verus!
