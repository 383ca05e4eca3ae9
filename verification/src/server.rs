//! The plugin's glue between persisted pact interactions and the engine:
//! reading an interaction back in either persisted shape, finding one by key,
//! extracting its matching rules, and mapping engine results to the plugin's
//! result records.
//!
//! Two persisted shapes are read:
//!  1. a single fragment: `contents.mcp` (or `mcp`) holding the whole interaction;
//!  2. the two-part synchronous message: the request body at
//!     `request.contents.content`, the response body at
//!     `response[0].contents.content`, and `operation` / `server` in the first
//!     entry of `pluginConfiguration`.
//!
//! "First" is in the entry order of the object as given; for a value read
//! through serde_json's default map that is the sorted order of the keys.
use vstd::prelude::*;
use crate::json::{Json, JsonV, jget, jget_str, jstr, opt_view, items_view, entries_view, lemma_items_view, json_text,
    render_json};
use crate::model::{McpInteraction, McpInteractionV, Operation, ServerHint, parse_operation,
    decode_interaction, decode_message, DecodeErrorV, SCHEMA_VERSION, CONTENT_TYPE};
use crate::text::{cat2, cat3};
use crate::content::{Mismatch, MismatchV, MatchResult, Rules, compare_response, response_mismatches};
use crate::config::{Body, RuleMap, rules_entries, rules_value};
use crate::mock::MockResult;

verus! {

/// JSON-pointer token `0`: the first element of an array, or the member `"0"`
/// of an object.
pub open spec fn at_zero(v: JsonV) -> Option<JsonV> {
    match v {
        JsonV::Array(a) => if a.len() > 0 {
            Some(a[0])
        } else {
            None
        },
        JsonV::Object(_) => jget(v, "0"@),
        _ => None,
    }
}

/// `v.get(key)` on an optional value.
pub open spec fn oget(v: Option<JsonV>, key: Seq<char>) -> Option<JsonV> {
    match v {
        Some(x) => jget(x, key),
        None => None,
    }
}

/// The first of two optional values that is present.
pub open spec fn or_else(a: Option<JsonV>, b: Option<JsonV>) -> Option<JsonV> {
    match a {
        Some(x) => Some(x),
        None => b,
    }
}

/// The single-fragment interaction: `contents.mcp`, else `mcp`.
pub open spec fn fragment_of(i: JsonV) -> Option<JsonV> {
    or_else(oget(jget(i, "contents"@), "mcp"@), jget(i, "mcp"@))
}

/// The two-part request body: `request.contents.content`, else `request.contents`.
pub open spec fn request_body(i: JsonV) -> Option<JsonV> {
    let contents = oget(jget(i, "request"@), "contents"@);
    or_else(oget(contents, "content"@), contents)
}

/// The two-part response body: `response[0].contents.content`, else
/// `response[0].contents`, else `response.contents.content`, else `null`.
pub open spec fn response_body(i: JsonV) -> JsonV {
    let first = match jget(i, "response"@) {
        Some(r) => at_zero(r),
        None => None,
    };
    let contents = oget(first, "contents"@);
    match or_else(or_else(oget(contents, "content"@), contents), oget(oget(jget(i, "response"@), "contents"@), "content"@)) {
        Some(b) => b,
        None => JsonV::Null,
    }
}

/// The plugin's own configuration: the first entry of `pluginConfiguration`,
/// when that is an object.
pub open spec fn plugin_config(i: JsonV) -> Option<JsonV> {
    match jget(i, "pluginConfiguration"@) {
        Some(JsonV::Object(e)) => if e.len() > 0 {
            Some(e[0].1)
        } else {
            None
        },
        _ => None,
    }
}

/// The operation of a two-part interaction: the plugin configuration's
/// `operation` when it names one; otherwise `tools/list` when the response
/// has `tools`, else `tools/call`.
pub open spec fn two_part_operation(i: JsonV, response: JsonV) -> Operation {
    let named = match oget(plugin_config(i), "operation"@) {
        Some(o) => match jstr(o) {
            Some(s) => parse_operation(s),
            None => None,
        },
        None => None,
    };
    match named {
        Some(op) => op,
        None => if jget(response, "tools"@) is Some {
            Operation::ToolsList
        } else {
            Operation::ToolsCall
        },
    }
}

/// The server hint of a two-part interaction: the plugin configuration's
/// `server.transport`, when a string.
pub open spec fn two_part_server(i: JsonV) -> Option<Seq<char>> {
    match oget(oget(plugin_config(i), "server"@), "transport"@) {
        Some(t) => jstr(t),
        None => None,
    }
}

/// What `interaction_from_value` reads from a persisted interaction.
pub open spec fn interaction_of(i: JsonV) -> Result<McpInteractionV, Seq<char>> {
    match fragment_of(i) {
        Some(m) => match decode_interaction(m) {
            Ok(x) => Ok(x),
            Err(e) => Err(decode_message(e)),
        },
        None => match request_body(i) {
            None => Err("interaction has neither contents.mcp nor request.contents.content"@),
            Some(request) => {
                let response = response_body(i);
                Ok(
                    McpInteractionV {
                        schema_version: SCHEMA_VERSION@,
                        operation: two_part_operation(i, response),
                        request,
                        response,
                        server: two_part_server(i),
                        provider_states: None,
                    },
                )
            },
        },
    }
}

/// The model of an interaction-reading result.
pub open spec fn interaction_result_view(r: Result<McpInteraction, String>) -> Result<McpInteractionV, Seq<char>> {
    match r {
        Ok(x) => Ok(x@),
        Err(e) => Err(e@),
    }
}

fn at_zero_exec(v: &Json) -> (r: Option<&Json>)
    ensures
        opt_view(r) == at_zero(v@),
{
    match v {
        Json::Array(a) => {
            proof {
                lemma_items_view(a@);
            }
            if a.len() > 0 {
                Some(&a[0])
            } else {
                None
            }
        },
        Json::Object(_) => v.get("0"),
        _ => None,
    }
}

fn oget_exec<'a>(v: Option<&'a Json>, key: &str) -> (r: Option<&'a Json>)
    ensures
        opt_view(r) == oget(opt_view(v), key@),
{
    match v {
        Some(x) => x.get(key),
        None => None,
    }
}

fn or_else_exec<'a>(a: Option<&'a Json>, b: Option<&'a Json>) -> (r: Option<&'a Json>)
    ensures
        opt_view(r) == or_else(opt_view(a), opt_view(b)),
{
    match a {
        Some(x) => Some(x),
        None => b,
    }
}

fn plugin_config_exec(i: &Json) -> (r: Option<&Json>)
    ensures
        opt_view(r) == plugin_config(i@),
{
    match i.get("pluginConfiguration") {
        Some(pc) => match pc {
            Json::Object(o) => {
                proof {
                    crate::json::lemma_entries_view(o@);
                }
                if o.len() > 0 {
                    Some(&o[0].1)
                } else {
                    None
                }
            },
            _ => None,
        },
        None => None,
    }
}

/// Reads an MCP interaction back from a persisted pact interaction, in either
/// persisted shape (see the module documentation).
pub fn interaction_from_value(interaction: &Json) -> (r: Result<McpInteraction, String>)
    ensures
        interaction_result_view(r) == interaction_of(interaction@),
{
    let fragment = or_else_exec(oget_exec(interaction.get("contents"), "mcp"), interaction.get("mcp"));
    match fragment {
        Some(m) => {
            return match McpInteraction::from_json(m) {
                Ok(x) => Ok(x),
                Err(e) => Err(e.message()),
            };
        },
        None => {},
    }
    let contents = oget_exec(interaction.get("request"), "contents");
    let request = match or_else_exec(oget_exec(contents, "content"), contents) {
        Some(r) => r.copy(),
        None => {
            return Err(String::from_str("interaction has neither contents.mcp nor request.contents.content"));
        },
    };
    let first = match interaction.get("response") {
        Some(r) => at_zero_exec(r),
        None => None,
    };
    let first_contents = oget_exec(first, "contents");
    let response = match or_else_exec(
        or_else_exec(oget_exec(first_contents, "content"), first_contents),
        oget_exec(oget_exec(interaction.get("response"), "contents"), "content"),
    ) {
        Some(b) => b.copy(),
        None => Json::Null,
    };
    let pc = plugin_config_exec(interaction);
    let named = match oget_exec(pc, "operation") {
        Some(o) => match o.as_str() {
            Some(s) => Operation::parse(s),
            None => None,
        },
        None => None,
    };
    let operation = match named {
        Some(op) => op,
        None => if response.get("tools").is_some() {
            Operation::ToolsList
        } else {
            Operation::ToolsCall
        },
    };
    let server = match oget_exec(oget_exec(pc, "server"), "transport") {
        Some(t) => match t.as_str() {
            Some(s) => Some(ServerHint { transport: String::from_str(s) }),
            None => None,
        },
        None => None,
    };
    let mut mcp = McpInteraction::new(operation, request, response);
    mcp.server = server;
    Ok(mcp)
}

/// The first interaction whose `description` or `key` is `key`.
pub open spec fn find_interaction(items: Seq<JsonV>, key: Seq<char>, i: int) -> Option<JsonV>
    decreases items.len() - i,
{
    if i < 0 || i >= items.len() {
        None
    } else if jget_str(items[i], "description"@) == Some(key) || jget_str(items[i], "key"@) == Some(key) {
        Some(items[i])
    } else {
        find_interaction(items, key, i + 1)
    }
}

/// What `extract_interaction` finds in a pact for a key.
pub open spec fn extracted(pact: JsonV, key: Seq<char>) -> Result<McpInteractionV, Seq<char>> {
    match oget(Some(pact), "interactions"@) {
        Some(JsonV::Array(items)) => match find_interaction(items, key, 0) {
            Some(i) => interaction_of(i),
            None => Err("no interaction found for key `"@ + key + "`"@),
        },
        _ => Err("pact has no interactions"@),
    }
}

fn str_member_is(v: &Json, member: &str, key: &str) -> (r: bool)
    ensures
        r == (jget_str(v@, member@) == Some(key@)),
{
    match v.get(member) {
        Some(m) => match m.as_str() {
            Some(s) => s.eq(key),
            None => false,
        },
        None => false,
    }
}

/// Looks up an interaction of a pact-as-JSON document by its `description`
/// (or `key`) and reads it as an MCP interaction.
pub fn extract_interaction(pact: &Json, interaction_key: &str) -> (r: Result<McpInteraction, String>)
    ensures
        interaction_result_view(r) == extracted(pact@, interaction_key@),
{
    let items = match pact.get("interactions") {
        Some(v) => v.as_array(),
        None => None,
    };
    let items = match items {
        Some(a) => a,
        None => {
            return Err(String::from_str("pact has no interactions"));
        },
    };
    proof {
        lemma_items_view(items@);
    }
    let ghost iv = items_view(items@);
    let mut i: usize = 0;
    while i < items.len()
        invariant
            i <= items.len(),
            iv == items_view(items@),
            iv.len() == items@.len(),
            forall|k: int| 0 <= k < items@.len() ==> #[trigger] iv[k] == items@[k]@,
            find_interaction(iv, interaction_key@, i as int) == find_interaction(iv, interaction_key@, 0),
            oget(Some(pact@), "interactions"@) == Some(JsonV::Array(iv)),
        decreases items.len() - i,
    {
        if str_member_is(&items[i], "description", interaction_key) || str_member_is(
            &items[i],
            "key",
            interaction_key,
        ) {
            return interaction_from_value(&items[i]);
        }
        i = i + 1;
    }
    Err(cat3("no interaction found for key `", interaction_key, "`"))
}

/// The request-side matching rules of a persisted interaction:
/// `request.matchingRules.body`, else `matchingRules.request`.
pub open spec fn request_rules_of(i: JsonV) -> Option<JsonV> {
    or_else(oget(oget(jget(i, "request"@), "matchingRules"@), "body"@), oget(jget(i, "matchingRules"@), "request"@))
}

/// The response-side matching rules of a persisted interaction:
/// `response[0].matchingRules.body`, else `matchingRules.response`.
pub open spec fn response_rules_of(i: JsonV) -> Option<JsonV> {
    let first = match jget(i, "response"@) {
        Some(r) => at_zero(r),
        None => None,
    };
    or_else(oget(oget(first, "matchingRules"@), "body"@), oget(jget(i, "matchingRules"@), "response"@))
}

/// The model of an optional owned value.
pub open spec fn owned_view(o: Option<Json>) -> Option<JsonV> {
    match o {
        Some(j) => Some(j@),
        None => None,
    }
}

fn copy_opt(o: Option<&Json>) -> (r: Option<Json>)
    ensures
        owned_view(r) == opt_view(o),
{
    match o {
        Some(j) => Some(j.copy()),
        None => None,
    }
}

/// The request-side matching rules of a persisted interaction (keyed
/// `$.<path>` from the request body), if any.
pub fn request_matching_rules(interaction: &Json) -> (r: Option<Json>)
    ensures
        owned_view(r) == request_rules_of(interaction@),
{
    copy_opt(
        or_else_exec(
            oget_exec(oget_exec(interaction.get("request"), "matchingRules"), "body"),
            oget_exec(interaction.get("matchingRules"), "request"),
        ),
    )
}

/// The response-side matching rules of a persisted interaction (keyed
/// `$.<path>` from the response body), if any.
pub fn response_matching_rules(interaction: &Json) -> (r: Option<Json>)
    ensures
        owned_view(r) == response_rules_of(interaction@),
{
    let first = match interaction.get("response") {
        Some(r) => at_zero_exec(r),
        None => None,
    };
    copy_opt(
        or_else_exec(
            oget_exec(oget_exec(first, "matchingRules"), "body"),
            oget_exec(interaction.get("matchingRules"), "response"),
        ),
    )
}

/// The UTF-8 bytes of a value's JSON text.
pub open spec fn json_bytes(v: JsonV) -> Seq<u8> {
    vstd::utf8::encode_utf8(json_text(v))
}

fn json_bytes_exec(v: &Json) -> (r: Vec<u8>)
    ensures
        r@ == json_bytes(v@),
{
    render_json(v).as_str().as_bytes_vec()
}

/// One content mismatch as the plugin reports it.
#[derive(Debug)]
pub struct ContentMismatch {
    /// The expected value's JSON bytes, when known.
    pub expected: Option<Vec<u8>>,
    /// The actual value's JSON bytes, when known.
    pub actual: Option<Vec<u8>>,
    pub mismatch: String,
    pub path: String,
    pub diff: String,
    pub mismatch_type: String,
}

/// The model of a `ContentMismatch`.
pub struct ContentMismatchV {
    pub expected: Option<Seq<u8>>,
    pub actual: Option<Seq<u8>>,
    pub mismatch: Seq<char>,
    pub path: Seq<char>,
    pub diff: Seq<char>,
    pub mismatch_type: Seq<char>,
}

/// The model of optional bytes.
pub open spec fn bytes_view(b: Option<Vec<u8>>) -> Option<Seq<u8>> {
    match b {
        Some(v) => Some(v@),
        None => None,
    }
}

impl View for ContentMismatch {
    type V = ContentMismatchV;

    open spec fn view(&self) -> ContentMismatchV {
        ContentMismatchV {
            expected: bytes_view(self.expected),
            actual: bytes_view(self.actual),
            mismatch: self.mismatch@,
            path: self.path@,
            diff: self.diff@,
            mismatch_type: self.mismatch_type@,
        }
    }
}

/// The models of a list of content mismatches.
pub open spec fn content_views(s: Seq<ContentMismatch>) -> Seq<ContentMismatchV> {
    s.map_values(|c: ContentMismatch| c@)
}

/// An engine mismatch as reported: both values as JSON bytes, the message
/// and path kept, no diff, of type `body`.
pub open spec fn report_of(m: MismatchV) -> ContentMismatchV {
    ContentMismatchV {
        expected: Some(json_bytes(m.expected)),
        actual: Some(json_bytes(m.actual)),
        mismatch: m.message,
        path: m.path,
        diff: Seq::empty(),
        mismatch_type: "body"@,
    }
}

/// Reports an engine mismatch.
pub fn content_mismatch(m: &Mismatch) -> (r: ContentMismatch)
    ensures
        r@ == report_of(m@),
{
    let r = ContentMismatch {
        expected: Some(json_bytes_exec(&m.expected)),
        actual: Some(json_bytes_exec(&m.actual)),
        mismatch: m.message.clone(),
        path: m.path.clone(),
        diff: String::new(),
        mismatch_type: String::from_str("body"),
    };
    assert(r.diff@ =~= Seq::<char>::empty());
    r
}

/// Reports every mismatch of a comparison, in order.
pub fn report_mismatches(result: &MatchResult) -> (r: Vec<ContentMismatch>)
    ensures
        content_views(r@) == result@.map_values(|m: MismatchV| report_of(m)),
{
    let mut out: Vec<ContentMismatch> = Vec::new();
    let mut i: usize = 0;
    while i < result.mismatches.len()
        invariant
            i <= result.mismatches.len(),
            out@.len() == i,
            forall|k: int| 0 <= k < i ==> #[trigger] out@[k]@ == report_of(result@[k]),
        decreases result.mismatches.len() - i,
    {
        out.push(content_mismatch(&result.mismatches[i]));
        i = i + 1;
    }
    assert(content_views(out@) =~= result@.map_values(|m: MismatchV| report_of(m)));
    out
}

/// The operation named by an interaction's plugin configuration, `tools/call`
/// when it names none.
pub open spec fn configured_operation(name: Option<Seq<char>>) -> Operation {
    match name {
        Some(s) => match parse_operation(s) {
            Some(op) => op,
            None => Operation::ToolsCall,
        },
        None => Operation::ToolsCall,
    }
}

/// The model of an optional string slice.
pub open spec fn str_opt_view(s: Option<&str>) -> Option<Seq<char>> {
    match s {
        Some(x) => Some(x@),
        None => None,
    }
}

/// Compares an expected and an actual response body under the interaction's
/// operation (as configured, `tools/call` by default) and rules, reporting
/// each mismatch.
pub fn compare_contents(expected: &Json, actual: &Json, operation: Option<&str>, rules: &RuleMap) -> (r: Vec<
    ContentMismatch,
>)
    ensures
        content_views(r@) == response_mismatches(
            configured_operation(str_opt_view(operation)),
            expected@,
            actual@,
            Some(JsonV::Object(rules_entries(rules@))),
        ).map_values(|m: MismatchV| report_of(m)),
{
    let op = match operation {
        Some(s) => match Operation::parse(s) {
            Some(op) => op,
            None => Operation::ToolsCall,
        },
        None => Operation::ToolsCall,
    };
    let rules_json = rules_value(rules);
    let r = Rules::new(Some(&rules_json));
    let result = compare_response(op, expected, actual, &r);
    report_mismatches(&result)
}

/// A recorded mock request as the plugin reports it.
#[derive(Debug)]
pub struct MockServerResult {
    pub path: String,
    /// The error, empty when there was none.
    pub error: String,
    pub mismatches: Vec<ContentMismatch>,
}

/// The report of a miss at a path.
pub open spec fn miss_report(p: Seq<char>) -> ContentMismatchV {
    ContentMismatchV {
        expected: None,
        actual: None,
        mismatch: "no interaction matched at "@ + p,
        path: p,
        diff: Seq::empty(),
        mismatch_type: "body"@,
    }
}

/// Maps a mock result to the plugin's result record: the error or empty, and
/// one mismatch per path.
pub fn to_proto_result(r: MockResult) -> (out: MockServerResult)
    ensures
        out.path@ == r@.path,
        out.error@ == match r@.error {
            Some(e) => e,
            None => Seq::empty(),
        },
        content_views(out.mismatches@) == r@.mismatches.map_values(|p: Seq<char>| miss_report(p)),
{
    let ghost rv = r@;
    let mut mismatches: Vec<ContentMismatch> = Vec::new();
    let mut i: usize = 0;
    while i < r.mismatches.len()
        invariant
            i <= r.mismatches.len(),
            rv == r@,
            mismatches@.len() == i,
            forall|k: int| 0 <= k < i ==> #[trigger] mismatches@[k]@ == miss_report(rv.mismatches[k]),
        decreases r.mismatches.len() - i,
    {
        let p = r.mismatches[i].clone();
        let c = ContentMismatch {
            expected: None,
            actual: None,
            mismatch: cat2("no interaction matched at ", p.as_str()),
            path: p,
            diff: String::new(),
            mismatch_type: String::from_str("body"),
        };
        assert(c.diff@ =~= Seq::<char>::empty());
        assert(rv.mismatches[i as int] == r.mismatches@[i as int]@);
        mismatches.push(c);
        i = i + 1;
    }
    assert(content_views(mismatches@) =~= rv.mismatches.map_values(|p: Seq<char>| miss_report(p)));
    let error = match r.error {
        Some(e) => e,
        None => String::new(),
    };
    assert(rv.error is None ==> error@ =~= Seq::<char>::empty());
    MockServerResult { path: r.path, error, mismatches }
}

/// A recorded request succeeded: no error and no mismatch.
pub open spec fn result_ok(r: MockServerResult) -> bool {
    r.error@.len() == 0 && r.mismatches@.len() == 0
}

/// Every recorded request succeeded.
pub fn results_ok(results: &Vec<MockServerResult>) -> (r: bool)
    ensures
        r == forall|k: int| 0 <= k < results@.len() ==> #[trigger] result_ok(results@[k]),
{
    let mut i: usize = 0;
    while i < results.len()
        invariant
            i <= results.len(),
            forall|k: int| 0 <= k < i ==> #[trigger] result_ok(results@[k]),
        decreases results.len() - i,
    {
        let ok = results[i].error.as_str().unicode_len() == 0 && results[i].mismatches.len() == 0;
        if !ok {
            assert(!result_ok(results@[i as int]));
            return false;
        }
        assert(result_ok(results@[i as int]));
        i = i + 1;
    }
    true
}

/// The transport a mock is served over.
#[derive(Debug, PartialEq, Eq, Structural, Clone, Copy)]
pub enum MockTransport {
    /// A spawnable handoff: the client runs the mock over its own stdio.
    Stdio,
    /// A loopback Streamable HTTP mock.
    Http,
}

/// The mock transport a test context asks for: `http` when its `transport`
/// is `"http"`, stdio otherwise.
pub open spec fn requested_transport(test_context: Option<JsonV>) -> MockTransport {
    match oget(test_context, "transport"@) {
        Some(t) => if jstr(t) == Some("http"@) {
            MockTransport::Http
        } else {
            MockTransport::Stdio
        },
        None => MockTransport::Stdio,
    }
}

/// The mock transport a test context asks for.
pub fn mock_transport(test_context: Option<&Json>) -> (r: MockTransport)
    ensures
        r == requested_transport(opt_view(test_context)),
{
    match oget_exec(test_context, "transport") {
        Some(t) => match t.as_str() {
            Some(s) => if s.eq("http") {
                MockTransport::Http
            } else {
                MockTransport::Stdio
            },
            None => MockTransport::Stdio,
        },
        None => MockTransport::Stdio,
    }
}

/// The handoff a client spawns the stdio mock from:
/// `{"args": ["mock", "--pact", <pact>, "--results", <results>], "command": <exe>, "env": {}, "transport": "stdio"}`.
pub open spec fn handoff_json(command: Seq<char>, pact_path: Seq<char>, results_path: Seq<char>) -> JsonV {
    JsonV::Object(
        seq![
            ("args"@, JsonV::Array(
                seq![
                    JsonV::Str("mock"@),
                    JsonV::Str("--pact"@),
                    JsonV::Str(pact_path),
                    JsonV::Str("--results"@),
                    JsonV::Str(results_path),
                ],
            )),
            ("command"@, JsonV::Str(command)),
            ("env"@, JsonV::Object(Seq::empty())),
            ("transport"@, JsonV::Str("stdio"@)),
        ],
    )
}

fn str_json(s: &str) -> (r: Json)
    ensures
        r@ == JsonV::Str(s@),
{
    Json::Str(String::from_str(s))
}

/// The spawnable handoff for the stdio mock.
pub fn stdio_handoff(command: &str, pact_path: &str, results_path: &str) -> (r: Json)
    ensures
        r@ == handoff_json(command@, pact_path@, results_path@),
{
    let mut args: Vec<Json> = Vec::new();
    args.push(str_json("mock"));
    args.push(str_json("--pact"));
    args.push(str_json(pact_path));
    args.push(str_json("--results"));
    args.push(str_json(results_path));
    proof {
        assert(args@.drop_last().drop_last().drop_last().drop_last().drop_last() =~= Seq::<Json>::empty());
        assert(items_view(args@) =~= seq![
            JsonV::Str("mock"@),
            JsonV::Str("--pact"@),
            JsonV::Str(pact_path@),
            JsonV::Str("--results"@),
            JsonV::Str(results_path@),
        ]) by {
            lemma_items_view(args@);
        }
    }
    let arr = Json::Array(args);
    let env = Json::Object(Vec::new());
    assert(env@ == JsonV::Object(Seq::empty()));
    let mut entries: Vec<(String, Json)> = Vec::new();
    entries.push((String::from_str("args"), arr));
    entries.push((String::from_str("command"), str_json(command)));
    entries.push((String::from_str("env"), env));
    entries.push((String::from_str("transport"), str_json("stdio")));
    proof {
        crate::json::lemma_entries_view(entries@);
        assert(entries_view(entries@) =~= seq![
            ("args"@, JsonV::Array(seq![
                JsonV::Str("mock"@),
                JsonV::Str("--pact"@),
                JsonV::Str(pact_path@),
                JsonV::Str("--results"@),
                JsonV::Str(results_path@),
            ])),
            ("command"@, JsonV::Str(command@)),
            ("env"@, JsonV::Object(Seq::empty())),
            ("transport"@, JsonV::Str("stdio"@)),
        ]);
    }
    Json::Object(entries)
}

/// The body a provider is verified with: the interaction's request, as JSON
/// bytes, under this plugin's content type.
pub fn verification_body(interaction: &McpInteraction) -> (r: Body)
    ensures
        r.content_type@ == CONTENT_TYPE@,
        r.content matches Some(b) && b@ == json_bytes(interaction.request@),
{
    Body { content_type: String::from_str(CONTENT_TYPE), content: Some(json_bytes_exec(&interaction.request)) }
}

/// Whether a plugin call is admitted: its `authorization` value is present
/// (and readable as text) and equal to the server key the plugin printed.
pub fn server_key_accepted(provided: Option<&str>, server_key: &str) -> (r: bool)
    ensures
        r == (provided matches Some(k) && k@ == server_key@),
{
    match provided {
        Some(k) => k.eq(server_key),
        None => false,
    }
}

/// A two-part interaction (no fragment under `contents.mcp` or `mcp`, a
/// request body under `request.contents`) whose first `pluginConfiguration`
/// entry names an MCP operation is read back with exactly that operation,
/// whatever its response holds.
pub proof fn law_named_operation_is_kept(
    i: JsonV,
    config: Seq<(Seq<char>, JsonV)>,
    request: JsonV,
    contents: JsonV,
    name: Seq<char>,
    op: Operation,
)
    requires
        jget(i, "contents"@) is None,
        jget(i, "mcp"@) is None,
        jget(i, "request"@) == Some(request),
        jget(request, "contents"@) == Some(contents),
        jget(i, "pluginConfiguration"@) == Some(JsonV::Object(config)),
        config.len() > 0,
        jget(config[0].1, "operation"@) == Some(JsonV::Str(name)),
        parse_operation(name) == Some(op),
    ensures
        interaction_of(i) is Ok,
        interaction_of(i)->Ok_0.operation == op,
{
}

} // verus!
