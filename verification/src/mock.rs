//! The mock MCP server's decisions, synthesized from the interactions of a
//! pact: which tools it advertises, which configured interaction an incoming
//! `tools/call` selects (by name and arguments, under the request-side
//! matching rules), and the record it keeps of every request.
use vstd::prelude::*;
use crate::json::{Json, JsonV, jget, jget_str, json_wf, items_view, entries_view, lemma_items_view, to_serde_value, copy_entries};
use crate::model::{McpInteraction, McpInteractionV, Operation};
use crate::content::{match_tools_call_request, Rules, MismatchV, sorted_strict, strings_view, tools_call_request,
    raw_view, lemma_covers_refl, lemma_structured_empty};
use crate::server::{interaction_from_value, request_matching_rules, interaction_of, request_rules_of, owned_view};
use crate::text::cat2;

verus! {

/// Name for the name of the tool that rmcp reads from a JSON value
/// (`serde_json::from_value::<rmcp::model::Tool>`), `None` when the value is
/// not a valid tool.
pub uninterp spec fn rmcp_tool_name(v: JsonV) -> Option<Seq<char>>;

/// rmcp's `Tool` deserializer applied to a value, giving the tool's name when
/// the value is a valid tool. The contract names the outcome by the value's
/// model and says no more.
#[verifier::external_body]
fn parse_tool_name(v: &Json) -> (r: Option<String>)
    ensures
        match r {
            Some(n) => rmcp_tool_name(v@) == Some(n@),
            None => rmcp_tool_name(v@) is None,
        },
{
    serde_json::from_value::<rmcp::model::Tool>(to_serde_value(v)).ok().map(|t| t.name.to_string())
}

/// Name for the text that `str`'s `Debug` prints for a string (quoted and
/// escaped).
pub uninterp spec fn debug_text(s: Seq<char>) -> Seq<char>;

/// `format!("{:?}", s)` for a string slice.
#[verifier::external_body]
fn debug_str(s: &str) -> (r: String)
    ensures
        r@ == debug_text(s@),
{
    format!("{:?}", s)
}

/// One request the mock received, matched or not.
#[derive(Debug, Clone)]
pub struct MockResult {
    /// The MCP method, such as `tools/call`.
    pub path: String,
    /// Why the request could not be handled or matched, if it could not.
    pub error: Option<String>,
    /// The mismatch paths of the closest miss.
    pub mismatches: Vec<String>,
}

/// The model of a `MockResult`.
pub struct MockResultV {
    pub path: Seq<char>,
    pub error: Option<Seq<char>>,
    pub mismatches: Seq<Seq<char>>,
}

impl View for MockResult {
    type V = MockResultV;

    open spec fn view(&self) -> MockResultV {
        MockResultV {
            path: self.path@,
            error: match self.error {
                Some(e) => Some(e@),
                None => None,
            },
            mismatches: strings_view(self.mismatches@),
        }
    }
}

/// The models of a list of results.
pub open spec fn results_view(s: Seq<MockResult>) -> Seq<MockResultV> {
    s.map_values(|r: MockResult| r@)
}

/// A configured interaction and its request-side matching rules.
#[derive(Debug)]
struct MockInteraction {
    mcp: McpInteraction,
    request_rules: Option<Json>,
}

/// The model of a configured interaction.
pub struct MockInteractionV {
    pub mcp: McpInteractionV,
    pub request_rules: Option<JsonV>,
}

/// The model of a mock: its interactions, and the results recorded so far.
pub struct MockServerV {
    pub interactions: Seq<MockInteractionV>,
    pub results: Seq<MockResultV>,
}

/// The mock's interactions and the results it has recorded.
#[derive(Debug)]
pub struct MockServer {
    interactions: Vec<MockInteraction>,
    results: Vec<MockResult>,
}

spec fn interaction_views(s: Seq<MockInteraction>) -> Seq<MockInteractionV> {
    s.map_values(|m: MockInteraction| MockInteractionV { mcp: m.mcp@, request_rules: owned_view(m.request_rules) })
}

impl View for MockServer {
    type V = MockServerV;

    closed spec fn view(&self) -> MockServerV {
        MockServerV { interactions: interaction_views(self.interactions@), results: results_view(self.results@) }
    }
}

/// A tool the mock advertises: one listed by a `tools/list` interaction (its
/// definition kept), or one synthesized for a `tools/call` name.
#[derive(Debug)]
pub struct AdvertisedTool {
    pub name: String,
    /// The listed definition; `None` for a synthesized tool, which has the
    /// description `SYNTHESIZED_TOOL_DESCRIPTION` and an object input schema.
    pub definition: Option<Json>,
}

/// The description of a synthesized tool.
pub const SYNTHESIZED_TOOL_DESCRIPTION: &'static str = "Synthesized by the pact mock";

/// The model of an advertised tool.
pub struct AdvertisedToolV {
    pub name: Seq<char>,
    pub definition: Option<JsonV>,
}

impl View for AdvertisedTool {
    type V = AdvertisedToolV;

    open spec fn view(&self) -> AdvertisedToolV {
        AdvertisedToolV { name: self.name@, definition: owned_view(self.definition) }
    }
}

/// The models of a list of advertised tools.
pub open spec fn tools_view(s: Seq<AdvertisedTool>) -> Seq<AdvertisedToolV> {
    s.map_values(|t: AdvertisedTool| t@)
}

/// Some tool in the list has this name.
pub open spec fn has_tool(tools: Seq<AdvertisedToolV>, name: Seq<char>) -> bool {
    exists|k: int| 0 <= k < tools.len() && #[trigger] tools[k].name == name
}

/// A tool is added unless one of that name is already advertised.
pub open spec fn with_tool(tools: Seq<AdvertisedToolV>, name: Seq<char>, definition: Option<JsonV>) -> Seq<
    AdvertisedToolV,
> {
    if has_tool(tools, name) {
        tools
    } else {
        tools.push(AdvertisedToolV { name, definition })
    }
}

/// The valid tools of a `tools/list` response's `tools`, in order.
pub open spec fn add_listed(tools: Seq<AdvertisedToolV>, items: Seq<JsonV>) -> Seq<AdvertisedToolV>
    decreases items.len(),
{
    if items.len() == 0 {
        tools
    } else {
        let t = add_listed(tools, items.drop_last());
        match rmcp_tool_name(items.last()) {
            Some(n) => with_tool(t, n, Some(items.last())),
            None => t,
        }
    }
}

/// The tools one interaction contributes: the listed tools of a `tools/list`
/// response, or a synthesized tool for a `tools/call` request's name.
pub open spec fn add_interaction_tools(tools: Seq<AdvertisedToolV>, i: McpInteractionV) -> Seq<AdvertisedToolV> {
    match i.operation {
        Operation::ToolsList => match jget(i.response, "tools"@) {
            Some(JsonV::Array(items)) => add_listed(tools, items),
            _ => tools,
        },
        Operation::ToolsCall => match jget_str(i.request, "name"@) {
            Some(n) => with_tool(tools, n, None),
            None => tools,
        },
        _ => tools,
    }
}

/// The tools advertised for a list of interactions, first occurrence of each
/// name kept.
pub open spec fn advertised(ints: Seq<MockInteractionV>) -> Seq<AdvertisedToolV>
    decreases ints.len(),
{
    if ints.len() == 0 {
        Seq::empty()
    } else {
        add_interaction_tools(advertised(ints.drop_last()), ints.last().mcp)
    }
}

/// The set of paths of some mismatches.
pub open spec fn path_set(ms: Seq<MismatchV>) -> Set<Seq<char>> {
    Set::new(|p: Seq<char>| exists|k: int| 0 <= k < ms.len() && ms[k].path == p)
}

/// A miss is worth reporting over an earlier one when some path is not the
/// tool name.
pub open spec fn beyond_name(paths: Set<Seq<char>>) -> bool {
    exists|p: Seq<char>| paths.contains(p) && p != "$.name"@
}

/// How a `tools/call` turns out: the response of the selected interaction, or
/// the mismatch paths of the closest miss.
pub enum CallOutcome {
    Matched(JsonV),
    Missed(Set<Seq<char>>),
}

/// Scanning the interactions from `i` on: the first `tools/call` interaction
/// whose request matches the incoming call is selected; each miss replaces
/// the closest miss so far when there is none yet or it goes beyond the name.
pub open spec fn scan_calls(
    ints: Seq<MockInteractionV>,
    incoming: JsonV,
    i: int,
    best: Option<Set<Seq<char>>>,
) -> CallOutcome
    decreases ints.len() - i,
{
    if i < 0 || i >= ints.len() {
        CallOutcome::Missed(
            match best {
                Some(b) => b,
                None => Set::empty(),
            },
        )
    } else if ints[i].mcp.operation != Operation::ToolsCall {
        scan_calls(ints, incoming, i + 1, best)
    } else {
        let ms = tools_call_request(ints[i].mcp.request, incoming, ints[i].request_rules);
        if ms.len() == 0 {
            CallOutcome::Matched(ints[i].mcp.response)
        } else {
            let paths = path_set(ms);
            scan_calls(
                ints,
                incoming,
                i + 1,
                if best is None || beyond_name(paths) {
                    Some(paths)
                } else {
                    best
                },
            )
        }
    }
}

/// The incoming call as the engine sees it: `{"arguments": .., "name": ..}`,
/// with no arguments read as `{}`.
pub open spec fn incoming_call(name: Seq<char>, arguments: Option<Seq<(Seq<char>, JsonV)>>) -> JsonV {
    JsonV::Object(seq![("arguments"@, JsonV::Object(entries_or_empty(arguments))), ("name"@, JsonV::Str(name))])
}

/// The entries given, or none.
pub open spec fn entries_or_empty(arguments: Option<Seq<(Seq<char>, JsonV)>>) -> Seq<(Seq<char>, JsonV)> {
    match arguments {
        Some(a) => a,
        None => Seq::empty(),
    }
}

/// The model of optional call arguments.
pub open spec fn args_view(arguments: Option<&Vec<(String, Json)>>) -> Option<Seq<(Seq<char>, JsonV)>> {
    match arguments {
        Some(a) => Some(entries_view(a@)),
        None => None,
    }
}

fn incoming_call_json(name: &str, arguments: Option<&Vec<(String, Json)>>) -> (r: Json)
    ensures
        r@ == incoming_call(name@, args_view(arguments)),
{
    let args = match arguments {
        Some(a) => copy_entries(a),
        None => Vec::new(),
    };
    let ghost av = entries_view(args@);
    assert(av == entries_or_empty(args_view(arguments)));
    let arg_json = Json::Object(args);
    assert(arg_json@ == JsonV::Object(av));
    let name_json = Json::Str(String::from_str(name));
    assert(name_json@ == JsonV::Str(name@));
    let mut entries: Vec<(String, Json)> = Vec::new();
    entries.push((String::from_str("arguments"), arg_json));
    proof {
        assert(entries@.drop_last() =~= Seq::<(String, Json)>::empty());
        assert(entries_view(entries@.drop_last()) =~= Seq::<(Seq<char>, JsonV)>::empty());
        assert(entries_view(entries@) =~= seq![("arguments"@, JsonV::Object(av))]);
    }
    let ghost first = entries@;
    entries.push((String::from_str("name"), name_json));
    proof {
        assert(entries@.drop_last() == first);
        assert(entries_view(entries@) =~= seq![("arguments"@, JsonV::Object(av)), ("name"@, JsonV::Str(name@))]);
    }
    Json::Object(entries)
}

proof fn lemma_replayed_from(
    ints: Seq<MockInteractionV>,
    k: int,
    name: Seq<char>,
    args: Seq<(Seq<char>, JsonV)>,
    i: int,
    best: Option<Set<Seq<char>>>,
)
    requires
        0 <= i <= k < ints.len(),
        ints[k].mcp.operation == Operation::ToolsCall,
        ints[k].request_rules is None,
        jget_str(ints[k].mcp.request, "name"@) == Some(name),
        jget(ints[k].mcp.request, "arguments"@) == Some(JsonV::Object(args)),
        json_wf(JsonV::Object(args)),
    ensures
        scan_calls(ints, incoming_call(name, Some(args)), i, best) is Matched,
    decreases k - i,
{
    let inc = incoming_call(name, Some(args));
    if i == k {
        reveal_strlit("name");
        reveal_strlit("arguments");
        let e = seq![("arguments"@, JsonV::Object(args)), ("name"@, JsonV::Str(name))];
        assert(inc == JsonV::Object(e));
        assert("arguments"@.len() != "name"@.len());
        assert(crate::json::lookup_from(e, "name"@, 1) == Some(JsonV::Str(name)));
        assert(crate::json::lookup_from(e, "name"@, 0) == Some(JsonV::Str(name)));
        assert(jget_str(inc, "name"@) == Some(name));
        assert(jget(inc, "arguments"@) == Some(JsonV::Object(args)));
        lemma_covers_refl(JsonV::Object(args));
        lemma_structured_empty("$.arguments"@, JsonV::Object(args), JsonV::Object(args));
        assert(tools_call_request(ints[i].mcp.request, inc, ints[i].request_rules).len() == 0);
    } else if ints[i].mcp.operation != Operation::ToolsCall {
        lemma_replayed_from(ints, k, name, args, i + 1, best);
    } else {
        let ms = tools_call_request(ints[i].mcp.request, inc, ints[i].request_rules);
        if ms.len() != 0 {
            let paths = path_set(ms);
            lemma_replayed_from(
                ints,
                k,
                name,
                args,
                i + 1,
                if best is None || beyond_name(paths) {
                    Some(paths)
                } else {
                    best
                },
            );
        }
    }
}

/// A `tools/call` that repeats the name and arguments of a configured
/// `tools/call` interaction without request rules is always answered: some
/// interaction is selected, never a miss.
pub proof fn law_replayed_call_is_answered(
    ints: Seq<MockInteractionV>,
    k: int,
    name: Seq<char>,
    args: Seq<(Seq<char>, JsonV)>,
)
    requires
        0 <= k < ints.len(),
        ints[k].mcp.operation == Operation::ToolsCall,
        ints[k].request_rules is None,
        jget_str(ints[k].mcp.request, "name"@) == Some(name),
        jget(ints[k].mcp.request, "arguments"@) == Some(JsonV::Object(args)),
        json_wf(JsonV::Object(args)),
    ensures
        scan_calls(ints, incoming_call(name, Some(args)), 0, None) is Matched,
{
    lemma_replayed_from(ints, k, name, args, 0, None);
}

proof fn lemma_first_match_from(
    ints: Seq<MockInteractionV>,
    incoming: JsonV,
    k: int,
    i: int,
    best: Option<Set<Seq<char>>>,
)
    requires
        0 <= i <= k < ints.len(),
        ints[k].mcp.operation == Operation::ToolsCall,
        tools_call_request(ints[k].mcp.request, incoming, ints[k].request_rules).len() == 0,
        forall|j: int|
            0 <= j < k && ints[j].mcp.operation == Operation::ToolsCall ==> #[trigger] tools_call_request(
                ints[j].mcp.request,
                incoming,
                ints[j].request_rules,
            ).len() > 0,
    ensures
        scan_calls(ints, incoming, i, best) == CallOutcome::Matched(ints[k].mcp.response),
    decreases k - i,
{
    if i < k {
        if ints[i].mcp.operation != Operation::ToolsCall {
            lemma_first_match_from(ints, incoming, k, i + 1, best);
        } else {
            let ms = tools_call_request(ints[i].mcp.request, incoming, ints[i].request_rules);
            assert(ms.len() > 0);
            let paths = path_set(ms);
            lemma_first_match_from(
                ints,
                incoming,
                k,
                i + 1,
                if best is None || beyond_name(paths) {
                    Some(paths)
                } else {
                    best
                },
            );
        }
    }
}

/// Of several `tools/call` interactions whose requests match a call, the
/// first one configured answers it.
pub proof fn law_first_match_wins(ints: Seq<MockInteractionV>, incoming: JsonV, k: int)
    requires
        0 <= k < ints.len(),
        ints[k].mcp.operation == Operation::ToolsCall,
        tools_call_request(ints[k].mcp.request, incoming, ints[k].request_rules).len() == 0,
        forall|j: int|
            0 <= j < k && ints[j].mcp.operation == Operation::ToolsCall ==> #[trigger] tools_call_request(
                ints[j].mcp.request,
                incoming,
                ints[j].request_rules,
            ).len() > 0,
    ensures
        scan_calls(ints, incoming, 0, None) == CallOutcome::Matched(ints[k].mcp.response),
{
    lemma_first_match_from(ints, incoming, k, 0, None);
}

/// The record of a request that was handled.
pub open spec fn success_result(path: Seq<char>) -> MockResultV {
    MockResultV { path, error: None, mismatches: Seq::empty() }
}

/// The error a `tools/call` that selects no interaction is answered with.
#[derive(Debug)]
pub struct MockCallError {
    /// `no matching interaction for tools/call <name>`, the name quoted.
    pub message: String,
    /// The mismatch paths of the closest miss (the error's data).
    pub mismatches: Vec<String>,
}

/// Why a pact yields no mock.
#[derive(Debug)]
pub enum MockLoadError {
    /// The pact has no `interactions` array.
    NoInteractions,
    /// No interaction of the pact is an MCP interaction.
    NoMcpInteractions,
}

impl MockLoadError {
    /// A one-line description of the error.
    pub fn message(&self) -> (r: &'static str)
        ensures
            r@ == match self {
                MockLoadError::NoInteractions => "pact has no interactions array"@,
                MockLoadError::NoMcpInteractions => "no mcp interactions found in pact"@,
            },
    {
        match self {
            MockLoadError::NoInteractions => "pact has no interactions array",
            MockLoadError::NoMcpInteractions => "no mcp interactions found in pact",
        }
    }
}

/// The MCP interactions of a pact's interactions, each with its request
/// rules; interactions that do not read as MCP interactions are skipped.
pub open spec fn pact_interactions(items: Seq<JsonV>) -> Seq<MockInteractionV>
    decreases items.len(),
{
    if items.len() == 0 {
        Seq::empty()
    } else {
        let rest = pact_interactions(items.drop_last());
        match interaction_of(items.last()) {
            Ok(mcp) => rest.push(MockInteractionV { mcp, request_rules: request_rules_of(items.last()) }),
            Err(_) => rest,
        }
    }
}

/// What a mock loaded from a pact holds, or why there is none.
pub open spec fn loaded(pact: JsonV) -> Result<Seq<MockInteractionV>, MockLoadError> {
    match jget(pact, "interactions"@) {
        Some(JsonV::Array(items)) => if pact_interactions(items).len() == 0 {
            Err(MockLoadError::NoMcpInteractions)
        } else {
            Ok(pact_interactions(items))
        },
        _ => Err(MockLoadError::NoInteractions),
    }
}

/// Some path is not `$.name`.
fn any_beyond_name(paths: &Vec<String>) -> (r: bool)
    ensures
        r == exists|k: int| 0 <= k < paths@.len() && paths@[k]@ != "$.name"@,
{
    let mut i: usize = 0;
    while i < paths.len()
        invariant
            i <= paths.len(),
            forall|k: int| 0 <= k < i ==> paths@[k]@ == "$.name"@,
        decreases paths.len() - i,
    {
        if !paths[i].as_str().eq("$.name") {
            return true;
        }
        i = i + 1;
    }
    false
}

fn has_tool_named(tools: &Vec<AdvertisedTool>, name: &str) -> (r: bool)
    ensures
        r == has_tool(tools_view(tools@), name@),
{
    let ghost tv = tools_view(tools@);
    let mut i: usize = 0;
    while i < tools.len()
        invariant
            i <= tools.len(),
            tv == tools_view(tools@),
            forall|k: int| 0 <= k < i ==> tv[k].name != name@,
        decreases tools.len() - i,
    {
        if tools[i].name.as_str().eq(name) {
            assert(tv[i as int].name == name@);
            return true;
        }
        i = i + 1;
    }
    false
}

/// Adds a tool to an advertised list unless one of that name is there
/// (the step `advertised_tools` takes for each listed or called tool).
pub fn add_tool(tools: &mut Vec<AdvertisedTool>, name: String, definition: Option<Json>)
    ensures
        tools_view(final(tools)@) == with_tool(tools_view(old(tools)@), name@, owned_view(definition)),
{
    if !has_tool_named(tools, name.as_str()) {
        let ghost prev = tools@;
        let ghost t = AdvertisedToolV { name: name@, definition: owned_view(definition) };
        tools.push(AdvertisedTool { name, definition });
        assert(tools_view(tools@) =~= tools_view(prev).push(t));
    }
}

impl MockServer {
    /// A mock of the given interactions, with no request rules and no results.
    pub fn new(interactions: Vec<McpInteraction>) -> (r: MockServer)
        ensures
            r@.results.len() == 0,
            r@.interactions.len() == interactions@.len(),
            forall|k: int|
                0 <= k < interactions@.len() ==> #[trigger] r@.interactions[k] == (MockInteractionV {
                    mcp: interactions@[k]@,
                    request_rules: None,
                }),
    {
        let mut interactions = interactions;
        let ghost given = interactions@;
        let mut reversed: Vec<MockInteraction> = Vec::new();
        while interactions.len() > 0
            invariant
                interactions@.len() + reversed@.len() == given.len(),
                forall|k: int| 0 <= k < interactions@.len() ==> #[trigger] interactions@[k] == given[k],
                forall|k: int|
                    0 <= k < reversed@.len() ==> #[trigger] reversed@[k].mcp == given[given.len() - 1 - k]
                        && reversed@[k].request_rules is None,
            decreases interactions@.len(),
        {
            let mcp = interactions.pop().unwrap();
            reversed.push(MockInteraction { mcp, request_rules: None });
        }
        let mut out: Vec<MockInteraction> = Vec::new();
        while reversed.len() > 0
            invariant
                out@.len() + reversed@.len() == given.len(),
                forall|k: int|
                    0 <= k < reversed@.len() ==> #[trigger] reversed@[k].mcp == given[given.len() - 1 - k]
                        && reversed@[k].request_rules is None,
                forall|k: int|
                    0 <= k < out@.len() ==> #[trigger] out@[k].mcp == given[k] && out@[k].request_rules is None,
            decreases reversed@.len(),
        {
            let m = reversed.pop().unwrap();
            out.push(m);
        }
        MockServer { interactions: out, results: Vec::new() }
    }

    /// Loads the MCP interactions of a pact-as-JSON document, each with its
    /// request-side matching rules (interactions that are not MCP
    /// interactions are skipped).
    pub fn from_pact_json(pact: &Json) -> (r: Result<MockServer, MockLoadError>)
        ensures
            match r {
                Ok(m) => loaded(pact@) == Ok::<Seq<MockInteractionV>, MockLoadError>(m@.interactions)
                    && m@.results.len() == 0,
                Err(e) => loaded(pact@) == Err::<Seq<MockInteractionV>, MockLoadError>(e),
            },
    {
        let items = match pact.get("interactions") {
            Some(v) => v.as_array(),
            None => None,
        };
        let items = match items {
            Some(a) => a,
            None => {
                return Err(MockLoadError::NoInteractions);
            },
        };
        proof {
            lemma_items_view(items@);
        }
        let ghost iv = items_view(items@);
        let mut parsed: Vec<MockInteraction> = Vec::new();
        let mut i: usize = 0;
        assert(iv.subrange(0, 0) =~= Seq::<JsonV>::empty());
        assert(interaction_views(parsed@) =~= Seq::<MockInteractionV>::empty());
        while i < items.len()
            invariant
                i <= items.len(),
                iv == items_view(items@),
                iv.len() == items@.len(),
                forall|k: int| 0 <= k < items@.len() ==> #[trigger] iv[k] == items@[k]@,
                interaction_views(parsed@) == pact_interactions(iv.subrange(0, i as int)),
            decreases items.len() - i,
        {
            assert(iv.subrange(0, i + 1).drop_last() =~= iv.subrange(0, i as int));
            assert(iv.subrange(0, i + 1).last() == iv[i as int]);
            match interaction_from_value(&items[i]) {
                Ok(mcp) => {
                    let request_rules = request_matching_rules(&items[i]);
                    let ghost prev = parsed@;
                    let ghost mv = MockInteractionV { mcp: mcp@, request_rules: owned_view(request_rules) };
                    parsed.push(MockInteraction { mcp, request_rules });
                    assert(interaction_views(parsed@) =~= interaction_views(prev).push(mv));
                },
                Err(_) => {},
            }
            i = i + 1;
        }
        assert(iv.subrange(0, iv.len() as int) =~= iv);
        if parsed.len() == 0 {
            return Err(MockLoadError::NoMcpInteractions);
        }
        let r = MockServer { interactions: parsed, results: Vec::new() };
        assert(r@.results =~= Seq::<MockResultV>::empty());
        Ok(r)
    }

    /// The results recorded so far, in order.
    pub fn results(&self) -> (r: &Vec<MockResult>)
        ensures
            results_view(r@) == self@.results,
    {
        &self.results
    }

    fn record(&mut self, result: MockResult)
        ensures
            final(self)@.interactions == old(self)@.interactions,
            final(self)@.results == old(self)@.results.push(result@),
    {
        let ghost prev = self.results@;
        self.results.push(result);
        assert(results_view(self.results@) =~= results_view(prev).push(result@));
    }

    /// Records a `tools/list` request: the mock answers it with its
    /// advertised tools.
    pub fn list_tools(&mut self) -> (r: Vec<AdvertisedTool>)
        ensures
            final(self)@.interactions == old(self)@.interactions,
            final(self)@.results == old(self)@.results.push(success_result("tools/list"@)),
            tools_view(r@) == advertised(old(self)@.interactions),
    {
        let none: Vec<String> = Vec::new();
        assert(strings_view(none@) =~= Seq::<Seq<char>>::empty());
        self.record(MockResult { path: String::from_str("tools/list"), error: None, mismatches: none });
        self.advertised_tools()
    }

    /// The tools advertised via `tools/list`: the valid tools of every
    /// `tools/list` interaction's response, and a synthesized tool for each
    /// `tools/call` name; each name once, in the order first seen.
    pub fn advertised_tools(&self) -> (r: Vec<AdvertisedTool>)
        ensures
            tools_view(r@) == advertised(self@.interactions),
    {
        let ghost ints = self@.interactions;
        let mut tools: Vec<AdvertisedTool> = Vec::new();
        let mut i: usize = 0;
        assert(ints.subrange(0, 0) =~= Seq::<MockInteractionV>::empty());
        assert(tools_view(tools@) =~= Seq::<AdvertisedToolV>::empty());
        while i < self.interactions.len()
            invariant
                i <= self.interactions.len(),
                ints == self@.interactions,
                ints == interaction_views(self.interactions@),
                tools_view(tools@) == advertised(ints.subrange(0, i as int)),
            decreases self.interactions.len() - i,
        {
            assert(ints.subrange(0, i + 1).drop_last() =~= ints.subrange(0, i as int));
            assert(ints.subrange(0, i + 1).last() == ints[i as int]);
            let interaction = &self.interactions[i].mcp;
            match interaction.operation {
                Operation::ToolsList => {
                    let list = match interaction.response.get("tools") {
                        Some(t) => t.as_array(),
                        None => None,
                    };
                    match list {
                        Some(items) => {
                            proof {
                                lemma_items_view(items@);
                            }
                            let ghost iv = items_view(items@);
                            let ghost start = tools_view(tools@);
                            let mut j: usize = 0;
                            assert(iv.subrange(0, 0) =~= Seq::<JsonV>::empty());
                            while j < items.len()
                                invariant
                                    j <= items.len(),
                                    iv == items_view(items@),
                                    iv.len() == items@.len(),
                                    forall|k: int| 0 <= k < items@.len() ==> #[trigger] iv[k] == items@[k]@,
                                    tools_view(tools@) == add_listed(start, iv.subrange(0, j as int)),
                                decreases items.len() - j,
                            {
                                assert(iv.subrange(0, j + 1).drop_last() =~= iv.subrange(0, j as int));
                                assert(iv.subrange(0, j + 1).last() == iv[j as int]);
                                match parse_tool_name(&items[j]) {
                                    Some(n) => add_tool(&mut tools, n, Some(items[j].copy())),
                                    None => {},
                                }
                                j = j + 1;
                            }
                            assert(iv.subrange(0, iv.len() as int) =~= iv);
                        },
                        None => {},
                    }
                },
                Operation::ToolsCall => {
                    let name = match interaction.request.get("name") {
                        Some(n) => n.as_str(),
                        None => None,
                    };
                    match name {
                        Some(n) => add_tool(&mut tools, String::from_str(n), None),
                        None => {},
                    }
                },
                _ => {},
            }
            i = i + 1;
        }
        assert(ints.subrange(0, ints.len() as int) =~= ints);
        tools
    }

    /// Handles a `tools/call`: selects the first `tools/call` interaction
    /// whose request matches the incoming name and arguments (under that
    /// interaction's request rules) and answers with its configured response;
    /// otherwise answers with an error carrying the closest miss's paths.
    /// Either way exactly one result is recorded.
    pub fn handle_call(&mut self, name: &str, arguments: Option<&Vec<(String, Json)>>) -> (r: Result<
        Json,
        MockCallError,
    >)
        ensures
            final(self)@.interactions == old(self)@.interactions,
            match scan_calls(
                old(self)@.interactions,
                incoming_call(name@, args_view(arguments)),
                0,
                None,
            ) {
                CallOutcome::Matched(response) => r matches Ok(j) && j@ == response && final(self)@.results
                    == old(self)@.results.push(success_result("tools/call"@)),
                CallOutcome::Missed(paths) => r matches Err(e) && {
                    &&& e.message@ == "no matching interaction for tools/call "@ + debug_text(name@)
                    &&& sorted_strict(strings_view(e.mismatches@))
                    &&& strings_view(e.mismatches@).to_set() == paths
                    &&& final(self)@.results == old(self)@.results.push(
                        MockResultV {
                            path: "tools/call"@,
                            error: Some(
                                "unexpected tools/call: no configured interaction matches tool "@ + debug_text(
                                    name@,
                                ),
                            ),
                            mismatches: strings_view(e.mismatches@),
                        },
                    )
                },
            },
    {
        let incoming = incoming_call_json(name, arguments);
        let ghost inc = incoming@;
        let ghost ints = self@.interactions;
        let mut best: Option<Vec<String>> = None;
        let mut i: usize = 0;
        while i < self.interactions.len()
            invariant
                i <= self.interactions.len(),
                ints == self@.interactions,
                ints == old(self)@.interactions,
                self@.results == old(self)@.results,
                ints == interaction_views(self.interactions@),
                inc == incoming_call(name@, args_view(arguments)),
                incoming@ == inc,
                match best {
                    Some(b) => sorted_strict(strings_view(b@)),
                    None => true,
                },
                scan_calls(ints, inc, i as int, best_set(best)) == scan_calls(ints, inc, 0, None),
            decreases self.interactions.len() - i,
        {
            proof {
                assert(ints[i as int] == (MockInteractionV {
                    mcp: self.interactions@[i as int].mcp@,
                    request_rules: owned_view(self.interactions@[i as int].request_rules),
                }));
            }
            if self.interactions[i].mcp.operation == Operation::ToolsCall {
                let rules = Rules::new(
                    match &self.interactions[i].request_rules {
                        Some(j) => Some(j),
                        None => None,
                    },
                );
                assert(raw_view(rules.raw) == ints[i as int].request_rules);
                let result = match_tools_call_request(&self.interactions[i].mcp.request, &incoming, &rules);
                assert(result@ == tools_call_request(ints[i as int].mcp.request, inc, ints[i as int].request_rules));
                if result.is_match() {
                    assert(scan_calls(ints, inc, i as int, best_set(best)) == CallOutcome::Matched(
                        ints[i as int].mcp.response,
                    ));
                    let response = self.interactions[i].mcp.response.copy();
                    let none: Vec<String> = Vec::new();
                    assert(strings_view(none@) =~= Seq::<Seq<char>>::empty());
                    self.record(MockResult { path: String::from_str("tools/call"), error: None, mismatches: none });
                    return Ok(response);
                }
                let paths = result.mismatch_paths();
                let ghost ps = path_set(result@);
                proof {
                    assert(strings_view(paths@).to_set() =~= ps);
                }
                let beyond = any_beyond_name(&paths);
                proof {
                    if beyond {
                        let k = choose|k: int| 0 <= k < paths@.len() && paths@[k]@ != "$.name"@;
                        assert(strings_view(paths@)[k] == paths@[k]@);
                        assert(strings_view(paths@).contains(paths@[k]@));
                        assert(ps.contains(paths@[k]@));
                    }
                    if beyond_name(ps) {
                        let p = choose|p: Seq<char>| ps.contains(p) && p != "$.name"@;
                        assert(strings_view(paths@).contains(p));
                        let k = choose|k: int| 0 <= k < strings_view(paths@).len() && strings_view(paths@)[k] == p;
                        assert(paths@[k]@ != "$.name"@);
                    }
                    assert(beyond == beyond_name(ps));
                }
                if best.is_none() || beyond {
                    best = Some(paths);
                }
            }
            i = i + 1;
        }
        let mismatches = match best {
            Some(b) => b,
            None => Vec::new(),
        };
        let shown = debug_str(name);
        let data = copy_strings(&mismatches);
        self.record(
            MockResult {
                path: String::from_str("tools/call"),
                error: Some(cat2("unexpected tools/call: no configured interaction matches tool ", shown.as_str())),
                mismatches,
            },
        );
        Err(MockCallError { message: cat2("no matching interaction for tools/call ", shown.as_str()), mismatches: data })
    }
}

/// The set of the closest miss's paths, if any.
pub open spec fn best_set(best: Option<Vec<String>>) -> Option<Set<Seq<char>>> {
    match best {
        Some(b) => Some(strings_view(b@).to_set()),
        None => None,
    }
}

fn copy_strings(v: &Vec<String>) -> (r: Vec<String>)
    ensures
        strings_view(r@) == strings_view(v@),
{
    let mut out: Vec<String> = Vec::new();
    let mut i: usize = 0;
    while i < v.len()
        invariant
            i <= v.len(),
            out@.len() == i,
            forall|k: int| 0 <= k < i ==> #[trigger] out@[k]@ == v@[k]@,
        decreases v.len() - i,
    {
        out.push(v[i].clone());
        i = i + 1;
    }
    assert(strings_view(out@) =~= strings_view(v@));
    out
}

} // verus!
