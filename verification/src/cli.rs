//! The computation behind the command-line `compare` subcommand: one
//! conformance-style fixture `{operation, interaction, actual}` run through
//! the engine's response comparison.
use vstd::prelude::*;
use crate::json::{Json, JsonV, jget, jstr, opt_view};
use crate::model::{Operation, parse_operation};
use crate::content::{compare_response, member_or_null, member_or_null_exec, response_mismatches, sorted_strict,
    strings_view, MismatchV, Rules};
use crate::mock::path_set;
use crate::text::cat2;
use crate::auth::{resolve_config, resolve_config_result, ResolvedAuth, AuthErrorV, pairs_view};
use crate::verify::{StdioServerConfig, VerifyError, verify_message};
use crate::model::{McpInteraction, McpInteractionV};
use crate::server::{interaction_from_value, response_matching_rules, interaction_of, response_rules_of, owned_view};
use crate::content::MatchResult;

verus! {

/// The outcome of comparing a fixture: whether it matched, and its distinct
/// mismatch paths in sorted order.
#[derive(Debug)]
pub struct FixtureComparison {
    pub is_match: bool,
    pub mismatch_paths: Vec<String>,
}

/// The operation a fixture names (`tools/call` when it names none), or the
/// text it names when that is no operation.
pub open spec fn fixture_operation(fixture: JsonV) -> Result<Operation, Seq<char>> {
    let name = match jget(fixture, "operation"@) {
        Some(o) => match jstr(o) {
            Some(s) => s,
            None => "tools/call"@,
        },
        None => "tools/call"@,
    };
    match parse_operation(name) {
        Some(op) => Ok(op),
        None => Err(name),
    }
}

/// The mismatches of a fixture under an operation: its
/// `interaction.mcp.response` against its `actual` (each `null` when absent),
/// under `interaction.matchingRules.response`.
pub open spec fn fixture_mismatches(fixture: JsonV, op: Operation) -> Seq<MismatchV> {
    let interaction = member_or_null(fixture, "interaction"@);
    response_mismatches(
        op,
        member_or_null(member_or_null(interaction, "mcp"@), "response"@),
        member_or_null(fixture, "actual"@),
        jget(member_or_null(interaction, "matchingRules"@), "response"@),
    )
}

/// The one-line description of an auth error.
pub open spec fn auth_message(e: AuthErrorV) -> Seq<char> {
    match e {
        AuthErrorV::MissingEnv(v) => "environment variable `"@ + v + "` referenced by auth config is not set"@,
        AuthErrorV::Invalid(m) => "invalid auth config: "@ + m,
    }
}

/// Compares a fixture's expected response with its actual one.
pub fn compare_fixture(fixture: &Json) -> (r: Result<FixtureComparison, String>)
    ensures
        match r {
            Ok(c) => fixture_operation(fixture@) matches Ok(op) && {
                let ms = fixture_mismatches(fixture@, op);
                &&& c.is_match == (ms.len() == 0)
                &&& sorted_strict(strings_view(c.mismatch_paths@))
                &&& strings_view(c.mismatch_paths@).to_set() == path_set(ms)
            },
            Err(e) => fixture_operation(fixture@) matches Err(name) && e@ == "unknown operation "@ + name,
        },
{
    let name = match fixture.get("operation") {
        Some(o) => match o.as_str() {
            Some(s) => s,
            None => "tools/call",
        },
        None => "tools/call",
    };
    let operation = match Operation::parse(name) {
        Some(op) => op,
        None => {
            return Err(cat2("unknown operation ", name));
        },
    };
    let interaction = member_or_null_exec(fixture, "interaction");
    let mcp = member_or_null_exec(&interaction, "mcp");
    let expected = member_or_null_exec(&mcp, "response");
    let actual = member_or_null_exec(fixture, "actual");
    let matching = member_or_null_exec(&interaction, "matchingRules");
    let rules = Rules::new(matching.get("response"));
    let result = compare_response(operation, &expected, &actual, &rules);
    let paths = result.mismatch_paths();
    assert(strings_view(paths@).to_set() =~= path_set(result@));
    Ok(FixtureComparison { is_match: result.is_match(), mismatch_paths: paths })
}

/// What `verify` verifies against: a provider spawned over stdio, or a
/// Streamable HTTP server with resolved auth.
#[derive(Debug)]
pub enum VerifyTarget {
    Stdio(StdioServerConfig),
    Http { url: String, auth: ResolvedAuth },
}

/// Chooses what `verify` runs against: a URL (with its auth config resolved
/// against the environment) wins over a command; one of them is required.
pub fn verify_target(
    url: Option<String>,
    command: Option<String>,
    args: Vec<String>,
    auth: Option<&Json>,
    env: &Vec<(String, String)>,
) -> (r: Result<VerifyTarget, String>)
    ensures
        match url {
            Some(u) => match resolve_config_result(opt_view(auth), pairs_view(env@)) {
                Ok(a) => r matches Ok(VerifyTarget::Http { url: ru, auth: ra }) && ru@ == u@ && ra@ == a,
                Err(e) => r matches Err(m) && m@ == auth_message(e),
            },
            None => match command {
                Some(c) => r matches Ok(VerifyTarget::Stdio(cfg)) && cfg.command@ == c@ && cfg.args@ == args@
                    && cfg.env@.len() == 0,
                None => r matches Err(m) && m@ == "verify requires either --url <url> (http) or --command <cmd> (stdio)"@,
            },
        },
{
    match url {
        Some(url) => match resolve_config(auth, env) {
            Ok(auth) => Ok(VerifyTarget::Http { url, auth }),
            Err(e) => Err(e.message()),
        },
        None => match command {
            Some(command) => Ok(VerifyTarget::Stdio(StdioServerConfig { command, args, env: Vec::new() })),
            None => Err(String::from_str("verify requires either --url <url> (http) or --command <cmd> (stdio)")),
        },
    }
}

/// The description of a pact interaction, empty when it has none.
pub fn interaction_description(interaction: &Json) -> (r: String)
    ensures
        r@ == description_of(interaction@),
{
    match interaction.get("description") {
        Some(d) => match d.as_str() {
            Some(s) => String::from_str(s),
            None => String::new(),
        },
        None => String::new(),
    }
}

/// One interaction `verify` checks: its description, the MCP interaction it
/// reads as, and its response-side rules.
#[derive(Debug)]
pub struct VerifyStep {
    pub description: String,
    pub interaction: McpInteraction,
    pub response_rules: Option<Json>,
}

/// The description of an interaction, empty when it has none.
pub open spec fn description_of(interaction: JsonV) -> Seq<char> {
    match jget(interaction, "description"@) {
        Some(d) => match jstr(d) {
            Some(s) => s,
            None => Seq::empty(),
        },
        None => Seq::empty(),
    }
}

/// What `verify` does with one interaction of a pact: one that does not
/// read as an MCP interaction is skipped (`None`); otherwise it is verified
/// with its description and response rules.
pub fn verify_step(interaction: &Json) -> (r: Option<VerifyStep>)
    ensures
        match r {
            Some(st) => interaction_of(interaction@) == Ok::<McpInteractionV, Seq<char>>(st.interaction@)
                && st.description@ == description_of(interaction@) && owned_view(st.response_rules)
                == response_rules_of(interaction@),
            None => interaction_of(interaction@) is Err,
        },
{
    match interaction_from_value(interaction) {
        Ok(mcp) => Some(
            VerifyStep {
                description: interaction_description(interaction),
                interaction: mcp,
                response_rules: response_matching_rules(interaction),
            },
        ),
        Err(_) => None,
    }
}

/// A mismatch as `verify` reports it: `{"message": .., "path": ..}`.
pub open spec fn reported_mismatch(m: MismatchV) -> JsonV {
    JsonV::Object(seq![("message"@, JsonV::Str(m.message)), ("path"@, JsonV::Str(m.path))])
}

/// The report of a verified interaction:
/// `{"description": .., "mismatches": [..], "success": <matched>}`.
pub open spec fn result_entry(description: Seq<char>, ms: Seq<MismatchV>) -> JsonV {
    JsonV::Object(
        seq![
            ("description"@, JsonV::Str(description)),
            ("mismatches"@, JsonV::Array(ms.map_values(|m: MismatchV| reported_mismatch(m)))),
            ("success"@, JsonV::Bool(ms.len() == 0)),
        ],
    )
}

/// The report of an interaction that could not be verified:
/// `{"description": .., "error": .., "success": false}`.
pub open spec fn error_entry(description: Seq<char>, error: Seq<char>) -> JsonV {
    JsonV::Object(
        seq![
            ("description"@, JsonV::Str(description)),
            ("error"@, JsonV::Str(error)),
            ("success"@, JsonV::Bool(false)),
        ],
    )
}

/// The report `verify` prints: one entry per MCP interaction, and whether
/// every one succeeded.
#[derive(Debug)]
pub struct VerifyReport {
    entries: Vec<Json>,
    success: bool,
}

/// The model of a report: its entries and its overall success.
pub struct VerifyReportV {
    pub entries: Seq<JsonV>,
    pub success: bool,
}

impl View for VerifyReport {
    type V = VerifyReportV;

    closed spec fn view(&self) -> VerifyReportV {
        VerifyReportV { entries: crate::json::items_view(self.entries@), success: self.success }
    }
}

fn str_json(s: &str) -> (r: Json)
    ensures
        r@ == JsonV::Str(s@),
{
    Json::Str(String::from_str(s))
}

impl VerifyReport {
    /// An empty report; it succeeds.
    pub fn new() -> (r: VerifyReport)
        ensures
            r@.entries.len() == 0,
            r@.success,
    {
        VerifyReport { entries: Vec::new(), success: true }
    }

    fn push_entry(&mut self, entry: Json, ok: bool)
        ensures
            final(self)@.entries == old(self)@.entries.push(entry@),
            final(self)@.success == (old(self)@.success && ok),
    {
        let ghost prev = self.entries@;
        self.entries.push(entry);
        assert(self.entries@.drop_last() == prev);
        self.success = self.success && ok;
    }

    /// Adds the report of a verified interaction.
    pub fn add_result(&mut self, description: &str, result: &MatchResult)
        ensures
            final(self)@.entries == old(self)@.entries.push(result_entry(description@, result@)),
            final(self)@.success == (old(self)@.success && result@.len() == 0),
    {
        let mut items: Vec<Json> = Vec::new();
        let mut i: usize = 0;
        while i < result.mismatches.len()
            invariant
                i <= result.mismatches.len(),
                crate::json::items_view(items@) == result@.subrange(0, i as int).map_values(
                    |m: MismatchV| reported_mismatch(m),
                ),
            decreases result.mismatches.len() - i,
        {
            let m = &result.mismatches[i];
            let mut e: Vec<(String, Json)> = Vec::new();
            e.push((String::from_str("message"), str_json(m.message.as_str())));
            e.push((String::from_str("path"), str_json(m.path.as_str())));
            proof {
                crate::json::lemma_entries_view(e@);
                assert(crate::json::entries_view(e@) =~= seq![
                    ("message"@, JsonV::Str(m.message@)),
                    ("path"@, JsonV::Str(m.path@)),
                ]);
            }
            let item = Json::Object(e);
            assert(item@ == reported_mismatch(result@[i as int]));
            let ghost prev = items@;
            items.push(item);
            proof {
                assert(items@.drop_last() == prev);
                assert(result@.subrange(0, i + 1).map_values(|m: MismatchV| reported_mismatch(m)) =~= result@.subrange(
                    0,
                    i as int,
                ).map_values(|m: MismatchV| reported_mismatch(m)).push(reported_mismatch(result@[i as int])));
            }
            i = i + 1;
        }
        assert(result@.subrange(0, result@.len() as int) =~= result@);
        let ok = result.is_match();
        let ghost iv = crate::json::items_view(items@);
        let arr = Json::Array(items);
        assert(arr@ == JsonV::Array(iv));
        let mut entry: Vec<(String, Json)> = Vec::new();
        entry.push((String::from_str("description"), str_json(description)));
        entry.push((String::from_str("mismatches"), arr));
        entry.push((String::from_str("success"), Json::Bool(ok)));
        proof {
            crate::json::lemma_entries_view(entry@);
            assert(crate::json::entries_view(entry@) =~= seq![
                ("description"@, JsonV::Str(description@)),
                ("mismatches"@, JsonV::Array(iv)),
                ("success"@, JsonV::Bool(ok)),
            ]);
        }
        let json = Json::Object(entry);
        assert(json@ == result_entry(description@, result@));
        self.push_entry(json, ok);
    }

    /// Adds the report of an interaction that could not be verified.
    pub fn add_error(&mut self, description: &str, error: &str)
        ensures
            final(self)@.entries == old(self)@.entries.push(error_entry(description@, error@)),
            final(self)@.success == false,
    {
        let mut entry: Vec<(String, Json)> = Vec::new();
        entry.push((String::from_str("description"), str_json(description)));
        entry.push((String::from_str("error"), str_json(error)));
        entry.push((String::from_str("success"), Json::Bool(false)));
        proof {
            crate::json::lemma_entries_view(entry@);
            assert(crate::json::entries_view(entry@) =~= seq![
                ("description"@, JsonV::Str(description@)),
                ("error"@, JsonV::Str(error@)),
                ("success"@, JsonV::Bool(false)),
            ]);
        }
        let json = Json::Object(entry);
        self.push_entry(json, false);
    }

    /// Adds the report of one verified interaction: its mismatches, or the
    /// error that stopped its verification.
    pub fn add_outcome(&mut self, description: &str, outcome: &Result<MatchResult, VerifyError>)
        ensures
            match outcome {
                Ok(m) => final(self)@.entries == old(self)@.entries.push(result_entry(description@, m@))
                    && final(self)@.success == (old(self)@.success && m@.len() == 0),
                Err(e) => final(self)@.entries == old(self)@.entries.push(error_entry(description@, verify_message(*e)))
                    && final(self)@.success == false,
            },
    {
        match outcome {
            Ok(m) => self.add_result(description, m),
            Err(e) => {
                let text = e.message();
                self.add_error(description, text.as_str());
            },
        }
    }

    /// The report as JSON: `{"interactions": [..], "success": ..}`.
    pub fn to_json(&self) -> (r: Json)
        ensures
            r@ == JsonV::Object(
                seq![("interactions"@, JsonV::Array(self@.entries)), ("success"@, JsonV::Bool(self@.success))],
            ),
    {
        let mut items: Vec<Json> = Vec::new();
        let mut i: usize = 0;
        while i < self.entries.len()
            invariant
                i <= self.entries.len(),
                items@.len() == i,
                forall|k: int| 0 <= k < i ==> #[trigger] items@[k]@ == self.entries@[k]@,
            decreases self.entries.len() - i,
        {
            items.push(self.entries[i].copy());
            i = i + 1;
        }
        proof {
            crate::json::lemma_items_view(items@);
            crate::json::lemma_items_view(self.entries@);
            assert forall|k: int| 0 <= k < items@.len() implies crate::json::items_view(items@)[k]
                == crate::json::items_view(self.entries@)[k] by {
                assert(items@[k]@ == self.entries@[k]@);
            }
            assert(crate::json::items_view(items@) =~= crate::json::items_view(self.entries@));
        }
        let ghost iv = crate::json::items_view(items@);
        let arr = Json::Array(items);
        let mut entry: Vec<(String, Json)> = Vec::new();
        entry.push((String::from_str("interactions"), arr));
        entry.push((String::from_str("success"), Json::Bool(self.success)));
        proof {
            crate::json::lemma_entries_view(entry@);
            assert(crate::json::entries_view(entry@) =~= seq![
                ("interactions"@, JsonV::Array(iv)),
                ("success"@, JsonV::Bool(self.success)),
            ]);
        }
        Json::Object(entry)
    }
}

} // verus!
