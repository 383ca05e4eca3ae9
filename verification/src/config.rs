//! Building an interaction from a consumer-authored `contentsConfig`: the
//! persisted fragment, its wire body, and the matching rules keyed by path.
//!
//! Rule keys are namespaced under `$.request.*` / `$.response.*`; a rule
//! records the matcher types of its `matchers` list.
use vstd::prelude::*;
use crate::json::{Json, JsonV, jget, jget_str, jstr, entries_view, json_view, items_view, lemma_entries_view,
    lemma_items_view, json_text, render_json};
use crate::model::{McpFragment, McpFragmentV, McpInteraction, McpInteractionV, Operation, ServerHint,
    parse_operation, fragment_json, method_name, CONTENT_TYPE, SCHEMA_VERSION};
use crate::text::{cat2, cat3, strip_prefix, strip_prefix_str};
use crate::matchers::{strip, strip_matchers};
use crate::auth::pairs_view;
use crate::content::member_or_null;

verus! {

/// One matching rule: the matcher type (`type`, `regex`, ...).
#[derive(Debug)]
pub struct MatchingRule {
    pub rule_type: String,
}

/// The matching rules at one path.
#[derive(Debug)]
pub struct MatchingRules {
    pub rule: Vec<MatchingRule>,
}

/// The matcher types of a rule list.
pub open spec fn rule_types(r: Seq<MatchingRule>) -> Seq<Seq<char>> {
    r.map_values(|m: MatchingRule| m.rule_type@)
}

impl View for MatchingRules {
    type V = Seq<Seq<char>>;

    open spec fn view(&self) -> Seq<Seq<char>> {
        rule_types(self.rule@)
    }
}

/// The model of a rule map: (path, matcher types) in insertion order.
pub type RuleSeq = Seq<(Seq<char>, Seq<Seq<char>>)>;

/// No two entries share a path.
pub open spec fn paths_unique(s: RuleSeq) -> bool {
    forall|i: int, j: int| 0 <= i < j < s.len() ==> s[i].0 != s[j].0
}

/// The index of the first entry at `path`, looking from `i` on.
pub open spec fn path_index(s: RuleSeq, path: Seq<char>, i: int) -> Option<int>
    decreases s.len() - i,
{
    if i < 0 || i >= s.len() {
        None
    } else if s[i].0 == path {
        Some(i)
    } else {
        path_index(s, path, i + 1)
    }
}

/// `HashMap::insert`: the entry at `path` takes the new rules, or a new entry
/// is added at the end.
pub open spec fn upsert(s: RuleSeq, path: Seq<char>, types: Seq<Seq<char>>) -> RuleSeq {
    match path_index(s, path, 0) {
        Some(i) => s.update(i, (path, types)),
        None => s.push((path, types)),
    }
}

proof fn lemma_path_index(s: RuleSeq, path: Seq<char>, i: int)
    requires
        0 <= i,
    ensures
        match path_index(s, path, i) {
            Some(k) => i <= k < s.len() && s[k].0 == path,
            None => forall|k: int| i <= k < s.len() ==> s[k].0 != path,
        },
    decreases s.len() - i,
{
    if i < s.len() && s[i].0 != path {
        lemma_path_index(s, path, i + 1);
    }
}

/// Inserting keeps paths unique.
proof fn lemma_upsert_unique(s: RuleSeq, path: Seq<char>, types: Seq<Seq<char>>)
    requires
        paths_unique(s),
    ensures
        paths_unique(upsert(s, path, types)),
        upsert(s, path, types).len() >= s.len(),
{
    lemma_path_index(s, path, 0);
}

/// Matching rules keyed by path, no path twice.
#[derive(Debug)]
pub struct RuleMap {
    entries: Vec<(String, MatchingRules)>,
}

/// The model of the entries of a rule map.
pub open spec fn rule_entries_view(v: Seq<(String, MatchingRules)>) -> RuleSeq {
    v.map_values(|e: (String, MatchingRules)| (e.0@, e.1@))
}

impl View for RuleMap {
    type V = RuleSeq;

    closed spec fn view(&self) -> RuleSeq {
        rule_entries_view(self.entries@)
    }
}

impl RuleMap {
    #[verifier::type_invariant]
    spec fn inv(self) -> bool {
        paths_unique(rule_entries_view(self.entries@))
    }

    /// An empty map.
    pub fn new() -> (r: RuleMap)
        ensures
            r@ == Seq::<(Seq<char>, Seq<Seq<char>>)>::empty(),
    {
        let r = RuleMap { entries: Vec::new() };
        assert(r@ =~= Seq::<(Seq<char>, Seq<Seq<char>>)>::empty());
        r
    }

    /// The number of paths.
    pub fn len(&self) -> (r: usize)
        ensures
            r == self@.len(),
    {
        self.entries.len()
    }

    /// Inserts (or replaces) the rules at `path`.
    pub fn insert(&mut self, path: String, rules: MatchingRules)
        ensures
            final(self)@ == upsert(old(self)@, path@, rules@),
    {
        proof {
            use_type_invariant(&*self);
        }
        let ghost sv = self@;
        let mut entries: Vec<(String, MatchingRules)> = Vec::new();
        std::mem::swap(&mut entries, &mut self.entries);
        proof {
            lemma_upsert_unique(sv, path@, rules@);
        }
        let mut i: usize = 0;
        while i < entries.len()
            invariant
                i <= entries.len(),
                sv == old(self)@,
                sv == rule_entries_view(entries@),
                paths_unique(sv),
                path_index(sv, path@, i as int) == path_index(sv, path@, 0),
            decreases entries.len() - i,
        {
            if entries[i].0.as_str().eq(path.as_str()) {
                proof {
                    assert(sv[i as int].0 == path@);
                    assert(path_index(sv, path@, i as int) == Some(i as int));
                    assert(rule_entries_view(entries@.update(i as int, (path, rules))) =~= sv.update(
                        i as int,
                        (path@, rules@),
                    ));
                }
                entries.set(i, (path, rules));
                self.entries = entries;
                return ;
            }
            i = i + 1;
        }
        proof {
            assert(rule_entries_view(entries@.push((path, rules))) =~= sv.push((path@, rules@)));
        }
        entries.push((path, rules));
        self.entries = entries;
    }

    /// The rules at `path`, if any.
    pub fn get(&self, path: &str) -> (r: Option<&MatchingRules>)
        ensures
            match r {
                Some(m) => path_index(self@, path@, 0) matches Some(k) && self@[k].1 == m@,
                None => path_index(self@, path@, 0) is None,
            },
    {
        let ghost sv = self@;
        let mut i: usize = 0;
        while i < self.entries.len()
            invariant
                i <= self.entries.len(),
                sv == rule_entries_view(self.entries@),
                path_index(sv, path@, i as int) == path_index(sv, path@, 0),
            decreases self.entries.len() - i,
        {
            if self.entries[i].0.as_str().eq(path) {
                return Some(&self.entries[i].1);
            }
            i = i + 1;
        }
        None
    }

    /// Whether there are rules at `path`.
    pub fn contains_key(&self, path: &str) -> (r: bool)
        ensures
            r == (path_index(self@, path@, 0) is Some),
    {
        self.get(path).is_some()
    }

    /// The entry at index `i`, in insertion order.
    pub fn entry(&self, i: usize) -> (r: (&str, &MatchingRules))
        requires
            i < self@.len(),
        ensures
            r.0@ == self@[i as int].0,
            r.1@ == self@[i as int].1,
    {
        (self.entries[i].0.as_str(), &self.entries[i].1)
    }
}

/// A wire body: its content type and bytes.
#[derive(Debug)]
pub struct Body {
    pub content_type: String,
    pub content: Option<Vec<u8>>,
}

/// The content type of a body.
pub fn body_content_type(body: &Body) -> (r: &str)
    ensures
        r@ == body.content_type@,
{
    body.content_type.as_str()
}

/// Why a `contentsConfig` does not configure an interaction.
#[derive(Debug)]
pub enum ConfigureError {
    /// A required field (`operation`, `request`, `response`) is missing.
    MissingField(&'static str),
    /// `operation` names no MCP operation.
    UnknownOperation(String),
}

/// The model of a `ConfigureError`.
pub enum ConfigureErrorV {
    MissingField(Seq<char>),
    UnknownOperation(Seq<char>),
}

impl View for ConfigureError {
    type V = ConfigureErrorV;

    open spec fn view(&self) -> ConfigureErrorV {
        match self {
            ConfigureError::MissingField(f) => ConfigureErrorV::MissingField(f@),
            ConfigureError::UnknownOperation(o) => ConfigureErrorV::UnknownOperation(o@),
        }
    }
}

/// The one-line description of a configure error.
pub open spec fn configure_error_message(e: ConfigureErrorV) -> Seq<char> {
    match e {
        ConfigureErrorV::MissingField(f) => "missing required field `"@ + f + "` in contentsConfig"@,
        ConfigureErrorV::UnknownOperation(o) => "unknown mcp operation `"@ + o + "`"@,
    }
}

impl ConfigureError {
    /// A one-line description of the error.
    pub fn message(&self) -> (r: String)
        ensures
            r@ == configure_error_message(self@),
    {
        match self {
            ConfigureError::MissingField(f) => cat3("missing required field `", f, "` in contentsConfig"),
            ConfigureError::UnknownOperation(o) => cat3("unknown mcp operation `", o.as_str(), "`"),
        }
    }
}

/// The interaction built from a `contentsConfig`.
#[derive(Debug)]
pub struct ConfiguredInteraction {
    pub fragment: McpFragment,
    pub body_bytes: Vec<u8>,
    pub rules: RuleMap,
}

/// The matcher types of a `matchers` list: each element's string `match`
/// member, in order; elements without one are skipped.
pub open spec fn match_types(items: Seq<JsonV>) -> Seq<Seq<char>>
    decreases items.len(),
{
    if items.len() == 0 {
        Seq::empty()
    } else {
        let rest = match_types(items.drop_last());
        match jget_str(items.last(), "match"@) {
            Some(t) => rest.push(t),
            None => rest,
        }
    }
}

/// The matcher types of a rule value `{"matchers": [...]}`; none when it has
/// no `matchers` array.
pub open spec fn proto_rule_types(rule: JsonV) -> Seq<Seq<char>> {
    match jget(rule, "matchers"@) {
        Some(JsonV::Array(items)) => match_types(items),
        _ => Seq::empty(),
    }
}

/// A path without its root: `$.` or else `$` taken off the front.
pub open spec fn strip_root_path(path: Seq<char>) -> Seq<char> {
    match strip_prefix(path, "$."@) {
        Some(rest) => rest,
        None => match strip_prefix(path, "$"@) {
            Some(rest) => rest,
            None => path,
        },
    }
}

/// The rules of each entry of a `matchingRules` section inserted in turn,
/// each under `prefix` followed by its path without the root.
pub open spec fn add_rules(s: RuleSeq, prefix: Seq<char>, e: Seq<(Seq<char>, JsonV)>) -> RuleSeq
    decreases e.len(),
{
    if e.len() == 0 {
        s
    } else {
        upsert(
            add_rules(s, prefix, e.drop_last()),
            prefix + strip_root_path(e.last().0),
            proto_rule_types(e.last().1),
        )
    }
}

/// The entries of `matchingRules.<name>`, when it is an object.
pub open spec fn rules_section(config: JsonV, name: Seq<char>) -> Seq<(Seq<char>, JsonV)> {
    match jget(config, "matchingRules"@) {
        Some(m) => match jget(m, name) {
            Some(JsonV::Object(e)) => e,
            _ => Seq::empty(),
        },
        None => Seq::empty(),
    }
}

/// The rules of a `contentsConfig`: request rules under `$.request.`, then
/// response rules under `$.response.`.
pub open spec fn configured_rules(config: JsonV) -> RuleSeq {
    add_rules(
        add_rules(Seq::empty(), "$.request."@, rules_section(config, "request"@)),
        "$.response."@,
        rules_section(config, "response"@),
    )
}

/// The server hint of a `contentsConfig`: `server.transport`, when a string.
pub open spec fn configured_server(config: JsonV) -> Option<Seq<char>> {
    match jget(config, "server"@) {
        Some(s) => jget_str(s, "transport"@),
        None => None,
    }
}

/// Where a `contentsConfig` holds the interaction: its `mcp` object when it
/// has one (`{"pact:content-type": .., "mcp": {..}}`), else the config itself.
pub open spec fn config_source(config: JsonV) -> JsonV {
    match jget(config, "mcp"@) {
        Some(JsonV::Object(e)) => JsonV::Object(e),
        _ => config,
    }
}

/// The fragment a `contentsConfig` configures, or why it configures none:
/// request and response have each inline matcher replaced by its example.
pub open spec fn configured_fragment(config: JsonV) -> Result<McpFragmentV, ConfigureErrorV> {
    let src = config_source(config);
    match jget_str(src, "operation"@) {
        None => Err(ConfigureErrorV::MissingField("operation"@)),
        Some(op) => match parse_operation(op) {
            None => Err(ConfigureErrorV::UnknownOperation(op)),
            Some(operation) => match jget(src, "request"@) {
                None => Err(ConfigureErrorV::MissingField("request"@)),
                Some(request) => match jget(src, "response"@) {
                    None => Err(ConfigureErrorV::MissingField("response"@)),
                    Some(response) => Ok(
                        McpFragmentV {
                            pact_content_type: CONTENT_TYPE@,
                            mcp: McpInteractionV {
                                schema_version: SCHEMA_VERSION@,
                                operation,
                                request: strip("$"@, request).0,
                                response: strip("$"@, response).0,
                                server: configured_server(src),
                                provider_states: None,
                            },
                        },
                    ),
                },
            },
        },
    }
}

/// The rules of inline matchers inserted in turn, each under `prefix`
/// followed by its path without the root.
pub open spec fn add_inline_rules(s: RuleSeq, prefix: Seq<char>, rs: Seq<(Seq<char>, Seq<char>)>) -> RuleSeq
    decreases rs.len(),
{
    if rs.len() == 0 {
        s
    } else {
        upsert(
            add_inline_rules(s, prefix, rs.drop_last()),
            prefix + strip_root_path(rs.last().0),
            seq![rs.last().1],
        )
    }
}

/// All rules of a `contentsConfig`: those of its `matchingRules` block, then
/// those of the inline matchers of the request and of the response.
pub open spec fn configured_all_rules(config: JsonV) -> RuleSeq {
    let src = config_source(config);
    add_inline_rules(
        add_inline_rules(configured_rules(src), "$.request."@, strip("$"@, member_or_null(src, "request"@)).1),
        "$.response."@,
        strip("$"@, member_or_null(src, "response"@)).1,
    )
}

/// A path without its root (`$.` or `$`).
pub fn strip_root(path: &str) -> (r: &str)
    ensures
        r@ == strip_root_path(path@),
{
    match strip_prefix_str(path, "$.") {
        Some(rest) => rest,
        None => match strip_prefix_str(path, "$") {
            Some(rest) => rest,
            None => path,
        },
    }
}

/// The matching rules of a rule value: one per matcher with a string `match`.
pub fn to_proto_rules(rule: &Json) -> (r: MatchingRules)
    ensures
        r@ == proto_rule_types(rule@),
{
    let mut out: Vec<MatchingRule> = Vec::new();
    let matchers = match rule.get("matchers") {
        Some(m) => m.as_array(),
        None => None,
    };
    match matchers {
        Some(items) => {
            proof {
                lemma_items_view(items@);
            }
            let ghost iv = items_view(items@);
            let mut i: usize = 0;
            assert(iv.subrange(0, 0) =~= Seq::<JsonV>::empty());
            assert(rule_types(out@) =~= Seq::<Seq<char>>::empty());
            while i < items.len()
                invariant
                    i <= items.len(),
                    iv == items_view(items@),
                    iv.len() == items@.len(),
                    forall|k: int| 0 <= k < items@.len() ==> #[trigger] iv[k] == items@[k]@,
                    rule_types(out@) == match_types(iv.subrange(0, i as int)),
                decreases items.len() - i,
            {
                assert(iv.subrange(0, i + 1).drop_last() =~= iv.subrange(0, i as int));
                assert(iv.subrange(0, i + 1).last() == iv[i as int]);
                let t = match items[i].get("match") {
                    Some(m) => m.as_str(),
                    None => None,
                };
                match t {
                    Some(t) => {
                        let ghost prev = out@;
                        out.push(MatchingRule { rule_type: String::from_str(t) });
                        assert(rule_types(out@) =~= rule_types(prev).push(t@));
                    },
                    None => {},
                }
                i = i + 1;
            }
            assert(iv.subrange(0, iv.len() as int) =~= iv);
        },
        None => {},
    }
    MatchingRules { rule: out }
}

/// Inserts the rules of each entry of a section under `prefix`.
fn add_section_rules(rules: &mut RuleMap, prefix: &str, section: &Vec<(String, Json)>)
    ensures
        final(rules)@ == add_rules(old(rules)@, prefix@, entries_view(section@)),
{
    proof {
        lemma_entries_view(section@);
    }
    let ghost e = entries_view(section@);
    let ghost start = rules@;
    let mut i: usize = 0;
    assert(e.subrange(0, 0) =~= Seq::<(Seq<char>, JsonV)>::empty());
    while i < section.len()
        invariant
            i <= section.len(),
            e == entries_view(section@),
            e.len() == section@.len(),
            forall|k: int| 0 <= k < section@.len() ==> #[trigger] e[k] == (section@[k].0@, section@[k].1@),
            rules@ == add_rules(start, prefix@, e.subrange(0, i as int)),
        decreases section.len() - i,
    {
        assert(e.subrange(0, i + 1).drop_last() =~= e.subrange(0, i as int));
        assert(e.subrange(0, i + 1).last() == e[i as int]);
        let key = cat2(prefix, strip_root(section[i].0.as_str()));
        let r = to_proto_rules(&section[i].1);
        rules.insert(key, r);
        i = i + 1;
    }
    assert(e.subrange(0, e.len() as int) =~= e);
}

/// The entries of `matchingRules.<name>`, when it is an object.
fn rules_section_entries<'a>(config: &'a Json, name: &str) -> (r: Option<&'a Vec<(String, Json)>>)
    ensures
        match r {
            Some(o) => entries_view(o@) == rules_section(config@, name@),
            None => rules_section(config@, name@) == Seq::<(Seq<char>, JsonV)>::empty(),
        },
{
    match config.get("matchingRules") {
        Some(m) => match m.get(name) {
            Some(s) => s.as_object(),
            None => None,
        },
        None => None,
    }
}

/// Inserts the rules of inline matchers, each under `prefix`.
fn add_inline(rules: &mut RuleMap, prefix: &str, found: &Vec<(String, String)>)
    ensures
        final(rules)@ == add_inline_rules(old(rules)@, prefix@, pairs_view(found@)),
{
    let ghost fv = pairs_view(found@);
    let ghost start = rules@;
    let mut i: usize = 0;
    assert(fv.subrange(0, 0) =~= Seq::<(Seq<char>, Seq<char>)>::empty());
    while i < found.len()
        invariant
            i <= found.len(),
            fv == pairs_view(found@),
            fv.len() == found@.len(),
            rules@ == add_inline_rules(start, prefix@, fv.subrange(0, i as int)),
        decreases found.len() - i,
    {
        assert(fv.subrange(0, i + 1).drop_last() =~= fv.subrange(0, i as int));
        assert(fv.subrange(0, i + 1).last() == fv[i as int]);
        assert(fv[i as int] == (found@[i as int].0@, found@[i as int].1@));
        let key = cat2(prefix, strip_root(found[i].0.as_str()));
        let mut one: Vec<MatchingRule> = Vec::new();
        one.push(MatchingRule { rule_type: found[i].1.clone() });
        let r = MatchingRules { rule: one };
        assert(r@ =~= seq![found@[i as int].1@]);
        rules.insert(key, r);
        i = i + 1;
    }
    assert(fv.subrange(0, fv.len() as int) =~= fv);
}

/// Builds the persisted fragment, its wire body (the fragment's JSON text as
/// UTF-8) and the matching rules from a consumer-authored `contentsConfig`:
/// `{"operation": .., "request": .., "response": .., "matchingRules":
/// {"request": {..}, "response": {..}}, "server": {"transport": ..}}`, or the
/// same under `mcp` (`{"pact:content-type": .., "mcp": {..}}`). Inline
/// matchers in the request and response are replaced by their examples and
/// recorded as rules.
pub fn configure_interaction(contents_config: &Json) -> (r: Result<ConfiguredInteraction, ConfigureError>)
    ensures
        match r {
            Ok(c) => {
                &&& configured_fragment(contents_config@) == Ok::<McpFragmentV, ConfigureErrorV>(c.fragment@)
                &&& c.body_bytes@ == vstd::utf8::encode_utf8(json_text(fragment_json(c.fragment@)))
                &&& c.rules@ == configured_all_rules(contents_config@)
            },
            Err(e) => configured_fragment(contents_config@) == Err::<McpFragmentV, ConfigureErrorV>(e@),
        },
{
    let src = match contents_config.get("mcp") {
        Some(m) => match m {
            Json::Object(_) => m,
            _ => contents_config,
        },
        None => contents_config,
    };
    assert(src@ == config_source(contents_config@));
    let operation_str = match src.get("operation") {
        Some(o) => o.as_str(),
        None => None,
    };
    let operation_str = match operation_str {
        Some(s) => s,
        None => {
            return Err(ConfigureError::MissingField("operation"));
        },
    };
    let operation = match Operation::parse(operation_str) {
        Some(op) => op,
        None => {
            return Err(ConfigureError::UnknownOperation(String::from_str(operation_str)));
        },
    };
    let mut request_rules: Vec<(String, String)> = Vec::new();
    let mut response_rules: Vec<(String, String)> = Vec::new();
    assert(pairs_view(request_rules@) =~= Seq::<(Seq<char>, Seq<char>)>::empty());
    assert(pairs_view(response_rules@) =~= Seq::<(Seq<char>, Seq<char>)>::empty());
    let request = match src.get("request") {
        Some(v) => strip_matchers("$", v, &mut request_rules),
        None => {
            return Err(ConfigureError::MissingField("request"));
        },
    };
    let response = match src.get("response") {
        Some(v) => strip_matchers("$", v, &mut response_rules),
        None => {
            return Err(ConfigureError::MissingField("response"));
        },
    };
    let mut interaction = McpInteraction::new(operation, request, response);
    match src.get("server") {
        Some(server) => match server.get("transport") {
            Some(t) => match t.as_str() {
                Some(transport) => {
                    interaction.server = Some(ServerHint { transport: String::from_str(transport) });
                },
                None => {},
            },
            None => {},
        },
        None => {},
    }
    let fragment = McpFragment::new(interaction);
    let body_bytes = render_json(&fragment.to_json()).as_str().as_bytes_vec();

    let mut rules = RuleMap::new();
    match rules_section_entries(src, "request") {
        Some(section) => add_section_rules(&mut rules, "$.request.", section),
        None => {},
    }
    match rules_section_entries(src, "response") {
        Some(section) => add_section_rules(&mut rules, "$.response.", section),
        None => {},
    }
    assert(rules@ == configured_rules(src@));
    add_inline(&mut rules, "$.request.", &request_rules);
    add_inline(&mut rules, "$.response.", &response_rules);
    Ok(ConfiguredInteraction { fragment, body_bytes, rules })
}

/// `{"match": t}` for each matcher type, in order.
pub open spec fn matcher_items(types: Seq<Seq<char>>) -> Seq<JsonV>
    decreases types.len(),
{
    if types.len() == 0 {
        Seq::empty()
    } else {
        matcher_items(types.drop_last()).push(JsonV::Object(seq![("match"@, JsonV::Str(types.last()))]))
    }
}

/// The rule value `{"matchers": [{"match": t}, ...]}` of some matcher types.
pub open spec fn matchers_json(types: Seq<Seq<char>>) -> JsonV {
    JsonV::Object(seq![("matchers"@, JsonV::Array(matcher_items(types)))])
}

/// The rules whose path starts with `prefix`, each re-rooted at `$.` with the
/// prefix taken off, in order.
pub open spec fn rules_under(s: RuleSeq, prefix: Seq<char>) -> Seq<(Seq<char>, JsonV)>
    decreases s.len(),
{
    if s.len() == 0 {
        Seq::empty()
    } else {
        let rest = rules_under(s.drop_last(), prefix);
        match strip_prefix(s.last().0, prefix) {
            Some(tail) => rest.push(("$."@ + tail, matchers_json(s.last().1))),
            None => rest,
        }
    }
}

fn matchers_value(rules: &MatchingRules) -> (r: Json)
    ensures
        r@ == matchers_json(rules@),
{
    let ghost tv = rules@;
    let mut items: Vec<Json> = Vec::new();
    let mut i: usize = 0;
    assert(tv.subrange(0, 0) =~= Seq::<Seq<char>>::empty());
    while i < rules.rule.len()
        invariant
            i <= rules.rule.len(),
            tv == rules@,
            tv.len() == rules.rule@.len(),
            items_view(items@) == matcher_items(tv.subrange(0, i as int)),
        decreases rules.rule.len() - i,
    {
        assert(tv.subrange(0, i + 1).drop_last() =~= tv.subrange(0, i as int));
        assert(tv[i as int] == rules.rule@[i as int].rule_type@);
        let t = rules.rule[i].rule_type.clone();
        let mut entry: Vec<(String, Json)> = Vec::new();
        entry.push((String::from_str("match"), Json::Str(t)));
        proof {
            reveal_strlit("match");
            assert(entry@.drop_last() =~= Seq::<(String, Json)>::empty());
            assert(entries_view(entry@.drop_last()) =~= Seq::<(Seq<char>, JsonV)>::empty());
            assert(entry@.last().0@ == "match"@);
            assert(json_view(entry@.last().1) == JsonV::Str(tv[i as int]));
            assert(entries_view(entry@) =~= seq![("match"@, JsonV::Str(tv[i as int]))]);
        }
        let item = Json::Object(entry);
        assert(item@ == JsonV::Object(seq![("match"@, JsonV::Str(tv[i as int]))]));
        let ghost prev = items@;
        items.push(item);
        proof {
            assert(items@.drop_last() == prev);
            assert(items_view(items@) == items_view(prev).push(
                JsonV::Object(seq![("match"@, JsonV::Str(tv[i as int]))]),
            ));
            assert(tv.subrange(0, i + 1).last() == tv[i as int]);
        }
        i = i + 1;
    }
    assert(tv.subrange(0, tv.len() as int) =~= tv);
    let ghost iv = items_view(items@);
    let arr = Json::Array(items);
    assert(arr@ == JsonV::Array(iv));
    let mut outer: Vec<(String, Json)> = Vec::new();
    outer.push((String::from_str("matchers"), arr));
    proof {
        assert(outer@.drop_last() =~= Seq::<(String, Json)>::empty());
        assert(entries_view(outer@.drop_last()) =~= Seq::<(Seq<char>, JsonV)>::empty());
        assert(entries_view(outer@) =~= seq![("matchers"@, JsonV::Array(iv))]);
    }
    Json::Object(outer)
}

/// The rules under one root (`request` or `response`), re-rooted at `$.` as a
/// rules object `{"<path>": {"matchers": [{"match": ..}]}}`.
pub fn rules_value_for_root(proto_rules: &RuleMap, root: &str) -> (r: Json)
    ensures
        r@ == JsonV::Object(rules_under(proto_rules@, "$."@ + root@ + "."@)),
{
    let prefix = cat3("$.", root, ".");
    let ghost sv = proto_rules@;
    let mut out: Vec<(String, Json)> = Vec::new();
    let mut i: usize = 0;
    let n = proto_rules.len();
    assert(sv.subrange(0, 0) =~= Seq::<(Seq<char>, Seq<Seq<char>>)>::empty());
    while i < n
        invariant
            i <= n,
            n == sv.len(),
            sv == proto_rules@,
            prefix@ == "$."@ + root@ + "."@,
            entries_view(out@) == rules_under(sv.subrange(0, i as int), prefix@),
        decreases n - i,
    {
        assert(sv.subrange(0, i + 1).drop_last() =~= sv.subrange(0, i as int));
        assert(sv.subrange(0, i + 1).last() == sv[i as int]);
        let (path, rules) = proto_rules.entry(i);
        match strip_prefix_str(path, prefix.as_str()) {
            Some(rest) => {
                let key = cat2("$.", rest);
                let value = matchers_value(rules);
                let ghost prev = out@;
                out.push((key, value));
                assert(out@.drop_last() == prev);
            },
            None => {},
        }
        i = i + 1;
    }
    assert(sv.subrange(0, sv.len() as int) =~= sv);
    Json::Object(out)
}

/// Every rule as a rules-object entry, keyed by its own path.
pub open spec fn rules_entries(s: RuleSeq) -> Seq<(Seq<char>, JsonV)>
    decreases s.len(),
{
    if s.len() == 0 {
        Seq::empty()
    } else {
        rules_entries(s.drop_last()).push((s.last().0, matchers_json(s.last().1)))
    }
}

/// All rules as a rules object `{"<path>": {"matchers": [{"match": ..}]}}`,
/// keyed by their paths as stored.
pub fn rules_value(proto_rules: &RuleMap) -> (r: Json)
    ensures
        r@ == JsonV::Object(rules_entries(proto_rules@)),
{
    let ghost sv = proto_rules@;
    let mut out: Vec<(String, Json)> = Vec::new();
    let mut i: usize = 0;
    let n = proto_rules.len();
    assert(sv.subrange(0, 0) =~= Seq::<(Seq<char>, Seq<Seq<char>>)>::empty());
    while i < n
        invariant
            i <= n,
            n == sv.len(),
            sv == proto_rules@,
            entries_view(out@) == rules_entries(sv.subrange(0, i as int)),
        decreases n - i,
    {
        assert(sv.subrange(0, i + 1).drop_last() =~= sv.subrange(0, i as int));
        assert(sv.subrange(0, i + 1).last() == sv[i as int]);
        let (path, rules) = proto_rules.entry(i);
        let value = matchers_value(rules);
        let ghost prev = out@;
        out.push((String::from_str(path), value));
        assert(out@.drop_last() == prev);
        i = i + 1;
    }
    assert(sv.subrange(0, sv.len() as int) =~= sv);
    Json::Object(out)
}

/// One part of a configured synchronous message: its name (`request` or
/// `response`), its body (the JSON text of that side as UTF-8) and its rules,
/// rooted at the part's own body (`$.<path>`).
#[derive(Debug)]
pub struct ConfiguredPart {
    pub part_name: String,
    pub body_bytes: Vec<u8>,
    pub rules: Json,
}

fn configured_part(c: &ConfiguredInteraction, name: &str, body: &Json) -> (r: ConfiguredPart)
    ensures
        r.part_name@ == name@,
        r.body_bytes@ == vstd::utf8::encode_utf8(json_text(body@)),
        r.rules@ == JsonV::Object(rules_under(c.rules@, "$."@ + name@ + "."@)),
{
    ConfiguredPart {
        part_name: String::from_str(name),
        body_bytes: render_json(body).as_str().as_bytes_vec(),
        rules: rules_value_for_root(&c.rules, name),
    }
}

/// The two parts of a configured interaction, request first: each part's
/// body is its side of the fragment, and its rules are those recorded under
/// `$.request.` or `$.response.`, re-rooted at `$.`.
pub fn configured_parts(c: &ConfiguredInteraction) -> (r: (ConfiguredPart, ConfiguredPart))
    ensures
        r.0.part_name@ == "request"@,
        r.0.body_bytes@ == vstd::utf8::encode_utf8(json_text(c.fragment@.mcp.request)),
        r.0.rules@ == JsonV::Object(rules_under(c.rules@, "$.request."@)),
        r.1.part_name@ == "response"@,
        r.1.body_bytes@ == vstd::utf8::encode_utf8(json_text(c.fragment@.mcp.response)),
        r.1.rules@ == JsonV::Object(rules_under(c.rules@, "$.response."@)),
{
    proof {
        reveal_strlit("$.");
        reveal_strlit(".");
        reveal_strlit("request");
        reveal_strlit("response");
        reveal_strlit("$.request.");
        reveal_strlit("$.response.");
        assert("$."@ + "request"@ + "."@ =~= "$.request."@);
        assert("$."@ + "response"@ + "."@ =~= "$.response."@);
    }
    let request = configured_part(c, "request", &c.fragment.mcp.request);
    let response = configured_part(c, "response", &c.fragment.mcp.response);
    (request, response)
}

/// The interaction configuration persisted beside the parts: the operation's
/// method name, then the server hint when there is one.
pub open spec fn interaction_configuration_json(i: McpInteractionV) -> JsonV {
    let op = seq![("operation"@, JsonV::Str(method_name(i.operation)))];
    match i.server {
        Some(t) => JsonV::Object(op.push(("server"@, JsonV::Object(seq![("transport"@, JsonV::Str(t))])))),
        None => JsonV::Object(op),
    }
}

/// `{"operation": <method>}`, with `"server": {"transport": ..}` after it
/// when the interaction names a transport.
pub fn interaction_configuration(c: &ConfiguredInteraction) -> (r: Json)
    ensures
        r@ == interaction_configuration_json(c.fragment@.mcp),
{
    let mut out: Vec<(String, Json)> = Vec::new();
    out.push((String::from_str("operation"), Json::Str(String::from_str(c.fragment.mcp.operation.method()))));
    proof {
        reveal_strlit("operation");
        assert(out@.drop_last() =~= Seq::<(String, Json)>::empty());
        assert(entries_view(out@.drop_last()) =~= Seq::<(Seq<char>, JsonV)>::empty());
        assert(out@.last().0@ == "operation"@);
        assert(json_view(out@.last().1) == JsonV::Str(method_name(c.fragment.mcp.operation)));
        assert(entries_view(out@) =~= seq![("operation"@, JsonV::Str(method_name(c.fragment.mcp.operation)))]);
    }
    match &c.fragment.mcp.server {
        Some(hint) => {
            let mut inner: Vec<(String, Json)> = Vec::new();
            inner.push((String::from_str("transport"), Json::Str(hint.transport.clone())));
            proof {
                reveal_strlit("transport");
                assert(inner@.drop_last() =~= Seq::<(String, Json)>::empty());
                assert(entries_view(inner@.drop_last()) =~= Seq::<(Seq<char>, JsonV)>::empty());
                assert(inner@.last().0@ == "transport"@);
                assert(json_view(inner@.last().1) == JsonV::Str(hint.transport@));
                assert(entries_view(inner@) =~= seq![("transport"@, JsonV::Str(hint.transport@))]);
            }
            let ghost prev = out@;
            let server = Json::Object(inner);
            let ghost sv = JsonV::Object(seq![("transport"@, JsonV::Str(hint.transport@))]);
            assert(server@ == sv);
            out.push((String::from_str("server"), server));
            proof {
                reveal_strlit("server");
                assert(out@.drop_last() == prev);
                assert(out@.last().0@ == "server"@);
                assert(json_view(out@.last().1) == sv);
                assert(entries_view(out@) =~= entries_view(prev).push(("server"@, sv)));
            }
        },
        None => {},
    }
    Json::Object(out)
}

/// What a configure request is answered with: the request part, the
/// response part and the interaction configuration; or, for a refused
/// config, the error's message.
pub fn configure_response(contents_config: &Json) -> (r: Result<(ConfiguredPart, ConfiguredPart, Json), String>)
    ensures
        match configured_fragment(contents_config@) {
            Err(e) => r is Err && r->Err_0@ == configure_error_message(e),
            Ok(f) => r is Ok && {
                let (request, response, config) = r->Ok_0;
                let rules = configured_all_rules(contents_config@);
                &&& request.part_name@ == "request"@
                &&& request.body_bytes@ == vstd::utf8::encode_utf8(json_text(f.mcp.request))
                &&& request.rules@ == JsonV::Object(rules_under(rules, "$.request."@))
                &&& response.part_name@ == "response"@
                &&& response.body_bytes@ == vstd::utf8::encode_utf8(json_text(f.mcp.response))
                &&& response.rules@ == JsonV::Object(rules_under(rules, "$.response."@))
                &&& config@ == interaction_configuration_json(f.mcp)
            },
        },
{
    match configure_interaction(contents_config) {
        Err(e) => Err(e.message()),
        Ok(c) => {
            let (request, response) = configured_parts(&c);
            let config = interaction_configuration(&c);
            Ok((request, response, config))
        },
    }
}

/// A config whose request and response hold no inline matcher has exactly
/// the rules of its `matchingRules` block.
pub proof fn law_rules_without_inline_matchers(config: JsonV)
    requires
        strip("$"@, member_or_null(config_source(config), "request"@)).1.len() == 0,
        strip("$"@, member_or_null(config_source(config), "response"@)).1.len() == 0,
    ensures
        configured_all_rules(config) == configured_rules(config_source(config)),
{
}

/// An operation that names no MCP operation is refused, with that name.
pub proof fn law_unknown_operation_is_refused(config: JsonV, op: Seq<char>)
    requires
        jget_str(config_source(config), "operation"@) == Some(op),
        parse_operation(op) is None,
    ensures
        configured_fragment(config) == Err::<McpFragmentV, ConfigureErrorV>(ConfigureErrorV::UnknownOperation(op)),
{
}

/// The entries of a section as inserted under `prefix`, one for one.
pub open spec fn mapped_rules(prefix: Seq<char>, e: Seq<(Seq<char>, JsonV)>) -> RuleSeq
    decreases e.len(),
{
    if e.len() == 0 {
        Seq::empty()
    } else {
        mapped_rules(prefix, e.drop_last()).push((prefix + strip_root_path(e.last().0), proto_rule_types(e.last().1)))
    }
}

/// The entries of a section re-rooted at `$.`, each with its matcher types.
pub open spec fn rerooted_rules(e: Seq<(Seq<char>, JsonV)>) -> Seq<(Seq<char>, JsonV)>
    decreases e.len(),
{
    if e.len() == 0 {
        Seq::empty()
    } else {
        rerooted_rules(e.drop_last()).push(
            ("$."@ + strip_root_path(e.last().0), matchers_json(proto_rule_types(e.last().1))),
        )
    }
}

/// No two entries of a section have the same path once the root is taken off.
pub open spec fn stripped_paths_unique(e: Seq<(Seq<char>, JsonV)>) -> bool {
    forall|i: int, j: int| 0 <= i < j < e.len() ==> strip_root_path(e[i].0) != strip_root_path(e[j].0)
}

/// No entry is at `path`.
pub open spec fn no_path(s: RuleSeq, path: Seq<char>) -> bool {
    forall|j: int| 0 <= j < s.len() ==> #[trigger] s[j].0 != path
}

/// `s` starts with `p`.
pub open spec fn starts_with(s: Seq<char>, p: Seq<char>) -> bool {
    p.len() <= s.len() && s.subrange(0, p.len() as int) == p
}

proof fn lemma_upsert_fresh(s: RuleSeq, path: Seq<char>, types: Seq<Seq<char>>)
    requires
        no_path(s, path),
    ensures
        upsert(s, path, types) == s.push((path, types)),
{
    lemma_path_index(s, path, 0);
}

proof fn lemma_mapped_rules(prefix: Seq<char>, e: Seq<(Seq<char>, JsonV)>)
    ensures
        mapped_rules(prefix, e).len() == e.len(),
        forall|m: int|
            0 <= m < e.len() ==> #[trigger] mapped_rules(prefix, e)[m] == (
                prefix + strip_root_path(e[m].0),
                proto_rule_types(e[m].1),
            ),
    decreases e.len(),
{
    if e.len() > 0 {
        lemma_mapped_rules(prefix, e.drop_last());
    }
}

proof fn lemma_concat_cancel(p: Seq<char>, x: Seq<char>, y: Seq<char>)
    requires
        p + x == p + y,
    ensures
        x == y,
{
    assert((p + x).subrange(p.len() as int, (p + x).len() as int) =~= x);
    assert((p + y).subrange(p.len() as int, (p + y).len() as int) =~= y);
}

proof fn lemma_add_rules_fresh(s: RuleSeq, prefix: Seq<char>, e: Seq<(Seq<char>, JsonV)>)
    requires
        stripped_paths_unique(e),
        forall|m: int| 0 <= m < e.len() ==> no_path(s, prefix + strip_root_path(#[trigger] e[m].0)),
    ensures
        add_rules(s, prefix, e) == s + mapped_rules(prefix, e),
    decreases e.len(),
{
    if e.len() == 0 {
        assert(s + mapped_rules(prefix, e) =~= s);
    } else {
        let e0 = e.drop_last();
        assert forall|m: int| 0 <= m < e0.len() implies no_path(s, prefix + strip_root_path(#[trigger] e0[m].0)) by {
            assert(e0[m] == e[m]);
        }
        lemma_add_rules_fresh(s, prefix, e0);
        let key = prefix + strip_root_path(e.last().0);
        let done = s + mapped_rules(prefix, e0);
        lemma_mapped_rules(prefix, e0);
        assert forall|j: int| 0 <= j < done.len() implies #[trigger] done[j].0 != key by {
            if j < s.len() {
                assert(no_path(s, prefix + strip_root_path(e[e.len() - 1].0)));
                assert(done[j] == s[j]);
            } else {
                let m = j - s.len();
                assert(done[j] == mapped_rules(prefix, e0)[m]);
                assert(e0[m] == e[m]);
                if done[j].0 == key {
                    lemma_concat_cancel(prefix, strip_root_path(e[m].0), strip_root_path(e.last().0));
                    assert(strip_root_path(e[m].0) != strip_root_path(e[e.len() - 1].0));
                }
            }
        }
        lemma_upsert_fresh(done, key, proto_rule_types(e.last().1));
        assert(done.push((key, proto_rule_types(e.last().1))) =~= s + mapped_rules(prefix, e));
    }
}

proof fn lemma_rules_under_concat(a: RuleSeq, b: RuleSeq, prefix: Seq<char>)
    ensures
        rules_under(a + b, prefix) == rules_under(a, prefix) + rules_under(b, prefix),
    decreases b.len(),
{
    if b.len() == 0 {
        assert(a + b =~= a);
        assert(rules_under(a, prefix) + rules_under(b, prefix) =~= rules_under(a, prefix));
    } else {
        lemma_rules_under_concat(a, b.drop_last(), prefix);
        assert((a + b).drop_last() =~= a + b.drop_last());
        assert((a + b).last() == b.last());
        match strip_prefix(b.last().0, prefix) {
            Some(tail) => {
                assert(rules_under(a, prefix) + rules_under(b, prefix) =~= (rules_under(a, prefix) + rules_under(
                    b.drop_last(),
                    prefix,
                )).push(("$."@ + tail, matchers_json(b.last().1))));
            },
            None => {},
        }
    }
}

proof fn lemma_add_rules_prefixed(s: RuleSeq, prefix: Seq<char>, e: Seq<(Seq<char>, JsonV)>)
    requires
        forall|j: int| 0 <= j < s.len() ==> starts_with(#[trigger] s[j].0, prefix),
    ensures
        forall|j: int|
            0 <= j < add_rules(s, prefix, e).len() ==> starts_with(#[trigger] add_rules(s, prefix, e)[j].0, prefix),
    decreases e.len(),
{
    if e.len() > 0 {
        lemma_add_rules_prefixed(s, prefix, e.drop_last());
        let done = add_rules(s, prefix, e.drop_last());
        let key = prefix + strip_root_path(e.last().0);
        assert(key.subrange(0, prefix.len() as int) =~= prefix);
        lemma_path_index(done, key, 0);
    }
}

proof fn lemma_rules_under_none(s: RuleSeq, prefix: Seq<char>)
    requires
        forall|j: int| 0 <= j < s.len() ==> strip_prefix(#[trigger] s[j].0, prefix) is None,
    ensures
        rules_under(s, prefix) == Seq::<(Seq<char>, JsonV)>::empty(),
    decreases s.len(),
{
    if s.len() > 0 {
        lemma_rules_under_none(s.drop_last(), prefix);
        assert(s.last() == s[s.len() - 1]);
    }
}

proof fn lemma_rules_under_mapped(prefix: Seq<char>, e: Seq<(Seq<char>, JsonV)>)
    ensures
        rules_under(mapped_rules(prefix, e), prefix) == rerooted_rules(e),
    decreases e.len(),
{
    if e.len() > 0 {
        lemma_rules_under_mapped(prefix, e.drop_last());
        let x = strip_root_path(e.last().0);
        let key = prefix + x;
        assert(key.subrange(0, prefix.len() as int) =~= prefix);
        assert(key.subrange(prefix.len() as int, key.len() as int) =~= x);
        assert(mapped_rules(prefix, e).drop_last() == mapped_rules(prefix, e.drop_last()));
    }
}

/// The request rules sit under `$.request.` and the response rules under
/// `$.response.`; no path under one starts with the other.
proof fn lemma_roots_differ(k: Seq<char>, x: Seq<char>)
    requires
        starts_with(k, "$.request."@),
    ensures
        strip_prefix(k, "$.response."@) is None,
        k != "$.response."@ + x,
{
    reveal_strlit("$.request.");
    reveal_strlit("$.response.");
    assert(k[4] == "$.request."@[4]);
    assert(("$.response."@ + x)[4] == 's');
    if "$.response."@.len() <= k.len() && k.subrange(0, 11) == "$.response."@ {
        assert(k.subrange(0, 11)[4] == k[4]);
    }
}

/// Configured response rules round-trip: read back under the `response`
/// root, they are the authored response rules re-rooted at `$.`, each with
/// its matcher types, in the authored order (when no two authored paths are
/// the same once their root is taken off).
pub proof fn law_response_rules_round_trip(config: JsonV)
    requires
        stripped_paths_unique(rules_section(config, "response"@)),
    ensures
        rules_under(configured_rules(config), "$.response."@) == rerooted_rules(rules_section(config, "response"@)),
{
    let req = rules_section(config, "request"@);
    let resp = rules_section(config, "response"@);
    let r = add_rules(Seq::empty(), "$.request."@, req);
    lemma_add_rules_prefixed(Seq::empty(), "$.request."@, req);
    assert forall|m: int| 0 <= m < resp.len() implies no_path(r, "$.response."@ + strip_root_path(#[trigger] resp[m].0)) by {
        assert forall|j: int| 0 <= j < r.len() implies #[trigger] r[j].0 != "$.response."@ + strip_root_path(resp[m].0) by {
            lemma_roots_differ(r[j].0, strip_root_path(resp[m].0));
        }
    }
    lemma_add_rules_fresh(r, "$.response."@, resp);
    lemma_rules_under_concat(r, mapped_rules("$.response."@, resp), "$.response."@);
    assert forall|j: int| 0 <= j < r.len() implies strip_prefix(#[trigger] r[j].0, "$.response."@) is None by {
        lemma_roots_differ(r[j].0, Seq::empty());
    }
    lemma_rules_under_none(r, "$.response."@);
    lemma_rules_under_mapped("$.response."@, resp);
    assert(Seq::<(Seq<char>, JsonV)>::empty() + rerooted_rules(resp) =~= rerooted_rules(resp));
}

proof fn lemma_rules_under_update(s: RuleSeq, i: int, entry: (Seq<char>, Seq<Seq<char>>), prefix: Seq<char>)
    requires
        0 <= i < s.len(),
        strip_prefix(s[i].0, prefix) is None,
        strip_prefix(entry.0, prefix) is None,
    ensures
        rules_under(s.update(i, entry), prefix) == rules_under(s, prefix),
    decreases s.len(),
{
    let u = s.update(i, entry);
    if i == s.len() - 1 {
        assert(u.drop_last() =~= s.drop_last());
    } else {
        lemma_rules_under_update(s.drop_last(), i, entry, prefix);
        assert(u.drop_last() =~= s.drop_last().update(i, entry));
        assert(u.last() == s.last());
    }
}

proof fn lemma_rules_under_add_other(s: RuleSeq, prefix: Seq<char>, e: Seq<(Seq<char>, JsonV)>, other: Seq<char>)
    requires
        forall|m: int| 0 <= m < e.len() ==> strip_prefix(prefix + strip_root_path(#[trigger] e[m].0), other) is None,
    ensures
        rules_under(add_rules(s, prefix, e), other) == rules_under(s, other),
    decreases e.len(),
{
    if e.len() > 0 {
        let e0 = e.drop_last();
        assert forall|m: int| 0 <= m < e0.len() implies strip_prefix(
            prefix + strip_root_path(#[trigger] e0[m].0),
            other,
        ) is None by {
            assert(e0[m] == e[m]);
        }
        lemma_rules_under_add_other(s, prefix, e0, other);
        let done = add_rules(s, prefix, e0);
        let key = prefix + strip_root_path(e.last().0);
        assert(strip_prefix(prefix + strip_root_path(e[e.len() - 1].0), other) is None);
        lemma_path_index(done, key, 0);
        let t = proto_rule_types(e.last().1);
        assert(add_rules(s, prefix, e) == upsert(done, key, t));
        match path_index(done, key, 0) {
            Some(i) => lemma_rules_under_update(done, i, (key, t), other),
            None => {
                assert(done.push((key, t)).drop_last() =~= done);
            },
        }
    }
}

proof fn lemma_response_not_request(x: Seq<char>)
    ensures
        strip_prefix("$.response."@ + x, "$.request."@) is None,
{
    reveal_strlit("$.request.");
    reveal_strlit("$.response.");
    let k = "$.response."@ + x;
    assert(k[4] == 's');
    if "$.request."@.len() <= k.len() && k.subrange(0, 10) == "$.request."@ {
        assert(k.subrange(0, 10)[4] == k[4]);
    }
}

/// Configured request rules round-trip the same way: read back under the
/// `request` root, they are the authored request rules re-rooted at `$.`
/// (when no two authored paths are the same once their root is taken off).
pub proof fn law_request_rules_round_trip(config: JsonV)
    requires
        stripped_paths_unique(rules_section(config, "request"@)),
    ensures
        rules_under(configured_rules(config), "$.request."@) == rerooted_rules(rules_section(config, "request"@)),
{
    let req = rules_section(config, "request"@);
    let resp = rules_section(config, "response"@);
    let empty = Seq::<(Seq<char>, Seq<Seq<char>>)>::empty();
    lemma_add_rules_fresh(empty, "$.request."@, req);
    assert(empty + mapped_rules("$.request."@, req) =~= mapped_rules("$.request."@, req));
    let r = add_rules(empty, "$.request."@, req);
    assert forall|m: int| 0 <= m < resp.len() implies strip_prefix(
        "$.response."@ + strip_root_path(#[trigger] resp[m].0),
        "$.request."@,
    ) is None by {
        lemma_response_not_request(strip_root_path(resp[m].0));
    }
    lemma_rules_under_add_other(r, "$.response."@, resp, "$.request."@);
    lemma_rules_under_mapped("$.request."@, req);
}

} // verus!
