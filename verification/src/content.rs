//! MCP-aware content matching: compares an actual MCP response (a JSON-RPC
//! `result`, or `{"error": {...}}`) against the expected one of an
//! interaction, and an incoming request against an interaction's request.
//!
//! Each comparison is stated as a spec function over `JsonV` producing the
//! exact sequence of mismatches (path, expected, actual, message), and each
//! executable comparison is proved to produce that sequence.
use vstd::prelude::*;
use crate::model::Operation;
use crate::json::{
    Json, JsonV, json_text, json_wf, lemma_lookup_unique, lemma_member_wf, lemma_element_wf, lemma_json_eq_refl, jobj, jget, jarr, jstr, jbool, jget_str, lookup, lookup_from, opt_view, same_kind, json_eq,
    json_equal, same_json_kind, render_json, items_view, entries_view, lemma_items_view,
    lemma_entries_view,
};
use crate::text::{nat_text, bool_text, usize_text, bool_str, cat2, cat3, cat4, cat5, seq_lt, str_lt, lemma_seq_lt};

verus! {

/// One difference between an expected and an actual value.
#[derive(Debug)]
pub struct Mismatch {
    pub path: String,
    pub expected: Json,
    pub actual: Json,
    pub message: String,
}

/// The model of a `Mismatch`.
pub struct MismatchV {
    pub path: Seq<char>,
    pub expected: JsonV,
    pub actual: JsonV,
    pub message: Seq<char>,
}

impl View for Mismatch {
    type V = MismatchV;

    open spec fn view(&self) -> MismatchV {
        MismatchV {
            path: self.path@,
            expected: self.expected@,
            actual: self.actual@,
            message: self.message@,
        }
    }
}

/// The models of a sequence of mismatches.
pub open spec fn mviews(s: Seq<Mismatch>) -> Seq<MismatchV> {
    s.map_values(|m: Mismatch| m@)
}

pub open spec fn mm(path: Seq<char>, expected: JsonV, actual: JsonV, message: Seq<char>) -> MismatchV {
    MismatchV { path, expected, actual, message }
}

/// The outcome of a comparison: the mismatches found, in the order found.
#[derive(Debug)]
pub struct MatchResult {
    pub mismatches: Vec<Mismatch>,
}

impl View for MatchResult {
    type V = Seq<MismatchV>;

    open spec fn view(&self) -> Seq<MismatchV> {
        mviews(self.mismatches@)
    }
}

/// Matching rules keyed by JSON path (`{"<path>": {"matchers": [{"match": "type"}]}}`),
/// rooted at the request or response object.
#[derive(Debug)]
pub struct Rules<'a> {
    pub raw: Option<&'a Json>,
}

/// The model of a rules value.
pub open spec fn raw_view(raw: Option<&Json>) -> Option<JsonV> {
    opt_view(raw)
}

/// The `match` type of the first matcher of the rule for `path`, if the rules
/// are an object holding an object rule for `path` whose `matchers` is an
/// array whose first element is an object with a string `match`.
pub open spec fn rule_match_type(raw: Option<JsonV>, path: Seq<char>) -> Option<Seq<char>> {
    match raw {
        None => None,
        Some(r) => if jobj(r) is None {
            None
        } else {
            match jget(r, path) {
                None => None,
                Some(rule) => if jobj(rule) is None {
                    None
                } else {
                    match jget(rule, "matchers"@) {
                        None => None,
                        Some(ms) => match jarr(ms) {
                            None => None,
                            Some(arr) => if arr.len() == 0 || jobj(arr[0]) is None {
                                None
                            } else {
                                jget_str(arr[0], "match"@)
                            },
                        },
                    }
                },
            }
        },
    }
}

/// The rule for `path` is a `type` matcher.
pub open spec fn is_type_rule(raw: Option<JsonV>, path: Seq<char>) -> bool {
    rule_match_type(raw, path) == Some("type"@)
}

/// Scalars match by kind under a `type` rule, by equality otherwise.
pub open spec fn values_match(raw: Option<JsonV>, path: Seq<char>, e: JsonV, a: JsonV) -> bool {
    if is_type_rule(raw, path) {
        same_kind(e, a)
    } else {
        json_eq(e, a)
    }
}

/// The entries of `a` if it is an object, with `None` otherwise.
pub open spec fn member(am: Option<Seq<(Seq<char>, JsonV)>>, key: Seq<char>) -> Option<JsonV> {
    match am {
        Some(m) => lookup(m, key),
        None => None,
    }
}

/// A scalar at `path` matches: under a rule, by that rule (a `type` rule by
/// kind, any other by equality); without one, by kind when `by_kind` is set
/// and by equality otherwise.
pub open spec fn leaf_match(raw: Option<JsonV>, path: Seq<char>, e: JsonV, a: JsonV, by_kind: bool) -> bool {
    if by_kind && rule_match_type(raw, path) is None {
        same_kind(e, a)
    } else {
        values_match(raw, path, e, a)
    }
}

/// Structural comparison: keys present in `e` must be present in `a` and match
/// recursively; extra keys of `a` are ignored; array elements are compared by
/// index, extra trailing elements of `a` ignored; scalars match exactly unless
/// a `type` rule is set for their path.
pub open spec fn structured(path: Seq<char>, e: JsonV, a: JsonV, raw: Option<JsonV>) -> Seq<MismatchV> {
    structured_by(path, e, a, raw, false)
}

/// Structural comparison with scalars matched as `leaf_match` says: by kind
/// when `by_kind` is set and no rule is, otherwise as in `structured`.
pub open spec fn structured_by(path: Seq<char>, e: JsonV, a: JsonV, raw: Option<JsonV>, by_kind: bool) -> Seq<
    MismatchV,
>
    decreases e, 0nat, 0nat,
{
    match e {
        JsonV::Object(em) => structured_entries(path, em, jobj(a), raw, by_kind, em.len() as int),
        JsonV::Array(ea) => structured_items(
            path,
            ea,
            match jarr(a) {
                Some(x) => x,
                None => Seq::empty(),
            },
            raw,
            by_kind,
            ea.len() as int,
        ),
        _ => if leaf_match(raw, path, e, a, by_kind) {
            Seq::empty()
        } else {
            seq![mm(path, e, a, "expected "@ + json_text(e) + " but got "@ + json_text(a))]
        },
    }
}

/// The mismatches of the first `n` entries of an expected object.
pub open spec fn structured_entries(
    path: Seq<char>,
    em: Seq<(Seq<char>, JsonV)>,
    am: Option<Seq<(Seq<char>, JsonV)>>,
    raw: Option<JsonV>,
    by_kind: bool,
    n: int,
) -> Seq<MismatchV>
    decreases em, 1nat, n,
{
    if n <= 0 || n > em.len() {
        Seq::empty()
    } else {
        let key = em[n - 1].0;
        let child = path + "."@ + key;
        structured_entries(path, em, am, raw, by_kind, n - 1) + match member(am, key) {
            None => seq![mm(child, em[n - 1].1, JsonV::Null, "missing key \""@ + key + "\""@)],
            Some(av) => structured_by(child, em[n - 1].1, av, raw, by_kind),
        }
    }
}

/// The mismatches of the first `n` elements of an expected array.
pub open spec fn structured_items(
    path: Seq<char>,
    ea: Seq<JsonV>,
    aa: Seq<JsonV>,
    raw: Option<JsonV>,
    by_kind: bool,
    n: int,
) -> Seq<MismatchV>
    decreases ea, 1nat, n,
{
    if n <= 0 || n > ea.len() {
        Seq::empty()
    } else {
        let child = path + "["@ + nat_text((n - 1) as nat) + "]"@;
        structured_items(path, ea, aa, raw, by_kind, n - 1) + if n - 1 < aa.len() {
            structured_by(child, ea[n - 1], aa[n - 1], raw, by_kind)
        } else {
            seq![mm(child, ea[n - 1], JsonV::Null, "missing array element"@)]
        }
    }
}

/// A member of a value, `null` when absent.
pub open spec fn member_or_null(v: JsonV, key: Seq<char>) -> JsonV {
    match jget(v, key) {
        Some(x) => x,
        None => JsonV::Null,
    }
}

/// A string, or the empty string when absent.
pub open spec fn str_or_empty(o: Option<Seq<char>>) -> Seq<char> {
    match o {
        Some(s) => s,
        None => Seq::empty(),
    }
}

/// The elements of the member `field`, or no elements when it is absent or not an array.
pub open spec fn list_member(v: JsonV, field: Seq<char>) -> Seq<JsonV> {
    match jget(v, field) {
        Some(x) => match jarr(x) {
            Some(a) => a,
            None => Seq::empty(),
        },
        None => Seq::empty(),
    }
}

/// The value is a JSON-RPC protocol error (`{"error": ...}`).
pub open spec fn is_error_result(v: JsonV) -> bool {
    jget(v, "error"@) is Some
}

pub open spec fn shape_name(is_error: bool) -> Seq<char> {
    if is_error {
        "protocol error"@
    } else {
        "success"@
    }
}

/// The single `$` mismatch when one value is a protocol error and the other a success.
pub open spec fn cross_shape(e: JsonV, a: JsonV) -> Seq<MismatchV> {
    if is_error_result(e) != is_error_result(a) {
        seq![mm("$"@, e, a, "expected a "@ + shape_name(is_error_result(e)) + " result but got a "@
            + shape_name(is_error_result(a)) + " result"@)]
    } else {
        Seq::empty()
    }
}

/// Protocol error results: `code` exact, `message` by kind (unless ruled),
/// `data` by structure, its scalars by kind (unless ruled).
pub open spec fn error_mismatches(e: JsonV, a: JsonV, raw: Option<JsonV>) -> Seq<MismatchV> {
    let ee = member_or_null(e, "error"@);
    let ae = member_or_null(a, "error"@);
    let ec = member_or_null(ee, "code"@);
    let ac = member_or_null(ae, "code"@);
    let em = member_or_null(ee, "message"@);
    let am = member_or_null(ae, "message"@);
    let message_ok = if rule_match_type(raw, "$.error.message"@) is Some {
        values_match(raw, "$.error.message"@, em, am)
    } else {
        same_kind(em, am)
    };
    (if json_eq(ec, ac) {
        Seq::empty()
    } else {
        seq![mm("$.error.code"@, ec, ac, "error.code mismatch"@)]
    }) + (if message_ok {
        Seq::empty()
    } else {
        seq![mm("$.error.message"@, em, am, "error.message type mismatch"@)]
    }) + match jget(ee, "data"@) {
        Some(ed) => structured_by("$.error.data"@, ed, member_or_null(ae, "data"@), raw, true),
        None => Seq::empty(),
    }
}

/// The member `uri` of the member `resource`, `null` when absent.
pub open spec fn resource_uri(v: JsonV) -> JsonV {
    match jget(v, "resource"@) {
        Some(r) => member_or_null(r, "uri"@),
        None => JsonV::Null,
    }
}

/// One expected content block against the actual block at the same index:
/// `type` first (a wrong type is the only mismatch reported), then per type
/// `text` (exact unless ruled), `image` (`mimeType` exact, `data` by kind
/// unless ruled), `resource` (`resource.uri` exact); any other type is unsupported.
pub open spec fn content_block(i: nat, e: JsonV, a: JsonV, raw: Option<JsonV>) -> Seq<MismatchV> {
    let base = "$.content["@ + nat_text(i) + "]"@;
    let et = str_or_empty(jget_str(e, "type"@));
    let at = str_or_empty(jget_str(a, "type"@));
    let type_path = base + ".type"@;
    if !values_match(raw, type_path, JsonV::Str(et), JsonV::Str(at)) {
        seq![mm(type_path, JsonV::Str(et), JsonV::Str(at), "expected content["@ + nat_text(i) + "].type = \""@
            + et + "\" but got \""@ + at + "\""@)]
    } else if et == "text"@ {
        let path = base + ".text"@;
        let ex = member_or_null(e, "text"@);
        let ax = member_or_null(a, "text"@);
        if values_match(raw, path, ex, ax) {
            Seq::empty()
        } else {
            seq![mm(path, ex, ax, "expected content["@ + nat_text(i) + "].text = "@ + json_text(ex) + " but got "@
                + json_text(ax))]
        }
    } else if et == "image"@ {
        let mime_path = base + ".mimeType"@;
        let emi = member_or_null(e, "mimeType"@);
        let ami = member_or_null(a, "mimeType"@);
        let data_path = base + ".data"@;
        let ed = member_or_null(e, "data"@);
        let ad = member_or_null(a, "data"@);
        let data_ok = if rule_match_type(raw, data_path) is Some {
            values_match(raw, data_path, ed, ad)
        } else {
            same_kind(ed, ad)
        };
        (if values_match(raw, mime_path, emi, ami) {
            Seq::empty()
        } else {
            seq![mm(mime_path, emi, ami, "mimeType mismatch at content["@ + nat_text(i) + "]"@)]
        }) + (if data_ok {
            Seq::empty()
        } else {
            seq![mm(data_path, ed, ad, "data type mismatch at content["@ + nat_text(i) + "]"@)]
        })
    } else if et == "resource"@ {
        let uri_path = base + ".resource.uri"@;
        let eu = resource_uri(e);
        let au = resource_uri(a);
        if values_match(raw, uri_path, eu, au) {
            Seq::empty()
        } else {
            seq![mm(uri_path, eu, au, "resource.uri mismatch at content["@ + nat_text(i) + "]"@)]
        }
    } else {
        seq![mm(type_path, JsonV::Str(et), JsonV::Str(at), "unsupported content block type \""@ + et + "\""@)]
    }
}

/// The mismatches of the first `n` expected content blocks, each against the
/// actual block at its index.
pub open spec fn content_blocks(ec: Seq<JsonV>, ac: Seq<JsonV>, raw: Option<JsonV>, n: int) -> Seq<MismatchV>
    decreases n,
{
    if n <= 0 || n > ec.len() {
        Seq::empty()
    } else {
        content_blocks(ec, ac, raw, n - 1) + content_block((n - 1) as nat, ec[n - 1], ac[n - 1], raw)
    }
}

/// `isError` of a result, `false` when absent or not a boolean.
pub open spec fn is_error_flag(v: JsonV) -> bool {
    match jget(v, "isError"@) {
        Some(b) => match jbool(b) {
            Some(x) => x,
            None => false,
        },
        None => false,
    }
}

/// `tools/call` result matching: shape, content blocks, `isError`, then `structuredContent`.
pub open spec fn tools_call(e: JsonV, a: JsonV, raw: Option<JsonV>) -> Seq<MismatchV> {
    if is_error_result(e) != is_error_result(a) {
        cross_shape(e, a)
    } else if is_error_result(e) {
        error_mismatches(e, a, raw)
    } else {
        let ec = list_member(e, "content"@);
        let ac = list_member(a, "content"@);
        let eb = is_error_flag(e);
        let ab = is_error_flag(a);
        (if ac.len() < ec.len() {
            seq![mm("$.content"@, JsonV::Number(nat_text(ec.len())), JsonV::Number(nat_text(ac.len())),
                "expected at least "@ + nat_text(ec.len()) + " content block(s), got "@ + nat_text(ac.len()))]
        } else {
            content_blocks(ec, ac, raw, ec.len() as int)
        }) + (if eb != ab {
            seq![mm("$.isError"@, JsonV::Bool(eb), JsonV::Bool(ab), "expected isError="@ + bool_text(eb)
                + " but got isError="@ + bool_text(ab))]
        } else {
            Seq::empty()
        }) + match jget(e, "structuredContent"@) {
            Some(esc) => structured("$.structuredContent"@, esc, member_or_null(a, "structuredContent"@), raw),
            None => Seq::empty(),
        }
    }
}

/// The first item at or after index `i` whose string member `key_field` is `key`.
pub open spec fn find_from(items: Seq<JsonV>, key_field: Seq<char>, key: Seq<char>, i: int) -> Option<JsonV>
    decreases items.len() - i,
{
    if i < 0 || i >= items.len() {
        None
    } else if jget_str(items[i], key_field) == Some(key) {
        Some(items[i])
    } else {
        find_from(items, key_field, key, i + 1)
    }
}

/// The first item whose string member `key_field` is `key`.
pub open spec fn find_by_key(items: Seq<JsonV>, key_field: Seq<char>, key: Seq<char>) -> Option<JsonV> {
    find_from(items, key_field, key, 0)
}

/// The path of a keyed list item: `$.<list>[?(@.<key_field>=='<key>')]`.
pub open spec fn keyed_path(list_field: Seq<char>, key_field: Seq<char>, key: Seq<char>) -> Seq<char> {
    "$."@ + list_field + "[?(@."@ + key_field + "=='"@ + key + "')]"@
}

/// One expected tool of `tools/list`: present by name in the actual tools,
/// and its `inputSchema` (if specified) matching by structure under the rules,
/// with scalars that no rule covers compared by kind (type-compatible).
pub open spec fn tools_list_item(t: JsonV, at: Seq<JsonV>, raw: Option<JsonV>) -> Seq<MismatchV> {
    let name = str_or_empty(jget_str(t, "name"@));
    let path = keyed_path("tools"@, "name"@, name);
    match find_by_key(at, "name"@, name) {
        None => seq![mm(path, t, JsonV::Null, "expected tool \""@ + name + "\" not found in actual tools[]"@)],
        Some(x) => match jget(t, "inputSchema"@) {
            Some(es) => structured_by(path + ".inputSchema"@, es, member_or_null(x, "inputSchema"@), raw, true),
            None => Seq::empty(),
        },
    }
}

pub open spec fn tools_list_items(et: Seq<JsonV>, at: Seq<JsonV>, raw: Option<JsonV>, n: int) -> Seq<MismatchV>
    decreases n,
{
    if n <= 0 || n > et.len() {
        Seq::empty()
    } else {
        tools_list_items(et, at, raw, n - 1) + tools_list_item(et[n - 1], at, raw)
    }
}

/// `tools/list` result matching: every expected tool present by name in the
/// actual list (order-independent, extra tools ignored).
pub open spec fn tools_list(e: JsonV, a: JsonV, raw: Option<JsonV>) -> Seq<MismatchV> {
    let et = list_member(e, "tools"@);
    tools_list_items(et, list_member(a, "tools"@), raw, et.len() as int)
}

/// One expected item of a keyed subset list.
pub open spec fn subset_item(
    item: JsonV,
    actual_items: Seq<JsonV>,
    raw: Option<JsonV>,
    list_field: Seq<char>,
    key_field: Seq<char>,
) -> Seq<MismatchV> {
    let key = str_or_empty(jget_str(item, key_field));
    let path = keyed_path(list_field, key_field, key);
    match find_by_key(actual_items, key_field, key) {
        None => seq![mm(path, item, JsonV::Null, "expected "@ + list_field + " item \""@ + key
            + "\" not found in actual "@ + list_field + "[]"@)],
        Some(x) => structured(path, item, x, raw),
    }
}

pub open spec fn subset_items(
    ei: Seq<JsonV>,
    ai: Seq<JsonV>,
    raw: Option<JsonV>,
    list_field: Seq<char>,
    key_field: Seq<char>,
    n: int,
) -> Seq<MismatchV>
    decreases n,
{
    if n <= 0 || n > ei.len() {
        Seq::empty()
    } else {
        subset_items(ei, ai, raw, list_field, key_field, n - 1) + subset_item(ei[n - 1], ai, raw, list_field, key_field)
    }
}

/// Keyed subset list matching (`resources/list` by `uri`, `prompts/list` by `name`).
pub open spec fn subset_list(e: JsonV, a: JsonV, raw: Option<JsonV>, list_field: Seq<char>, key_field: Seq<char>) -> Seq<MismatchV> {
    let ei = list_member(e, list_field);
    subset_items(ei, list_member(a, list_field), raw, list_field, key_field, ei.len() as int)
}

/// `resources/read` and `prompts/get` results: structural comparison at `$`,
/// after the success/error shape check.
pub open spec fn structural_result(e: JsonV, a: JsonV, raw: Option<JsonV>) -> Seq<MismatchV> {
    if is_error_result(e) != is_error_result(a) {
        cross_shape(e, a)
    } else if is_error_result(e) {
        error_mismatches(e, a, raw)
    } else {
        structured("$"@, e, a, raw)
    }
}

/// The comparison for each operation.
pub open spec fn response_mismatches(op: Operation, e: JsonV, a: JsonV, raw: Option<JsonV>) -> Seq<MismatchV> {
    match op {
        Operation::ToolsCall => tools_call(e, a, raw),
        Operation::ToolsList => tools_list(e, a, raw),
        Operation::ResourcesRead => structural_result(e, a, raw),
        Operation::PromptsGet => structural_result(e, a, raw),
        Operation::ResourcesList => subset_list(e, a, raw, "resources"@, "uri"@),
        Operation::PromptsList => subset_list(e, a, raw, "prompts"@, "name"@),
    }
}

/// `tools/call` request matching: the tool names must be equal (a different
/// name is the only mismatch reported), then `arguments` by structure.
pub open spec fn tools_call_request(e: JsonV, a: JsonV, raw: Option<JsonV>) -> Seq<MismatchV> {
    let en = str_or_empty(jget_str(e, "name"@));
    let an = str_or_empty(jget_str(a, "name"@));
    if en != an {
        seq![mm("$.name"@, JsonV::Str(en), JsonV::Str(an), "expected tool name \""@ + en + "\" but got \""@ + an
            + "\""@)]
    } else {
        structured("$.arguments"@, member_or_null(e, "arguments"@), member_or_null(a, "arguments"@), raw)
    }
}

/// A strictly increasing sequence of strings (code-point order).
pub open spec fn sorted_strict(s: Seq<Seq<char>>) -> bool {
    forall|i: int, j: int| 0 <= i < j < s.len() ==> seq_lt(#[trigger] s[i], #[trigger] s[j])
}

/// The character sequences of a sequence of strings.
pub open spec fn strings_view(v: Seq<String>) -> Seq<Seq<char>> {
    v.map_values(|s: String| s@)
}

/// Inserts `p` into a strictly sorted list of strings unless it is there.
fn insert_sorted(v: &mut Vec<String>, p: String)
    requires
        sorted_strict(strings_view(old(v)@)),
    ensures
        sorted_strict(strings_view(final(v)@)),
        forall|x: Seq<char>| #[trigger] strings_view(final(v)@).contains(x) <==> (strings_view(old(v)@).contains(x) || x == p@),
{
    let ghost old_sv = strings_view(v@);
    let mut j: usize = 0;
    while j < v.len() && str_lt(v[j].as_str(), p.as_str())
        invariant
            j <= v.len(),
            strings_view(v@) == old_sv,
            old_sv.len() == v@.len(),
            forall|k: int| 0 <= k < j ==> seq_lt(#[trigger] old_sv[k], p@),
        decreases v.len() - j,
    {
        j = j + 1;
    }
    if j < v.len() && v[j] == p {
        assert(old_sv.contains(p@)) by {
            assert(old_sv[j as int] == p@);
        }
        return;
    }
    let ghost pv = p@;
    proof {
        if j < v.len() {
            lemma_seq_lt(old_sv[j as int], pv, pv);
            assert(seq_lt(pv, old_sv[j as int]));
        }
    }
    v.insert(j, p);
    let ghost new_sv = strings_view(v@);
    assert(new_sv =~= old_sv.insert(j as int, pv));
    assert forall|a: int, b: int| 0 <= a < b < new_sv.len() implies seq_lt(#[trigger] new_sv[a], #[trigger] new_sv[b]) by {
        if b < j {
        } else if b == j {
            assert(new_sv[b] == pv);
        } else if a < j {
            assert(new_sv[b] == old_sv[b - 1]);
            lemma_seq_lt(old_sv[a], pv, old_sv[b - 1]);
            if b - 1 > j {
                lemma_seq_lt(pv, old_sv[j as int], old_sv[b - 1]);
            }
        } else if a == j {
            assert(new_sv[b] == old_sv[b - 1]);
            if b - 1 > j {
                lemma_seq_lt(pv, old_sv[j as int], old_sv[b - 1]);
            }
        } else {
            assert(new_sv[a] == old_sv[a - 1]);
            assert(new_sv[b] == old_sv[b - 1]);
        }
    }
    assert forall|x: Seq<char>| #[trigger] new_sv.contains(x) <==> (old_sv.contains(x) || x == pv) by {
        if new_sv.contains(x) {
            let k = choose|k: int| 0 <= k < new_sv.len() && new_sv[k] == x;
            if k < j {
                assert(old_sv[k] == x);
            } else if k > j {
                assert(old_sv[k - 1] == x);
            }
        }
        if old_sv.contains(x) {
            let k = choose|k: int| 0 <= k < old_sv.len() && old_sv[k] == x;
            if k < j {
                assert(new_sv[k] == x);
            } else {
                assert(new_sv[k + 1] == x);
            }
        }
        if x == pv {
            assert(new_sv[j as int] == x);
        }
    }
}

/// `a` holds everything `e` specifies: every key of an expected object is
/// present and covered, every element of an expected array is present at its
/// index and covered, and expected scalars are equal.
pub open spec fn covers(e: JsonV, a: JsonV) -> bool
    decreases e, 0nat, 0nat,
{
    match e {
        JsonV::Object(em) => covers_entries(em, jobj(a), em.len() as int),
        JsonV::Array(ea) => covers_items(
            ea,
            match jarr(a) {
                Some(x) => x,
                None => Seq::empty(),
            },
            ea.len() as int,
        ),
        _ => json_eq(e, a),
    }
}

pub open spec fn covers_entries(em: Seq<(Seq<char>, JsonV)>, am: Option<Seq<(Seq<char>, JsonV)>>, n: int) -> bool
    decreases em, 1nat, n,
{
    if n <= 0 || n > em.len() {
        true
    } else {
        covers_entries(em, am, n - 1) && match member(am, em[n - 1].0) {
            Some(av) => covers(em[n - 1].1, av),
            None => false,
        }
    }
}

pub open spec fn covers_items(ea: Seq<JsonV>, aa: Seq<JsonV>, n: int) -> bool
    decreases ea, 1nat, n,
{
    if n <= 0 || n > ea.len() {
        true
    } else {
        covers_items(ea, aa, n - 1) && n - 1 < aa.len() && covers(ea[n - 1], aa[n - 1])
    }
}

pub proof fn lemma_structured_empty(path: Seq<char>, e: JsonV, a: JsonV)
    ensures
        structured(path, e, a, None).len() == 0 <==> covers(e, a),
    decreases e, 0nat, 0nat,
{
    match e {
        JsonV::Object(em) => lemma_entries_empty(path, em, jobj(a), em.len() as int),
        JsonV::Array(ea) => lemma_items_empty(
            path,
            ea,
            match jarr(a) {
                Some(x) => x,
                None => Seq::empty(),
            },
            ea.len() as int,
        ),
        _ => {},
    }
}

proof fn lemma_entries_empty(path: Seq<char>, em: Seq<(Seq<char>, JsonV)>, am: Option<Seq<(Seq<char>, JsonV)>>, n: int)
    ensures
        structured_entries(path, em, am, None, false, n).len() == 0 <==> covers_entries(em, am, n),
    decreases em, 1nat, n,
{
    if n <= 0 || n > em.len() {
    } else {
        lemma_entries_empty(path, em, am, n - 1);
        match member(am, em[n - 1].0) {
            Some(av) => lemma_structured_empty(path + "."@ + em[n - 1].0, em[n - 1].1, av),
            None => {},
        }
    }
}

proof fn lemma_items_empty(path: Seq<char>, ea: Seq<JsonV>, aa: Seq<JsonV>, n: int)
    ensures
        structured_items(path, ea, aa, None, false, n).len() == 0 <==> covers_items(ea, aa, n),
    decreases ea, 1nat, n,
{
    if n <= 0 || n > ea.len() {
    } else {
        lemma_items_empty(path, ea, aa, n - 1);
        if n - 1 < aa.len() {
            lemma_structured_empty(path + "["@ + nat_text((n - 1) as nat) + "]"@, ea[n - 1], aa[n - 1]);
        }
    }
}

/// Without matching rules, a structural comparison reports no mismatch exactly
/// when the actual value covers the expected one: extra actual keys and extra
/// trailing array elements are ignored (consumer-driven), everything the
/// consumer specified must be present and equal.
pub proof fn law_structural_match_is_coverage(path: Seq<char>, e: JsonV, a: JsonV)
    ensures
        structured(path, e, a, None).len() == 0 <==> covers(e, a),
{
    lemma_structured_empty(path, e, a);
}

pub proof fn lemma_covers_refl(e: JsonV)
    requires
        json_wf(e),
    ensures
        covers(e, e),
    decreases e, 0nat, 0nat,
{
    match e {
        JsonV::Object(em) => lemma_covers_entries_refl(em, em.len() as int),
        JsonV::Array(ea) => lemma_covers_items_refl(ea, ea.len() as int),
        _ => lemma_json_eq_refl(e),
    }
}

proof fn lemma_covers_entries_refl(em: Seq<(Seq<char>, JsonV)>, n: int)
    requires
        json_wf(JsonV::Object(em)),
        n <= em.len(),
    ensures
        covers_entries(em, Some(em), n),
    decreases em, 1nat, n,
{
    if n > 0 {
        lemma_covers_entries_refl(em, n - 1);
        lemma_lookup_unique(em, n - 1);
        lemma_member_wf(JsonV::Object(em), em[n - 1].0);
        lemma_covers_refl(em[n - 1].1);
    }
}

proof fn lemma_covers_items_refl(ea: Seq<JsonV>, n: int)
    requires
        json_wf(JsonV::Array(ea)),
        n <= ea.len(),
    ensures
        covers_items(ea, ea, n),
    decreases ea, 1nat, n,
{
    if n > 0 {
        lemma_covers_items_refl(ea, n - 1);
        lemma_element_wf(JsonV::Array(ea), n - 1);
        lemma_covers_refl(ea[n - 1]);
    }
}

/// A scalar matches itself under any rules, by kind or by equality.
proof fn lemma_leaf_self(raw: Option<JsonV>, path: Seq<char>, e: JsonV, by_kind: bool)
    requires
        json_wf(e),
    ensures
        leaf_match(raw, path, e, e, by_kind),
{
    lemma_json_eq_refl(e);
    assert(same_kind(e, e));
}

/// A well-formed value compared with itself has no mismatch, under any
/// rules, with scalars by kind or by equality.
pub proof fn law_value_matches_itself(path: Seq<char>, e: JsonV, raw: Option<JsonV>, by_kind: bool)
    requires
        json_wf(e),
    ensures
        structured_by(path, e, e, raw, by_kind).len() == 0,
    decreases e, 0nat, 0nat,
{
    match e {
        JsonV::Object(em) => lemma_self_entries(path, em, raw, by_kind, em.len() as int),
        JsonV::Array(ea) => lemma_self_items(path, ea, raw, by_kind, ea.len() as int),
        _ => lemma_leaf_self(raw, path, e, by_kind),
    }
}

proof fn lemma_self_entries(path: Seq<char>, em: Seq<(Seq<char>, JsonV)>, raw: Option<JsonV>, by_kind: bool, n: int)
    requires
        json_wf(JsonV::Object(em)),
        n <= em.len(),
    ensures
        structured_entries(path, em, Some(em), raw, by_kind, n).len() == 0,
    decreases em, 1nat, n,
{
    if n > 0 {
        lemma_self_entries(path, em, raw, by_kind, n - 1);
        lemma_lookup_unique(em, n - 1);
        lemma_member_wf(JsonV::Object(em), em[n - 1].0);
        law_value_matches_itself(path + "."@ + em[n - 1].0, em[n - 1].1, raw, by_kind);
    }
}

proof fn lemma_self_items(path: Seq<char>, ea: Seq<JsonV>, raw: Option<JsonV>, by_kind: bool, n: int)
    requires
        json_wf(JsonV::Array(ea)),
        n <= ea.len(),
    ensures
        structured_items(path, ea, ea, raw, by_kind, n).len() == 0,
    decreases ea, 1nat, n,
{
    if n > 0 {
        lemma_self_items(path, ea, raw, by_kind, n - 1);
        lemma_element_wf(JsonV::Array(ea), n - 1);
        law_value_matches_itself(path + "["@ + nat_text((n - 1) as nat) + "]"@, ea[n - 1], raw, by_kind);
    }
}

/// Under any rules, a well-formed value compared with itself has no
/// mismatch; in particular a `resources/read` or `prompts/get` response
/// (success or protocol error) always matches itself.
pub proof fn law_response_matches_itself(op: Operation, path: Seq<char>, e: JsonV, raw: Option<JsonV>)
    requires
        json_wf(e),
        op == Operation::ResourcesRead || op == Operation::PromptsGet,
    ensures
        structured(path, e, e, raw).len() == 0,
        response_mismatches(op, e, e, raw).len() == 0,
{
    law_value_matches_itself(path, e, raw, false);
    law_value_matches_itself("$"@, e, raw, false);
    if is_error_result(e) {
        let ee = member_or_null(e, "error"@);
        lemma_member_wf(e, "error"@);
        lemma_member_wf(ee, "code"@);
        lemma_json_eq_refl(member_or_null(ee, "code"@));
        lemma_member_wf(ee, "data"@);
        if let Some(ed) = jget(ee, "data"@) {
            law_value_matches_itself("$.error.data"@, ed, raw, true);
        }
        let em = member_or_null(ee, "message"@);
        lemma_member_wf(ee, "message"@);
        lemma_json_eq_refl(em);
        assert(same_kind(em, em));
    }
}

/// A value covers the expected one under rules: every key and element the
/// consumer specified is present, and every specified scalar matches as
/// `leaf_match` says.
pub open spec fn covers_by(path: Seq<char>, e: JsonV, a: JsonV, raw: Option<JsonV>, by_kind: bool) -> bool
    decreases e, 0nat, 0nat,
{
    match e {
        JsonV::Object(em) => covers_entries_by(path, em, jobj(a), raw, by_kind, em.len() as int),
        JsonV::Array(ea) => covers_items_by(
            path,
            ea,
            match jarr(a) {
                Some(x) => x,
                None => Seq::empty(),
            },
            raw,
            by_kind,
            ea.len() as int,
        ),
        _ => leaf_match(raw, path, e, a, by_kind),
    }
}

pub open spec fn covers_entries_by(
    path: Seq<char>,
    em: Seq<(Seq<char>, JsonV)>,
    am: Option<Seq<(Seq<char>, JsonV)>>,
    raw: Option<JsonV>,
    by_kind: bool,
    n: int,
) -> bool
    decreases em, 1nat, n,
{
    if n <= 0 || n > em.len() {
        true
    } else {
        covers_entries_by(path, em, am, raw, by_kind, n - 1) && match member(am, em[n - 1].0) {
            Some(av) => covers_by(path + "."@ + em[n - 1].0, em[n - 1].1, av, raw, by_kind),
            None => false,
        }
    }
}

pub open spec fn covers_items_by(
    path: Seq<char>,
    ea: Seq<JsonV>,
    aa: Seq<JsonV>,
    raw: Option<JsonV>,
    by_kind: bool,
    n: int,
) -> bool
    decreases ea, 1nat, n,
{
    if n <= 0 || n > ea.len() {
        true
    } else {
        covers_items_by(path, ea, aa, raw, by_kind, n - 1) && n - 1 < aa.len() && covers_by(
            path + "["@ + nat_text((n - 1) as nat) + "]"@,
            ea[n - 1],
            aa[n - 1],
            raw,
            by_kind,
        )
    }
}

proof fn lemma_lookup_from_append(am: Seq<(Seq<char>, JsonV)>, extra: Seq<(Seq<char>, JsonV)>, key: Seq<char>, i: int)
    requires
        0 <= i,
        forall|j: int| 0 <= j < extra.len() ==> (#[trigger] extra[j]).0 != key,
    ensures
        lookup_from(am + extra, key, i) == lookup_from(am, key, i),
    decreases (am + extra).len() - i,
{
    if i < (am + extra).len() {
        lemma_lookup_from_append(am, extra, key, i + 1);
        if i >= am.len() {
            assert((am + extra)[i] == extra[i - am.len()]);
        } else {
            assert((am + extra)[i] == am[i]);
        }
    }
}

proof fn lemma_entries_extra_keys(
    path: Seq<char>,
    em: Seq<(Seq<char>, JsonV)>,
    am: Seq<(Seq<char>, JsonV)>,
    extra: Seq<(Seq<char>, JsonV)>,
    raw: Option<JsonV>,
    by_kind: bool,
    n: int,
)
    requires
        forall|m: int, j: int| 0 <= m < em.len() && 0 <= j < extra.len() ==> (#[trigger] extra[j]).0 != (#[trigger] em[m]).0,
    ensures
        structured_entries(path, em, Some(am + extra), raw, by_kind, n) == structured_entries(path, em, Some(am), raw, by_kind, n),
    decreases n,
{
    if 0 < n <= em.len() {
        lemma_entries_extra_keys(path, em, am, extra, raw, by_kind, n - 1);
        let key = em[n - 1].0;
        assert forall|j: int| 0 <= j < extra.len() implies (#[trigger] extra[j]).0 != key by {
            assert(extra[j].0 != em[n - 1].0);
        }
        lemma_lookup_from_append(am, extra, key, 0);
    }
}

/// Keys the consumer did not specify are ignored: members appended to the
/// actual object under keys the expected object does not have change no
/// mismatch, under any rules.
pub proof fn law_extra_actual_keys_are_ignored(
    path: Seq<char>,
    em: Seq<(Seq<char>, JsonV)>,
    am: Seq<(Seq<char>, JsonV)>,
    extra: Seq<(Seq<char>, JsonV)>,
    raw: Option<JsonV>,
    by_kind: bool,
)
    requires
        forall|m: int, j: int| 0 <= m < em.len() && 0 <= j < extra.len() ==> (#[trigger] extra[j]).0 != (#[trigger] em[m]).0,
    ensures
        structured_by(path, JsonV::Object(em), JsonV::Object(am + extra), raw, by_kind)
            == structured_by(path, JsonV::Object(em), JsonV::Object(am), raw, by_kind),
{
    lemma_entries_extra_keys(path, em, am, extra, raw, by_kind, em.len() as int);
}

proof fn lemma_is_prefix(base: Seq<char>, rest: Seq<char>)
    ensures
        base.is_prefix_of(base + rest),
{
    assert(base =~= (base + rest).subrange(0, base.len() as int));
}

/// Every mismatch of a content block is reported under that block's own
/// path `$.content[i]`.
pub proof fn law_content_block_paths(i: nat, e: JsonV, a: JsonV, raw: Option<JsonV>)
    ensures
        forall|k: int|
            0 <= k < content_block(i, e, a, raw).len() ==> ("$.content["@ + nat_text(i) + "]"@).is_prefix_of(
                (#[trigger] content_block(i, e, a, raw)[k]).path,
            ),
{
    let base = "$.content["@ + nat_text(i) + "]"@;
    lemma_is_prefix(base, ".type"@);
    lemma_is_prefix(base, ".text"@);
    lemma_is_prefix(base, ".mimeType"@);
    lemma_is_prefix(base, ".data"@);
    lemma_is_prefix(base, ".resource.uri"@);
}

/// Under any rules, a structural comparison reports no mismatch exactly when
/// the actual value covers the expected one as `covers_by` says: extra
/// actual keys and trailing elements are ignored, everything the consumer
/// specified must be present and match by its rule.
pub proof fn law_structural_match_is_coverage_under_rules(
    path: Seq<char>,
    e: JsonV,
    a: JsonV,
    raw: Option<JsonV>,
    by_kind: bool,
)
    ensures
        structured_by(path, e, a, raw, by_kind).len() == 0 <==> covers_by(path, e, a, raw, by_kind),
    decreases e, 0nat, 0nat,
{
    match e {
        JsonV::Object(em) => lemma_entries_cover(path, em, jobj(a), raw, by_kind, em.len() as int),
        JsonV::Array(ea) => lemma_items_cover(
            path,
            ea,
            match jarr(a) {
                Some(x) => x,
                None => Seq::empty(),
            },
            raw,
            by_kind,
            ea.len() as int,
        ),
        _ => {},
    }
}

proof fn lemma_entries_cover(
    path: Seq<char>,
    em: Seq<(Seq<char>, JsonV)>,
    am: Option<Seq<(Seq<char>, JsonV)>>,
    raw: Option<JsonV>,
    by_kind: bool,
    n: int,
)
    ensures
        structured_entries(path, em, am, raw, by_kind, n).len() == 0 <==> covers_entries_by(
            path,
            em,
            am,
            raw,
            by_kind,
            n,
        ),
    decreases em, 1nat, n,
{
    if n > 0 && n <= em.len() {
        lemma_entries_cover(path, em, am, raw, by_kind, n - 1);
        match member(am, em[n - 1].0) {
            Some(av) => law_structural_match_is_coverage_under_rules(
                path + "."@ + em[n - 1].0,
                em[n - 1].1,
                av,
                raw,
                by_kind,
            ),
            None => {},
        }
    }
}

proof fn lemma_items_cover(
    path: Seq<char>,
    ea: Seq<JsonV>,
    aa: Seq<JsonV>,
    raw: Option<JsonV>,
    by_kind: bool,
    n: int,
)
    ensures
        structured_items(path, ea, aa, raw, by_kind, n).len() == 0 <==> covers_items_by(path, ea, aa, raw, by_kind, n),
    decreases ea, 1nat, n,
{
    if n > 0 && n <= ea.len() {
        lemma_items_cover(path, ea, aa, raw, by_kind, n - 1);
        if n - 1 < aa.len() {
            law_structural_match_is_coverage_under_rules(
                path + "["@ + nat_text((n - 1) as nat) + "]"@,
                ea[n - 1],
                aa[n - 1],
                raw,
                by_kind,
            );
        }
    }
}

proof fn lemma_tools_list_items_same(et: Seq<JsonV>, at1: Seq<JsonV>, at2: Seq<JsonV>, raw: Option<JsonV>, n: int)
    requires
        forall|k: Seq<char>| #[trigger] find_by_key(at1, "name"@, k) == find_by_key(at2, "name"@, k),
    ensures
        tools_list_items(et, at1, raw, n) == tools_list_items(et, at2, raw, n),
    decreases n,
{
    if n > 0 && n <= et.len() {
        lemma_tools_list_items_same(et, at1, at2, raw, n - 1);
        let name = str_or_empty(jget_str(et[n - 1], "name"@));
        assert(find_by_key(at1, "name"@, name) == find_by_key(at2, "name"@, name));
    }
}

/// `tools/list` matching does not depend on the order of the actual tools:
/// two actual lists in which every name finds the same first tool give the
/// same mismatches.
pub proof fn law_tools_list_order_independent(e: JsonV, a1: JsonV, a2: JsonV, raw: Option<JsonV>)
    requires
        forall|k: Seq<char>|
            #[trigger] find_by_key(list_member(a1, "tools"@), "name"@, k) == find_by_key(
                list_member(a2, "tools"@),
                "name"@,
                k,
            ),
    ensures
        tools_list(e, a1, raw) == tools_list(e, a2, raw),
{
    let et = list_member(e, "tools"@);
    lemma_tools_list_items_same(et, list_member(a1, "tools"@), list_member(a2, "tools"@), raw, et.len() as int);
}

proof fn lemma_subset_items_same(
    ei: Seq<JsonV>,
    ai1: Seq<JsonV>,
    ai2: Seq<JsonV>,
    raw: Option<JsonV>,
    list_field: Seq<char>,
    key_field: Seq<char>,
    n: int,
)
    requires
        forall|k: Seq<char>| #[trigger] find_by_key(ai1, key_field, k) == find_by_key(ai2, key_field, k),
    ensures
        subset_items(ei, ai1, raw, list_field, key_field, n) == subset_items(ei, ai2, raw, list_field, key_field, n),
    decreases n,
{
    if n > 0 && n <= ei.len() {
        lemma_subset_items_same(ei, ai1, ai2, raw, list_field, key_field, n - 1);
        let key = str_or_empty(jget_str(ei[n - 1], key_field));
        assert(find_by_key(ai1, key_field, key) == find_by_key(ai2, key_field, key));
    }
}

/// Keyed subset list matching (`resources/list`, `prompts/list`) does not
/// depend on the order of the actual items.
pub proof fn law_subset_list_order_independent(
    e: JsonV,
    a1: JsonV,
    a2: JsonV,
    raw: Option<JsonV>,
    list_field: Seq<char>,
    key_field: Seq<char>,
)
    requires
        forall|k: Seq<char>|
            #[trigger] find_by_key(list_member(a1, list_field), key_field, k) == find_by_key(
                list_member(a2, list_field),
                key_field,
                k,
            ),
    ensures
        subset_list(e, a1, raw, list_field, key_field) == subset_list(e, a2, raw, list_field, key_field),
{
    let ei = list_member(e, list_field);
    lemma_subset_items_same(
        ei,
        list_member(a1, list_field),
        list_member(a2, list_field),
        raw,
        list_field,
        key_field,
        ei.len() as int,
    );
}

proof fn lemma_find_from_append(items: Seq<JsonV>, extra: Seq<JsonV>, key_field: Seq<char>, key: Seq<char>, i: int)
    requires
        0 <= i,
        find_from(items, key_field, key, i) is Some,
    ensures
        find_from(items + extra, key_field, key, i) == find_from(items, key_field, key, i),
    decreases items.len() - i,
{
    if i < items.len() {
        assert((items + extra)[i] == items[i]);
        if jget_str(items[i], key_field) != Some(key) {
            lemma_find_from_append(items, extra, key_field, key, i + 1);
        }
    }
}

proof fn lemma_find_from_append_none(
    items: Seq<JsonV>,
    extra: Seq<JsonV>,
    key_field: Seq<char>,
    key: Seq<char>,
    i: int,
)
    requires
        0 <= i,
        find_from(items, key_field, key, i) is None,
        forall|j: int| 0 <= j < extra.len() ==> jget_str(#[trigger] extra[j], key_field) != Some(key),
    ensures
        find_from(items + extra, key_field, key, i) is None,
    decreases (items + extra).len() - i,
{
    if i < (items + extra).len() {
        if i < items.len() {
            assert((items + extra)[i] == items[i]);
        } else {
            assert((items + extra)[i] == extra[i - items.len()]);
            assert(find_from(items, key_field, key, i + 1) is None);
        }
        lemma_find_from_append_none(items, extra, key_field, key, i + 1);
    }
}

/// Appending `extra` leaves the first item with `key` as it was: it was
/// found already, or no extra item has that key.
pub open spec fn append_keeps_key(items: Seq<JsonV>, extra: Seq<JsonV>, key_field: Seq<char>, key: Seq<char>) -> bool {
    find_by_key(items, key_field, key) is Some || forall|j: int|
        0 <= j < extra.len() ==> jget_str(#[trigger] extra[j], key_field) != Some(key)
}

proof fn lemma_find_append(items: Seq<JsonV>, extra: Seq<JsonV>, key_field: Seq<char>, key: Seq<char>)
    requires
        append_keeps_key(items, extra, key_field, key),
    ensures
        find_by_key(items + extra, key_field, key) == find_by_key(items, key_field, key),
{
    if find_by_key(items, key_field, key) is Some {
        lemma_find_from_append(items, extra, key_field, key, 0);
    } else {
        lemma_find_from_append_none(items, extra, key_field, key, 0);
    }
}

proof fn lemma_tools_list_items_append(et: Seq<JsonV>, at: Seq<JsonV>, extra: Seq<JsonV>, raw: Option<JsonV>, n: int)
    requires
        forall|m: int|
            0 <= m < n && m < et.len() ==> append_keeps_key(
                at,
                extra,
                "name"@,
                str_or_empty(jget_str(#[trigger] et[m], "name"@)),
            ),
    ensures
        tools_list_items(et, at + extra, raw, n) == tools_list_items(et, at, raw, n),
    decreases n,
{
    if n > 0 && n <= et.len() {
        lemma_tools_list_items_append(et, at, extra, raw, n - 1);
        lemma_find_append(at, extra, "name"@, str_or_empty(jget_str(et[n - 1], "name"@)));
    }
}

proof fn lemma_tools_list_items_matched(et: Seq<JsonV>, at: Seq<JsonV>, extra: Seq<JsonV>, raw: Option<JsonV>, n: int)
    requires
        n <= et.len(),
        tools_list_items(et, at, raw, n).len() == 0,
    ensures
        forall|m: int|
            0 <= m < n && m < et.len() ==> append_keeps_key(
                at,
                extra,
                "name"@,
                str_or_empty(jget_str(#[trigger] et[m], "name"@)),
            ),
    decreases n,
{
    if n > 0 {
        lemma_tools_list_items_matched(et, at, extra, raw, n - 1);
    }
}

/// `tools/list` is consumer-driven: once an actual list matches, tools the
/// server adds after the listed ones never make it a mismatch.
pub proof fn law_extra_actual_tools_are_ignored(e: JsonV, a1: JsonV, a2: JsonV, extra: Seq<JsonV>, raw: Option<JsonV>)
    requires
        tools_list(e, a1, raw).len() == 0,
        list_member(a2, "tools"@) == list_member(a1, "tools"@) + extra,
    ensures
        tools_list(e, a2, raw).len() == 0,
{
    let et = list_member(e, "tools"@);
    lemma_tools_list_items_matched(et, list_member(a1, "tools"@), extra, raw, et.len() as int);
    lemma_tools_list_items_append(et, list_member(a1, "tools"@), extra, raw, et.len() as int);
}

/// Tools the server adds after the listed ones, named like no expected tool,
/// change nothing: the mismatches are the same, whatever they were.
pub proof fn law_unexpected_extra_tools_change_nothing(
    e: JsonV,
    a1: JsonV,
    a2: JsonV,
    extra: Seq<JsonV>,
    raw: Option<JsonV>,
)
    requires
        list_member(a2, "tools"@) == list_member(a1, "tools"@) + extra,
        forall|j: int, m: int|
            0 <= j < extra.len() && 0 <= m < list_member(e, "tools"@).len() ==> jget_str(#[trigger] extra[j], "name"@)
                != Some(str_or_empty(jget_str(#[trigger] list_member(e, "tools"@)[m], "name"@))),
    ensures
        tools_list(e, a2, raw) == tools_list(e, a1, raw),
{
    let et = list_member(e, "tools"@);
    assert forall|m: int| 0 <= m < et.len() && m < et.len() implies append_keeps_key(
        list_member(a1, "tools"@),
        extra,
        "name"@,
        str_or_empty(jget_str(#[trigger] et[m], "name"@)),
    ) by {
        assert forall|j: int| 0 <= j < extra.len() implies jget_str(#[trigger] extra[j], "name"@) != Some(
            str_or_empty(jget_str(et[m], "name"@)),
        ) by {
            assert(jget_str(extra[j], "name"@) != Some(str_or_empty(jget_str(list_member(e, "tools"@)[m], "name"@))));
        }
    }
    lemma_tools_list_items_append(et, list_member(a1, "tools"@), extra, raw, et.len() as int);
}

proof fn lemma_subset_items_append(
    ei: Seq<JsonV>,
    ai: Seq<JsonV>,
    extra: Seq<JsonV>,
    raw: Option<JsonV>,
    list_field: Seq<char>,
    key_field: Seq<char>,
    n: int,
)
    requires
        subset_items(ei, ai, raw, list_field, key_field, n).len() == 0,
    ensures
        subset_items(ei, ai + extra, raw, list_field, key_field, n) == subset_items(ei, ai, raw, list_field, key_field, n),
    decreases n,
{
    if n > 0 && n <= ei.len() {
        lemma_subset_items_append(ei, ai, extra, raw, list_field, key_field, n - 1);
        let key = str_or_empty(jget_str(ei[n - 1], key_field));
        if find_by_key(ai, key_field, key) is Some {
            lemma_find_from_append(ai, extra, key_field, key, 0);
        }
    }
}

/// Keyed subset lists (`resources/list`, `prompts/list`) are consumer-driven
/// too: once an actual list matches, items added after the listed ones never
/// make it a mismatch.
pub proof fn law_extra_actual_items_are_ignored(
    e: JsonV,
    a1: JsonV,
    a2: JsonV,
    extra: Seq<JsonV>,
    raw: Option<JsonV>,
    list_field: Seq<char>,
    key_field: Seq<char>,
)
    requires
        subset_list(e, a1, raw, list_field, key_field).len() == 0,
        list_member(a2, list_field) == list_member(a1, list_field) + extra,
    ensures
        subset_list(e, a2, raw, list_field, key_field).len() == 0,
{
    let ei = list_member(e, list_field);
    lemma_subset_items_append(ei, list_member(a1, list_field), extra, raw, list_field, key_field, ei.len() as int);
}

proof fn lemma_subset_items_append_keys(
    ei: Seq<JsonV>,
    ai: Seq<JsonV>,
    extra: Seq<JsonV>,
    raw: Option<JsonV>,
    list_field: Seq<char>,
    key_field: Seq<char>,
    n: int,
)
    requires
        forall|m: int|
            0 <= m < n && m < ei.len() ==> append_keeps_key(
                ai,
                extra,
                key_field,
                str_or_empty(jget_str(#[trigger] ei[m], key_field)),
            ),
    ensures
        subset_items(ei, ai + extra, raw, list_field, key_field, n) == subset_items(ei, ai, raw, list_field, key_field, n),
    decreases n,
{
    if n > 0 && n <= ei.len() {
        lemma_subset_items_append_keys(ei, ai, extra, raw, list_field, key_field, n - 1);
        lemma_find_append(ai, extra, key_field, str_or_empty(jget_str(ei[n - 1], key_field)));
    }
}

/// Keyed subset lists change nothing when the actual list is reordered so
/// that every key finds the same first item, and extended by items keyed
/// like no expected item: the mismatches are the same, whatever they were.
pub proof fn law_unexpected_extra_items_change_nothing(
    e: JsonV,
    a1: JsonV,
    a2: JsonV,
    reordered: Seq<JsonV>,
    extra: Seq<JsonV>,
    raw: Option<JsonV>,
    list_field: Seq<char>,
    key_field: Seq<char>,
)
    requires
        forall|k: Seq<char>| #[trigger] find_by_key(reordered, key_field, k) == find_by_key(
            list_member(a1, list_field),
            key_field,
            k,
        ),
        list_member(a2, list_field) == reordered + extra,
        forall|j: int, m: int|
            0 <= j < extra.len() && 0 <= m < list_member(e, list_field).len() ==> jget_str(
                #[trigger] extra[j],
                key_field,
            ) != Some(str_or_empty(jget_str(#[trigger] list_member(e, list_field)[m], key_field))),
    ensures
        subset_list(e, a2, raw, list_field, key_field) == subset_list(e, a1, raw, list_field, key_field),
{
    let ei = list_member(e, list_field);
    assert forall|m: int| 0 <= m < ei.len() && m < ei.len() implies append_keeps_key(
        reordered,
        extra,
        key_field,
        str_or_empty(jget_str(#[trigger] ei[m], key_field)),
    ) by {
        assert forall|j: int| 0 <= j < extra.len() implies jget_str(#[trigger] extra[j], key_field) != Some(
            str_or_empty(jget_str(ei[m], key_field)),
        ) by {
            assert(jget_str(extra[j], key_field) != Some(str_or_empty(jget_str(list_member(e, list_field)[m], key_field))));
        }
    }
    lemma_subset_items_append_keys(ei, reordered, extra, raw, list_field, key_field, ei.len() as int);
    lemma_subset_items_same(ei, reordered, list_member(a1, list_field), raw, list_field, key_field, ei.len() as int);
}

proof fn lemma_content_blocks_append(ec: Seq<JsonV>, ac: Seq<JsonV>, extra: Seq<JsonV>, raw: Option<JsonV>, n: int)
    requires
        n <= ac.len(),
    ensures
        content_blocks(ec, ac + extra, raw, n) == content_blocks(ec, ac, raw, n),
    decreases n,
{
    if n > 0 && n <= ec.len() {
        lemma_content_blocks_append(ec, ac, extra, raw, n - 1);
        assert((ac + extra)[n - 1] == ac[n - 1]);
    }
}

/// `tools/call` content is matched block by block at the expected indices:
/// blocks the actual result has beyond them change nothing.
pub proof fn law_extra_content_blocks_are_ignored(e: JsonV, a1: JsonV, a2: JsonV, extra: Seq<JsonV>, raw: Option<JsonV>)
    requires
        !is_error_result(e),
        !is_error_result(a1),
        !is_error_result(a2),
        is_error_flag(a1) == is_error_flag(a2),
        jget(a1, "structuredContent"@) == jget(a2, "structuredContent"@),
        list_member(a2, "content"@) == list_member(a1, "content"@) + extra,
        list_member(a1, "content"@).len() >= list_member(e, "content"@).len(),
    ensures
        tools_call(e, a2, raw) == tools_call(e, a1, raw),
{
    let ec = list_member(e, "content"@);
    lemma_content_blocks_append(ec, list_member(a1, "content"@), extra, raw, ec.len() as int);
}

/// When one of expected and actual is a protocol error and the other a
/// success, `tools/call`, `resources/read` and `prompts/get` report exactly
/// one mismatch, at `$`.
pub proof fn law_cross_shape_is_one_root_mismatch(op: Operation, e: JsonV, a: JsonV, raw: Option<JsonV>)
    requires
        op == Operation::ToolsCall || op == Operation::ResourcesRead || op == Operation::PromptsGet,
        is_error_result(e) != is_error_result(a),
    ensures
        response_mismatches(op, e, a, raw).len() == 1,
        response_mismatches(op, e, a, raw)[0].path == "$"@,
{
}

/// An expected `tools/call` success that omits `isError` is read as
/// `isError: false`, so an actual `isError: true` is a mismatch at `$.isError`.
pub proof fn law_missing_is_error_means_false(e: JsonV, a: JsonV, raw: Option<JsonV>)
    requires
        !is_error_result(e),
        !is_error_result(a),
        jget(e, "isError"@) is None,
        jget(a, "isError"@) == Some(JsonV::Bool(true)),
    ensures
        exists|k: int|
            0 <= k < tools_call(e, a, raw).len() && (#[trigger] tools_call(e, a, raw)[k]).path == "$.isError"@,
{
    let ec = list_member(e, "content"@);
    let ac = list_member(a, "content"@);
    let p1 = if ac.len() < ec.len() {
        seq![mm("$.content"@, JsonV::Number(nat_text(ec.len())), JsonV::Number(nat_text(ac.len())),
            "expected at least "@ + nat_text(ec.len()) + " content block(s), got "@ + nat_text(ac.len()))]
    } else {
        content_blocks(ec, ac, raw, ec.len() as int)
    };
    let k = p1.len() as int;
    assert(tools_call(e, a, raw)[k].path == "$.isError"@);
}

/// A `tools/call` request for a different tool name is reported by a single
/// mismatch at `$.name`; the arguments are not compared.
pub proof fn law_request_name_is_decisive(e: JsonV, a: JsonV, raw: Option<JsonV>)
    requires
        str_or_empty(jget_str(e, "name"@)) != str_or_empty(jget_str(a, "name"@)),
    ensures
        tools_call_request(e, a, raw).len() == 1,
        tools_call_request(e, a, raw)[0].path == "$.name"@,
{
}

/// Under a `type` rule for a scalar's path, any actual scalar of the same kind
/// matches (for example, any string for an expected string).
pub proof fn law_type_rule_accepts_same_kind(path: Seq<char>, e: JsonV, a: JsonV, raw: Option<JsonV>)
    requires
        is_type_rule(raw, path),
        !(e is Object),
        !(e is Array),
        same_kind(e, a),
    ensures
        structured(path, e, a, raw).len() == 0,
{
}

impl MatchResult {
    /// No mismatch was found.
    pub fn is_match(&self) -> (r: bool)
        ensures
            r == (self@.len() == 0),
    {
        self.mismatches.len() == 0
    }

    /// The distinct mismatch paths, sorted (code-point order, as `str` sorts).
    pub fn mismatch_paths(&self) -> (r: Vec<String>)
        ensures
            sorted_strict(strings_view(r@)),
            forall|p: Seq<char>|
                #[trigger] strings_view(r@).contains(p) <==> exists|k: int| 0 <= k < self@.len() && self@[k].path == p,
    {
        let mut out: Vec<String> = Vec::new();
        let mut i: usize = 0;
        while i < self.mismatches.len()
            invariant
                i <= self.mismatches.len(),
                sorted_strict(strings_view(out@)),
                forall|p: Seq<char>|
                    #[trigger] strings_view(out@).contains(p) <==> exists|k: int| 0 <= k < i && self@[k].path == p,
            decreases self.mismatches.len() - i,
        {
            let ghost before = strings_view(out@);
            insert_sorted(&mut out, self.mismatches[i].path.clone());
            proof {
                assert forall|p: Seq<char>|
                    #[trigger] strings_view(out@).contains(p) <==> exists|k: int| 0 <= k < i + 1 && self@[k].path == p by {
                    if strings_view(out@).contains(p) {
                        if p == self@[i as int].path {
                        } else {
                            assert(before.contains(p));
                        }
                    }
                    if exists|k: int| 0 <= k < i + 1 && self@[k].path == p {
                        let k = choose|k: int| 0 <= k < i + 1 && self@[k].path == p;
                        if k < i {
                            assert(before.contains(p));
                        }
                    }
                }
            }
            i = i + 1;
        }
        out
    }
}

impl<'a> Default for Rules<'a> {
    /// No rules.
    fn default() -> (r: Rules<'a>)
        ensures
            r.raw is None,
    {
        Rules { raw: None }
    }
}

impl<'a> Rules<'a> {
    /// Rules read from an optional rules value.
    pub fn new(raw: Option<&'a Json>) -> (r: Rules<'a>)
        ensures
            r.raw == raw,
    {
        Rules { raw }
    }

    /// No rules.
    pub fn none() -> (r: Rules<'a>)
        ensures
            r.raw is None,
    {
        Rules { raw: None }
    }

    /// The `match` type of the first matcher of the rule for `path`.
    pub fn match_type(&self, path: &str) -> (r: Option<&str>)
        ensures
            match r {
                Some(s) => rule_match_type(raw_view(self.raw), path@) == Some(s@),
                None => rule_match_type(raw_view(self.raw), path@) is None,
            },
    {
        let raw = match self.raw {
            Some(r) => r,
            None => return None,
        };
        if raw.as_object().is_none() {
            return None;
        }
        let rule = match raw.get(path) {
            Some(r) => r,
            None => return None,
        };
        if rule.as_object().is_none() {
            return None;
        }
        proof {
            reveal_strlit("matchers");
            reveal_strlit("match");
        }
        let matchers = match rule.get("matchers") {
            Some(m) => m,
            None => return None,
        };
        let arr = match matchers.as_array() {
            Some(a) => a,
            None => return None,
        };
        proof {
            lemma_items_view(arr@);
        }
        if arr.len() == 0 {
            return None;
        }
        let first = &arr[0];
        if first.as_object().is_none() {
            return None;
        }
        match first.get("match") {
            Some(m) => m.as_str(),
            None => None,
        }
    }

    /// The rule for `path` is a `type` matcher.
    pub fn is_type_matcher(&self, path: &str) -> (r: bool)
        ensures
            r == is_type_rule(raw_view(self.raw), path@),
    {
        proof {
            reveal_strlit("type");
        }
        match self.match_type(path) {
            Some(t) => t.eq("type"),
            None => false,
        }
    }
}

/// Scalars match by kind under a `type` rule, by equality otherwise.
pub fn values_match_exec(path: &str, expected: &Json, actual: &Json, rules: &Rules) -> (r: bool)
    ensures
        r == values_match(raw_view(rules.raw), path@, expected@, actual@),
{
    if rules.is_type_matcher(path) {
        same_json_kind(expected, actual)
    } else {
        json_equal(expected, actual)
    }
}

/// Appends one mismatch.
fn push_mismatch(out: &mut Vec<Mismatch>, path: String, expected: Json, actual: Json, message: String)
    ensures
        mviews(final(out)@) == mviews(old(out)@).push(mm(path@, expected@, actual@, message@)),
{
    let ghost prev = out@;
    out.push(Mismatch { path, expected, actual, message });
    proof {
        assert(mviews(out@) =~= mviews(prev).push(mm(path@, expected@, actual@, message@)));
    }
}

/// Structural comparison (see `structured`), appending the mismatches found.
#[verifier::loop_isolation(false)]
fn compare_structured(path: &str, expected: &Json, actual: &Json, rules: &Rules, by_kind: bool, out: &mut Vec<Mismatch>)
    ensures
        mviews(final(out)@) == mviews(old(out)@) + structured_by(path@, expected@, actual@, raw_view(rules.raw), by_kind),
    decreases expected,
{
    let ghost raw = raw_view(rules.raw);
    let ghost start = mviews(out@);
    match expected {
        Json::Object(em) => {
            proof {
                lemma_entries_view(em@);
            }
            let ghost evs = entries_view(em@);
            let is_obj = actual.as_object().is_some();
            let mut i: usize = 0;
            while i < em.len()
                invariant
                    i <= em.len(),
                    mviews(out@) == start + structured_entries(path@, evs, jobj(actual@), raw, by_kind, i as int),
                decreases em.len() - i,
            {
                proof {
                    assert(decreases_to!(*expected => (*expected)->Object_0));
                    assert(decreases_to!(*em => em@));
                    assert(decreases_to!(em@[i as int] => em@[i as int].1));
                }
                let key = em[i].0.as_str();
                let child = cat3(path, ".", key);
                let found = if is_obj {
                    actual.get(key)
                } else {
                    None
                };
                let ghost before = mviews(out@);
                match found {
                    None => {
                        let msg = cat3("missing key \"", key, "\"");
                        push_mismatch(out, child, em[i].1.copy(), Json::Null, msg);
                    },
                    Some(av) => {
                        compare_structured(child.as_str(), &em[i].1, av, rules, by_kind, out);
                    },
                }
                proof {
                    assert(mviews(out@) =~= start + structured_entries(path@, evs, jobj(actual@), raw, by_kind, i + 1));
                }
                i = i + 1;
            }
        },
        Json::Array(ea) => {
            proof {
                lemma_items_view(ea@);
            }
            let ghost evs = items_view(ea@);
            let empty: Vec<Json> = Vec::new();
            let aa: &Vec<Json> = match actual.as_array() {
                Some(x) => x,
                None => &empty,
            };
            proof {
                lemma_items_view(aa@);
            }
            let ghost avs = items_view(aa@);
            assert(avs == match jarr(actual@) {
                Some(x) => x,
                None => Seq::<JsonV>::empty(),
            });
            let mut i: usize = 0;
            while i < ea.len()
                invariant
                    i <= ea.len(),
                    mviews(out@) == start + structured_items(path@, evs, avs, raw, by_kind, i as int),
                decreases ea.len() - i,
            {
                proof {
                    assert(decreases_to!(*expected => (*expected)->Array_0));
                    assert(decreases_to!(*ea => ea@));
                }
                let idx = usize_text(i);
                let child = cat4(path, "[", idx.as_str(), "]");
                if i < aa.len() {
                    compare_structured(child.as_str(), &ea[i], &aa[i], rules, by_kind, out);
                } else {
                    push_mismatch(out, child, ea[i].copy(), Json::Null, String::from_str("missing array element"));
                }
                proof {
                    assert(mviews(out@) =~= start + structured_items(path@, evs, avs, raw, by_kind, i + 1));
                }
                i = i + 1;
            }
        },
        _ => {
            let ok = if by_kind && rules.match_type(path).is_none() {
                same_json_kind(expected, actual)
            } else {
                values_match_exec(path, expected, actual, rules)
            };
            if !ok {
                let e_text = render_json(expected);
                let a_text = render_json(actual);
                let msg = cat4("expected ", e_text.as_str(), " but got ", a_text.as_str());
                push_mismatch(out, String::from_str(path), expected.copy(), actual.copy(), msg);
            }
            assert(mviews(out@) =~= start + structured_by(path@, expected@, actual@, raw, by_kind));
        },
    }
}

/// A member of a value (a copy), `null` when absent.
pub fn member_or_null_exec(v: &Json, key: &str) -> (r: Json)
    ensures
        r@ == member_or_null(v@, key@),
{
    match v.get(key) {
        Some(x) => x.copy(),
        None => Json::Null,
    }
}

/// A string member, the empty string when absent or not a string.
fn str_member<'b>(v: &'b Json, key: &str) -> (r: &'b str)
    ensures
        r@ == str_or_empty(jget_str(v@, key@)),
{
    proof {
        reveal_strlit("");
    }
    match v.get(key) {
        Some(x) => match x.as_str() {
            Some(s) => s,
            None => "",
        },
        None => "",
    }
}

/// Copies of the elements of an array.
fn copy_items(v: &Vec<Json>) -> (r: Vec<Json>)
    ensures
        items_view(r@) == items_view(v@),
{
    let mut out: Vec<Json> = Vec::new();
    let mut i: usize = 0;
    while i < v.len()
        invariant
            i <= v.len(),
            items_view(out@) == items_view(v@.subrange(0, i as int)),
        decreases v.len() - i,
    {
        let c = v[i].copy();
        let ghost prev = out@;
        out.push(c);
        proof {
            assert(v@.subrange(0, i + 1).drop_last() == v@.subrange(0, i as int));
            assert(out@.drop_last() == prev);
        }
        i = i + 1;
    }
    assert(v@.subrange(0, v.len() as int) == v@);
    out
}

/// Copies of the elements of the member `field`, none when absent or not an array.
fn list_member_exec(v: &Json, field: &str) -> (r: Vec<Json>)
    ensures
        items_view(r@) == list_member(v@, field@),
{
    match v.get(field) {
        Some(x) => match x.as_array() {
            Some(a) => copy_items(a),
            None => Vec::new(),
        },
        None => Vec::new(),
    }
}

fn shape_str(is_error: bool) -> (r: &'static str)
    ensures
        r@ == shape_name(is_error),
{
    if is_error {
        "protocol error"
    } else {
        "success"
    }
}

/// The success-versus-protocol-error shape check: appends the `$` mismatch and
/// returns `true` when the shapes differ.
fn cross_shape_mismatch(expected: &Json, actual: &Json, out: &mut Vec<Mismatch>) -> (r: bool)
    ensures
        r == (is_error_result(expected@) != is_error_result(actual@)),
        mviews(final(out)@) == mviews(old(out)@) + cross_shape(expected@, actual@),
{
    let expected_is_error = expected.get("error").is_some();
    let actual_is_error = actual.get("error").is_some();
    if expected_is_error != actual_is_error {
        let msg = cat5(
            "expected a ",
            shape_str(expected_is_error),
            " result but got a ",
            shape_str(actual_is_error),
            " result",
        );
        push_mismatch(out, String::from_str("$"), expected.copy(), actual.copy(), msg);
        return true;
    }
    assert(mviews(out@) =~= mviews(old(out)@) + cross_shape(expected@, actual@));
    false
}

/// Protocol error comparison (see `error_mismatches`).
fn compare_error(expected: &Json, actual: &Json, rules: &Rules, out: &mut Vec<Mismatch>)
    ensures
        mviews(final(out)@) == mviews(old(out)@) + error_mismatches(expected@, actual@, raw_view(rules.raw)),
{
    let ghost start = mviews(out@);
    let expected_err = member_or_null_exec(expected, "error");
    let actual_err = member_or_null_exec(actual, "error");

    let expected_code = member_or_null_exec(&expected_err, "code");
    let actual_code = member_or_null_exec(&actual_err, "code");
    if !json_equal(&expected_code, &actual_code) {
        push_mismatch(out, String::from_str("$.error.code"), expected_code, actual_code, String::from_str("error.code mismatch"));
    }
    let ghost after_code = mviews(out@);

    let message_path = "$.error.message";
    let expected_message = member_or_null_exec(&expected_err, "message");
    let actual_message = member_or_null_exec(&actual_err, "message");
    let ok = if rules.match_type(message_path).is_some() {
        values_match_exec(message_path, &expected_message, &actual_message, rules)
    } else {
        same_json_kind(&expected_message, &actual_message)
    };
    if !ok {
        push_mismatch(out, String::from_str(message_path), expected_message, actual_message, String::from_str("error.message type mismatch"));
    }
    let ghost after_message = mviews(out@);

    match expected_err.get("data") {
        Some(expected_data) => {
            let actual_data = member_or_null_exec(&actual_err, "data");
            compare_structured("$.error.data", expected_data, &actual_data, rules, true, out);
        },
        None => {},
    }
    assert(mviews(out@) =~= start + error_mismatches(expected@, actual@, raw_view(rules.raw)));
}

/// The member `uri` of the member `resource` (a copy), `null` when absent.
fn resource_uri_exec(v: &Json) -> (r: Json)
    ensures
        r@ == resource_uri(v@),
{
    match v.get("resource") {
        Some(res) => member_or_null_exec(res, "uri"),
        None => Json::Null,
    }
}

/// One content block (see `content_block`).
fn compare_content_block(index: usize, expected: &Json, actual: &Json, rules: &Rules, out: &mut Vec<Mismatch>)
    ensures
        mviews(final(out)@) == mviews(old(out)@) + content_block(index as nat, expected@, actual@, raw_view(rules.raw)),
{
    let ghost start = mviews(out@);
    let ghost raw = raw_view(rules.raw);
    let idx = usize_text(index);
    let base = cat3("$.content[", idx.as_str(), "]");
    let expected_type = str_member(expected, "type");
    let actual_type = str_member(actual, "type");

    let type_path = cat2(base.as_str(), ".type");
    let et = Json::Str(String::from_str(expected_type));
    let at = Json::Str(String::from_str(actual_type));
    if !values_match_exec(type_path.as_str(), &et, &at, rules) {
        let msg = cat4("expected content[", idx.as_str(), "].type = \"", expected_type);
        let msg = cat5(msg.as_str(), "\" but got \"", actual_type, "\"", "");
        proof {
            reveal_strlit("");
            assert(msg@ =~= "expected content["@ + nat_text(index as nat) + "].type = \""@ + expected_type@
                + "\" but got \""@ + actual_type@ + "\""@);
        }
        push_mismatch(out, type_path, et, at, msg);
        assert(mviews(out@) =~= start + content_block(index as nat, expected@, actual@, raw));
        return;
    }

    if expected_type.eq("text") {
        let path = cat2(base.as_str(), ".text");
        let expected_text = member_or_null_exec(expected, "text");
        let actual_text = member_or_null_exec(actual, "text");
        if !values_match_exec(path.as_str(), &expected_text, &actual_text, rules) {
            let e_text = render_json(&expected_text);
            let a_text = render_json(&actual_text);
            let msg = cat4("expected content[", idx.as_str(), "].text = ", e_text.as_str());
            let msg = cat3(msg.as_str(), " but got ", a_text.as_str());
            push_mismatch(out, path, expected_text, actual_text, msg);
        }
    } else if expected_type.eq("image") {
        let mime_path = cat2(base.as_str(), ".mimeType");
        let expected_mime = member_or_null_exec(expected, "mimeType");
        let actual_mime = member_or_null_exec(actual, "mimeType");
        if !values_match_exec(mime_path.as_str(), &expected_mime, &actual_mime, rules) {
            let msg = cat3("mimeType mismatch at content[", idx.as_str(), "]");
            push_mismatch(out, mime_path, expected_mime, actual_mime, msg);
        }
        let ghost after_mime = mviews(out@);
        let data_path = cat2(base.as_str(), ".data");
        let expected_data = member_or_null_exec(expected, "data");
        let actual_data = member_or_null_exec(actual, "data");
        let ok = if rules.match_type(data_path.as_str()).is_some() {
            values_match_exec(data_path.as_str(), &expected_data, &actual_data, rules)
        } else {
            same_json_kind(&expected_data, &actual_data)
        };
        if !ok {
            let msg = cat3("data type mismatch at content[", idx.as_str(), "]");
            push_mismatch(out, data_path, expected_data, actual_data, msg);
        }
    } else if expected_type.eq("resource") {
        let uri_path = cat2(base.as_str(), ".resource.uri");
        let expected_uri = resource_uri_exec(expected);
        let actual_uri = resource_uri_exec(actual);
        if !values_match_exec(uri_path.as_str(), &expected_uri, &actual_uri, rules) {
            let msg = cat3("resource.uri mismatch at content[", idx.as_str(), "]");
            push_mismatch(out, uri_path, expected_uri, actual_uri, msg);
        }
    } else {
        let msg = cat3("unsupported content block type \"", expected_type, "\"");
        push_mismatch(out, type_path, et, at, msg);
    }
    assert(mviews(out@) =~= start + content_block(index as nat, expected@, actual@, raw));
}

fn compare_tools_call(expected: &Json, actual: &Json, rules: &Rules) -> (r: MatchResult)
    ensures
        r@ == tools_call(expected@, actual@, raw_view(rules.raw)),
{
    let ghost raw = raw_view(rules.raw);
    let mut mismatches: Vec<Mismatch> = Vec::new();
    if cross_shape_mismatch(expected, actual, &mut mismatches) {
        return MatchResult { mismatches };
    }
    if expected.get("error").is_some() {
        compare_error(expected, actual, rules, &mut mismatches);
        assert(mviews(mismatches@) =~= tools_call(expected@, actual@, raw));
        return MatchResult { mismatches };
    }
    assert(mviews(mismatches@) =~= Seq::<MismatchV>::empty());

    let expected_content = list_member_exec(expected, "content");
    let actual_content = list_member_exec(actual, "content");
    proof {
        lemma_items_view(expected_content@);
        lemma_items_view(actual_content@);
    }
    let ghost ec = items_view(expected_content@);
    let ghost ac = items_view(actual_content@);
    if actual_content.len() < expected_content.len() {
        let e_len = usize_text(expected_content.len());
        let a_len = usize_text(actual_content.len());
        let msg = cat4("expected at least ", e_len.as_str(), " content block(s), got ", a_len.as_str());
        push_mismatch(
            &mut mismatches,
            String::from_str("$.content"),
            Json::Number(usize_text(expected_content.len())),
            Json::Number(usize_text(actual_content.len())),
            msg,
        );
    } else {
        let mut i: usize = 0;
        while i < expected_content.len()
            invariant
                i <= expected_content.len(),
                expected_content.len() <= actual_content.len(),
                ec == items_view(expected_content@),
                ac == items_view(actual_content@),
                ec.len() == expected_content@.len(),
                ac.len() == actual_content@.len(),
                forall|k: int| 0 <= k < expected_content@.len() ==> #[trigger] ec[k] == expected_content@[k]@,
                forall|k: int| 0 <= k < actual_content@.len() ==> #[trigger] ac[k] == actual_content@[k]@,
                raw == raw_view(rules.raw),
                mviews(mismatches@) == content_blocks(ec, ac, raw, i as int),
            decreases expected_content.len() - i,
        {
            compare_content_block(i, &expected_content[i], &actual_content[i], rules, &mut mismatches);
            assert(ec[i as int] == expected_content@[i as int]@);
            assert(ac[i as int] == actual_content@[i as int]@);
            assert(mviews(mismatches@) =~= content_blocks(ec, ac, raw, i + 1));
            i = i + 1;
        }
    }
    let ghost part1 = mviews(mismatches@);

    let expected_is_error = match expected.get("isError") {
        Some(b) => match b.as_bool() {
            Some(x) => x,
            None => false,
        },
        None => false,
    };
    let actual_is_error = match actual.get("isError") {
        Some(b) => match b.as_bool() {
            Some(x) => x,
            None => false,
        },
        None => false,
    };
    if expected_is_error != actual_is_error {
        let msg = cat4("expected isError=", bool_str(expected_is_error), " but got isError=", bool_str(actual_is_error));
        push_mismatch(
            &mut mismatches,
            String::from_str("$.isError"),
            Json::Bool(expected_is_error),
            Json::Bool(actual_is_error),
            msg,
        );
    }
    let ghost part2 = mviews(mismatches@);

    match expected.get("structuredContent") {
        Some(expected_sc) => {
            let actual_sc = member_or_null_exec(actual, "structuredContent");
            compare_structured("$.structuredContent", expected_sc, &actual_sc, rules, false, &mut mismatches);
        },
        None => {},
    }
    assert(mviews(mismatches@) =~= tools_call(expected@, actual@, raw));
    MatchResult { mismatches }
}

/// The first item whose string member `key_field` is `key`.
fn find_by_key_exec<'b>(items: &'b Vec<Json>, key_field: &str, key: &str) -> (r: Option<&'b Json>)
    ensures
        opt_view(r) == find_by_key(items_view(items@), key_field@, key@),
{
    proof {
        lemma_items_view(items@);
    }
    let ghost iv = items_view(items@);
    let mut i: usize = 0;
    while i < items.len()
        invariant
            i <= items.len(),
            iv == items_view(items@),
            iv.len() == items@.len(),
            forall|k: int| 0 <= k < items@.len() ==> #[trigger] iv[k] == items@[k]@,
            find_from(iv, key_field@, key@, i as int) == find_by_key(iv, key_field@, key@),
        decreases items.len() - i,
    {
        let hit = match items[i].get(key_field) {
            Some(v) => match v.as_str() {
                Some(s) => s.eq(key),
                None => false,
            },
            None => false,
        };
        if hit {
            return Some(&items[i]);
        }
        i = i + 1;
    }
    None
}

fn compare_tools_list(expected: &Json, actual: &Json, rules: &Rules) -> (r: MatchResult)
    ensures
        r@ == tools_list(expected@, actual@, raw_view(rules.raw)),
{
    let mut mismatches: Vec<Mismatch> = Vec::new();
    let expected_tools = list_member_exec(expected, "tools");
    let actual_tools = list_member_exec(actual, "tools");
    proof {
        lemma_items_view(expected_tools@);
    }
    let ghost et = items_view(expected_tools@);
    let ghost at = items_view(actual_tools@);
    let ghost raw = raw_view(rules.raw);
    let mut i: usize = 0;
    while i < expected_tools.len()
        invariant
            i <= expected_tools.len(),
            et == items_view(expected_tools@),
            at == items_view(actual_tools@),
            et.len() == expected_tools@.len(),
            forall|k: int| 0 <= k < expected_tools@.len() ==> #[trigger] et[k] == expected_tools@[k]@,
            raw == raw_view(rules.raw),
            mviews(mismatches@) == tools_list_items(et, at, raw, i as int),
        decreases expected_tools.len() - i,
    {
        let tool = &expected_tools[i];
        let name = str_member(tool, "name");
        let path = cat3("$.tools[?(@.name=='", name, "')]");
        proof {
            assert(path@ =~= keyed_path("tools"@, "name"@, name@)) by {
                reveal_strlit("$.tools[?(@.name=='");
                reveal_strlit("$.");
                reveal_strlit("tools");
                reveal_strlit("[?(@.");
                reveal_strlit("name");
                reveal_strlit("=='");
            }
        }
        let ghost before = mviews(mismatches@);
        match find_by_key_exec(&actual_tools, "name", name) {
            None => {
                let msg = cat3("expected tool \"", name, "\" not found in actual tools[]");
                push_mismatch(&mut mismatches, path, tool.copy(), Json::Null, msg);
            },
            Some(actual_tool) => {
                match tool.get("inputSchema") {
                    Some(expected_schema) => {
                        let actual_schema = member_or_null_exec(actual_tool, "inputSchema");
                        let schema_path = cat2(path.as_str(), ".inputSchema");
                        compare_structured(schema_path.as_str(), expected_schema, &actual_schema, rules, true, &mut mismatches);
                    },
                    None => {},
                }
            },
        }
        assert(mviews(mismatches@) =~= tools_list_items(et, at, raw, i + 1));
        i = i + 1;
    }
    MatchResult { mismatches }
}

/// `resources/read` and `prompts/get` results (see `structural_result`).
fn compare_structural_result(expected: &Json, actual: &Json, rules: &Rules) -> (r: MatchResult)
    ensures
        r@ == structural_result(expected@, actual@, raw_view(rules.raw)),
{
    let mut mismatches: Vec<Mismatch> = Vec::new();
    if cross_shape_mismatch(expected, actual, &mut mismatches) {
        return MatchResult { mismatches };
    }
    if expected.get("error").is_some() {
        compare_error(expected, actual, rules, &mut mismatches);
        assert(mviews(mismatches@) =~= structural_result(expected@, actual@, raw_view(rules.raw)));
        return MatchResult { mismatches };
    }
    compare_structured("$", expected, actual, rules, false, &mut mismatches);
    assert(mviews(mismatches@) =~= structural_result(expected@, actual@, raw_view(rules.raw)));
    MatchResult { mismatches }
}

/// Keyed subset list matching (see `subset_list`).
fn compare_subset_list(expected: &Json, actual: &Json, rules: &Rules, list_field: &str, key_field: &str) -> (r: MatchResult)
    ensures
        r@ == subset_list(expected@, actual@, raw_view(rules.raw), list_field@, key_field@),
{
    let ghost raw = raw_view(rules.raw);
    let mut mismatches: Vec<Mismatch> = Vec::new();
    let expected_items = list_member_exec(expected, list_field);
    let actual_items = list_member_exec(actual, list_field);
    proof {
        lemma_items_view(expected_items@);
    }
    let ghost ei = items_view(expected_items@);
    let ghost ai = items_view(actual_items@);
    let mut i: usize = 0;
    while i < expected_items.len()
        invariant
            i <= expected_items.len(),
            raw == raw_view(rules.raw),
            ei == items_view(expected_items@),
            ai == items_view(actual_items@),
            ei.len() == expected_items@.len(),
            forall|k: int| 0 <= k < expected_items@.len() ==> #[trigger] ei[k] == expected_items@[k]@,
            mviews(mismatches@) == subset_items(ei, ai, raw, list_field@, key_field@, i as int),
        decreases expected_items.len() - i,
    {
        let item = &expected_items[i];
        let key = str_member(item, key_field);
        let path = cat5("$.", list_field, "[?(@.", key_field, "=='");
        let path = cat3(path.as_str(), key, "')]");
        match find_by_key_exec(&actual_items, key_field, key) {
            None => {
                let msg = cat5("expected ", list_field, " item \"", key, "\" not found in actual ");
                let msg = cat3(msg.as_str(), list_field, "[]");
                push_mismatch(&mut mismatches, path, item.copy(), Json::Null, msg);
            },
            Some(actual_item) => {
                compare_structured(path.as_str(), item, actual_item, rules, false, &mut mismatches);
            },
        }
        assert(ei[i as int] == expected_items@[i as int]@);
        assert(mviews(mismatches@) =~= subset_items(ei, ai, raw, list_field@, key_field@, i + 1));
        i = i + 1;
    }
    MatchResult { mismatches }
}

/// Compare an actual MCP response value (a JSON-RPC `result`, or
/// `{"error": {...}}`) against the expected response of an interaction, per
/// its operation.
pub fn compare_response(operation: Operation, expected: &Json, actual: &Json, rules: &Rules) -> (r: MatchResult)
    ensures
        r@ == response_mismatches(operation, expected@, actual@, raw_view(rules.raw)),
{
    match operation {
        Operation::ToolsCall => compare_tools_call(expected, actual, rules),
        Operation::ToolsList => compare_tools_list(expected, actual, rules),
        Operation::ResourcesRead => compare_structural_result(expected, actual, rules),
        Operation::PromptsGet => compare_structural_result(expected, actual, rules),
        Operation::ResourcesList => compare_subset_list(expected, actual, rules, "resources", "uri"),
        Operation::PromptsList => compare_subset_list(expected, actual, rules, "prompts", "name"),
    }
}

/// Request matching for `resources/read` (uri) and `prompts/get` (name and
/// arguments): structural comparison rooted at `$`.
pub fn match_structural_request(expected: &Json, actual: &Json, rules: &Rules) -> (r: MatchResult)
    ensures
        r@ == structured("$"@, expected@, actual@, raw_view(rules.raw)),
{
    let mut mismatches: Vec<Mismatch> = Vec::new();
    compare_structured("$", expected, actual, rules, false, &mut mismatches);
    assert(mviews(mismatches@) =~= structured("$"@, expected@, actual@, raw_view(rules.raw)));
    MatchResult { mismatches }
}

/// Request matching for the mock: the interaction's tool name must equal the
/// incoming one (a different name is decisive), then `arguments` must match
/// under the request rules.
pub fn match_tools_call_request(expected: &Json, actual: &Json, rules: &Rules) -> (r: MatchResult)
    ensures
        r@ == tools_call_request(expected@, actual@, raw_view(rules.raw)),
{
    let mut mismatches: Vec<Mismatch> = Vec::new();
    let expected_name = str_member(expected, "name");
    let actual_name = str_member(actual, "name");
    if !expected_name.eq(actual_name) {
        let msg = cat5("expected tool name \"", expected_name, "\" but got \"", actual_name, "\"");
        push_mismatch(
            &mut mismatches,
            String::from_str("$.name"),
            Json::Str(String::from_str(expected_name)),
            Json::Str(String::from_str(actual_name)),
            msg,
        );
        assert(mviews(mismatches@) =~= tools_call_request(expected@, actual@, raw_view(rules.raw)));
        return MatchResult { mismatches };
    }
    let expected_args = member_or_null_exec(expected, "arguments");
    let actual_args = member_or_null_exec(actual, "arguments");
    compare_structured("$.arguments", &expected_args, &actual_args, rules, false, &mut mismatches);
    assert(mviews(mismatches@) =~= tools_call_request(expected@, actual@, raw_view(rules.raw)));
    MatchResult { mismatches }
}

/// A `tools/call` success matches only when the actual `structuredContent`
/// covers the expected one with every specified scalar equal, unless a rule
/// for its path says otherwise: a different number or string at a specified
/// key is a mismatch.
pub proof fn law_tools_call_structured_content_is_exact(e: JsonV, a: JsonV, raw: Option<JsonV>, esc: JsonV)
    requires
        !is_error_result(e),
        !is_error_result(a),
        jget(e, "structuredContent"@) == Some(esc),
    ensures
        response_mismatches(Operation::ToolsCall, e, a, raw).len() == 0 ==> covers_by(
            "$.structuredContent"@,
            esc,
            member_or_null(a, "structuredContent"@),
            raw,
            false,
        ),
{
    law_structural_match_is_coverage_under_rules(
        "$.structuredContent"@,
        esc,
        member_or_null(a, "structuredContent"@),
        raw,
        false,
    );
}

/// When the expected `tools/call` success lists no content blocks and the
/// two `isError` flags agree, the results match exactly when the actual
/// `structuredContent` covers the expected one, scalars equal unless ruled.
pub proof fn law_tools_call_structured_content_decides(e: JsonV, a: JsonV, raw: Option<JsonV>, esc: JsonV)
    requires
        !is_error_result(e),
        !is_error_result(a),
        list_member(e, "content"@).len() == 0,
        is_error_flag(e) == is_error_flag(a),
        jget(e, "structuredContent"@) == Some(esc),
    ensures
        response_mismatches(Operation::ToolsCall, e, a, raw).len() == 0 <==> covers_by(
            "$.structuredContent"@,
            esc,
            member_or_null(a, "structuredContent"@),
            raw,
            false,
        ),
{
    law_structural_match_is_coverage_under_rules(
        "$.structuredContent"@,
        esc,
        member_or_null(a, "structuredContent"@),
        raw,
        false,
    );
    let ec = list_member(e, "content"@);
    let ac = list_member(a, "content"@);
    assert(content_blocks(ec, ac, raw, 0) =~= Seq::<MismatchV>::empty());
}

/// A `tools/call` request with the expected tool name matches exactly when
/// the incoming arguments cover the expected ones, every specified scalar
/// equal unless a rule for its own path says otherwise; a rule on one
/// argument never relaxes another.
pub proof fn law_request_arguments_are_exact_unless_ruled(e: JsonV, a: JsonV, raw: Option<JsonV>)
    requires
        jget_str(e, "name"@) == jget_str(a, "name"@),
    ensures
        tools_call_request(e, a, raw).len() == 0 <==> covers_by(
            "$.arguments"@,
            member_or_null(e, "arguments"@),
            member_or_null(a, "arguments"@),
            raw,
            false,
        ),
{
    law_structural_match_is_coverage_under_rules(
        "$.arguments"@,
        member_or_null(e, "arguments"@),
        member_or_null(a, "arguments"@),
        raw,
        false,
    );
}

proof fn lemma_tools_list_items_clean(et: Seq<JsonV>, at: Seq<JsonV>, raw: Option<JsonV>, n: int, m: int)
    requires
        tools_list_items(et, at, raw, n).len() == 0,
        0 <= m < n <= et.len(),
    ensures
        tools_list_item(et[m], at, raw).len() == 0,
    decreases n,
{
    if m < n - 1 {
        lemma_tools_list_items_clean(et, at, raw, n - 1, m);
    }
}

/// A `tools/list` result matches only when every expected tool is found by
/// name and the found tool's whole `inputSchema` covers the expected one at
/// every depth (every key the consumer specified present, scalars of the
/// same kind unless a rule says otherwise).
pub proof fn law_tools_list_match_covers_each_schema(e: JsonV, a: JsonV, raw: Option<JsonV>, m: int)
    requires
        0 <= m < list_member(e, "tools"@).len(),
        response_mismatches(Operation::ToolsList, e, a, raw).len() == 0,
    ensures
        ({
            let t = list_member(e, "tools"@)[m];
            let name = str_or_empty(jget_str(t, "name"@));
            match find_by_key(list_member(a, "tools"@), "name"@, name) {
                None => false,
                Some(x) => match jget(t, "inputSchema"@) {
                    Some(es) => covers_by(
                        keyed_path("tools"@, "name"@, name) + ".inputSchema"@,
                        es,
                        member_or_null(x, "inputSchema"@),
                        raw,
                        true,
                    ),
                    None => true,
                },
            }
        }),
{
    let et = list_member(e, "tools"@);
    let at = list_member(a, "tools"@);
    lemma_tools_list_items_clean(et, at, raw, et.len() as int, m);
    let t = et[m];
    let name = str_or_empty(jget_str(t, "name"@));
    match find_by_key(at, "name"@, name) {
        None => {},
        Some(x) => match jget(t, "inputSchema"@) {
            Some(es) => law_structural_match_is_coverage_under_rules(
                keyed_path("tools"@, "name"@, name) + ".inputSchema"@,
                es,
                member_or_null(x, "inputSchema"@),
                raw,
                true,
            ),
            None => {},
        },
    }
}

proof fn lemma_tools_list_items_all_clean(et: Seq<JsonV>, at: Seq<JsonV>, raw: Option<JsonV>, n: int)
    requires
        n <= et.len(),
        forall|m: int| 0 <= m < n ==> (#[trigger] tools_list_item(et[m], at, raw)).len() == 0,
    ensures
        tools_list_items(et, at, raw, n).len() == 0,
    decreases n,
{
    if n > 0 {
        lemma_tools_list_items_all_clean(et, at, raw, n - 1);
    }
}

/// Conversely, a `tools/list` result matches when every expected tool is
/// found by name and, where it specifies an `inputSchema`, the found tool's
/// schema covers it (scalars of the same kind unless a rule says otherwise).
pub proof fn law_tools_list_matches_when_each_schema_is_covered(e: JsonV, a: JsonV, raw: Option<JsonV>)
    requires
        forall|m: int|
            0 <= m < list_member(e, "tools"@).len() ==> match find_by_key(
                list_member(a, "tools"@),
                "name"@,
                str_or_empty(jget_str(#[trigger] list_member(e, "tools"@)[m], "name"@)),
            ) {
                None => false,
                Some(x) => match jget(list_member(e, "tools"@)[m], "inputSchema"@) {
                    Some(es) => covers_by(
                        keyed_path("tools"@, "name"@, str_or_empty(jget_str(list_member(e, "tools"@)[m], "name"@)))
                            + ".inputSchema"@,
                        es,
                        member_or_null(x, "inputSchema"@),
                        raw,
                        true,
                    ),
                    None => true,
                },
            },
    ensures
        response_mismatches(Operation::ToolsList, e, a, raw).len() == 0,
{
    let et = list_member(e, "tools"@);
    let at = list_member(a, "tools"@);
    assert forall|m: int| 0 <= m < et.len() implies (#[trigger] tools_list_item(et[m], at, raw)).len() == 0 by {
        let t = et[m];
        let name = str_or_empty(jget_str(t, "name"@));
        match find_by_key(at, "name"@, name) {
            None => {},
            Some(x) => match jget(t, "inputSchema"@) {
                Some(es) => law_structural_match_is_coverage_under_rules(
                    keyed_path("tools"@, "name"@, name) + ".inputSchema"@,
                    es,
                    member_or_null(x, "inputSchema"@),
                    raw,
                    true,
                ),
                None => {},
            },
        }
    }
    lemma_tools_list_items_all_clean(et, at, raw, et.len() as int);
}

proof fn lemma_find_first_of_key(items: Seq<JsonV>, key_field: Seq<char>, key: Seq<char>, m: int, i: int)
    requires
        0 <= i <= m < items.len(),
        jget_str(items[m], key_field) == Some(key),
        forall|n: int| 0 <= n < m ==> jget_str(#[trigger] items[n], key_field) != Some(key),
    ensures
        find_from(items, key_field, key, i) == Some(items[m]),
    decreases m - i,
{
    if i < m {
        lemma_find_first_of_key(items, key_field, key, m, i + 1);
    }
}

proof fn lemma_subset_items_self(
    ei: Seq<JsonV>,
    raw: Option<JsonV>,
    list_field: Seq<char>,
    key_field: Seq<char>,
    n: int,
)
    requires
        n <= ei.len(),
        forall|m: int| 0 <= m < ei.len() ==> json_wf(#[trigger] ei[m]),
        forall|m: int| 0 <= m < ei.len() ==> (#[trigger] jget_str(ei[m], key_field)) is Some,
        forall|m: int, k: int|
            0 <= m < k < ei.len() ==> #[trigger] jget_str(ei[m], key_field) != #[trigger] jget_str(ei[k], key_field),
    ensures
        subset_items(ei, ei, raw, list_field, key_field, n).len() == 0,
    decreases n,
{
    if n > 0 {
        lemma_subset_items_self(ei, raw, list_field, key_field, n - 1);
        let m = n - 1;
        let key = str_or_empty(jget_str(ei[m], key_field));
        assert(jget_str(ei[m], key_field) == Some(key));
        assert forall|k: int| 0 <= k < m implies jget_str(#[trigger] ei[k], key_field) != Some(key) by {
            assert(jget_str(ei[k], key_field) != jget_str(ei[m], key_field));
        }
        lemma_find_first_of_key(ei, key_field, key, m, 0);
        law_value_matches_itself(keyed_path(list_field, key_field, key), ei[m], raw, false);
    }
}

proof fn lemma_keyed_list_matches_itself(e: JsonV, raw: Option<JsonV>, lf: Seq<char>, kf: Seq<char>)
    requires
        json_wf(e),
        forall|m: int| 0 <= m < list_member(e, lf).len() ==> (#[trigger] jget_str(list_member(e, lf)[m], kf)) is Some,
        forall|m: int, k: int|
            0 <= m < k < list_member(e, lf).len() ==> #[trigger] jget_str(list_member(e, lf)[m], kf)
                != #[trigger] jget_str(list_member(e, lf)[k], kf),
    ensures
        subset_list(e, e, raw, lf, kf).len() == 0,
{
    let ei = list_member(e, lf);
    lemma_member_wf(e, lf);
    assert forall|m: int| 0 <= m < ei.len() implies json_wf(#[trigger] ei[m]) by {
        let x = jget(e, lf)->Some_0;
        lemma_element_wf(x, m);
    }
    lemma_subset_items_self(ei, raw, lf, kf, ei.len() as int);
}

/// `prompts/list` items are found by `name`: a well-formed expected list
/// whose prompts each have a distinct string `name` matches itself (prompts
/// need no `uri`).
pub proof fn law_prompts_list_matches_itself(e: JsonV, raw: Option<JsonV>)
    requires
        json_wf(e),
        forall|m: int|
            0 <= m < list_member(e, "prompts"@).len() ==> (#[trigger] jget_str(list_member(e, "prompts"@)[m], "name"@)) is Some,
        forall|m: int, k: int|
            0 <= m < k < list_member(e, "prompts"@).len() ==> #[trigger] jget_str(list_member(e, "prompts"@)[m], "name"@)
                != #[trigger] jget_str(list_member(e, "prompts"@)[k], "name"@),
    ensures
        response_mismatches(Operation::PromptsList, e, e, raw).len() == 0,
{
    lemma_keyed_list_matches_itself(e, raw, "prompts"@, "name"@);
}

/// `resources/list` items are found by `uri`: a well-formed expected list
/// whose resources each have a distinct string `uri` matches itself
/// (resources need no `name`).
pub proof fn law_resources_list_matches_itself(e: JsonV, raw: Option<JsonV>)
    requires
        json_wf(e),
        forall|m: int|
            0 <= m < list_member(e, "resources"@).len() ==> (#[trigger] jget_str(list_member(e, "resources"@)[m], "uri"@)) is Some,
        forall|m: int, k: int|
            0 <= m < k < list_member(e, "resources"@).len() ==> #[trigger] jget_str(list_member(e, "resources"@)[m], "uri"@)
                != #[trigger] jget_str(list_member(e, "resources"@)[k], "uri"@),
    ensures
        response_mismatches(Operation::ResourcesList, e, e, raw).len() == 0,
{
    lemma_keyed_list_matches_itself(e, raw, "resources"@, "uri"@);
}

} // verus!
