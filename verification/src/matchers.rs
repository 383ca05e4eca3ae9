//! Inline matcher definitions in an authored body: a string leaf written in
//! Pact's matcher-definition form stands for its example value, matched under
//! a rule of that type at the leaf's path. The forms read are
//! `matching(type|equalTo, <value>)`, `matching(number|integer|decimal, <n>)`,
//! `matching(boolean, true|false)`, `matching(include|semver, '<text>')`,
//! `matching(regex|datetime|date|time|contentType, '<arg>', '<example>')` and
//! `notEmpty(<value>)`, where a value is a quoted string (no quote inside),
//! a number, `true`, `false` or `null`. Any other string is a literal.
use vstd::prelude::*;
use crate::json::{Json, JsonV, items_view, entries_view, lemma_items_view, lemma_entries_view, number_text, canonical_number};
use crate::text::{nat_text, usize_text, cat3, cat4, strip_prefix, strip_prefix_str};
use crate::auth::pairs_view;

verus! {

/// The index of the first non-space at or after `i`.
pub open spec fn skip_spaces(s: Seq<char>, i: int) -> int
    decreases s.len() - i,
{
    if 0 <= i < s.len() && s[i] == ' ' {
        skip_spaces(s, i + 1)
    } else {
        i
    }
}

/// The end of `s[lo..j]` once trailing spaces are dropped.
pub open spec fn back_spaces(s: Seq<char>, lo: int, j: int) -> int
    decreases j - lo,
{
    if lo < j && j <= s.len() && s[j - 1] == ' ' {
        back_spaces(s, lo, j - 1)
    } else {
        j
    }
}

/// `s` without leading and trailing spaces.
pub open spec fn trim(s: Seq<char>) -> Seq<char> {
    let lo = skip_spaces(s, 0);
    s.subrange(lo, back_spaces(s, lo, s.len() as int))
}

/// The index of the first `c` at or after `i`.
pub open spec fn first_char(s: Seq<char>, c: char, i: int) -> Option<int>
    decreases s.len() - i,
{
    if i < 0 || i >= s.len() {
        None
    } else if s[i] == c {
        Some(i)
    } else {
        first_char(s, c, i + 1)
    }
}

/// The index of the first `,` at or after `i` that stands outside single
/// quotes (`quoted`: whether `i` is inside quotes); `s.len()` when none does.
pub open spec fn next_comma(s: Seq<char>, i: int, quoted: bool) -> int
    decreases s.len() - i,
{
    if i < 0 || i >= s.len() {
        s.len() as int
    } else if !quoted && s[i] == ',' {
        i
    } else if s[i] == '\'' {
        next_comma(s, i + 1, !quoted)
    } else {
        next_comma(s, i + 1, quoted)
    }
}

/// The text of a quoted string `'...'` with no quote inside.
pub open spec fn quoted_text(t: Seq<char>) -> Option<Seq<char>> {
    if t.len() >= 2 && t[0] == '\'' && t[t.len() - 1] == '\'' && (forall|i: int|
        1 <= i < t.len() - 1 ==> #[trigger] t[i] != '\'') {
        Some(t.subrange(1, t.len() - 1))
    } else {
        None
    }
}

/// `t[lo..hi]` is one or more decimal digits.
pub open spec fn all_digits(t: Seq<char>, lo: int, hi: int) -> bool {
    &&& 0 <= lo < hi <= t.len()
    &&& forall|i: int| lo <= i < hi ==> '0' <= #[trigger] t[i] <= '9'
}

/// The length of an optional leading `-`.
pub open spec fn sign_len(t: Seq<char>) -> int {
    if t.len() > 0 && t[0] == '-' {
        1
    } else {
        0
    }
}

/// An integer literal: an optional `-`, then digits.
pub open spec fn is_int_lexeme(t: Seq<char>) -> bool {
    all_digits(t, sign_len(t), t.len() as int)
}

/// A decimal literal: an optional `-`, digits, `.`, digits.
pub open spec fn is_decimal_lexeme(t: Seq<char>) -> bool {
    match first_char(t, '.', 0) {
        Some(d) => all_digits(t, sign_len(t), d) && all_digits(t, d + 1, t.len() as int),
        None => false,
    }
}

/// A number literal as a value: the number the JSON library reads it as.
pub open spec fn number_value(t: Seq<char>) -> Option<JsonV> {
    if is_int_lexeme(t) || is_decimal_lexeme(t) {
        match number_text(t) {
            Some(c) => Some(JsonV::Number(c)),
            None => None,
        }
    } else {
        None
    }
}

/// A primitive value: a quoted string, `true`, `false`, `null` or a number.
pub open spec fn primitive_value(t: Seq<char>) -> Option<JsonV> {
    match quoted_text(t) {
        Some(x) => Some(JsonV::Str(x)),
        None => if t == "true"@ {
            Some(JsonV::Bool(true))
        } else if t == "false"@ {
            Some(JsonV::Bool(false))
        } else if t == "null"@ {
            Some(JsonV::Null)
        } else {
            number_value(t)
        },
    }
}

/// A quoted string as a value.
pub open spec fn string_value(t: Seq<char>) -> Option<JsonV> {
    match quoted_text(t) {
        Some(x) => Some(JsonV::Str(x)),
        None => None,
    }
}

/// A rule type and example, when the example is there.
pub open spec fn with_rule(rule: Seq<char>, v: Option<JsonV>) -> Option<(Seq<char>, JsonV)> {
    match v {
        Some(x) => Some((rule, x)),
        None => None,
    }
}

/// `matching(<kind>, <a>)`.
pub open spec fn matching_two(kind: Seq<char>, a: Seq<char>) -> Option<(Seq<char>, JsonV)> {
    if kind == "type"@ {
        with_rule(kind, primitive_value(a))
    } else if kind == "equalTo"@ {
        with_rule("equality"@, primitive_value(a))
    } else if kind == "number"@ {
        with_rule(kind, number_value(a))
    } else if kind == "integer"@ {
        with_rule(kind, if is_int_lexeme(a) { number_value(a) } else { None })
    } else if kind == "decimal"@ {
        with_rule(kind, if is_decimal_lexeme(a) { number_value(a) } else { None })
    } else if kind == "boolean"@ {
        with_rule(kind, if a == "true"@ || a == "false"@ { primitive_value(a) } else { None })
    } else if kind == "include"@ || kind == "semver"@ {
        with_rule(kind, string_value(a))
    } else {
        None
    }
}

/// The kinds written with an argument before the example.
pub open spec fn takes_argument(kind: Seq<char>) -> bool {
    kind == "regex"@ || kind == "datetime"@ || kind == "date"@ || kind == "time"@ || kind == "contentType"@
}

/// `matching(<kind>, '<arg>', <a>)`.
pub open spec fn matching_three(kind: Seq<char>, arg: Seq<char>, a: Seq<char>) -> Option<(Seq<char>, JsonV)> {
    if takes_argument(kind) && quoted_text(arg) is Some {
        with_rule(kind, string_value(a))
    } else {
        None
    }
}

/// The arguments of `matching(..)`, split at the commas outside quotes.
pub open spec fn matching_args(inner: Seq<char>) -> Option<(Seq<char>, JsonV)> {
    let c1 = next_comma(inner, 0, false);
    if c1 >= inner.len() {
        None
    } else {
        let kind = trim(inner.subrange(0, c1));
        let c2 = next_comma(inner, c1 + 1, false);
        if c2 >= inner.len() {
            matching_two(kind, trim(inner.subrange(c1 + 1, inner.len() as int)))
        } else {
            matching_three(
                kind,
                trim(inner.subrange(c1 + 1, c2)),
                trim(inner.subrange(c2 + 1, inner.len() as int)),
            )
        }
    }
}

/// What is between `<name>(` and the closing `)` of `s`.
pub open spec fn call_inner(s: Seq<char>, name: Seq<char>) -> Option<Seq<char>> {
    match strip_prefix(s, name) {
        Some(rest) => if rest.len() > 0 && rest[rest.len() - 1] == ')' {
            Some(rest.subrange(0, rest.len() - 1))
        } else {
            None
        },
        None => None,
    }
}

/// The matcher type and example value a string defines, if it is one of the
/// forms above (spaces around each argument allowed).
pub open spec fn matcher_def(s: Seq<char>) -> Option<(Seq<char>, JsonV)> {
    match call_inner(s, "notEmpty("@) {
        Some(inner) => with_rule("notEmpty"@, primitive_value(trim(inner))),
        None => match call_inner(s, "matching("@) {
            Some(inner) => matching_args(inner),
            None => None,
        },
    }
}

proof fn lemma_skip_spaces(s: Seq<char>, i: int)
    requires
        0 <= i <= s.len(),
    ensures
        i <= skip_spaces(s, i) <= s.len(),
    decreases s.len() - i,
{
    if i < s.len() && s[i] == ' ' {
        lemma_skip_spaces(s, i + 1);
    }
}

proof fn lemma_back_spaces(s: Seq<char>, lo: int, j: int)
    requires
        0 <= lo <= j <= s.len(),
    ensures
        lo <= back_spaces(s, lo, j) <= j,
    decreases j - lo,
{
    if lo < j && s[j - 1] == ' ' {
        lemma_back_spaces(s, lo, j - 1);
    }
}

fn trim_str(t: &str) -> (r: &str)
    ensures
        r@ == trim(t@),
{
    let n = t.unicode_len();
    let mut lo: usize = 0;
    while lo < n && t.get_char(lo) == ' '
        invariant
            n == t@.len(),
            lo <= n,
            skip_spaces(t@, lo as int) == skip_spaces(t@, 0),
        decreases n - lo,
    {
        lo = lo + 1;
    }
    let mut hi: usize = n;
    while lo < hi && t.get_char(hi - 1) == ' '
        invariant
            n == t@.len(),
            lo <= hi <= n,
            lo == skip_spaces(t@, 0),
            back_spaces(t@, lo as int, hi as int) == back_spaces(t@, lo as int, n as int),
        decreases hi,
    {
        hi = hi - 1;
    }
    t.substring_char(lo, hi)
}

fn first_char_exec(t: &str, c: char) -> (r: Option<usize>)
    ensures
        match r {
            Some(k) => first_char(t@, c, 0) == Some(k as int) && k < t@.len(),
            None => first_char(t@, c, 0) is None,
        },
{
    let n = t.unicode_len();
    let mut k: usize = 0;
    while k < n
        invariant
            n == t@.len(),
            k <= n,
            first_char(t@, c, k as int) == first_char(t@, c, 0),
        decreases n - k,
    {
        if t.get_char(k) == c {
            return Some(k);
        }
        k = k + 1;
    }
    None
}

proof fn lemma_next_comma(s: Seq<char>, i: int, quoted: bool)
    requires
        0 <= i <= s.len(),
    ensures
        i <= next_comma(s, i, quoted) <= s.len(),
    decreases s.len() - i,
{
    if i < s.len() {
        lemma_next_comma(s, i + 1, !quoted);
        lemma_next_comma(s, i + 1, quoted);
    }
}

fn next_comma_exec(t: &str, from: usize) -> (r: usize)
    requires
        from <= t@.len(),
    ensures
        r == next_comma(t@, from as int, false),
        from <= r <= t@.len(),
{
    proof {
        lemma_next_comma(t@, from as int, false);
    }
    let n = t.unicode_len();
    let mut k: usize = from;
    let mut quoted = false;
    while k < n
        invariant
            n == t@.len(),
            from <= k <= n,
            next_comma(t@, k as int, quoted) == next_comma(t@, from as int, false),
        decreases n - k,
    {
        let c = t.get_char(k);
        if !quoted && c == ',' {
            return k;
        }
        if c == '\'' {
            quoted = !quoted;
        }
        k = k + 1;
    }
    n
}

fn quoted_text_exec(t: &str) -> (r: Option<&str>)
    ensures
        match r {
            Some(x) => quoted_text(t@) == Some(x@),
            None => quoted_text(t@) is None,
        },
{
    let n = t.unicode_len();
    if n >= 2 && t.get_char(0) == '\'' && t.get_char(n - 1) == '\'' {
        let mut k: usize = 1;
        while k < n - 1 && t.get_char(k) != '\''
            invariant
                n == t@.len(),
                n >= 2,
                1 <= k <= n - 1,
                forall|i: int| 1 <= i < k ==> #[trigger] t@[i] != '\'',
            decreases n - k,
        {
            k = k + 1;
        }
        if k == n - 1 {
            return Some(t.substring_char(1, n - 1));
        }
    }
    None
}

fn all_digits_exec(t: &str, lo: usize, hi: usize) -> (r: bool)
    requires
        hi <= t@.len(),
    ensures
        r == all_digits(t@, lo as int, hi as int),
{
    if lo >= hi {
        return false;
    }
    let mut k: usize = lo;
    while k < hi
        invariant
            hi <= t@.len(),
            lo <= k <= hi,
            forall|i: int| lo <= i < k ==> '0' <= #[trigger] t@[i] <= '9',
        decreases hi - k,
    {
        let c = t.get_char(k);
        if !('0' <= c && c <= '9') {
            return false;
        }
        k = k + 1;
    }
    true
}

fn sign_len_exec(t: &str) -> (r: usize)
    ensures
        r == sign_len(t@),
{
    if t.unicode_len() > 0 && t.get_char(0) == '-' {
        1
    } else {
        0
    }
}

fn is_int_lexeme_exec(t: &str) -> (r: bool)
    ensures
        r == is_int_lexeme(t@),
{
    all_digits_exec(t, sign_len_exec(t), t.unicode_len())
}

fn is_decimal_lexeme_exec(t: &str) -> (r: bool)
    ensures
        r == is_decimal_lexeme(t@),
{
    let n = t.unicode_len();
    match first_char_exec(t, '.') {
        Some(d) => all_digits_exec(t, sign_len_exec(t), d) && all_digits_exec(t, d + 1, n),
        None => false,
    }
}

/// The model of an optional owned value.
pub open spec fn owned_json(o: Option<Json>) -> Option<JsonV> {
    match o {
        Some(j) => Some(j@),
        None => None,
    }
}

fn number_value_exec(t: &str) -> (r: Option<Json>)
    ensures
        owned_json(r) == number_value(t@),
{
    if is_int_lexeme_exec(t) || is_decimal_lexeme_exec(t) {
        match canonical_number(t) {
            Some(c) => Some(Json::Number(c)),
            None => None,
        }
    } else {
        None
    }
}

fn primitive_value_exec(t: &str) -> (r: Option<Json>)
    ensures
        owned_json(r) == primitive_value(t@),
{
    match quoted_text_exec(t) {
        Some(x) => Some(Json::Str(String::from_str(x))),
        None => if t.eq("true") {
            Some(Json::Bool(true))
        } else if t.eq("false") {
            Some(Json::Bool(false))
        } else if t.eq("null") {
            Some(Json::Null)
        } else {
            number_value_exec(t)
        },
    }
}

fn string_value_exec(t: &str) -> (r: Option<Json>)
    ensures
        owned_json(r) == string_value(t@),
{
    match quoted_text_exec(t) {
        Some(x) => Some(Json::Str(String::from_str(x))),
        None => None,
    }
}

fn with_rule_exec(rule: &str, v: Option<Json>) -> (r: Option<(String, Json)>)
    ensures
        match r {
            Some(d) => with_rule(rule@, owned_json(v)) == Some((d.0@, d.1@)),
            None => with_rule(rule@, owned_json(v)) is None,
        },
{
    match v {
        Some(x) => Some((String::from_str(rule), x)),
        None => None,
    }
}

fn matching_two_exec(kind: &str, a: &str) -> (r: Option<(String, Json)>)
    ensures
        match r {
            Some(d) => matching_two(kind@, a@) == Some((d.0@, d.1@)),
            None => matching_two(kind@, a@) is None,
        },
{
    if kind.eq("type") {
        with_rule_exec(kind, primitive_value_exec(a))
    } else if kind.eq("equalTo") {
        with_rule_exec("equality", primitive_value_exec(a))
    } else if kind.eq("number") {
        with_rule_exec(kind, number_value_exec(a))
    } else if kind.eq("integer") {
        with_rule_exec(kind, if is_int_lexeme_exec(a) { number_value_exec(a) } else { None })
    } else if kind.eq("decimal") {
        with_rule_exec(kind, if is_decimal_lexeme_exec(a) { number_value_exec(a) } else { None })
    } else if kind.eq("boolean") {
        with_rule_exec(kind, if a.eq("true") || a.eq("false") { primitive_value_exec(a) } else { None })
    } else if kind.eq("include") || kind.eq("semver") {
        with_rule_exec(kind, string_value_exec(a))
    } else {
        None
    }
}

fn matching_three_exec(kind: &str, arg: &str, a: &str) -> (r: Option<(String, Json)>)
    ensures
        match r {
            Some(d) => matching_three(kind@, arg@, a@) == Some((d.0@, d.1@)),
            None => matching_three(kind@, arg@, a@) is None,
        },
{
    let takes = kind.eq("regex") || kind.eq("datetime") || kind.eq("date") || kind.eq("time") || kind.eq("contentType");
    if takes && quoted_text_exec(arg).is_some() {
        with_rule_exec(kind, string_value_exec(a))
    } else {
        None
    }
}

fn call_inner_exec<'a>(s: &'a str, name: &str) -> (r: Option<&'a str>)
    ensures
        match r {
            Some(x) => call_inner(s@, name@) == Some(x@),
            None => call_inner(s@, name@) is None,
        },
{
    match strip_prefix_str(s, name) {
        Some(rest) => {
            let n = rest.unicode_len();
            if n > 0 && rest.get_char(n - 1) == ')' {
                Some(rest.substring_char(0, n - 1))
            } else {
                None
            }
        },
        None => None,
    }
}

/// The matcher type and example value a string defines (see `matcher_def`).
pub fn parse_matcher(s: &str) -> (r: Option<(String, Json)>)
    ensures
        match r {
            Some(d) => matcher_def(s@) == Some((d.0@, d.1@)),
            None => matcher_def(s@) is None,
        },
{
    match call_inner_exec(s, "notEmpty(") {
        Some(inner) => {
            return with_rule_exec("notEmpty", primitive_value_exec(trim_str(inner)));
        },
        None => {},
    }
    let inner = match call_inner_exec(s, "matching(") {
        Some(inner) => inner,
        None => {
            return None;
        },
    };
    let m = inner.unicode_len();
    let c1 = next_comma_exec(inner, 0);
    if c1 >= m {
        return None;
    }
    let kind = trim_str(inner.substring_char(0, c1));
    let c2 = next_comma_exec(inner, c1 + 1);
    if c2 >= m {
        matching_two_exec(kind, trim_str(inner.substring_char(c1 + 1, m)))
    } else {
        matching_three_exec(kind, trim_str(inner.substring_char(c1 + 1, c2)), trim_str(inner.substring_char(c2 + 1, m)))
    }
}

/// A body with every inline matcher replaced by its example, and the rules
/// the matchers stand for: (path, type), paths rooted at `path` as the
/// structural comparison writes them.
pub open spec fn strip(path: Seq<char>, v: JsonV) -> (JsonV, Seq<(Seq<char>, Seq<char>)>)
    decreases v, 0nat, 0nat,
{
    match v {
        JsonV::Str(s) => match matcher_def(s) {
            Some(d) => (d.1, seq![(path, d.0)]),
            None => (v, Seq::empty()),
        },
        JsonV::Object(e) => {
            let r = strip_entries(path, e, e.len() as int);
            (JsonV::Object(r.0), r.1)
        },
        JsonV::Array(a) => {
            let r = strip_items(path, a, a.len() as int);
            (JsonV::Array(r.0), r.1)
        },
        _ => (v, Seq::empty()),
    }
}

/// The first `n` entries of an object, stripped, and their rules in order.
pub open spec fn strip_entries(path: Seq<char>, e: Seq<(Seq<char>, JsonV)>, n: int) -> (
    Seq<(Seq<char>, JsonV)>,
    Seq<(Seq<char>, Seq<char>)>,
)
    decreases e, 1nat, n,
{
    if n <= 0 || n > e.len() {
        (Seq::empty(), Seq::empty())
    } else {
        let p = strip_entries(path, e, n - 1);
        let c = strip(path + "."@ + e[n - 1].0, e[n - 1].1);
        (p.0.push((e[n - 1].0, c.0)), p.1 + c.1)
    }
}

/// The first `n` elements of an array, stripped, and their rules in order.
pub open spec fn strip_items(path: Seq<char>, a: Seq<JsonV>, n: int) -> (Seq<JsonV>, Seq<(Seq<char>, Seq<char>)>)
    decreases a, 1nat, n,
{
    if n <= 0 || n > a.len() {
        (Seq::empty(), Seq::empty())
    } else {
        let p = strip_items(path, a, n - 1);
        let c = strip(path + "["@ + nat_text((n - 1) as nat) + "]"@, a[n - 1]);
        (p.0.push(c.0), p.1 + c.1)
    }
}

/// Replaces each inline matcher of a body by its example and appends the
/// rules they stand for.
#[verifier::loop_isolation(false)]
pub fn strip_matchers(path: &str, v: &Json, rules: &mut Vec<(String, String)>) -> (r: Json)
    ensures
        r@ == strip(path@, v@).0,
        pairs_view(final(rules)@) == pairs_view(old(rules)@) + strip(path@, v@).1,
    decreases v,
{
    let ghost start = pairs_view(rules@);
    match v {
        Json::Str(s) => match parse_matcher(s.as_str()) {
            Some(d) => {
                let ghost dv = (d.0@, d.1@);
                let ghost prev = rules@;
                rules.push((String::from_str(path), d.0));
                assert(pairs_view(rules@) =~= start + seq![(path@, dv.0)]);
                d.1
            },
            None => {
                assert(pairs_view(rules@) =~= start + Seq::<(Seq<char>, Seq<char>)>::empty());
                v.copy()
            },
        },
        Json::Object(e) => {
            proof {
                lemma_entries_view(e@);
            }
            let ghost ev = entries_view(e@);
            let mut out: Vec<(String, Json)> = Vec::new();
            let mut i: usize = 0;
            assert(pairs_view(rules@) =~= start + strip_entries(path@, ev, 0).1);
            while i < e.len()
                invariant
                    i <= e.len(),
                    ev == entries_view(e@),
                    ev.len() == e@.len(),
                    entries_view(out@) == strip_entries(path@, ev, i as int).0,
                    pairs_view(rules@) == start + strip_entries(path@, ev, i as int).1,
                decreases e.len() - i,
            {
                proof {
                    assert(decreases_to!(*v => (*v)->Object_0));
                    assert(decreases_to!(*e => e@));
                    assert(decreases_to!(e@[i as int] => e@[i as int].1));
                }
                let child = cat3(path, ".", e[i].0.as_str());
                let c = strip_matchers(child.as_str(), &e[i].1, rules);
                let ghost prev = out@;
                out.push((e[i].0.clone(), c));
                proof {
                    assert(out@.drop_last() == prev);
                    assert(ev[i as int] == (e@[i as int].0@, e@[i as int].1@));
                }
                i = i + 1;
            }
            Json::Object(out)
        },
        Json::Array(a) => {
            proof {
                lemma_items_view(a@);
            }
            let ghost av = items_view(a@);
            let mut out: Vec<Json> = Vec::new();
            let mut i: usize = 0;
            assert(pairs_view(rules@) =~= start + strip_items(path@, av, 0).1);
            while i < a.len()
                invariant
                    i <= a.len(),
                    av == items_view(a@),
                    av.len() == a@.len(),
                    items_view(out@) == strip_items(path@, av, i as int).0,
                    pairs_view(rules@) == start + strip_items(path@, av, i as int).1,
                decreases a.len() - i,
            {
                proof {
                    assert(decreases_to!(*v => (*v)->Array_0));
                    assert(decreases_to!(*a => a@));
                }
                let idx = usize_text(i);
                let child = cat4(path, "[", idx.as_str(), "]");
                let c = strip_matchers(child.as_str(), &a[i], rules);
                let ghost prev = out@;
                out.push(c);
                proof {
                    assert(out@.drop_last() == prev);
                    assert(av[i as int] == a@[i as int]@);
                }
                i = i + 1;
            }
            Json::Array(out)
        },
        _ => {
            assert(pairs_view(rules@) =~= start + Seq::<(Seq<char>, Seq<char>)>::empty());
            v.copy()
        },
    }
}

} // verus!
