//! The JSON value model every comparison runs over.
//!
//! `Json` is the executable value; `JsonV` is its mathematical model, with
//! strings as `Seq<char>`. A number is held as its canonical decimal text (the
//! text the JSON library prints for it), so two numbers are equal exactly when
//! their texts are. Objects are lists of entries; a lookup finds the first
//! entry with the key.
//!
//! Since an object keeps its entries in the order given, everything that
//! walks an object (the order of reported mismatches, "the first entry" of
//! an object) follows that order. A value converted from serde_json's
//! default map comes with its keys sorted, and then these orders are the
//! sorted ones.
use vstd::prelude::*;

verus! {

/// `str` equality (std's `impl PartialEq for str`): two string slices are
/// equal exactly when they hold the same sequence of characters.
pub assume_specification[ <str as PartialEq>::eq ](a: &str, b: &str) -> (r: bool)
    ensures
        r == (a@ == b@),
;

#[verifier::external_type_specification]
#[verifier::external_body]
pub struct ExSerdeValue(serde_json::Value);

/// Name for the compact JSON text that serde_json prints (`Display` for
/// `serde_json::Value`) for the value that a `Json` converts to.
pub uninterp spec fn json_text(v: JsonV) -> Seq<char>;

/// `serde_json::Value::Null`.
#[verifier::external_body]
fn serde_null() -> serde_json::Value {
    serde_json::Value::Null
}

/// `serde_json::Value::Bool`.
#[verifier::external_body]
fn serde_bool(b: bool) -> serde_json::Value {
    serde_json::Value::Bool(b)
}

/// serde_json's parser (`serde_json::from_str`) on a number's text; `null`
/// where the text is not JSON.
#[verifier::external_body]
fn serde_number(text: &str) -> serde_json::Value {
    serde_json::from_str(text).unwrap_or(serde_json::Value::Null)
}

/// The text serde_json prints for the number it reads from `s` (its
/// `Number` parser, then its printer); none where `s` does not read as a
/// number. Named, not stated: a function of the text alone.
pub uninterp spec fn number_text(s: Seq<char>) -> Option<Seq<char>>;

/// `s.parse::<serde_json::Number>()`, printed with `Number`'s `Display`.
#[verifier::external_body]
pub(crate) fn canonical_number(s: &str) -> (r: Option<String>)
    ensures
        match r {
            Some(t) => number_text(s@) == Some(t@),
            None => number_text(s@) is None,
        },
{
    match s.parse::<serde_json::Number>() {
        Ok(n) => Some(n.to_string()),
        Err(_) => None,
    }
}

/// `serde_json::Value::String`.
#[verifier::external_body]
fn serde_string(s: &str) -> serde_json::Value {
    serde_json::Value::String(s.to_string())
}

/// `serde_json::Value::Array`.
#[verifier::external_body]
fn serde_array(items: Vec<serde_json::Value>) -> serde_json::Value {
    serde_json::Value::Array(items)
}

/// `serde_json::Value::Object`, its map collected from the entries.
#[verifier::external_body]
fn serde_object(entries: Vec<(String, serde_json::Value)>) -> serde_json::Value {
    serde_json::Value::Object(entries.into_iter().collect())
}

/// The `serde_json::Value` a `Json` stands for, node for node (a number is
/// read back from its text). Nothing is stated of the result: it is only
/// handed to serde_json.
#[verifier::loop_isolation(false)]
pub(crate) fn to_serde_value(j: &Json) -> serde_json::Value
    decreases j,
{
    match j {
        Json::Null => serde_null(),
        Json::Bool(b) => serde_bool(*b),
        Json::Number(n) => serde_number(n.as_str()),
        Json::Str(s) => serde_string(s.as_str()),
        Json::Array(a) => {
            let mut out: Vec<serde_json::Value> = Vec::new();
            let mut i: usize = 0;
            while i < a.len()
                invariant
                    i <= a.len(),
                decreases a.len() - i,
            {
                proof {
                    assert(decreases_to!(*j => (*j)->Array_0));
                    assert(decreases_to!(*a => a@));
                }
                out.push(to_serde_value(&a[i]));
                i = i + 1;
            }
            serde_array(out)
        },
        Json::Object(o) => {
            let mut out: Vec<(String, serde_json::Value)> = Vec::new();
            let mut i: usize = 0;
            while i < o.len()
                invariant
                    i <= o.len(),
                decreases o.len() - i,
            {
                proof {
                    assert(decreases_to!(*j => (*j)->Object_0));
                    assert(decreases_to!(*o => o@));
                    assert(decreases_to!(o@[i as int] => o@[i as int].1));
                }
                out.push((o[i].0.clone(), to_serde_value(&o[i].1)));
                i = i + 1;
            }
            serde_object(out)
        },
    }
}

/// serde_json's `Value::to_string` (its `Display`, the compact JSON text).
/// The contract names the text by the value's model and says no more: the
/// same value always renders to the same text.
#[verifier::external_body]
pub(crate) fn render_json(j: &Json) -> (r: String)
    ensures
        r@ == json_text(j@),
{
    to_serde_value(j).to_string()
}

/// An executable JSON value.
#[derive(Debug, PartialEq)]
pub enum Json {
    Null,
    Bool(bool),
    Number(String),
    Str(String),
    Array(Vec<Json>),
    Object(Vec<(String, Json)>),
}

/// The mathematical model of a JSON value.
pub enum JsonV {
    Null,
    Bool(bool),
    Number(Seq<char>),
    Str(Seq<char>),
    Array(Seq<JsonV>),
    Object(Seq<(Seq<char>, JsonV)>),
}

pub open spec fn json_view(j: Json) -> JsonV
    decreases j, 0nat,
{
    match j {
        Json::Null => JsonV::Null,
        Json::Bool(b) => JsonV::Bool(b),
        Json::Number(n) => JsonV::Number(n@),
        Json::Str(s) => JsonV::Str(s@),
        Json::Array(a) => JsonV::Array(items_view(a@)),
        Json::Object(o) => JsonV::Object(entries_view(o@)),
    }
}

pub open spec fn items_view(s: Seq<Json>) -> Seq<JsonV>
    decreases s, 1nat,
{
    if s.len() == 0 {
        Seq::empty()
    } else {
        items_view(s.drop_last()).push(json_view(s.last()))
    }
}

pub open spec fn entries_view(s: Seq<(String, Json)>) -> Seq<(Seq<char>, JsonV)>
    decreases s, 1nat,
{
    if s.len() == 0 {
        Seq::empty()
    } else {
        entries_view(s.drop_last()).push((s.last().0@, json_view(s.last().1)))
    }
}

impl View for Json {
    type V = JsonV;

    open spec fn view(&self) -> JsonV {
        json_view(*self)
    }
}

/// `items_view` keeps length and maps each element to its view.
pub proof fn lemma_items_view(s: Seq<Json>)
    ensures
        items_view(s).len() == s.len(),
        forall|i: int| 0 <= i < s.len() ==> #[trigger] items_view(s)[i] == json_view(s[i]),
    decreases s.len(),
{
    if s.len() > 0 {
        lemma_items_view(s.drop_last());
    }
}

/// `entries_view` keeps length and maps each entry to its view.
pub proof fn lemma_entries_view(s: Seq<(String, Json)>)
    ensures
        entries_view(s).len() == s.len(),
        forall|i: int|
            0 <= i < s.len() ==> #[trigger] entries_view(s)[i] == (s[i].0@, json_view(s[i].1)),
    decreases s.len(),
{
    if s.len() > 0 {
        lemma_entries_view(s.drop_last());
    }
}

/// The value of the first entry whose key is `key`, looking from index `i` on.
pub open spec fn lookup_from(e: Seq<(Seq<char>, JsonV)>, key: Seq<char>, i: int) -> Option<JsonV>
    decreases e.len() - i,
{
    if i < 0 || i >= e.len() {
        None
    } else if e[i].0 == key {
        Some(e[i].1)
    } else {
        lookup_from(e, key, i + 1)
    }
}

/// The value of the first entry whose key is `key`.
pub open spec fn lookup(e: Seq<(Seq<char>, JsonV)>, key: Seq<char>) -> Option<JsonV> {
    lookup_from(e, key, 0)
}

/// `v.get(key)`: the member `key` of an object; `None` for any other value.
pub open spec fn jget(v: JsonV, key: Seq<char>) -> Option<JsonV> {
    match v {
        JsonV::Object(e) => lookup(e, key),
        _ => None,
    }
}

/// JSON equality: scalars by value, arrays element by element, objects as
/// maps (same number of entries, each key of the first found in the second
/// with an equal value).
pub open spec fn json_eq(a: JsonV, b: JsonV) -> bool
    decreases a, 0nat, 0nat,
{
    match a {
        JsonV::Null => b is Null,
        JsonV::Bool(x) => b matches JsonV::Bool(y) && x == y,
        JsonV::Number(x) => b matches JsonV::Number(y) && x == y,
        JsonV::Str(x) => b matches JsonV::Str(y) && x == y,
        JsonV::Array(xs) => b matches JsonV::Array(ys) && xs.len() == ys.len() && items_eq_from(xs, ys, 0),
        JsonV::Object(xe) => b matches JsonV::Object(ye) && xe.len() == ye.len() && entries_eq_from(xe, ye, 0),
    }
}

pub open spec fn items_eq_from(xs: Seq<JsonV>, ys: Seq<JsonV>, i: int) -> bool
    decreases xs, 1nat, xs.len() - i,
{
    if i < 0 || i >= xs.len() || i >= ys.len() {
        true
    } else {
        json_eq(xs[i], ys[i]) && items_eq_from(xs, ys, i + 1)
    }
}

pub open spec fn entries_eq_from(xe: Seq<(Seq<char>, JsonV)>, ye: Seq<(Seq<char>, JsonV)>, i: int) -> bool
    decreases xe, 1nat, xe.len() - i,
{
    if i < 0 || i >= xe.len() {
        true
    } else {
        match lookup(ye, xe[i].0) {
            Some(w) => json_eq(xe[i].1, w) && entries_eq_from(xe, ye, i + 1),
            None => false,
        }
    }
}

/// Well-formed: no object (at any depth) holds a key twice, as in every value
/// that comes from JSON text.
pub open spec fn json_wf(v: JsonV) -> bool
    decreases v, 0nat, 0nat,
{
    match v {
        JsonV::Object(e) => keys_unique(e) && wf_entries(e, e.len() as int),
        JsonV::Array(a) => wf_items(a, a.len() as int),
        _ => true,
    }
}

/// No key occurs twice among the entries.
pub open spec fn keys_unique(e: Seq<(Seq<char>, JsonV)>) -> bool {
    forall|i: int, j: int| 0 <= i < j < e.len() ==> #[trigger] e[i].0 != #[trigger] e[j].0
}

pub open spec fn wf_entries(e: Seq<(Seq<char>, JsonV)>, n: int) -> bool
    decreases e, 1nat, n,
{
    if n <= 0 || n > e.len() {
        true
    } else {
        wf_entries(e, n - 1) && json_wf(e[n - 1].1)
    }
}

pub open spec fn wf_items(a: Seq<JsonV>, n: int) -> bool
    decreases a, 1nat, n,
{
    if n <= 0 || n > a.len() {
        true
    } else {
        wf_items(a, n - 1) && json_wf(a[n - 1])
    }
}

proof fn lemma_wf_entries(e: Seq<(Seq<char>, JsonV)>, n: int, k: int)
    requires
        wf_entries(e, n),
        0 <= k < n <= e.len(),
    ensures
        json_wf(e[k].1),
    decreases n,
{
    if k < n - 1 {
        lemma_wf_entries(e, n - 1, k);
    }
}

proof fn lemma_wf_items(a: Seq<JsonV>, n: int, k: int)
    requires
        wf_items(a, n),
        0 <= k < n <= a.len(),
    ensures
        json_wf(a[k]),
    decreases n,
{
    if k < n - 1 {
        lemma_wf_items(a, n - 1, k);
    }
}

/// With unique keys, looking up the key of entry `k` finds entry `k`.
pub proof fn lemma_lookup_unique(e: Seq<(Seq<char>, JsonV)>, k: int)
    requires
        keys_unique(e),
        0 <= k < e.len(),
    ensures
        lookup(e, e[k].0) == Some(e[k].1),
{
    lemma_lookup_from_unique(e, k, 0);
}

proof fn lemma_lookup_from_unique(e: Seq<(Seq<char>, JsonV)>, k: int, i: int)
    requires
        keys_unique(e),
        0 <= i <= k < e.len(),
    ensures
        lookup_from(e, e[k].0, i) == Some(e[k].1),
    decreases k - i,
{
    if i < k {
        assert(e[i].0 != e[k].0);
        lemma_lookup_from_unique(e, k, i + 1);
    }
}

proof fn lemma_lookup_from_wf(e: Seq<(Seq<char>, JsonV)>, key: Seq<char>, i: int)
    requires
        wf_entries(e, e.len() as int),
        0 <= i,
    ensures
        lookup_from(e, key, i) matches Some(x) ==> json_wf(x),
    decreases e.len() - i,
{
    if i < e.len() {
        if e[i].0 == key {
            lemma_wf_entries(e, e.len() as int, i);
        } else {
            lemma_lookup_from_wf(e, key, i + 1);
        }
    }
}

/// A member of a well-formed value is well-formed.
pub proof fn lemma_member_wf(v: JsonV, key: Seq<char>)
    requires
        json_wf(v),
    ensures
        jget(v, key) matches Some(x) ==> json_wf(x),
{
    if let JsonV::Object(e) = v {
        lemma_lookup_from_wf(e, key, 0);
    }
}

/// An element of a well-formed array is well-formed.
pub proof fn lemma_element_wf(v: JsonV, k: int)
    requires
        json_wf(v),
        v is Array,
        0 <= k < v->Array_0.len(),
    ensures
        json_wf(v->Array_0[k]),
{
    lemma_wf_items(v->Array_0, v->Array_0.len() as int, k);
}

/// Every well-formed value is JSON-equal to itself.
pub proof fn lemma_json_eq_refl(v: JsonV)
    requires
        json_wf(v),
    ensures
        json_eq(v, v),
    decreases v, 0nat, 0nat,
{
    match v {
        JsonV::Object(e) => {
            assert forall|k: int| 0 <= k < e.len() implies #[trigger] entry_found_eq(e, e, k) by {
                lemma_lookup_unique(e, k);
                lemma_wf_entries(e, e.len() as int, k);
                lemma_json_eq_refl(e[k].1);
            }
            lemma_entries_eq_from(e, e, 0);
        },
        JsonV::Array(a) => {
            assert forall|k: int| 0 <= k < a.len() implies #[trigger] json_eq(a[k], a[k]) by {
                lemma_wf_items(a, a.len() as int, k);
                lemma_json_eq_refl(a[k]);
            }
            lemma_items_eq_from(a, a, 0);
        },
        _ => {},
    }
}

/// Two values are of the same JSON kind (null, bool, number, string, array, object).
pub open spec fn same_kind(a: JsonV, b: JsonV) -> bool {
    match (a, b) {
        (JsonV::Null, JsonV::Null) => true,
        (JsonV::Bool(_), JsonV::Bool(_)) => true,
        (JsonV::Number(_), JsonV::Number(_)) => true,
        (JsonV::Str(_), JsonV::Str(_)) => true,
        (JsonV::Array(_), JsonV::Array(_)) => true,
        (JsonV::Object(_), JsonV::Object(_)) => true,
        _ => false,
    }
}

/// The string held by a value, if it is a string.
pub open spec fn jstr(v: JsonV) -> Option<Seq<char>> {
    match v {
        JsonV::Str(s) => Some(s),
        _ => None,
    }
}

/// The boolean held by a value, if it is a boolean.
pub open spec fn jbool(v: JsonV) -> Option<bool> {
    match v {
        JsonV::Bool(b) => Some(b),
        _ => None,
    }
}

/// The elements of a value, if it is an array.
pub open spec fn jarr(v: JsonV) -> Option<Seq<JsonV>> {
    match v {
        JsonV::Array(a) => Some(a),
        _ => None,
    }
}

/// The entries of a value, if it is an object.
pub open spec fn jobj(v: JsonV) -> Option<Seq<(Seq<char>, JsonV)>> {
    match v {
        JsonV::Object(e) => Some(e),
        _ => None,
    }
}

/// The view of an optional reference to a value.
pub open spec fn opt_view(o: Option<&Json>) -> Option<JsonV> {
    match o {
        Some(j) => Some(j@),
        None => None,
    }
}

/// `v.get(key)` followed by `as_str`.
pub open spec fn jget_str(v: JsonV, key: Seq<char>) -> Option<Seq<char>> {
    match jget(v, key) {
        Some(x) => jstr(x),
        None => None,
    }
}

proof fn lemma_items_eq_from(xs: Seq<JsonV>, ys: Seq<JsonV>, j: int)
    requires
        0 <= j,
        xs.len() == ys.len(),
    ensures
        items_eq_from(xs, ys, j) <==> (forall|k: int| j <= k < xs.len() ==> #[trigger] json_eq(xs[k], ys[k])),
    decreases xs.len() - j,
{
    if j < xs.len() {
        lemma_items_eq_from(xs, ys, j + 1);
        if items_eq_from(xs, ys, j) {
            assert forall|k: int| j <= k < xs.len() implies #[trigger] json_eq(xs[k], ys[k]) by {
                if k > j {
                    assert(items_eq_from(xs, ys, j + 1));
                }
            }
        }
        if forall|k: int| j <= k < xs.len() ==> #[trigger] json_eq(xs[k], ys[k]) {
            assert(json_eq(xs[j], ys[j]));
            assert forall|k: int| j + 1 <= k < xs.len() implies #[trigger] json_eq(xs[k], ys[k]) by {}
            assert(items_eq_from(xs, ys, j + 1));
        }
    }
}

/// The check that `entries_eq_from` makes on entry `k`.
pub open spec fn entry_found_eq(xe: Seq<(Seq<char>, JsonV)>, ye: Seq<(Seq<char>, JsonV)>, k: int) -> bool {
    match lookup(ye, xe[k].0) {
        Some(w) => json_eq(xe[k].1, w),
        None => false,
    }
}

proof fn lemma_entries_eq_from(xe: Seq<(Seq<char>, JsonV)>, ye: Seq<(Seq<char>, JsonV)>, j: int)
    requires
        0 <= j,
    ensures
        entries_eq_from(xe, ye, j) <==> (forall|k: int| j <= k < xe.len() ==> #[trigger] entry_found_eq(xe, ye, k)),
    decreases xe.len() - j,
{
    if j < xe.len() {
        lemma_entries_eq_from(xe, ye, j + 1);
        if entries_eq_from(xe, ye, j) {
            assert forall|k: int| j <= k < xe.len() implies #[trigger] entry_found_eq(xe, ye, k) by {
                if k > j {
                    assert(entries_eq_from(xe, ye, j + 1));
                }
            }
        } else {
            assert(!entry_found_eq(xe, ye, j) || !entries_eq_from(xe, ye, j + 1));
        }
    }
}

/// JSON equality of two values (see `json_eq`).
#[verifier::loop_isolation(false)]
pub fn json_equal(a: &Json, b: &Json) -> (r: bool)
    ensures
        r == json_eq(a@, b@),
    decreases a,
{
    match a {
        Json::Null => b.is_null(),
        Json::Bool(x) => match b {
            Json::Bool(y) => *x == *y,
            _ => false,
        },
        Json::Number(x) => match b {
            Json::Number(y) => *x == *y,
            _ => false,
        },
        Json::Str(x) => match b {
            Json::Str(y) => *x == *y,
            _ => false,
        },
        Json::Array(xs) => match b {
            Json::Array(ys) => {
                proof {
                    lemma_items_view(xs@);
                    lemma_items_view(ys@);
                }
                if xs.len() != ys.len() {
                    return false;
                }
                proof {
                    lemma_items_eq_from(items_view(xs@), items_view(ys@), 0);
                }
                let mut i: usize = 0;
                while i < xs.len()
                    invariant
                        i <= xs.len(),
                        xs.len() == ys.len(),
                        forall|k: int| 0 <= k < i ==> #[trigger] json_eq(items_view(xs@)[k], items_view(ys@)[k]),
                    decreases xs.len() - i,
                {
                    proof {
                        assert(decreases_to!(*a => (*a)->Array_0));
                        assert(decreases_to!(*xs => xs@));
                    }
                    if !json_equal(&xs[i], &ys[i]) {
                        assert(!json_eq(items_view(xs@)[i as int], items_view(ys@)[i as int]));
                        return false;
                    }
                    i = i + 1;
                }
                true
            },
            _ => false,
        },
        Json::Object(xe) => match b {
            Json::Object(ye) => {
                proof {
                    lemma_entries_view(xe@);
                    lemma_entries_view(ye@);
                    lemma_entries_eq_from(entries_view(xe@), entries_view(ye@), 0);
                }
                if xe.len() != ye.len() {
                    return false;
                }
                let mut i: usize = 0;
                while i < xe.len()
                    invariant
                        i <= xe.len(),
                        forall|k: int| 0 <= k < i ==> #[trigger] entry_found_eq(entries_view(xe@), entries_view(ye@), k),
                    decreases xe.len() - i,
                {
                    proof {
                        assert(decreases_to!(*a => (*a)->Object_0));
                        assert(decreases_to!(*xe => xe@));
                        assert(decreases_to!(xe@[i as int] => xe@[i as int].1));
                    }
                    match b.get(xe[i].0.as_str()) {
                        Some(w) => {
                            if !json_equal(&xe[i].1, w) {
                                assert(!entry_found_eq(entries_view(xe@), entries_view(ye@), i as int));
                                return false;
                            }
                        },
                        None => {
                            assert(!entry_found_eq(entries_view(xe@), entries_view(ye@), i as int));
                            return false;
                        },
                    }
                    assert(entry_found_eq(entries_view(xe@), entries_view(ye@), i as int));
                    i = i + 1;
                }
                true
            },
            _ => false,
        },
    }
}

/// Whether two values are of the same JSON kind.
pub fn same_json_kind(a: &Json, b: &Json) -> (r: bool)
    ensures
        r == same_kind(a@, b@),
{
    match (a, b) {
        (Json::Null, Json::Null) => true,
        (Json::Bool(_), Json::Bool(_)) => true,
        (Json::Number(_), Json::Number(_)) => true,
        (Json::Str(_), Json::Str(_)) => true,
        (Json::Array(_), Json::Array(_)) => true,
        (Json::Object(_), Json::Object(_)) => true,
        _ => false,
    }
}

impl Json {
    /// The member `key` of an object (the first entry with that key); `None`
    /// when the value is not an object or has no such member.
    #[verifier::loop_isolation(false)]
    pub fn get(&self, key: &str) -> (r: Option<&Json>)
        ensures
            opt_view(r) == jget(self@, key@),
    {
        match self {
            Json::Object(o) => {
                proof {
                    lemma_entries_view(o@);
                }
                let ghost e = entries_view(o@);
                let mut i: usize = 0;
                while i < o.len()
                    invariant
                        i <= o.len(),
                        e == entries_view(o@),
                        e.len() == o@.len(),
                        forall|k: int| 0 <= k < o@.len() ==> #[trigger] e[k] == (o@[k].0@, json_view(o@[k].1)),
                        lookup_from(e, key@, i as int) == lookup(e, key@),
                    decreases o.len() - i,
                {
                    if o[i].0.as_str().eq(key) {
                        return Some(&o[i].1);
                    }
                    i = i + 1;
                }
                None
            },
            _ => None,
        }
    }

    /// The string, if the value is a string.
    pub fn as_str(&self) -> (r: Option<&str>)
        ensures
            match r {
                Some(s) => jstr(self@) == Some(s@),
                None => jstr(self@) is None,
            },
    {
        match self {
            Json::Str(s) => Some(s.as_str()),
            _ => None,
        }
    }

    /// The boolean, if the value is a boolean.
    pub fn as_bool(&self) -> (r: Option<bool>)
        ensures
            r == jbool(self@),
    {
        match self {
            Json::Bool(b) => Some(*b),
            _ => None,
        }
    }

    /// The elements, if the value is an array.
    pub fn as_array(&self) -> (r: Option<&Vec<Json>>)
        ensures
            match r {
                Some(v) => jarr(self@) == Some(items_view(v@)),
                None => jarr(self@) is None,
            },
    {
        match self {
            Json::Array(a) => Some(a),
            _ => None,
        }
    }

    /// The entries, if the value is an object.
    pub fn as_object(&self) -> (r: Option<&Vec<(String, Json)>>)
        ensures
            match r {
                Some(v) => jobj(self@) == Some(entries_view(v@)),
                None => jobj(self@) is None,
            },
    {
        match self {
            Json::Object(o) => Some(o),
            _ => None,
        }
    }

    /// Whether the value is `null`.
    pub fn is_null(&self) -> (r: bool)
        ensures
            r == (self@ is Null),
    {
        match self {
            Json::Null => true,
            _ => false,
        }
    }

    /// A deep copy.
    #[verifier::loop_isolation(false)]
    pub fn copy(&self) -> (r: Json)
        ensures
            r@ == self@,
        decreases self,
    {
        match self {
            Json::Null => Json::Null,
            Json::Bool(b) => Json::Bool(*b),
            Json::Number(n) => Json::Number(n.clone()),
            Json::Str(s) => Json::Str(s.clone()),
            Json::Array(a) => {
                let mut out: Vec<Json> = Vec::new();
                let mut i: usize = 0;
                while i < a.len()
                    invariant
                        i <= a.len(),
                        items_view(out@) == items_view(a@.subrange(0, i as int)),
                    decreases a.len() - i,
                {
                    proof {
                        assert(decreases_to!(*self => (*self)->Array_0));
                        assert(decreases_to!(*a => a@));
                    }
                    let c = a[i].copy();
                    let ghost prev = out@;
                    out.push(c);
                    proof {
                        assert(a@.subrange(0, i + 1).drop_last() == a@.subrange(0, i as int));
                        assert(out@.drop_last() == prev);
                    }
                    i = i + 1;
                }
                assert(a@.subrange(0, a.len() as int) == a@);
                Json::Array(out)
            },
            Json::Object(o) => {
                let mut out: Vec<(String, Json)> = Vec::new();
                let mut i: usize = 0;
                while i < o.len()
                    invariant
                        i <= o.len(),
                        entries_view(out@) == entries_view(o@.subrange(0, i as int)),
                    decreases o.len() - i,
                {
                    proof {
                        assert(decreases_to!(*self => (*self)->Object_0));
                        assert(decreases_to!(*o => o@));
                        assert(decreases_to!(o@[i as int] => o@[i as int].1));
                    }
                    let c = o[i].1.copy();
                    let k = o[i].0.clone();
                    let ghost prev = out@;
                    out.push((k, c));
                    proof {
                        assert(o@.subrange(0, i + 1).drop_last() == o@.subrange(0, i as int));
                        assert(out@.drop_last() == prev);
                    }
                    i = i + 1;
                }
                assert(o@.subrange(0, o.len() as int) == o@);
                Json::Object(out)
            },
        }
    }
}

/// A deep copy of an object's entries.
pub fn copy_entries(o: &Vec<(String, Json)>) -> (r: Vec<(String, Json)>)
    ensures
        entries_view(r@) == entries_view(o@),
{
    let mut out: Vec<(String, Json)> = Vec::new();
    let mut i: usize = 0;
    while i < o.len()
        invariant
            i <= o.len(),
            entries_view(out@) == entries_view(o@.subrange(0, i as int)),
        decreases o.len() - i,
    {
        let c = o[i].1.copy();
        let k = o[i].0.clone();
        let ghost prev = out@;
        out.push((k, c));
        proof {
            assert(o@.subrange(0, i + 1).drop_last() == o@.subrange(0, i as int));
            assert(out@.drop_last() == prev);
        }
        i = i + 1;
    }
    assert(o@.subrange(0, o.len() as int) == o@);
    out
}

} // verus!
