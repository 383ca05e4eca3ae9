//! Auth for HTTP transports: an auth config resolves to the headers injected
//! on every HTTP request. Three kinds: `bearer`, `apiKey`, `headers`. Every
//! value supports `${ENV}` interpolation against a snapshot of the process
//! environment taken at verification time. Auth lives only on the
//! verification config and never enters the persisted interaction.
use vstd::prelude::*;
use crate::json::{Json, JsonV, jget, jstr, jget_str, entries_view, lemma_entries_view, opt_view};
use crate::text::{cat2, cat3};

verus! {

/// An auth error.
#[derive(Debug)]
pub enum AuthError {
    /// An environment variable referenced by the auth config is not set.
    MissingEnv(String),
    /// The auth config is invalid (the text says how).
    Invalid(String),
}

/// The model of an `AuthError`.
pub enum AuthErrorV {
    MissingEnv(Seq<char>),
    Invalid(Seq<char>),
}

impl View for AuthError {
    type V = AuthErrorV;

    open spec fn view(&self) -> AuthErrorV {
        match self {
            AuthError::MissingEnv(s) => AuthErrorV::MissingEnv(s@),
            AuthError::Invalid(s) => AuthErrorV::Invalid(s@),
        }
    }
}

impl AuthError {
    /// A one-line description of the error.
    pub fn message(&self) -> (r: String)
        ensures
            r@ == match self@ {
                AuthErrorV::MissingEnv(v) => "environment variable `"@ + v + "` referenced by auth config is not set"@,
                AuthErrorV::Invalid(m) => "invalid auth config: "@ + m,
            },
    {
        match self {
            AuthError::MissingEnv(v) => cat3(
                "environment variable `",
                v.as_str(),
                "` referenced by auth config is not set",
            ),
            AuthError::Invalid(m) => cat2("invalid auth config: ", m.as_str()),
        }
    }
}

/// The headers to inject on HTTP requests.
#[derive(Debug, PartialEq, Eq)]
pub struct ResolvedAuth {
    /// A bearer token (without the `Bearer ` prefix).
    pub auth_header: Option<String>,
    /// Custom headers (name, value), in order.
    pub custom_headers: Vec<(String, String)>,
}

/// The model of a `ResolvedAuth`.
pub struct ResolvedAuthV {
    pub auth_header: Option<Seq<char>>,
    pub custom_headers: Seq<(Seq<char>, Seq<char>)>,
}

/// The character sequences of a list of string pairs.
pub open spec fn pairs_view(v: Seq<(String, String)>) -> Seq<(Seq<char>, Seq<char>)> {
    v.map_values(|kv: (String, String)| (kv.0@, kv.1@))
}

impl View for ResolvedAuth {
    type V = ResolvedAuthV;

    open spec fn view(&self) -> ResolvedAuthV {
        ResolvedAuthV {
            auth_header: match self.auth_header {
                Some(s) => Some(s@),
                None => None,
            },
            custom_headers: pairs_view(self.custom_headers@),
        }
    }
}

impl Default for ResolvedAuth {
    /// No auth: no bearer token and no headers.
    fn default() -> (r: ResolvedAuth)
        ensures
            r@.auth_header is None,
            r@.custom_headers.len() == 0,
    {
        ResolvedAuth::none()
    }
}

impl ResolvedAuth {
    /// No auth: no bearer token and no headers.
    pub fn none() -> (r: ResolvedAuth)
        ensures
            r@.auth_header is None,
            r@.custom_headers.len() == 0,
    {
        ResolvedAuth { auth_header: None, custom_headers: Vec::new() }
    }
}

/// The value of the first variable named `name` in an environment snapshot.
pub open spec fn env_lookup(env: Seq<(Seq<char>, Seq<char>)>, name: Seq<char>) -> Option<Seq<char>>
    decreases env.len(),
{
    if env.len() == 0 {
        None
    } else if env[0].0 == name {
        Some(env[0].1)
    } else {
        env_lookup(env.drop_first(), name)
    }
}

/// The index of the first `${` in `s` at or after `i`.
pub open spec fn find_open(s: Seq<char>, i: int) -> Option<int>
    decreases s.len() - i,
{
    if i < 0 || i + 1 >= s.len() {
        None
    } else if s[i] == '$' && s[i + 1] == '{' {
        Some(i)
    } else {
        find_open(s, i + 1)
    }
}

/// The index of the first `}` in `s` at or after `i`.
pub open spec fn find_close(s: Seq<char>, i: int) -> Option<int>
    decreases s.len() - i,
{
    if i < 0 || i >= s.len() {
        None
    } else if s[i] == '}' {
        Some(i)
    } else {
        find_close(s, i + 1)
    }
}

/// A `${` found by `find_open` lies wholly inside the text.
pub proof fn lemma_find_open_bounds(s: Seq<char>, i: int)
    ensures
        find_open(s, i) matches Some(k) ==> i <= k && k + 1 < s.len() && s[k] == '$' && s[k + 1]
            == '{',
    decreases s.len() - i,
{
    if !(i < 0 || i + 1 >= s.len()) && !(s[i] == '$' && s[i + 1] == '{') {
        lemma_find_open_bounds(s, i + 1);
    }
}

/// A `}` found by `find_close` lies inside the text.
pub proof fn lemma_find_close_bounds(s: Seq<char>, i: int)
    ensures
        find_close(s, i) matches Some(k) ==> i <= k && k < s.len() && s[k] == '}',
    decreases s.len() - i,
{
    if !(i < 0 || i >= s.len()) && s[i] != '}' {
        lemma_find_close_bounds(s, i + 1);
    }
}

/// `${VAR}` interpolation of `rest` (a suffix of `input`, which error
/// messages quote): text outside `${...}` is copied; each `${VAR}` is
/// replaced by the variable's value; an unset variable or a `${` with no
/// closing `}` is an error.
pub open spec fn interpolate_rest(input: Seq<char>, rest: Seq<char>, env: Seq<(Seq<char>, Seq<char>)>) -> Result<
    Seq<char>,
    AuthErrorV,
>
    decreases rest.len(),
{
    match find_open(rest, 0) {
        None => Ok(rest),
        Some(start) => {
            proof {
                lemma_find_open_bounds(rest, 0);
            }
            let after = rest.subrange(start + 2, rest.len() as int);
            match find_close(after, 0) {
                None => Err(AuthErrorV::Invalid("unterminated ${ in `"@ + input + "`"@)),
                Some(end) => {
                    proof {
                        lemma_find_close_bounds(after, 0);
                    }
                    let var = after.subrange(0, end);
                    match env_lookup(env, var) {
                        None => Err(AuthErrorV::MissingEnv(var)),
                        Some(val) => match interpolate_rest(
                            input,
                            after.subrange(end + 1, after.len() as int),
                            env,
                        ) {
                            Ok(tail) => Ok(rest.subrange(0, start) + val + tail),
                            Err(e) => Err(e),
                        },
                    }
                },
            }
        },
    }
}

/// `${VAR}` interpolation of a whole string.
pub open spec fn interpolate(input: Seq<char>, env: Seq<(Seq<char>, Seq<char>)>) -> Result<Seq<char>, AuthErrorV> {
    interpolate_rest(input, input, env)
}

/// A value without `${` is returned unchanged, whatever the environment.
pub proof fn law_literal_is_unchanged(input: Seq<char>, env: Seq<(Seq<char>, Seq<char>)>)
    requires
        find_open(input, 0) is None,
    ensures
        interpolate(input, env) == Ok::<Seq<char>, AuthErrorV>(input),
{
}

proof fn lemma_find_open_at(s: Seq<char>, i: int, j: int)
    requires
        0 <= i <= j,
        j + 1 < s.len(),
        s[j] == '$',
        s[j + 1] == '{',
        forall|k: int| i <= k < j ==> s[k] != '$',
    ensures
        find_open(s, i) == Some(j),
    decreases j - i,
{
    if i < j {
        lemma_find_open_at(s, i + 1, j);
    }
}

proof fn lemma_find_close_at(s: Seq<char>, i: int, j: int)
    requires
        0 <= i <= j < s.len(),
        s[j] == '}',
        forall|k: int| i <= k < j ==> s[k] != '}',
    ensures
        find_close(s, i) == Some(j),
    decreases j - i,
{
    if i < j {
        lemma_find_close_at(s, i + 1, j);
    }
}

/// Interpolation replaces a `${VAR}` by the variable's value and keeps the
/// literal text around it; an unset variable is an error naming it, never an
/// empty value.
pub proof fn law_variable_is_substituted(
    pre: Seq<char>,
    var: Seq<char>,
    post: Seq<char>,
    env: Seq<(Seq<char>, Seq<char>)>,
)
    requires
        !pre.contains('$'),
        !var.contains('}'),
        find_open(post, 0) is None,
    ensures
        interpolate(pre + "${"@ + var + "}"@ + post, env) == match env_lookup(env, var) {
            Some(val) => Ok::<Seq<char>, AuthErrorV>(pre + val + post),
            None => Err(AuthErrorV::MissingEnv(var)),
        },
{
    reveal_strlit("${");
    reveal_strlit("}");
    let s = pre + "${"@ + var + "}"@ + post;
    let n = pre.len() as int;
    assert(s[n] == '$' && s[n + 1] == '{');
    assert forall|k: int| 0 <= k < n implies s[k] != '$' by {
        assert(s[k] == pre[k]);
    }
    lemma_find_open_at(s, 0, n);
    let after = s.subrange(n + 2, s.len() as int);
    assert(after =~= var + "}"@ + post);
    assert forall|k: int| 0 <= k < var.len() implies after[k] != '}' by {
        assert(after[k] == var[k]);
    }
    lemma_find_close_at(after, 0, var.len() as int);
    assert(after.subrange(0, var.len() as int) =~= var);
    assert(after.subrange(var.len() as int + 1, after.len() as int) =~= post);
    assert(s.subrange(0, n) =~= pre);
    assert(interpolate_rest(s, post, env) == Ok::<Seq<char>, AuthErrorV>(post));
}

fn env_lookup_exec<'b>(env: &'b Vec<(String, String)>, name: &str) -> (r: Option<&'b String>)
    ensures
        match r {
            Some(v) => env_lookup(pairs_view(env@), name@) == Some(v@),
            None => env_lookup(pairs_view(env@), name@) is None,
        },
{
    let ghost ev = pairs_view(env@);
    assert(ev.subrange(0, ev.len() as int) =~= ev);
    let mut i: usize = 0;
    while i < env.len()
        invariant
            i <= env.len(),
            ev == pairs_view(env@),
            env_lookup(ev.subrange(i as int, ev.len() as int), name@) == env_lookup(ev, name@),
        decreases env.len() - i,
    {
        let ghost tail = ev.subrange(i as int, ev.len() as int);
        assert(tail.drop_first() =~= ev.subrange(i + 1, ev.len() as int));
        if env[i].0.as_str().eq(name) {
            return Some(&env[i].1);
        }
        i = i + 1;
    }
    assert(ev.subrange(i as int, ev.len() as int).len() == 0);
    None
}

/// The index of the first `${` at or after `i`, scanning characters.
fn find_open_exec(s: &str, i: usize) -> (r: Option<usize>)
    requires
        i <= s@.len(),
    ensures
        match r {
            Some(k) => find_open(s@, i as int) == Some(k as int),
            None => find_open(s@, i as int) is None,
        },
{
    let n = s.unicode_len();
    let mut k = i;
    while k < n && n - k > 1
        invariant
            n == s@.len(),
            i <= k <= n,
            find_open(s@, k as int) == find_open(s@, i as int),
        decreases n - k,
    {
        if s.get_char(k) == '$' && s.get_char(k + 1) == '{' {
            return Some(k);
        }
        k = k + 1;
    }
    None
}

/// The index of the first `}` at or after `i`, scanning characters.
fn find_close_exec(s: &str, i: usize) -> (r: Option<usize>)
    requires
        i <= s@.len(),
    ensures
        match r {
            Some(k) => find_close(s@, i as int) == Some(k as int),
            None => find_close(s@, i as int) is None,
        },
{
    let n = s.unicode_len();
    let mut k = i;
    while k < n
        invariant
            n == s@.len(),
            i <= k <= n,
            find_close(s@, k as int) == find_close(s@, i as int),
        decreases n - k,
    {
        if s.get_char(k) == '}' {
            return Some(k);
        }
        k = k + 1;
    }
    None
}

fn interpolate_rest_exec(input: &str, rest: &str, env: &Vec<(String, String)>) -> (r: Result<String, AuthError>)
    ensures
        match r {
            Ok(s) => interpolate_rest(input@, rest@, pairs_view(env@)) == Ok::<Seq<char>, AuthErrorV>(s@),
            Err(e) => interpolate_rest(input@, rest@, pairs_view(env@)) == Err::<Seq<char>, AuthErrorV>(e@),
        },
    decreases rest@.len(),
{
    let n = rest.unicode_len();
    match find_open_exec(rest, 0) {
        None => Ok(String::from_str(rest)),
        Some(start) => {
            proof {
                lemma_find_open_bounds(rest@, 0);
            }
            let after = rest.substring_char(start + 2, n);
            let an = after.unicode_len();
            match find_close_exec(after, 0) {
                None => Err(AuthError::Invalid(cat3("unterminated ${ in `", input, "`"))),
                Some(end) => {
                    proof {
                        lemma_find_close_bounds(after@, 0);
                    }
                    let var = after.substring_char(0, end);
                    match env_lookup_exec(env, var) {
                        None => Err(AuthError::MissingEnv(String::from_str(var))),
                        Some(val) => {
                            let tail_in = after.substring_char(end + 1, an);
                            match interpolate_rest_exec(input, tail_in, env) {
                                Ok(tail) => {
                                    let head = rest.substring_char(0, start);
                                    Ok(cat3(head, val.as_str(), tail.as_str()))
                                },
                                Err(e) => Err(e),
                            }
                        },
                    }
                },
            }
        },
    }
}

/// `${VAR}` interpolation against an environment snapshot (see `interpolate`).
pub fn interpolate_env(input: &str, env: &Vec<(String, String)>) -> (r: Result<String, AuthError>)
    ensures
        match r {
            Ok(s) => interpolate(input@, pairs_view(env@)) == Ok::<Seq<char>, AuthErrorV>(s@),
            Err(e) => interpolate(input@, pairs_view(env@)) == Err::<Seq<char>, AuthErrorV>(e@),
        },
{
    interpolate_rest_exec(input, input, env)
}

/// The model of a resolution result.
pub open spec fn resolved_view(r: Result<ResolvedAuth, AuthError>) -> Result<ResolvedAuthV, AuthErrorV> {
    match r {
        Ok(a) => Ok(a@),
        Err(e) => Err(e@),
    }
}

/// The headers of no auth at all.
pub open spec fn no_auth() -> ResolvedAuthV {
    ResolvedAuthV { auth_header: None, custom_headers: Seq::empty() }
}

/// A bearer token resolves to the `auth_header`, interpolated.
pub open spec fn bearer_resolution(token: Seq<char>, env: Seq<(Seq<char>, Seq<char>)>) -> Result<
    ResolvedAuthV,
    AuthErrorV,
> {
    match interpolate(token, env) {
        Ok(t) => Ok(ResolvedAuthV { auth_header: Some(t), custom_headers: Seq::empty() }),
        Err(e) => Err(e),
    }
}

/// An API key resolves to one custom header whose value is interpolated.
pub open spec fn api_key_resolution(
    header: Seq<char>,
    value: Seq<char>,
    env: Seq<(Seq<char>, Seq<char>)>,
) -> Result<ResolvedAuthV, AuthErrorV> {
    match interpolate(value, env) {
        Ok(v) => Ok(ResolvedAuthV { auth_header: None, custom_headers: seq![(header, v)] }),
        Err(e) => Err(e),
    }
}

/// Each header's value interpolated, names and order kept; the first header
/// whose value fails gives the error.
pub open spec fn interpolate_values(
    hs: Seq<(Seq<char>, Seq<char>)>,
    env: Seq<(Seq<char>, Seq<char>)>,
) -> Result<Seq<(Seq<char>, Seq<char>)>, AuthErrorV>
    decreases hs.len(),
{
    if hs.len() == 0 {
        Ok(Seq::empty())
    } else {
        match interpolate_values(hs.drop_last(), env) {
            Err(e) => Err(e),
            Ok(done) => match interpolate(hs.last().1, env) {
                Err(e) => Err(e),
                Ok(v) => Ok(done.push((hs.last().0, v))),
            },
        }
    }
}

/// Custom headers resolve verbatim, values interpolated.
pub open spec fn headers_resolution(
    hs: Seq<(Seq<char>, Seq<char>)>,
    env: Seq<(Seq<char>, Seq<char>)>,
) -> Result<ResolvedAuthV, AuthErrorV> {
    match interpolate_values(hs, env) {
        Ok(out) => Ok(ResolvedAuthV { auth_header: None, custom_headers: out }),
        Err(e) => Err(e),
    }
}

/// Once a prefix of the headers fails, every longer prefix fails the same way.
proof fn lemma_interpolate_values_err(
    hs: Seq<(Seq<char>, Seq<char>)>,
    env: Seq<(Seq<char>, Seq<char>)>,
    j: int,
    m: int,
)
    requires
        0 <= j <= m <= hs.len(),
        interpolate_values(hs.subrange(0, j), env) is Err,
    ensures
        interpolate_values(hs.subrange(0, m), env) == interpolate_values(hs.subrange(0, j), env),
    decreases m - j,
{
    if m > j {
        lemma_interpolate_values_err(hs, env, j, m - 1);
        assert(hs.subrange(0, m).drop_last() =~= hs.subrange(0, m - 1));
    }
}

proof fn lemma_literal_values(hs: Seq<(Seq<char>, Seq<char>)>, env: Seq<(Seq<char>, Seq<char>)>)
    requires
        forall|k: int| 0 <= k < hs.len() ==> find_open(#[trigger] hs[k].1, 0) is None,
    ensures
        interpolate_values(hs, env) == Ok::<Seq<(Seq<char>, Seq<char>)>, AuthErrorV>(hs),
    decreases hs.len(),
{
    if hs.len() > 0 {
        let h0 = hs.drop_last();
        assert forall|k: int| 0 <= k < h0.len() implies find_open(#[trigger] h0[k].1, 0) is None by {
            assert(h0[k] == hs[k]);
        }
        lemma_literal_values(h0, env);
        assert(find_open(hs[hs.len() - 1].1, 0) is None);
        law_literal_is_unchanged(hs.last().1, env);
        assert(h0.push((hs.last().0, hs.last().1)) =~= hs);
    } else {
        assert(hs =~= Seq::<(Seq<char>, Seq<char>)>::empty());
    }
}

/// Custom headers without `${` resolve verbatim: same names, same values,
/// same order, whatever the environment.
pub proof fn law_literal_headers_resolve_verbatim(hs: Seq<(Seq<char>, Seq<char>)>, env: Seq<(Seq<char>, Seq<char>)>)
    requires
        forall|k: int| 0 <= k < hs.len() ==> find_open(#[trigger] hs[k].1, 0) is None,
    ensures
        headers_resolution(hs, env) == Ok::<ResolvedAuthV, AuthErrorV>(
            ResolvedAuthV { auth_header: None, custom_headers: hs },
        ),
{
    lemma_literal_values(hs, env);
}

/// Resolves auth material into the headers to inject, given a snapshot of the
/// process environment for `${VAR}` interpolation.
pub trait AuthProvider {
    /// What `resolve` gives against an environment.
    spec fn resolution(&self, env: Seq<(Seq<char>, Seq<char>)>) -> Result<ResolvedAuthV, AuthErrorV>;

    fn resolve(&self, env: &Vec<(String, String)>) -> (r: Result<ResolvedAuth, AuthError>)
        ensures
            resolved_view(r) == self.resolution(pairs_view(env@)),
    ;
}

/// `Authorization: Bearer <token>`.
#[derive(Debug)]
pub struct BearerAuth {
    pub token: String,
}

impl AuthProvider for BearerAuth {
    open spec fn resolution(&self, env: Seq<(Seq<char>, Seq<char>)>) -> Result<ResolvedAuthV, AuthErrorV> {
        bearer_resolution(self.token@, env)
    }

    fn resolve(&self, env: &Vec<(String, String)>) -> (r: Result<ResolvedAuth, AuthError>) {
        match interpolate_env(self.token.as_str(), env) {
            Ok(t) => {
                let r = ResolvedAuth { auth_header: Some(t), custom_headers: Vec::new() };
                assert(r@.custom_headers =~= Seq::<(Seq<char>, Seq<char>)>::empty());
                Ok(r)
            },
            Err(e) => Err(e),
        }
    }
}

/// A single API-key header, such as `X-API-Key: <value>`.
#[derive(Debug)]
pub struct ApiKeyAuth {
    pub header: String,
    pub value: String,
}

impl AuthProvider for ApiKeyAuth {
    open spec fn resolution(&self, env: Seq<(Seq<char>, Seq<char>)>) -> Result<ResolvedAuthV, AuthErrorV> {
        api_key_resolution(self.header@, self.value@, env)
    }

    fn resolve(&self, env: &Vec<(String, String)>) -> (r: Result<ResolvedAuth, AuthError>) {
        match interpolate_env(self.value.as_str(), env) {
            Ok(v) => {
                let mut hs: Vec<(String, String)> = Vec::new();
                hs.push((self.header.clone(), v));
                let r = ResolvedAuth { auth_header: None, custom_headers: hs };
                assert(r@.custom_headers =~= seq![(self.header@, v@)]);
                Ok(r)
            },
            Err(e) => Err(e),
        }
    }
}

/// Arbitrary custom headers.
#[derive(Debug)]
pub struct HeadersAuth {
    pub headers: Vec<(String, String)>,
}

impl AuthProvider for HeadersAuth {
    open spec fn resolution(&self, env: Seq<(Seq<char>, Seq<char>)>) -> Result<ResolvedAuthV, AuthErrorV> {
        headers_resolution(pairs_view(self.headers@), env)
    }

    fn resolve(&self, env: &Vec<(String, String)>) -> (r: Result<ResolvedAuth, AuthError>) {
        let ghost hv = pairs_view(self.headers@);
        let ghost ev = pairs_view(env@);
        let mut out: Vec<(String, String)> = Vec::new();
        let mut i: usize = 0;
        assert(hv.subrange(0, 0) =~= Seq::<(Seq<char>, Seq<char>)>::empty());
        assert(pairs_view(out@) =~= Seq::<(Seq<char>, Seq<char>)>::empty());
        while i < self.headers.len()
            invariant
                i <= self.headers.len(),
                hv == pairs_view(self.headers@),
                ev == pairs_view(env@),
                interpolate_values(hv.subrange(0, i as int), ev) == Ok::<
                    Seq<(Seq<char>, Seq<char>)>,
                    AuthErrorV,
                >(pairs_view(out@)),
            decreases self.headers.len() - i,
        {
            assert(hv.subrange(0, i + 1).drop_last() =~= hv.subrange(0, i as int));
            match interpolate_env(self.headers[i].1.as_str(), env) {
                Ok(v) => {
                    let ghost prev = out@;
                    out.push((self.headers[i].0.clone(), v));
                    assert(pairs_view(out@) =~= pairs_view(prev).push((self.headers@[i as int].0@, v@)));
                },
                Err(e) => {
                    proof {
                        lemma_interpolate_values_err(hv, ev, i + 1, hv.len() as int);
                        assert(hv.subrange(0, hv.len() as int) =~= hv);
                    }
                    return Err(e);
                },
            }
            i = i + 1;
        }
        assert(hv.subrange(0, hv.len() as int) =~= hv);
        Ok(ResolvedAuth { auth_header: None, custom_headers: out })
    }
}

/// A parsed auth config, one of the three kinds.
#[derive(Debug)]
pub enum AuthConfig {
    Bearer(BearerAuth),
    ApiKey(ApiKeyAuth),
    Headers(HeadersAuth),
}

/// The model of an `AuthConfig`.
pub enum AuthConfigV {
    Bearer { token: Seq<char> },
    ApiKey { header: Seq<char>, value: Seq<char> },
    Headers { headers: Seq<(Seq<char>, Seq<char>)> },
}

impl View for AuthConfig {
    type V = AuthConfigV;

    open spec fn view(&self) -> AuthConfigV {
        match self {
            AuthConfig::Bearer(b) => AuthConfigV::Bearer { token: b.token@ },
            AuthConfig::ApiKey(a) => AuthConfigV::ApiKey { header: a.header@, value: a.value@ },
            AuthConfig::Headers(h) => AuthConfigV::Headers { headers: pairs_view(h.headers@) },
        }
    }
}

/// What a config of each kind resolves to.
pub open spec fn config_resolution(c: AuthConfigV, env: Seq<(Seq<char>, Seq<char>)>) -> Result<
    ResolvedAuthV,
    AuthErrorV,
> {
    match c {
        AuthConfigV::Bearer { token } => bearer_resolution(token, env),
        AuthConfigV::ApiKey { header, value } => api_key_resolution(header, value, env),
        AuthConfigV::Headers { headers } => headers_resolution(headers, env),
    }
}

impl AuthProvider for AuthConfig {
    open spec fn resolution(&self, env: Seq<(Seq<char>, Seq<char>)>) -> Result<ResolvedAuthV, AuthErrorV> {
        config_resolution(self@, env)
    }

    fn resolve(&self, env: &Vec<(String, String)>) -> (r: Result<ResolvedAuth, AuthError>) {
        match self {
            AuthConfig::Bearer(b) => b.resolve(env),
            AuthConfig::ApiKey(a) => a.resolve(env),
            AuthConfig::Headers(h) => h.resolve(env),
        }
    }
}

/// The string-valued members of an object, in order; others are skipped.
pub open spec fn string_entries(e: Seq<(Seq<char>, JsonV)>) -> Seq<(Seq<char>, Seq<char>)>
    decreases e.len(),
{
    if e.len() == 0 {
        Seq::empty()
    } else {
        let rest = string_entries(e.drop_last());
        match jstr(e.last().1) {
            Some(s) => rest.push((e.last().0, s)),
            None => rest,
        }
    }
}

/// What `from_config` makes of a config value: a `type` member picks the
/// kind, whose own members must be strings (a `headers` object for
/// `headers`); anything else is `Invalid`, with the message saying what.
pub open spec fn auth_config_of(config: JsonV) -> Result<AuthConfigV, AuthErrorV> {
    match jget_str(config, "type"@) {
        None => Err(AuthErrorV::Invalid("missing `type`"@)),
        Some(kind) => if kind == "bearer"@ {
            match jget_str(config, "token"@) {
                None => Err(AuthErrorV::Invalid("bearer auth requires `token`"@)),
                Some(token) => Ok(AuthConfigV::Bearer { token }),
            }
        } else if kind == "apiKey"@ {
            match jget_str(config, "header"@) {
                None => Err(AuthErrorV::Invalid("apiKey auth requires `header`"@)),
                Some(header) => match jget_str(config, "value"@) {
                    None => Err(AuthErrorV::Invalid("apiKey auth requires `value`"@)),
                    Some(value) => Ok(AuthConfigV::ApiKey { header, value }),
                },
            }
        } else if kind == "headers"@ {
            match jget(config, "headers"@) {
                Some(JsonV::Object(e)) => Ok(AuthConfigV::Headers { headers: string_entries(e) }),
                _ => Err(AuthErrorV::Invalid("headers auth requires `headers` object"@)),
            }
        } else {
            Err(AuthErrorV::Invalid("unknown auth type `"@ + kind + "`"@))
        },
    }
}

/// The model of a `from_config` result.
pub open spec fn config_result_view(r: Result<AuthConfig, AuthError>) -> Result<AuthConfigV, AuthErrorV> {
    match r {
        Ok(c) => Ok(c@),
        Err(e) => Err(e@),
    }
}

/// The string-valued members of an object's entries.
fn collect_string_entries(o: &Vec<(String, Json)>) -> (r: Vec<(String, String)>)
    ensures
        pairs_view(r@) == string_entries(entries_view(o@)),
{
    proof {
        lemma_entries_view(o@);
    }
    let ghost e = entries_view(o@);
    let mut out: Vec<(String, String)> = Vec::new();
    let mut i: usize = 0;
    assert(e.subrange(0, 0) =~= Seq::<(Seq<char>, JsonV)>::empty());
    assert(pairs_view(out@) =~= Seq::<(Seq<char>, Seq<char>)>::empty());
    while i < o.len()
        invariant
            i <= o.len(),
            e == entries_view(o@),
            e.len() == o@.len(),
            forall|k: int| 0 <= k < o@.len() ==> #[trigger] e[k] == (o@[k].0@, o@[k].1@),
            pairs_view(out@) == string_entries(e.subrange(0, i as int)),
        decreases o.len() - i,
    {
        assert(e.subrange(0, i + 1).drop_last() =~= e.subrange(0, i as int));
        assert(e.subrange(0, i + 1).last() == e[i as int]);
        match o[i].1.as_str() {
            Some(v) => {
                let ghost prev = out@;
                out.push((o[i].0.clone(), String::from_str(v)));
                assert(pairs_view(out@) =~= pairs_view(prev).push((o@[i as int].0@, v@)));
            },
            None => {},
        }
        i = i + 1;
    }
    assert(e.subrange(0, e.len() as int) =~= e);
    out
}

/// Parses an auth config object:
/// `{"type": "bearer", "token": ..}`, `{"type": "apiKey", "header": .., "value": ..}`
/// or `{"type": "headers", "headers": {..}}`.
pub fn from_config(config: &Json) -> (r: Result<AuthConfig, AuthError>)
    ensures
        config_result_view(r) == auth_config_of(config@),
{
    let kind = match config.get("type") {
        Some(t) => t.as_str(),
        None => None,
    };
    match kind {
        None => Err(AuthError::Invalid(String::from_str("missing `type`"))),
        Some(kind) => {
            if kind.eq("bearer") {
                let token = match config.get("token") {
                    Some(t) => t.as_str(),
                    None => None,
                };
                match token {
                    None => Err(AuthError::Invalid(String::from_str("bearer auth requires `token`"))),
                    Some(token) => Ok(AuthConfig::Bearer(BearerAuth { token: String::from_str(token) })),
                }
            } else if kind.eq("apiKey") {
                let header = match config.get("header") {
                    Some(t) => t.as_str(),
                    None => None,
                };
                match header {
                    None => Err(AuthError::Invalid(String::from_str("apiKey auth requires `header`"))),
                    Some(header) => {
                        let value = match config.get("value") {
                            Some(t) => t.as_str(),
                            None => None,
                        };
                        match value {
                            None => Err(
                                AuthError::Invalid(String::from_str("apiKey auth requires `value`")),
                            ),
                            Some(value) => Ok(
                                AuthConfig::ApiKey(
                                    ApiKeyAuth {
                                        header: String::from_str(header),
                                        value: String::from_str(value),
                                    },
                                ),
                            ),
                        }
                    },
                }
            } else if kind.eq("headers") {
                let obj = match config.get("headers") {
                    Some(h) => h.as_object(),
                    None => None,
                };
                match obj {
                    Some(o) => Ok(AuthConfig::Headers(HeadersAuth { headers: collect_string_entries(o) })),
                    None => Err(
                        AuthError::Invalid(String::from_str("headers auth requires `headers` object")),
                    ),
                }
            } else {
                Err(AuthError::Invalid(cat3("unknown auth type `", kind, "`")))
            }
        },
    }
}

/// What `resolve_config` gives: no config, or `null`, is no auth; otherwise
/// the config is parsed and resolved.
pub open spec fn resolve_config_result(
    config: Option<JsonV>,
    env: Seq<(Seq<char>, Seq<char>)>,
) -> Result<ResolvedAuthV, AuthErrorV> {
    match config {
        None => Ok(no_auth()),
        Some(JsonV::Null) => Ok(no_auth()),
        Some(v) => match auth_config_of(v) {
            Err(e) => Err(e),
            Ok(c) => config_resolution(c, env),
        },
    }
}

/// Resolves an optional auth config to headers against an environment snapshot.
pub fn resolve_config(config: Option<&Json>, env: &Vec<(String, String)>) -> (r: Result<ResolvedAuth, AuthError>)
    ensures
        resolved_view(r) == resolve_config_result(opt_view(config), pairs_view(env@)),
{
    match config {
        None => {
            let r = ResolvedAuth::none();
            assert(r@.custom_headers =~= Seq::<(Seq<char>, Seq<char>)>::empty());
            Ok(r)
        },
        Some(v) => {
            if v.is_null() {
                let r = ResolvedAuth::none();
                assert(r@.custom_headers =~= Seq::<(Seq<char>, Seq<char>)>::empty());
                Ok(r)
            } else {
                match from_config(v) {
                    Ok(c) => c.resolve(env),
                    Err(e) => Err(e),
                }
            }
        },
    }
}

} // verus!
