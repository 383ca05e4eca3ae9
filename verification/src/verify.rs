//! Provider verification: what the provider under test is spawned with, and
//! how its failures are reported. Connecting, performing the request and
//! comparing (`content::compare_response`) are driven by the application.
use vstd::prelude::*;
use crate::json::{Json, JsonV, jget, jstr, items_view, lemma_items_view, json_text, render_json};
use crate::model::McpInteraction;
use crate::auth::{AuthError, AuthErrorV, pairs_view};
use crate::transport::{TransportError, TransportErrorV, transport_message};

verus! {

/// Why verifying an interaction failed before any comparison.
#[derive(Debug)]
pub enum VerifyError {
    Transport(TransportError),
    Auth(AuthError),
}

/// The one-line description of a verification error: that of the
/// underlying error.
pub open spec fn verify_message(e: VerifyError) -> Seq<char> {
    match e {
        VerifyError::Transport(t) => transport_message(t@),
        VerifyError::Auth(a) => match a@ {
            AuthErrorV::MissingEnv(v) => "environment variable `"@ + v + "` referenced by auth config is not set"@,
            AuthErrorV::Invalid(m) => "invalid auth config: "@ + m,
        },
    }
}

impl VerifyError {
    /// A one-line description of the error: that of the underlying error.
    pub fn message(&self) -> (r: String)
        ensures
            r@ == verify_message(*self),
    {
        match self {
            VerifyError::Transport(t) => t.message(),
            VerifyError::Auth(a) => a.message(),
        }
    }
}

/// How the provider under test is spawned over stdio.
#[derive(Debug)]
pub struct StdioServerConfig {
    pub command: String,
    pub args: Vec<String>,
    /// Extra environment variables, no name twice.
    pub env: Vec<(String, String)>,
}

/// The string elements of an array, in order.
pub open spec fn string_items(items: Seq<JsonV>) -> Seq<Seq<char>>
    decreases items.len(),
{
    if items.len() == 0 {
        Seq::empty()
    } else {
        let rest = string_items(items.drop_last());
        match jstr(items.last()) {
            Some(s) => rest.push(s),
            None => rest,
        }
    }
}

/// The character sequences of a list of strings.
pub open spec fn texts(v: Seq<String>) -> Seq<Seq<char>> {
    v.map_values(|s: String| s@)
}

/// What a verification config spawns: its `command` (required) with its
/// string `args`, and no extra environment.
pub open spec fn server_config_of(config: JsonV) -> Result<(Seq<char>, Seq<Seq<char>>), Seq<char>> {
    match jget(config, "command"@) {
        Some(c) => match jstr(c) {
            Some(command) => Ok(
                (
                    command,
                    match jget(config, "args"@) {
                        Some(JsonV::Array(items)) => string_items(items),
                        _ => Seq::empty(),
                    },
                ),
            ),
            None => Err("verification config.command is required for stdio verification"@),
        },
        None => Err("verification config.command is required for stdio verification"@),
    }
}

/// Reads how to spawn the provider from a verification config.
pub fn stdio_server_config(config: &Json) -> (r: Result<StdioServerConfig, String>)
    ensures
        match r {
            Ok(c) => server_config_of(config@) == Ok::<(Seq<char>, Seq<Seq<char>>), Seq<char>>(
                (c.command@, texts(c.args@)),
            ) && c.env@.len() == 0,
            Err(e) => server_config_of(config@) == Err::<(Seq<char>, Seq<Seq<char>>), Seq<char>>(e@),
        },
{
    let command = match config.get("command") {
        Some(c) => c.as_str(),
        None => None,
    };
    let command = match command {
        Some(c) => String::from_str(c),
        None => {
            return Err(String::from_str("verification config.command is required for stdio verification"));
        },
    };
    let mut args: Vec<String> = Vec::new();
    assert(texts(args@) =~= Seq::<Seq<char>>::empty());
    match config.get("args") {
        Some(a) => match a.as_array() {
            Some(items) => {
                proof {
                    lemma_items_view(items@);
                }
                let ghost iv = items_view(items@);
                let mut i: usize = 0;
                assert(iv.subrange(0, 0) =~= Seq::<JsonV>::empty());
                assert(texts(args@) =~= Seq::<Seq<char>>::empty());
                while i < items.len()
                    invariant
                        i <= items.len(),
                        iv == items_view(items@),
                        iv.len() == items@.len(),
                        forall|k: int| 0 <= k < items@.len() ==> #[trigger] iv[k] == items@[k]@,
                        texts(args@) == string_items(iv.subrange(0, i as int)),
                    decreases items.len() - i,
                {
                    assert(iv.subrange(0, i + 1).drop_last() =~= iv.subrange(0, i as int));
                    assert(iv.subrange(0, i + 1).last() == iv[i as int]);
                    match items[i].as_str() {
                        Some(s) => {
                            let ghost prev = args@;
                            args.push(String::from_str(s));
                            assert(texts(args@) =~= texts(prev).push(s@));
                        },
                        None => {},
                    }
                    i = i + 1;
                }
                assert(iv.subrange(0, iv.len() as int) =~= iv);
            },
            None => {},
        },
        None => {},
    }
    Ok(StdioServerConfig { command, args, env: Vec::new() })
}

/// The index of the first pair named `name`, looking from `i` on.
pub open spec fn pair_index(env: Seq<(Seq<char>, Seq<char>)>, name: Seq<char>, i: int) -> Option<int>
    decreases env.len() - i,
{
    if i < 0 || i >= env.len() {
        None
    } else if env[i].0 == name {
        Some(i)
    } else {
        pair_index(env, name, i + 1)
    }
}

/// `HashMap::insert` on an environment: the variable takes the new value, or
/// is added at the end.
pub open spec fn env_set(env: Seq<(Seq<char>, Seq<char>)>, name: Seq<char>, value: Seq<char>) -> Seq<
    (Seq<char>, Seq<char>),
> {
    match pair_index(env, name, 0) {
        Some(i) => env.update(i, (name, value)),
        None => env.push((name, value)),
    }
}

/// The environment variable the provider states are handed over in.
pub const PROVIDER_STATES_VAR: &'static str = "PACT_MCP_PROVIDER_STATES";

/// The environment a provider is spawned with for an interaction: the
/// configured one, plus the interaction's provider states as JSON text when
/// it has any.
pub open spec fn provider_env_of(
    env: Seq<(Seq<char>, Seq<char>)>,
    states: Option<JsonV>,
) -> Seq<(Seq<char>, Seq<char>)> {
    match states {
        Some(s) => env_set(env, PROVIDER_STATES_VAR@, json_text(s)),
        None => env,
    }
}

fn set_env(env: &mut Vec<(String, String)>, name: String, value: String)
    ensures
        pairs_view(final(env)@) == env_set(pairs_view(old(env)@), name@, value@),
{
    let ghost ev = pairs_view(env@);
    let mut i: usize = 0;
    while i < env.len()
        invariant
            i <= env.len(),
            ev == pairs_view(env@),
            ev == pairs_view(old(env)@),
            pair_index(ev, name@, i as int) == pair_index(ev, name@, 0),
        decreases env.len() - i,
    {
        if env[i].0.as_str().eq(name.as_str()) {
            assert(ev[i as int].0 == name@);
            proof {
                assert(pairs_view(env@.update(i as int, (name, value))) =~= ev.update(i as int, (name@, value@)));
            }
            env.set(i, (name, value));
            return ;
        }
        i = i + 1;
    }
    assert(pairs_view(env@.push((name, value))) =~= ev.push((name@, value@)));
    env.push((name, value));
}

/// The environment to spawn the provider with for an interaction (one spawn
/// per interaction, so states cannot leak between interactions).
pub fn provider_env(interaction: &McpInteraction, server: &StdioServerConfig) -> (r: Vec<(String, String)>)
    ensures
        pairs_view(r@) == provider_env_of(pairs_view(server.env@), interaction@.provider_states),
{
    let mut env: Vec<(String, String)> = Vec::new();
    let mut i: usize = 0;
    while i < server.env.len()
        invariant
            i <= server.env.len(),
            env@.len() == i,
            forall|k: int| 0 <= k < i ==> #[trigger] env@[k] == server.env@[k],
        decreases server.env.len() - i,
    {
        env.push((server.env[i].0.clone(), server.env[i].1.clone()));
        i = i + 1;
    }
    assert(env@ =~= server.env@);
    match &interaction.provider_states {
        Some(states) => {
            set_env(&mut env, String::from_str(PROVIDER_STATES_VAR), render_json(states));
        },
        None => {},
    }
    env
}

} // verus!
