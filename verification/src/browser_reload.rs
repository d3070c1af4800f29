//! Telling browsers to reload.

use crate::name_map::NameMap;
use vstd::prelude::*;

verus! {

/// What an environment holds.
pub open spec fn env_of(env: NameMap<String>) -> Map<Seq<char>, Seq<char>> {
    env@.map_values(|value: String| value@)
}

/// Gives a variable of an environment a value.
pub fn set_variable(env: &mut NameMap<String>, name: &str, value: &str)
    ensures
        env_of(*final(env)) == env_of(*old(env)).insert(name@, value@),
{
    let ghost before = env_of(*env);
    env.insert(name.to_owned(), value.to_owned());
    assert(env_of(*env) =~= before.insert(name@, value@));
}

/// What an optional reference points to.
pub open spec fn pointee<T>(reference: Option<&T>) -> Option<T> {
    match reference {
        Some(value) => Some(*value),
        None => None,
    }
}

/// What processes are told of the server for browser reloads.
#[derive(Debug, Clone)]
pub struct BrowserReloadEnvironment {
    pub events_url: String,
}

/// What browsers are sent.
pub const RELOAD_MESSAGE: &'static str = "reload";

/// What processes are told of a server for browser reloads that listens at an address.
pub fn reload_environment(local_addr: &str) -> (environment: BrowserReloadEnvironment)
    ensures
        environment.events_url@ == "http://"@ + local_addr@ + "/browser-events"@,
{
    BrowserReloadEnvironment {
        events_url: "http://".to_owned().concat(local_addr).concat("/browser-events"),
    }
}

/// The environment with what is told of the server for browser reloads.
pub open spec fn with_reload_env(
    env: Map<Seq<char>, Seq<char>>,
    runtime: Option<BrowserReloadEnvironment>,
) -> Map<Seq<char>, Seq<char>> {
    match runtime {
        Some(runtime) => env.insert("DEVLOOP_BROWSER_EVENTS_URL"@, runtime.events_url@),
        None => env,
    }
}

/// Tells the processes of an environment of the server for browser reloads.
pub fn apply_browser_reload_env(
    env: &mut NameMap<String>,
    runtime: Option<&BrowserReloadEnvironment>,
)
    ensures
        env_of(*final(env)) == with_reload_env(env_of(*old(env)), pointee(runtime)),
{
    if let Some(runtime) = runtime {
        set_variable(env, "DEVLOOP_BROWSER_EVENTS_URL", runtime.events_url.as_str());
    }
}

/// Processes are told where the server for browser reloads is under one variable, and of nothing
/// where there is none; every other variable stays.
pub proof fn law_only_the_address_is_told(
    env: Map<Seq<char>, Seq<char>>,
    server: BrowserReloadEnvironment,
    name: Seq<char>,
)
    ensures
        with_reload_env(env, None) == env,
        with_reload_env(env, Some(server)).contains_key("DEVLOOP_BROWSER_EVENTS_URL"@),
        with_reload_env(env, Some(server))["DEVLOOP_BROWSER_EVENTS_URL"@] == server.events_url@,
        name != "DEVLOOP_BROWSER_EVENTS_URL"@ ==> (with_reload_env(env, Some(server)).contains_key(name)
            <==> env.contains_key(name)) && (env.contains_key(name) ==> with_reload_env(
            env,
            Some(server),
        )[name] == env[name]),
{
}

} // verus!
