//! Events that are posted from outside.

use crate::browser_reload::{env_of, pointee, set_variable};
use crate::config::{Config, EventSpec};
use crate::name_map::NameMap;
use crate::patterns::{is_regex, regex_compiles, regex_is_match, regex_matches};
use crate::state::{lemma_text_written, SessionState};
use crate::text::{chars_of, same_text};
use crate::value::{Json, SessionValue};
use rand::distr::{Alphanumeric, SampleString};
use rand::rngs::StdRng;
use rand::SeedableRng;
use vstd::prelude::*;

verus! {

/// A workflow that an event asks for.
#[derive(Debug, Clone, PartialEq, Eq)]
pub struct ExternalEventMessage {
    pub workflow_name: String,
}

/// What processes are told of the server for events.
#[derive(Debug, Clone)]
pub struct ExternalEventEnvironment {
    pub base_url: String,
    pub token: String,
    pub event_urls: NameMap<String>,
}

/// An event whose pattern compiles.
#[derive(Debug, Clone)]
pub struct CompiledEventSpec {
    pub state_key: String,
    pub workflow: String,
    pub pattern: Option<String>,
}

/// Whether the pattern of an event does not compile.
pub open spec fn has_bad_pattern(event: EventSpec) -> bool {
    event.pattern is Some && !regex_compiles(event.pattern->0@)
}

/// Whether `compiled` is what is made of `event`.
pub open spec fn is_compiled_event(event: EventSpec, compiled: CompiledEventSpec) -> bool {
    &&& compiled.state_key@ == event.state_key@
    &&& compiled.workflow@ == event.workflow@
    &&& match event.pattern {
        Some(pattern) => regex_compiles(pattern@) && compiled.pattern is Some && compiled.pattern->0@
            == pattern@,
        None => compiled.pattern is None,
    }
}

/// The events ready for use. The first pattern that does not compile refuses them all.
pub fn compile_event_specs(events: &NameMap<EventSpec>) -> (result: Result<
    NameMap<CompiledEventSpec>,
    String,
>)
    ensures
        events.wf(),
        match result {
            Ok(compiled) => compiled@.dom() == events@.dom() && forall|name: Seq<char>| #[trigger]
                compiled@.contains_key(name) ==> is_compiled_event(events@[name], compiled@[name]),
            Err(pattern) => exists|i: int|
                0 <= i < events.keys().len() && has_bad_pattern(#[trigger] events.values()[i])
                    && events.values()[i].pattern->0@ == pattern@ && forall|k: int|
                    0 <= k < i ==> !has_bad_pattern(#[trigger] events.values()[k]),
        },
{
    let mut compiled: NameMap<CompiledEventSpec> = NameMap::new();
    let ghost keys = events.keys();
    let n: usize = events.len();
    let mut i: usize = 0;
    while i < n
        invariant
            events.wf(),
            i <= n == keys.len(),
            keys == events.keys(),
            forall|k: int| 0 <= k < i ==> !has_bad_pattern(#[trigger] events.values()[k]),
            forall|name: Seq<char>| #[trigger]
                compiled@.contains_key(name) <==> keys.take(i as int).contains(name),
            forall|name: Seq<char>| #[trigger]
                compiled@.contains_key(name) ==> is_compiled_event(events@[name], compiled@[name]),
        decreases n - i,
    {
        let name = events.key_at(i);
        let event = events.value_at(i);
        if let Some(pattern) = &event.pattern {
            if !is_regex(pattern.as_str()) {
                assert(has_bad_pattern(events.values()[i as int]));
                return Err(pattern.clone());
            }
        }
        let pattern = match &event.pattern {
            Some(pattern) => Some(pattern.clone()),
            None => None,
        };
        let ghost before = compiled@;
        compiled.insert(
            name.clone(),
            CompiledEventSpec {
                state_key: event.state_key.clone(),
                workflow: event.workflow.clone(),
                pattern,
            },
        );
        proof {
            let part = keys.take(i as int);
            let longer = keys.take(i + 1);
            assert(longer =~= part.push(keys[i as int]));
            assert forall|k: Seq<char>| #[trigger] compiled@.contains_key(k) <==> longer.contains(k) by {
                if part.contains(k) {
                    assert(longer[part.index_of(k)] == k);
                }
                if longer.contains(k) && k != keys[i as int] {
                    assert(part[longer.index_of(k)] == k);
                }
                assert(longer[i as int] == keys[i as int]);
                assert(before.contains_key(k) || k == keys[i as int] || !compiled@.contains_key(k));
            }
        }
        i = i + 1;
    }
    assert(keys.take(n as int) =~= keys);
    assert(compiled@.dom() =~= events@.dom());
    Ok(compiled)
}

/// Whether a character is an ASCII letter or digit.
pub open spec fn is_alphanumeric(c: char) -> bool {
    'a' <= c <= 'z' || 'A' <= c <= 'Z' || '0' <= c <= '9'
}

/// `rand::distr::SampleString::sample_string` on `rand::distr::Alphanumeric`, with a
/// `rand::rngs::StdRng` from `rand::SeedableRng::try_from_os_rng`: that many random ASCII letters
/// and digits; nothing where the system has no randomness to give.
#[verifier::external_body]
fn random_token(length: usize) -> (token: Option<String>)
    ensures
        token matches Some(text) ==> text@.len() == length && forall|i: int|
            0 <= i < text@.len() ==> is_alphanumeric(#[trigger] text@[i]),
{
    let mut rng = StdRng::try_from_os_rng().ok()?;
    Some(Alphanumeric.sample_string(&mut rng, length))
}

/// How many characters the token has that events are posted with.
pub const TOKEN_LENGTH: usize = 32;

/// The address at which an event is posted.
pub open spec fn event_url(local_addr: Seq<char>, name: Seq<char>) -> Seq<char> {
    "http://"@ + local_addr + "/events/"@ + name
}

/// What processes are told of a server for the events of a configuration that listens at an
/// address and takes a token.
pub fn event_environment(config: &Config, local_addr: &str, token: String) -> (environment:
    ExternalEventEnvironment)
    ensures
        environment.base_url@ == "http://"@ + local_addr@,
        environment.token@ == token@,
        environment.event_urls@.dom() == config.event@.dom(),
        forall|name: Seq<char>| #[trigger]
            environment.event_urls@.contains_key(name) ==> environment.event_urls@[name]@ == event_url(
                local_addr@,
                name,
            ),
{
    let mut event_urls: NameMap<String> = NameMap::new();
    let ghost keys = config.event.keys();
    let n: usize = config.event.len();
    let mut i: usize = 0;
    while i < n
        invariant
            config.event.wf(),
            i <= n == keys.len(),
            keys == config.event.keys(),
            forall|name: Seq<char>| #[trigger]
                event_urls@.contains_key(name) <==> keys.take(i as int).contains(name),
            forall|name: Seq<char>| #[trigger]
                event_urls@.contains_key(name) ==> event_urls@[name]@ == event_url(local_addr@, name),
        decreases n - i,
    {
        let name = config.event.key_at(i);
        let ghost before = event_urls@;
        event_urls.insert(
            name.clone(),
            "http://".to_owned().concat(local_addr).concat("/events/").concat(name.as_str()),
        );
        proof {
            let part = keys.take(i as int);
            let longer = keys.take(i + 1);
            assert(longer =~= part.push(keys[i as int]));
            assert forall|k: Seq<char>| #[trigger] event_urls@.contains_key(k) <==> longer.contains(
                k,
            ) by {
                if part.contains(k) {
                    assert(longer[part.index_of(k)] == k);
                }
                if longer.contains(k) && k != keys[i as int] {
                    assert(part[longer.index_of(k)] == k);
                }
                assert(longer[i as int] == keys[i as int]);
                assert(before.contains_key(k) || k == keys[i as int] || !event_urls@.contains_key(k));
            }
        }
        i = i + 1;
    }
    assert(keys.take(n as int) =~= keys);
    assert(event_urls@.dom() =~= config.event@.dom());
    ExternalEventEnvironment {
        base_url: "http://".to_owned().concat(local_addr),
        token,
        event_urls,
    }
}

/// What a server for events works with.
#[derive(Debug, Clone)]
pub struct EventServerPlan {
    pub environment: ExternalEventEnvironment,
    pub events: NameMap<CompiledEventSpec>,
}

/// Why a server for events cannot be started.
#[derive(Debug, Clone, PartialEq, Eq)]
pub enum EventServerError {
    /// The pattern of an event does not compile.
    InvalidPattern(String),
    /// The system has no randomness to give.
    NoRandomness,
}

/// What a server for the events of a configuration works with, listening at an address; nothing
/// where the configuration has no events.
pub fn plan_event_server(config: &Config, local_addr: &str) -> (result: Result<
    Option<EventServerPlan>,
    EventServerError,
>)
    ensures
        result matches Ok(None) <==> config.event@ == Map::<Seq<char>, EventSpec>::empty(),
        match result {
            Ok(Some(plan)) => {
                &&& plan.environment.base_url@ == "http://"@ + local_addr@
                &&& plan.environment.token@.len() == TOKEN_LENGTH
                &&& forall|i: int| 0 <= i < TOKEN_LENGTH ==> is_alphanumeric(#[trigger] plan.environment.token@[i])
                &&& plan.environment.event_urls@.dom() == config.event@.dom()
                &&& forall|name: Seq<char>| #[trigger]
                    plan.environment.event_urls@.contains_key(name)
                        ==> plan.environment.event_urls@[name]@ == event_url(local_addr@, name)
                &&& plan.events@.dom() == config.event@.dom()
                &&& forall|name: Seq<char>| #[trigger]
                    plan.events@.contains_key(name) ==> is_compiled_event(
                        config.event@[name],
                        plan.events@[name],
                    )
            },
            Ok(None) => true,
            Err(EventServerError::InvalidPattern(pattern)) => exists|i: int|
                0 <= i < config.event.keys().len() && has_bad_pattern(#[trigger] config.event.values()[i])
                    && config.event.values()[i].pattern->0@ == pattern@ && forall|k: int|
                    0 <= k < i ==> !has_bad_pattern(#[trigger] config.event.values()[k]),
            Err(EventServerError::NoRandomness) => forall|i: int|
                0 <= i < config.event.keys().len() ==> !has_bad_pattern(
                    #[trigger] config.event.values()[i],
                ),
        },
{
    if !config.has_external_events() {
        return Ok(None);
    }
    let events = match compile_event_specs(&config.event) {
        Ok(events) => events,
        Err(pattern) => {
            return Err(EventServerError::InvalidPattern(pattern));
        },
    };
    match random_token(TOKEN_LENGTH) {
        Some(token) => Ok(
            Some(
                EventServerPlan { environment: event_environment(config, local_addr, token), events },
            ),
        ),
        None => {
            proof {
                assert forall|i: int| 0 <= i < config.event.keys().len() implies !has_bad_pattern(
                    #[trigger] config.event.values()[i],
                ) by {
                    lemma_compiled_patterns(config.event, events, i);
                }
            }
            Err(EventServerError::NoRandomness)
        },
    }
}

proof fn lemma_compiled_patterns(
    events: NameMap<EventSpec>,
    compiled: NameMap<CompiledEventSpec>,
    i: int,
)
    requires
        events.wf(),
        compiled@.dom() == events@.dom(),
        forall|name: Seq<char>| #[trigger]
            compiled@.contains_key(name) ==> is_compiled_event(events@[name], compiled@[name]),
        0 <= i < events.keys().len(),
    ensures
        !has_bad_pattern(events.values()[i]),
{
    events.lemma_entry(i);
    assert(compiled@.contains_key(events.keys()[i]));
}

/// What becomes of an event that is posted.
#[derive(Debug, Clone, PartialEq, Eq)]
pub enum EventOutcome {
    /// There is no event of that name.
    Unknown,
    /// The token is missing or wrong.
    Unauthorized,
    /// The value does not match the pattern.
    Rejected,
    /// The state holds the value already.
    Unchanged,
    /// The state holds the value now, and a workflow is asked for.
    Changed(ExternalEventMessage),
}

/// Whether an authorization carries the token.
pub open spec fn carries_token(authorization: Option<&str>, token: Seq<char>) -> bool {
    authorization matches Some(text) && text@ == "Bearer "@ + token
}

/// Whether an authorization carries the token.
pub fn token_matches(authorization: Option<&str>, token: &str) -> (result: bool)
    ensures
        result == carries_token(authorization, token@),
{
    match authorization {
        Some(text) => same_text(text, "Bearer ".to_owned().concat(token).as_str()),
        None => false,
    }
}

/// Whether the pattern of an event accepts a value.
pub open spec fn accepts(event: CompiledEventSpec, value: Seq<char>) -> bool {
    match event.pattern {
        Some(pattern) => regex_compiles(pattern@) && regex_matches(pattern@, value),
        None => true,
    }
}

/// What an outcome says.
pub enum EventVerdict {
    Unknown,
    Unauthorized,
    Rejected,
    Unchanged,
    Changed(Seq<char>),
}

impl EventOutcome {
    /// What the outcome says.
    pub open spec fn view(&self) -> EventVerdict {
        match *self {
            EventOutcome::Unknown => EventVerdict::Unknown,
            EventOutcome::Unauthorized => EventVerdict::Unauthorized,
            EventOutcome::Rejected => EventVerdict::Rejected,
            EventOutcome::Unchanged => EventVerdict::Unchanged,
            EventOutcome::Changed(message) => EventVerdict::Changed(message.workflow_name@),
        }
    }
}

/// The session after an event has been posted, and what becomes of the event.
pub open spec fn event_received(
    session: Map<Seq<char>, Json>,
    events: Map<Seq<char>, CompiledEventSpec>,
    name: Seq<char>,
    authorized: bool,
    value: Seq<char>,
) -> (Map<Seq<char>, Json>, EventVerdict) {
    if !events.contains_key(name) {
        (session, EventVerdict::Unknown)
    } else if !authorized {
        (session, EventVerdict::Unauthorized)
    } else if !accepts(events[name], value) {
        (session, EventVerdict::Rejected)
    } else {
        let key = events[name].state_key@;
        if session.contains_key(key) && session[key] == Json::Text(value) {
            (session, EventVerdict::Unchanged)
        } else {
            (
                session.insert(key, Json::Text(value)),
                EventVerdict::Changed(events[name].workflow@),
            )
        }
    }
}

/// Takes in an event that is posted: writes its value where it is accepted and new.
pub fn handle_event(
    events: &NameMap<CompiledEventSpec>,
    token: &str,
    name: &str,
    authorization: Option<&str>,
    value: String,
    state: &mut SessionState,
) -> (outcome: EventOutcome)
    ensures
        (final(state)@, outcome@) == event_received(
            old(state)@,
            events@,
            name@,
            carries_token(authorization, token@),
            value@,
        ),
        final(state).file() == old(state).file(),
{
    let event = match events.get(name) {
        Some(event) => event,
        None => {
            return EventOutcome::Unknown;
        },
    };
    if !token_matches(authorization, token) {
        return EventOutcome::Unauthorized;
    }
    if let Some(pattern) = &event.pattern {
        match regex_is_match(pattern.as_str(), value.as_str()) {
            Some(true) => {},
            _ => {
                return EventOutcome::Rejected;
            },
        }
    }
    let ghost before = state@;
    let ghost key = event.state_key@;
    let ghost text = Json::Text(value@);
    proof {
        lemma_text_written(before, key, value@);
    }
    if state.set_if_changed(event.state_key.as_str(), SessionValue::String(value)) {
        proof {
            if before.contains_key(key) && before[key] == text {
                assert(before.insert(key, text) =~= before);
            }
        }
        EventOutcome::Changed(ExternalEventMessage { workflow_name: event.workflow.clone() })
    } else {
        proof {
            assert(before.insert(key, text).contains_key(key));
            assert(before.insert(key, text)[key] == text);
        }
        EventOutcome::Unchanged
    }
}

/// The status code that answers an event, given whether the state was saved and the workflow
/// asked for.
pub open spec fn status_of(verdict: EventVerdict, saved: bool, dispatched: bool) -> u16 {
    match verdict {
        EventVerdict::Unknown => 404,
        EventVerdict::Unauthorized => 401,
        EventVerdict::Rejected => 400,
        EventVerdict::Unchanged => 204,
        EventVerdict::Changed(_) => if !saved {
            500
        } else if !dispatched {
            503
        } else {
            204
        },
    }
}

/// The status code that answers an event, given whether the state was saved and the workflow
/// asked for.
pub fn response_status(outcome: &EventOutcome, saved: bool, dispatched: bool) -> (status: u16)
    ensures
        status == status_of(outcome@, saved, dispatched),
{
    match outcome {
        EventOutcome::Unknown => 404,
        EventOutcome::Unauthorized => 401,
        EventOutcome::Rejected => 400,
        EventOutcome::Unchanged => 204,
        EventOutcome::Changed(_) => if !saved {
            500
        } else if !dispatched {
            503
        } else {
            204
        },
    }
}

/// A character of the name of a variable: an upper case letter, a digit, or an underscore.
pub open spec fn variable_char(c: char) -> char {
    if 'a' <= c <= 'z' {
        ((c as u32) - 32) as char
    } else if is_alphanumeric(c) {
        c
    } else {
        '_'
    }
}

/// The variable that holds the address of an event.
pub open spec fn url_variable(name: Seq<char>) -> Seq<char> {
    "DEVLOOP_EVENT_"@ + Seq::new(name.len(), |i: int| variable_char(name[i])) + "_URL"@
}

/// The variable that holds the address of an event.
pub fn event_url_env_var(name: &str) -> (variable: String)
    ensures
        variable@ == url_variable(name@),
{
    let chars = chars_of(name);
    let mut suffix = String::new();
    let ghost all = Seq::new(name@.len(), |i: int| variable_char(name@[i]));
    let mut i: usize = 0;
    assert(suffix@ =~= all.take(0));
    while i < chars.len()
        invariant
            i <= chars@.len(),
            chars@ == name@,
            all == Seq::new(name@.len(), |i: int| variable_char(name@[i])),
            suffix@ == all.take(i as int),
        decreases chars@.len() - i,
    {
        let c = chars[i];
        let upper = if 'a' <= c && c <= 'z' {
            ((c as u8) - 32) as char
        } else if ('A' <= c && c <= 'Z') || ('0' <= c && c <= '9') {
            c
        } else {
            '_'
        };
        suffix.push(upper);
        assert(all.take(i + 1) =~= all.take(i as int).push(all[i as int]));
        i = i + 1;
    }
    assert(all.take(i as int) =~= all);
    "DEVLOOP_EVENT_".to_owned().concat(suffix.as_str()).concat("_URL")
}

/// The environment with the addresses of the first `n` events.
pub open spec fn with_event_urls(
    env: Map<Seq<char>, Seq<char>>,
    urls: NameMap<String>,
    n: int,
) -> Map<Seq<char>, Seq<char>>
    decreases n,
{
    if n <= 0 {
        env
    } else {
        with_event_urls(env, urls, n - 1).insert(
            url_variable(urls.keys()[n - 1]),
            urls.values()[n - 1]@,
        )
    }
}

/// The environment with what is told of the server for events.
pub open spec fn with_event_env(
    env: Map<Seq<char>, Seq<char>>,
    runtime: Option<ExternalEventEnvironment>,
) -> Map<Seq<char>, Seq<char>> {
    match runtime {
        Some(runtime) => with_event_urls(
            env.insert("DEVLOOP_EVENTS_BASE_URL"@, runtime.base_url@).insert(
                "DEVLOOP_EVENTS_TOKEN"@,
                runtime.token@,
            ),
            runtime.event_urls,
            runtime.event_urls.keys().len() as int,
        ),
        None => env,
    }
}

/// Tells the processes of an environment of the server for events.
pub fn apply_external_event_env(
    env: &mut NameMap<String>,
    runtime: Option<&ExternalEventEnvironment>,
)
    ensures
        env_of(*final(env)) == with_event_env(env_of(*old(env)), pointee(runtime)),
{
    if let Some(runtime) = runtime {
        set_variable(env, "DEVLOOP_EVENTS_BASE_URL", runtime.base_url.as_str());
        set_variable(env, "DEVLOOP_EVENTS_TOKEN", runtime.token.as_str());
        let ghost begun = env_of(*env);
        let n: usize = runtime.event_urls.len();
        let mut i: usize = 0;
        while i < n
            invariant
                i <= n == runtime.event_urls.keys().len(),
                env_of(*env) == with_event_urls(begun, runtime.event_urls, i as int),
            decreases n - i,
        {
            let variable = event_url_env_var(runtime.event_urls.key_at(i).as_str());
            set_variable(env, variable.as_str(), runtime.event_urls.value_at(i).as_str());
            i = i + 1;
        }
    }
}

/// An event that is refused changes nothing.
pub proof fn law_refused_events_change_nothing(
    session: Map<Seq<char>, Json>,
    events: Map<Seq<char>, CompiledEventSpec>,
    name: Seq<char>,
    authorized: bool,
    value: Seq<char>,
)
    requires
        !events.contains_key(name) || !authorized || !accepts(events[name], value),
    ensures
        ({
            let (after, verdict) = event_received(session, events, name, authorized, value);
            &&& after == session
            &&& verdict is Unknown || verdict is Unauthorized || verdict is Rejected
        }),
{
}

/// An event that is accepted writes its value to its key and to no other, and asks for its
/// workflow if and only if the key did not hold the value before. Where the state is saved it is
/// answered with success, or as unavailable where the workflow cannot be asked for; the state keeps
/// the value either way.
pub proof fn law_accepted_events_are_written_and_sent(
    session: Map<Seq<char>, Json>,
    events: Map<Seq<char>, CompiledEventSpec>,
    name: Seq<char>,
    value: Seq<char>,
    dispatched: bool,
)
    requires
        events.contains_key(name),
        accepts(events[name], value),
    ensures
        ({
            let key = events[name].state_key@;
            let (after, verdict) = event_received(session, events, name, true, value);
            let held = session.contains_key(key) && session[key] == Json::Text(value);
            &&& after == session.insert(key, Json::Text(value))
            &&& verdict == if held {
                EventVerdict::Unchanged
            } else {
                EventVerdict::Changed(events[name].workflow@)
            }
            &&& status_of(verdict, true, dispatched) == if held || dispatched {
                204u16
            } else {
                503u16
            }
        }),
{
    let key = events[name].state_key@;
    if session.contains_key(key) && session[key] == Json::Text(value) {
        assert(session.insert(key, Json::Text(value)) =~= session);
    }
}

/// An event that is accepted leaves its value in the state, and posting it again runs nothing.
pub proof fn law_posting_again_runs_nothing(
    session: Map<Seq<char>, Json>,
    events: Map<Seq<char>, CompiledEventSpec>,
    name: Seq<char>,
    value: Seq<char>,
)
    requires
        events.contains_key(name),
        accepts(events[name], value),
    ensures
        ({
            let (after, _) = event_received(session, events, name, true, value);
            &&& after.contains_key(events[name].state_key@)
            &&& after[events[name].state_key@] == Json::Text(value)
            &&& event_received(after, events, name, true, value) == (after, EventVerdict::Unchanged)
        }),
{
}

proof fn lemma_event_urls(
    env: Map<Seq<char>, Seq<char>>,
    urls: NameMap<String>,
    n: int,
    variable: Seq<char>,
)
    requires
        0 <= n <= urls.keys().len(),
        forall|k: int| 0 <= k < n ==> url_variable(#[trigger] urls.keys()[k]) != variable,
    ensures
        with_event_urls(env, urls, n).contains_key(variable) == env.contains_key(variable),
        env.contains_key(variable) ==> with_event_urls(env, urls, n)[variable] == env[variable],
    decreases n,
{
    if n > 0 {
        lemma_event_urls(env, urls, n - 1, variable);
    }
}

proof fn lemma_event_variables(name: Seq<char>)
    ensures
        url_variable(name) != "DEVLOOP_EVENTS_BASE_URL"@,
        url_variable(name) != "DEVLOOP_EVENTS_TOKEN"@,
        "DEVLOOP_EVENTS_BASE_URL"@ != "DEVLOOP_EVENTS_TOKEN"@,
        seq!['D', 'E', 'V', 'L', 'O', 'O', 'P', '_'].is_prefix_of(url_variable(name)),
        seq!['D', 'E', 'V', 'L', 'O', 'O', 'P', '_'].is_prefix_of("DEVLOOP_EVENTS_BASE_URL"@),
        seq!['D', 'E', 'V', 'L', 'O', 'O', 'P', '_'].is_prefix_of("DEVLOOP_EVENTS_TOKEN"@),
        seq!['D', 'E', 'V', 'L', 'O', 'O', 'P', '_'].is_prefix_of("DEVLOOP_BROWSER_EVENTS_URL"@),
{
    reveal_strlit("DEVLOOP_EVENT_");
    reveal_strlit("DEVLOOP_EVENTS_BASE_URL");
    reveal_strlit("DEVLOOP_EVENTS_TOKEN");
    reveal_strlit("DEVLOOP_BROWSER_EVENTS_URL");
    let own = seq!['D', 'E', 'V', 'L', 'O', 'O', 'P', '_'];
    let variable = url_variable(name);
    assert(variable[13] == '_');
    assert("DEVLOOP_EVENTS_BASE_URL"@[13] == 'S' && "DEVLOOP_EVENTS_TOKEN"@[13] == 'S');
    assert(variable.take(8) =~= own);
    assert("DEVLOOP_EVENTS_BASE_URL"@.take(8) =~= own);
    assert("DEVLOOP_EVENTS_TOKEN"@.take(8) =~= own);
    assert("DEVLOOP_BROWSER_EVENTS_URL"@.take(8) =~= own);
}

/// What processes are told of the servers touches none of their variables but those that begin with
/// the supervisor's name.
pub proof fn law_only_event_variables_are_told(
    env: Map<Seq<char>, Seq<char>>,
    runtime: Option<ExternalEventEnvironment>,
    name: Seq<char>,
)
    requires
        !(seq!['D', 'E', 'V', 'L', 'O', 'O', 'P', '_'].is_prefix_of(name)),
    ensures
        with_event_env(env, runtime).contains_key(name) == env.contains_key(name),
        env.contains_key(name) ==> with_event_env(env, runtime)[name] == env[name],
{
    if let Some(server) = runtime {
        lemma_event_variables(name);
        assert forall|k: int| 0 <= k < server.event_urls.keys().len() implies url_variable(
            #[trigger] server.event_urls.keys()[k],
        ) != name by {
            lemma_event_variables(server.event_urls.keys()[k]);
        }
        lemma_event_urls(
            env.insert("DEVLOOP_EVENTS_BASE_URL"@, server.base_url@).insert(
                "DEVLOOP_EVENTS_TOKEN"@,
                server.token@,
            ),
            server.event_urls,
            server.event_urls.keys().len() as int,
            name,
        );
    }
}

/// Processes are told the address of the server for events, its token, and for each event where it
/// is posted, unless a later event has the same variable.
pub proof fn law_processes_are_told_of_the_event_server(
    env: Map<Seq<char>, Seq<char>>,
    server: ExternalEventEnvironment,
    i: int,
)
    ensures
        ({
            let told = with_event_env(env, Some(server));
            let names = server.event_urls.keys();
            &&& told.contains_key("DEVLOOP_EVENTS_BASE_URL"@) && told["DEVLOOP_EVENTS_BASE_URL"@]
                == server.base_url@
            &&& told.contains_key("DEVLOOP_EVENTS_TOKEN"@) && told["DEVLOOP_EVENTS_TOKEN"@]
                == server.token@
            &&& 0 <= i < names.len() && (forall|k: int|
                i < k < names.len() ==> url_variable(#[trigger] names[k]) != url_variable(names[i]))
                ==> told.contains_key(url_variable(names[i])) && told[url_variable(names[i])]
                == server.event_urls.values()[i]@
            &&& with_event_env(env, None) == env
        }),
{
    let begun = env.insert("DEVLOOP_EVENTS_BASE_URL"@, server.base_url@).insert(
        "DEVLOOP_EVENTS_TOKEN"@,
        server.token@,
    );
    let names = server.event_urls.keys();
    let n = names.len() as int;
    lemma_event_variables(Seq::empty());
    assert forall|k: int| 0 <= k < n implies url_variable(#[trigger] names[k])
        != "DEVLOOP_EVENTS_BASE_URL"@ && url_variable(names[k]) != "DEVLOOP_EVENTS_TOKEN"@ by {
        lemma_event_variables(names[k]);
    }
    lemma_event_urls(begun, server.event_urls, n, "DEVLOOP_EVENTS_BASE_URL"@);
    lemma_event_urls(begun, server.event_urls, n, "DEVLOOP_EVENTS_TOKEN"@);
    if 0 <= i < n && (forall|k: int|
        i < k < n ==> url_variable(#[trigger] names[k]) != url_variable(names[i])) {
        lemma_event_url_at(begun, server.event_urls, n, i);
    }
}

proof fn lemma_event_url_at(env: Map<Seq<char>, Seq<char>>, urls: NameMap<String>, n: int, i: int)
    requires
        0 <= i < n <= urls.keys().len(),
        forall|k: int|
            i < k < n ==> url_variable(#[trigger] urls.keys()[k]) != url_variable(urls.keys()[i]),
    ensures
        with_event_urls(env, urls, n).contains_key(url_variable(urls.keys()[i])),
        with_event_urls(env, urls, n)[url_variable(urls.keys()[i])] == urls.values()[i]@,
    decreases n,
{
    if i < n - 1 {
        lemma_event_url_at(env, urls, n - 1, i);
        assert(url_variable(urls.keys()[n - 1]) != url_variable(urls.keys()[i]));
    }
}

/// The variable of an event is its name in upper case between what all of them begin and end with;
/// what is no letter and no digit of ASCII is an underscore.
pub proof fn law_event_variables_are_upper_case(name: Seq<char>, i: int)
    requires
        0 <= i < name.len(),
    ensures
        "DEVLOOP_EVENT_"@.is_prefix_of(url_variable(name)),
        url_variable(name).len() == name.len() + 18,
        url_variable(name).skip(name.len() as int + 14) == "_URL"@,
        ({
            let c = url_variable(name)[14 + i];
            &&& 'A' <= name[i] <= 'Z' || '0' <= name[i] <= '9' ==> c == name[i]
            &&& 'a' <= name[i] <= 'z' ==> 'A' <= c <= 'Z' && c as u32 + 32 == name[i] as u32
            &&& !('A' <= name[i] <= 'Z' || '0' <= name[i] <= '9' || 'a' <= name[i] <= 'z') ==> c == '_'
        }),
{
    reveal_strlit("DEVLOOP_EVENT_");
    reveal_strlit("_URL");
    let variable = url_variable(name);
    assert(variable.take(14) =~= "DEVLOOP_EVENT_"@);
    assert(variable.skip(name.len() as int + 14) =~= "_URL"@);
    assert(variable[14 + i] == variable_char(name[i]));
}

/// An event is refused for the first reason that holds: there is none of that name, the token is
/// not the one that was given out, or the pattern of the event does not match. Any value is accepted
/// where there is no pattern.
pub proof fn law_refusals_have_their_reason(
    session: Map<Seq<char>, Json>,
    events: Map<Seq<char>, CompiledEventSpec>,
    name: Seq<char>,
    authorized: bool,
    value: Seq<char>,
    saved: bool,
    dispatched: bool,
)
    ensures
        ({
            let (_, verdict) = event_received(session, events, name, authorized, value);
            let status = status_of(verdict, saved, dispatched);
            &&& !events.contains_key(name) ==> verdict is Unknown && status == 404
            &&& events.contains_key(name) && !authorized ==> verdict is Unauthorized && status == 401
            &&& events.contains_key(name) && authorized ==> match events[name].pattern {
                Some(pattern) => regex_compiles(pattern@) ==> (verdict is Rejected <==> !regex_matches(
                    pattern@,
                    value,
                )),
                None => !(verdict is Rejected),
            }
            &&& verdict is Rejected ==> status == 400
            &&& verdict is Unchanged ==> status == 204
            &&& verdict is Changed && !saved ==> status == 500
        }),
{
}

/// An authorization is accepted if and only if it is the word for a bearer, a space, and the token.
pub proof fn law_tokens_are_carried_by_their_bearer(text: &str, token: Seq<char>)
    ensures
        carries_token(Some(text), token) == (text@ == seq!['B', 'e', 'a', 'r', 'e', 'r', ' '] + token),
        !carries_token(None, token),
{
    reveal_strlit("Bearer ");
    assert("Bearer "@ =~= seq!['B', 'e', 'a', 'r', 'e', 'r', ' ']);
}

/// An event that is ready for use has the key, the workflow and the pattern that are configured, and
/// only a pattern that does not compile refuses it.
pub proof fn law_events_are_used_as_configured(event: EventSpec, compiled: CompiledEventSpec)
    ensures
        is_compiled_event(event, compiled) ==> {
            &&& compiled.state_key@ == event.state_key@
            &&& compiled.workflow@ == event.workflow@
            &&& compiled.pattern is Some <==> event.pattern is Some
            &&& event.pattern matches Some(pattern) ==> compiled.pattern->0@ == pattern@
                && regex_compiles(pattern@)
        },
        has_bad_pattern(event) <==> (event.pattern matches Some(pattern) && !regex_compiles(pattern@)),
{
}

} // verus!
