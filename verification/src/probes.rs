//! Whether a process is ready or alive.

use crate::config::ProbeSpec;
use crate::env_expand::{expand_value, expansion, ExpandError, ReferenceDefect};
use crate::name_map::NameMap;
use crate::output::begins_with;
use crate::state::SessionState;
use crate::supervisor::probe_interval;
use crate::text::{chars_of, decimal, decimal_text, is_white_space, same_text};
use crate::validate::{blank, is_blank};
use crate::value::Json;
use vstd::prelude::*;

verus! {

/// The field of the address of a probe.
pub open spec fn probe_field(process: Seq<char>) -> Seq<char> {
    "process '"@ + process + "' http probe url"@
}

/// Whether two probes are the same.
pub open spec fn same_probe(a: ProbeSpec, b: ProbeSpec) -> bool {
    match (a, b) {
        (
            ProbeSpec::Http { url, interval_ms, timeout_ms },
            ProbeSpec::Http { url: u, interval_ms: i, timeout_ms: t },
        ) => url@ == u@ && interval_ms == i && timeout_ms == t,
        (
            ProbeSpec::StateKey { key, interval_ms, timeout_ms },
            ProbeSpec::StateKey { key: k, interval_ms: i, timeout_ms: t },
        ) => key@ == k@ && interval_ms == i && timeout_ms == t,
        _ => false,
    }
}

/// Whether a result is a probe with the references in its address expanded, or the first of them
/// that cannot be.
pub open spec fn is_expanded_probe(
    env: Map<Seq<char>, String>,
    process: Seq<char>,
    probe: ProbeSpec,
    result: Result<ProbeSpec, ExpandError>,
) -> bool {
    match probe {
        ProbeSpec::Http { url, interval_ms, timeout_ms } => match result {
            Ok(ProbeSpec::Http { url: u, interval_ms: i, timeout_ms: t }) => {
                &&& expansion(env, url@, 0) == Ok::<_, ReferenceDefect>(u@)
                &&& i == interval_ms && t == timeout_ms
            },
            Ok(_) => false,
            Err(error) => expansion(env, url@, 0) == Err::<Seq<char>, _>(error.problem@)
                && error.field@ == probe_field(process),
        },
        ProbeSpec::StateKey { .. } => result matches Ok(expanded) && same_probe(expanded, probe),
    }
}

/// The probe with the references in its address expanded.
pub fn expand_probe_env(process: &str, probe: &ProbeSpec, env: &NameMap<String>) -> (result: Result<
    ProbeSpec,
    ExpandError,
>)
    ensures
        is_expanded_probe(env@, process@, *probe, result),
{
    match probe {
        ProbeSpec::Http { url, interval_ms, timeout_ms } => {
            let field = "process '".to_owned().concat(process).concat("' http probe url");
            match expand_value(url.as_str(), field.as_str(), env) {
                Ok(url) => Ok(
                    ProbeSpec::Http { url, interval_ms: *interval_ms, timeout_ms: *timeout_ms },
                ),
                Err(error) => Err(error),
            }
        },
        ProbeSpec::StateKey { key, interval_ms, timeout_ms } => Ok(
            ProbeSpec::StateKey {
                key: key.clone(),
                interval_ms: *interval_ms,
                timeout_ms: *timeout_ms,
            },
        ),
    }
}

/// The scheme, the host and the port that `reqwest::Url` reads from a text, where it reads all
/// three.
pub uninterp spec fn url_origin(url: Seq<char>) -> Option<(Seq<char>, Seq<char>, u16)>;

/// `reqwest::Url::parse`, and of what it reads the scheme, the host and the port, which may be the
/// known one of the scheme: all three, or nothing where one is missing.
#[verifier::external_body]
fn read_url(url: &str) -> (origin: Option<(String, String, u16)>)
    ensures
        url_origin(url@) == match origin {
            Some((scheme, host, port)) => Some((scheme@, host@, port)),
            None => None,
        },
{
    let parsed = reqwest::Url::parse(url).ok()?;
    let host = parsed.host_str()?.to_owned();
    let port = parsed.port_or_known_default()?;
    Some((parsed.scheme().to_owned(), host, port))
}

/// A digit or a dot.
pub open spec fn is_dotted_digit(c: char) -> bool {
    c == '.' || '0' <= c <= '9'
}

/// Whether a host is this machine as it sees itself.
pub open spec fn is_loopback(host: Seq<char>) -> bool {
    ||| host == "localhost"@
    ||| host == "[::1]"@
    ||| "127."@.is_prefix_of(host) && forall|i: int|
        0 <= i < host.len() ==> is_dotted_digit(#[trigger] host[i])
}

/// The address of a server on this machine that is asked over HTTP.
pub open spec fn loopback_address(origin: Option<(Seq<char>, Seq<char>, u16)>) -> Option<Seq<char>> {
    match origin {
        Some((scheme, host, port)) => if (scheme == "http"@ || scheme == "https"@) && is_loopback(host) {
            Some(host + ":"@ + decimal(port as nat))
        } else {
            None
        },
        None => None,
    }
}

/// Whether a host is this machine as it sees itself.
fn is_loopback_host(host: &str) -> (result: bool)
    ensures
        result == is_loopback(host@),
{
    if same_text(host, "localhost") || same_text(host, "[::1]") {
        return true;
    }
    if !begins_with(host, "127.") {
        return false;
    }
    let chars = chars_of(host);
    let mut i: usize = 0;
    while i < chars.len()
        invariant
            i <= chars@.len(),
            chars@ == host@,
            host@ != "localhost"@,
            host@ != "[::1]"@,
            "127."@.is_prefix_of(host@),
            forall|k: int| 0 <= k < i ==> is_dotted_digit(#[trigger] host@[k]),
        decreases chars@.len() - i,
    {
        let c: char = chars[i];
        if c != '.' && !('0' <= c && c <= '9') {
            assert(!is_dotted_digit(host@[i as int]));
            return false;
        }
        i = i + 1;
    }
    true
}

/// The address of a server on this machine that is asked over HTTP, from what is read from its
/// URL.
pub fn address_of_origin(scheme: &str, host: &str, port: u16) -> (address: Option<String>)
    ensures
        match address {
            Some(text) => loopback_address(Some((scheme@, host@, port))) == Some(text@),
            None => loopback_address(Some((scheme@, host@, port))) is None,
        },
{
    if (same_text(scheme, "http") || same_text(scheme, "https")) && is_loopback_host(host) {
        Some(host.to_owned().concat(":").concat(decimal_text(port as u64).as_str()))
    } else {
        None
    }
}

/// The address that a process is to take up on this machine to be ready, where its probe, with
/// the references expanded, asks for it there.
pub fn readiness_address(probe: &ProbeSpec) -> (address: Option<String>)
    ensures
        match *probe {
            ProbeSpec::Http { url, .. } => match address {
                Some(text) => loopback_address(url_origin(url@)) == Some(text@),
                None => loopback_address(url_origin(url@)) is None,
            },
            ProbeSpec::StateKey { .. } => address is None,
        },
{
    match probe {
        ProbeSpec::Http { url, .. } => match read_url(url.as_str()) {
            Some((scheme, host, port)) => address_of_origin(scheme.as_str(), host.as_str(), port),
            None => None,
        },
        ProbeSpec::StateKey { .. } => None,
    }
}

/// How long one attempt of a probe may take: twice the interval and at least a second, but no
/// longer than the probe as a whole.
pub open spec fn attempt_timeout(interval_ms: u64, timeout_ms: u64) -> int {
    let twice = if interval_ms * 2 > u64::MAX {
        u64::MAX as int
    } else {
        interval_ms * 2
    };
    let wanted = if twice < 1000 {
        1000int
    } else {
        twice
    };
    if wanted < timeout_ms {
        wanted
    } else {
        timeout_ms as int
    }
}

/// How long one attempt of a probe may take, in milliseconds.
pub fn probe_attempt_timeout(interval_ms: u64, timeout_ms: u64) -> (bounded_ms: u64)
    ensures
        bounded_ms == attempt_timeout(interval_ms, timeout_ms),
        bounded_ms <= timeout_ms,
{
    let twice = match interval_ms.checked_mul(2) {
        Some(twice) => twice,
        None => u64::MAX,
    };
    let wanted = if twice < 1000 {
        1000
    } else {
        twice
    };
    if wanted < timeout_ms {
        wanted
    } else {
        timeout_ms
    }
}

/// The answer to an attempt of an HTTP probe.
#[derive(Debug, Clone, PartialEq, Eq)]
pub enum ProbeReply {
    /// The server answered with this status code and its text.
    Status { code: u16, text: String },
    /// The request failed.
    Failed { error: String },
}

/// Whether a status code stands for success.
pub open spec fn is_success(code: u16) -> bool {
    200 <= code < 300
}

/// Whether a result is what an attempt of an HTTP probe says.
pub open spec fn is_http_result(
    name: Seq<char>,
    url: Seq<char>,
    reply: ProbeReply,
    result: Result<(), String>,
) -> bool {
    match reply {
        ProbeReply::Status { code, text } => if is_success(code) {
            result is Ok
        } else {
            result matches Err(message) && message@ == "probe for '"@ + name + "' at "@ + url
                + " returned "@ + text@
        },
        ProbeReply::Failed { error } => result matches Err(message) && message@ == "probe for '"@ + name
            + "' at "@ + url + " failed: "@ + error@,
    }
}

/// What an attempt of an HTTP probe says: nothing is wrong, or what is.
pub fn http_probe_result(name: &str, url: &str, reply: &ProbeReply) -> (result: Result<(), String>)
    ensures
        is_http_result(name@, url@, *reply, result),
{
    let start = "probe for '".to_owned().concat(name).concat("' at ").concat(url);
    match reply {
        ProbeReply::Status { code, text } => if 200 <= *code && *code < 300 {
            Ok(())
        } else {
            Err(start.concat(" returned ").concat(text.as_str()))
        },
        ProbeReply::Failed { error } => Err(start.concat(" failed: ").concat(error.as_str())),
    }
}

/// Whether a key makes a process ready: it holds a text that is not blank.
pub open spec fn key_is_ready(session: Map<Seq<char>, Json>, key: Seq<char>) -> bool {
    session.contains_key(key) && session[key] is Text && !is_blank(session[key]->Text_0)
}

/// What an attempt of a probe of a state key says: nothing is wrong, or what is.
pub fn state_key_probe_result(key: &str, state: &SessionState) -> (result: Result<(), String>)
    ensures
        if key_is_ready(state@, key@) {
            result is Ok
        } else {
            result matches Err(message) && message@ == "state key '"@ + key@ + "' is empty"@
        },
{
    let ready = match state.get_string(key) {
        Some(text) => !blank(text.as_str()),
        None => false,
    };
    if ready {
        Ok(())
    } else {
        Err("state key '".to_owned().concat(key).concat("' is empty"))
    }
}

/// The text of the error when a process is not ready in time.
pub open spec fn timeout_message(name: Seq<char>, probe: ProbeSpec) -> Seq<char> {
    match probe {
        ProbeSpec::Http { url, .. } => "timed out waiting for process '"@ + name + "' probe "@ + url@,
        ProbeSpec::StateKey { key, .. } => "timed out waiting for process '"@ + name + "' state key "@
            + key@,
    }
}

/// The text of the error when a process is not ready in time.
pub fn timeout_error(name: &str, probe: &ProbeSpec) -> (message: String)
    ensures
        message@ == timeout_message(name@, *probe),
{
    let start = "timed out waiting for process '".to_owned().concat(name);
    match probe {
        ProbeSpec::Http { url, .. } => start.concat("' probe ").concat(url.as_str()),
        ProbeSpec::StateKey { key, .. } => start.concat("' state key ").concat(key.as_str()),
    }
}

/// How long a probe may take as a whole.
pub open spec fn probe_timeout(probe: ProbeSpec) -> u64 {
    match probe {
        ProbeSpec::Http { timeout_ms, .. } => timeout_ms,
        ProbeSpec::StateKey { timeout_ms, .. } => timeout_ms,
    }
}

/// What to do after an attempt of a probe that is waited for.
#[derive(Debug, Clone, PartialEq, Eq)]
pub enum WaitStep {
    /// The process is ready.
    Ready,
    /// The process has exited.
    Exited,
    /// The time is up.
    TimedOut { message: String },
    /// Try again after this time.
    Retry { after_ms: u64 },
}

/// Whether a step is the one to take after an attempt of a probe.
pub open spec fn is_wait_step(
    name: Seq<char>,
    probe: ProbeSpec,
    running: bool,
    succeeded: bool,
    elapsed_ms: u64,
    step: WaitStep,
) -> bool {
    if !running {
        step == WaitStep::Exited
    } else if succeeded {
        step == WaitStep::Ready
    } else if elapsed_ms >= probe_timeout(probe) {
        step matches WaitStep::TimedOut { message } && message@ == timeout_message(name, probe)
    } else {
        step == (WaitStep::Retry { after_ms: probe_interval(probe) })
    }
}

/// What to do after an attempt of a probe that has been waited for since `elapsed_ms`. A process
/// that has exited is not ready, whatever the probe says.
pub fn next_wait_step(
    name: &str,
    probe: &ProbeSpec,
    running: bool,
    succeeded: bool,
    elapsed_ms: u64,
) -> (step: WaitStep)
    ensures
        is_wait_step(name@, *probe, running, succeeded, elapsed_ms, step),
{
    if !running {
        return WaitStep::Exited;
    }
    if succeeded {
        return WaitStep::Ready;
    }
    let timeout_ms = match probe {
        ProbeSpec::Http { timeout_ms, .. } | ProbeSpec::StateKey { timeout_ms, .. } => *timeout_ms,
    };
    if elapsed_ms >= timeout_ms {
        return WaitStep::TimedOut { message: timeout_error(name, probe) };
    }
    WaitStep::Retry { after_ms: probe.interval() }
}

/// One attempt of a probe takes no longer than the probe as a whole, and where that allows a
/// second at least a second.
pub proof fn law_attempts_are_bounded(interval_ms: u64, timeout_ms: u64)
    ensures
        attempt_timeout(interval_ms, timeout_ms) <= timeout_ms,
        timeout_ms >= 1000 ==> attempt_timeout(interval_ms, timeout_ms) >= 1000,
{
}

/// A process that is waited for is ready as soon as the probe succeeds while it runs, is given up
/// when it exits or its time is up, and is otherwise asked again after the interval of the probe.
pub proof fn law_waiting_goes_on_until_its_time_is_up(
    name: Seq<char>,
    key: String,
    interval_ms: u64,
    timeout_ms: u64,
    elapsed_ms: u64,
    step: WaitStep,
)
    ensures
        ({
            let http = ProbeSpec::Http { url: key, interval_ms, timeout_ms };
            let by_key = ProbeSpec::StateKey { key, interval_ms, timeout_ms };
            &&& is_wait_step(name, http, true, true, elapsed_ms, step) ==> step is Ready
            &&& is_wait_step(name, by_key, true, true, elapsed_ms, step) ==> step is Ready
            &&& is_wait_step(name, http, false, true, elapsed_ms, step) ==> step is Exited
            &&& is_wait_step(name, by_key, false, false, elapsed_ms, step) ==> step is Exited
            &&& is_wait_step(name, http, true, false, elapsed_ms, step) ==> if elapsed_ms
                < timeout_ms {
                step == (WaitStep::Retry { after_ms: interval_ms })
            } else {
                step matches WaitStep::TimedOut { message } && message@
                    == "timed out waiting for process '"@ + name + "' probe "@ + key@
            }
            &&& is_wait_step(name, by_key, true, false, elapsed_ms, step) ==> if elapsed_ms
                < timeout_ms {
                step == (WaitStep::Retry { after_ms: interval_ms })
            } else {
                step matches WaitStep::TimedOut { message } && message@
                    == "timed out waiting for process '"@ + name + "' state key "@ + key@
            }
        }),
{
}

/// An HTTP probe succeeds on every status from two hundred to two hundred and ninety-nine, and on
/// nothing else.
pub proof fn law_success_statuses_are_success(
    name: Seq<char>,
    url: Seq<char>,
    code: u16,
    text: String,
    result: Result<(), String>,
)
    ensures
        is_http_result(name, url, ProbeReply::Status { code, text }, result) ==> (result is Ok <==> (200
            <= code && code <= 299)),
        is_http_result(name, url, ProbeReply::Failed { error: text }, result) ==> (result matches Err(
            message,
        ) && message@ == "probe for '"@ + name + "' at "@ + url + " failed: "@ + text@),
        is_http_result(name, url, ProbeReply::Status { code, text }, result) && (code < 200 || code > 299)
            ==> (result matches Err(message) && message@ == "probe for '"@ + name + "' at "@ + url
            + " returned "@ + text@),
{
}

/// A probe of a state key succeeds if and only if the key holds a text with a character that is no
/// white space.
pub proof fn law_keys_with_text_are_ready(
    session: Map<Seq<char>, Json>,
    key: Seq<char>,
    text: Seq<char>,
    i: int,
)
    ensures
        !session.contains_key(key) ==> !key_is_ready(session, key),
        session.contains_key(key) && !(session[key] is Text) ==> !key_is_ready(session, key),
        session.contains_key(key) && session[key] == Json::Text(text) && 0 <= i < text.len()
            && !is_white_space(text[i]) ==> key_is_ready(session, key),
        session.contains_key(key) && session[key] == Json::Text(text) && (forall|k: int|
            0 <= k < text.len() ==> is_white_space(#[trigger] text[k])) ==> !key_is_ready(session, key),
{
}

/// One attempt takes as long as twice the interval, at least a second, and no longer than the whole.
pub proof fn law_attempts_take_twice_the_interval(interval_ms: u64, timeout_ms: u64)
    ensures
        ({
            let bounded = attempt_timeout(interval_ms, timeout_ms);
            &&& timeout_ms <= 1000 ==> bounded == timeout_ms
            &&& interval_ms <= 500 && timeout_ms >= 1000 ==> bounded == 1000
            &&& interval_ms > 500 && 2 * interval_ms <= timeout_ms ==> bounded == 2 * interval_ms
            &&& interval_ms > 500 && 2 * interval_ms >= timeout_ms ==> bounded == timeout_ms
        }),
{
}

/// A server that is asked over HTTP at this machine has its host and port as its address: by name,
/// by the loopback address of version six, or by one that begins with one hundred and twenty-seven.
/// Any other host has none here, and neither has another scheme.
pub proof fn law_loopback_servers_have_their_address(host: Seq<char>, port: u16, scheme: Seq<char>)
    ensures
        loopback_address(Some(("http"@, "localhost"@, port))) == Some(
            "localhost"@ + seq![':'] + decimal(port as nat),
        ),
        loopback_address(Some(("https"@, "[::1]"@, port))) == Some(
            "[::1]"@ + seq![':'] + decimal(port as nat),
        ),
        loopback_address(Some(("http"@, "127.0.0.1"@, port))) == Some(
            "127.0.0.1"@ + seq![':'] + decimal(port as nat),
        ),
        host.len() > 4 && host[0] == '1' && host[1] == '2' && host[2] == '7' && host[3] == '.' && (
        forall|i: int|
            0 <= i < host.len() ==> (#[trigger] host[i] == '.' || '0' <= host[i] <= '9'))
            ==> loopback_address(Some(("http"@, host, port))) == Some(
            host + seq![':'] + decimal(port as nat),
        ),
        host != "localhost"@ && host != "[::1]"@ && host.len() > 0 && host[0] != '1'
            ==> loopback_address(Some((scheme, host, port))) is None,
        host != "localhost"@ && host != "[::1]"@ && (exists|i: int|
            0 <= i < host.len() && #[trigger] host[i] != '.' && !('0' <= host[i] <= '9'))
            ==> loopback_address(Some((scheme, host, port))) is None,
        scheme != "http"@ && scheme != "https"@ ==> loopback_address(Some((scheme, host, port))) is None,
        loopback_address(None) is None,
{
    reveal_strlit(":");
    reveal_strlit("127.");
    reveal_strlit("127.0.0.1");
    assert(":"@ =~= seq![':']);
    let own = "127.0.0.1"@;
    assert(own.take(4) =~= "127."@);
    assert("127."@.is_prefix_of(own));
    assert(is_loopback(own));
    if host.len() > 4 && host[0] == '1' && host[1] == '2' && host[2] == '7' && host[3] == '.' {
        assert(host.take(4) =~= "127."@);
    }
    if "127."@.is_prefix_of(host) {
        assert(host[0] == "127."@[0]);
    }
}

/// Expanding a probe changes nothing of it but the references in its address: its key, its interval
/// and its time stay, and only a reference that cannot be expanded refuses it.
pub proof fn law_only_addresses_are_expanded(
    env: Map<Seq<char>, String>,
    process: Seq<char>,
    text: String,
    interval_ms: u64,
    timeout_ms: u64,
    result: Result<ProbeSpec, ExpandError>,
)
    ensures
        ({
            let by_key = ProbeSpec::StateKey { key: text, interval_ms, timeout_ms };
            is_expanded_probe(env, process, by_key, result) ==> (result matches Ok(
                ProbeSpec::StateKey { key, interval_ms: i, timeout_ms: t },
            ) && key@ == text@ && i == interval_ms && t == timeout_ms)
        }),
        ({
            let http = ProbeSpec::Http { url: text, interval_ms, timeout_ms };
            is_expanded_probe(env, process, http, result) ==> {
                &&& result is Ok <==> expansion(env, text@, 0) is Ok
                &&& result matches Ok(probe) ==> (probe matches ProbeSpec::Http {
                    url,
                    interval_ms: i,
                    timeout_ms: t,
                } && expansion(env, text@, 0) == Ok::<_, ReferenceDefect>(url@) && i == interval_ms && t
                    == timeout_ms)
                &&& result matches Err(error) ==> expansion(env, text@, 0) == Err::<Seq<char>, _>(
                    error.problem@,
                ) && error.field@ == "process '"@ + process + "' http probe url"@
            }
        }),
{
}

/// Two probes are the same if and only if they ask for the same thing in the same way at the same
/// times.
pub proof fn law_same_probes_ask_for_the_same(
    a: String,
    b: String,
    interval_ms: u64,
    other_interval_ms: u64,
    timeout_ms: u64,
    other_timeout_ms: u64,
)
    ensures
        ({
            let same = a@ == b@ && interval_ms == other_interval_ms && timeout_ms == other_timeout_ms;
            let http = ProbeSpec::Http { url: a, interval_ms, timeout_ms };
            let key = ProbeSpec::StateKey { key: a, interval_ms, timeout_ms };
            let other_http = ProbeSpec::Http {
                url: b,
                interval_ms: other_interval_ms,
                timeout_ms: other_timeout_ms,
            };
            let other_key = ProbeSpec::StateKey {
                key: b,
                interval_ms: other_interval_ms,
                timeout_ms: other_timeout_ms,
            };
            &&& same_probe(http, other_http) <==> same
            &&& same_probe(key, other_key) <==> same
            &&& !same_probe(http, other_key) && !same_probe(key, other_http)
        }),
{
}

} // verus!
