use devloop::browser_reload::{
    apply_browser_reload_env, reload_environment, BrowserReloadEnvironment, RELOAD_MESSAGE,
};
use devloop::config::{BrowserReloadServerConfig, Config, EventServerConfig, EventSpec};
use devloop::external_events::{
    apply_external_event_env, compile_event_specs, event_url_env_var, handle_event,
    plan_event_server, response_status, token_matches, CompiledEventSpec, EventOutcome,
    EventServerError, ExternalEventEnvironment, ExternalEventMessage,
};
use devloop::name_map::NameMap;
use devloop::state::SessionState;

fn base_config() -> Config {
    Config {
        root: ".".into(),
        debounce_ms: 100,
        state_file: Some("./state.json".into()),
        startup_workflows: vec![],
        watch: NameMap::new(),
        process: NameMap::new(),
        hook: NameMap::new(),
        event_server: EventServerConfig::default(),
        browser_reload_server: BrowserReloadServerConfig::default(),
        event: NameMap::new(),
        workflow: NameMap::new(),
    }
}

#[test]
fn apply_browser_reload_env_exports_events_url() {
    let runtime = BrowserReloadEnvironment {
        events_url: "http://127.0.0.1:12345/browser-events".into(),
    };
    let mut env = NameMap::new();

    apply_browser_reload_env(&mut env, Some(&runtime));

    assert_eq!(
        env.get("DEVLOOP_BROWSER_EVENTS_URL").map(String::as_str),
        Some("http://127.0.0.1:12345/browser-events")
    );
}

#[test]
fn apply_external_event_env_exports_base_url_token_and_event_url() {
    let mut event_urls = NameMap::new();
    event_urls
        .insert("browser_path".into(), "http://127.0.0.1:12345/events/browser_path".into());
    let runtime = ExternalEventEnvironment {
        base_url: "http://127.0.0.1:12345".into(),
        token: "secret".into(),
        event_urls,
    };
    let mut env = NameMap::new();

    apply_external_event_env(&mut env, Some(&runtime));

    assert_eq!(
        env.get("DEVLOOP_EVENTS_BASE_URL").map(String::as_str),
        Some("http://127.0.0.1:12345")
    );
    assert_eq!(env.get("DEVLOOP_EVENTS_TOKEN").map(String::as_str), Some("secret"));
    assert_eq!(
        env.get("DEVLOOP_EVENT_BROWSER_PATH_URL").map(String::as_str),
        Some("http://127.0.0.1:12345/events/browser_path")
    );
}

#[test]
fn nothing_is_exported_without_servers() {
    let mut env = NameMap::new();
    apply_external_event_env(&mut env, None);
    apply_browser_reload_env(&mut env, None);
    assert!(env.is_empty());
}

#[test]
fn event_variables_are_upper_case() {
    assert_eq!(event_url_env_var("browser_path"), "DEVLOOP_EVENT_BROWSER_PATH_URL");
    assert_eq!(event_url_env_var("a-B.9é"), "DEVLOOP_EVENT_A_B_9__URL");
}

#[test]
fn reload_servers_are_told_of() {
    assert_eq!(
        reload_environment("127.0.0.1:4455").events_url,
        "http://127.0.0.1:4455/browser-events"
    );
    assert_eq!(RELOAD_MESSAGE, "reload");
}

fn event_config(pattern: Option<&str>) -> Config {
    let mut config = base_config();
    config.event.insert(
        "browser_path".into(),
        EventSpec {
            state_key: "current_browser_path".into(),
            workflow: "publish_post_url".into(),
            pattern: pattern.map(String::from),
        },
    );
    config
}

#[test]
fn event_servers_are_planned_with_a_random_token() {
    assert!(plan_event_server(&base_config(), "127.0.0.1:1").expect("plan").is_none());

    let config = event_config(Some("^/posts/[a-z0-9-]+$"));
    let plan = plan_event_server(&config, "127.0.0.1:1").expect("plan").expect("server");
    assert_eq!(plan.environment.base_url, "http://127.0.0.1:1");
    assert_eq!(plan.environment.token.len(), 32);
    assert!(plan.environment.token.chars().all(|c| c.is_ascii_alphanumeric()));
    assert_eq!(
        plan.environment.event_urls.get("browser_path").map(String::as_str),
        Some("http://127.0.0.1:1/events/browser_path")
    );
    let other = plan_event_server(&config, "127.0.0.1:1").expect("plan").expect("server");
    assert_ne!(plan.environment.token, other.environment.token);

    assert_eq!(
        plan_event_server(&event_config(Some("(")), "127.0.0.1:1").expect_err("bad pattern"),
        EventServerError::InvalidPattern("(".into())
    );
}

fn post(
    events: &NameMap<CompiledEventSpec>,
    name: &str,
    authorization: Option<&str>,
    value: &str,
    state: &mut SessionState,
) -> EventOutcome {
    handle_event(events, "secret", name, authorization, value.into(), state)
}

#[test]
fn posted_events_are_checked_and_run_once() {
    let config = event_config(Some("^/posts/[a-z0-9-]+$"));
    let events = compile_event_specs(&config.event).expect("compile");
    let mut state = SessionState::with_values("state.json".into(), None);
    let key = "current_browser_path";
    let bearer = Some("Bearer secret");

    assert_eq!(post(&events, "other", bearer, "/posts/a", &mut state), EventOutcome::Unknown);
    assert_eq!(
        post(&events, "browser_path", Some("Bearer wrong"), "/posts/a", &mut state),
        EventOutcome::Unauthorized
    );
    assert_eq!(
        post(&events, "browser_path", None, "/posts/a", &mut state),
        EventOutcome::Unauthorized
    );
    assert_eq!(
        post(&events, "browser_path", bearer, "not-a-post", &mut state),
        EventOutcome::Rejected
    );
    assert_eq!(state.get_string(key), None);

    let message = ExternalEventMessage { workflow_name: "publish_post_url".into() };
    assert_eq!(
        post(&events, "browser_path", bearer, "/posts/example-post", &mut state),
        EventOutcome::Changed(message.clone())
    );
    assert_eq!(state.get_string(key).as_deref(), Some("/posts/example-post"));
    assert_eq!(
        post(&events, "browser_path", bearer, "/posts/example-post", &mut state),
        EventOutcome::Unchanged
    );
    assert_eq!(
        post(&events, "browser_path", bearer, "/posts/other", &mut state),
        EventOutcome::Changed(message)
    );
}

#[test]
fn events_without_a_pattern_take_any_value() {
    let config = event_config(None);
    let events = compile_event_specs(&config.event).expect("compile");
    let mut state = SessionState::with_values("state.json".into(), None);
    let outcome = post(&events, "browser_path", Some("Bearer secret"), "", &mut state);
    assert!(matches!(outcome, EventOutcome::Changed(_)));
}

#[test]
fn outcomes_have_their_status_codes() {
    let changed =
        EventOutcome::Changed(ExternalEventMessage { workflow_name: "publish_post_url".into() });
    assert_eq!(response_status(&EventOutcome::Unknown, true, true), 404);
    assert_eq!(response_status(&EventOutcome::Unauthorized, true, true), 401);
    assert_eq!(response_status(&EventOutcome::Rejected, true, true), 400);
    assert_eq!(response_status(&EventOutcome::Unchanged, true, true), 204);
    assert_eq!(response_status(&changed, true, true), 204);
    assert_eq!(response_status(&changed, true, false), 503);
    assert_eq!(response_status(&changed, false, true), 500);
}

#[test]
fn tokens_are_bearer_tokens() {
    assert!(token_matches(Some("Bearer x"), "x"));
    assert!(!token_matches(Some("bearer x"), "x"));
    assert!(!token_matches(Some("x"), "x"));
    assert!(!token_matches(None, "x"));
}

#[test]
fn event_server_updates_state_and_emits_workflow_message() {
    let config = event_config(Some("^/posts/[a-z0-9-]+$"));
    let plan = plan_event_server(&config, "127.0.0.1:12345").expect("plan").expect("event server");
    let bearer = format!("Bearer {}", plan.environment.token);
    let mut state = SessionState::with_values("state.json".into(), None);
    let value = "/posts/example-post";

    let first = handle_event(
        &plan.events,
        &plan.environment.token,
        "browser_path",
        Some(&bearer),
        value.into(),
        &mut state,
    );
    assert_eq!(response_status(&first, true, true), 204);
    assert_eq!(state.get_string("current_browser_path").as_deref(), Some(value));
    let message = ExternalEventMessage { workflow_name: "publish_post_url".into() };
    assert_eq!(first, EventOutcome::Changed(message));

    let again = handle_event(
        &plan.events,
        &plan.environment.token,
        "browser_path",
        Some(&bearer),
        value.into(),
        &mut state,
    );
    assert_eq!(response_status(&again, true, true), 204);
    assert_eq!(again, EventOutcome::Unchanged);
}

#[test]
fn event_server_rejects_wrong_token() {
    let config = event_config(None);
    let events = compile_event_specs(&config.event).expect("compile");
    let mut state = SessionState::with_values("state.json".into(), None);
    let outcome =
        post(&events, "browser_path", Some("Bearer wrong"), "/posts/example-post", &mut state);

    assert_eq!(response_status(&outcome, true, true), 401);
    assert_eq!(state.get_string("current_browser_path"), None);
    assert!(!matches!(outcome, EventOutcome::Changed(_)));
}

#[test]
fn event_server_rejects_values_that_fail_pattern() {
    let config = event_config(Some("^/posts/[a-z0-9-]+$"));
    let events = compile_event_specs(&config.event).expect("compile");
    let mut state = SessionState::with_values("state.json".into(), None);
    let outcome = post(&events, "browser_path", Some("Bearer secret"), "/admin", &mut state);

    assert_eq!(response_status(&outcome, true, true), 400);
    assert_eq!(state.get_string("current_browser_path"), None);
    assert!(!matches!(outcome, EventOutcome::Changed(_)));
}

#[test]
fn event_server_fails_loudly_when_workflow_dispatch_is_unavailable() {
    let config = event_config(None);
    let events = compile_event_specs(&config.event).expect("compile");
    let mut state = SessionState::with_values("state.json".into(), None);
    let outcome =
        post(&events, "browser_path", Some("Bearer secret"), "/posts/example-post", &mut state);

    assert_eq!(response_status(&outcome, true, false), 503);
    assert_eq!(state.get_string("current_browser_path").as_deref(), Some("/posts/example-post"));
}

#[test]
fn the_first_bad_event_pattern_is_reported() {
    let mut config = base_config();
    for (name, pattern) in [("c", "["), ("b", "("), ("a", "ok")] {
        config.event.insert(
            name.into(),
            EventSpec {
                state_key: "k".into(),
                workflow: "w".into(),
                pattern: Some(pattern.into()),
            },
        );
    }
    match plan_event_server(&config, "127.0.0.1:1") {
        Err(EventServerError::InvalidPattern(pattern)) => assert_eq!(pattern, "("),
        other => panic!("unexpected plan {other:?}"),
    }
}
