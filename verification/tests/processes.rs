use devloop::browser_reload::BrowserReloadEnvironment;
use devloop::commands::{
    configure_command, executable_display_name, process_output_source_label, resolve_cwd,
    resolve_program, CommandContext, CommandError, CommandPlan,
};
use devloop::config::{
    BrowserReloadServerConfig, CaptureMode, Config, EventServerConfig, HookOutputConfig, HookSpec,
    OutputBodyStyle, OutputConfig, OutputExtract, OutputRule, ProbeSpec, ProcessSpec,
    RestartPolicy,
};
use devloop::external_events::ExternalEventEnvironment;
use devloop::forward::{ForwardConfig, Forwarded, OutputForwarder};
use devloop::hooks::{apply_hook_capture, finish_hook, HookError, HookOutput};
use devloop::name_map::NameMap;
use devloop::output_rules::{
    clear_output_state_keys, compile_output_rules, extract_output_value, process_output_line,
    CompiledOutputRule,
};
use devloop::probes::{
    address_of_origin, expand_probe_env, http_probe_result, next_wait_step, probe_attempt_timeout,
    readiness_address, state_key_probe_result, timeout_error, ProbeReply, WaitStep,
};
use devloop::process_manager::{
    check_address, join_cleanup_errors, ProcessAction, ProcessError, ProcessManager, StartPlan,
};
use devloop::state::{snapshots_differ, SessionState};
use devloop::supervisor::ProcessEffect;
use devloop::termination::{next_stop_step, StepOutcome, StopStep};
use devloop::value::SessionValue;
use std::collections::VecDeque;

fn base_config() -> Config {
    Config {
        root: ".".into(),
        debounce_ms: 100,
        state_file: Some("./state.json".into()),
        startup_workflows: vec![],
        watch: NameMap::new(),
        process: NameMap::new(),
        hook: NameMap::new(),
        event_server: EventServerConfig::default(),
        browser_reload_server: BrowserReloadServerConfig::default(),
        event: NameMap::new(),
        workflow: NameMap::new(),
    }
}

fn env(pairs: Vec<(&str, &str)>) -> NameMap<String> {
    let mut env = NameMap::new();
    for (name, value) in pairs {
        env.insert(name.into(), value.into());
    }
    env
}

fn list(values: Vec<&str>) -> Vec<String> {
    values.into_iter().map(String::from).collect()
}

fn empty_state() -> SessionState {
    SessionState::with_values("/tmp/state.json".into(), None)
}

fn rule(pattern: &str) -> OutputRule {
    OutputRule {
        state_key: "url".into(),
        pattern: Some(pattern.into()),
        extract: OutputExtract::Regex,
        capture_group: 1,
    }
}

fn url_rules() -> Vec<CompiledOutputRule> {
    compile_output_rules(&vec![rule(r"(https://\S+)")]).expect("rules")
}

fn configure(
    command: Vec<&str>,
    own: &NameMap<String>,
    events: Option<&ExternalEventEnvironment>,
    reload: Option<&BrowserReloadEnvironment>,
    parent: &NameMap<String>,
) -> Result<CommandPlan, CommandError> {
    let changed_files = Vec::new();
    let context = CommandContext {
        env: own,
        external_event_env: events,
        browser_reload_env: reload,
        root: "/tmp",
        state_path: "/tmp/state.json",
        changed_files: &changed_files,
        workflow: "startup",
    };
    configure_command(&list(command), "/tmp".into(), &context, parent)
}

#[test]
fn extract_url_token_finds_cloudflare_url() {
    let rule = CompiledOutputRule {
        pattern: None,
        state_key: "tunnel_url".into(),
        extract: OutputExtract::UrlToken,
        capture_group: 1,
    };

    let value = extract_output_value(
        &rule,
        "INF | Your quick Tunnel has been created! Visit it: https://abc.trycloudflare.com |",
    );

    assert_eq!(value.as_deref(), Some("https://abc.trycloudflare.com"));
}

#[test]
fn url_tokens_lose_the_bars_around_them() {
    let rule = CompiledOutputRule {
        pattern: None,
        state_key: "tunnel_url".into(),
        extract: OutputExtract::UrlToken,
        capture_group: 1,
    };
    for (line, found) in [
        ("https://a.trycloudflare.com|| https://b.trycloudflare.com", Some("https://a.trycloudflare.com")),
        ("http://a.trycloudflare.com\u{a0}https://x.example https://c.trycloudflare.com/p", Some("https://c.trycloudflare.com/p")),
        ("|https://a.trycloudflare.com", None),
        ("https://trycloudflare.co", None),
        ("", None),
    ] {
        assert_eq!(extract_output_value(&rule, line).as_deref(), found);
    }
}

#[test]
fn regex_rules_take_their_group() {
    let mut rules = vec![rule("port (\\d+)/(\\w+)")];
    let line = "listening on port 8080/tcp";
    let compiled = compile_output_rules(&rules).expect("rules");
    assert_eq!(extract_output_value(&compiled[0], line).as_deref(), Some("8080"));
    rules[0].capture_group = 2;
    let compiled = compile_output_rules(&rules).expect("rules");
    assert_eq!(extract_output_value(&compiled[0], line).as_deref(), Some("tcp"));
    rules[0].capture_group = 3;
    let compiled = compile_output_rules(&rules).expect("rules");
    assert_eq!(extract_output_value(&compiled[0], line), None);
    assert_eq!(extract_output_value(&compiled[0], "nothing here"), None);
    rules[0].pattern = None;
    let compiled = compile_output_rules(&rules).expect("rules");
    assert_eq!(extract_output_value(&compiled[0], line), None);
    assert_eq!(
        compile_output_rules(&vec![rule("a"), rule("("), rule("[")]).expect_err("bad pattern"),
        "("
    );
}

#[test]
fn probe_attempt_timeout_is_bounded_by_probe_timeout() {
    assert_eq!(probe_attempt_timeout(100, 5000), 1000);
    assert_eq!(probe_attempt_timeout(750, 5000), 1500);
    assert_eq!(probe_attempt_timeout(750, 1200), 1200);
    assert_eq!(probe_attempt_timeout(u64::MAX, u64::MAX), u64::MAX);
}

#[test]
fn process_output_source_label_uses_executable_before_process_name() {
    let label = process_output_source_label(
        "build_css",
        &list(vec!["./scripts/build-css.sh", "--watch"]),
    );

    assert_eq!(label, "build-css.sh build_css");
    assert_eq!(process_output_source_label("p", &Vec::new()), "unknown p");
}

#[test]
fn executable_display_name_handles_plain_programs() {
    assert_eq!(executable_display_name("cloudflared"), "cloudflared");
    assert_eq!(executable_display_name("/usr/bin/env/"), "env");
    assert_eq!(executable_display_name(".."), "..");
    assert_eq!(executable_display_name("/"), "/");
}

#[test]
fn programs_with_a_directory_are_seen_from_the_root() {
    assert_eq!(resolve_program("/srv", "cargo"), "cargo");
    assert_eq!(resolve_program("/srv", "/bin/sh"), "/bin/sh");
    assert_eq!(resolve_program("/srv", "./run.sh"), "/srv/./run.sh");
    assert_eq!(resolve_program("/srv", "bin/run"), "/srv/bin/run");
    assert_eq!(resolve_cwd("/srv", &None), "/srv");
    assert_eq!(resolve_cwd("/srv", &Some("web".into())), "/srv/web");
    assert_eq!(resolve_cwd("/srv", &Some("/var".into())), "/var");
}

#[test]
fn configure_command_inherits_parent_rust_log_by_default() {
    let parent = env(vec![("RUST_LOG", "debug")]);
    let plan = configure(vec!["cargo", "run"], &NameMap::new(), None, None, &parent)
        .expect("configure command");

    assert_eq!(plan.env.get("RUST_LOG"), None);
    assert_eq!(plan.program, "cargo");
    assert_eq!(plan.args, vec!["run"]);
    assert_eq!(plan.cwd, "/tmp");
    assert_eq!(plan.env.get("DEVLOOP_ROOT").map(String::as_str), Some("/tmp"));
    assert_eq!(plan.env.get("DEVLOOP_STATE").map(String::as_str), Some("/tmp/state.json"));
    assert_eq!(plan.env.get("DEVLOOP_WORKFLOW").map(String::as_str), Some("startup"));
    assert_eq!(plan.env.get("DEVLOOP_CHANGED_FILES_JSON").map(String::as_str), Some("[]"));
}

#[test]
fn configure_command_keeps_explicit_rust_log_override() {
    let own = env(vec![("RUST_LOG", "info,gcp_rust_blog=debug")]);
    let parent = env(vec![("RUST_LOG", "debug")]);
    let plan =
        configure(vec!["cargo", "run"], &own, None, None, &parent).expect("configure command");

    assert_eq!(plan.env.get("RUST_LOG").map(String::as_str), Some("info,gcp_rust_blog=debug"));
}

#[test]
fn configure_command_expands_parent_env_in_command_args_and_env_values() {
    let own = env(vec![("PORT", "$CONTAINER_PORT")]);
    let parent = env(vec![("CONTAINER_PORT", "18080")]);
    let plan = configure(
        vec!["cloudflared", "tunnel", "--url", "http://127.0.0.1:$CONTAINER_PORT"],
        &own,
        None,
        None,
        &parent,
    )
    .expect("configure command");

    assert_eq!(plan.args, vec!["tunnel", "--url", "http://127.0.0.1:18080"]);
    assert_eq!(plan.env.get("PORT").map(String::as_str), Some("18080"));
}

#[test]
fn configure_command_reports_missing_env_references() {
    let none = NameMap::new();
    let error = configure(vec!["echo", "$MISSING_DEVLOOP_TEST_VAR"], &none, None, None, &none)
        .expect_err("missing env should fail");

    assert!(error.message().contains("command[1]"));
    assert!(error.message().contains("MISSING_DEVLOOP_TEST_VAR"));

    let own = env(vec![("A", "$")]);
    let error = configure(vec!["echo"], &own, None, None, &none).expect_err("bad value");
    assert_eq!(error.message(), "env.A contains trailing '$'");
    let error = configure(vec![], &own, None, None, &none).expect_err("no command");
    assert_eq!(error, CommandError::Empty);
    assert_eq!(error.message(), "command must not be empty");
}

#[test]
fn configure_command_injects_external_event_environment() {
    let external = ExternalEventEnvironment {
        base_url: "http://127.0.0.1:12345".into(),
        token: "secret".into(),
        event_urls: env(vec![("browser_path", "http://127.0.0.1:12345/events/browser_path")]),
    };
    let none = NameMap::new();
    let plan = configure(vec!["cargo", "run"], &none, Some(&external), None, &none)
        .expect("configure command");

    assert_eq!(plan.env.get("DEVLOOP_EVENTS_TOKEN").map(String::as_str), Some("secret"));
    assert_eq!(
        plan.env.get("DEVLOOP_EVENT_BROWSER_PATH_URL").map(String::as_str),
        Some("http://127.0.0.1:12345/events/browser_path")
    );
}

#[test]
fn configure_command_injects_browser_reload_environment() {
    let reload = BrowserReloadEnvironment {
        events_url: "http://127.0.0.1:4455/browser-events".into(),
    };
    let none = NameMap::new();
    let plan = configure(vec!["cargo", "run"], &none, None, Some(&reload), &none)
        .expect("configure command");

    assert_eq!(
        plan.env.get("DEVLOOP_BROWSER_EVENTS_URL").map(String::as_str),
        Some("http://127.0.0.1:4455/browser-events")
    );
}

fn forwarder(rules: Vec<CompiledOutputRule>, generation: u64, inherit: bool) -> OutputForwarder {
    OutputForwarder::new(
        ForwardConfig {
            label: "server example".into(),
            inherit,
            style: OutputBodyStyle::Plain,
            colorize: false,
            rules,
            generation,
        },
        true,
    )
}

fn forward(forwarder: &mut OutputForwarder, bytes: &[u8], state: &mut SessionState) -> Vec<Forwarded> {
    bytes.iter().map(|byte| forwarder.push(*byte, state, 1)).collect()
}

#[test]
fn process_output_byte_for_rules_handles_carriage_return_and_line_feed() {
    let mut state = empty_state();
    let mut forwarder = forwarder(url_rules(), 1, false);

    let forwarded = forward(&mut forwarder, b"https://example.test\r\n", &mut state);

    assert_eq!(state.get_string("url").as_deref(), Some("https://example.test"));
    assert_eq!(forwarded.iter().filter(|f| f.save_state).count(), 1);
}

#[test]
fn process_output_byte_for_rules_leaves_incomplete_line_buffered() {
    let mut state = empty_state();
    let mut forwarder = forwarder(url_rules(), 1, false);

    forward(&mut forwarder, b"https://example.test", &mut state);
    assert_eq!(state.get_string("url"), None);

    assert!(forwarder.finish(&mut state, 1).save_state);
    assert_eq!(state.get_string("url").as_deref(), Some("https://example.test"));
}

#[test]
fn retired_process_output_does_not_update_output_rule_state() {
    let mut state = empty_state();
    let mut forwarder = forwarder(url_rules(), 0, false);

    let forwarded = forward(&mut forwarder, b"https://stale.example.test\n", &mut state);

    assert_eq!(state.get_string("url"), None);
    assert!(forwarded.iter().all(|f| !f.save_state));
}

#[test]
fn persisted_process_output_is_source_labeled_when_terminal_inheritance_is_disabled() {
    let mut state = empty_state();
    let mut forwarder = forwarder(Vec::new(), 1, false);
    let forwarded = forward(&mut forwarder, b"first\r\nsecond", &mut state);
    let mut log: Vec<u8> = forwarded.iter().filter_map(|f| f.log.clone()).flatten().collect();
    assert!(forwarded.iter().all(|f| f.terminal.is_none()));
    let last = forwarder.finish(&mut state, 1);
    assert_eq!(last.terminal, None);
    log.extend(last.log.expect("last line"));

    assert_eq!(
        String::from_utf8(log).expect("utf8"),
        "[server example] first\n[server example] second\n"
    );
}

#[test]
fn output_reaches_terminal_and_log_until_the_log_fails() {
    let mut state = empty_state();
    let mut forwarder = forwarder(Vec::new(), 1, true);
    let first = forward(&mut forwarder, b"a\n", &mut state).pop().expect("byte");
    assert_eq!(first.log.as_deref(), Some(b"[server example] a\n".as_slice()));
    assert_eq!(first.terminal.as_deref(), Some(b"[server example] a\n".as_slice()));
    forwarder.stop_logging();
    let second = forward(&mut forwarder, b"b\n", &mut state).pop().expect("byte");
    assert_eq!(second.log, None);
    assert_eq!(second.terminal.as_deref(), Some(b"[server example] b\n".as_slice()));
    forward(&mut forwarder, b"c", &mut state);
    let last = forwarder.finish(&mut state, 1);
    assert_eq!(last.log, None);
    assert_eq!(last.terminal.as_deref(), Some(b"[server example] c".as_slice()));
}

#[test]
fn rules_write_lossy_lines_without_their_ends() {
    let mut state = empty_state();
    let rules = compile_output_rules(&vec![rule("^(.*)$")]).expect("rules");
    assert!(process_output_line(b"a\xffb\r\n", &rules, &mut state, 3, 3));
    assert_eq!(state.get_string("url").as_deref(), Some("a\u{fffd}b"));
    assert!(!process_output_line(b"a\xffb", &rules, &mut state, 3, 3));
    assert!(!process_output_line(b"c", &rules, &mut state, 3, 4));
}

#[test]
fn state_key_probe_reads_shared_session_state() {
    let mut state = empty_state();
    assert_eq!(
        state_key_probe_result("tunnel_url", &state),
        Err("state key 'tunnel_url' is empty".into())
    );
    state.set("tunnel_url".into(), SessionValue::String(" \t".into()));
    assert!(state_key_probe_result("tunnel_url", &state).is_err());
    state.set(
        "tunnel_url".into(),
        SessionValue::String("https://abc.trycloudflare.com".into()),
    );
    state_key_probe_result("tunnel_url", &state).expect("probe should succeed");
}

#[test]
fn expands_http_probe_urls_from_parent_env() {
    let expanded = expand_probe_env(
        "server",
        &ProbeSpec::Http {
            url: "http://127.0.0.1:$CONTAINER_PORT/".into(),
            interval_ms: 100,
            timeout_ms: 1000,
        },
        &env(vec![("CONTAINER_PORT", "18080")]),
    )
    .expect("expand probe");

    match expanded {
        ProbeSpec::Http { url, .. } => assert_eq!(url, "http://127.0.0.1:18080/"),
        ProbeSpec::StateKey { .. } => panic!("expected http probe"),
    }

    let probe = ProbeSpec::Http { url: "$X".into(), interval_ms: 1, timeout_ms: 2 };
    let error = expand_probe_env("server", &probe, &NameMap::new()).expect_err("missing");
    assert_eq!(
        error.message(),
        "process 'server' http probe url references missing environment variable 'X'"
    );
}

#[test]
fn http_probes_succeed_on_success_statuses() {
    let status = |code: u16, text: &str| ProbeReply::Status { code, text: text.into() };
    assert_eq!(http_probe_result("p", "u", &status(200, "200 OK")), Ok(()));
    assert_eq!(http_probe_result("p", "u", &status(299, "299")), Ok(()));
    assert_eq!(
        http_probe_result("p", "u", &status(300, "300 Multiple Choices")),
        Err("probe for 'p' at u returned 300 Multiple Choices".into())
    );
    assert_eq!(
        http_probe_result("p", "u", &ProbeReply::Failed { error: "refused".into() }),
        Err("probe for 'p' at u failed: refused".into())
    );
}

#[test]
fn probes_are_waited_for_until_their_time_is_up() {
    let probe = ProbeSpec::StateKey { key: "k".into(), interval_ms: 250, timeout_ms: 1000 };
    assert_eq!(next_wait_step("p", &probe, true, true, 5000), WaitStep::Ready);
    assert_eq!(next_wait_step("p", &probe, false, true, 0), WaitStep::Exited);
    assert_eq!(next_wait_step("p", &probe, true, false, 999), WaitStep::Retry { after_ms: 250 });
    assert_eq!(
        next_wait_step("p", &probe, true, false, 1000),
        WaitStep::TimedOut { message: "timed out waiting for process 'p' state key k".into() }
    );
    let probe = ProbeSpec::Http { url: "http://x/".into(), interval_ms: 1, timeout_ms: 1 };
    assert_eq!(timeout_error("p", &probe), "timed out waiting for process 'p' probe http://x/");
}

fn hook(capture: Option<CaptureMode>) -> HookSpec {
    HookSpec {
        command: list(vec!["./hook.sh", "$ARG"]),
        cwd: Some("scripts".into()),
        env: NameMap::new(),
        output: HookOutputConfig::default(),
        capture,
        state_key: Some("slug".into()),
        observe: None,
    }
}

#[test]
fn hooks_capture_text_and_json() {
    let mut state = empty_state();
    assert_eq!(apply_hook_capture(&hook(None), "x", &mut state), Ok(false));
    assert_eq!(apply_hook_capture(&hook(Some(CaptureMode::Ignore)), "x", &mut state), Ok(false));

    let text = hook(Some(CaptureMode::Text));
    assert_eq!(finish_hook(&text, "h", true, "0", b"  a post \n", &mut state), Ok(true));
    assert_eq!(state.get_string("slug").as_deref(), Some("a post"));
    assert_eq!(finish_hook(&text, "h", true, "0", b"a post", &mut state), Ok(false));

    let json = hook(Some(CaptureMode::Json));
    let printed = br#"{"slug": "b", "n": 1.50, "list": [true, null, {"z": "1", "a": -2}]}"#;
    assert_eq!(finish_hook(&json, "h", true, "0", printed, &mut state), Ok(true));
    assert_eq!(state.get_string("slug").as_deref(), Some("b"));
    assert_eq!(state.get_string("n"), None);
    let snapshot = state.snapshot();
    assert_eq!(snapshot.get("n"), Some(&SessionValue::Number("1.5".into())));
    assert_eq!(
        snapshot.get("list"),
        Some(&SessionValue::Array(vec![
            SessionValue::Bool(true),
            SessionValue::Null,
            SessionValue::Object(vec![
                ("a".into(), SessionValue::Number("-2".into())),
                ("z".into(), SessionValue::String("1".into())),
            ]),
        ]))
    );
    assert_eq!(finish_hook(&json, "h", true, "0", printed, &mut state), Ok(false));
}

#[test]
fn failed_hooks_change_nothing() {
    let mut state = empty_state();
    let json = hook(Some(CaptureMode::Json));
    let before = state.snapshot();
    let failed = finish_hook(&json, "h", false, "exit status: 3", b"{\"a\": 1}", &mut state);
    assert_eq!(failed.unwrap_err().message(), "hook 'h' failed with status exit status: 3");
    let failed = finish_hook(&json, "h", true, "0", b"\xff", &mut state);
    assert_eq!(failed.unwrap_err().message(), "hook 'h' produced non-utf8 stdout");
    assert_eq!(finish_hook(&json, "h", true, "0", b"[1]", &mut state), Err(HookError::NotJson));
    assert_eq!(HookError::NotJson.message(), "hook stdout was not valid JSON");
    assert!(!snapshots_differ(&before, &state.snapshot()));
}

#[test]
fn hook_output_is_persisted_when_terminal_inheritance_is_disabled() {
    let mut config = base_config();
    config.hook.insert(
        "capture".into(),
        HookSpec {
            command: list(vec!["sh", "-c", "printf durable-hook"]),
            cwd: None,
            env: NameMap::new(),
            output: HookOutputConfig { inherit: false, body_style: OutputBodyStyle::Dim },
            capture: None,
            state_key: None,
            observe: None,
        },
    );
    let manager = ProcessManager::new(&config);
    let (_, label) = manager
        .hook_command(&config, "capture", &NameMap::new(), &empty_state(), &Vec::new(), "test")
        .expect("hook command");
    let mut output = HookOutput::new(label, true);
    let mut log = Vec::new();
    for byte in b"durable-hook" {
        log.extend(output.push(*byte).into_iter().flatten());
    }
    let (_, last) = output.finish();
    log.extend(last.into_iter().flatten());

    assert_eq!(String::from_utf8(log).expect("utf8"), "[sh capture] durable-hook\n");
}

#[test]
fn hook_output_is_collected_and_logged_line_by_line() {
    let mut output = HookOutput::new("build.sh css".into(), true);
    let mut log = Vec::new();
    for byte in b"one\r\ntwo" {
        log.extend(output.push(*byte).into_iter().flatten());
    }
    let (bytes, last) = output.finish();
    log.extend(last.expect("last line"));
    assert_eq!(bytes, b"one\r\ntwo");
    assert_eq!(
        String::from_utf8(log).expect("utf8"),
        "[build.sh css] one\n[build.sh css] two\n"
    );

    let mut output = HookOutput::new("l".into(), true);
    output.stop_logging();
    assert_eq!(output.push(b'\n'), None);
    assert_eq!(output.finish(), (b"\n".to_vec(), None));
}

fn managed_config() -> Config {
    let mut config = base_config();
    config.root = "/srv".into();
    config.process.insert(
        "tunnel".into(),
        ProcessSpec {
            command: list(vec!["bin/tunnel", "--port", "$PORT"]),
            cwd: Some("web".into()),
            autostart: true,
            readiness: Some(ProbeSpec::StateKey {
                key: "url".into(),
                interval_ms: 10,
                timeout_ms: 20,
            }),
            liveness: Some(ProbeSpec::Http {
                url: "http://127.0.0.1:$PORT/".into(),
                interval_ms: 100,
                timeout_ms: 200,
            }),
            restart: RestartPolicy::OnFailure,
            env: env(vec![("A", "$PORT")]),
            output: OutputConfig {
                inherit: false,
                body_style: OutputBodyStyle::Dim,
                rules: vec![rule(r"(https://\S+)")],
            },
        },
    );
    config.hook.insert("build".into(), hook(None));
    config
}

fn start(manager: &mut ProcessManager, config: &Config, state: &mut SessionState) -> StartPlan {
    let parent = env(vec![("PORT", "8080")]);
    manager.start_named(config, "tunnel", &parent, state).0.expect("plan").expect("start")
}

#[test]
fn starting_a_process_clears_what_it_wrote() {
    let config = managed_config();
    let mut manager = ProcessManager::new(&config);
    let mut state = empty_state();
    state.set("url".into(), SessionValue::String("https://stale.test".into()));

    let parent = env(vec![("PORT", "8080")]);
    let (plan, save) = manager.start_named(&config, "tunnel", &parent, &mut state);
    let plan = plan.expect("plan").expect("start");
    assert!(save);
    assert_eq!(state.get_string("url").as_deref(), Some(""));
    assert_eq!(plan.command.program, "/srv/bin/tunnel");
    assert_eq!(plan.command.args, vec!["--port", "8080"]);
    assert_eq!(plan.command.cwd, "/srv/web");
    assert_eq!(plan.command.env.get("A").map(String::as_str), Some("8080"));
    assert_eq!(plan.command.env.get("DEVLOOP_STATE").map(String::as_str), Some("/tmp/state.json"));
    assert_eq!(plan.label, "tunnel tunnel");
    assert_eq!(plan.generation, 1);
    assert!(!plan.inherit);
    assert_eq!(plan.body_style, OutputBodyStyle::Dim);
    assert_eq!(plan.rules.len(), 1);
    assert!(!manager.is_running("tunnel"));
}

#[test]
fn failed_starts_clear_too() {
    let config = managed_config();
    let mut manager = ProcessManager::new(&config);
    let mut state = empty_state();
    state.set("url".into(), SessionValue::String("https://stale.test".into()));
    let (result, save) = manager.start_named(&config, "tunnel", &NameMap::new(), &mut state);
    assert_eq!(
        result.expect_err("missing variable").message(),
        "command[2] references missing environment variable 'PORT'"
    );
    assert!(save);
    assert_eq!(state.get_string("url").as_deref(), Some(""));
    assert_eq!(manager.generation("tunnel"), Some(1));

    let (result, save) = manager.start_named(&config, "nobody", &NameMap::new(), &mut state);
    assert_eq!(result.expect_err("unknown"), ProcessError::Unknown("nobody".into()));
    assert!(!save);
}

#[test]
fn running_processes_are_not_started_again() {
    let config = managed_config();
    let mut manager = ProcessManager::new(&config);
    let mut state = empty_state();
    start(&mut manager, &config, &mut state);
    manager.on_started("tunnel");
    assert!(manager.is_running("tunnel"));
    let parent = env(vec![("PORT", "8080")]);
    state.set("url".into(), SessionValue::String("https://x.test".into()));
    let generation = manager.generation("tunnel");
    let (result, save) = manager.start_named(&config, "tunnel", &parent, &mut state);
    assert!(result.expect("nothing").is_none());
    assert!(!save);
    let spec = config.process.get("tunnel").expect("process");
    let (result, save) = manager.start(&config, "tunnel", spec, &parent, &mut state);
    assert!(result.expect("nothing").is_none());
    assert!(!save);
    assert_eq!(state.get_string("url").as_deref(), Some("https://x.test"));
    assert_eq!(manager.generation("tunnel"), generation);
}

#[test]
fn commands_are_refused_before_patterns() {
    let mut config = managed_config();
    let mut spec = config.process.remove("tunnel").expect("process");
    spec.output.rules = vec![rule("(")];
    config.process.insert("tunnel".into(), spec);
    let mut manager = ProcessManager::new(&config);
    let mut state = empty_state();
    let (result, _) = manager.start_named(&config, "tunnel", &NameMap::new(), &mut state);
    assert!(matches!(result, Err(ProcessError::Command(_))));
    let parent = env(vec![("PORT", "8080")]);
    let (result, _) = manager.start_named(&config, "tunnel", &parent, &mut state);
    assert_eq!(result.expect_err("pattern"), ProcessError::InvalidPattern("(".into()));
}

#[test]
fn stopping_a_process_retires_its_output() {
    let config = managed_config();
    let mut manager = ProcessManager::new(&config);
    let mut state = empty_state();
    assert!(!manager.begin_stop("tunnel"));
    let plan = start(&mut manager, &config, &mut state);
    manager.on_started("tunnel");
    state.set("url".into(), SessionValue::String("https://x.test".into()));
    assert!(manager.begin_stop("tunnel"));
    assert!(manager.on_stopped(&config, "tunnel", &mut state));
    assert_eq!(state.get_string("url").as_deref(), Some(""));
    assert_ne!(manager.generation("tunnel"), Some(plan.generation));
    assert!(!manager.is_running("tunnel"));
}

#[test]
fn only_running_processes_are_waited_for() {
    let config = managed_config();
    let mut manager = ProcessManager::new(&config);
    let error = manager.readiness_of(&config, "tunnel").expect_err("not running");
    assert_eq!(error, ProcessError::NotRunning("tunnel".into()));
    assert_eq!(error.message(), "process 'tunnel' is not running");
    assert_eq!(
        manager.readiness_of(&config, "x").expect_err("unknown").message(),
        "unknown process 'x'"
    );
    manager.on_started("tunnel");
    assert!(matches!(
        manager.readiness_of(&config, "tunnel"),
        Ok(Some(ProbeSpec::StateKey { .. }))
    ));
}

#[test]
fn exited_processes_are_restarted_by_their_policy() {
    let config = managed_config();
    let mut manager = ProcessManager::new(&config);
    let mut state = empty_state();
    manager.on_started("tunnel");
    state.set("url".into(), SessionValue::String("https://x.test".into()));
    let exits = vec![("tunnel".to_string(), false)];
    let (effects, save) = manager.maintain(&config, 1, exits, &mut state);
    assert_eq!(effects, vec![ProcessEffect::StartProcess { process: "tunnel".into() }]);
    assert!(save);
    assert_eq!(state.get_string("url").as_deref(), Some(""));
    assert!(!manager.is_running("tunnel"));

    manager.on_started("tunnel");
    let exits = vec![("tunnel".to_string(), true)];
    let (effects, save) = manager.maintain(&config, 1, exits, &mut state);
    assert_eq!(effects, vec![]);
    assert!(!save);
}

#[test]
fn shutting_down_stops_what_runs_and_starts_nothing() {
    let config = managed_config();
    let mut manager = ProcessManager::new(&config);
    let mut state = empty_state();
    manager.on_started("tunnel");
    assert_eq!(
        manager.stop_all(),
        vec![ProcessEffect::StopProcess { process: "tunnel".into() }]
    );
    assert!(manager.is_shutting_down());
    let parent = env(vec![("PORT", "1")]);
    assert!(manager.begin_stop("tunnel"));
    let (result, _) = manager.start_named(&config, "tunnel", &parent, &mut state);
    assert!(result.expect("nothing").is_none());
    let exits = vec![("tunnel".to_string(), false)];
    assert_eq!(manager.maintain(&config, 1, exits, &mut state).0, vec![]);
}

#[test]
fn liveness_checks_lead_to_restarts() {
    let config = managed_config();
    let mut manager = ProcessManager::new(&config);
    let mut state = empty_state();
    manager.on_started("tunnel");
    let (effects, _) = manager.maintain(&config, 1, Vec::new(), &mut state);
    let mut pending: VecDeque<ProcessEffect> = effects.into_iter().collect();
    pending.push_front(ProcessEffect::CheckLiveness { process: "unknown".into() });
    let parent = env(vec![("PORT", "8080")]);
    match manager.next_action(&mut pending, &config, &parent) {
        Some(ProcessAction::Probe { process, probe: ProbeSpec::Http { url, .. } }) => {
            assert_eq!(process, "tunnel");
            assert_eq!(url, "http://127.0.0.1:8080/");
        }
        other => panic!("unexpected action {other:?}"),
    }
    manager.on_liveness_result(&mut pending, &config, "tunnel", false, 1);
    match manager.next_action(&mut pending, &config, &parent) {
        Some(ProcessAction::Restart { process }) => assert_eq!(process, "tunnel"),
        other => panic!("unexpected action {other:?}"),
    }
    assert!(manager.next_action(&mut pending, &config, &parent).is_none());

    pending.push_back(ProcessEffect::CheckLiveness { process: "tunnel".into() });
    match manager.next_action(&mut pending, &config, &NameMap::new()) {
        Some(ProcessAction::Unhealthy { process, error }) => {
            assert_eq!(process, "tunnel");
            assert_eq!(
                error.message(),
                "process 'tunnel' http probe url references missing environment variable 'PORT'"
            );
        }
        other => panic!("unexpected action {other:?}"),
    }
    assert_eq!(
        manager.autostart_effects(&config),
        vec![ProcessEffect::StartProcess { process: "tunnel".into() }]
    );
}

#[test]
fn hooks_get_their_command_and_what_changed() {
    let config = managed_config();
    let mut manager = ProcessManager::new(&config);
    manager.set_browser_reload_env(Some(BrowserReloadEnvironment { events_url: "u".into() }));
    manager.set_external_event_env(None);
    let state = empty_state();
    let parent = env(vec![("ARG", "x")]);
    let changed = list(vec!["a \"b\".css", "c"]);
    let (command, label) = manager
        .hook_command(&config, "build", &parent, &state, &changed, "css")
        .expect("hook command");
    assert_eq!(label, "hook.sh build");
    assert_eq!(command.program, "/srv/./hook.sh");
    assert_eq!(command.args, vec!["x"]);
    assert_eq!(command.cwd, "/srv/scripts");
    assert_eq!(
        command.env.get("DEVLOOP_CHANGED_FILES_JSON").map(String::as_str),
        Some(r#"["a \"b\".css","c"]"#)
    );
    assert_eq!(command.env.get("DEVLOOP_WORKFLOW").map(String::as_str), Some("css"));
    assert_eq!(command.env.get("DEVLOOP_BROWSER_EVENTS_URL").map(String::as_str), Some("u"));
    let error = manager
        .hook_command(&config, "none", &parent, &state, &changed, "css")
        .expect_err("unknown hook");
    assert_eq!(error.message(), "unknown hook 'none'");
}

#[test]
fn clearing_empties_the_keys_of_the_rules() {
    let mut state = empty_state();
    state.set("other".into(), SessionValue::Bool(true));
    assert!(clear_output_state_keys(&vec![rule("a")], &mut state));
    assert_eq!(state.get_string("url").as_deref(), Some(""));
    assert!(!clear_output_state_keys(&vec![rule("a"), rule("b")], &mut state));
    assert_eq!(state.snapshot().get("other"), Some(&SessionValue::Bool(true)));
}

#[test]
fn cleanup_errors_are_joined() {
    assert_eq!(
        join_cleanup_errors(&list(vec!["a", "b: c"])),
        "shutdown cleanup failed: a; b: c"
    );
}

fn stop_with(mut outcomes: Vec<StepOutcome>) -> Vec<StopStep> {
    outcomes.reverse();
    let mut step = StopStep::Look;
    let mut steps = vec![step];
    while step != StopStep::Stopped && step != StopStep::AlreadyGone {
        step = next_stop_step(step, outcomes.pop().unwrap_or(StepOutcome::NotYet));
        steps.push(step);
    }
    steps
}

#[test]
fn processes_are_stopped_gently_then_by_force() {
    assert_eq!(
        stop_with(vec![StepOutcome::Done]),
        vec![StopStep::Look, StopStep::ClearGroup, StopStep::AlreadyGone]
    );
    assert_eq!(
        stop_with(vec![StepOutcome::NotYet, StepOutcome::Done, StepOutcome::Done]),
        vec![
            StopStep::Look,
            StopStep::AskToStop,
            StopStep::AwaitExit,
            StopStep::KillRest,
            StopStep::Stopped
        ]
    );
    assert_eq!(
        stop_with(vec![]),
        vec![
            StopStep::Look,
            StopStep::AskToStop,
            StopStep::AwaitExit,
            StopStep::KillGroup,
            StopStep::AwaitReap,
            StopStep::KillGuardian,
            StopStep::Reap,
            StopStep::Stopped
        ]
    );
}

fn http(url: &str) -> ProbeSpec {
    ProbeSpec::Http { url: url.into(), interval_ms: 20, timeout_ms: 5000 }
}

#[test]
fn loopback_probes_name_the_address_of_their_process() {
    for (url, address) in [
        ("http://127.0.0.1:8787/__devloop_generation", Some("127.0.0.1:8787")),
        ("http://127.1:80/", Some("127.0.0.1:80")),
        ("http://LOCALHOST/x", Some("localhost:80")),
        ("https://localhost/", Some("localhost:443")),
        ("http://[::1]:3000/", Some("[::1]:3000")),
        ("http://user@127.0.0.2:9/", Some("127.0.0.2:9")),
        ("http://127.example.com/", None),
        ("http://128.0.0.1/", None),
        ("ws://127.0.0.1:1/", None),
        ("not a url", None),
        ("", None),
    ] {
        assert_eq!(readiness_address(&http(url)).as_deref(), address, "{url}");
    }
    let key = ProbeSpec::StateKey { key: "k".into(), interval_ms: 1, timeout_ms: 1 };
    assert_eq!(readiness_address(&key), None);
    assert_eq!(address_of_origin("http", "localhost", 7).as_deref(), Some("localhost:7"));
    assert_eq!(address_of_origin("ftp", "localhost", 7), None);
    assert_eq!(address_of_origin("http", "127.0.0.x", 7), None);
}

#[test]
fn startup_fails_once_when_a_managed_address_is_occupied() {
    let mut config = managed_config();
    let mut spec = config.process.remove("tunnel").expect("process");
    spec.readiness = Some(http("http://127.0.0.1:$PORT/"));
    config.process.insert("server".into(), spec);
    let mut manager = ProcessManager::new(&config);
    let mut state = empty_state();
    let parent = env(vec![("PORT", "4567")]);
    let (plan, _) = manager.start_named(&config, "server", &parent, &mut state);
    let address = plan.expect("plan").expect("start").address.expect("address");
    assert_eq!(address, "127.0.0.1:4567");

    assert_eq!(check_address("server", &address, false), Ok(()));
    let error = check_address("server", &address, true).expect_err("collision");
    assert_eq!(
        error.message(),
        "process 'server' cannot start: address 127.0.0.1:4567 is already in use"
    );
    assert!(error.is_failed_start());
    assert!(!manager.is_running("server"));
}

#[test]
fn exits_while_waiting_are_failed_starts() {
    let error = ProcessError::Exited("server".into());
    assert!(error.is_failed_start());
    assert_eq!(error.message(), "process 'server' exited before it was ready");
    assert!(!ProcessError::NotRunning("server".into()).is_failed_start());
}

#[test]
fn finish_output_cleanup_tasks_drains_all_failures() {
    let message = join_cleanup_errors(&list(vec![
        "first cleanup failure",
        "second cleanup failure",
    ]));

    assert!(message.contains("first cleanup failure"));
    assert!(message.contains("second cleanup failure"));
}
