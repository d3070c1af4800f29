use devloop::banner::{boxed_banner_lines, workflow_log_lines};
use devloop::config::{
    BrowserReloadServerConfig, CaptureMode, Config, EventServerConfig, EventSpec, HookOutputConfig,
    HookSpec, LogStyle, ObservedHookSpec, WatchGroup, WorkflowSpec, WorkflowStep,
};
use devloop::engine::{ActionOutcome, Engine, EngineError, EngineEvent, RuntimeAction, Settled};
use devloop::external_events::ExternalEventMessage;
use devloop::name_map::NameMap;
use devloop::value::SessionValue;
use devloop::watch::{
    classify_events, group_by_workflow, relative_paths, relativize_event_path, BatchInput,
    BatchStep, CompiledWatchGroup, EventBatch, FileEvent, FileEventKind, WatchError,
};
use devloop::workflow::{WorkflowEffect, WorkflowMachine};
use unicode_width::UnicodeWidthStr;

fn base_config() -> Config {
    Config {
        root: ".".into(),
        debounce_ms: 100,
        state_file: Some("./state.json".into()),
        startup_workflows: vec![],
        watch: NameMap::new(),
        process: NameMap::new(),
        hook: NameMap::new(),
        event_server: EventServerConfig::default(),
        browser_reload_server: BrowserReloadServerConfig::default(),
        event: NameMap::new(),
        workflow: NameMap::new(),
    }
}

fn group(patterns: Vec<&str>, workflow: &str) -> CompiledWatchGroup {
    WatchGroup {
        paths: patterns.into_iter().map(String::from).collect(),
        workflow: Some(workflow.into()),
    }
    .compile("test")
    .expect("watch group")
}

fn modified(path: &str) -> FileEvent {
    FileEvent { kind: FileEventKind::Modify, paths: vec![path.into()] }
}

#[test]
fn classify_changes_by_workflow() {
    let root = "/tmp/example";
    let groups =
        vec![group(vec!["src/**/*.rs"], "server"), group(vec!["content/**/*.md"], "content")];
    let events = vec![
        modified("/tmp/example/src/main.rs"),
        modified("/tmp/example/content/posts/example.md"),
    ];
    let grouped = classify_events(root, &groups, &events);
    assert_eq!(grouped.get("server"), Some(&vec!["src/main.rs".to_string()]));
    assert_eq!(grouped.get("content"), Some(&vec!["content/posts/example.md".to_string()]));
    assert_eq!(grouped.len(), 2);
}

#[test]
fn classify_changes_by_workflow_accepts_private_var_event_paths() {
    let root = "/var/folders/example/tmp";
    let groups = vec![group(vec!["watched.txt"], "content")];
    let events = vec![modified("/private/var/folders/example/tmp/watched.txt")];

    let grouped = classify_events(root, &groups, &events);

    assert_eq!(grouped.get("content"), Some(&vec!["watched.txt".to_string()]));
}

#[test]
fn changes_are_grouped_once_each_and_in_order() {
    let groups = vec![
        group(vec!["*.css"], "site"),
        group(vec!["a.css", "**/*.md"], "site"),
        group(vec!["*.css"], "other"),
    ];
    let events = vec![
        modified("/r/b.css"),
        modified("/r//a.css"),
        modified("/r/b.css"),
        modified("/elsewhere/c.css"),
        FileEvent { kind: FileEventKind::Access, paths: vec!["/r/d.css".into()] },
        FileEvent { kind: FileEventKind::Remove, paths: vec!["/r/x.txt".into(), "/r/n/e.md".into()] },
    ];
    let grouped = classify_events("/r", &groups, &events);
    assert_eq!(
        grouped.get("site"),
        Some(&vec!["a.css".to_string(), "b.css".to_string(), "n/e.md".to_string()])
    );
    assert_eq!(grouped.get("other"), Some(&vec!["a.css".to_string(), "b.css".to_string()]));
}

#[test]
fn literal_directories_cover_what_lies_below_them() {
    let groups = vec![group(vec!["content/"], "content")];
    let paths = vec!["content/posts/a.md".to_string(), "other/content/b.md".to_string()];
    let grouped = group_by_workflow(&groups, &paths);
    assert_eq!(grouped.get("content"), Some(&vec!["content/posts/a.md".to_string()]));
}

#[test]
fn invalid_globs_are_refused_with_their_group() {
    let group = WatchGroup { paths: vec!["ok".into(), "a{".into(), "[".into()], workflow: None };
    let error = group.compile("rust").expect_err("invalid glob");
    assert_eq!(error, WatchError::InvalidGlob { pattern: "a{".into(), group: "rust".into() });
    assert_eq!(error.message(), "invalid glob 'a{' in watch group 'rust'");
    assert_eq!(group.workflow_name("rust"), Some("rust"));
}

#[test]
fn the_session_log_sets_nothing_off() {
    let events = vec![modified("/r/.devloop/logs/one.log"), modified("/r/.devloop/logs/two.log")];
    let log = Some("/r/./.devloop/logs/one.log".to_string());
    assert_eq!(relative_paths("/r", &events, &log), vec![".devloop/logs/two.log"]);
}

#[test]
fn event_paths_are_seen_from_the_root() {
    assert_eq!(relativize_event_path("/r", "/r/a/b").as_deref(), Some("a/b"));
    assert_eq!(relativize_event_path("/r/", "/r/a//b/").as_deref(), Some("a//b"));
    assert_eq!(relativize_event_path("/r", "/r").as_deref(), Some(""));
    assert_eq!(relativize_event_path("/r", "/rr/a"), None);
    assert_eq!(relativize_event_path("/", "/private/x").as_deref(), Some("private/x"));
    assert_eq!(relativize_event_path("r", "/private/r/x"), None);
}

#[test]
fn boxed_banner_lines_wrap_message() {
    let lines = boxed_banner_lines("current post url: https://example.test/posts/x");
    assert_eq!(lines[0], lines[2]);
    assert_eq!(lines[1], "|  current post url: https://example.test/posts/x  |");
}

#[test]
fn boxed_banner_lines_use_display_width() {
    let lines = boxed_banner_lines("URL 測試");
    assert_eq!(lines[0], lines[2]);
    assert_eq!(UnicodeWidthStr::width(lines[0].as_str()), 14);
    assert_eq!(UnicodeWidthStr::width(lines[1].as_str()), 14);
}

#[test]
fn log_messages_are_shown_in_their_style() {
    assert_eq!(workflow_log_lines(LogStyle::Plain, "ready"), Some(vec!["ready".to_string()]));
    assert_eq!(
        workflow_log_lines(LogStyle::Boxed, "ab"),
        Some(vec!["+------+".to_string(), "|  ab  |".to_string(), "+------+".to_string()])
    );
}

/// Performs the effects of a workflow, and writes down what was done.
fn run_workflow_machine(
    config: &Config,
    state: &mut NameMap<SessionValue>,
    workflow: &str,
    files: Vec<String>,
) -> Vec<String> {
    let mut calls = Vec::new();
    let mut machine =
        WorkflowMachine::start(config, state.clone(), workflow, &files).expect("start workflow");
    while let Some(effect) = machine.next_effect(config).expect("next effect") {
        match effect {
            WorkflowEffect::StartProcess { process } => calls.push(format!("start:{process}")),
            WorkflowEffect::StopProcess { process } => calls.push(format!("stop:{process}")),
            WorkflowEffect::RestartProcess { process } => calls.push(format!("restart:{process}")),
            WorkflowEffect::WaitForProcess { process } => calls.push(format!("wait:{process}")),
            WorkflowEffect::RunHook { hook, workflow_name, changed_files } => calls
                .push(format!("hook:{hook}:{workflow_name}:{}", changed_files.join(","))),
            WorkflowEffect::SleepMs { duration_ms } => calls.push(format!("sleep:{duration_ms}")),
            WorkflowEffect::PersistState { key, value } => {
                calls.push(format!("persist:{key}"));
                state.insert(key, value);
            }
            WorkflowEffect::Log { message, style } => calls.push(format!("log:{style:?}:{message}")),
            WorkflowEffect::NotifyReload => calls.push("notify_reload".into()),
        }
        machine.replace_session(state.clone());
    }
    calls
}

#[test]
fn workflow_machine_can_run_against_mock_adapter() {
    let mut config = base_config();
    config.workflow.insert(
        "startup".into(),
        WorkflowSpec {
            steps: vec![
                WorkflowStep::WriteState {
                    key: "url".into(),
                    value: "https://example.test/{{slug}}".into(),
                },
                WorkflowStep::RunHook { hook: "build_css".into() },
                WorkflowStep::Log { message: "ready {{url}}".into(), style: LogStyle::Plain },
                WorkflowStep::NotifyReload,
            ],
            triggers: vec![],
        },
    );
    let mut state = NameMap::new();
    state.insert("slug".into(), SessionValue::String("post".into()));

    let calls = run_workflow_machine(&config, &mut state, "startup", vec!["tailwind.css".into()]);

    assert_eq!(
        calls,
        vec![
            "persist:last_workflow",
            "persist:last_changed_files",
            "persist:url",
            "hook:build_css:startup:tailwind.css",
            "log:Plain:ready https://example.test/post",
            "notify_reload",
        ]
    );
}

/// Performs the actions of the loop, and writes down what was done. Returns whether it exits.
fn execute(engine: &mut Engine, calls: &mut Vec<String>, changed: bool, failing: &str) -> bool {
    while let Some(action) = engine.next_action() {
        let mut outcome = ActionOutcome::Done;
        match action {
            RuntimeAction::PersistState { key, .. } => calls.push(format!("persist:{key}")),
            RuntimeAction::StartExternalEventServer => calls.push("event_server".into()),
            RuntimeAction::StartBrowserReloadServer => calls.push("browser_reload_server".into()),
            RuntimeAction::StartAutostartProcesses => calls.push("autostart".into()),
            RuntimeAction::RunWorkflow { workflow_name, changed_files } => {
                if workflow_name == failing {
                    outcome = ActionOutcome::Failed { error: "timed out".into() };
                } else {
                    calls.push(format!("workflow:{workflow_name}:{}", changed_files.join(",")));
                }
            }
            RuntimeAction::StartWatching => calls.push("watch".into()),
            RuntimeAction::MaintainProcesses => calls.push("maintain".into()),
            RuntimeAction::PollObservedHook { hook } => {
                calls.push(format!("poll:{hook}"));
                outcome = ActionOutcome::Polled { changed };
            }
            RuntimeAction::LogInfo { message } => calls.push(format!("log:{message}")),
            RuntimeAction::StopWatching => {
                calls.push("stop_watch".into());
                outcome = ActionOutcome::Failed { error: "no such watch".into() };
            }
            RuntimeAction::StopAllProcesses => calls.push("stop_all".into()),
            RuntimeAction::Exit => return true,
        }
        match engine.settle(outcome) {
            Settled::Continue => {}
            Settled::ReportWorkflow { workflow_name, error } => {
                assert_eq!(workflow_name, failing);
                assert_eq!(error, "timed out");
            }
            Settled::Abort { error } => panic!("unexpected abort: {error}"),
        }
    }
    false
}

fn observed_config() -> Config {
    let mut config = base_config();
    config.root = "/tmp/example".into();
    config.hook.insert(
        "current_post_slug".into(),
        HookSpec {
            command: vec!["./scripts/current-post-slug.sh".into()],
            cwd: None,
            env: NameMap::new(),
            output: HookOutputConfig::default(),
            capture: Some(CaptureMode::Text),
            state_key: Some("current_post_slug".into()),
            observe: Some(ObservedHookSpec {
                workflow: "publish_post_url".into(),
                interval_ms: 500,
            }),
        },
    );
    config.event.insert(
        "browser_path".into(),
        EventSpec {
            state_key: "current_browser_path".into(),
            workflow: "publish_post_url".into(),
            pattern: Some("^/posts/[a-z0-9-]+$".into()),
        },
    );
    config.watch.insert(
        "rust".into(),
        WatchGroup { paths: vec!["src/**/*.rs".into()], workflow: None },
    );
    config
}

#[test]
fn runtime_machine_can_run_against_mock_adapter() {
    let mut config = observed_config();
    config.startup_workflows = vec!["startup".into()];
    let mut engine = Engine::new(config);
    let mut calls = Vec::new();
    engine.start().expect("start");
    engine
        .handle(EngineEvent::Files { events: vec![modified("/tmp/example/src/main.rs")] })
        .expect("files");
    engine.handle(EngineEvent::Tick { now_ms: 500 }).expect("tick");
    assert!(!execute(&mut engine, &mut calls, true, "none"));
    engine.handle(EngineEvent::CtrlC).expect("ctrl-c");
    assert!(execute(&mut engine, &mut calls, true, "none"));

    assert_eq!(
        calls,
        vec![
            "persist:root",
            "event_server",
            "autostart",
            "workflow:startup:",
            "watch",
            "workflow:rust:src/main.rs",
            "maintain",
            "poll:current_post_slug",
            "workflow:publish_post_url:",
            "log:received ctrl-c, shutting down",
            "stop_watch",
            "stop_all",
        ]
    );
}

#[test]
fn runtime_machine_does_not_run_observed_workflow_when_hook_state_is_unchanged() {
    let mut engine = Engine::new(observed_config());
    let mut calls = Vec::new();
    engine.start().expect("start");
    execute(&mut engine, &mut calls, false, "none");
    engine.handle(EngineEvent::Tick { now_ms: 500 }).expect("tick");
    execute(&mut engine, &mut calls, false, "none");

    assert_eq!(
        calls,
        vec![
            "persist:root",
            "event_server",
            "autostart",
            "watch",
            "maintain",
            "poll:current_post_slug"
        ]
    );
}

#[test]
fn runtime_machine_runs_workflow_for_external_trigger() {
    let mut engine = Engine::new(observed_config());
    let mut calls = Vec::new();
    engine.start().expect("start");
    execute(&mut engine, &mut calls, false, "none");
    let message = ExternalEventMessage { workflow_name: "publish_post_url".into() };
    engine.handle(EngineEvent::External { message: Some(message) }).expect("event");
    execute(&mut engine, &mut calls, false, "none");

    assert_eq!(
        calls,
        vec!["persist:root", "event_server", "autostart", "watch", "workflow:publish_post_url:"]
    );
}

#[test]
fn runtime_machine_logs_and_continues_after_workflow_failure() {
    let mut config = base_config();
    config.startup_workflows = vec!["startup".into()];
    let mut engine = Engine::new(config);
    let mut calls = Vec::new();
    engine.start().expect("start");

    assert!(!execute(&mut engine, &mut calls, false, "startup"));
    assert_eq!(calls, vec!["persist:root", "autostart", "watch"]);
}

#[test]
fn other_failures_end_the_loop() {
    let mut engine = Engine::new(base_config());
    engine.start().expect("start");
    assert!(matches!(engine.next_action(), Some(RuntimeAction::PersistState { .. })));
    assert_eq!(
        engine.settle(ActionOutcome::Failed { error: "disk full".into() }),
        Settled::Abort { error: "disk full".into() }
    );
    let error = engine.handle(EngineEvent::External { message: None });
    assert_eq!(error, Err(EngineError::ExternalEventsClosed));
    assert_eq!(
        EngineError::ExternalEventsClosed.message(),
        "external event channel disconnected"
    );
}

#[test]
fn changes_of_the_session_log_run_nothing() {
    let mut config = observed_config();
    config.watch.insert("all".into(), WatchGroup { paths: vec!["**/*".into()], workflow: None });
    let mut engine = Engine::new(config);
    engine.ignore_log("/tmp/example/.devloop/logs/s.log".into());
    engine.start().expect("start");
    let mut calls = Vec::new();
    execute(&mut engine, &mut calls, false, "none");
    calls.clear();
    let events = vec![modified("/tmp/example/.devloop/logs/s.log")];
    engine.handle(EngineEvent::Files { events }).expect("files");
    execute(&mut engine, &mut calls, false, "none");
    assert!(calls.is_empty());
    let events = vec![modified("/tmp/example/.devloop/logs/t.log")];
    engine.handle(EngineEvent::Files { events }).expect("files");
    execute(&mut engine, &mut calls, false, "none");
    assert_eq!(calls, vec!["workflow:all:.devloop/logs/t.log"]);
}

#[test]
fn failed_starts_end_the_startup_only() {
    let mut config = base_config();
    config.startup_workflows = vec!["startup".into()];
    let mut engine = Engine::new(config);
    engine.start().expect("start");
    let failed = || ActionOutcome::StartFailed { error: "address in use".into() };
    while let Some(action) = engine.next_action() {
        if matches!(action, RuntimeAction::RunWorkflow { .. }) {
            break;
        }
        assert_eq!(engine.settle(ActionOutcome::Done), Settled::Continue);
    }
    assert_eq!(engine.settle(failed()), Settled::Abort { error: "address in use".into() });

    let mut calls = Vec::new();
    execute(&mut engine, &mut calls, false, "none");
    assert_eq!(calls, vec!["watch"]);
    let message = ExternalEventMessage { workflow_name: "late".into() };
    engine.handle(EngineEvent::External { message: Some(message) }).expect("event");
    assert!(matches!(engine.next_action(), Some(RuntimeAction::RunWorkflow { .. })));
    assert_eq!(
        engine.settle(failed()),
        Settled::ReportWorkflow { workflow_name: "late".into(), error: "address in use".into() }
    );
}

#[test]
fn missing_runtime_workflow_returns_error() {
    let engine = Engine::new(base_config());
    let error = engine
        .begin_workflow(NameMap::new(), "missing", &Vec::new())
        .err()
        .expect("missing workflow should error");

    assert!(error.message().contains("runtime requested missing workflow 'missing'"));
}

fn text_of(state: &NameMap<SessionValue>, key: &str) -> Option<String> {
    state.get(key).and_then(|value| value.as_str()).map(String::from)
}

fn tunnel_state(slug: &str) -> NameMap<SessionValue> {
    let mut state = NameMap::new();
    state.insert(
        "tunnel_url".into(),
        SessionValue::String("https://example.trycloudflare.com".into()),
    );
    state.insert("current_post_slug".into(), SessionValue::String(slug.into()));
    state
}

fn write_url() -> WorkflowSpec {
    WorkflowSpec {
        steps: vec![WorkflowStep::WriteState {
            key: "current_post_url".into(),
            value: "{{tunnel_url}}/posts/{{current_post_slug}}".into(),
        }],
        triggers: vec![],
    }
}

#[test]
fn write_state_step_renders_session_template() {
    let mut state = tunnel_state("example-post");
    let mut config = base_config();
    config.workflow.insert("compose".into(), write_url());

    run_workflow_machine(&config, &mut state, "compose", vec![]);

    assert_eq!(
        text_of(&state, "current_post_url").as_deref(),
        Some("https://example.trycloudflare.com/posts/example-post")
    );
}

#[test]
fn nested_workflow_runs_helper_steps() {
    let mut state = tunnel_state("nested-post");
    let mut config = base_config();
    config.workflow.insert("publish_post_url".into(), write_url());
    config.workflow.insert(
        "content".into(),
        WorkflowSpec {
            steps: vec![WorkflowStep::RunWorkflow { workflow: "publish_post_url".into() }],
            triggers: vec![],
        },
    );

    run_workflow_machine(&config, &mut state, "content", vec![]);

    assert_eq!(
        text_of(&state, "current_post_url").as_deref(),
        Some("https://example.trycloudflare.com/posts/nested-post")
    );
    assert_eq!(text_of(&state, "last_workflow").as_deref(), Some("content"));
}

#[test]
fn log_step_renders_session_template() {
    let mut state = NameMap::new();
    state.insert(
        "current_post_url".into(),
        SessionValue::String("https://example.trycloudflare.com/posts/example-post".into()),
    );
    let mut config = base_config();
    config.workflow.insert(
        "announce".into(),
        WorkflowSpec {
            steps: vec![WorkflowStep::Log {
                message: "current post url: {{current_post_url}}".into(),
                style: LogStyle::Plain,
            }],
            triggers: vec![],
        },
    );

    let calls = run_workflow_machine(&config, &mut state, "announce", vec![]);

    assert_eq!(
        calls.last().map(String::as_str),
        Some(
            "log:Plain:current post url: https://example.trycloudflare.com/posts/example-post"
        )
    );
}

#[test]
fn next_batch_errors_when_watcher_channel_disconnects() {
    let mut batch = EventBatch::new(10);
    match batch.take(BatchInput::Disconnected, 0) {
        BatchStep::Fail { error } => {
            assert!(error.contains("watcher event channel disconnected"))
        }
        step => panic!("unexpected step {step:?}"),
    }
}

#[test]
fn changes_are_gathered_until_the_time_is_up() {
    let mut batch = EventBatch::new(100);
    let event = |path: &str| BatchInput::Event { event: modified(path) };
    assert!(matches!(batch.take(BatchInput::Empty, 0), BatchStep::Receive));
    assert!(matches!(batch.take(BatchInput::Waited, 500), BatchStep::Receive));
    assert!(batch.is_empty());
    assert!(matches!(batch.take(event("a"), 0), BatchStep::Poll));
    assert!(!batch.is_empty());
    assert!(matches!(batch.take(BatchInput::Empty, 1), BatchStep::Wait { ms: 25 }));
    assert!(matches!(batch.take(BatchInput::Waited, 26), BatchStep::Poll));
    assert!(matches!(batch.take(event("b"), 27), BatchStep::Poll));
    match batch.take(BatchInput::Waited, 100) {
        BatchStep::Done { events } => {
            let paths: Vec<&str> = events.iter().map(|event| event.paths[0].as_str()).collect();
            assert_eq!(paths, vec!["a", "b"]);
        }
        step => panic!("unexpected step {step:?}"),
    }
    assert!(batch.is_empty());

    batch.take(event("c"), 0);
    assert!(matches!(
        batch.take(BatchInput::Failed { error: "gone".into() }, 1),
        BatchStep::Fail { error } if error == "gone"
    ));
    assert!(matches!(
        batch.take(BatchInput::Disconnected, 1),
        BatchStep::Done { events } if events.len() == 1
    ));
    let mut batch = EventBatch::new(0);
    assert!(matches!(batch.take(event("d"), 0), BatchStep::Done { .. }));
}

#[test]
fn nested_steps_stand_in_the_place_of_the_step_that_runs_them() {
    let hook = |name: &str| WorkflowStep::RunHook { hook: name.into() };
    let run = |name: &str| WorkflowStep::RunWorkflow { workflow: name.into() };
    let mut config = base_config();
    for (name, steps) in [
        ("outer", vec![hook("a"), run("inner"), hook("d"), run("leaf")]),
        ("inner", vec![hook("b"), run("leaf")]),
        ("leaf", vec![hook("c")]),
    ] {
        config.workflow.insert(name.into(), WorkflowSpec { steps, triggers: vec![] });
    }
    let calls = run_workflow_machine(&config, &mut NameMap::new(), "outer", vec!["f".into()]);
    assert_eq!(
        calls,
        vec![
            "persist:last_workflow",
            "persist:last_changed_files",
            "hook:a:outer:f",
            "hook:b:inner:f",
            "hook:c:leaf:f",
            "hook:d:outer:f",
            "hook:c:leaf:f",
        ]
    );
}

#[test]
fn the_first_refused_watch_group_is_reported() {
    let mut config = base_config();
    for name in ["c", "b", "a"] {
        let paths = vec![if name == "a" { "x".into() } else { format!("[{name}") }];
        config.watch.insert(name.into(), WatchGroup { paths, workflow: None });
    }
    let error = Engine::new(config).start().expect_err("bad glob");
    assert_eq!(error.message(), "invalid glob '[b' in watch group 'b'");
}
