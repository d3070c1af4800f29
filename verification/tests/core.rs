use devloop::config::{
    BrowserReloadServerConfig, CaptureMode, Config, EventServerConfig, EventSpec, HookOutputConfig,
    HookSpec, LogStyle, ObservedHookSpec, OutputConfig, ProbeSpec, ProcessSpec, RestartPolicy,
    WorkflowSpec, WorkflowStep,
};
use devloop::name_map::NameMap;
use devloop::runtime::{RuntimeEffect, RuntimeEvent, RuntimeMachine};
use devloop::supervisor::{should_restart, ProcessEffect, ProcessSupervisor};
use devloop::value::SessionValue;
use devloop::workflow::{WorkflowEffect, WorkflowMachine, WorkflowRunError};

fn base_config() -> Config {
    Config {
        root: ".".into(),
        debounce_ms: 100,
        state_file: Some("./state.json".into()),
        startup_workflows: vec![],
        watch: NameMap::new(),
        process: NameMap::new(),
        hook: NameMap::new(),
        event_server: EventServerConfig::default(),
        browser_reload_server: BrowserReloadServerConfig::default(),
        event: NameMap::new(),
        workflow: NameMap::new(),
    }
}

fn text(value: &str) -> SessionValue {
    SessionValue::String(value.into())
}

fn add(config: &mut Config, name: &str, steps: Vec<WorkflowStep>, triggers: Vec<&str>) {
    config.workflow.insert(
        name.into(),
        WorkflowSpec { steps, triggers: triggers.into_iter().map(String::from).collect() },
    );
}

fn start(config: &Config, session: NameMap<SessionValue>, name: &str, files: Vec<&str>) -> WorkflowMachine {
    let files: Vec<String> = files.into_iter().map(String::from).collect();
    WorkflowMachine::start(config, session, name, &files).expect("start machine")
}

fn log_step(message: &str) -> WorkflowStep {
    WorkflowStep::Log { message: message.into(), style: LogStyle::Plain }
}

fn run_step(workflow: &str) -> WorkflowStep {
    WorkflowStep::RunWorkflow { workflow: workflow.into() }
}

/// The log messages of a run of a workflow, in order.
fn messages(config: &Config, name: &str) -> Vec<String> {
    let mut machine = start(config, NameMap::new(), name, vec![]);
    let mut messages = Vec::new();
    while let Some(effect) = machine.next_effect(config).expect("effect") {
        if let WorkflowEffect::Log { message, .. } = effect {
            messages.push(message);
        }
    }
    messages
}

#[test]
fn machine_emits_change_context_then_steps() {
    let mut config = base_config();
    add(
        &mut config,
        "content",
        vec![WorkflowStep::RestartProcess { process: "server".into() }],
        vec![],
    );

    let mut machine = start(&config, NameMap::new(), "content", vec!["content/post.md"]);

    assert_eq!(
        machine.next_effect(&config).expect("effect"),
        Some(WorkflowEffect::PersistState { key: "last_workflow".into(), value: text("content") })
    );
    assert_eq!(
        machine.next_effect(&config).expect("effect"),
        Some(WorkflowEffect::PersistState {
            key: "last_changed_files".into(),
            value: SessionValue::Array(vec![text("content/post.md")])
        })
    );
    assert_eq!(
        machine.next_effect(&config).expect("effect"),
        Some(WorkflowEffect::RestartProcess { process: "server".into() })
    );
    assert_eq!(machine.next_effect(&config).expect("effect"), None);
}

#[test]
fn machine_renders_write_state_from_session_snapshot() {
    let mut config = base_config();
    add(
        &mut config,
        "publish",
        vec![WorkflowStep::WriteState {
            key: "current_post_url".into(),
            value: "{{tunnel_url}}/posts/{{current_post_slug}}".into(),
        }],
        vec![],
    );

    let mut session = NameMap::new();
    session.insert("tunnel_url".into(), text("https://example.trycloudflare.com"));
    session.insert("current_post_slug".into(), text("example-post"));

    let mut machine = start(&config, session, "publish", vec![]);
    let _ = machine.next_effect(&config).expect("effect");
    let _ = machine.next_effect(&config).expect("effect");

    assert_eq!(
        machine.next_effect(&config).expect("effect"),
        Some(WorkflowEffect::PersistState {
            key: "current_post_url".into(),
            value: text("https://example.trycloudflare.com/posts/example-post")
        })
    );
    assert_eq!(
        machine.session().get("current_post_url").expect("current_post_url"),
        &text("https://example.trycloudflare.com/posts/example-post")
    );
}

#[test]
fn machine_expands_nested_workflows_without_rewriting_top_level_context() {
    let mut config = base_config();
    add(&mut config, "helper", vec![log_step("hello {{name}}")], vec![]);
    add(&mut config, "startup", vec![run_step("helper")], vec![]);

    let mut session = NameMap::new();
    session.insert("name".into(), text("world"));
    let mut machine = start(&config, session, "startup", vec![]);

    let _ = machine.next_effect(&config).expect("effect");
    let _ = machine.next_effect(&config).expect("effect");

    assert_eq!(
        machine.next_effect(&config).expect("effect"),
        Some(WorkflowEffect::Log { message: "hello world".into(), style: LogStyle::Plain })
    );
    assert_eq!(machine.next_effect(&config).expect("effect"), None);
}

#[test]
fn machine_rejects_runtime_recursive_workflows() {
    let mut config = base_config();
    add(&mut config, "loop", vec![run_step("loop")], vec![]);

    let mut machine = start(&config, NameMap::new(), "loop", vec![]);

    let _ = machine.next_effect(&config).expect("change context");
    let _ = machine.next_effect(&config).expect("change context");
    let error = machine.next_effect(&config).expect_err("recursive workflow should fail");

    assert!(error.message().contains("workflow recursion detected at runtime"));
    assert_eq!(error.message(), "workflow recursion detected at runtime: loop -> loop");
    assert_eq!(machine.next_effect(&config), Ok(None));
}

#[test]
fn machine_refuses_missing_workflows() {
    let mut config = base_config();
    let error = WorkflowMachine::start(&config, NameMap::new(), "missing", &Vec::new())
        .expect_err("missing workflow");
    assert_eq!(error, WorkflowRunError::UnknownWorkflow("missing".into()));
    assert_eq!(error.message(), "unknown workflow 'missing'");

    add(&mut config, "outer", vec![run_step("gone"), log_step("after")], vec![]);
    let mut machine = start(&config, NameMap::new(), "outer", vec![]);
    let _ = machine.next_effect(&config).expect("change context");
    let _ = machine.next_effect(&config).expect("change context");
    let missing = Err(WorkflowRunError::UnknownWorkflow("gone".into()));
    assert_eq!(machine.next_effect(&config), missing);
    assert_eq!(machine.next_effect(&config), missing);
}

#[test]
fn triggered_workflows_run_after_the_steps_and_once() {
    let mut config = base_config();
    add(&mut config, "a", vec![run_step("b"), log_step("a")], vec!["c", "d"]);
    add(&mut config, "b", vec![log_step("b")], vec!["d"]);
    add(&mut config, "c", vec![log_step("c")], vec!["d"]);
    add(&mut config, "d", vec![log_step("d")], vec![]);

    assert_eq!(messages(&config, "a"), vec!["b", "d", "a", "c"]);
}

#[test]
fn triggered_workflows_keep_the_change_context() {
    let mut config = base_config();
    add(&mut config, "css", vec![log_step("css")], vec!["reload"]);
    add(
        &mut config,
        "reload",
        vec![WorkflowStep::RunHook { hook: "announce".into() }, WorkflowStep::NotifyReload],
        vec![],
    );

    let mut machine = start(&config, NameMap::new(), "css", vec!["site.css"]);
    let mut effects = Vec::new();
    while let Some(effect) = machine.next_effect(&config).expect("effect") {
        effects.push(effect);
    }
    assert_eq!(
        effects[2..],
        [
            WorkflowEffect::Log { message: "css".into(), style: LogStyle::Plain },
            WorkflowEffect::RunHook {
                hook: "announce".into(),
                workflow_name: "reload".into(),
                changed_files: vec!["site.css".into()],
            },
            WorkflowEffect::NotifyReload,
        ]
    );
    let contexts = effects
        .iter()
        .filter(|effect| matches!(effect, WorkflowEffect::PersistState { .. }))
        .count();
    assert_eq!(contexts, 2);
}

#[test]
fn a_newer_session_is_rendered() {
    let mut config = base_config();
    add(&mut config, "w", vec![log_step("{{x}}{{y}}"), log_step("{{ x }}")], vec![]);
    let mut machine = start(&config, NameMap::new(), "w", vec![]);
    let _ = machine.next_effect(&config).expect("effect");
    let _ = machine.next_effect(&config).expect("effect");
    assert_eq!(
        machine.next_effect(&config).expect("effect"),
        Some(WorkflowEffect::Log { message: "".into(), style: LogStyle::Plain })
    );
    let mut session = NameMap::new();
    session.insert("x".into(), text("new"));
    machine.replace_session(session);
    assert_eq!(
        machine.next_effect(&config).expect("effect"),
        Some(WorkflowEffect::Log { message: "new".into(), style: LogStyle::Plain })
    );
}

#[test]
fn every_step_has_its_effect() {
    let mut config = base_config();
    add(
        &mut config,
        "w",
        vec![
            WorkflowStep::StartProcess { process: "p".into() },
            WorkflowStep::StopProcess { process: "p".into() },
            WorkflowStep::WaitForProcess { process: "p".into() },
            WorkflowStep::SleepMs { duration_ms: 7 },
            WorkflowStep::Log { message: "boxed".into(), style: LogStyle::Boxed },
        ],
        vec![],
    );
    let mut machine = start(&config, NameMap::new(), "w", vec![]);
    let mut effects = Vec::new();
    while let Some(effect) = machine.next_effect(&config).expect("effect") {
        effects.push(effect);
    }
    assert_eq!(
        effects[2..],
        [
            WorkflowEffect::StartProcess { process: "p".into() },
            WorkflowEffect::StopProcess { process: "p".into() },
            WorkflowEffect::WaitForProcess { process: "p".into() },
            WorkflowEffect::SleepMs { duration_ms: 7 },
            WorkflowEffect::Log { message: "boxed".into(), style: LogStyle::Boxed },
        ]
    );
}

#[test]
fn runtime_machine_plans_startup_sequence() {
    let config = base_config();
    let mut runtime = RuntimeMachine::new(&config);
    runtime.handle_event(RuntimeEvent::Start {
        root_display: "/tmp/example".into(),
        startup_workflows: vec!["startup".into(), "publish".into()],
    });

    assert_eq!(
        runtime.next_effect(),
        Some(RuntimeEffect::PersistState { key: "root".into(), value: text("/tmp/example") })
    );
    assert_eq!(runtime.next_effect(), Some(RuntimeEffect::StartAutostartProcesses));
    assert_eq!(
        runtime.next_effect(),
        Some(RuntimeEffect::RunWorkflow {
            workflow_name: "startup".into(),
            changed_files: Vec::new()
        })
    );
    assert_eq!(
        runtime.next_effect(),
        Some(RuntimeEffect::RunWorkflow {
            workflow_name: "publish".into(),
            changed_files: Vec::new()
        })
    );
    assert_eq!(runtime.next_effect(), Some(RuntimeEffect::StartWatching));
    assert_eq!(runtime.next_effect(), None);
}

#[test]
fn runtime_machine_plans_watch_tick_and_shutdown() {
    let config = base_config();
    let mut runtime = RuntimeMachine::new(&config);
    runtime.handle_event(RuntimeEvent::Start {
        root_display: "/tmp/example".into(),
        startup_workflows: vec![],
    });
    while runtime.next_effect().is_some() {}

    let mut workflows = NameMap::new();
    workflows.insert("rust".into(), vec!["src/main.rs".into()]);
    runtime.handle_event(RuntimeEvent::WatchChanges { workflows });
    runtime.handle_event(RuntimeEvent::MaintainTick { now_ms: 1_000 });
    runtime.handle_event(RuntimeEvent::CtrlC);

    assert_eq!(
        runtime.next_effect(),
        Some(RuntimeEffect::RunWorkflow {
            workflow_name: "rust".into(),
            changed_files: vec!["src/main.rs".into()]
        })
    );
    assert_eq!(runtime.next_effect(), Some(RuntimeEffect::MaintainProcesses));
    assert_eq!(
        runtime.next_effect(),
        Some(RuntimeEffect::LogInfo { message: "received ctrl-c, shutting down".into() })
    );
    assert_eq!(runtime.next_effect(), Some(RuntimeEffect::StopAllProcesses));
    assert_eq!(runtime.next_effect(), Some(RuntimeEffect::Exit));
    assert_eq!(runtime.next_effect(), None);
}

fn observed_config() -> Config {
    let mut config = base_config();
    config.hook.insert(
        "current_post_slug".into(),
        HookSpec {
            command: vec!["./scripts/current-post-slug.sh".into()],
            cwd: None,
            env: NameMap::new(),
            output: HookOutputConfig::default(),
            capture: Some(CaptureMode::Text),
            state_key: Some("current_post_slug".into()),
            observe: Some(ObservedHookSpec {
                workflow: "publish_post_url".into(),
                interval_ms: 500,
            }),
        },
    );
    add(&mut config, "publish_post_url", vec![log_step("announce")], vec![]);
    config
}

#[test]
fn runtime_machine_polls_observed_hooks_and_runs_workflow_on_change() {
    let config = observed_config();

    let mut runtime = RuntimeMachine::new(&config);
    runtime.handle_event(RuntimeEvent::Start {
        root_display: "/tmp/example".into(),
        startup_workflows: vec![],
    });
    while runtime.next_effect().is_some() {}

    runtime.handle_event(RuntimeEvent::MaintainTick { now_ms: 500 });
    assert_eq!(runtime.next_effect(), Some(RuntimeEffect::MaintainProcesses));
    assert_eq!(
        runtime.next_effect(),
        Some(RuntimeEffect::PollObservedHook {
            hook: "current_post_slug".into(),
            workflow_name: "publish_post_url".into(),
        })
    );
    assert_eq!(runtime.next_effect(), None);

    runtime.handle_event(RuntimeEvent::ObservedHookChanged {
        workflow_name: "publish_post_url".into(),
    });
    assert_eq!(
        runtime.next_effect(),
        Some(RuntimeEffect::RunWorkflow {
            workflow_name: "publish_post_url".into(),
            changed_files: Vec::new(),
        })
    );
    assert_eq!(runtime.next_effect(), None);
}

#[test]
fn observed_hooks_keep_their_interval() {
    let config = observed_config();
    let mut runtime = RuntimeMachine::new(&config);
    runtime.handle_event(RuntimeEvent::Start {
        root_display: "/".into(),
        startup_workflows: vec![],
    });
    while runtime.next_effect().is_some() {}
    let mut polls = Vec::new();
    for now_ms in [0, 499, 500, 999, 1000] {
        runtime.handle_event(RuntimeEvent::MaintainTick { now_ms });
        while let Some(effect) = runtime.next_effect() {
            if matches!(effect, RuntimeEffect::PollObservedHook { .. }) {
                polls.push(now_ms);
            }
        }
    }
    assert_eq!(polls, vec![0, 500, 1000]);
}

#[test]
fn a_stopped_runtime_takes_nothing_in() {
    let config = observed_config();
    let mut runtime = RuntimeMachine::new(&config);
    runtime.handle_event(RuntimeEvent::MaintainTick { now_ms: 1 });
    assert_eq!(runtime.next_effect(), None);
    runtime.handle_event(RuntimeEvent::CtrlC);
    while runtime.next_effect().is_some() {}
    runtime.handle_event(RuntimeEvent::CtrlC);
    runtime.handle_event(RuntimeEvent::Start {
        root_display: "/".into(),
        startup_workflows: vec!["x".into()],
    });
    runtime.handle_event(RuntimeEvent::WorkflowTrigger { workflow_name: "x".into() });
    runtime.handle_event(RuntimeEvent::MaintainTick { now_ms: 1 });
    assert_eq!(runtime.next_effect(), None);
}

#[test]
fn servers_are_started_where_they_are_needed() {
    let mut config = base_config();
    config.event.insert(
        "e".into(),
        EventSpec { state_key: "k".into(), workflow: "w".into(), pattern: None },
    );
    add(&mut config, "w", vec![WorkflowStep::NotifyReload], vec![]);
    let mut runtime = RuntimeMachine::new(&config);
    runtime.handle_event(RuntimeEvent::Start {
        root_display: "/".into(),
        startup_workflows: vec![],
    });
    let _ = runtime.next_effect();
    assert_eq!(runtime.next_effect(), Some(RuntimeEffect::StartExternalEventServer));
    assert_eq!(runtime.next_effect(), Some(RuntimeEffect::StartBrowserReloadServer));
    assert_eq!(runtime.next_effect(), Some(RuntimeEffect::StartAutostartProcesses));
}

#[test]
fn process_supervisor_plans_autostart_restart_and_shutdown() {
    let mut config = base_config();
    config.process.insert(
        "server".into(),
        ProcessSpec {
            command: vec!["cargo".into(), "run".into()],
            cwd: None,
            autostart: true,
            readiness: None,
            liveness: None,
            restart: RestartPolicy::Always,
            env: NameMap::new(),
            output: OutputConfig::default(),
        },
    );

    let mut supervisor = ProcessSupervisor::new(&config);
    assert_eq!(
        supervisor.autostart_effects(&config),
        vec![ProcessEffect::StartProcess { process: "server".into() }]
    );

    supervisor.on_process_started("server");
    assert_eq!(
        supervisor.on_tick(&config, 1000, vec![("server".into(), false)]),
        vec![ProcessEffect::StartProcess { process: "server".into() }]
    );

    supervisor.on_process_started("server");
    assert_eq!(
        supervisor.on_shutdown(),
        vec![ProcessEffect::StopProcess { process: "server".into() }]
    );
}

fn tunnel_config() -> Config {
    let mut config = base_config();
    config.process.insert(
        "tunnel".into(),
        ProcessSpec {
            command: vec!["cloudflared".into(), "tunnel".into()],
            cwd: None,
            autostart: false,
            readiness: None,
            liveness: Some(ProbeSpec::StateKey {
                key: "tunnel_url".into(),
                interval_ms: 250,
                timeout_ms: 1000,
            }),
            restart: RestartPolicy::Always,
            env: NameMap::new(),
            output: OutputConfig::default(),
        },
    );
    config
}

#[test]
fn process_supervisor_schedules_liveness_checks_and_restart_on_failure() {
    let config = tunnel_config();

    let mut supervisor = ProcessSupervisor::new(&config);
    supervisor.on_process_started("tunnel");

    assert_eq!(
        supervisor.on_tick(&config, 250, Vec::new()),
        vec![ProcessEffect::CheckLiveness { process: "tunnel".into() }]
    );
    assert_eq!(
        supervisor.on_liveness_result(&config, "tunnel", false, 250),
        vec![ProcessEffect::RestartProcess { process: "tunnel".into() }]
    );
}

#[test]
fn liveness_checks_keep_their_interval_and_stop_at_shutdown() {
    let config = tunnel_config();
    let mut supervisor = ProcessSupervisor::new(&config);
    assert_eq!(supervisor.on_tick(&config, 0, Vec::new()), vec![]);
    supervisor.on_process_started("tunnel");
    assert_eq!(supervisor.on_liveness_result(&config, "tunnel", true, 1000), vec![]);
    assert_eq!(supervisor.on_tick(&config, 1249, Vec::new()), vec![]);
    assert_eq!(
        supervisor.on_tick(&config, 1250, Vec::new()),
        vec![ProcessEffect::CheckLiveness { process: "tunnel".into() }]
    );
    assert_eq!(supervisor.on_liveness_result(&config, "unknown", false, 1), vec![]);
    supervisor.on_shutdown();
    assert_eq!(supervisor.on_tick(&config, 9000, vec![("tunnel".into(), false)]), vec![]);
    assert_eq!(supervisor.on_liveness_result(&config, "tunnel", false, 9000), vec![]);
}

#[test]
fn restart_policies_decide_on_restarts() {
    for success in [true, false] {
        assert!(!should_restart(RestartPolicy::Never, success, false));
        assert_eq!(should_restart(RestartPolicy::OnFailure, success, false), !success);
        assert!(should_restart(RestartPolicy::Always, success, false));
        assert!(!should_restart(RestartPolicy::Always, success, true));
    }
}
