use devloop::config::{
    default_capture_group, default_debounce_ms, default_interval_ms, default_observe_interval_ms,
    default_timeout_ms, resolve_config_path,
};
use devloop::config::{
    BrowserReloadServerConfig, CaptureMode, Config, EventServerConfig, EventSpec, HookOutputConfig,
    HookSpec, LogStyle, ObservedHookSpec, OutputBodyStyle, OutputConfig, OutputExtract, OutputRule,
    ProbeSpec, ProcessSpec, RestartPolicy, WatchGroup, WorkflowSpec, WorkflowStep,
};
use devloop::graph::WorkflowProblem;
use devloop::name_map::NameMap;
use devloop::validate::{ConfigProblem, HostFacts, SpecProblem};

fn base_config() -> Config {
    Config {
        root: ".".into(),
        debounce_ms: 100,
        state_file: Some("./state.json".into()),
        startup_workflows: vec![],
        watch: NameMap::new(),
        process: NameMap::new(),
        hook: NameMap::new(),
        event_server: EventServerConfig::default(),
        browser_reload_server: BrowserReloadServerConfig::default(),
        event: NameMap::new(),
        workflow: NameMap::new(),
    }
}

fn host() -> HostFacts {
    HostFacts { root_exists: true, event_bind_is_address: true, reload_bind_is_address: true }
}

fn log_step(message: &str) -> WorkflowStep {
    WorkflowStep::Log { message: message.into(), style: LogStyle::Plain }
}

fn run_step(workflow: &str) -> WorkflowStep {
    WorkflowStep::RunWorkflow { workflow: workflow.into() }
}

fn workflow(steps: Vec<WorkflowStep>, triggers: Vec<&str>) -> WorkflowSpec {
    WorkflowSpec { steps, triggers: triggers.into_iter().map(String::from).collect() }
}

fn add(config: &mut Config, name: &str, steps: Vec<WorkflowStep>, triggers: Vec<&str>) {
    config.workflow.insert(name.into(), workflow(steps, triggers));
}

fn error_of(config: &Config, name: &str) -> String {
    config
        .workflow
        .get(name)
        .expect("workflow")
        .validate(config, name)
        .expect_err("workflow should be refused")
        .message()
}

fn process(command: Vec<&str>) -> ProcessSpec {
    ProcessSpec {
        command: command.into_iter().map(String::from).collect(),
        cwd: None,
        autostart: true,
        readiness: None,
        liveness: None,
        restart: RestartPolicy::default(),
        env: NameMap::new(),
        output: OutputConfig::default(),
    }
}

fn hook(command: Vec<&str>) -> HookSpec {
    HookSpec {
        command: command.into_iter().map(String::from).collect(),
        cwd: None,
        env: NameMap::new(),
        output: HookOutputConfig::default(),
        capture: None,
        state_key: None,
        observe: None,
    }
}

fn valid_config() -> Config {
    let mut config = base_config();
    config.watch.insert(
        "content".into(),
        WatchGroup { paths: vec!["content/**/*.md".into()], workflow: Some("content".into()) },
    );
    add(&mut config, "content", vec![log_step("content")], vec![]);
    config
}

#[test]
fn validate_rejects_recursive_workflows() {
    let mut config = base_config();
    add(&mut config, "outer", vec![run_step("inner")], vec![]);
    add(&mut config, "inner", vec![run_step("outer")], vec![]);

    assert!(error_of(&config, "outer").contains("workflow recursion detected"));
    assert_eq!(
        error_of(&config, "outer"),
        "workflow recursion detected: inner -> outer -> inner"
    );
}

#[test]
fn validate_rejects_recursive_trigger_workflows() {
    let mut config = base_config();
    add(&mut config, "outer", vec![log_step("outer")], vec!["inner"]);
    add(&mut config, "inner", vec![log_step("inner")], vec!["outer"]);

    assert!(error_of(&config, "outer").contains("workflow recursion detected"));
}

#[test]
fn validate_rejects_missing_nested_workflow() {
    let mut config = base_config();
    add(&mut config, "outer", vec![run_step("missing")], vec![]);

    assert!(error_of(&config, "outer").contains("missing workflow 'missing'"));
}

#[test]
fn validate_rejects_missing_trigger_workflow() {
    let mut config = base_config();
    add(&mut config, "outer", vec![log_step("outer")], vec!["missing"]);

    assert!(error_of(&config, "outer").contains("missing workflow 'missing'"));
}

#[test]
fn validate_rejects_overlap_between_inline_and_triggered_workflows() {
    let mut config = base_config();
    add(&mut config, "browser_reload", vec![WorkflowStep::NotifyReload], vec![]);
    add(&mut config, "css", vec![run_step("browser_reload")], vec!["browser_reload"]);

    assert!(error_of(&config, "css")
        .contains("reachable both as a trigger target and via run_workflow"));
}

#[test]
fn validate_rejects_trigger_reachable_via_inline_from_sibling_trigger() {
    let mut config = base_config();
    add(&mut config, "c", vec![WorkflowStep::NotifyReload], vec![]);
    add(&mut config, "b", vec![run_step("c")], vec![]);
    add(&mut config, "a", vec![log_step("a")], vec!["b", "c"]);

    assert!(error_of(&config, "a")
        .contains("workflow 'c' is reachable both as a trigger target and via run_workflow"));
}

#[test]
fn validate_rejects_nested_trigger_reachable_via_inline_path() {
    let mut config = base_config();
    add(&mut config, "d", vec![WorkflowStep::NotifyReload], vec![]);
    add(&mut config, "b", vec![log_step("b")], vec!["d"]);
    add(&mut config, "c", vec![run_step("d")], vec![]);
    add(&mut config, "a", vec![log_step("a")], vec!["b", "c"]);

    assert!(error_of(&config, "a")
        .contains("workflow 'd' is reachable both as a trigger target and via run_workflow"));
}

#[test]
fn validate_allows_inline_workflow_with_independent_triggers() {
    let mut config = base_config();
    add(&mut config, "c", vec![WorkflowStep::NotifyReload], vec![]);
    add(&mut config, "d", vec![WorkflowStep::NotifyReload], vec![]);
    add(&mut config, "b", vec![log_step("b")], vec!["d"]);
    add(&mut config, "a", vec![run_step("b")], vec!["c"]);

    config
        .workflow
        .get("a")
        .expect("workflow")
        .validate(&config, "a")
        .expect("independent inline triggers should be allowed");
}

#[test]
fn output_config_defaults_to_inherited_output() {
    let config = OutputConfig::default();

    assert!(config.inherit);
    assert_eq!(config.body_style, OutputBodyStyle::Plain);
    assert!(config.rules.is_empty());
}

#[test]
fn hook_output_defaults_to_dimmed_inherited_output() {
    let config = HookOutputConfig::default();

    assert!(config.inherit);
    assert_eq!(config.body_style, OutputBodyStyle::Dim);
}

#[test]
fn hook_observe_defaults_interval() {
    let observe = ObservedHookSpec {
        workflow: "publish".into(),
        interval_ms: default_observe_interval_ms(),
    };

    assert_eq!(observe.workflow, "publish");
    assert_eq!(observe.interval_ms, 1_000);
}

#[test]
fn validate_rejects_missing_observed_workflow() {
    let mut config = valid_config();
    config.hook.insert(
        "current_post_slug".into(),
        HookSpec {
            command: vec!["./scripts/current-post-slug.sh".into()],
            cwd: None,
            env: NameMap::new(),
            output: HookOutputConfig::default(),
            capture: Some(CaptureMode::Text),
            state_key: Some("current_post_slug".into()),
            observe: Some(ObservedHookSpec { workflow: "publish".into(), interval_ms: 1_000 }),
        },
    );

    let error = config.validate(host()).expect_err("validation should fail");
    assert!(error.message().contains("observes missing workflow"));
}

#[test]
fn event_server_defaults_to_local_ephemeral_bind() {
    assert_eq!(EventServerConfig::default().bind, "127.0.0.1:0");
}

#[test]
fn browser_reload_server_defaults_to_local_ephemeral_bind() {
    assert_eq!(BrowserReloadServerConfig::default().bind, "127.0.0.1:0");
}

#[test]
fn config_detects_notify_reload_in_nested_workflow() {
    let mut config = base_config();
    add(&mut config, "child", vec![WorkflowStep::NotifyReload], vec![]);
    add(&mut config, "parent", vec![run_step("child")], vec![]);

    assert!(config.has_browser_reload_notifications());
}

#[test]
fn config_detects_notify_reload_in_triggered_workflow() {
    let mut config = base_config();
    add(&mut config, "reload", vec![WorkflowStep::NotifyReload], vec![]);
    add(&mut config, "css", vec![log_step("css")], vec!["reload"]);

    assert!(config.has_browser_reload_notifications());
}

#[test]
fn validate_rejects_missing_event_workflow() {
    let mut config = valid_config();
    config.event.insert(
        "browser_path".into(),
        EventSpec {
            state_key: "current_browser_path".into(),
            workflow: "publish_post_url".into(),
            pattern: Some("^/".into()),
        },
    );

    let error = config.validate(host()).expect_err("validation should fail");
    assert!(error.message().contains("references missing workflow"));
}

#[test]
fn a_config_without_reload_steps_notifies_nobody() {
    let mut config = base_config();
    add(&mut config, "a", vec![log_step("a"), run_step("b")], vec!["a"]);
    add(&mut config, "b", vec![run_step("a")], vec!["missing"]);

    assert!(!config.has_browser_reload_notifications());
}

#[test]
fn validate_accepts_a_valid_config() {
    assert_eq!(valid_config().validate(host()), Ok(()));
}

#[test]
fn validate_reports_the_first_problem_of_each_kind() {
    let config = valid_config();
    let no_root = HostFacts { root_exists: false, ..host() };
    assert_eq!(config.validate(no_root), Err(ConfigProblem::RootMissing(".".into())));
    assert_eq!(
        config.validate(no_root).unwrap_err().message(),
        "config root '.' does not exist"
    );

    assert_eq!(base_config().validate(host()), Err(ConfigProblem::NoWatchGroups));

    let mut config = valid_config();
    config.watch.insert("empty".into(), WatchGroup { paths: vec![], workflow: None });
    assert_eq!(config.validate(host()), Err(ConfigProblem::NoPaths("empty".into())));

    let mut config = valid_config();
    config.watch.insert("rust".into(), WatchGroup { paths: vec!["src".into()], workflow: None });
    assert_eq!(
        config.validate(host()),
        Err(ConfigProblem::WatchMissingWorkflow { group: "rust".into(), workflow: "rust".into() })
    );

    let mut config = valid_config();
    config.process.insert("server".into(), process(vec![]));
    let error = config.validate(host()).unwrap_err();
    assert_eq!(
        error,
        ConfigProblem::InvalidProcess {
            name: "server".into(),
            problem: SpecProblem::EmptyProcessCommand
        }
    );
    assert_eq!(error.message(), "invalid process 'server'");
    assert_eq!(error.report(), "invalid process 'server': process command must not be empty");

    let bind = HostFacts { event_bind_is_address: false, ..host() };
    assert_eq!(
        valid_config().validate(bind),
        Err(ConfigProblem::InvalidEventBind("127.0.0.1:0".into()))
    );
    let bind = HostFacts { reload_bind_is_address: false, ..host() };
    assert_eq!(
        valid_config().validate(bind),
        Err(ConfigProblem::InvalidReloadBind("127.0.0.1:0".into()))
    );

    let mut config = valid_config();
    config.startup_workflows.push("missing".into());
    assert_eq!(
        config.validate(host()),
        Err(ConfigProblem::StartupMissingWorkflow("missing".into()))
    );
}

#[test]
fn validate_reports_probe_and_rule_problems() {
    let mut config = valid_config();
    let mut server = process(vec!["cargo"]);
    server.readiness = Some(ProbeSpec::Http { url: " \u{a0}".into(), interval_ms: 1, timeout_ms: 2 });
    config.process.insert("server".into(), server);
    assert_eq!(
        config.validate(host()),
        Err(ConfigProblem::InvalidProcess {
            name: "server".into(),
            problem: SpecProblem::EmptyProbeUrl
        })
    );

    let mut config = valid_config();
    let mut server = process(vec!["cargo"]);
    server.liveness = Some(ProbeSpec::StateKey { key: "\t".into(), interval_ms: 1, timeout_ms: 2 });
    config.process.insert("server".into(), server);
    assert_eq!(
        config.validate(host()),
        Err(ConfigProblem::InvalidProcess {
            name: "server".into(),
            problem: SpecProblem::EmptyProbeKey
        })
    );

    let mut config = valid_config();
    let mut server = process(vec!["cargo"]);
    server.output.rules.push(OutputRule {
        state_key: "url".into(),
        pattern: Some("(".into()),
        extract: OutputExtract::Regex,
        capture_group: 1,
    });
    config.process.insert("server".into(), server);
    let error = config.validate(host()).unwrap_err();
    assert_eq!(error.report(), "invalid process 'server': invalid output rule regex '('");

    let mut config = valid_config();
    let mut server = process(vec!["cargo"]);
    server.output.rules.push(OutputRule {
        state_key: "".into(),
        pattern: None,
        extract: OutputExtract::UrlToken,
        capture_group: 1,
    });
    config.process.insert("server".into(), server);
    assert_eq!(
        config.validate(host()).unwrap_err().report(),
        "invalid process 'server': output rule state_key must not be empty"
    );
}

#[test]
fn validate_reports_hook_and_event_problems() {
    let mut config = valid_config();
    config.hook.insert("h".into(), hook(vec![]));
    assert_eq!(
        config.validate(host()).unwrap_err().report(),
        "invalid hook 'h': hook command must not be empty"
    );

    let mut config = valid_config();
    let mut text = hook(vec!["echo"]);
    text.capture = Some(CaptureMode::Text);
    config.hook.insert("h".into(), text);
    assert_eq!(
        config.validate(host()).unwrap_err().report(),
        "invalid hook 'h': text capture requires state_key"
    );

    let mut config = valid_config();
    let mut observed = hook(vec!["echo"]);
    observed.observe = Some(ObservedHookSpec { workflow: "content".into(), interval_ms: 0 });
    config.hook.insert("h".into(), observed);
    assert_eq!(
        config.validate(host()).unwrap_err().report(),
        "invalid hook 'h': observed hook interval_ms must be greater than zero"
    );

    let mut config = valid_config();
    let mut observed = hook(vec!["echo"]);
    observed.observe = Some(ObservedHookSpec { workflow: " ".into(), interval_ms: 1 });
    config.hook.insert("h".into(), observed);
    assert_eq!(
        config.validate(host()).unwrap_err().report(),
        "invalid hook 'h': observed hook workflow must not be empty"
    );

    for (state_key, workflow, pattern, message) in [
        ("", "content", None, "event state_key must not be empty"),
        ("key", " ", None, "event workflow must not be empty"),
        ("key", "content", Some("["), "invalid event regex '['"),
    ] {
        let mut config = valid_config();
        config.event.insert(
            "e".into(),
            EventSpec {
                state_key: state_key.into(),
                workflow: workflow.into(),
                pattern: pattern.map(String::from),
            },
        );
        assert_eq!(
            config.validate(host()).unwrap_err().report(),
            format!("invalid event 'e': {message}")
        );
    }
}

#[test]
fn validate_reports_workflow_problems() {
    let mut config = valid_config();
    add(&mut config, "empty", vec![], vec![]);
    let error = config.validate(host()).unwrap_err();
    assert_eq!(
        error,
        ConfigProblem::InvalidWorkflow { name: "empty".into(), problem: WorkflowProblem::NoSteps }
    );
    assert_eq!(
        error.report(),
        "invalid workflow 'empty': workflow must contain at least one step"
    );

    let mut config = base_config();
    add(&mut config, "w", vec![WorkflowStep::WaitForProcess { process: "server".into() }], vec![]);
    assert_eq!(error_of(&config, "w"), "workflow references missing process 'server'");

    let mut config = base_config();
    add(&mut config, "w", vec![WorkflowStep::RunHook { hook: "build".into() }], vec![]);
    assert_eq!(error_of(&config, "w"), "workflow references missing hook 'build'");
}

#[test]
fn overlaps_are_reported_in_the_order_of_names() {
    let mut config = base_config();
    add(&mut config, "x", vec![log_step("x")], vec![]);
    add(&mut config, "y", vec![log_step("y")], vec![]);
    add(&mut config, "root", vec![run_step("y"), run_step("x")], vec!["y", "x"]);

    assert!(error_of(&config, "root").starts_with("workflow 'x' is reachable both"));
}

#[test]
fn paths_are_seen_from_the_directory_of_the_config_file() {
    let config = base_config().resolved("/srv/site");
    assert_eq!(config.root, "/srv/site/.");
    assert_eq!(config.state_file.as_deref(), Some("/srv/site/./state.json"));

    let mut absolute = base_config();
    absolute.root = "/work".into();
    absolute.state_file = None;
    let absolute = absolute.resolved("/srv/site/");
    assert_eq!(absolute.root, "/work");
    assert_eq!(absolute.state_file.as_deref(), Some("/work/.devloop/state.json"));
    assert_eq!(absolute.debounce(), 100);
}

#[test]
fn the_config_file_is_the_given_one_or_the_one_nearby() {
    assert_eq!(resolve_config_path(Some("x.toml".into()), "/srv", false), Ok("x.toml".into()));
    assert_eq!(resolve_config_path(None, "/srv", true), Ok("/srv/devloop.toml".into()));
    assert_eq!(
        resolve_config_path(None, "/srv", false),
        Err("no devloop config provided and no ./devloop.toml found in /srv".into())
    );
}

#[test]
fn defaults_have_their_documented_values() {
    assert_eq!(default_debounce_ms(), 250);
    assert_eq!(default_interval_ms(), 500);
    assert_eq!(default_timeout_ms(), 15_000);
    assert_eq!(default_capture_group(), 1);
    assert_eq!(RestartPolicy::default(), RestartPolicy::Never);
    assert_eq!(OutputExtract::default(), OutputExtract::Regex);
    assert_eq!(LogStyle::default(), LogStyle::Plain);
}

#[test]
fn name_maps_keep_the_order_of_their_names() {
    let mut map: NameMap<u32> = NameMap::new();
    assert!(map.is_empty());
    assert_eq!(map.insert("b".into(), 1), None);
    assert_eq!(map.insert("\u{10000}".into(), 2), None);
    assert_eq!(map.insert("\u{ffff}".into(), 3), None);
    assert_eq!(map.insert("a".into(), 4), None);
    assert_eq!(map.insert("ab".into(), 5), None);
    assert_eq!(map.insert("b".into(), 6), Some(1));
    let names: Vec<&str> = (0..map.len()).map(|i| map.key_at(i).as_str()).collect();
    let mut sorted = names.clone();
    sorted.sort();
    assert_eq!(names, sorted);
    assert_eq!(map.get("b"), Some(&6));
    assert_eq!(map.remove("a"), Some(4));
    assert_eq!(map.get("a"), None);
    assert_eq!(map.len(), 4);
}
