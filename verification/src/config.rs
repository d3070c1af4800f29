//! The configuration of a supervised workspace.

use crate::name_map::NameMap;
use crate::paths::{absolutize, join, law_joining_puts_one_separator, path_join};
use vstd::prelude::*;

verus! {

/// A configuration: what is watched, what runs, and what happens on a change.
#[derive(Debug, Clone)]
pub struct Config {
    pub root: String,
    pub debounce_ms: u64,
    pub state_file: Option<String>,
    pub startup_workflows: Vec<String>,
    pub watch: NameMap<WatchGroup>,
    pub process: NameMap<ProcessSpec>,
    pub hook: NameMap<HookSpec>,
    pub event_server: EventServerConfig,
    pub browser_reload_server: BrowserReloadServerConfig,
    pub event: NameMap<EventSpec>,
    pub workflow: NameMap<WorkflowSpec>,
}

/// Paths that are watched together, and the workflow that a change to one of them runs.
#[derive(Debug, Clone)]
pub struct WatchGroup {
    pub paths: Vec<String>,
    pub workflow: Option<String>,
}

/// A managed process.
#[derive(Debug, Clone)]
pub struct ProcessSpec {
    pub command: Vec<String>,
    pub cwd: Option<String>,
    pub autostart: bool,
    pub readiness: Option<ProbeSpec>,
    pub liveness: Option<ProbeSpec>,
    pub restart: RestartPolicy,
    pub env: NameMap<String>,
    pub output: OutputConfig,
}

/// How to find out whether a process is ready or alive.
#[derive(Debug, Clone)]
pub enum ProbeSpec {
    Http { url: String, interval_ms: u64, timeout_ms: u64 },
    StateKey { key: String, interval_ms: u64, timeout_ms: u64 },
}

/// When a process that has exited is started again.
#[derive(Debug, Clone, Copy, PartialEq, Eq, Structural)]
pub enum RestartPolicy {
    Never,
    OnFailure,
    Always,
}

/// What happens to the output of a process.
#[derive(Debug, Clone)]
pub struct OutputConfig {
    pub inherit: bool,
    pub body_style: OutputBodyStyle,
    pub rules: Vec<OutputRule>,
}

/// How a session value is taken from a line of output.
#[derive(Debug, Clone)]
pub struct OutputRule {
    pub state_key: String,
    pub pattern: Option<String>,
    pub extract: OutputExtract,
    pub capture_group: usize,
}

/// How the text behind a label is shown.
#[derive(Debug, Clone, Copy, PartialEq, Eq, Structural)]
pub enum OutputBodyStyle {
    Plain,
    Dim,
}

/// What an output rule looks for.
#[derive(Debug, Clone, Copy, PartialEq, Eq, Structural)]
pub enum OutputExtract {
    Regex,
    UrlToken,
}

/// A command that runs to completion.
#[derive(Debug, Clone)]
pub struct HookSpec {
    pub command: Vec<String>,
    pub cwd: Option<String>,
    pub env: NameMap<String>,
    pub output: HookOutputConfig,
    pub capture: Option<CaptureMode>,
    pub state_key: Option<String>,
    pub observe: Option<ObservedHookSpec>,
}

/// Where the server for events listens.
#[derive(Debug, Clone)]
pub struct EventServerConfig {
    pub bind: String,
}

/// Where the server for browser reloads listens.
#[derive(Debug, Clone)]
pub struct BrowserReloadServerConfig {
    pub bind: String,
}

/// An event that may be posted from outside.
#[derive(Debug, Clone)]
pub struct EventSpec {
    pub state_key: String,
    pub workflow: String,
    pub pattern: Option<String>,
}

/// How often a hook is polled, and the workflow that a change of its result runs.
#[derive(Debug, Clone)]
pub struct ObservedHookSpec {
    pub workflow: String,
    pub interval_ms: u64,
}

/// What happens to the output of a hook.
#[derive(Debug, Clone)]
pub struct HookOutputConfig {
    pub inherit: bool,
    pub body_style: OutputBodyStyle,
}

/// What becomes of what a hook prints.
#[derive(Debug, Clone, Copy, PartialEq, Eq, Structural)]
pub enum CaptureMode {
    Ignore,
    Text,
    Json,
}

/// Steps that run in order, and the workflows that run after them.
#[derive(Debug, Clone)]
pub struct WorkflowSpec {
    pub steps: Vec<WorkflowStep>,
    pub triggers: Vec<String>,
}

/// A step of a workflow.
#[derive(Debug, Clone)]
pub enum WorkflowStep {
    StartProcess { process: String },
    StopProcess { process: String },
    RestartProcess { process: String },
    WaitForProcess { process: String },
    RunHook { hook: String },
    RunWorkflow { workflow: String },
    SleepMs { duration_ms: u64 },
    WriteState { key: String, value: String },
    Log { message: String, style: LogStyle },
    NotifyReload,
}

/// How a log message is shown.
#[derive(Debug, Clone, Copy, PartialEq, Eq, Structural)]
pub enum LogStyle {
    Plain,
    Boxed,
}

/// How long changes are collected before they count, where nothing is configured.
pub fn default_debounce_ms() -> (ms: u64)
    ensures
        ms == 250,
{
    250
}

/// The time between two attempts of a probe, where nothing is configured.
pub fn default_interval_ms() -> (ms: u64)
    ensures
        ms == 500,
{
    500
}

/// How long a probe may take, where nothing is configured.
pub fn default_timeout_ms() -> (ms: u64)
    ensures
        ms == 15_000,
{
    15_000
}

/// The time between two polls of an observed hook, where nothing is configured.
pub fn default_observe_interval_ms() -> (ms: u64)
    ensures
        ms == 1_000,
{
    1_000
}

/// The group of a pattern that an output rule takes, where nothing is configured.
pub fn default_capture_group() -> (group: usize)
    ensures
        group == 1,
{
    1
}

/// Where a server listens, where nothing is configured: at a free port of this host.
pub const DEFAULT_BIND: &'static str = "127.0.0.1:0";

impl Default for RestartPolicy {
    fn default() -> (policy: Self)
        ensures
            policy == RestartPolicy::Never,
    {
        RestartPolicy::Never
    }
}

impl Default for OutputBodyStyle {
    fn default() -> (style: Self)
        ensures
            style == OutputBodyStyle::Plain,
    {
        OutputBodyStyle::Plain
    }
}

impl Default for OutputExtract {
    fn default() -> (extract: Self)
        ensures
            extract == OutputExtract::Regex,
    {
        OutputExtract::Regex
    }
}

impl Default for LogStyle {
    fn default() -> (style: Self)
        ensures
            style == LogStyle::Plain,
    {
        LogStyle::Plain
    }
}

impl Default for OutputConfig {
    fn default() -> (output: Self)
        ensures
            output.inherit,
            output.body_style == OutputBodyStyle::Plain,
            output.rules@ == Seq::<OutputRule>::empty(),
    {
        OutputConfig { inherit: true, body_style: OutputBodyStyle::Plain, rules: Vec::new() }
    }
}

impl Default for HookOutputConfig {
    fn default() -> (output: Self)
        ensures
            output.inherit,
            output.body_style == OutputBodyStyle::Dim,
    {
        HookOutputConfig { inherit: true, body_style: OutputBodyStyle::Dim }
    }
}

impl Default for EventServerConfig {
    fn default() -> (server: Self)
        ensures
            server.bind@ == DEFAULT_BIND@,
    {
        EventServerConfig { bind: DEFAULT_BIND.to_owned() }
    }
}

impl Default for BrowserReloadServerConfig {
    fn default() -> (server: Self)
        ensures
            server.bind@ == DEFAULT_BIND@,
    {
        BrowserReloadServerConfig { bind: DEFAULT_BIND.to_owned() }
    }
}

/// The root of a configuration whose file is in the directory `base`.
pub open spec fn root_from(base: Seq<char>, root: Seq<char>) -> Seq<char> {
    path_join(base, root)
}

/// The state file of a configuration whose file is in the directory `base`.
pub open spec fn state_file_from(base: Seq<char>, root: Seq<char>, state_file: Option<String>) -> Seq<
    char,
> {
    match state_file {
        Some(file) => path_join(base, file@),
        None => path_join(path_join(root_from(base, root), ".devloop"@), "state.json"@),
    }
}

impl Config {
    /// The configuration with its paths seen from the directory `base` of its file. Without a
    /// state file of its own it has one below its root.
    pub fn resolved(self, base: &str) -> (config: Self)
        ensures
            config.root@ == root_from(base@, self.root@),
            config.state_file matches Some(path) && path@ == state_file_from(
                base@,
                self.root@,
                self.state_file,
            ),
            config.debounce_ms == self.debounce_ms,
            config.startup_workflows == self.startup_workflows,
            config.watch == self.watch,
            config.process == self.process,
            config.hook == self.hook,
            config.event_server == self.event_server,
            config.browser_reload_server == self.browser_reload_server,
            config.event == self.event,
            config.workflow == self.workflow,
    {
        let mut config = self;
        let root = absolutize(base, config.root.as_str());
        let state_file = match &config.state_file {
            Some(file) => absolutize(base, file.as_str()),
            None => join(join(root.as_str(), ".devloop").as_str(), "state.json"),
        };
        config.root = root;
        config.state_file = Some(state_file);
        config
    }

    /// How long changes are collected before they count, in milliseconds.
    pub fn debounce(&self) -> (ms: u64)
        ensures
            ms == self.debounce_ms,
    {
        self.debounce_ms
    }

    /// Whether any event may be posted.
    pub fn has_external_events(&self) -> (found: bool)
        ensures
            found == (self.event@ != Map::<Seq<char>, EventSpec>::empty()),
    {
        !self.event.is_empty()
    }
}

/// Whether a result is the file of the configuration, or the text of an error.
pub open spec fn is_config_path(
    config: Option<String>,
    current_dir: Seq<char>,
    default_exists: bool,
    result: Result<String, String>,
) -> bool {
    match config {
        Some(path) => result == Ok::<String, String>(path),
        None => if default_exists {
            result matches Ok(path) && path@ == path_join(current_dir, "devloop.toml"@)
        } else {
            result matches Err(message) && message@
                == "no devloop config provided and no ./devloop.toml found in "@ + current_dir
        },
    }
}

/// The file of the configuration: the one that is given, or the one in the current directory
/// where there is one; otherwise the text of an error.
pub fn resolve_config_path(config: Option<String>, current_dir: &str, default_exists: bool) -> (result:
    Result<String, String>)
    ensures
        is_config_path(config, current_dir@, default_exists, result),
{
    match config {
        Some(path) => Ok(path),
        None => if default_exists {
            Ok(join(current_dir, "devloop.toml"))
        } else {
            Err(
                "no devloop config provided and no ./devloop.toml found in ".to_owned().concat(
                    current_dir,
                ),
            )
        },
    }
}

/// What is logged: what the environment asks for, or what is of general interest.
pub fn default_rust_log(configured: Option<String>) -> (filter: String)
    ensures
        match configured {
            Some(text) => filter@ == text@,
            None => filter@ == "info"@,
        },
{
    match configured {
        Some(text) => text,
        None => "info".to_owned(),
    }
}

/// The paths of a configuration are seen from the directory of its file: an absolute one stays, and
/// any other stands below that directory. The state file stands below the root unless it has a path
/// of its own.
pub proof fn law_paths_are_seen_from_the_file(base: Seq<char>, root: Seq<char>, file: String)
    requires
        base.len() > 0,
        base.last() != '/',
        root.len() > 0,
        root.last() != '/',
    ensures
        root[0] == '/' ==> root_from(base, root) == root,
        root[0] != '/' ==> root_from(base, root) == base + seq!['/'] + root,
        state_file_from(base, root, None) == root_from(base, root) + seq!['/'] + ".devloop"@ + seq!['/']
            + "state.json"@,
        file@.len() > 0 && file@[0] == '/' ==> state_file_from(base, root, Some(file)) == file@,
        file@.len() > 0 && file@[0] != '/' ==> state_file_from(base, root, Some(file)) == base + seq!['/']
            + file@,
{
    reveal_strlit(".devloop");
    reveal_strlit("state.json");
    law_joining_puts_one_separator(base, root);
    law_joining_puts_one_separator(base, file@);
    let seen = root_from(base, root);
    law_joining_puts_one_separator(seen, ".devloop"@);
    law_joining_puts_one_separator(path_join(seen, ".devloop"@), "state.json"@);
}

/// The file that is given is the file of the configuration wherever one is given; otherwise it is
/// the one of the current directory, where there is one.
pub proof fn law_given_files_come_first(
    config: Option<String>,
    current_dir: Seq<char>,
    default_exists: bool,
    result: Result<String, String>,
)
    requires
        is_config_path(config, current_dir, default_exists, result),
        current_dir.len() > 0,
        current_dir.last() != '/',
    ensures
        config matches Some(path) ==> (result matches Ok(found) && found == path),
        result is Err <==> config is None && !default_exists,
        config is None && default_exists ==> (result matches Ok(found) && found@ == current_dir + seq![
            '/',
        ] + "devloop.toml"@),
{
    reveal_strlit("devloop.toml");
    law_joining_puts_one_separator(current_dir, "devloop.toml"@);
}

} // verus!
