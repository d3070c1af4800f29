//! What makes a configuration valid.

use crate::config::{
    CaptureMode, Config, EventSpec, HookSpec, ObservedHookSpec, OutputConfig, OutputRule, ProbeSpec,
    ProcessSpec,
};
use crate::graph::{is_sound, workflow_defect, WorkflowProblem};
use crate::patterns::{is_regex, regex_compiles};
use crate::text::{chars_of, is_white_space, join_texts, joined, white_space};
use crate::watch::group_workflow;
use vstd::prelude::*;

verus! {

/// What the host says of a configuration: whether its root directory exists, and whether its
/// servers bind to socket addresses.
#[derive(Debug, Clone, Copy)]
pub struct HostFacts {
    pub root_exists: bool,
    pub event_bind_is_address: bool,
    pub reload_bind_is_address: bool,
}

/// Why a process, a hook or an event is refused.
#[derive(Debug, Clone, PartialEq, Eq)]
pub enum SpecProblem<T> {
    EmptyProcessCommand,
    EmptyProbeUrl,
    EmptyProbeKey,
    EmptyOutputKey,
    InvalidOutputRegex(T),
    EmptyHookCommand,
    TextCaptureWithoutKey,
    EmptyObservedWorkflow,
    ZeroObserveInterval,
    EmptyEventKey,
    EmptyEventWorkflow,
    InvalidEventRegex(T),
}

/// Why a configuration is refused.
#[derive(Debug, Clone, PartialEq, Eq)]
pub enum ConfigProblem<T, P> {
    RootMissing(T),
    NoWatchGroups,
    NoPaths(T),
    WatchMissingWorkflow { group: T, workflow: T },
    InvalidProcess { name: T, problem: SpecProblem<T> },
    InvalidHook { name: T, problem: SpecProblem<T> },
    HookMissingWorkflow { hook: T, workflow: T },
    InvalidEventBind(T),
    InvalidReloadBind(T),
    InvalidEvent { name: T, problem: SpecProblem<T> },
    EventMissingWorkflow { event: T, workflow: T },
    InvalidWorkflow { name: T, problem: WorkflowProblem<T, P> },
    StartupMissingWorkflow(T),
}

/// Why a process, a hook or an event is refused.
pub type SpecError = SpecProblem<String>;

/// What the refusal of a process, a hook or an event says.
pub type SpecDefect = SpecProblem<Seq<char>>;

/// Why a configuration is refused.
pub type ConfigError = ConfigProblem<String, Vec<String>>;

/// What the refusal of a configuration says.
pub type ConfigDefect = ConfigProblem<Seq<char>, Seq<Seq<char>>>;

impl SpecProblem<String> {
    /// What the refusal says.
    pub open spec fn view(&self) -> SpecDefect {
        match *self {
            SpecProblem::EmptyProcessCommand => SpecProblem::EmptyProcessCommand,
            SpecProblem::EmptyProbeUrl => SpecProblem::EmptyProbeUrl,
            SpecProblem::EmptyProbeKey => SpecProblem::EmptyProbeKey,
            SpecProblem::EmptyOutputKey => SpecProblem::EmptyOutputKey,
            SpecProblem::InvalidOutputRegex(pattern) => SpecProblem::InvalidOutputRegex(pattern@),
            SpecProblem::EmptyHookCommand => SpecProblem::EmptyHookCommand,
            SpecProblem::TextCaptureWithoutKey => SpecProblem::TextCaptureWithoutKey,
            SpecProblem::EmptyObservedWorkflow => SpecProblem::EmptyObservedWorkflow,
            SpecProblem::ZeroObserveInterval => SpecProblem::ZeroObserveInterval,
            SpecProblem::EmptyEventKey => SpecProblem::EmptyEventKey,
            SpecProblem::EmptyEventWorkflow => SpecProblem::EmptyEventWorkflow,
            SpecProblem::InvalidEventRegex(pattern) => SpecProblem::InvalidEventRegex(pattern@),
        }
    }

    /// The text of the refusal.
    pub fn message(&self) -> (text: String)
        ensures
            text@ == spec_message(self@),
    {
        match self {
            SpecProblem::EmptyProcessCommand => "process command must not be empty".to_owned(),
            SpecProblem::EmptyProbeUrl => "http probe url must not be empty".to_owned(),
            SpecProblem::EmptyProbeKey => "state_key probe key must not be empty".to_owned(),
            SpecProblem::EmptyOutputKey => "output rule state_key must not be empty".to_owned(),
            SpecProblem::InvalidOutputRegex(pattern) => quoted("invalid output rule regex '", pattern),
            SpecProblem::EmptyHookCommand => "hook command must not be empty".to_owned(),
            SpecProblem::TextCaptureWithoutKey => "text capture requires state_key".to_owned(),
            SpecProblem::EmptyObservedWorkflow => "observed hook workflow must not be empty".to_owned(),
            SpecProblem::ZeroObserveInterval =>
                "observed hook interval_ms must be greater than zero".to_owned(),
            SpecProblem::EmptyEventKey => "event state_key must not be empty".to_owned(),
            SpecProblem::EmptyEventWorkflow => "event workflow must not be empty".to_owned(),
            SpecProblem::InvalidEventRegex(pattern) => quoted("invalid event regex '", pattern),
        }
    }
}

/// A text, a name, and a closing quote.
fn quoted(head: &str, name: &String) -> (text: String)
    ensures
        text@ == head@ + name@ + "'"@,
{
    head.to_owned().concat(name.as_str()).concat("'")
}

/// A text, a name, a second text, a second name, and a closing quote.
fn quoted_pair(head: &str, first: &String, middle: &str, second: &String) -> (text: String)
    ensures
        text@ == head@ + first@ + middle@ + second@ + "'"@,
{
    head.to_owned().concat(first.as_str()).concat(middle).concat(second.as_str()).concat("'")
}

/// The text of the refusal of a process, a hook or an event.
pub open spec fn spec_message(defect: SpecDefect) -> Seq<char> {
    match defect {
        SpecProblem::EmptyProcessCommand => "process command must not be empty"@,
        SpecProblem::EmptyProbeUrl => "http probe url must not be empty"@,
        SpecProblem::EmptyProbeKey => "state_key probe key must not be empty"@,
        SpecProblem::EmptyOutputKey => "output rule state_key must not be empty"@,
        SpecProblem::InvalidOutputRegex(pattern) => "invalid output rule regex '"@ + pattern + "'"@,
        SpecProblem::EmptyHookCommand => "hook command must not be empty"@,
        SpecProblem::TextCaptureWithoutKey => "text capture requires state_key"@,
        SpecProblem::EmptyObservedWorkflow => "observed hook workflow must not be empty"@,
        SpecProblem::ZeroObserveInterval => "observed hook interval_ms must be greater than zero"@,
        SpecProblem::EmptyEventKey => "event state_key must not be empty"@,
        SpecProblem::EmptyEventWorkflow => "event workflow must not be empty"@,
        SpecProblem::InvalidEventRegex(pattern) => "invalid event regex '"@ + pattern + "'"@,
    }
}

/// The text of the refusal of a workflow.
pub open spec fn workflow_message(defect: crate::graph::Defect) -> Seq<char> {
    match defect {
        WorkflowProblem::NoSteps => "workflow must contain at least one step"@,
        WorkflowProblem::MissingProcess(name) => "workflow references missing process '"@ + name + "'"@,
        WorkflowProblem::MissingHook(name) => "workflow references missing hook '"@ + name + "'"@,
        WorkflowProblem::MissingWorkflow(name) => "workflow references missing workflow '"@ + name
            + "'"@,
        WorkflowProblem::Recursion(cycle) => "workflow recursion detected: "@ + joined(cycle, " -> "@),
        WorkflowProblem::Overlap(name) => "workflow '"@ + name
            + "' is reachable both as a trigger target and via run_workflow in the same execution tree"@,
    }
}

impl WorkflowProblem<String, Vec<String>> {
    /// The text of the refusal.
    pub fn message(&self) -> (text: String)
        ensures
            text@ == workflow_message(self@),
    {
        match self {
            WorkflowProblem::NoSteps => "workflow must contain at least one step".to_owned(),
            WorkflowProblem::MissingProcess(name) => quoted(
                "workflow references missing process '",
                name,
            ),
            WorkflowProblem::MissingHook(name) => quoted("workflow references missing hook '", name),
            WorkflowProblem::MissingWorkflow(name) => quoted(
                "workflow references missing workflow '",
                name,
            ),
            WorkflowProblem::Recursion(cycle) => "workflow recursion detected: ".to_owned().concat(
                join_texts(cycle, " -> ").as_str(),
            ),
            WorkflowProblem::Overlap(name) => "workflow '".to_owned().concat(name.as_str()).concat(
                "' is reachable both as a trigger target and via run_workflow in the same execution tree",
            ),
        }
    }
}

/// The text of the refusal of a configuration.
pub open spec fn config_message(defect: ConfigDefect) -> Seq<char> {
    match defect {
        ConfigProblem::RootMissing(root) => "config root '"@ + root + "' does not exist"@,
        ConfigProblem::NoWatchGroups => "config must define at least one watch group"@,
        ConfigProblem::NoPaths(group) => "watch group '"@ + group + "' must define at least one path"@,
        ConfigProblem::WatchMissingWorkflow { group, workflow } => "watch group '"@ + group
            + "' references missing workflow '"@ + workflow + "'"@,
        ConfigProblem::InvalidProcess { name, .. } => "invalid process '"@ + name + "'"@,
        ConfigProblem::InvalidHook { name, .. } => "invalid hook '"@ + name + "'"@,
        ConfigProblem::HookMissingWorkflow { hook, workflow } => "hook '"@ + hook
            + "' observes missing workflow '"@ + workflow + "'"@,
        ConfigProblem::InvalidEventBind(bind) => "event_server bind '"@ + bind
            + "' is not a valid socket address"@,
        ConfigProblem::InvalidReloadBind(bind) => "browser_reload_server bind '"@ + bind
            + "' is not a valid socket address"@,
        ConfigProblem::InvalidEvent { name, .. } => "invalid event '"@ + name + "'"@,
        ConfigProblem::EventMissingWorkflow { event, workflow } => "event '"@ + event
            + "' references missing workflow '"@ + workflow + "'"@,
        ConfigProblem::InvalidWorkflow { name, .. } => "invalid workflow '"@ + name + "'"@,
        ConfigProblem::StartupMissingWorkflow(workflow) =>
            "startup workflow references missing workflow '"@ + workflow + "'"@,
    }
}

/// The text of the refusal of a configuration with what caused it.
pub open spec fn config_report(defect: ConfigDefect) -> Seq<char> {
    match defect {
        ConfigProblem::InvalidProcess { problem, .. } => config_message(defect) + ": "@ + spec_message(
            problem,
        ),
        ConfigProblem::InvalidHook { problem, .. } => config_message(defect) + ": "@ + spec_message(
            problem,
        ),
        ConfigProblem::InvalidEvent { problem, .. } => config_message(defect) + ": "@ + spec_message(
            problem,
        ),
        ConfigProblem::InvalidWorkflow { problem, .. } => config_message(defect) + ": "@
            + workflow_message(problem),
        _ => config_message(defect),
    }
}

impl ConfigProblem<String, Vec<String>> {
    /// What the refusal says.
    pub open spec fn view(&self) -> ConfigDefect {
        match *self {
            ConfigProblem::RootMissing(root) => ConfigProblem::RootMissing(root@),
            ConfigProblem::NoWatchGroups => ConfigProblem::NoWatchGroups,
            ConfigProblem::NoPaths(group) => ConfigProblem::NoPaths(group@),
            ConfigProblem::WatchMissingWorkflow {
                group,
                workflow,
            } => ConfigProblem::WatchMissingWorkflow { group: group@, workflow: workflow@ },
            ConfigProblem::InvalidProcess { name, problem } => ConfigProblem::InvalidProcess {
                name: name@,
                problem: problem@,
            },
            ConfigProblem::InvalidHook { name, problem } => ConfigProblem::InvalidHook {
                name: name@,
                problem: problem@,
            },
            ConfigProblem::HookMissingWorkflow { hook, workflow } => ConfigProblem::HookMissingWorkflow {
                hook: hook@,
                workflow: workflow@,
            },
            ConfigProblem::InvalidEventBind(bind) => ConfigProblem::InvalidEventBind(bind@),
            ConfigProblem::InvalidReloadBind(bind) => ConfigProblem::InvalidReloadBind(bind@),
            ConfigProblem::InvalidEvent { name, problem } => ConfigProblem::InvalidEvent {
                name: name@,
                problem: problem@,
            },
            ConfigProblem::EventMissingWorkflow {
                event,
                workflow,
            } => ConfigProblem::EventMissingWorkflow { event: event@, workflow: workflow@ },
            ConfigProblem::InvalidWorkflow { name, problem } => ConfigProblem::InvalidWorkflow {
                name: name@,
                problem: problem@,
            },
            ConfigProblem::StartupMissingWorkflow(workflow) => ConfigProblem::StartupMissingWorkflow(
                workflow@,
            ),
        }
    }

    /// The text of the refusal.
    pub fn message(&self) -> (text: String)
        ensures
            text@ == config_message(self@),
    {
        match self {
            ConfigProblem::RootMissing(root) => "config root '".to_owned().concat(
                root.as_str(),
            ).concat("' does not exist"),
            ConfigProblem::NoWatchGroups => "config must define at least one watch group".to_owned(),
            ConfigProblem::NoPaths(group) => "watch group '".to_owned().concat(group.as_str()).concat(
                "' must define at least one path",
            ),
            ConfigProblem::WatchMissingWorkflow { group, workflow } => quoted_pair(
                "watch group '",
                group,
                "' references missing workflow '",
                workflow,
            ),
            ConfigProblem::InvalidProcess { name, .. } => quoted("invalid process '", name),
            ConfigProblem::InvalidHook { name, .. } => quoted("invalid hook '", name),
            ConfigProblem::HookMissingWorkflow { hook, workflow } => quoted_pair(
                "hook '",
                hook,
                "' observes missing workflow '",
                workflow,
            ),
            ConfigProblem::InvalidEventBind(bind) => "event_server bind '".to_owned().concat(
                bind.as_str(),
            ).concat("' is not a valid socket address"),
            ConfigProblem::InvalidReloadBind(bind) => "browser_reload_server bind '".to_owned().concat(
                bind.as_str(),
            ).concat("' is not a valid socket address"),
            ConfigProblem::InvalidEvent { name, .. } => quoted("invalid event '", name),
            ConfigProblem::EventMissingWorkflow { event, workflow } => quoted_pair(
                "event '",
                event,
                "' references missing workflow '",
                workflow,
            ),
            ConfigProblem::InvalidWorkflow { name, .. } => quoted("invalid workflow '", name),
            ConfigProblem::StartupMissingWorkflow(workflow) => quoted(
                "startup workflow references missing workflow '",
                workflow,
            ),
        }
    }

    /// The text of the refusal with what caused it.
    pub fn report(&self) -> (text: String)
        ensures
            text@ == config_report(self@),
    {
        let message = self.message();
        match self {
            ConfigProblem::InvalidProcess { problem, .. }
            | ConfigProblem::InvalidHook { problem, .. }
            | ConfigProblem::InvalidEvent { problem, .. } => message.concat(": ").concat(
                problem.message().as_str(),
            ),
            ConfigProblem::InvalidWorkflow { problem, .. } => message.concat(": ").concat(
                problem.message().as_str(),
            ),
            _ => message,
        }
    }
}

/// Whether a text holds nothing but white space.
pub open spec fn is_blank(text: Seq<char>) -> bool {
    forall|i: int| 0 <= i < text.len() ==> is_white_space(#[trigger] text[i])
}

/// Whether a text holds nothing but white space.
pub fn blank(text: &str) -> (result: bool)
    ensures
        result == is_blank(text@),
{
    let chars = chars_of(text);
    let mut i: usize = 0;
    while i < chars.len()
        invariant
            i <= chars@.len(),
            chars@ == text@,
            forall|k: int| 0 <= k < i ==> is_white_space(#[trigger] chars@[k]),
        decreases chars@.len() - i,
    {
        if !white_space(chars[i]) {
            assert(!is_white_space(text@[i as int]));
            return false;
        }
        i = i + 1;
    }
    true
}

/// What is wrong with a probe.
pub open spec fn probe_problem(probe: ProbeSpec) -> Option<SpecDefect> {
    match probe {
        ProbeSpec::Http { url, .. } => if is_blank(url@) {
            Some(SpecProblem::EmptyProbeUrl)
        } else {
            None
        },
        ProbeSpec::StateKey { key, .. } => if is_blank(key@) {
            Some(SpecProblem::EmptyProbeKey)
        } else {
            None
        },
    }
}

/// What is wrong with a probe that may be there.
pub open spec fn optional_probe_problem(probe: Option<ProbeSpec>) -> Option<SpecDefect> {
    match probe {
        Some(probe) => probe_problem(probe),
        None => None,
    }
}

/// What is wrong with an output rule.
pub open spec fn rule_problem(rule: OutputRule) -> Option<SpecDefect> {
    if is_blank(rule.state_key@) {
        Some(SpecProblem::EmptyOutputKey)
    } else {
        match rule.pattern {
            Some(pattern) => if regex_compiles(pattern@) {
                None
            } else {
                Some(SpecProblem::InvalidOutputRegex(pattern@))
            },
            None => None,
        }
    }
}

/// What is wrong with the first output rule from place `i` on with which something is wrong.
pub open spec fn rules_problem(rules: Seq<OutputRule>, i: nat) -> Option<SpecDefect>
    decreases rules.len() - i,
{
    if i >= rules.len() {
        None
    } else if let Some(problem) = rule_problem(rules[i as int]) {
        Some(problem)
    } else {
        rules_problem(rules, i + 1)
    }
}

/// What is wrong with a process.
pub open spec fn process_problem(process: ProcessSpec) -> Option<SpecDefect> {
    if process.command@.len() == 0 {
        Some(SpecProblem::EmptyProcessCommand)
    } else if let Some(problem) = optional_probe_problem(process.readiness) {
        Some(problem)
    } else if let Some(problem) = optional_probe_problem(process.liveness) {
        Some(problem)
    } else {
        rules_problem(process.output.rules@, 0)
    }
}

/// What is wrong with how a hook is observed.
pub open spec fn observe_problem(observe: ObservedHookSpec) -> Option<SpecDefect> {
    if is_blank(observe.workflow@) {
        Some(SpecProblem::EmptyObservedWorkflow)
    } else if observe.interval_ms == 0 {
        Some(SpecProblem::ZeroObserveInterval)
    } else {
        None
    }
}

/// What is wrong with a hook.
pub open spec fn hook_problem(hook: HookSpec) -> Option<SpecDefect> {
    if hook.command@.len() == 0 {
        Some(SpecProblem::EmptyHookCommand)
    } else if hook.capture == Some(CaptureMode::Text) && hook.state_key is None {
        Some(SpecProblem::TextCaptureWithoutKey)
    } else {
        match hook.observe {
            Some(observe) => observe_problem(observe),
            None => None,
        }
    }
}

/// What is wrong with an event.
pub open spec fn event_problem(event: EventSpec) -> Option<SpecDefect> {
    if is_blank(event.state_key@) {
        Some(SpecProblem::EmptyEventKey)
    } else if is_blank(event.workflow@) {
        Some(SpecProblem::EmptyEventWorkflow)
    } else {
        match event.pattern {
            Some(pattern) => if regex_compiles(pattern@) {
                None
            } else {
                Some(SpecProblem::InvalidEventRegex(pattern@))
            },
            None => None,
        }
    }
}

impl ProbeSpec {
    fn validate(&self) -> (result: Result<(), SpecError>)
        ensures
            match result {
                Ok(()) => probe_problem(*self) is None,
                Err(error) => probe_problem(*self) == Some(error@),
            },
    {
        match self {
            ProbeSpec::Http { url, .. } => {
                if blank(url.as_str()) {
                    return Err(SpecProblem::EmptyProbeUrl);
                }
            },
            ProbeSpec::StateKey { key, .. } => {
                if blank(key.as_str()) {
                    return Err(SpecProblem::EmptyProbeKey);
                }
            },
        }
        Ok(())
    }
}

impl OutputRule {
    fn validate(&self) -> (result: Result<(), SpecError>)
        ensures
            match result {
                Ok(()) => rule_problem(*self) is None,
                Err(error) => rule_problem(*self) == Some(error@),
            },
    {
        if blank(self.state_key.as_str()) {
            return Err(SpecProblem::EmptyOutputKey);
        }
        if let Some(pattern) = &self.pattern {
            if !is_regex(pattern.as_str()) {
                return Err(SpecProblem::InvalidOutputRegex(pattern.clone()));
            }
        }
        Ok(())
    }
}

impl OutputConfig {
    fn validate(&self) -> (result: Result<(), SpecError>)
        ensures
            match result {
                Ok(()) => rules_problem(self.rules@, 0) is None,
                Err(error) => rules_problem(self.rules@, 0) == Some(error@),
            },
    {
        let mut i: usize = 0;
        while i < self.rules.len()
            invariant
                i <= self.rules@.len(),
                rules_problem(self.rules@, 0) == rules_problem(self.rules@, i as nat),
            decreases self.rules@.len() - i,
        {
            if let Err(error) = self.rules[i].validate() {
                return Err(error);
            }
            i = i + 1;
        }
        Ok(())
    }
}

impl ProcessSpec {
    fn validate(&self) -> (result: Result<(), SpecError>)
        ensures
            match result {
                Ok(()) => process_problem(*self) is None,
                Err(error) => process_problem(*self) == Some(error@),
            },
    {
        if self.command.is_empty() {
            return Err(SpecProblem::EmptyProcessCommand);
        }
        if let Some(readiness) = &self.readiness {
            if let Err(error) = readiness.validate() {
                return Err(error);
            }
        }
        if let Some(liveness) = &self.liveness {
            if let Err(error) = liveness.validate() {
                return Err(error);
            }
        }
        self.output.validate()
    }
}

impl ObservedHookSpec {
    fn validate(&self) -> (result: Result<(), SpecError>)
        ensures
            match result {
                Ok(()) => observe_problem(*self) is None,
                Err(error) => observe_problem(*self) == Some(error@),
            },
    {
        if blank(self.workflow.as_str()) {
            return Err(SpecProblem::EmptyObservedWorkflow);
        }
        if self.interval_ms == 0 {
            return Err(SpecProblem::ZeroObserveInterval);
        }
        Ok(())
    }
}

impl HookSpec {
    fn validate(&self) -> (result: Result<(), SpecError>)
        ensures
            match result {
                Ok(()) => hook_problem(*self) is None,
                Err(error) => hook_problem(*self) == Some(error@),
            },
    {
        if self.command.is_empty() {
            return Err(SpecProblem::EmptyHookCommand);
        }
        if let Some(CaptureMode::Text) = self.capture {
            if self.state_key.is_none() {
                return Err(SpecProblem::TextCaptureWithoutKey);
            }
        }
        if let Some(observe) = &self.observe {
            return observe.validate();
        }
        Ok(())
    }
}

impl EventSpec {
    fn validate(&self) -> (result: Result<(), SpecError>)
        ensures
            match result {
                Ok(()) => event_problem(*self) is None,
                Err(error) => event_problem(*self) == Some(error@),
            },
    {
        if blank(self.state_key.as_str()) {
            return Err(SpecProblem::EmptyEventKey);
        }
        if blank(self.workflow.as_str()) {
            return Err(SpecProblem::EmptyEventWorkflow);
        }
        if let Some(pattern) = &self.pattern {
            if !is_regex(pattern.as_str()) {
                return Err(SpecProblem::InvalidEventRegex(pattern.clone()));
            }
        }
        Ok(())
    }
}

/// What is wrong with the watch group at place `i`.
pub open spec fn watch_defect(config: Config, i: int) -> Option<ConfigDefect> {
    let name = config.watch.keys()[i];
    let group = config.watch.values()[i];
    if group.paths@.len() == 0 {
        Some(ConfigProblem::NoPaths(name))
    } else if !config.workflow@.contains_key(group_workflow(group, name)) {
        Some(
            ConfigProblem::WatchMissingWorkflow {
                group: name,
                workflow: group_workflow(group, name),
            },
        )
    } else {
        None
    }
}

/// What is wrong with the process at place `i`.
pub open spec fn process_defect(config: Config, i: int) -> Option<ConfigDefect> {
    match process_problem(config.process.values()[i]) {
        Some(problem) => Some(
            ConfigProblem::InvalidProcess { name: config.process.keys()[i], problem },
        ),
        None => None,
    }
}

/// What is wrong with the hook at place `i`.
pub open spec fn hook_defect(config: Config, i: int) -> Option<ConfigDefect> {
    let name = config.hook.keys()[i];
    let hook = config.hook.values()[i];
    match hook_problem(hook) {
        Some(problem) => Some(ConfigProblem::InvalidHook { name, problem }),
        None => match hook.observe {
            Some(observe) => if config.workflow@.contains_key(observe.workflow@) {
                None
            } else {
                Some(ConfigProblem::HookMissingWorkflow { hook: name, workflow: observe.workflow@ })
            },
            None => None,
        },
    }
}

/// What is wrong with the event at place `i`.
pub open spec fn event_defect(config: Config, i: int) -> Option<ConfigDefect> {
    let name = config.event.keys()[i];
    let event = config.event.values()[i];
    match event_problem(event) {
        Some(problem) => Some(ConfigProblem::InvalidEvent { name, problem }),
        None => if config.workflow@.contains_key(event.workflow@) {
            None
        } else {
            Some(ConfigProblem::EventMissingWorkflow { event: name, workflow: event.workflow@ })
        },
    }
}

/// What is wrong with the workflow at place `i`.
pub open spec fn named_workflow_defect(config: Config, i: int) -> Option<ConfigDefect> {
    let name = config.workflow.keys()[i];
    match workflow_defect(config, name, config.workflow.values()[i], Seq::empty()) {
        Some(problem) => Some(ConfigProblem::InvalidWorkflow { name, problem }),
        None => None,
    }
}

/// What is wrong with the startup workflow at place `i`.
pub open spec fn startup_defect(config: Config, i: int) -> Option<ConfigDefect> {
    let name = config.startup_workflows@[i]@;
    if config.workflow@.contains_key(name) {
        None
    } else {
        Some(ConfigProblem::StartupMissingWorkflow(name))
    }
}

/// The first thing that is wrong at the places from `i` to `n`.
pub open spec fn first_defect(defect: spec_fn(int) -> Option<ConfigDefect>, i: nat, n: nat) -> Option<
    ConfigDefect,
>
    decreases n - i,
{
    if i >= n {
        None
    } else if let Some(found) = defect(i as int) {
        Some(found)
    } else {
        first_defect(defect, i + 1, n)
    }
}

/// The first thing of two that is wrong.
pub open spec fn either(first: Option<ConfigDefect>, second: Option<ConfigDefect>) -> Option<
    ConfigDefect,
> {
    match first {
        Some(defect) => Some(defect),
        None => second,
    }
}

/// What is wrong with the root and the number of watch groups.
pub open spec fn basic_defect(config: Config, host: HostFacts) -> Option<ConfigDefect> {
    if !host.root_exists {
        Some(ConfigProblem::RootMissing(config.root@))
    } else if config.watch.keys().len() == 0 {
        Some(ConfigProblem::NoWatchGroups)
    } else {
        None
    }
}

/// What is wrong with the addresses of the servers.
pub open spec fn server_defect(config: Config, host: HostFacts) -> Option<ConfigDefect> {
    if !host.event_bind_is_address {
        Some(ConfigProblem::InvalidEventBind(config.event_server.bind@))
    } else if !host.reload_bind_is_address {
        Some(ConfigProblem::InvalidReloadBind(config.browser_reload_server.bind@))
    } else {
        None
    }
}

/// What is wrong with a configuration: the first thing, in the order root, watch groups,
/// processes, hooks, servers, events, workflows and startup workflows, and in each of them in the
/// order of names.
pub open spec fn config_defect(config: Config, host: HostFacts) -> Option<ConfigDefect> {
    either(
        basic_defect(config, host),
        either(
            first_defect(|i: int| watch_defect(config, i), 0, config.watch.keys().len()),
            either(
                first_defect(|i: int| process_defect(config, i), 0, config.process.keys().len()),
                either(
                    first_defect(|i: int| hook_defect(config, i), 0, config.hook.keys().len()),
                    either(
                        server_defect(config, host),
                        either(
                            first_defect(
                                |i: int| event_defect(config, i),
                                0,
                                config.event.keys().len(),
                            ),
                            either(
                                first_defect(
                                    |i: int| named_workflow_defect(config, i),
                                    0,
                                    config.workflow.keys().len(),
                                ),
                                first_defect(
                                    |i: int| startup_defect(config, i),
                                    0,
                                    config.startup_workflows@.len(),
                                ),
                            ),
                        ),
                    ),
                ),
            ),
        ),
    )
}

impl Config {
    /// Refuses the configuration for the first thing that is wrong with it.
    pub fn validate(&self, host: HostFacts) -> (result: Result<(), ConfigError>)
        ensures
            match result {
                Ok(()) => config_defect(*self, host) is None,
                Err(error) => config_defect(*self, host) == Some(error@),
            },
    {
        if !host.root_exists {
            return Err(ConfigProblem::RootMissing(self.root.clone()));
        }
        if self.watch.is_empty() {
            return Err(ConfigProblem::NoWatchGroups);
        }
        if let Err(error) = self.validate_watch() {
            return Err(error);
        }
        if let Err(error) = self.validate_processes() {
            return Err(error);
        }
        if let Err(error) = self.validate_hooks() {
            return Err(error);
        }
        if !host.event_bind_is_address {
            return Err(ConfigProblem::InvalidEventBind(self.event_server.bind.clone()));
        }
        if !host.reload_bind_is_address {
            return Err(ConfigProblem::InvalidReloadBind(self.browser_reload_server.bind.clone()));
        }
        if let Err(error) = self.validate_events() {
            return Err(error);
        }
        if let Err(error) = self.validate_workflows() {
            return Err(error);
        }
        self.validate_startup()
    }

    fn validate_watch(&self) -> (result: Result<(), ConfigError>)
        ensures
            ({
                let found = first_defect(
                    |i: int| watch_defect(*self, i),
                    0,
                    self.watch.keys().len(),
                );
                match result {
                    Ok(()) => found is None,
                    Err(error) => found == Some(error@),
                }
            }),
    {
        let ghost defect = |i: int| watch_defect(*self, i);
        let n: usize = self.watch.len();
        let mut i: usize = 0;
        while i < n
            invariant
                i <= n == self.watch.keys().len(),
                defect == (|i: int| watch_defect(*self, i)),
                first_defect(defect, 0, n as nat) == first_defect(defect, i as nat, n as nat),
            decreases n - i,
        {
            let name = self.watch.key_at(i);
            let group = self.watch.value_at(i);
            if group.paths.is_empty() {
                return Err(ConfigProblem::NoPaths(name.clone()));
            }
            if let Some(workflow) = group.workflow_name(name.as_str()) {
                if !self.workflow.contains_key(workflow) {
                    return Err(
                        ConfigProblem::WatchMissingWorkflow {
                            group: name.clone(),
                            workflow: workflow.to_owned(),
                        },
                    );
                }
            }
            i = i + 1;
        }
        Ok(())
    }

    fn validate_processes(&self) -> (result: Result<(), ConfigError>)
        ensures
            ({
                let found = first_defect(
                    |i: int| process_defect(*self, i),
                    0,
                    self.process.keys().len(),
                );
                match result {
                    Ok(()) => found is None,
                    Err(error) => found == Some(error@),
                }
            }),
    {
        let ghost defect = |i: int| process_defect(*self, i);
        let n: usize = self.process.len();
        let mut i: usize = 0;
        while i < n
            invariant
                i <= n == self.process.keys().len(),
                defect == (|i: int| process_defect(*self, i)),
                first_defect(defect, 0, n as nat) == first_defect(defect, i as nat, n as nat),
            decreases n - i,
        {
            if let Err(problem) = self.process.value_at(i).validate() {
                return Err(
                    ConfigProblem::InvalidProcess { name: self.process.key_at(i).clone(), problem },
                );
            }
            i = i + 1;
        }
        Ok(())
    }

    fn validate_hooks(&self) -> (result: Result<(), ConfigError>)
        ensures
            ({
                let found = first_defect(|i: int| hook_defect(*self, i), 0, self.hook.keys().len());
                match result {
                    Ok(()) => found is None,
                    Err(error) => found == Some(error@),
                }
            }),
    {
        let ghost defect = |i: int| hook_defect(*self, i);
        let n: usize = self.hook.len();
        let mut i: usize = 0;
        while i < n
            invariant
                i <= n == self.hook.keys().len(),
                defect == (|i: int| hook_defect(*self, i)),
                first_defect(defect, 0, n as nat) == first_defect(defect, i as nat, n as nat),
            decreases n - i,
        {
            let name = self.hook.key_at(i);
            let hook = self.hook.value_at(i);
            if let Err(problem) = hook.validate() {
                return Err(ConfigProblem::InvalidHook { name: name.clone(), problem });
            }
            if let Some(observe) = &hook.observe {
                if !self.workflow.contains_key(observe.workflow.as_str()) {
                    return Err(
                        ConfigProblem::HookMissingWorkflow {
                            hook: name.clone(),
                            workflow: observe.workflow.clone(),
                        },
                    );
                }
            }
            i = i + 1;
        }
        Ok(())
    }

    fn validate_events(&self) -> (result: Result<(), ConfigError>)
        ensures
            ({
                let found = first_defect(|i: int| event_defect(*self, i), 0, self.event.keys().len());
                match result {
                    Ok(()) => found is None,
                    Err(error) => found == Some(error@),
                }
            }),
    {
        let ghost defect = |i: int| event_defect(*self, i);
        let n: usize = self.event.len();
        let mut i: usize = 0;
        while i < n
            invariant
                i <= n == self.event.keys().len(),
                defect == (|i: int| event_defect(*self, i)),
                first_defect(defect, 0, n as nat) == first_defect(defect, i as nat, n as nat),
            decreases n - i,
        {
            let name = self.event.key_at(i);
            let event = self.event.value_at(i);
            if let Err(problem) = event.validate() {
                return Err(ConfigProblem::InvalidEvent { name: name.clone(), problem });
            }
            if !self.workflow.contains_key(event.workflow.as_str()) {
                return Err(
                    ConfigProblem::EventMissingWorkflow {
                        event: name.clone(),
                        workflow: event.workflow.clone(),
                    },
                );
            }
            i = i + 1;
        }
        Ok(())
    }

    fn validate_workflows(&self) -> (result: Result<(), ConfigError>)
        ensures
            ({
                let found = first_defect(
                    |i: int| named_workflow_defect(*self, i),
                    0,
                    self.workflow.keys().len(),
                );
                match result {
                    Ok(()) => found is None,
                    Err(error) => found == Some(error@),
                }
            }),
    {
        let ghost defect = |i: int| named_workflow_defect(*self, i);
        let n: usize = self.workflow.len();
        let mut i: usize = 0;
        while i < n
            invariant
                i <= n == self.workflow.keys().len(),
                defect == (|i: int| named_workflow_defect(*self, i)),
                first_defect(defect, 0, n as nat) == first_defect(defect, i as nat, n as nat),
            decreases n - i,
        {
            let name = self.workflow.key_at(i);
            if let Err(problem) = self.workflow.value_at(i).validate(self, name.as_str()) {
                return Err(ConfigProblem::InvalidWorkflow { name: name.clone(), problem });
            }
            i = i + 1;
        }
        Ok(())
    }

    fn validate_startup(&self) -> (result: Result<(), ConfigError>)
        ensures
            ({
                let found = first_defect(
                    |i: int| startup_defect(*self, i),
                    0,
                    self.startup_workflows@.len(),
                );
                match result {
                    Ok(()) => found is None,
                    Err(error) => found == Some(error@),
                }
            }),
    {
        let ghost defect = |i: int| startup_defect(*self, i);
        let n: usize = self.startup_workflows.len();
        let mut i: usize = 0;
        while i < n
            invariant
                i <= n == self.startup_workflows@.len(),
                defect == (|i: int| startup_defect(*self, i)),
                first_defect(defect, 0, n as nat) == first_defect(defect, i as nat, n as nat),
            decreases n - i,
        {
            let name = &self.startup_workflows[i];
            if !self.workflow.contains_key(name.as_str()) {
                return Err(ConfigProblem::StartupMissingWorkflow(name.clone()));
            }
            i = i + 1;
        }
        Ok(())
    }
}

proof fn lemma_no_defect(defect: spec_fn(int) -> Option<ConfigDefect>, from: nat, n: nat, i: int)
    requires
        first_defect(defect, from, n) is None,
        from <= i < n,
    ensures
        defect(i) is None,
    decreases i - from,
{
    if from < i {
        lemma_no_defect(defect, from + 1, n, i);
    }
}

/// The workflows of a valid configuration are sound: none of them recurs, names what is missing,
/// or runs a workflow both inline and as a trigger.
pub proof fn law_valid_configurations_are_sound(config: Config, host: HostFacts)
    requires
        config.workflow.wf(),
        config_defect(config, host) is None,
    ensures
        is_sound(config),
{
    let defect = |i: int| named_workflow_defect(config, i);
    assert forall|name: Seq<char>| #[trigger] config.workflow@.contains_key(name) implies workflow_defect(
        config,
        name,
        config.workflow@[name],
        Seq::empty(),
    ) is None by {
        let i = config.workflow.keys().index_of(name);
        lemma_no_defect(defect, 0, config.workflow.keys().len(), i);
        assert(defect(i) is None);
        config.workflow.lemma_entry(i);
    }
}

/// Every workflow that a valid configuration runs at startup, on a change, for an observed hook
/// or for an event exists.
pub proof fn law_valid_configurations_name_existing_workflows(config: Config, host: HostFacts)
    requires
        config_defect(config, host) is None,
    ensures
        forall|i: int|
            0 <= i < config.startup_workflows@.len() ==> config.workflow@.contains_key(
                (#[trigger] config.startup_workflows@[i])@,
            ),
        forall|i: int|
            0 <= i < config.watch.keys().len() ==> config.workflow@.contains_key(
                group_workflow(config.watch.values()[i], #[trigger] config.watch.keys()[i]),
            ),
        forall|i: int|
            0 <= i < config.hook.keys().len() && (#[trigger] config.hook.values()[i]).observe is Some
                ==> config.workflow@.contains_key(config.hook.values()[i].observe->0.workflow@),
        forall|i: int|
            0 <= i < config.event.keys().len() ==> config.workflow@.contains_key(
                (#[trigger] config.event.values()[i]).workflow@,
            ),
{
    let startup = |i: int| startup_defect(config, i);
    assert forall|i: int| 0 <= i < config.startup_workflows@.len() implies config.workflow@.contains_key(
        (#[trigger] config.startup_workflows@[i])@,
    ) by {
        lemma_no_defect(startup, 0, config.startup_workflows@.len(), i);
        assert(startup(i) is None);
    }
    let watch = |i: int| watch_defect(config, i);
    assert forall|i: int| 0 <= i < config.watch.keys().len() implies config.workflow@.contains_key(
        group_workflow(config.watch.values()[i], #[trigger] config.watch.keys()[i]),
    ) by {
        lemma_no_defect(watch, 0, config.watch.keys().len(), i);
        assert(watch(i) is None);
    }
    let hook = |i: int| hook_defect(config, i);
    assert forall|i: int|
        0 <= i < config.hook.keys().len() && (#[trigger] config.hook.values()[i]).observe is Some implies config.workflow@.contains_key(
    config.hook.values()[i].observe->0.workflow@) by {
        lemma_no_defect(hook, 0, config.hook.keys().len(), i);
        assert(hook(i) is None);
    }
    let event = |i: int| event_defect(config, i);
    assert forall|i: int| 0 <= i < config.event.keys().len() implies config.workflow@.contains_key(
        (#[trigger] config.event.values()[i]).workflow@,
    ) by {
        lemma_no_defect(event, 0, config.event.keys().len(), i);
        assert(event(i) is None);
    }
}

/// Whether a text has a character that is no white space.
pub open spec fn has_content(text: Seq<char>) -> bool {
    exists|i: int| 0 <= i < text.len() && !is_white_space(#[trigger] text[i])
}

/// Whether a probe asks for something.
pub open spec fn asks_for_something(probe: Option<ProbeSpec>) -> bool {
    &&& probe matches Some(ProbeSpec::Http { url, .. }) ==> has_content(url@)
    &&& probe matches Some(ProbeSpec::StateKey { key, .. }) ==> has_content(key@)
}

proof fn lemma_content(text: Seq<char>)
    ensures
        is_blank(text) <==> !has_content(text),
{
}

proof fn lemma_rules_problem(rules: Seq<OutputRule>, from: nat)
    ensures
        rules_problem(rules, from) is None <==> forall|i: int|
            from <= i < rules.len() ==> rule_problem(#[trigger] rules[i]) is None,
    decreases rules.len() - from,
{
    if from < rules.len() {
        lemma_rules_problem(rules, from + 1);
        if rules_problem(rules, from + 1) is None && rule_problem(rules[from as int]) is None {
            assert forall|i: int| from <= i < rules.len() implies rule_problem(#[trigger] rules[i]) is None by {
                if i > from {
                    assert(from + 1 <= i);
                }
            }
        }
    }
}

/// A process is accepted if and only if it has a command, its probes ask for something, and each
/// of its output rules has a key and a pattern that compiles, where it has one.
pub proof fn law_processes_are_accepted(process: ProcessSpec)
    ensures
        process_problem(process) is None <==> {
            &&& process.command@.len() > 0
            &&& asks_for_something(process.readiness)
            &&& asks_for_something(process.liveness)
            &&& forall|i: int|
                0 <= i < process.output.rules@.len() ==> has_content(
                    (#[trigger] process.output.rules@[i]).state_key@,
                ) && (process.output.rules@[i].pattern matches Some(pattern) ==> regex_compiles(
                    pattern@,
                ))
        },
{
    lemma_rules_problem(process.output.rules@, 0);
    let rules = process.output.rules@;
    assert forall|i: int| 0 <= i < rules.len() implies (rule_problem(#[trigger] rules[i]) is None <==> (
    has_content(rules[i].state_key@) && (rules[i].pattern matches Some(pattern) ==> regex_compiles(
        pattern@,
    )))) by {
        lemma_content(rules[i].state_key@);
    }
    if rules_problem(rules, 0) is None {
        assert forall|i: int| 0 <= i < rules.len() implies has_content(
            (#[trigger] rules[i]).state_key@,
        ) && (rules[i].pattern matches Some(pattern) ==> regex_compiles(pattern@)) by {
            assert(rule_problem(rules[i]) is None);
        }
    } else {
        let i = choose|i: int| 0 <= i < rules.len() && rule_problem(#[trigger] rules[i]) is Some;
        assert(!(has_content(rules[i].state_key@) && (rules[i].pattern matches Some(pattern)
            ==> regex_compiles(pattern@))));
    }
}

/// A hook is accepted if and only if it has a command, a key for the text that it captures, and,
/// where it is observed, a workflow and an interval.
pub proof fn law_hooks_are_accepted(hook: HookSpec)
    ensures
        hook_problem(hook) is None <==> {
            &&& hook.command@.len() > 0
            &&& hook.capture == Some(CaptureMode::Text) ==> hook.state_key is Some
            &&& hook.observe matches Some(observe) ==> has_content(observe.workflow@)
                && observe.interval_ms > 0
        },
{
    if let Some(observe) = hook.observe {
        lemma_content(observe.workflow@);
    }
}

/// An event is accepted if and only if it has a key, a workflow, and a pattern that compiles,
/// where it has one.
pub proof fn law_events_are_accepted(event: EventSpec)
    ensures
        event_problem(event) is None <==> {
            &&& has_content(event.state_key@)
            &&& has_content(event.workflow@)
            &&& event.pattern matches Some(pattern) ==> regex_compiles(pattern@)
        },
{
    lemma_content(event.state_key@);
    lemma_content(event.workflow@);
}

proof fn lemma_all_accepted(defect: spec_fn(int) -> Option<ConfigDefect>, from: nat, n: nat)
    requires
        forall|i: int| from <= i < n ==> #[trigger] defect(i) is None,
    ensures
        first_defect(defect, from, n) is None,
    decreases n - from,
{
    if from < n {
        lemma_all_accepted(defect, from + 1, n);
    }
}

/// A configuration is accepted where its root exists, it watches something, the addresses of its
/// servers are addresses, every group has paths, everything in it is accepted by itself, and every
/// workflow that is named exists.
pub proof fn law_configurations_are_accepted(config: Config, host: HostFacts)
    requires
        host.root_exists,
        host.event_bind_is_address,
        host.reload_bind_is_address,
        config.workflow.wf(),
        config.watch.keys().len() > 0,
        is_sound(config),
        forall|i: int|
            0 <= i < config.watch.keys().len() ==> (#[trigger] config.watch.values()[i]).paths@.len() > 0
                && config.workflow@.contains_key(
                group_workflow(config.watch.values()[i], config.watch.keys()[i]),
            ),
        forall|i: int|
            0 <= i < config.process.keys().len() ==> process_problem(#[trigger] config.process.values()[i])
                is None,
        forall|i: int|
            0 <= i < config.hook.keys().len() ==> hook_problem(#[trigger] config.hook.values()[i]) is None
                && (config.hook.values()[i].observe matches Some(observe)
                ==> config.workflow@.contains_key(observe.workflow@)),
        forall|i: int|
            0 <= i < config.event.keys().len() ==> event_problem(#[trigger] config.event.values()[i]) is None
                && config.workflow@.contains_key(config.event.values()[i].workflow@),
        forall|i: int|
            0 <= i < config.startup_workflows@.len() ==> config.workflow@.contains_key(
                (#[trigger] config.startup_workflows@[i])@,
            ),
    ensures
        config_defect(config, host) is None,
{
    let watch = |i: int| watch_defect(config, i);
    assert forall|i: int| 0 <= i < config.watch.keys().len() implies #[trigger] watch(i) is None by {
        assert(config.watch.values()[i].paths@.len() > 0);
    }
    lemma_all_accepted(watch, 0, config.watch.keys().len());
    lemma_all_accepted(|i: int| process_defect(config, i), 0, config.process.keys().len());
    lemma_all_accepted(|i: int| hook_defect(config, i), 0, config.hook.keys().len());
    lemma_all_accepted(|i: int| event_defect(config, i), 0, config.event.keys().len());
    lemma_all_accepted(|i: int| startup_defect(config, i), 0, config.startup_workflows@.len());
    let named = |i: int| named_workflow_defect(config, i);
    assert forall|i: int| 0 <= i < config.workflow.keys().len() implies #[trigger] named(i) is None by {
        config.workflow.lemma_entry(i);
        assert(config.workflow@.contains_key(config.workflow.keys()[i]));
    }
    lemma_all_accepted(named, 0, config.workflow.keys().len());
}

/// A configuration that is accepted has a root that exists, watches something, and is accepted in
/// each of its parts.
pub proof fn law_accepted_configurations_are_accepted_throughout(config: Config, host: HostFacts)
    requires
        config_defect(config, host) is None,
    ensures
        host.root_exists,
        host.event_bind_is_address,
        host.reload_bind_is_address,
        config.watch.keys().len() > 0,
        forall|i: int|
            0 <= i < config.watch.keys().len() ==> (#[trigger] config.watch.values()[i]).paths@.len() > 0,
        forall|i: int|
            0 <= i < config.process.keys().len() ==> process_problem(#[trigger] config.process.values()[i])
                is None,
        forall|i: int|
            0 <= i < config.hook.keys().len() ==> hook_problem(#[trigger] config.hook.values()[i]) is None,
        forall|i: int|
            0 <= i < config.event.keys().len() ==> event_problem(#[trigger] config.event.values()[i])
                is None,
{
    let watch = |i: int| watch_defect(config, i);
    assert forall|i: int| 0 <= i < config.watch.keys().len() implies (
    #[trigger] config.watch.values()[i]).paths@.len() > 0 by {
        lemma_no_defect(watch, 0, config.watch.keys().len(), i);
        assert(watch(i) is None);
    }
    let process = |i: int| process_defect(config, i);
    assert forall|i: int| 0 <= i < config.process.keys().len() implies process_problem(
        #[trigger] config.process.values()[i],
    ) is None by {
        lemma_no_defect(process, 0, config.process.keys().len(), i);
        assert(process(i) is None);
    }
    let hook = |i: int| hook_defect(config, i);
    assert forall|i: int| 0 <= i < config.hook.keys().len() implies hook_problem(
        #[trigger] config.hook.values()[i],
    ) is None by {
        lemma_no_defect(hook, 0, config.hook.keys().len(), i);
        assert(hook(i) is None);
    }
    let event = |i: int| event_defect(config, i);
    assert forall|i: int| 0 <= i < config.event.keys().len() implies event_problem(
        #[trigger] config.event.values()[i],
    ) is None by {
        lemma_no_defect(event, 0, config.event.keys().len(), i);
        assert(event(i) is None);
    }
}

/// What is wrong is told in the order root, watch groups, processes, hooks, servers, events,
/// workflows and startup workflows: a missing root hides all else, and nothing hides what comes
/// before it.
pub proof fn law_the_first_defect_is_told(config: Config, host: HostFacts)
    ensures
        !host.root_exists ==> config_defect(config, host) == Some(
            ConfigDefect::RootMissing(config.root@),
        ),
        host.root_exists && config.watch.keys().len() == 0 ==> config_defect(config, host) == Some(
            ConfigDefect::NoWatchGroups,
        ),
        host.root_exists && config.watch.keys().len() > 0 && config.watch.values()[0].paths@.len() == 0
            ==> config_defect(config, host) == Some(ConfigDefect::NoPaths(config.watch.keys()[0])),
        config_defect(config, host) matches Some(defect) ==> {
            &&& defect is InvalidProcess ==> host.root_exists && forall|i: int|
                0 <= i < config.watch.keys().len() ==> (#[trigger] config.watch.values()[i]).paths@.len()
                    > 0
            &&& defect is InvalidHook || defect is HookMissingWorkflow ==> forall|i: int|
                0 <= i < config.process.keys().len() ==> process_problem(
                    #[trigger] config.process.values()[i],
                ) is None
            &&& defect is InvalidEventBind || defect is InvalidReloadBind ==> forall|i: int|
                0 <= i < config.hook.keys().len() ==> hook_problem(#[trigger] config.hook.values()[i])
                    is None
            &&& defect is InvalidEvent || defect is EventMissingWorkflow ==> host.event_bind_is_address
                && host.reload_bind_is_address
            &&& defect is InvalidWorkflow ==> forall|i: int|
                0 <= i < config.event.keys().len() ==> event_problem(#[trigger] config.event.values()[i])
                    is None
            &&& defect is StartupMissingWorkflow ==> forall|i: int|
                0 <= i < config.workflow.keys().len() ==> workflow_defect(
                    config,
                    config.workflow.keys()[i],
                    #[trigger] config.workflow.values()[i],
                    Seq::empty(),
                ) is None
        },
{
    let watch = |i: int| watch_defect(config, i);
    let process = |i: int| process_defect(config, i);
    let hook = |i: int| hook_defect(config, i);
    let event = |i: int| event_defect(config, i);
    let named = |i: int| named_workflow_defect(config, i);
    let startup = |i: int| startup_defect(config, i);
    lemma_kind(watch, 0, config.watch.keys().len());
    lemma_kind(process, 0, config.process.keys().len());
    lemma_kind(hook, 0, config.hook.keys().len());
    lemma_kind(event, 0, config.event.keys().len());
    lemma_kind(named, 0, config.workflow.keys().len());
    lemma_kind(startup, 0, config.startup_workflows@.len());
    if host.root_exists && config.watch.keys().len() > 0 && config.watch.values()[0].paths@.len() == 0 {
        assert(watch(0) == Some(ConfigDefect::NoPaths(config.watch.keys()[0])));
    }
    if first_defect(watch, 0, config.watch.keys().len()) is None {
        assert forall|i: int| 0 <= i < config.watch.keys().len() implies (
        #[trigger] config.watch.values()[i]).paths@.len() > 0 by {
            assert(watch(i) is None);
        }
    }
    if first_defect(process, 0, config.process.keys().len()) is None {
        assert forall|i: int| 0 <= i < config.process.keys().len() implies process_problem(
            #[trigger] config.process.values()[i],
        ) is None by {
            assert(process(i) is None);
        }
    }
    if first_defect(hook, 0, config.hook.keys().len()) is None {
        assert forall|i: int| 0 <= i < config.hook.keys().len() implies hook_problem(
            #[trigger] config.hook.values()[i],
        ) is None by {
            assert(hook(i) is None);
        }
    }
    if first_defect(event, 0, config.event.keys().len()) is None {
        assert forall|i: int| 0 <= i < config.event.keys().len() implies event_problem(
            #[trigger] config.event.values()[i],
        ) is None by {
            assert(event(i) is None);
        }
    }
    if first_defect(named, 0, config.workflow.keys().len()) is None {
        assert forall|i: int| 0 <= i < config.workflow.keys().len() implies workflow_defect(
            config,
            config.workflow.keys()[i],
            #[trigger] config.workflow.values()[i],
            Seq::empty(),
        ) is None by {
            assert(named(i) is None);
        }
    }
}

proof fn lemma_kind(defect: spec_fn(int) -> Option<ConfigDefect>, from: nat, n: nat)
    ensures
        first_defect(defect, from, n) is None ==> forall|i: int|
            from <= i < n ==> #[trigger] defect(i) is None,
        first_defect(defect, from, n) is Some ==> exists|i: int|
            from <= i < n && #[trigger] defect(i) == first_defect(defect, from, n),
    decreases n - from,
{
    if from < n {
        lemma_kind(defect, from + 1, n);
        if defect(from as int) is None && first_defect(defect, from + 1, n) is None {
            assert forall|i: int| from <= i < n implies #[trigger] defect(i) is None by {
                if i > from {
                    assert(from + 1 <= i);
                }
            }
        }
    }
}

} // verus!
