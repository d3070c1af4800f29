//! The managed processes: which run, and what starting, stopping and exiting does.

use crate::browser_reload::{env_of, BrowserReloadEnvironment};
use crate::commands::{
    configure_command, is_configured, law_commands_are_run_as_configured, list_expands, map_error, map_expands, output_label, process_output_source_label, resolve_cwd,
    working_directory, CommandContext, CommandError, CommandPlan, RunContext,
};
use crate::config::{Config, HookSpec, OutputBodyStyle, OutputRule, ProbeSpec, ProcessSpec};
use crate::env_expand::{expansion, ExpandError};
use crate::external_events::ExternalEventEnvironment;
use crate::forward::{session_after_line, ForwardConfig};
use crate::json::json_list;
use crate::name_map::{picked, NameMap, NameSet};
use crate::output_rules::{
    after_clearing, clear_output_state_keys, clearing_writes, compile_output_rules, has_bad_pattern,
    is_compiled_rule, law_clearing_empties_the_keys, law_unwritten_sessions_stay, CompiledOutputRule,
};
use crate::patterns::regex_compiles;
use crate::probes::{
    expand_probe_env, loopback_address, probe_field, readiness_address, same_probe, url_origin,
};
use crate::state::SessionState;
use crate::supervisor::{
    after_check, after_exits, at_rest, effects_of, just_started, liveness_effects, start_each,
    stop_each, tick_effects, with_state, ProcessEffect, ProcessEffectView, ProcessStates,
    ProcessSupervisor,
};
use crate::text::{join_texts, joined, texts};
use crate::value::Json;
use std::collections::VecDeque;
use vstd::prelude::*;

verus! {

/// What is known of the managed processes.
pub struct ManagerView {
    pub running: Set<Seq<char>>,
    pub generations: Map<Seq<char>, u64>,
    pub shutting_down: bool,
    pub states: ProcessStates,
    pub names: Seq<Seq<char>>,
    pub suppressed: bool,
}

/// Why something cannot be done with a process.
#[derive(Debug, Clone, PartialEq, Eq)]
pub enum ProcessError {
    /// The configuration has no such process.
    Unknown(String),
    /// The configuration has no such hook.
    UnknownHook(String),
    /// The process does not run.
    NotRunning(String),
    /// The process has exited while it was waited for.
    Exited(String),
    /// The address that the process is to take up is taken.
    AddressInUse { process: String, address: String },
    /// The command cannot be run.
    Command(CommandError),
    /// The pattern of an output rule does not compile.
    InvalidPattern(String),
}

impl ProcessError {
    /// The text of the error.
    pub fn message(&self) -> (text: String)
        ensures
            match *self {
                ProcessError::Unknown(name) => text@ == "unknown process '"@ + name@ + "'"@,
                ProcessError::UnknownHook(name) => text@ == "unknown hook '"@ + name@ + "'"@,
                ProcessError::NotRunning(name) => text@ == "process '"@ + name@ + "' is not running"@,
                ProcessError::Exited(name) => text@ == "process '"@ + name@
                    + "' exited before it was ready"@,
                ProcessError::AddressInUse { process, address } => text@ == "process '"@ + process@
                    + "' cannot start: address "@ + address@ + " is already in use"@,
                ProcessError::Command(CommandError::Empty) => text@ == "command must not be empty"@,
                ProcessError::Command(CommandError::Expand(error)) => text@
                    == crate::env_expand::expand_message(error.field@, error.problem@),
                ProcessError::InvalidPattern(pattern) => text@ == "invalid output rule regex '"@
                    + pattern@ + "'"@,
            },
    {
        match self {
            ProcessError::Unknown(name) => "unknown process '".to_owned().concat(
                name.as_str(),
            ).concat("'"),
            ProcessError::UnknownHook(name) => "unknown hook '".to_owned().concat(
                name.as_str(),
            ).concat("'"),
            ProcessError::NotRunning(name) => "process '".to_owned().concat(name.as_str()).concat(
                "' is not running",
            ),
            ProcessError::Exited(name) => "process '".to_owned().concat(name.as_str()).concat(
                "' exited before it was ready",
            ),
            ProcessError::AddressInUse { process, address } => "process '".to_owned().concat(
                process.as_str(),
            ).concat("' cannot start: address ").concat(address.as_str()).concat(
                " is already in use",
            ),
            ProcessError::Command(error) => error.message(),
            ProcessError::InvalidPattern(pattern) => "invalid output rule regex '".to_owned().concat(
                pattern.as_str(),
            ).concat("'"),
        }
    }
}

impl ProcessError {
    /// Whether this is a failed start, with which the startup ends.
    pub fn is_failed_start(&self) -> (result: bool)
        ensures
            result == (self is Exited || self is AddressInUse),
    {
        matches!(self, ProcessError::Exited(_) | ProcessError::AddressInUse { .. })
    }
}

/// Whether a process may be started: not where the address that it is to take up is taken.
pub fn check_address(name: &str, address: &str, in_use: bool) -> (result: Result<(), ProcessError>)
    ensures
        if in_use {
            result matches Err(ProcessError::AddressInUse { process, address: taken }) && process@
                == name@ && taken@ == address@
        } else {
            result is Ok
        },
{
    if in_use {
        Err(ProcessError::AddressInUse { process: name.to_owned(), address: address.to_owned() })
    } else {
        Ok(())
    }
}

/// The address that a process is to take up on this machine to be ready.
pub open spec fn owned_address(env: Map<Seq<char>, String>, spec: ProcessSpec) -> Option<Seq<char>> {
    match spec.readiness {
        Some(ProbeSpec::Http { url, .. }) => match expansion(env, url@, 0) {
            Ok(expanded) => loopback_address(url_origin(expanded)),
            Err(_) => None,
        },
        _ => None,
    }
}

/// What is needed to start a process. Where it has an address, that is to be free.
#[derive(Debug)]
pub struct StartPlan {
    pub command: CommandPlan,
    pub address: Option<String>,
    pub label: String,
    pub generation: u64,
    pub inherit: bool,
    pub body_style: OutputBodyStyle,
    pub rules: Vec<CompiledOutputRule>,
}

/// The generation that follows the one a process has.
pub open spec fn next_generation(generations: Map<Seq<char>, u64>, process: Seq<char>) -> u64 {
    if generations.contains_key(process) {
        generations[process].wrapping_add(1)
    } else {
        1
    }
}

/// What is known after the output of a process so far has been retired.
pub open spec fn retired(view: ManagerView, process: Seq<char>) -> ManagerView {
    ManagerView {
        generations: view.generations.insert(process, next_generation(view.generations, process)),
        ..view
    }
}

/// The rules for the output of a process.
pub open spec fn rules_of(config: Config, process: Seq<char>) -> Seq<OutputRule> {
    if config.process@.contains_key(process) {
        config.process@[process].output.rules@
    } else {
        Seq::empty()
    }
}

/// The session after what a process has written to it is emptied.
pub open spec fn session_without(
    config: Config,
    session: Map<Seq<char>, Json>,
    process: Seq<char>,
) -> Map<Seq<char>, Json> {
    let rules = rules_of(config, process);
    after_clearing(session, rules, rules.len() as int)
}

/// What is known, and what the session holds, after the first `n` exits have been taken in.
pub open spec fn exits_taken(
    config: Config,
    view: ManagerView,
    session: Map<Seq<char>, Json>,
    exits: Seq<(String, bool)>,
    n: int,
) -> (ManagerView, Map<Seq<char>, Json>)
    decreases n,
{
    if n <= 0 {
        (view, session)
    } else {
        let (before, held) = exits_taken(config, view, session, exits, n - 1);
        let process = exits[n - 1].0@;
        (
            retired(ManagerView { running: before.running.remove(process), ..before }, process),
            session_without(config, held, process),
        )
    }
}

/// Whether taking in the first `n` exits empties a key that was not empty.
pub open spec fn exits_write(
    config: Config,
    view: ManagerView,
    session: Map<Seq<char>, Json>,
    exits: Seq<(String, bool)>,
    n: int,
) -> bool
    decreases n,
{
    n > 0 && (exits_write(config, view, session, exits, n - 1) || clearing_writes(
        exits_taken(config, view, session, exits, n - 1).1,
        rules_of(config, exits[n - 1].0@),
        rules_of(config, exits[n - 1].0@).len() as int,
    ))
}

/// What is to be done after exits have been taken in: some processes are started again, and the
/// liveness of others is checked; nothing while everything is being stopped.
pub open spec fn maintenance(
    config: Config,
    view: ManagerView,
    exits: Seq<(String, bool)>,
    now_ms: u64,
) -> Seq<ProcessEffectView> {
    tick_effects(config, view.states, view.suppressed, exits, now_ms)
}

/// What is known once a process has been started.
pub open spec fn started(view: ManagerView, process: Seq<char>) -> ManagerView {
    ManagerView {
        running: view.running.insert(process),
        states: with_state(view.states, process, just_started()),
        ..view
    }
}

/// What is known once a process has begun to be stopped.
pub open spec fn stopping(view: ManagerView, process: Seq<char>) -> ManagerView {
    ManagerView { running: view.running.remove(process), ..view }
}

/// What is known once a process has been stopped.
pub open spec fn stopped(view: ManagerView, process: Seq<char>) -> ManagerView {
    retired(
        ManagerView { states: with_state(view.states, process, at_rest()), ..view },
        process,
    )
}

/// Whether a result is the readiness probe that a process is waited for with.
pub open spec fn is_readiness(
    config: Config,
    view: ManagerView,
    process: Seq<char>,
    result: Result<Option<&ProbeSpec>, ProcessError>,
) -> bool {
    if !config.process@.contains_key(process) {
        result matches Err(ProcessError::Unknown(unknown)) && unknown@ == process
    } else {
        match config.process@[process].readiness {
            None => result matches Ok(None),
            Some(probe) => if view.running.contains(process) {
                result matches Ok(Some(found)) && *found == probe
            } else {
                result matches Err(ProcessError::NotRunning(name)) && name@ == process
            },
        }
    }
}

/// What is known once everything is being stopped.
pub open spec fn shut_down(view: ManagerView) -> ManagerView {
    ManagerView { shutting_down: true, suppressed: true, ..view }
}

/// What is to be done with a process from outside.
#[derive(Debug)]
pub enum ProcessAction {
    /// Start it, unless it runs.
    Start { process: String },
    /// Stop it, and start it again.
    Restart { process: String },
    /// Stop it.
    Stop { process: String },
    /// Make an attempt of its liveness probe.
    Probe { process: String, probe: ProbeSpec },
    /// Its liveness probe cannot be made: it counts as not healthy.
    Unhealthy { process: String, error: ExpandError },
}

/// The managed processes.
#[derive(Debug)]
pub struct ProcessManager {
    running: NameSet,
    generations: NameMap<u64>,
    shutting_down: bool,
    supervisor: ProcessSupervisor,
    external_event_env: Option<ExternalEventEnvironment>,
    browser_reload_env: Option<BrowserReloadEnvironment>,
}

impl ProcessManager {
    /// What is known of the processes.
    pub closed spec fn view(&self) -> ManagerView {
        ManagerView {
            running: self.running@,
            generations: self.generations@,
            shutting_down: self.shutting_down,
            states: self.supervisor.states(),
            names: self.supervisor.names(),
            suppressed: self.supervisor.is_shutting_down(),
        }
    }

    /// What processes are told of the server for events.
    pub closed spec fn event_env(&self) -> Option<ExternalEventEnvironment> {
        self.external_event_env
    }

    /// What processes are told of the server for browser reloads.
    pub closed spec fn reload_env(&self) -> Option<BrowserReloadEnvironment> {
        self.browser_reload_env
    }

    /// No process runs.
    pub fn new(config: &Config) -> (manager: Self)
        ensures
            manager@.running == Set::<Seq<char>>::empty(),
            manager@.generations == Map::<Seq<char>, u64>::empty(),
            !manager@.shutting_down,
            !manager@.suppressed,
            manager@.names == config.process.keys(),
            manager@.states.dom() == config.process@.dom(),
            forall|process: Seq<char>| #[trigger]
                manager@.states.contains_key(process) ==> manager@.states[process] == at_rest(),
            manager.event_env() is None,
            manager.reload_env() is None,
    {
        ProcessManager {
            running: NameSet::new(),
            generations: NameMap::new(),
            shutting_down: false,
            supervisor: ProcessSupervisor::new(config),
            external_event_env: None,
            browser_reload_env: None,
        }
    }

    /// Sets what processes are told of the server for events.
    pub fn set_external_event_env(&mut self, external_event_env: Option<ExternalEventEnvironment>)
        ensures
            final(self)@ == old(self)@,
            final(self).event_env() == external_event_env,
            final(self).reload_env() == old(self).reload_env(),
    {
        self.external_event_env = external_event_env;
    }

    /// Sets what processes are told of the server for browser reloads.
    pub fn set_browser_reload_env(&mut self, browser_reload_env: Option<BrowserReloadEnvironment>)
        ensures
            final(self)@ == old(self)@,
            final(self).event_env() == old(self).event_env(),
            final(self).reload_env() == browser_reload_env,
    {
        self.browser_reload_env = browser_reload_env;
    }

    /// Whether everything is being stopped.
    pub fn is_shutting_down(&self) -> (result: bool)
        ensures
            result == self@.shutting_down,
    {
        self.shutting_down
    }

    /// Whether a process runs.
    pub fn is_running(&self, name: &str) -> (result: bool)
        ensures
            result == self@.running.contains(name@),
    {
        self.running.contains(name)
    }

    /// The current generation of the output of a process.
    pub fn generation(&self, name: &str) -> (generation: Option<u64>)
        ensures
            generation == if self@.generations.contains_key(name@) {
                Some(self@.generations[name@])
            } else {
                None
            },
    {
        match self.generations.get(name) {
            Some(generation) => Some(*generation),
            None => None,
        }
    }

    /// Retires the output of a process so far, and returns the new generation.
    fn retire(&mut self, name: &str) -> (generation: u64)
        ensures
            generation == next_generation(old(self)@.generations, name@),
            final(self)@ == retired(old(self)@, name@),
            final(self).event_env() == old(self).event_env(),
            final(self).reload_env() == old(self).reload_env(),
    {
        let generation: u64 = match self.generations.get(name) {
            Some(generation) => generation.wrapping_add(1),
            None => 1,
        };
        self.generations.insert(name.to_owned(), generation);
        generation
    }

    /// Retires the output of a process so far and empties what it has written to the session.
    fn forget_output(&mut self, config: &Config, name: &str, state: &mut SessionState) -> (changed: bool)
        ensures
            final(self)@ == retired(old(self)@, name@),
            final(self).event_env() == old(self).event_env(),
            final(self).reload_env() == old(self).reload_env(),
            final(state)@ == session_without(*config, old(state)@, name@),
            changed == clearing_writes(
                old(state)@,
                rules_of(*config, name@),
                rules_of(*config, name@).len() as int,
            ),
            final(state).file() == old(state).file(),
    {
        self.retire(name);
        match config.process.get(name) {
            Some(spec) => clear_output_state_keys(&spec.output.rules, state),
            None => false,
        }
    }

    /// What a process is run for when it is started.
    pub open spec fn start_context(&self, config: Config, spec: ProcessSpec, state_path: Seq<char>) -> RunContext {
        RunContext {
            env: spec.env,
            event_env: self.event_env(),
            reload_env: self.reload_env(),
            root: config.root@,
            state_path,
            files: Seq::empty(),
            workflow: "startup"@,
        }
    }

    /// What a hook is run for.
    pub open spec fn hook_context(
        &self,
        config: Config,
        hook: HookSpec,
        state_path: Seq<char>,
        files: Seq<Seq<char>>,
        workflow: Seq<char>,
    ) -> RunContext {
        RunContext {
            env: hook.env,
            event_env: self.event_env(),
            reload_env: self.reload_env(),
            root: config.root@,
            state_path,
            files,
            workflow,
        }
    }

    /// What comes of beginning to start a process: what is needed for it, and whether the state is
    /// to be saved; what is known afterwards, and what the session then holds.
    ///
    /// For a process that runs there is nothing to do, and nothing changes. Otherwise the output of
    /// an earlier run is retired, and what it has written to the session is emptied.
    pub open spec fn is_begun(
        &self,
        config: Config,
        name: Seq<char>,
        spec: ProcessSpec,
        env: Map<Seq<char>, String>,
        state_path: Seq<char>,
        session: Map<Seq<char>, Json>,
        result: (Result<Option<StartPlan>, ProcessError>, bool),
        after: ManagerView,
        held: Map<Seq<char>, Json>,
    ) -> bool {
        let rules = spec.output.rules@;
        let cwd = working_directory(config.root@, spec.cwd);
        let context = self.start_context(config, spec, state_path);
        if self@.running.contains(name) {
            &&& result.0 matches Ok(None)
            &&& !result.1
            &&& after == self@
            &&& held == session
        } else {
            &&& after == retired(self@, name)
            &&& held == after_clearing(session, rules, rules.len() as int)
            &&& result.1 == clearing_writes(session, rules, rules.len() as int)
            &&& match result.0 {
                Ok(Some(plan)) => {
                    &&& match plan.address {
                        Some(address) => owned_address(env, spec) == Some(address@),
                        None => owned_address(env, spec) is None,
                    }
                    &&& plan.label@ == output_label(name, spec.command@)
                    &&& plan.generation == next_generation(self@.generations, name)
                    &&& plan.inherit == spec.output.inherit
                    &&& plan.body_style == spec.output.body_style
                    &&& plan.rules@.len() == rules.len()
                    &&& forall|i: int|
                        0 <= i < rules.len() ==> is_compiled_rule(#[trigger] rules[i], plan.rules@[i])
                    &&& is_configured(env, spec.command@, cwd, context, Ok(plan.command))
                },
                Ok(None) => false,
                Err(ProcessError::Command(error)) => is_configured(
                    env,
                    spec.command@,
                    cwd,
                    context,
                    Err(error),
                ),
                Err(ProcessError::InvalidPattern(pattern)) => {
                    &&& spec.command@.len() > 0
                    &&& list_expands(env, spec.command@)
                    &&& map_expands(env, spec.env)
                    &&& exists|i: int|
                        0 <= i < rules.len() && has_bad_pattern(#[trigger] rules[i])
                            && rules[i].pattern->0@ == pattern@ && forall|k: int|
                            0 <= k < i ==> !has_bad_pattern(#[trigger] rules[k])
                },
                Err(_) => false,
            }
        }
    }

    /// Begins to start a process: what is needed for it, or nothing where it runs already or
    /// everything is being stopped. The state is to be saved if the second result says so.
    pub fn start_named(
        &mut self,
        config: &Config,
        name: &str,
        env: &NameMap<String>,
        state: &mut SessionState,
    ) -> (result: (Result<Option<StartPlan>, ProcessError>, bool))
        ensures
            final(self).event_env() == old(self).event_env(),
            final(self).reload_env() == old(self).reload_env(),
            final(state).file() == old(state).file(),
            if old(self)@.shutting_down {
                &&& result.0 matches Ok(None)
                &&& !result.1
                &&& final(self)@ == old(self)@
                &&& final(state)@ == old(state)@
            } else if !config.process@.contains_key(name@) {
                &&& result.0 matches Err(ProcessError::Unknown(unknown)) && unknown@ == name@
                &&& !result.1
                &&& final(self)@ == old(self)@
                &&& final(state)@ == old(state)@
            } else {
                old(self).is_begun(
                    *config,
                    name@,
                    config.process@[name@],
                    env@,
                    old(state).file(),
                    old(state)@,
                    result,
                    final(self)@,
                    final(state)@,
                )
            },
    {
        if self.shutting_down {
            return (Ok(None), false);
        }
        match config.process.get(name) {
            Some(spec) => self.start(config, name, spec, env, state),
            None => (Err(ProcessError::Unknown(name.to_owned())), false),
        }
    }

    /// Begins to start a process of the configuration: what is needed for it, or nothing where it
    /// runs already. The state is to be saved if the second result says so.
    pub fn start(
        &mut self,
        config: &Config,
        name: &str,
        spec: &ProcessSpec,
        env: &NameMap<String>,
        state: &mut SessionState,
    ) -> (result: (Result<Option<StartPlan>, ProcessError>, bool))
        ensures
            final(self).event_env() == old(self).event_env(),
            final(self).reload_env() == old(self).reload_env(),
            final(state).file() == old(state).file(),
            old(self).is_begun(
                *config,
                name@,
                *spec,
                env@,
                old(state).file(),
                old(state)@,
                result,
                final(self)@,
                final(state)@,
            ),
    {
        if self.running.contains(name) {
            return (Ok(None), false);
        }
        let generation: u64 = self.retire(name);
        let changed = clear_output_state_keys(&spec.output.rules, state);
        let nothing: Vec<String> = Vec::new();
        let context = CommandContext {
            env: &spec.env,
            external_event_env: self.external_event_env.as_ref(),
            browser_reload_env: self.browser_reload_env.as_ref(),
            root: config.root.as_str(),
            state_path: state.path(),
            changed_files: &nothing,
            workflow: "startup",
        };
        assert(texts(nothing@) =~= Seq::empty());
        let cwd = resolve_cwd(config.root.as_str(), &spec.cwd);
        let command = match configure_command(&spec.command, cwd, &context, env) {
            Ok(command) => command,
            Err(error) => {
                return (Err(ProcessError::Command(error)), changed);
            },
        };
        let rules = match compile_output_rules(&spec.output.rules) {
            Ok(rules) => rules,
            Err(pattern) => {
                return (Err(ProcessError::InvalidPattern(pattern)), changed);
            },
        };
        let address = match &spec.readiness {
            Some(probe) => match expand_probe_env(name, probe, env) {
                Ok(expanded) => readiness_address(&expanded),
                Err(_) => None,
            },
            None => None,
        };
        let plan = StartPlan {
            command,
            address,
            label: process_output_source_label(name, &spec.command),
            generation,
            inherit: spec.output.inherit,
            body_style: spec.output.body_style,
            rules,
        };
        (Ok(Some(plan)), changed)
    }

    /// The command of a hook, and the label of its output.
    pub fn hook_command(
        &self,
        config: &Config,
        name: &str,
        env: &NameMap<String>,
        state: &SessionState,
        changed_files: &Vec<String>,
        workflow: &str,
    ) -> (result: Result<(CommandPlan, String), ProcessError>)
        ensures
            if !config.hook@.contains_key(name@) {
                result matches Err(ProcessError::UnknownHook(unknown)) && unknown@ == name@
            } else {
                let hook = config.hook@[name@];
                let context = self.hook_context(
                    *config,
                    hook,
                    state.file(),
                    texts(changed_files@),
                    workflow@,
                );
                let cwd = working_directory(config.root@, hook.cwd);
                match result {
                    Ok((command, label)) => label@ == output_label(name@, hook.command@)
                        && is_configured(env@, hook.command@, cwd, context, Ok(command)),
                    Err(ProcessError::Command(error)) => is_configured(
                        env@,
                        hook.command@,
                        cwd,
                        context,
                        Err(error),
                    ),
                    Err(_) => false,
                }
            },
    {
        let hook = match config.hook.get(name) {
            Some(hook) => hook,
            None => {
                return Err(ProcessError::UnknownHook(name.to_owned()));
            },
        };
        let context = CommandContext {
            env: &hook.env,
            external_event_env: self.external_event_env.as_ref(),
            browser_reload_env: self.browser_reload_env.as_ref(),
            root: config.root.as_str(),
            state_path: state.path(),
            changed_files,
            workflow,
        };
        let cwd = resolve_cwd(config.root.as_str(), &hook.cwd);
        match configure_command(&hook.command, cwd, &context, env) {
            Ok(command) => Ok((command, process_output_source_label(name, &hook.command))),
            Err(error) => Err(ProcessError::Command(error)),
        }
    }

    /// Notes that a process has been started.
    pub fn on_started(&mut self, name: &str)
        ensures
            final(self)@ == started(old(self)@, name@),
            final(self).event_env() == old(self).event_env(),
            final(self).reload_env() == old(self).reload_env(),
    {
        self.running.insert(name.to_owned());
        self.supervisor.on_process_started(name);
    }

    /// Begins to stop a process, and says whether there is anything to stop.
    pub fn begin_stop(&mut self, name: &str) -> (found: bool)
        ensures
            found == old(self)@.running.contains(name@),
            final(self)@ == stopping(old(self)@, name@),
            final(self).event_env() == old(self).event_env(),
            final(self).reload_env() == old(self).reload_env(),
    {
        self.running.remove(name)
    }

    /// Notes that a process has been stopped: its output is retired, and what it has written to
    /// the session is emptied. The state is to be saved if this changed it.
    pub fn on_stopped(&mut self, config: &Config, name: &str, state: &mut SessionState) -> (changed: bool)
        ensures
            final(self)@ == stopped(old(self)@, name@),
            final(self).event_env() == old(self).event_env(),
            final(self).reload_env() == old(self).reload_env(),
            final(state)@ == session_without(*config, old(state)@, name@),
            changed == clearing_writes(
                old(state)@,
                rules_of(*config, name@),
                rules_of(*config, name@).len() as int,
            ),
            final(state).file() == old(state).file(),
    {
        self.supervisor.on_process_stopped(name);
        self.forget_output(config, name, state)
    }

    /// The readiness probe that a process is waited for with; nothing where it has none.
    pub fn readiness_of<'a>(&self, config: &'a Config, name: &str) -> (result: Result<
        Option<&'a ProbeSpec>,
        ProcessError,
    >)
        ensures
            is_readiness(*config, self@, name@, result),
    {
        let spec = match config.process.get(name) {
            Some(spec) => spec,
            None => {
                return Err(ProcessError::Unknown(name.to_owned()));
            },
        };
        match &spec.readiness {
            None => Ok(None),
            Some(probe) => if self.running.contains(name) {
                Ok(Some(probe))
            } else {
                Err(ProcessError::NotRunning(name.to_owned()))
            },
        }
    }

    /// The effects that start what starts by itself.
    pub fn autostart_effects(&self, config: &Config) -> (effects: Vec<ProcessEffect>)
        ensures
            effects_of(effects@) == start_each(
                picked(
                    config.process.keys(),
                    |process: Seq<char>| config.process@[process].autostart,
                ),
            ),
    {
        self.supervisor.autostart_effects(config)
    }

    /// Begins to stop everything.
    pub fn initiate_shutdown(&mut self)
        ensures
            final(self)@ == (ManagerView { shutting_down: true, ..old(self)@ }),
            final(self).event_env() == old(self).event_env(),
            final(self).reload_env() == old(self).reload_env(),
    {
        self.shutting_down = true;
    }

    /// Begins to stop everything: the effects that stop what runs, in the order of names.
    pub fn stop_all(&mut self) -> (effects: Vec<ProcessEffect>)
        ensures
            final(self)@ == shut_down(old(self)@),
            final(self).event_env() == old(self).event_env(),
            final(self).reload_env() == old(self).reload_env(),
            effects_of(effects@) == stop_each(
                picked(old(self)@.names, |process: Seq<char>| old(self)@.states[process].running),
            ),
    {
        self.initiate_shutdown();
        self.supervisor.on_shutdown()
    }

    /// Takes in which processes have exited, and whether successfully: their output is retired,
    /// and what they have written to the session is emptied. Says which are started again and
    /// whose liveness is to be checked, and whether the state is to be saved.
    pub fn maintain(
        &mut self,
        config: &Config,
        now_ms: u64,
        exits: Vec<(String, bool)>,
        state: &mut SessionState,
    ) -> (result: (Vec<ProcessEffect>, bool))
        ensures
            final(self).event_env() == old(self).event_env(),
            final(self).reload_env() == old(self).reload_env(),
            final(state).file() == old(state).file(),
            ({
                let (view, session) = exits_taken(
                    *config,
                    old(self)@,
                    old(state)@,
                    exits@,
                    exits@.len() as int,
                );
                let states = after_exits(old(self)@.states, exits@);
                &&& final(self)@ == (ManagerView { states, ..view })
                &&& final(state)@ == session
                &&& effects_of(result.0@) == maintenance(*config, old(self)@, exits@, now_ms)
            }),
            result.1 == exits_write(*config, old(self)@, old(state)@, exits@, exits@.len() as int),
    {
        let mut changed = false;
        let mut i: usize = 0;
        while i < exits.len()
            invariant
                i <= exits@.len(),
                (self@, state@) == exits_taken(*config, old(self)@, old(state)@, exits@, i as int),
                self@.states == old(self)@.states,
                self@.suppressed == old(self)@.suppressed,
                self.event_env() == old(self).event_env(),
                self.reload_env() == old(self).reload_env(),
                state.file() == old(state).file(),
                changed == exits_write(*config, old(self)@, old(state)@, exits@, i as int),
            decreases exits@.len() - i,
        {
            let name = &exits[i].0;
            self.running.remove(name.as_str());
            let cleared = self.forget_output(config, name.as_str(), state);
            changed = changed || cleared;
            i = i + 1;
        }
        let effects = self.supervisor.on_tick(config, now_ms, exits);
        (effects, changed)
    }

    /// Takes the next effect that something is to be done about; nothing where none is left.
    ///
    /// A liveness check of a process that has no liveness probe is passed over.
    pub fn next_action(
        &self,
        pending: &mut VecDeque<ProcessEffect>,
        config: &Config,
        env: &NameMap<String>,
    ) -> (action: Option<ProcessAction>)
        ensures
            ({
                let effects = effects_of(old(pending)@);
                let n = passed_over(*config, effects) as int;
                match action {
                    None => n == effects.len() && final(pending)@.len() == 0,
                    Some(action) => {
                        &&& n < effects.len()
                        &&& effects_of(final(pending)@) == effects.skip(n + 1)
                        &&& is_action(*config, env@, effects[n], action)
                    },
                }
            }),
    {
        let ghost all = effects_of(pending@);
        let ghost mut passed: nat = 0;
        proof {
            assert(all.skip(0) =~= all);
        }
        loop
            invariant
                passed <= all.len(),
                all == effects_of(old(pending)@),
                effects_of(pending@) == all.skip(passed as int),
                passed_over(*config, all) == passed + passed_over(*config, all.skip(passed as int)),
            decreases all.len() - passed,
        {
            let ghost ahead = effects_of(pending@);
            assert(ahead.len() == pending@.len());
            let ghost waiting = pending@;
            let effect = match pending.pop_front() {
                None => {
                    return None;
                },
                Some(effect) => effect,
            };
            proof {
                assert(effects_of(pending@) =~= ahead.skip(1));
                assert(ahead[0] == effect@);
                assert(all.skip(passed as int).skip(1) =~= all.skip(passed as int + 1));
            }
            match effect {
                ProcessEffect::StartProcess { process } => {
                    return Some(ProcessAction::Start { process });
                },
                ProcessEffect::RestartProcess { process } => {
                    return Some(ProcessAction::Restart { process });
                },
                ProcessEffect::StopProcess { process } => {
                    return Some(ProcessAction::Stop { process });
                },
                ProcessEffect::CheckLiveness { process } => {
                    if let Some(spec) = config.process.get(process.as_str()) {
                        if let Some(liveness) = &spec.liveness {
                            return Some(
                                match expand_probe_env(process.as_str(), liveness, env) {
                                    Ok(probe) => ProcessAction::Probe { process, probe },
                                    Err(error) => ProcessAction::Unhealthy { process, error },
                                },
                            );
                        }
                    }
                },
            }
            proof {
                passed = passed + 1;
            }
        }
    }

    /// Takes in the result of a liveness check, and puts what follows from it behind what is
    /// pending.
    pub fn on_liveness_result(
        &mut self,
        pending: &mut VecDeque<ProcessEffect>,
        config: &Config,
        process: &str,
        healthy: bool,
        now_ms: u64,
    )
        ensures
            final(self)@ == (ManagerView {
                states: after_check(old(self)@.states, process@, now_ms),
                ..old(self)@
            }),
            final(self).event_env() == old(self).event_env(),
            final(self).reload_env() == old(self).reload_env(),
            effects_of(final(pending)@) == effects_of(old(pending)@) + liveness_effects(
                *config,
                old(self)@.states,
                old(self)@.suppressed,
                process@,
                healthy,
            ),
    {
        let ghost before = effects_of(pending@);
        let effects = self.supervisor.on_liveness_result(config, process, healthy, now_ms);
        let ghost more = effects_of(effects@);
        assert(more.len() == effects@.len());
        let mut i: usize = 0;
        assert(before + more.take(0) =~= before);
        while i < effects.len()
            invariant
                i <= effects@.len(),
                more == effects_of(effects@),
                effects_of(pending@) == before + more.take(i as int),
            decreases effects@.len() - i,
        {
            let ghost earlier = effects_of(pending@);
            let effect = copy_effect(&effects[i]);
            pending.push_back(effect);
            assert(effects_of(pending@) =~= earlier.push(effect@));
            assert(before + more.take(i + 1) =~= earlier.push(effect@));
            i = i + 1;
        }
        assert(more.take(i as int) =~= more);
    }
}

fn copy_effect(effect: &ProcessEffect) -> (copy: ProcessEffect)
    ensures
        copy@ == effect@,
{
    match effect {
        ProcessEffect::StartProcess { process } => ProcessEffect::StartProcess {
            process: process.clone(),
        },
        ProcessEffect::RestartProcess { process } => ProcessEffect::RestartProcess {
            process: process.clone(),
        },
        ProcessEffect::StopProcess { process } => ProcessEffect::StopProcess {
            process: process.clone(),
        },
        ProcessEffect::CheckLiveness { process } => ProcessEffect::CheckLiveness {
            process: process.clone(),
        },
    }
}

/// The liveness probe of a process.
pub open spec fn liveness_of(config: Config, process: Seq<char>) -> Option<ProbeSpec> {
    if config.process@.contains_key(process) {
        config.process@[process].liveness
    } else {
        None
    }
}

/// Whether an effect is passed over.
pub open spec fn is_passed_over(config: Config, effect: ProcessEffectView) -> bool {
    effect matches ProcessEffectView::CheckLiveness(process) && liveness_of(config, process) is None
}

/// How many effects are passed over before the first one that something is to be done about.
pub open spec fn passed_over(config: Config, effects: Seq<ProcessEffectView>) -> nat
    decreases effects.len(),
{
    if effects.len() > 0 && is_passed_over(config, effects[0]) {
        1 + passed_over(config, effects.skip(1))
    } else {
        0
    }
}

/// Whether an action is what an effect asks for.
pub open spec fn is_action(
    config: Config,
    env: Map<Seq<char>, String>,
    effect: ProcessEffectView,
    action: ProcessAction,
) -> bool {
    match effect {
        ProcessEffectView::Start(name) => action matches ProcessAction::Start { process }
            && process@ == name,
        ProcessEffectView::Restart(name) => action matches ProcessAction::Restart { process }
            && process@ == name,
        ProcessEffectView::Stop(name) => action matches ProcessAction::Stop { process } && process@
            == name,
        ProcessEffectView::CheckLiveness(name) => match liveness_of(config, name) {
            Some(ProbeSpec::Http { url, interval_ms, timeout_ms }) => match expansion(env, url@, 0) {
                Ok(address) => action matches ProcessAction::Probe {
                    process,
                    probe: ProbeSpec::Http { url: u, interval_ms: i, timeout_ms: t },
                } && process@ == name && u@ == address && i == interval_ms && t == timeout_ms,
                Err(problem) => action matches ProcessAction::Unhealthy { process, error }
                    && process@ == name && error.problem@ == problem && error.field@ == probe_field(
                    name,
                ),
            },
            Some(liveness) => action matches ProcessAction::Probe { process, probe } && process@
                == name && same_probe(probe, liveness),
            None => false,
        },
    }
}

/// The text of the error when stopping everything has failed in places.
pub fn join_cleanup_errors(errors: &Vec<String>) -> (message: String)
    ensures
        message@ == "shutdown cleanup failed: "@ + joined(texts(errors@), "; "@),
{
    "shutdown cleanup failed: ".to_owned().concat(join_texts(errors, "; ").as_str())
}

/// Retiring the output of a process gives it a generation that it did not have.
pub proof fn law_retiring_changes_the_generation(view: ManagerView, process: Seq<char>)
    requires
        view.generations.contains_key(process),
    ensures
        retired(view, process).generations[process] != view.generations[process],
{
}

/// Once everything is being stopped no process that exits is started again and none is checked,
/// and that stays so.
pub proof fn law_nothing_is_started_once_everything_stops(
    config: Config,
    view: ManagerView,
    session: Map<Seq<char>, Json>,
    exits: Seq<(String, bool)>,
    now_ms: u64,
)
    ensures
        maintenance(config, shut_down(view), exits, now_ms) == Seq::<ProcessEffectView>::empty(),
        exits_taken(config, shut_down(view), session, exits, exits.len() as int).0.shutting_down,
        exits_taken(config, shut_down(view), session, exits, exits.len() as int).0.suppressed,
{
    lemma_exits_keep_shutdown(config, shut_down(view), session, exits, exits.len() as int);
}

proof fn lemma_exits_keep_shutdown(
    config: Config,
    view: ManagerView,
    session: Map<Seq<char>, Json>,
    exits: Seq<(String, bool)>,
    n: int,
)
    ensures
        exits_taken(config, view, session, exits, n).0.shutting_down == view.shutting_down,
        exits_taken(config, view, session, exits, n).0.suppressed == view.suppressed,
    decreases n,
{
    if n > 0 {
        lemma_exits_keep_shutdown(config, view, session, exits, n - 1);
    }
}

/// Starting a process that runs does nothing: no command comes of it, and neither what is known of
/// the processes nor the session changes.
pub proof fn law_running_processes_are_not_started(
    manager: &ProcessManager,
    config: Config,
    name: Seq<char>,
    spec: ProcessSpec,
    env: Map<Seq<char>, String>,
    state_path: Seq<char>,
    session: Map<Seq<char>, Json>,
    result: (Result<Option<StartPlan>, ProcessError>, bool),
    after: ManagerView,
    held: Map<Seq<char>, Json>,
)
    requires
        manager@.running.contains(name),
        manager.is_begun(config, name, spec, env, state_path, session, result, after, held),
    ensures
        result.0 matches Ok(None),
        !result.1,
        after == manager@,
        held == session,
{
}

/// Once a process has been stopped, or is about to be started anew, what is still to come of the
/// output of its last run writes nothing to the session.
pub proof fn law_stopped_processes_write_nothing(
    view: ManagerView,
    process: Seq<char>,
    output: ForwardConfig,
    session: Map<Seq<char>, Json>,
    line: Option<Seq<u8>>,
)
    requires
        view.generations.contains_key(process),
        output.generation == view.generations[process],
    ensures
        ({
            let current = retired(view, process).generations[process];
            session_after_line(output, session, line, current) == session
        }),
{
}

/// Before a process is started and after it has stopped, the keys that its output writes are
/// empty.
pub proof fn law_keys_of_stopped_processes_are_empty(
    config: Config,
    session: Map<Seq<char>, Json>,
    process: Seq<char>,
    i: int,
)
    requires
        0 <= i < rules_of(config, process).len(),
    ensures
        ({
            let key = rules_of(config, process)[i].state_key@;
            let after = session_without(config, session, process);
            after.contains_key(key) && after[key] == Json::Text(Seq::empty())
        }),
{
    let rules = rules_of(config, process);
    law_clearing_empties_the_keys(session, rules, rules.len() as int, rules[i].state_key@);
}

/// A process that does not run is started where its command is not empty, its references expand
/// and the patterns of its rules compile. It is run with what is configured for it, under a
/// generation of its own, and nothing else of what is known changes.
pub proof fn law_stopped_processes_are_started(
    manager: &ProcessManager,
    config: Config,
    name: Seq<char>,
    spec: ProcessSpec,
    env: Map<Seq<char>, String>,
    state_path: Seq<char>,
    session: Map<Seq<char>, Json>,
    result: (Result<Option<StartPlan>, ProcessError>, bool),
    after: ManagerView,
    held: Map<Seq<char>, Json>,
    other: Seq<char>,
)
    requires
        !manager@.running.contains(name),
        other != name,
        spec.env.wf(),
        manager.is_begun(config, name, spec, env, state_path, session, result, after, held),
    ensures
        result.0 is Ok <==> spec.command@.len() > 0 && list_expands(env, spec.command@) && map_expands(
            env,
            spec.env,
        ) && forall|i: int|
            0 <= i < spec.output.rules@.len() ==> ((#[trigger] spec.output.rules@[i]).pattern matches Some(
                pattern,
            ) ==> regex_compiles(pattern@)),
        result.0 matches Ok(plan) ==> plan is Some,
        result.0 matches Ok(Some(plan)) ==> {
            &&& plan.label@ == output_label(name, spec.command@)
            &&& plan.inherit == spec.output.inherit
            &&& plan.body_style == spec.output.body_style
            &&& plan.rules@.len() == spec.output.rules@.len()
            &&& after.generations.contains_key(name) && plan.generation == after.generations[name]
            &&& spec.readiness is None || spec.readiness->0 is StateKey ==> plan.address is None
            &&& spec.readiness matches Some(ProbeSpec::Http { url, .. }) ==> (expansion(
                env,
                url@,
                0,
            ) matches Ok(address) ==> (plan.address is Some <==> loopback_address(
                url_origin(address),
            ) is Some))
            &&& plan.command.cwd@ == working_directory(config.root@, spec.cwd)
            &&& ({
                let told = env_of(plan.command.env);
                &&& told.contains_key("DEVLOOP_WORKFLOW"@) && told["DEVLOOP_WORKFLOW"@] == "startup"@
                &&& told.contains_key("DEVLOOP_ROOT"@) && told["DEVLOOP_ROOT"@] == config.root@
                &&& told.contains_key("DEVLOOP_STATE"@) && told["DEVLOOP_STATE"@] == state_path
                &&& told.contains_key("DEVLOOP_CHANGED_FILES_JSON"@)
                    && told["DEVLOOP_CHANGED_FILES_JSON"@] == json_list(Seq::empty())
            })
        },
        manager@.generations.contains_key(name) && manager@.generations[name] < u64::MAX
            ==> after.generations[name] == manager@.generations[name] + 1,
        manager@.generations.contains_key(name) && manager@.generations[name] == u64::MAX
            ==> after.generations[name] == 0,
        !manager@.generations.contains_key(name) ==> after.generations[name] == 1,
        manager@.generations.contains_key(other) ==> after.generations.contains_key(other)
            && after.generations[other] == manager@.generations[other],
        after.running == manager@.running,
        after.states == manager@.states,
        after.shutting_down == manager@.shutting_down,
        forall|i: int|
            0 <= i < spec.output.rules@.len() ==> held.contains_key(
                (#[trigger] spec.output.rules@[i]).state_key@,
            ) && held[spec.output.rules@[i].state_key@] == Json::Text(Seq::empty()),
{
    let rules = spec.output.rules@;
    assert forall|i: int| 0 <= i < rules.len() implies held.contains_key(
        (#[trigger] rules[i]).state_key@,
    ) && held[rules[i].state_key@] == Json::Text(Seq::empty()) by {
        law_clearing_empties_the_keys(session, rules, rules.len() as int, rules[i].state_key@);
    }
    if let Ok(Some(plan)) = result.0 {
        assert forall|i: int| 0 <= i < rules.len() implies ((#[trigger] rules[i]).pattern matches Some(
            pattern,
        ) ==> regex_compiles(pattern@)) by {
            assert(is_compiled_rule(rules[i], plan.rules@[i]));
        }
        law_commands_are_run_as_configured(
            env,
            spec.command@,
            working_directory(config.root@, spec.cwd),
            manager.start_context(config, spec, state_path),
            plan.command,
            Seq::empty(),
        );
    }
    if let Err(ProcessError::Command(CommandError::Expand(error))) = result.0 {
        if map_error(env, spec.env, "env"@, error) {
            let i = choose|i: int|
                0 <= i < spec.env.keys().len() && expansion(env, (#[trigger] spec.env.values()[i])@, 0)
                    is Err;
            spec.env.lemma_entry(i);
            assert(!map_expands(env, spec.env));
        }
    }
    if let Err(ProcessError::InvalidPattern(pattern)) = result.0 {
        let i = choose|i: int| 0 <= i < rules.len() && has_bad_pattern(#[trigger] rules[i]);
        assert(has_bad_pattern(spec.output.rules@[i]));
    }
}

/// A process that has been started runs until it is stopped or exits, and what is known of every
/// other process stays.
pub proof fn law_processes_run_from_start_to_stop(
    view: ManagerView,
    process: Seq<char>,
    other: Seq<char>,
)
    requires
        other != process,
    ensures
        started(view, process).running.contains(process),
        view.states.contains_key(process) ==> started(view, process).states[process].running,
        started(view, process).generations == view.generations,
        started(view, process).shutting_down == view.shutting_down,
        !stopping(view, process).running.contains(process),
        stopping(view, process).generations == view.generations,
        stopping(view, process).states == view.states,
        view.states.contains_key(process) ==> !stopped(view, process).states[process].running,
        stopped(view, process).running == view.running,
        stopped(view, process).generations.contains_key(process),
        view.generations.contains_key(process) ==> stopped(view, process).generations[process]
            != view.generations[process],
        started(view, process).running.contains(other) == view.running.contains(other),
        stopping(view, process).running.contains(other) == view.running.contains(other),
        view.states.contains_key(other) ==> started(view, process).states[other] == view.states[other]
            && stopped(view, process).states[other] == view.states[other],
        view.generations.contains_key(other) ==> stopped(view, process).generations[other]
            == view.generations[other],
        shut_down(view).shutting_down && shut_down(view).suppressed,
        shut_down(view).running == view.running,
{
}

/// A process that is known and runs is waited for with its readiness probe; one without a probe is
/// ready at once, and one that does not run or is unknown cannot be waited for.
pub proof fn law_processes_are_waited_for_with_their_probe(
    config: Config,
    view: ManagerView,
    process: Seq<char>,
    result: Result<Option<&ProbeSpec>, ProcessError>,
)
    requires
        is_readiness(config, view, process, result),
    ensures
        result is Ok <==> config.process@.contains_key(process) && (
        config.process@[process].readiness is None || view.running.contains(process)),
        result matches Ok(None) <==> config.process@.contains_key(process)
            && config.process@[process].readiness is None,
        result matches Ok(Some(probe)) ==> config.process@[process].readiness == Some(*probe),
        result matches Err(error) ==> (error is NotRunning <==> config.process@.contains_key(process))
            && (error is Unknown <==> !config.process@.contains_key(process)),
        result matches Err(ProcessError::NotRunning(name)) ==> name@ == process,
        result matches Err(ProcessError::Unknown(name)) ==> name@ == process,
{
}

/// A process that has exited does not run and has another generation; one that has not exited is
/// left as it is.
pub proof fn law_exited_processes_do_not_run(
    config: Config,
    view: ManagerView,
    session: Map<Seq<char>, Json>,
    exits: Seq<(String, bool)>,
    n: int,
    process: Seq<char>,
)
    requires
        0 <= n <= exits.len(),
    ensures
        ({
            let (after, held) = exits_taken(config, view, session, exits, n);
            let exited = exists|i: int| 0 <= i < n && (#[trigger] exits[i]).0@ == process;
            &&& after.running.contains(process) <==> view.running.contains(process) && !exited
            &&& exited ==> after.generations.contains_key(process)
            &&& !exited && view.generations.contains_key(process) ==> after.generations.contains_key(
                process,
            ) && after.generations[process] == view.generations[process]
            &&& n > 0 ==> forall|k: int|
                0 <= k < rules_of(config, exits[n - 1].0@).len() ==> held.contains_key(
                    (#[trigger] rules_of(config, exits[n - 1].0@)[k]).state_key@,
                ) && held[rules_of(config, exits[n - 1].0@)[k].state_key@] == Json::Text(Seq::empty())
        }),
    decreases n,
{
    if n > 0 {
        law_exited_processes_do_not_run(config, view, session, exits, n - 1, process);
        let last = exits[n - 1].0@;
        let before = exits_taken(config, view, session, exits, n - 1);
        let rules = rules_of(config, last);
        assert forall|k: int| 0 <= k < rules.len() implies session_without(
            config,
            before.1,
            last,
        ).contains_key((#[trigger] rules[k]).state_key@) && session_without(config, before.1, last)[
        rules[k].state_key@] == Json::Text(Seq::empty()) by {
            law_keys_of_stopped_processes_are_empty(config, before.1, last, k);
        }
        let earlier = exists|i: int| 0 <= i < n - 1 && (#[trigger] exits[i]).0@ == process;
        if earlier {
            let i = choose|i: int| 0 <= i < n - 1 && (#[trigger] exits[i]).0@ == process;
            assert(exits[i].0@ == process);
        }
        if last == process {
            assert(exits[n - 1].0@ == process);
        }
    }
}

/// Every effect but the liveness check of a process without a liveness probe leads to its action:
/// starting, restarting and stopping, and the probe of a process that has one.
pub proof fn law_effects_lead_to_their_actions(
    config: Config,
    env: Map<Seq<char>, String>,
    effects: Seq<ProcessEffectView>,
    process: Seq<char>,
    action: ProcessAction,
)
    ensures
        passed_over(config, effects) <= effects.len(),
        forall|i: int|
            0 <= i < passed_over(config, effects) ==> (#[trigger] effects[i] matches
                ProcessEffectView::CheckLiveness(name) && (config.process@.contains_key(name)
                ==> config.process@[name].liveness is None)),
        passed_over(config, effects) < effects.len() ==> (effects[passed_over(config, effects) as int]
            matches ProcessEffectView::CheckLiveness(name) ==> config.process@.contains_key(name)
            && config.process@[name].liveness is Some),
        is_action(config, env, ProcessEffectView::Start(process), action) ==> (action matches
            ProcessAction::Start { process: name } && name@ == process),
        is_action(config, env, ProcessEffectView::Restart(process), action) ==> (action matches
            ProcessAction::Restart { process: name } && name@ == process),
        is_action(config, env, ProcessEffectView::Stop(process), action) ==> (action matches
            ProcessAction::Stop { process: name } && name@ == process),
        is_action(config, env, ProcessEffectView::CheckLiveness(process), action) ==> {
            &&& config.process@.contains_key(process) && config.process@[process].liveness is Some
            &&& action is Probe || action is Unhealthy
            &&& action matches ProcessAction::Probe { process: name, probe } ==> {
                &&& name@ == process
                &&& probe is Http <==> config.process@[process].liveness->0 is Http
                &&& config.process@[process].liveness matches Some(ProbeSpec::StateKey { key, .. })
                    ==> (probe matches ProbeSpec::StateKey { key: asked, .. } && asked@ == key@)
            }
            &&& action matches ProcessAction::Unhealthy { process: name, error } ==> name@ == process
                && (config.process@[process].liveness matches Some(ProbeSpec::Http { url, .. })
                && expansion(env, url@, 0) is Err)
        },
    decreases effects.len(),
{
    if effects.len() > 0 && is_passed_over(config, effects[0]) {
        let rest = effects.skip(1);
        law_effects_lead_to_their_actions(config, env, rest, process, action);
        let n = passed_over(config, rest);
        assert forall|i: int| 0 <= i < n + 1 implies (#[trigger] effects[i] matches
            ProcessEffectView::CheckLiveness(name) && (config.process@.contains_key(name)
            ==> config.process@[name].liveness is None)) by {
            if i > 0 {
                assert(effects[i] == rest[i - 1]);
            }
        }
        if n < rest.len() {
            assert(effects[n as int + 1] == rest[n as int]);
        }
    }
}

/// The state is to be saved after exits if and only if one of them emptied a key that was not empty:
/// otherwise the session is as it was.
pub proof fn law_unchanged_sessions_are_not_saved(
    config: Config,
    view: ManagerView,
    session: Map<Seq<char>, Json>,
    exits: Seq<(String, bool)>,
    n: int,
)
    requires
        0 <= n <= exits.len(),
    ensures
        !exits_write(config, view, session, exits, n) ==> exits_taken(config, view, session, exits, n).1
            == session,
        exits_write(config, view, session, exits, n) <==> exists|i: int|
            0 <= i < n && clearing_writes(
                exits_taken(config, view, session, exits, i).1,
                rules_of(config, (#[trigger] exits[i]).0@),
                rules_of(config, exits[i].0@).len() as int,
            ),
    decreases n,
{
    if n > 0 {
        law_unchanged_sessions_are_not_saved(config, view, session, exits, n - 1);
        let held = exits_taken(config, view, session, exits, n - 1).1;
        let rules = rules_of(config, exits[n - 1].0@);
        law_unwritten_sessions_stay(held, Seq::empty(), rules, Seq::empty(), rules.len() as int);
        if clearing_writes(held, rules, rules.len() as int) {
            assert(exits[n - 1].0@ == exits[n - 1].0@);
        }
    }
}

/// A hook is run with its own environment, and is told the changed files and the workflow that it is
/// run for.
pub proof fn law_hooks_are_told_what_they_run_for(
    manager: &ProcessManager,
    config: Config,
    hook: HookSpec,
    env: Map<Seq<char>, String>,
    state_path: Seq<char>,
    files: Seq<Seq<char>>,
    workflow: Seq<char>,
    plan: CommandPlan,
    name: Seq<char>,
)
    requires
        is_configured(
            env,
            hook.command@,
            working_directory(config.root@, hook.cwd),
            manager.hook_context(config, hook, state_path, files, workflow),
            Ok(plan),
        ),
    ensures
        ({
            let told = env_of(plan.env);
            &&& told.contains_key("DEVLOOP_WORKFLOW"@) && told["DEVLOOP_WORKFLOW"@] == workflow
            &&& told.contains_key("DEVLOOP_ROOT"@) && told["DEVLOOP_ROOT"@] == config.root@
            &&& told.contains_key("DEVLOOP_STATE"@) && told["DEVLOOP_STATE"@] == state_path
            &&& told.contains_key("DEVLOOP_CHANGED_FILES_JSON"@) && told["DEVLOOP_CHANGED_FILES_JSON"@]
                == json_list(files)
            &&& hook.env@.contains_key(name) && !(seq!['D', 'E', 'V', 'L', 'O', 'O', 'P', '_'].is_prefix_of(
                name,
            )) ==> told.contains_key(name)
        }),
        manager.hook_context(config, hook, state_path, files, workflow).event_env == manager.event_env(),
        manager.hook_context(config, hook, state_path, files, workflow).reload_env == manager.reload_env(),
{
    law_commands_are_run_as_configured(
        env,
        hook.command@,
        working_directory(config.root@, hook.cwd),
        manager.hook_context(config, hook, state_path, files, workflow),
        plan,
        name,
    );
}

/// The rules for the output of a process are those that are configured for it.
pub proof fn law_processes_have_their_own_rules(config: Config, process: Seq<char>)
    ensures
        config.process@.contains_key(process) ==> rules_of(config, process)
            == config.process@[process].output.rules@,
        !config.process@.contains_key(process) ==> rules_of(config, process).len() == 0,
{
}

} // verus!
