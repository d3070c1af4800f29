//! The loop of the supervisor: what is done next, and what follows from what came of it.

use crate::config::Config;
use crate::external_events::ExternalEventMessage;
use crate::name_map::NameMap;
use crate::runtime::{
    after_event, after_trigger, initial, RuntimeEffect, RuntimeEffectView, RuntimeEvent,
    RuntimeMachine, RuntimeView,
};
use crate::text::{copy_texts, texts};
use crate::value::{session_of, SessionValue};
use crate::watch::{
    compiles, group_by_workflow, is_compiled, is_grouped, relative_paths, relatives, CompiledWatchGroup,
    FileEvent, WatchError,
};
use crate::workflow::{run_moves, WorkflowMachine, WorkflowRunError};
use vstd::prelude::*;

verus! {

/// What is done for the supervisor from outside.
#[derive(Debug, Clone, PartialEq, Eq)]
pub enum RuntimeAction {
    PersistState { key: String, value: SessionValue },
    StartExternalEventServer,
    StartBrowserReloadServer,
    StartAutostartProcesses,
    RunWorkflow { workflow_name: String, changed_files: Vec<String> },
    StartWatching,
    MaintainProcesses,
    PollObservedHook { hook: String },
    LogInfo { message: String },
    StopWatching,
    StopAllProcesses,
    Exit,
}

/// What came of an action.
#[derive(Debug, Clone, PartialEq, Eq)]
pub enum ActionOutcome {
    /// It was done.
    Done,
    /// A hook was polled, and did or did not change the session.
    Polled { changed: bool },
    /// It failed.
    Failed { error: String },
    /// It failed since a process failed to start.
    StartFailed { error: String },
}

/// What follows from the outcome of an action.
#[derive(Debug, Clone, PartialEq, Eq)]
pub enum Settled {
    /// The loop goes on.
    Continue,
    /// The loop goes on after a report that a workflow has failed.
    ReportWorkflow { workflow_name: String, error: String },
    /// The loop ends with an error.
    Abort { error: String },
}

/// What happens to the supervisor while it waits.
#[derive(Debug)]
pub enum EngineEvent {
    /// It is asked to stop.
    CtrlC,
    /// Time has gone by.
    Tick { now_ms: u64 },
    /// Files have changed.
    Files { events: Vec<FileEvent> },
    /// An event was posted; nothing where the server for events is gone.
    External { message: Option<ExternalEventMessage> },
}

/// Why the supervisor cannot go on.
#[derive(Debug, Clone, Copy, PartialEq, Eq)]
pub enum EngineError {
    /// The server for events is gone.
    ExternalEventsClosed,
}

impl EngineError {
    /// The text of the error.
    pub fn message(&self) -> (text: String)
        ensures
            text@ == "external event channel disconnected"@,
    {
        "external event channel disconnected".to_owned()
    }
}

/// The action whose outcome is awaited.
pub enum Awaited {
    Nothing,
    Workflow(Seq<char>),
    Poll(Seq<char>),
    StopWatching,
    Other,
}

/// The action whose outcome is awaited.
#[derive(Debug)]
enum InFlight {
    Nothing,
    Workflow(String),
    Poll(String),
    StopWatching,
    Other,
}

impl InFlight {
    spec fn view(&self) -> Awaited {
        match *self {
            InFlight::Nothing => Awaited::Nothing,
            InFlight::Workflow(name) => Awaited::Workflow(name@),
            InFlight::Poll(name) => Awaited::Poll(name@),
            InFlight::StopWatching => Awaited::StopWatching,
            InFlight::Other => Awaited::Other,
        }
    }
}

/// What is known of the loop.
pub struct EngineView {
    pub runtime: RuntimeView,
    /// Whether all processes are to be stopped next.
    pub stop_all: bool,
    /// Whether watching is still to be started.
    pub starting: bool,
    pub awaited: Awaited,
}

/// Whether an action is what an effect asks for. Before all processes are stopped, watching is.
pub open spec fn is_action(effect: RuntimeEffectView, action: RuntimeAction) -> bool {
    match effect {
        RuntimeEffectView::PersistState { key, value } => action matches RuntimeAction::PersistState {
            key: k,
            value: v,
        } && k@ == key && v.json() == value,
        RuntimeEffectView::StartExternalEventServer => action == RuntimeAction::StartExternalEventServer,
        RuntimeEffectView::StartBrowserReloadServer => action == RuntimeAction::StartBrowserReloadServer,
        RuntimeEffectView::StartAutostartProcesses => action == RuntimeAction::StartAutostartProcesses,
        RuntimeEffectView::RunWorkflow { workflow, files } => action matches RuntimeAction::RunWorkflow {
            workflow_name,
            changed_files,
        } && workflow_name@ == workflow && texts(changed_files@) == files,
        RuntimeEffectView::StartWatching => action == RuntimeAction::StartWatching,
        RuntimeEffectView::MaintainProcesses => action == RuntimeAction::MaintainProcesses,
        RuntimeEffectView::PollObservedHook { hook, .. } => action matches RuntimeAction::PollObservedHook {
            hook: h,
        } && h@ == hook,
        RuntimeEffectView::LogInfo(message) => action matches RuntimeAction::LogInfo { message: m }
            && m@ == message,
        RuntimeEffectView::StopAllProcesses => action == RuntimeAction::StopWatching,
        RuntimeEffectView::Exit => action == RuntimeAction::Exit,
    }
}

/// What is awaited after an effect has been handed out.
pub open spec fn awaited_for(effect: RuntimeEffectView) -> Awaited {
    match effect {
        RuntimeEffectView::RunWorkflow { workflow, .. } => Awaited::Workflow(workflow),
        RuntimeEffectView::PollObservedHook { workflow, .. } => Awaited::Poll(workflow),
        RuntimeEffectView::StopAllProcesses => Awaited::StopWatching,
        _ => Awaited::Other,
    }
}

/// What follows from an outcome. A workflow that fails is reported and the loop goes on, unless a
/// process fails to start before watching is; a hook that changed the session asks for its
/// workflow; that watching cannot be stopped does not keep the processes from being stopped; any
/// other failure ends the loop.
pub open spec fn is_settled(view: EngineView, outcome: ActionOutcome, settled: Settled) -> bool {
    match outcome {
        ActionOutcome::Failed { error } => is_settled_failure(view.awaited, error@, false, settled),
        ActionOutcome::StartFailed { error } => is_settled_failure(
            view.awaited,
            error@,
            view.starting,
            settled,
        ),
        _ => settled == Settled::Continue,
    }
}

/// What follows from a failure.
pub open spec fn is_settled_failure(
    awaited: Awaited,
    error: Seq<char>,
    ends_startup: bool,
    settled: Settled,
) -> bool {
    match awaited {
        Awaited::Workflow(workflow) if !ends_startup => settled matches Settled::ReportWorkflow {
            workflow_name,
            error: e,
        } && workflow_name@ == workflow && e@ == error,
        Awaited::StopWatching => settled == Settled::Continue,
        _ => settled matches Settled::Abort { error: e } && e@ == error,
    }
}

/// What is known of the supervisor after an outcome.
pub open spec fn runtime_after(runtime: RuntimeView, awaited: Awaited, outcome: ActionOutcome) -> RuntimeView {
    match (awaited, outcome) {
        (Awaited::Poll(workflow), ActionOutcome::Polled { changed: true }) => after_trigger(
            runtime,
            workflow,
        ),
        _ => runtime,
    }
}

/// What is known of the loop after its next action has been handed out.
pub open spec fn after_action(view: EngineView) -> EngineView {
    if view.stop_all {
        EngineView { stop_all: false, awaited: Awaited::Other, ..view }
    } else if view.runtime.pending.len() == 0 {
        EngineView { awaited: Awaited::Nothing, ..view }
    } else {
        let effect = view.runtime.pending[0];
        EngineView {
            runtime: RuntimeView { pending: view.runtime.pending.skip(1), ..view.runtime },
            stop_all: effect is StopAllProcesses,
            starting: view.starting && !(effect is StartWatching),
            awaited: awaited_for(effect),
        }
    }
}

/// What is known of the loop after an outcome has been taken in.
pub open spec fn after_outcome(view: EngineView, outcome: ActionOutcome) -> EngineView {
    EngineView {
        runtime: runtime_after(view.runtime, view.awaited, outcome),
        stop_all: view.stop_all,
        starting: view.starting,
        awaited: Awaited::Nothing,
    }
}

/// Whether an action is the next one.
pub open spec fn is_next_action(view: EngineView, action: Option<RuntimeAction>) -> bool {
    if view.stop_all {
        action == Some(RuntimeAction::StopAllProcesses)
    } else if view.runtime.pending.len() == 0 {
        action is None
    } else {
        action is Some && is_action(view.runtime.pending[0], action->0)
    }
}

/// The loop of the supervisor.
#[derive(Debug)]
pub struct Engine {
    config: Config,
    watch_groups: Vec<CompiledWatchGroup>,
    active_log: Option<String>,
    runtime: RuntimeMachine,
    stop_all: bool,
    starting: bool,
    in_flight: InFlight,
}

impl Engine {
    /// What is known of the loop.
    pub closed spec fn view(&self) -> EngineView {
        EngineView {
            runtime: self.runtime@,
            stop_all: self.stop_all,
            starting: self.starting,
            awaited: self.in_flight@,
        }
    }

    /// The configuration.
    pub closed spec fn settings(&self) -> Config {
        self.config
    }

    /// The watch groups.
    pub closed spec fn groups(&self) -> Seq<CompiledWatchGroup> {
        self.watch_groups@
    }

    /// The session log, whose changes are passed over.
    pub closed spec fn log(&self) -> Option<String> {
        self.active_log
    }

    /// The loop before anything has happened.
    pub fn new(config: Config) -> (engine: Self)
        ensures
            engine.settings() == config,
            engine.groups() == Seq::<CompiledWatchGroup>::empty(),
            engine.log() is None,
            engine@ == (EngineView {
                runtime: initial(config),
                stop_all: false,
                starting: true,
                awaited: Awaited::Nothing,
            }),
    {
        let runtime = RuntimeMachine::new(&config);
        Engine {
            config,
            watch_groups: Vec::new(),
            active_log: None,
            runtime,
            stop_all: false,
            starting: true,
            in_flight: InFlight::Nothing,
        }
    }

    /// The configuration.
    pub fn config(&self) -> (config: &Config)
        ensures
            *config == self.settings(),
    {
        &self.config
    }

    /// Passes over changes of the session log from now on.
    pub fn ignore_log(&mut self, path: String)
        ensures
            final(self).log() == Some(path),
            final(self)@ == old(self)@,
            final(self).settings() == old(self).settings(),
            final(self).groups() == old(self).groups(),
    {
        self.active_log = Some(path);
    }

    /// Starts: the watch groups are made ready, and the start is taken in. Where a watch group is
    /// refused nothing is taken in.
    pub fn start(&mut self) -> (result: Result<(), WatchError>)
        ensures
            final(self).settings() == old(self).settings(),
            final(self).log() == old(self).log(),
            match result {
                Ok(()) => {
                    let config = old(self).settings();
                    &&& final(self).groups().len() == config.watch.keys().len()
                    &&& forall|i: int|
                        0 <= i < final(self).groups().len() ==> is_compiled(
                            config.watch.values()[i],
                            config.watch.keys()[i],
                            Ok(#[trigger] final(self).groups()[i]),
                        )
                    &&& final(self)@.stop_all == old(self)@.stop_all
                    &&& final(self)@.starting == old(self)@.starting
                    &&& final(self)@.awaited == old(self)@.awaited
                    &&& exists|event: RuntimeEvent| #[trigger]
                        is_start_of(config, event) && final(self)@.runtime == after_event(
                            old(self)@.runtime,
                            event,
                        )
                },
                Err(error) => {
                    &&& final(self)@ == old(self)@
                    &&& final(self).groups() == old(self).groups()
                    &&& exists|i: int|
                        0 <= i < old(self).settings().watch.keys().len() && #[trigger] is_compiled(
                            old(self).settings().watch.values()[i],
                            old(self).settings().watch.keys()[i],
                            Err(error),
                        ) && forall|k: int|
                            0 <= k < i ==> compiles(
                                old(self).settings().watch.values()[k],
                                #[trigger] old(self).settings().watch.keys()[k],
                            )
                },
            },
    {
        match self.config.compiled_watchers() {
            Ok(groups) => {
                let event = RuntimeEvent::Start {
                    root_display: self.config.root.clone(),
                    startup_workflows: copy_texts(&self.config.startup_workflows),
                };
                assert(is_start_of(self.config, event));
                self.watch_groups = groups;
                self.runtime.handle_event(event);
                Ok(())
            },
            Err(error) => Err(error),
        }
    }

    /// Takes in what has happened while the loop was waiting.
    pub fn handle(&mut self, event: EngineEvent) -> (result: Result<(), EngineError>)
        ensures
            final(self).settings() == old(self).settings(),
            final(self).groups() == old(self).groups(),
            final(self).log() == old(self).log(),
            final(self)@.stop_all == old(self)@.stop_all,
            final(self)@.starting == old(self)@.starting,
            final(self)@.awaited == old(self)@.awaited,
            match event {
                EngineEvent::CtrlC => {
                    &&& result is Ok
                    &&& final(self)@.runtime == after_event(old(self)@.runtime, RuntimeEvent::CtrlC)
                },
                EngineEvent::Tick { now_ms } => {
                    &&& result is Ok
                    &&& final(self)@.runtime == after_event(
                        old(self)@.runtime,
                        RuntimeEvent::MaintainTick { now_ms },
                    )
                },
                EngineEvent::Files { events } => {
                    &&& result is Ok
                    &&& exists|workflows: NameMap<Vec<String>>| #[trigger]
                        is_grouped(
                            old(self).groups(),
                            relatives(old(self).settings().root@, events@, old(self).log()),
                            workflows,
                        ) && final(self)@.runtime == after_event(
                            old(self)@.runtime,
                            RuntimeEvent::WatchChanges { workflows },
                        )
                },
                EngineEvent::External { message: Some(message) } => {
                    &&& result is Ok
                    &&& final(self)@.runtime == after_trigger(
                        old(self)@.runtime,
                        message.workflow_name@,
                    )
                },
                EngineEvent::External { message: None } => {
                    &&& result == Err::<(), EngineError>(EngineError::ExternalEventsClosed)
                    &&& final(self)@.runtime == old(self)@.runtime
                },
            },
    {
        match event {
            EngineEvent::CtrlC => {
                self.runtime.handle_event(RuntimeEvent::CtrlC);
                Ok(())
            },
            EngineEvent::Tick { now_ms } => {
                self.runtime.handle_event(RuntimeEvent::MaintainTick { now_ms });
                Ok(())
            },
            EngineEvent::Files { events } => {
                let paths = relative_paths(self.config.root.as_str(), &events, &self.active_log);
                let workflows = group_by_workflow(&self.watch_groups, &paths);
                assert(is_grouped(
                    old(self).groups(),
                    relatives(old(self).settings().root@, events@, old(self).log()),
                    workflows,
                ));
                self.runtime.handle_event(RuntimeEvent::WatchChanges { workflows });
                Ok(())
            },
            EngineEvent::External { message } => match message {
                Some(message) => {
                    self.runtime.handle_event(
                        RuntimeEvent::WorkflowTrigger { workflow_name: message.workflow_name },
                    );
                    Ok(())
                },
                None => Err(EngineError::ExternalEventsClosed),
            },
        }
    }

    /// What is to be done next; nothing where the loop waits.
    pub fn next_action(&mut self) -> (action: Option<RuntimeAction>)
        ensures
            final(self).settings() == old(self).settings(),
            final(self).groups() == old(self).groups(),
            final(self).log() == old(self).log(),
            is_next_action(old(self)@, action),
            final(self)@ == after_action(old(self)@),
    {
        if self.stop_all {
            self.stop_all = false;
            self.in_flight = InFlight::Other;
            return Some(RuntimeAction::StopAllProcesses);
        }
        let effect = match self.runtime.next_effect() {
            Some(effect) => effect,
            None => {
                self.in_flight = InFlight::Nothing;
                return None;
            },
        };
        self.in_flight = InFlight::Other;
        let action = match effect {
            RuntimeEffect::PersistState { key, value } => RuntimeAction::PersistState { key, value },
            RuntimeEffect::StartExternalEventServer => RuntimeAction::StartExternalEventServer,
            RuntimeEffect::StartBrowserReloadServer => RuntimeAction::StartBrowserReloadServer,
            RuntimeEffect::StartAutostartProcesses => RuntimeAction::StartAutostartProcesses,
            RuntimeEffect::RunWorkflow { workflow_name, changed_files } => {
                self.in_flight = InFlight::Workflow(workflow_name.clone());
                RuntimeAction::RunWorkflow { workflow_name, changed_files }
            },
            RuntimeEffect::StartWatching => {
                self.starting = false;
                RuntimeAction::StartWatching
            },
            RuntimeEffect::MaintainProcesses => RuntimeAction::MaintainProcesses,
            RuntimeEffect::PollObservedHook { hook, workflow_name } => {
                self.in_flight = InFlight::Poll(workflow_name);
                RuntimeAction::PollObservedHook { hook }
            },
            RuntimeEffect::LogInfo { message } => RuntimeAction::LogInfo { message },
            RuntimeEffect::StopAllProcesses => {
                self.in_flight = InFlight::StopWatching;
                self.stop_all = true;
                RuntimeAction::StopWatching
            },
            RuntimeEffect::Exit => RuntimeAction::Exit,
        };
        Some(action)
    }

    /// Begins to run a workflow that an action asks for.
    pub fn begin_workflow(
        &self,
        session: NameMap<SessionValue>,
        workflow_name: &str,
        changed_files: &Vec<String>,
    ) -> (result: Result<WorkflowMachine, WorkflowRunError>)
        ensures
            match result {
                Ok(machine) => {
                    &&& self.settings().workflow@.contains_key(workflow_name@)
                    &&& machine.known_session() == session_of(session)
                    &&& machine.moves(self.settings()) == run_moves(
                        self.settings(),
                        workflow_name@,
                        texts(changed_files@),
                    )
                },
                Err(error) => {
                    &&& !self.settings().workflow@.contains_key(workflow_name@)
                    &&& error matches WorkflowRunError::Requested(name) && name@ == workflow_name@
                },
            },
    {
        match WorkflowMachine::start(&self.config, session, workflow_name, changed_files) {
            Ok(machine) => Ok(machine),
            Err(_) => Err(WorkflowRunError::Requested(workflow_name.to_owned())),
        }
    }

    /// Takes in what came of the action that was handed out last.
    pub fn settle(&mut self, outcome: ActionOutcome) -> (settled: Settled)
        ensures
            final(self).settings() == old(self).settings(),
            final(self).groups() == old(self).groups(),
            final(self).log() == old(self).log(),
            is_settled(old(self)@, outcome, settled),
            final(self)@ == after_outcome(old(self)@, outcome),
    {
        let mut awaited = InFlight::Nothing;
        std::mem::swap(&mut self.in_flight, &mut awaited);
        match outcome {
            ActionOutcome::Done => Settled::Continue,
            ActionOutcome::Polled { changed } => {
                if changed {
                    if let InFlight::Poll(workflow_name) = awaited {
                        self.runtime.handle_event(RuntimeEvent::WorkflowTrigger { workflow_name });
                    }
                }
                Settled::Continue
            },
            ActionOutcome::Failed { error } => match awaited {
                InFlight::Workflow(workflow_name) => Settled::ReportWorkflow { workflow_name, error },
                InFlight::StopWatching => Settled::Continue,
                _ => Settled::Abort { error },
            },
            ActionOutcome::StartFailed { error } => match awaited {
                InFlight::Workflow(workflow_name) => if self.starting {
                    Settled::Abort { error }
                } else {
                    Settled::ReportWorkflow { workflow_name, error }
                },
                InFlight::StopWatching => Settled::Continue,
                _ => Settled::Abort { error },
            },
        }
    }
}

/// Whether an event is the start of a configuration.
pub open spec fn is_start_of(config: Config, event: RuntimeEvent) -> bool {
    event matches RuntimeEvent::Start { root_display, startup_workflows } && root_display@
        == config.root@ && texts(startup_workflows@) == texts(config.startup_workflows@)
}

/// When all processes are to be stopped watching is stopped first, and whatever comes of that the
/// processes are stopped next.
pub proof fn law_processes_are_stopped_after_watching(
    view: EngineView,
    first: RuntimeAction,
    outcome: ActionOutcome,
    second: RuntimeAction,
    settled: Settled,
)
    requires
        !view.stop_all,
        view.runtime.pending.len() > 0,
        view.runtime.pending[0] is StopAllProcesses,
        is_next_action(view, Some(first)),
        is_settled(after_action(view), outcome, settled),
        is_next_action(after_outcome(after_action(view), outcome), Some(second)),
    ensures
        first == RuntimeAction::StopWatching,
        settled == Settled::Continue,
        second == RuntimeAction::StopAllProcesses,
{
}

/// A workflow that fails does not end the loop, unless a process fails to start before watching
/// is started.
pub proof fn law_failed_workflows_do_not_end_the_loop(
    view: EngineView,
    outcome: ActionOutcome,
    settled: Settled,
)
    requires
        view.awaited is Workflow,
        !(view.starting && outcome is StartFailed),
        is_settled(view, outcome, settled),
    ensures
        !(settled is Abort),
        after_outcome(view, outcome).runtime == view.runtime,
{
}

/// A workflow in which a process fails to start ends the loop before watching is started.
pub proof fn law_failed_starts_end_the_startup(view: EngineView, error: String, settled: Settled)
    requires
        view.awaited is Workflow,
        view.starting,
        is_settled(view, ActionOutcome::StartFailed { error }, settled),
    ensures
        settled matches Settled::Abort { error: e } && e@ == error@,
{
}

/// Once watching has been started, it stays so: from then on no failed start ends the loop.
pub proof fn law_the_startup_ends_once(view: EngineView, outcome: ActionOutcome)
    requires
        !view.starting,
    ensures
        !after_action(view).starting,
        !after_outcome(view, outcome).starting,
{
}

/// A hook that was polled runs its workflow first of all if it changed the session, and not
/// otherwise.
pub proof fn law_polled_hooks_run_their_workflow(view: EngineView, workflow: Seq<char>, changed: bool)
    requires
        view.awaited == Awaited::Poll(workflow),
        view.runtime.phase == crate::runtime::RuntimePhase::Running,
    ensures
        ({
            let after = after_outcome(view, ActionOutcome::Polled { changed }).runtime;
            if changed {
                after.pending == seq![crate::runtime::plain_run(workflow)] + view.runtime.pending
            } else {
                after == view.runtime
            }
        }),
{
}

/// An action is what the effect asks for, with the names, files, values and messages of the effect.
pub proof fn law_actions_carry_what_effects_name(view: EngineView, action: RuntimeAction)
    requires
        !view.stop_all,
        view.runtime.pending.len() > 0,
        is_next_action(view, Some(action)),
    ensures
        after_action(view).runtime.pending == view.runtime.pending.skip(1),
        match view.runtime.pending[0] {
            RuntimeEffectView::RunWorkflow { workflow, files } => action matches RuntimeAction::RunWorkflow {
                workflow_name,
                changed_files,
            } && workflow_name@ == workflow && texts(changed_files@) == files && after_action(
                view,
            ).awaited == Awaited::Workflow(workflow),
            RuntimeEffectView::PollObservedHook { hook, workflow } => action
                matches RuntimeAction::PollObservedHook { hook: h } && h@ == hook && after_action(
                view,
            ).awaited == Awaited::Poll(workflow),
            RuntimeEffectView::PersistState { key, value } => action matches RuntimeAction::PersistState {
                key: k,
                value: v,
            } && k@ == key && v.json() == value,
            RuntimeEffectView::LogInfo(message) => action matches RuntimeAction::LogInfo { message: m }
                && m@ == message,
            RuntimeEffectView::StartExternalEventServer => action is StartExternalEventServer,
            RuntimeEffectView::StartBrowserReloadServer => action is StartBrowserReloadServer,
            RuntimeEffectView::StartAutostartProcesses => action is StartAutostartProcesses,
            RuntimeEffectView::StartWatching => action is StartWatching && !after_action(view).starting,
            RuntimeEffectView::MaintainProcesses => action is MaintainProcesses,
            RuntimeEffectView::StopAllProcesses => action is StopWatching && after_action(view).stop_all,
            RuntimeEffectView::Exit => action is Exit,
        },
{
}

/// The startup goes on until watching is started, and no other action ends it.
pub proof fn law_only_watching_ends_the_startup(view: EngineView)
    requires
        view.starting,
        !view.stop_all,
        view.runtime.pending.len() > 0,
    ensures
        after_action(view).starting == !(view.runtime.pending[0] is StartWatching),
{
}

/// An action that fails ends the loop with its error, unless it runs a workflow or stops watching;
/// one that is done never does.
pub proof fn law_other_failures_end_the_loop(view: EngineView, error: String, settled: Settled, changed: bool)
    ensures
        is_settled(view, ActionOutcome::Failed { error }, settled) && !(view.awaited is Workflow)
            && !(view.awaited is StopWatching) ==> (settled matches Settled::Abort { error: e } && e@
            == error@),
        is_settled(view, ActionOutcome::Failed { error }, settled) && view.awaited is Workflow ==> (
        settled matches Settled::ReportWorkflow { workflow_name, error: e } && workflow_name@
            == view.awaited->Workflow_0 && e@ == error@),
        is_settled(view, ActionOutcome::Done, settled) ==> settled is Continue,
        is_settled(view, ActionOutcome::Polled { changed }, settled) ==> settled is Continue,
        after_outcome(view, ActionOutcome::Done).runtime == view.runtime,
        after_outcome(view, ActionOutcome::Failed { error }).runtime == view.runtime,
{
}

/// The loop starts with the root and the startup workflows of its configuration, in their order.
pub proof fn law_the_loop_starts_with_its_configuration(
    config: Config,
    root_display: String,
    startup_workflows: Vec<String>,
    i: int,
)
    requires
        is_start_of(config, RuntimeEvent::Start { root_display, startup_workflows }),
    ensures
        root_display@ == config.root@,
        startup_workflows@.len() == config.startup_workflows@.len(),
        0 <= i < startup_workflows@.len() ==> startup_workflows@[i]@ == config.startup_workflows@[i]@,
{
    assert(texts(startup_workflows@).len() == texts(config.startup_workflows@).len());
    if 0 <= i < startup_workflows@.len() {
        assert(texts(startup_workflows@)[i] == texts(config.startup_workflows@)[i]);
    }
}

} // verus!
