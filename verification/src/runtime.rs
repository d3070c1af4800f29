//! The life of the supervisor: which effects follow from what happens.

use crate::config::Config;
use crate::graph::notifies;
use crate::name_map::NameMap;
use crate::supervisor::{due, is_due};
use crate::text::{copy_texts, texts};
use crate::value::{Json, SessionValue};
use std::collections::VecDeque;
use vstd::prelude::*;

verus! {

/// What the supervisor is to do.
#[derive(Debug, Clone, PartialEq, Eq)]
pub enum RuntimeEffect {
    PersistState { key: String, value: SessionValue },
    StartExternalEventServer,
    StartBrowserReloadServer,
    StartAutostartProcesses,
    RunWorkflow { workflow_name: String, changed_files: Vec<String> },
    StartWatching,
    MaintainProcesses,
    PollObservedHook { hook: String, workflow_name: String },
    LogInfo { message: String },
    StopAllProcesses,
    Exit,
}

/// What an effect says.
pub enum RuntimeEffectView {
    PersistState { key: Seq<char>, value: Json },
    StartExternalEventServer,
    StartBrowserReloadServer,
    StartAutostartProcesses,
    RunWorkflow { workflow: Seq<char>, files: Seq<Seq<char>> },
    StartWatching,
    MaintainProcesses,
    PollObservedHook { hook: Seq<char>, workflow: Seq<char> },
    LogInfo(Seq<char>),
    StopAllProcesses,
    Exit,
}

impl RuntimeEffect {
    /// What the effect says.
    pub open spec fn view(&self) -> RuntimeEffectView {
        match *self {
            RuntimeEffect::PersistState { key, value } => RuntimeEffectView::PersistState {
                key: key@,
                value: value.json(),
            },
            RuntimeEffect::StartExternalEventServer => RuntimeEffectView::StartExternalEventServer,
            RuntimeEffect::StartBrowserReloadServer => RuntimeEffectView::StartBrowserReloadServer,
            RuntimeEffect::StartAutostartProcesses => RuntimeEffectView::StartAutostartProcesses,
            RuntimeEffect::RunWorkflow {
                workflow_name,
                changed_files,
            } => RuntimeEffectView::RunWorkflow {
                workflow: workflow_name@,
                files: texts(changed_files@),
            },
            RuntimeEffect::StartWatching => RuntimeEffectView::StartWatching,
            RuntimeEffect::MaintainProcesses => RuntimeEffectView::MaintainProcesses,
            RuntimeEffect::PollObservedHook {
                hook,
                workflow_name,
            } => RuntimeEffectView::PollObservedHook { hook: hook@, workflow: workflow_name@ },
            RuntimeEffect::LogInfo { message } => RuntimeEffectView::LogInfo(message@),
            RuntimeEffect::StopAllProcesses => RuntimeEffectView::StopAllProcesses,
            RuntimeEffect::Exit => RuntimeEffectView::Exit,
        }
    }
}

/// What a queue of effects says.
pub open spec fn effects_of(effects: Seq<RuntimeEffect>) -> Seq<RuntimeEffectView> {
    Seq::new(effects.len(), |i: int| effects[i]@)
}

/// What happens to the supervisor.
#[derive(Debug, Clone, PartialEq, Eq)]
pub enum RuntimeEvent {
    Start { root_display: String, startup_workflows: Vec<String> },
    WatchChanges { workflows: NameMap<Vec<String>> },
    MaintainTick { now_ms: u64 },
    ObservedHookChanged { workflow_name: String },
    WorkflowTrigger { workflow_name: String },
    CtrlC,
}

/// Where the supervisor is in its life.
#[derive(Debug, Clone, Copy, PartialEq, Eq, Structural)]
pub enum RuntimePhase {
    Initializing,
    Running,
    Stopped,
}

/// A hook that is polled.
pub struct Observed {
    pub hook: Seq<char>,
    pub workflow: Seq<char>,
    pub interval_ms: u64,
    pub last_polled_ms: Option<u64>,
}

/// What is known of the supervisor.
pub struct RuntimeView {
    pub phase: RuntimePhase,
    pub pending: Seq<RuntimeEffectView>,
    pub observed: Seq<Observed>,
    pub takes_events: bool,
    pub notifies_browsers: bool,
}

/// The first `n` hooks that are observed, in the order of their names, none of them polled yet.
pub open spec fn first_observed(config: Config, n: nat) -> Seq<Observed>
    decreases n,
{
    if n == 0 {
        Seq::empty()
    } else {
        let before = first_observed(config, (n - 1) as nat);
        match config.hook.values()[n - 1].observe {
            Some(observe) => before.push(
                Observed {
                    hook: config.hook.keys()[n - 1],
                    workflow: observe.workflow@,
                    interval_ms: observe.interval_ms,
                    last_polled_ms: None,
                },
            ),
            None => before,
        }
    }
}

/// The supervisor before anything has happened.
pub open spec fn initial(config: Config) -> RuntimeView {
    RuntimeView {
        phase: RuntimePhase::Initializing,
        pending: Seq::empty(),
        observed: first_observed(config, config.hook.keys().len()),
        takes_events: config.event@ != Map::<Seq<char>, crate::config::EventSpec>::empty(),
        notifies_browsers: exists|name: Seq<char>| #[trigger]
            config.workflow@.contains_key(name) && notifies(config.workflow@[name]),
    }
}

/// The effect that runs a workflow which no change of a file has set off.
pub open spec fn plain_run(workflow: Seq<char>) -> RuntimeEffectView {
    RuntimeEffectView::RunWorkflow { workflow, files: Seq::empty() }
}

/// The effects of a start: the root is recorded, the servers that are needed and the processes
/// that start by themselves are started, the startup workflows run, and watching begins.
pub open spec fn start_effects(
    state: RuntimeView,
    root: Seq<char>,
    startup: Seq<Seq<char>>,
) -> Seq<RuntimeEffectView> {
    seq![RuntimeEffectView::PersistState { key: "root"@, value: Json::Text(root) }] + (
    if state.takes_events {
        seq![RuntimeEffectView::StartExternalEventServer]
    } else {
        Seq::empty()
    }) + (if state.notifies_browsers {
        seq![RuntimeEffectView::StartBrowserReloadServer]
    } else {
        Seq::empty()
    }) + seq![RuntimeEffectView::StartAutostartProcesses] + Seq::new(
        startup.len(),
        |i: int| plain_run(startup[i]),
    ) + seq![RuntimeEffectView::StartWatching]
}

/// The effects that run the workflows of a change, in the order of their names.
pub open spec fn change_effects(workflows: NameMap<Vec<String>>) -> Seq<RuntimeEffectView> {
    Seq::new(
        workflows.keys().len(),
        |i: int|
            RuntimeEffectView::RunWorkflow {
                workflow: workflows.keys()[i],
                files: texts(workflows.values()[i]@),
            },
    )
}

/// Whether an observed hook is to be polled.
pub open spec fn poll_is_due(observed: Observed, now_ms: u64) -> bool {
    is_due(observed.last_polled_ms, observed.interval_ms, now_ms)
}

/// The effects that poll the observed hooks that are due.
pub open spec fn poll_effects(observed: Seq<Observed>, now_ms: u64) -> Seq<RuntimeEffectView>
    decreases observed.len(),
{
    if observed.len() == 0 {
        Seq::empty()
    } else {
        let before = poll_effects(observed.drop_last(), now_ms);
        if poll_is_due(observed.last(), now_ms) {
            before.push(
                RuntimeEffectView::PollObservedHook {
                    hook: observed.last().hook,
                    workflow: observed.last().workflow,
                },
            )
        } else {
            before
        }
    }
}

/// The observed hooks after those that are due have been polled.
pub open spec fn after_polls(observed: Seq<Observed>, now_ms: u64) -> Seq<Observed> {
    Seq::new(
        observed.len(),
        |i: int|
            if poll_is_due(observed[i], now_ms) {
                Observed { last_polled_ms: Some(now_ms), ..observed[i] }
            } else {
                observed[i]
            },
    )
}

/// The effects of a shutdown.
pub open spec fn shutdown_effects() -> Seq<RuntimeEffectView> {
    seq![
        RuntimeEffectView::LogInfo("received ctrl-c, shutting down"@),
        RuntimeEffectView::StopAllProcesses,
        RuntimeEffectView::Exit,
    ]
}

/// What is known of the supervisor after something has happened.
pub open spec fn after_event(state: RuntimeView, event: RuntimeEvent) -> RuntimeView {
    match event {
        RuntimeEvent::Start {
            root_display,
            startup_workflows,
        } => if state.phase == RuntimePhase::Initializing {
            RuntimeView {
                phase: RuntimePhase::Running,
                pending: state.pending + start_effects(
                    state,
                    root_display@,
                    texts(startup_workflows@),
                ),
                ..state
            }
        } else {
            state
        },
        RuntimeEvent::WatchChanges { workflows } => if state.phase == RuntimePhase::Running {
            RuntimeView { pending: state.pending + change_effects(workflows), ..state }
        } else {
            state
        },
        RuntimeEvent::MaintainTick { now_ms } => if state.phase == RuntimePhase::Running {
            RuntimeView {
                pending: state.pending + seq![RuntimeEffectView::MaintainProcesses] + poll_effects(
                    state.observed,
                    now_ms,
                ),
                observed: after_polls(state.observed, now_ms),
                ..state
            }
        } else {
            state
        },
        RuntimeEvent::ObservedHookChanged { workflow_name } => after_trigger(state, workflow_name@),
        RuntimeEvent::WorkflowTrigger { workflow_name } => after_trigger(state, workflow_name@),
        RuntimeEvent::CtrlC => if state.phase == RuntimePhase::Stopped {
            state
        } else {
            RuntimeView {
                phase: RuntimePhase::Stopped,
                pending: state.pending + shutdown_effects(),
                ..state
            }
        },
    }
}

/// What is known of a supervisor after something has asked for a workflow: it runs before all
/// else that is pending.
pub open spec fn after_trigger(state: RuntimeView, workflow: Seq<char>) -> RuntimeView {
    if state.phase == RuntimePhase::Running {
        RuntimeView { pending: seq![plain_run(workflow)] + state.pending, ..state }
    } else {
        state
    }
}

/// A hook that is polled.
#[derive(Debug, Clone)]
struct ObservedHookRuntimeState {
    hook: String,
    workflow_name: String,
    interval_ms: u64,
    last_polled_ms: Option<u64>,
}

impl ObservedHookRuntimeState {
    spec fn view(&self) -> Observed {
        Observed {
            hook: self.hook@,
            workflow: self.workflow_name@,
            interval_ms: self.interval_ms,
            last_polled_ms: self.last_polled_ms,
        }
    }
}

spec fn observed_of(list: Seq<ObservedHookRuntimeState>) -> Seq<Observed> {
    Seq::new(list.len(), |i: int| list[i]@)
}

/// The supervisor's own state.
#[derive(Debug, Clone)]
pub struct RuntimeMachine {
    phase: RuntimePhase,
    pending_effects: VecDeque<RuntimeEffect>,
    observed_hooks: Vec<ObservedHookRuntimeState>,
    takes_events: bool,
    notifies_browsers: bool,
}

impl RuntimeMachine {
    /// What is known of the supervisor.
    pub closed spec fn view(&self) -> RuntimeView {
        RuntimeView {
            phase: self.phase,
            pending: effects_of(self.pending_effects@),
            observed: observed_of(self.observed_hooks@),
            takes_events: self.takes_events,
            notifies_browsers: self.notifies_browsers,
        }
    }

    /// The supervisor before anything has happened.
    pub fn new(config: &Config) -> (machine: Self)
        ensures
            machine@ == initial(*config),
    {
        let mut observed_hooks: Vec<ObservedHookRuntimeState> = Vec::new();
        let n: usize = config.hook.len();
        let mut i: usize = 0;
        assert(observed_of(observed_hooks@) =~= first_observed(*config, 0));
        while i < n
            invariant
                i <= n == config.hook.keys().len(),
                observed_of(observed_hooks@) == first_observed(*config, i as nat),
            decreases n - i,
        {
            if let Some(observe) = &config.hook.value_at(i).observe {
                let ghost before = observed_hooks@;
                observed_hooks.push(
                    ObservedHookRuntimeState {
                        hook: config.hook.key_at(i).clone(),
                        workflow_name: observe.workflow.clone(),
                        interval_ms: observe.interval_ms,
                        last_polled_ms: None,
                    },
                );
                assert(observed_of(observed_hooks@) =~= observed_of(before).push(
                    observed_hooks@[before.len() as int]@,
                ));
            }
            i = i + 1;
        }
        let machine = RuntimeMachine {
            phase: RuntimePhase::Initializing,
            pending_effects: VecDeque::new(),
            observed_hooks,
            takes_events: config.has_external_events(),
            notifies_browsers: config.has_browser_reload_notifications(),
        };
        assert(machine@.pending =~= Seq::empty());
        machine
    }

    fn push(&mut self, effect: RuntimeEffect)
        ensures
            final(self)@ == (RuntimeView { pending: old(self)@.pending.push(effect@), ..old(self)@ }),
            final(self).observed_hooks == old(self).observed_hooks,
    {
        let ghost before = self.pending_effects@;
        self.pending_effects.push_back(effect);
        assert(effects_of(self.pending_effects@) =~= effects_of(before).push(effect@));
    }

    fn push_run(&mut self, workflow_name: &str, changed_files: &Vec<String>)
        ensures
            final(self)@ == (RuntimeView {
                pending: old(self)@.pending.push(
                    RuntimeEffectView::RunWorkflow {
                        workflow: workflow_name@,
                        files: texts(changed_files@),
                    },
                ),
                ..old(self)@
            }),
    {
        self.push(
            RuntimeEffect::RunWorkflow {
                workflow_name: workflow_name.to_owned(),
                changed_files: copy_texts(changed_files),
            },
        );
    }

    fn run_first(&mut self, workflow_name: String)
        ensures
            final(self)@ == after_trigger(old(self)@, workflow_name@),
    {
        if self.phase != RuntimePhase::Running {
            return;
        }
        let ghost before = self.pending_effects@;
        let changed_files: Vec<String> = Vec::new();
        assert(texts(changed_files@) =~= Seq::empty());
        self.pending_effects.push_front(RuntimeEffect::RunWorkflow { workflow_name, changed_files });
        assert(effects_of(self.pending_effects@) =~= seq![plain_run(workflow_name@)] + effects_of(
            before,
        ));
    }

    fn start(&mut self, root_display: String, startup_workflows: &Vec<String>)
        requires
            old(self)@.phase == RuntimePhase::Initializing,
        ensures
            final(self)@ == (RuntimeView {
                phase: RuntimePhase::Running,
                pending: old(self)@.pending + start_effects(
                    old(self)@,
                    root_display@,
                    texts(startup_workflows@),
                ),
                ..old(self)@
            }),
    {
        let ghost state = self@;
        let ghost startup = texts(startup_workflows@);
        self.push(
            RuntimeEffect::PersistState {
                key: "root".to_owned(),
                value: SessionValue::String(root_display),
            },
        );
        if self.takes_events {
            self.push(RuntimeEffect::StartExternalEventServer);
        }
        if self.notifies_browsers {
            self.push(RuntimeEffect::StartBrowserReloadServer);
        }
        self.push(RuntimeEffect::StartAutostartProcesses);
        let ghost begun = self@;
        let none: Vec<String> = Vec::new();
        assert(texts(none@) =~= Seq::empty());
        let mut i: usize = 0;
        assert(begun.pending + Seq::new(0, |k: int| plain_run(startup[k])) =~= begun.pending);
        while i < startup_workflows.len()
            invariant
                i <= startup_workflows@.len(),
                startup == texts(startup_workflows@),
                texts(none@) == Seq::<Seq<char>>::empty(),
                self@ == (RuntimeView {
                    pending: begun.pending + Seq::new(i as nat, |k: int| plain_run(startup[k])),
                    ..begun
                }),
            decreases startup_workflows@.len() - i,
        {
            self.push_run(startup_workflows[i].as_str(), &none);
            assert(self@.pending =~= begun.pending + Seq::new(
                (i + 1) as nat,
                |k: int| plain_run(startup[k]),
            ));
            i = i + 1;
        }
        self.push(RuntimeEffect::StartWatching);
        self.phase = RuntimePhase::Running;
        assert(self@.pending =~= state.pending + start_effects(state, root_display@, startup));
    }

    fn run_changed(&mut self, workflows: &NameMap<Vec<String>>)
        ensures
            final(self)@ == (RuntimeView {
                pending: old(self)@.pending + change_effects(*workflows),
                ..old(self)@
            }),
    {
        let ghost state = self@;
        let ghost all = change_effects(*workflows);
        let n: usize = workflows.len();
        let mut i: usize = 0;
        assert(state.pending + all.take(0) =~= state.pending);
        while i < n
            invariant
                i <= n == workflows.keys().len(),
                all == change_effects(*workflows),
                self@ == (RuntimeView { pending: state.pending + all.take(i as int), ..state }),
            decreases n - i,
        {
            self.push_run(workflows.key_at(i).as_str(), workflows.value_at(i));
            assert(self@.pending =~= state.pending + all.take(i + 1));
            i = i + 1;
        }
        assert(all.take(n as int) =~= all);
    }

    fn poll_due(&mut self, now_ms: u64)
        ensures
            final(self)@ == (RuntimeView {
                pending: old(self)@.pending + poll_effects(old(self)@.observed, now_ms),
                observed: after_polls(old(self)@.observed, now_ms),
                ..old(self)@
            }),
    {
        let ghost state = self@;
        let mut i: usize = 0;
        let n: usize = self.observed_hooks.len();
        assert(state.pending + poll_effects(state.observed.take(0), now_ms) =~= state.pending);
        while i < n
            invariant
                i <= n == self.observed_hooks@.len() == state.observed.len(),
                self@ == (RuntimeView {
                    pending: state.pending + poll_effects(state.observed.take(i as int), now_ms),
                    observed: self@.observed,
                    ..state
                }),
                forall|k: int| i <= k < n ==> #[trigger] self@.observed[k] == state.observed[k],
                forall|k: int|
                    0 <= k < i ==> #[trigger] self@.observed[k] == after_polls(state.observed, now_ms)[k],
            decreases n - i,
        {
            proof {
                let part = state.observed.take(i + 1);
                assert(part.drop_last() =~= state.observed.take(i as int));
                assert(part.last() == state.observed[i as int]);
                assert(self@.observed[i as int] == state.observed[i as int]);
            }
            if due(
                self.observed_hooks[i].last_polled_ms,
                self.observed_hooks[i].interval_ms,
                now_ms,
            ) {
                let ghost before = self@.observed;
                let polled = ObservedHookRuntimeState {
                    hook: self.observed_hooks[i].hook.clone(),
                    workflow_name: self.observed_hooks[i].workflow_name.clone(),
                    interval_ms: self.observed_hooks[i].interval_ms,
                    last_polled_ms: Some(now_ms),
                };
                let hook = self.observed_hooks[i].hook.clone();
                let workflow_name = self.observed_hooks[i].workflow_name.clone();
                self.observed_hooks.set(i, polled);
                assert(self@.observed =~= before.update(i as int, polled@));
                self.push(RuntimeEffect::PollObservedHook { hook, workflow_name });
                assert(self@.pending =~= state.pending + poll_effects(
                    state.observed.take(i + 1),
                    now_ms,
                ));
            }
            i = i + 1;
        }
        assert(state.observed.take(n as int) =~= state.observed);
        assert(self@.observed =~= after_polls(state.observed, now_ms));
    }

    /// Takes in what has happened.
    pub fn handle_event(&mut self, event: RuntimeEvent)
        ensures
            final(self)@ == after_event(old(self)@, event),
    {
        let ghost state = self@;
        match event {
            RuntimeEvent::Start { root_display, startup_workflows } => {
                if self.phase == RuntimePhase::Initializing {
                    self.start(root_display, &startup_workflows);
                }
            },
            RuntimeEvent::WatchChanges { workflows } => {
                if self.phase == RuntimePhase::Running {
                    self.run_changed(&workflows);
                }
            },
            RuntimeEvent::MaintainTick { now_ms } => {
                if self.phase == RuntimePhase::Running {
                    self.push(RuntimeEffect::MaintainProcesses);
                    self.poll_due(now_ms);
                    assert(self@.pending =~= state.pending + seq![RuntimeEffectView::MaintainProcesses]
                        + poll_effects(state.observed, now_ms));
                }
            },
            RuntimeEvent::ObservedHookChanged { workflow_name } => {
                self.run_first(workflow_name);
            },
            RuntimeEvent::WorkflowTrigger { workflow_name } => {
                self.run_first(workflow_name);
            },
            RuntimeEvent::CtrlC => {
                if self.phase != RuntimePhase::Stopped {
                    self.push(
                        RuntimeEffect::LogInfo {
                            message: "received ctrl-c, shutting down".to_owned(),
                        },
                    );
                    self.push(RuntimeEffect::StopAllProcesses);
                    self.push(RuntimeEffect::Exit);
                    self.phase = RuntimePhase::Stopped;
                    assert(self@.pending =~= state.pending + shutdown_effects());
                }
            },
        }
    }

    /// Takes the next effect from the queue.
    pub fn next_effect(&mut self) -> (effect: Option<RuntimeEffect>)
        ensures
            match effect {
                Some(effect) => {
                    &&& old(self)@.pending.len() > 0
                    &&& effect@ == old(self)@.pending[0]
                    &&& final(self)@ == (RuntimeView {
                        pending: old(self)@.pending.skip(1),
                        ..old(self)@
                    })
                },
                None => old(self)@.pending.len() == 0 && final(self)@ == old(self)@,
            },
    {
        let ghost before = self.pending_effects@;
        let effect = self.pending_effects.pop_front();
        proof {
            if effect is Some {
                assert(effects_of(self.pending_effects@) =~= effects_of(before).skip(1));
            }
        }
        effect
    }
}

/// A supervisor that has stopped takes nothing in any more.
pub proof fn law_stopped_takes_nothing_in(state: RuntimeView, event: RuntimeEvent)
    requires
        state.phase == RuntimePhase::Stopped,
    ensures
        after_event(state, event) == state,
{
}

/// A supervisor that has not started takes in a start or a shutdown, and nothing else.
pub proof fn law_nothing_runs_before_the_start(state: RuntimeView, event: RuntimeEvent)
    requires
        state.phase == RuntimePhase::Initializing,
        !(event is Start),
        !(event is CtrlC),
    ensures
        after_event(state, event) == state,
{
}

/// A start is taken in once.
pub proof fn law_start_is_taken_in_once(state: RuntimeView, first: RuntimeEvent, second: RuntimeEvent)
    requires
        first is Start,
        second is Start,
    ensures
        after_event(after_event(state, first), second) == after_event(state, first),
{
}

/// Whatever happens, the effects that were pending stay, in their order, behind at most one
/// workflow that was asked for.
pub proof fn law_pending_effects_stay(state: RuntimeView, event: RuntimeEvent)
    ensures
        ({
            let after = after_event(state, event).pending;
            let n = state.pending.len() as int;
            ||| after.len() >= n && after.take(n) == state.pending
            ||| after.len() == n + 1 && after.skip(1) == state.pending
        }),
{
    let after = after_event(state, event).pending;
    let n = state.pending.len() as int;
    if event is ObservedHookChanged || event is WorkflowTrigger {
        if state.phase == RuntimePhase::Running {
            assert(after.skip(1) =~= state.pending);
        } else {
            assert(after.take(n) =~= state.pending);
        }
    } else {
        assert(after.take(n) =~= state.pending);
    }
}

/// A hook that is polled at one tick is not polled at a later tick before its interval has gone
/// by.
pub proof fn law_polls_keep_their_interval(observed: Seq<Observed>, i: int, first_ms: u64, second_ms: u64)
    requires
        0 <= i < observed.len(),
        poll_is_due(observed[i], first_ms),
        first_ms <= second_ms < first_ms + observed[i].interval_ms,
    ensures
        !poll_is_due(after_polls(observed, first_ms)[i], second_ms),
{
}

/// A start records the root first, starts the servers that are needed and then the processes that
/// start by themselves, runs the startup workflows in their order, and begins to watch last.
pub proof fn law_the_startup_goes_in_order(
    state: RuntimeView,
    root_display: String,
    startup_workflows: Vec<String>,
)
    requires
        state.phase == RuntimePhase::Initializing,
    ensures
        ({
            let after = after_event(state, RuntimeEvent::Start { root_display, startup_workflows });
            let before = state.pending.len() as int;
            let n = startup_workflows@.len() as int;
            let all = after.pending;
            let last = all.len() - 1;
            let events = if state.takes_events {
                1int
            } else {
                0int
            };
            let reloads = if state.notifies_browsers {
                1int
            } else {
                0int
            };
            &&& after.phase == RuntimePhase::Running
            &&& after.observed == state.observed
            &&& all.len() == before + 3 + events + reloads + n
            &&& all.take(before) == state.pending
            &&& all[before] == RuntimeEffectView::PersistState {
                key: "root"@,
                value: Json::Text(root_display@),
            }
            &&& state.takes_events ==> all[before + 1] is StartExternalEventServer
            &&& state.notifies_browsers ==> all[before + 1 + events] is StartBrowserReloadServer
            &&& all[before + 1 + events + reloads] is StartAutostartProcesses
            &&& forall|i: int|
                0 <= i < n ==> #[trigger] all[last - n + i] == (RuntimeEffectView::RunWorkflow {
                    workflow: startup_workflows@[i]@,
                    files: Seq::empty(),
                })
            &&& all[last] is StartWatching
        }),
{
    let after = after_event(state, RuntimeEvent::Start { root_display, startup_workflows });
    assert(after.pending.take(state.pending.len() as int) =~= state.pending);
    let n = startup_workflows@.len() as int;
    let last = after.pending.len() - 1;
    assert forall|i: int| 0 <= i < n implies #[trigger] after.pending[last - n + i] == (
    RuntimeEffectView::RunWorkflow { workflow: startup_workflows@[i]@, files: Seq::empty() }) by {
        assert(texts(startup_workflows@)[i] == startup_workflows@[i]@);
    }
}

/// A change of files runs each of the workflows that it sets off, with the files that did, behind
/// what is pending and in the order of their names.
pub proof fn law_changes_run_what_they_set_off(state: RuntimeView, workflows: NameMap<Vec<String>>, i: int)
    requires
        state.phase == RuntimePhase::Running,
        0 <= i < workflows.keys().len(),
    ensures
        ({
            let after = after_event(state, RuntimeEvent::WatchChanges { workflows });
            &&& after.pending.len() == state.pending.len() + workflows.keys().len()
            &&& after.pending.take(state.pending.len() as int) == state.pending
            &&& after.pending[state.pending.len() + i] == (RuntimeEffectView::RunWorkflow {
                workflow: workflows.keys()[i],
                files: texts(workflows.values()[i]@),
            })
            &&& after.phase == RuntimePhase::Running && after.observed == state.observed
        }),
{
    let after = after_event(state, RuntimeEvent::WatchChanges { workflows });
    assert(after.pending.take(state.pending.len() as int) =~= state.pending);
}

/// Whether an observed hook is due: it has not been polled, or its interval has gone by.
spec fn is_poll_due(observed: Observed, now_ms: u64) -> bool {
    match observed.last_polled_ms {
        None => true,
        Some(last) => observed.interval_ms == 0 || last + observed.interval_ms <= now_ms,
    }
}

proof fn lemma_poll_effects(observed: Seq<Observed>, now_ms: u64, hook: Seq<char>, workflow: Seq<char>)
    ensures
        poll_effects(observed, now_ms).contains(RuntimeEffectView::PollObservedHook { hook, workflow })
            <==> exists|i: int|
            0 <= i < observed.len() && (#[trigger] observed[i]).hook == hook && observed[i].workflow
                == workflow && is_poll_due(observed[i], now_ms),
        forall|k: int|
            0 <= k < poll_effects(observed, now_ms).len() ==> #[trigger] poll_effects(
                observed,
                now_ms,
            )[k] is PollObservedHook,
    decreases observed.len(),
{
    let poll = RuntimeEffectView::PollObservedHook { hook, workflow };
    let all = poll_effects(observed, now_ms);
    if observed.len() > 0 {
        let part = observed.drop_last();
        let before = poll_effects(part, now_ms);
        lemma_poll_effects(part, now_ms, hook, workflow);
        let n = observed.len() - 1;
        assert(poll_is_due(observed[n], now_ms) == is_poll_due(observed[n], now_ms));
        if before.contains(poll) {
            assert(all[before.index_of(poll)] == poll);
            let i = choose|i: int|
                0 <= i < part.len() && (#[trigger] part[i]).hook == hook && part[i].workflow
                    == workflow && is_poll_due(part[i], now_ms);
            assert(observed[i] == part[i]);
        }
        if observed[n].hook == hook && observed[n].workflow == workflow && is_poll_due(
            observed[n],
            now_ms,
        ) {
            assert(all[all.len() - 1] == poll);
        }
        if all.contains(poll) && !before.contains(poll) {
            let k = all.index_of(poll);
            if k < before.len() {
                assert(before[k] == poll);
            }
            assert(observed[n].hook == hook && observed[n].workflow == workflow && is_poll_due(
                observed[n],
                now_ms,
            ));
        }
        if exists|i: int|
            0 <= i < observed.len() && (#[trigger] observed[i]).hook == hook && observed[i].workflow
                == workflow && is_poll_due(observed[i], now_ms) {
            let i = choose|i: int|
                0 <= i < observed.len() && (#[trigger] observed[i]).hook == hook
                    && observed[i].workflow == workflow && is_poll_due(observed[i], now_ms);
            if i < n {
                assert(part[i] == observed[i]);
            }
        }
    }
}

/// A tick asks for maintenance, and then polls exactly the observed hooks that have not been polled
/// yet or whose interval has gone by; these count as polled now, and the others as before.
pub proof fn law_ticks_poll_what_is_due(
    state: RuntimeView,
    now_ms: u64,
    hook: Seq<char>,
    workflow: Seq<char>,
    i: int,
)
    requires
        state.phase == RuntimePhase::Running,
    ensures
        ({
            let after = after_event(state, RuntimeEvent::MaintainTick { now_ms });
            let n = state.pending.len() as int;
            &&& after.pending.len() > n
            &&& after.pending.take(n) == state.pending
            &&& after.pending[n] is MaintainProcesses
            &&& after.pending.skip(n + 1).contains(
                RuntimeEffectView::PollObservedHook { hook, workflow },
            ) <==> exists|k: int|
                0 <= k < state.observed.len() && (#[trigger] state.observed[k]).hook == hook
                    && state.observed[k].workflow == workflow
                    && match state.observed[k].last_polled_ms {
                    None => true,
                    Some(last) => state.observed[k].interval_ms == 0 || last
                        + state.observed[k].interval_ms <= now_ms,
                }
            &&& forall|k: int|
                n < k < after.pending.len() ==> #[trigger] after.pending[k] is PollObservedHook
            &&& 0 <= i < state.observed.len() ==> after.observed[i].hook == state.observed[i].hook
                && after.observed[i].workflow == state.observed[i].workflow
                && after.observed[i].interval_ms == state.observed[i].interval_ms
                && after.observed[i].last_polled_ms == match state.observed[i].last_polled_ms {
                None => Some(now_ms),
                Some(last) => if state.observed[i].interval_ms == 0 || last
                    + state.observed[i].interval_ms <= now_ms {
                    Some(now_ms)
                } else {
                    Some(last)
                },
            }
        }),
{
    let after = after_event(state, RuntimeEvent::MaintainTick { now_ms });
    let n = state.pending.len() as int;
    let polls = poll_effects(state.observed, now_ms);
    lemma_poll_effects(state.observed, now_ms, hook, workflow);
    assert(after.pending.take(n) =~= state.pending);
    assert(after.pending.skip(n + 1) =~= polls);
    assert forall|k: int| n < k < after.pending.len() implies #[trigger] after.pending[k]
        is PollObservedHook by {
        assert(after.pending[k] == polls[k - n - 1]);
    }
    let poll = RuntimeEffectView::PollObservedHook { hook, workflow };
    if polls.contains(poll) {
        let k = choose|k: int|
            0 <= k < state.observed.len() && (#[trigger] state.observed[k]).hook == hook
                && state.observed[k].workflow == workflow && is_poll_due(state.observed[k], now_ms);
        assert(state.observed[k].hook == hook);
    }
    if exists|k: int|
        0 <= k < state.observed.len() && (#[trigger] state.observed[k]).hook == hook
            && state.observed[k].workflow == workflow && match state.observed[k].last_polled_ms {
            None => true,
            Some(last) => state.observed[k].interval_ms == 0 || last + state.observed[k].interval_ms
                <= now_ms,
        } {
        let k = choose|k: int|
            0 <= k < state.observed.len() && (#[trigger] state.observed[k]).hook == hook
                && state.observed[k].workflow == workflow && match state.observed[k].last_polled_ms {
                None => true,
                Some(last) => state.observed[k].interval_ms == 0 || last
                    + state.observed[k].interval_ms <= now_ms,
            };
        assert(is_poll_due(state.observed[k], now_ms));
    }
}

/// A supervisor that is asked to stop says so, stops all processes and exits, behind what is
/// pending; and it takes nothing in from then on.
pub proof fn law_a_shutdown_stops_everything(state: RuntimeView)
    requires
        state.phase != RuntimePhase::Stopped,
    ensures
        ({
            let after = after_event(state, RuntimeEvent::CtrlC);
            &&& after.phase == RuntimePhase::Stopped
            &&& after.pending == state.pending + seq![
                RuntimeEffectView::LogInfo("received ctrl-c, shutting down"@),
                RuntimeEffectView::StopAllProcesses,
                RuntimeEffectView::Exit,
            ]
        }),
{
}

/// A workflow that is asked for while the supervisor runs is run before all that is pending,
/// without changed files.
pub proof fn law_triggered_workflows_run_first(state: RuntimeView, workflow_name: String)
    requires
        state.phase == RuntimePhase::Running,
    ensures
        after_event(state, RuntimeEvent::WorkflowTrigger { workflow_name }).pending == seq![
            RuntimeEffectView::RunWorkflow { workflow: workflow_name@, files: Seq::empty() },
        ] + state.pending,
        after_event(state, RuntimeEvent::ObservedHookChanged { workflow_name }) == after_event(
            state,
            RuntimeEvent::WorkflowTrigger { workflow_name },
        ),
{
}

/// The hooks that are polled are those that the configuration has observed, each with its workflow
/// and its interval; none has been polled when the supervisor begins.
pub proof fn law_observed_hooks_are_those_of_the_configuration(config: Config, observed: Observed)
    ensures
        initial(config).observed.contains(observed) <==> exists|i: int|
            0 <= i < config.hook.keys().len() && (#[trigger] config.hook.values()[i]).observe is Some
                && observed == (Observed {
                hook: config.hook.keys()[i],
                workflow: config.hook.values()[i].observe->0.workflow@,
                interval_ms: config.hook.values()[i].observe->0.interval_ms,
                last_polled_ms: None,
            }),
        initial(config).phase == RuntimePhase::Initializing,
        initial(config).pending.len() == 0,
{
    lemma_first_observed(config, config.hook.keys().len(), observed);
}

spec fn is_observed_at(config: Config, i: int, observed: Observed) -> bool {
    config.hook.values()[i].observe is Some && observed == (Observed {
        hook: config.hook.keys()[i],
        workflow: config.hook.values()[i].observe->0.workflow@,
        interval_ms: config.hook.values()[i].observe->0.interval_ms,
        last_polled_ms: None,
    })
}

proof fn lemma_first_observed(config: Config, n: nat, observed: Observed)
    ensures
        first_observed(config, n).contains(observed) <==> exists|i: int|
            0 <= i < n && (#[trigger] config.hook.values()[i]).observe is Some && is_observed_at(
                config,
                i,
                observed,
            ),
    decreases n,
{
    let all = first_observed(config, n);
    if n > 0 {
        let before = first_observed(config, (n - 1) as nat);
        lemma_first_observed(config, (n - 1) as nat, observed);
        let last = n - 1;
        if before.contains(observed) {
            assert(all[before.index_of(observed)] == observed);
        }
        if is_observed_at(config, last, observed) {
            assert(all[all.len() - 1] == observed);
        }
        if all.contains(observed) && !before.contains(observed) {
            let k = all.index_of(observed);
            if k < before.len() {
                assert(before[k] == observed);
            }
            assert(is_observed_at(config, last, observed));
        }
    }
}

/// The server for events is started where an event is configured, and the server for browser reloads
/// where a step of some workflow notifies browsers.
pub proof fn law_servers_run_where_they_are_needed(config: Config, name: Seq<char>, i: int)
    ensures
        config.event@.contains_key(name) ==> initial(config).takes_events,
        initial(config).takes_events ==> exists|event: Seq<char>| #[trigger]
            config.event@.contains_key(event),
        config.workflow@.contains_key(name) && 0 <= i < config.workflow@[name].steps@.len()
            && config.workflow@[name].steps@[i] is NotifyReload ==> initial(config).notifies_browsers,
        initial(config).notifies_browsers ==> exists|workflow: Seq<char>, k: int|
            config.workflow@.contains_key(workflow) && 0 <= k < config.workflow@[workflow].steps@.len()
                && #[trigger] config.workflow@[workflow].steps@[k] is NotifyReload,
        initial(config).pending.len() == 0,
        initial(config).phase is Initializing,
{
    if !(exists|event: Seq<char>| #[trigger] config.event@.contains_key(event)) {
        assert(config.event@ =~= Map::<Seq<char>, crate::config::EventSpec>::empty());
    }
    if config.workflow@.contains_key(name) && 0 <= i < config.workflow@[name].steps@.len()
        && config.workflow@[name].steps@[i] is NotifyReload {
        assert(notifies(config.workflow@[name]));
    }
    if initial(config).notifies_browsers {
        let workflow = choose|workflow: Seq<char>| #[trigger]
            config.workflow@.contains_key(workflow) && notifies(config.workflow@[workflow]);
        let k = choose|k: int|
            0 <= k < config.workflow@[workflow].steps@.len()
                && #[trigger] config.workflow@[workflow].steps@[k] is NotifyReload;
        assert(config.workflow@[workflow].steps@[k] is NotifyReload);
    }
}

} // verus!
