//! Which processes are to be started, restarted, stopped and checked.

use crate::config::{Config, ProbeSpec, RestartPolicy};
use crate::name_map::{
    lemma_ascending_unique, lemma_picked_contains, lemma_picked_next, picked, NameMap,
};
use vstd::prelude::*;

verus! {

/// What is to be done with a process.
#[derive(Debug, Clone, PartialEq, Eq)]
pub enum ProcessEffect {
    StartProcess { process: String },
    RestartProcess { process: String },
    StopProcess { process: String },
    CheckLiveness { process: String },
}

/// What an effect says.
pub enum ProcessEffectView {
    Start(Seq<char>),
    Restart(Seq<char>),
    Stop(Seq<char>),
    CheckLiveness(Seq<char>),
}

impl ProcessEffect {
    /// What the effect says.
    pub open spec fn view(&self) -> ProcessEffectView {
        match *self {
            ProcessEffect::StartProcess { process } => ProcessEffectView::Start(process@),
            ProcessEffect::RestartProcess { process } => ProcessEffectView::Restart(process@),
            ProcessEffect::StopProcess { process } => ProcessEffectView::Stop(process@),
            ProcessEffect::CheckLiveness { process } => ProcessEffectView::CheckLiveness(process@),
        }
    }
}

/// What a list of effects says.
pub open spec fn effects_of(effects: Seq<ProcessEffect>) -> Seq<ProcessEffectView> {
    Seq::new(effects.len(), |i: int| effects[i]@)
}

/// The effect `ProcessEffectView::Start` on each of the names.
pub open spec fn start_each(names: Seq<Seq<char>>) -> Seq<ProcessEffectView> {
    Seq::new(names.len(), |i: int| ProcessEffectView::Start(names[i]))
}

/// The effect `ProcessEffectView::Stop` on each of the names.
pub open spec fn stop_each(names: Seq<Seq<char>>) -> Seq<ProcessEffectView> {
    Seq::new(names.len(), |i: int| ProcessEffectView::Stop(names[i]))
}

/// The effect `ProcessEffectView::CheckLiveness` on each of the names.
pub open spec fn check_each(names: Seq<Seq<char>>) -> Seq<ProcessEffectView> {
    Seq::new(names.len(), |i: int| ProcessEffectView::CheckLiveness(names[i]))
}

/// What is known of a process.
#[derive(Debug, Clone, Copy, PartialEq, Eq)]
pub struct ProcessRuntimeState {
    pub running: bool,
    pub last_liveness_check_ms: Option<u64>,
}

/// Whether the time `interval_ms` has gone by at `now_ms` since `last_ms`, or there was no last
/// time.
pub open spec fn is_due(last_ms: Option<u64>, interval_ms: u64, now_ms: u64) -> bool {
    match last_ms {
        None => true,
        Some(last) => if last <= now_ms {
            now_ms - last >= interval_ms
        } else {
            interval_ms == 0
        },
    }
}

/// Whether the time `interval_ms` has gone by at `now_ms` since `last_ms`.
pub fn due(last_ms: Option<u64>, interval_ms: u64, now_ms: u64) -> (result: bool)
    ensures
        result == is_due(last_ms, interval_ms, now_ms),
{
    match last_ms {
        None => true,
        Some(last) => now_ms.saturating_sub(last) >= interval_ms,
    }
}

/// Whether a process that has exited is started again.
pub open spec fn restarts(policy: RestartPolicy, success: bool, shutting_down: bool) -> bool {
    !shutting_down && match policy {
        RestartPolicy::Never => false,
        RestartPolicy::OnFailure => !success,
        RestartPolicy::Always => true,
    }
}

/// Whether a process that has exited is started again.
pub fn should_restart(policy: RestartPolicy, success: bool, shutting_down: bool) -> (result: bool)
    ensures
        result == restarts(policy, success, shutting_down),
{
    if shutting_down {
        return false;
    }
    match policy {
        RestartPolicy::Never => false,
        RestartPolicy::OnFailure => !success,
        RestartPolicy::Always => true,
    }
}

/// The interval of a probe.
pub open spec fn probe_interval(probe: ProbeSpec) -> u64 {
    match probe {
        ProbeSpec::Http { interval_ms, .. } => interval_ms,
        ProbeSpec::StateKey { interval_ms, .. } => interval_ms,
    }
}

impl ProbeSpec {
    /// The time between two attempts of the probe.
    pub fn interval(&self) -> (interval_ms: u64)
        ensures
            interval_ms == probe_interval(*self),
    {
        match self {
            ProbeSpec::Http { interval_ms, .. } | ProbeSpec::StateKey { interval_ms, .. } => *interval_ms,
        }
    }
}

/// What a supervisor knows: the state of each process.
pub type ProcessStates = Map<Seq<char>, ProcessRuntimeState>;

/// The states with that of `process`, where it is known, replaced.
pub open spec fn with_state(
    states: ProcessStates,
    process: Seq<char>,
    state: ProcessRuntimeState,
) -> ProcessStates {
    if states.contains_key(process) {
        states.insert(process, state)
    } else {
        states
    }
}

/// The state of a process that has just been started.
pub open spec fn just_started() -> ProcessRuntimeState {
    ProcessRuntimeState { running: true, last_liveness_check_ms: None }
}

/// The state of a process that does not run.
pub open spec fn at_rest() -> ProcessRuntimeState {
    ProcessRuntimeState { running: false, last_liveness_check_ms: None }
}

/// The states after the processes of `exits` have stopped.
pub open spec fn after_exits(states: ProcessStates, exits: Seq<(String, bool)>) -> ProcessStates
    decreases exits.len(),
{
    if exits.len() == 0 {
        states
    } else {
        with_state(after_exits(states, exits.drop_last()), exits.last().0@, at_rest())
    }
}

/// Whether the process of an exit is started again.
pub open spec fn exit_restarts(config: Config, exit: (String, bool), shutting_down: bool) -> bool {
    config.process@.contains_key(exit.0@) && restarts(
        config.process@[exit.0@].restart,
        exit.1,
        shutting_down,
    )
}

/// The processes of `exits` that are started again, in the order of the exits.
pub open spec fn restarted(config: Config, exits: Seq<(String, bool)>, shutting_down: bool) -> Seq<
    ProcessEffectView,
>
    decreases exits.len(),
{
    if exits.len() == 0 {
        Seq::empty()
    } else {
        let before = restarted(config, exits.drop_last(), shutting_down);
        if exit_restarts(config, exits.last(), shutting_down) {
            before.push(ProcessEffectView::Start(exits.last().0@))
        } else {
            before
        }
    }
}

/// Whether the liveness of a process is to be checked: it has a liveness probe, runs, and its
/// last check is an interval ago.
pub open spec fn check_is_due(
    config: Config,
    states: ProcessStates,
    now_ms: u64,
    process: Seq<char>,
) -> bool {
    &&& config.process@[process].liveness is Some
    &&& states.contains_key(process)
    &&& states[process].running
    &&& is_due(
        states[process].last_liveness_check_ms,
        probe_interval(config.process@[process].liveness->0),
        now_ms,
    )
}

/// The processes whose liveness is to be checked, in the order of their names.
pub open spec fn checks_due(config: Config, states: ProcessStates, now_ms: u64) -> Seq<Seq<char>> {
    picked(
        config.process.keys(),
        |process: Seq<char>| check_is_due(config, states, now_ms, process),
    )
}

/// What a tick asks for: the processes of `exits` that are started again, and then the liveness
/// checks that are due; nothing while everything is being stopped.
pub open spec fn tick_effects(
    config: Config,
    states: ProcessStates,
    shutting_down: bool,
    exits: Seq<(String, bool)>,
    now_ms: u64,
) -> Seq<ProcessEffectView> {
    if shutting_down {
        Seq::empty()
    } else {
        restarted(config, exits, false) + check_each(
            checks_due(config, after_exits(states, exits), now_ms),
        )
    }
}

/// What a liveness check asks for: a process that is not healthy is restarted, where it has a
/// restart policy and nothing is being stopped.
pub open spec fn liveness_effects(
    config: Config,
    states: ProcessStates,
    shutting_down: bool,
    process: Seq<char>,
    healthy: bool,
) -> Seq<ProcessEffectView> {
    if states.contains_key(process) && !healthy && !shutting_down && config.process@.contains_key(
        process,
    ) && config.process@[process].restart != RestartPolicy::Never {
        seq![ProcessEffectView::Restart(process)]
    } else {
        Seq::empty()
    }
}

/// The states after a liveness check of a process.
pub open spec fn after_check(states: ProcessStates, process: Seq<char>, now_ms: u64) -> ProcessStates {
    with_state(
        states,
        process,
        ProcessRuntimeState { last_liveness_check_ms: Some(now_ms), ..states[process] },
    )
}

/// Keeps track of the processes.
#[derive(Debug, Clone)]
pub struct ProcessSupervisor {
    processes: NameMap<ProcessRuntimeState>,
    shutting_down: bool,
}

impl ProcessSupervisor {
    /// The state of each process.
    pub closed spec fn states(&self) -> ProcessStates {
        self.processes@
    }

    /// The names of the processes, in order.
    pub closed spec fn names(&self) -> Seq<Seq<char>> {
        self.processes.keys()
    }

    /// Whether everything is being stopped.
    pub closed spec fn is_shutting_down(&self) -> bool {
        self.shutting_down
    }

    /// A supervisor for the processes of a configuration, none of them running.
    pub fn new(config: &Config) -> (supervisor: Self)
        ensures
            supervisor.names() == config.process.keys(),
            supervisor.states().dom() == config.process@.dom(),
            forall|process: Seq<char>| #[trigger]
                supervisor.states().contains_key(process) ==> supervisor.states()[process] == at_rest(),
            !supervisor.is_shutting_down(),
    {
        let mut processes: NameMap<ProcessRuntimeState> = NameMap::new();
        let n: usize = config.process.len();
        let mut i: usize = 0;
        let ghost keys = config.process.keys();
        while i < n
            invariant
                i <= n == keys.len(),
                keys == config.process.keys(),
                processes.wf(),
                forall|name: Seq<char>| #[trigger]
                    processes@.contains_key(name) <==> keys.take(i as int).contains(name),
                forall|name: Seq<char>| #[trigger]
                    processes@.contains_key(name) ==> processes@[name] == at_rest(),
            decreases n - i,
        {
            let ghost before = processes@;
            processes.insert(
                config.process.key_at(i).clone(),
                ProcessRuntimeState { running: false, last_liveness_check_ms: None },
            );
            proof {
                let part = keys.take(i as int);
                let longer = keys.take(i + 1);
                assert(longer =~= part.push(keys[i as int]));
                assert forall|name: Seq<char>| #[trigger]
                    processes@.contains_key(name) <==> longer.contains(name) by {
                    if part.contains(name) {
                        assert(longer[part.index_of(name)] == name);
                    }
                    if longer.contains(name) && name != keys[i as int] {
                        assert(part[longer.index_of(name)] == name);
                    }
                    assert(longer[i as int] == keys[i as int]);
                    assert(before.contains_key(name) || name == keys[i as int]
                        || !processes@.contains_key(name));
                }
            }
            i = i + 1;
        }
        assert(keys.take(n as int) =~= keys);
        let supervisor = ProcessSupervisor { processes, shutting_down: false };
        proof {
            assert(config.process.wf());
            assert(supervisor.states().dom() =~= config.process@.dom());
            assert forall|name: Seq<char>| #[trigger]
                processes.keys().contains(name) <==> keys.contains(name) by {
                assert(processes@.contains_key(name) <==> keys.contains(name));
            }
            lemma_ascending_unique(processes.keys(), keys);
        }
        supervisor
    }

    /// The effects that start what starts by itself, in the order of names.
    pub fn autostart_effects(&self, config: &Config) -> (effects: Vec<ProcessEffect>)
        ensures
            effects_of(effects@) == start_each(
                picked(
                    config.process.keys(),
                    |process: Seq<char>| config.process@[process].autostart,
                ),
            ),
    {
        let mut effects: Vec<ProcessEffect> = Vec::new();
        let ghost keys = config.process.keys();
        let ghost pick = |process: Seq<char>| config.process@[process].autostart;
        let n: usize = config.process.len();
        let mut i: usize = 0;
        while i < n
            invariant
                i <= n == keys.len(),
                keys == config.process.keys(),
                pick == (|process: Seq<char>| config.process@[process].autostart),
                effects_of(effects@) == start_each(picked(keys.take(i as int), pick)),
            decreases n - i,
        {
            let name = config.process.key_at(i);
            proof {
                lemma_picked_next(keys, i as int, pick);
            }
            if config.process.value_at(i).autostart {
                let ghost before = effects_of(effects@);
                effects.push(ProcessEffect::StartProcess { process: name.clone() });
                assert(effects_of(effects@) =~= before.push(ProcessEffectView::Start(name@)));
                assert(start_each(picked(keys.take(i + 1), pick)) =~= before.push(
                    ProcessEffectView::Start(name@),
                ));
            }
            i = i + 1;
        }
        assert(keys.take(n as int) =~= keys);
        effects
    }

    /// Notes that a process has been started.
    pub fn on_process_started(&mut self, process: &str)
        ensures
            final(self).states() == with_state(old(self).states(), process@, just_started()),
            final(self).names() == old(self).names(),
            final(self).is_shutting_down() == old(self).is_shutting_down(),
    {
        self.set_state(
            process,
            ProcessRuntimeState { running: true, last_liveness_check_ms: None },
        );
    }

    /// Notes that a process has stopped.
    pub fn on_process_stopped(&mut self, process: &str)
        ensures
            final(self).states() == with_state(old(self).states(), process@, at_rest()),
            final(self).names() == old(self).names(),
            final(self).is_shutting_down() == old(self).is_shutting_down(),
    {
        self.set_state(
            process,
            ProcessRuntimeState { running: false, last_liveness_check_ms: None },
        );
    }

    fn set_state(&mut self, process: &str, state: ProcessRuntimeState)
        ensures
            final(self).states() == with_state(old(self).states(), process@, state),
            final(self).names() == old(self).names(),
            final(self).is_shutting_down() == old(self).is_shutting_down(),
    {
        if self.processes.contains_key(process) {
            let ghost before = self.processes;
            self.processes.insert(process.to_owned(), state);
            proof {
                assert forall|name: Seq<char>| #[trigger]
                    self.processes.keys().contains(name) <==> before.keys().contains(name) by {
                    assert(self.processes@.contains_key(name) <==> before@.contains_key(name));
                }
                lemma_ascending_unique(self.processes.keys(), before.keys());
            }
        }
    }

    /// Begins to stop everything: the effects that stop what runs, in the order of names.
    pub fn on_shutdown(&mut self) -> (effects: Vec<ProcessEffect>)
        ensures
            final(self).is_shutting_down(),
            final(self).states() == old(self).states(),
            final(self).names() == old(self).names(),
            effects_of(effects@) == stop_each(
                picked(
                    old(self).names(),
                    |process: Seq<char>| old(self).states()[process].running,
                ),
            ),
    {
        self.shutting_down = true;
        let mut effects: Vec<ProcessEffect> = Vec::new();
        let ghost states = self.processes@;
        let ghost keys = self.processes.keys();
        let ghost pick = |process: Seq<char>| states[process].running;
        let n: usize = self.processes.len();
        let mut i: usize = 0;
        while i < n
            invariant
                i <= n == keys.len(),
                keys == self.processes.keys(),
                states == self.processes@,
                pick == (|process: Seq<char>| states[process].running),
                effects_of(effects@) == stop_each(picked(keys.take(i as int), pick)),
            decreases n - i,
        {
            let name = self.processes.key_at(i);
            proof {
                lemma_picked_next(keys, i as int, pick);
            }
            if self.processes.value_at(i).running {
                let ghost before = effects_of(effects@);
                effects.push(ProcessEffect::StopProcess { process: name.clone() });
                assert(effects_of(effects@) =~= before.push(ProcessEffectView::Stop(name@)));
                assert(stop_each(picked(keys.take(i + 1), pick)) =~= before.push(
                    ProcessEffectView::Stop(name@),
                ));
            }
            i = i + 1;
        }
        assert(keys.take(n as int) =~= keys);
        effects
    }

    /// Notes which processes have exited, and says which are started again and whose liveness
    /// is to be checked.
    pub fn on_tick(&mut self, config: &Config, now_ms: u64, exits: Vec<(String, bool)>) -> (effects: Vec<
        ProcessEffect,
    >)
        ensures
            final(self).states() == after_exits(old(self).states(), exits@),
            final(self).names() == old(self).names(),
            final(self).is_shutting_down() == old(self).is_shutting_down(),
            effects_of(effects@) == tick_effects(
                *config,
                old(self).states(),
                old(self).is_shutting_down(),
                exits@,
                now_ms,
            ),
    {
        let mut effects: Vec<ProcessEffect> = Vec::new();
        let ghost states = self.states();
        let ghost down = self.is_shutting_down();
        let mut i: usize = 0;
        while i < exits.len()
            invariant
                i <= exits@.len(),
                self.states() == after_exits(states, exits@.take(i as int)),
                self.names() == old(self).names(),
                self.is_shutting_down() == down,
                effects_of(effects@) == restarted(*config, exits@.take(i as int), down),
            decreases exits@.len() - i,
        {
            let process = &exits[i].0;
            let success = exits[i].1;
            proof {
                let part = exits@.take(i + 1);
                assert(part.drop_last() =~= exits@.take(i as int));
                assert(part.last() == exits@[i as int]);
            }
            self.on_process_stopped(process.as_str());
            if let Some(spec) = config.process.get(process.as_str()) {
                if should_restart(spec.restart, success, self.shutting_down) {
                    let ghost before = effects@;
                    effects.push(ProcessEffect::StartProcess { process: process.clone() });
                    assert(effects_of(effects@) =~= effects_of(before).push(
                        ProcessEffectView::Start(process@),
                    ));
                }
            }
            i = i + 1;
        }
        assert(exits@.take(i as int) =~= exits@);
        if self.shutting_down {
            proof {
                lemma_no_restarts(*config, exits@);
            }
            return effects;
        }
        let ghost begun = effects_of(effects@);
        let ghost known = self.states();
        let ghost keys = config.process.keys();
        let ghost pick = |process: Seq<char>| check_is_due(*config, known, now_ms, process);
        let n: usize = config.process.len();
        let mut j: usize = 0;
        assert(begun + check_each(picked(keys.take(0), pick)) =~= begun);
        while j < n
            invariant
                j <= n == keys.len(),
                keys == config.process.keys(),
                known == self.states(),
                pick == (|process: Seq<char>| check_is_due(*config, known, now_ms, process)),
                effects_of(effects@) == begun + check_each(picked(keys.take(j as int), pick)),
            decreases n - j,
        {
            let name = config.process.key_at(j);
            proof {
                lemma_picked_next(keys, j as int, pick);
            }
            if let Some(liveness) = &config.process.value_at(j).liveness {
                if let Some(state) = self.processes.get(name.as_str()) {
                    if state.running && due(
                        state.last_liveness_check_ms,
                        liveness.interval(),
                        now_ms,
                    ) {
                        let ghost before = effects_of(effects@);
                        effects.push(ProcessEffect::CheckLiveness { process: name.clone() });
                        let ghost check = ProcessEffectView::CheckLiveness(name@);
                        assert(effects_of(effects@) =~= before.push(check));
                        assert(begun + check_each(picked(keys.take(j + 1), pick)) =~= before.push(check));
                    }
                }
            }
            j = j + 1;
        }
        assert(keys.take(n as int) =~= keys);
        effects
    }

    /// Notes the result of a liveness check, and says whether the process is restarted: it is
    /// not healthy, has a restart policy, and nothing is being stopped.
    pub fn on_liveness_result(
        &mut self,
        config: &Config,
        process: &str,
        healthy: bool,
        now_ms: u64,
    ) -> (effects: Vec<ProcessEffect>)
        ensures
            final(self).names() == old(self).names(),
            final(self).is_shutting_down() == old(self).is_shutting_down(),
            final(self).states() == after_check(old(self).states(), process@, now_ms),
            effects_of(effects@) == liveness_effects(
                *config,
                old(self).states(),
                old(self).is_shutting_down(),
                process@,
                healthy,
            ),
    {
        let mut effects: Vec<ProcessEffect> = Vec::new();
        let running = match self.processes.get(process) {
            None => {
                assert(effects_of(effects@) =~= Seq::empty());
                return effects;
            },
            Some(state) => state.running,
        };
        self.set_state(
            process,
            ProcessRuntimeState { running, last_liveness_check_ms: Some(now_ms) },
        );
        if !healthy && !self.shutting_down {
            if let Some(spec) = config.process.get(process) {
                if spec.restart != RestartPolicy::Never {
                    effects.push(ProcessEffect::RestartProcess { process: process.to_owned() });
                    assert(effects_of(effects@) =~= seq![ProcessEffectView::Restart(process@)]);
                    return effects;
                }
            }
        }
        assert(effects_of(effects@) =~= Seq::empty());
        effects
    }
}

proof fn lemma_no_restarts(config: Config, exits: Seq<(String, bool)>)
    ensures
        restarted(config, exits, true) == Seq::<ProcessEffectView>::empty(),
    decreases exits.len(),
{
    if exits.len() > 0 {
        lemma_no_restarts(config, exits.drop_last());
    }
}

/// A process that was checked at `checked_ms` is not to be checked again before its interval has
/// gone by.
pub proof fn law_checks_keep_their_interval(
    config: Config,
    states: ProcessStates,
    process: Seq<char>,
    checked_ms: u64,
    now_ms: u64,
)
    requires
        states.contains_key(process),
        states[process].last_liveness_check_ms == Some(checked_ms),
        config.process@[process].liveness is Some,
        checked_ms <= now_ms < checked_ms + probe_interval(config.process@[process].liveness->0),
    ensures
        !check_is_due(config, states, now_ms, process),
{
}

/// A process that has just been started and has a liveness probe is checked at the next tick.
pub proof fn law_started_processes_are_checked(
    config: Config,
    states: ProcessStates,
    process: Seq<char>,
    now_ms: u64,
)
    requires
        states.contains_key(process),
        config.process@[process].liveness is Some,
    ensures
        check_is_due(config, with_state(states, process, just_started()), now_ms, process),
{
}

/// Whether an exit is one after which the process is started again, whatever else is configured
/// for it: it restarts always, or on failure and has failed.
pub open spec fn calls_for_start(config: Config, exit: (String, bool)) -> bool {
    config.process@.contains_key(exit.0@) && (config.process@[exit.0@].restart
        == RestartPolicy::Always || (config.process@[exit.0@].restart == RestartPolicy::OnFailure
        && !exit.1))
}

/// A tick starts exactly the processes whose exit calls for it: one that restarts always whenever
/// it has exited, one that restarts on failure when it has failed, and no other.
pub proof fn law_exited_processes_are_started_by_their_policy(
    config: Config,
    states: ProcessStates,
    exits: Seq<(String, bool)>,
    now_ms: u64,
    process: Seq<char>,
)
    ensures
        tick_effects(config, states, false, exits, now_ms).contains(ProcessEffectView::Start(process))
            <==> exists|i: int|
            0 <= i < exits.len() && (#[trigger] exits[i]).0@ == process && config.process@.contains_key(
                process,
            ) && (config.process@[process].restart == RestartPolicy::Always || (
            config.process@[process].restart == RestartPolicy::OnFailure && !exits[i].1)),
        !tick_effects(config, states, false, exits, now_ms).contains(
            ProcessEffectView::Restart(process),
        ),
        !tick_effects(config, states, false, exits, now_ms).contains(ProcessEffectView::Stop(process)),
{
    let start = ProcessEffectView::Start(process);
    let first = restarted(config, exits, false);
    let checks = check_each(checks_due(config, after_exits(states, exits), now_ms));
    let all = tick_effects(config, states, false, exits, now_ms);
    lemma_restarted(config, exits, process);
    if all.contains(start) {
        let k = all.index_of(start);
        if k < first.len() {
            assert(first[k] == start);
        } else {
            assert(checks[k - first.len()] == start);
        }
    }
    if first.contains(start) {
        assert(all[first.index_of(start)] == start);
    }
    lemma_only_starts(config, exits);
    assert forall|k: int| 0 <= k < all.len() implies !(#[trigger] all[k] is Restart) && !(all[k] is Stop) by {
        if k < first.len() {
            assert(first[k] is Start);
        } else {
            assert(checks[k - first.len()] is CheckLiveness);
        }
    }
}

proof fn lemma_only_starts(config: Config, exits: Seq<(String, bool)>)
    ensures
        forall|k: int|
            0 <= k < restarted(config, exits, false).len() ==> #[trigger] restarted(
                config,
                exits,
                false,
            )[k] is Start,
    decreases exits.len(),
{
    if exits.len() > 0 {
        lemma_only_starts(config, exits.drop_last());
    }
}

proof fn lemma_restarted(config: Config, exits: Seq<(String, bool)>, process: Seq<char>)
    ensures
        restarted(config, exits, false).contains(ProcessEffectView::Start(process)) <==> exists|i: int|
            0 <= i < exits.len() && (#[trigger] exits[i]).0@ == process && calls_for_start(
                config,
                exits[i],
            ),
    decreases exits.len(),
{
    let start = ProcessEffectView::Start(process);
    let all = restarted(config, exits, false);
    if exits.len() > 0 {
        let part = exits.drop_last();
        let before = restarted(config, part, false);
        lemma_restarted(config, part, process);
        let n = exits.len() - 1;
        if before.contains(start) {
            assert(all[before.index_of(start)] == start);
            let i = choose|i: int|
                0 <= i < part.len() && (#[trigger] part[i]).0@ == process && calls_for_start(
                    config,
                    part[i],
                );
            assert(exits[i] == part[i]);
        }
        if calls_for_start(config, exits[n]) && exits[n].0@ == process {
            assert(all.last() == start);
            assert(all[all.len() - 1] == start);
        }
        if all.contains(start) && !before.contains(start) {
            let k = all.index_of(start);
            if k < before.len() {
                assert(before[k] == start);
            }
            assert(exits[n].0@ == process && calls_for_start(config, exits[n]));
        }
        if exists|i: int|
            0 <= i < exits.len() && (#[trigger] exits[i]).0@ == process && calls_for_start(
                config,
                exits[i],
            ) {
            let i = choose|i: int|
                0 <= i < exits.len() && (#[trigger] exits[i]).0@ == process && calls_for_start(
                    config,
                    exits[i],
                );
            if i < n {
                assert(part[i] == exits[i]);
            }
        }
    }
}

/// Exits are taken one by one: what two lists of exits start together is what the first starts and
/// then what the second starts.
pub proof fn law_exits_are_taken_one_by_one(
    config: Config,
    first: Seq<(String, bool)>,
    second: Seq<(String, bool)>,
)
    ensures
        restarted(config, first + second, false) == restarted(config, first, false) + restarted(
            config,
            second,
            false,
        ),
    decreases second.len(),
{
    if second.len() == 0 {
        assert(first + second =~= first);
        assert(restarted(config, second, false) =~= Seq::empty());
        assert(restarted(config, first, false) + restarted(config, second, false) =~= restarted(
            config,
            first,
            false,
        ));
    } else {
        law_exits_are_taken_one_by_one(config, first, second.drop_last());
        assert((first + second).drop_last() =~= first + second.drop_last());
        assert((first + second).last() == second.last());
        assert(restarted(config, first + second, false) =~= restarted(config, first, false) + restarted(
            config,
            second,
            false,
        ));
    }
}

/// A tick checks exactly the processes of the configuration that are known to run after the exits,
/// have a liveness probe, and have not been checked within its interval.
pub proof fn law_running_processes_are_checked_at_their_interval(
    config: Config,
    states: ProcessStates,
    exits: Seq<(String, bool)>,
    now_ms: u64,
    process: Seq<char>,
)
    requires
        config.process.keys().contains(process),
    ensures
        tick_effects(config, states, false, exits, now_ms).contains(
            ProcessEffectView::CheckLiveness(process),
        ) <==> {
            &&& states.contains_key(process)
            &&& states[process].running
            &&& forall|i: int| 0 <= i < exits.len() ==> (#[trigger] exits[i]).0@ != process
            &&& config.process@[process].liveness is Some
            &&& match states[process].last_liveness_check_ms {
                None => true,
                Some(last) => match config.process@[process].liveness->0 {
                    ProbeSpec::Http { interval_ms, .. } => interval_ms == 0 || last + interval_ms
                        <= now_ms,
                    ProbeSpec::StateKey { interval_ms, .. } => interval_ms == 0 || last + interval_ms
                        <= now_ms,
                },
            }
        },
{
    let check = ProcessEffectView::CheckLiveness(process);
    let first = restarted(config, exits, false);
    let known = after_exits(states, exits);
    let due = checks_due(config, known, now_ms);
    let checks = check_each(due);
    let all = tick_effects(config, states, false, exits, now_ms);
    let pick = |name: Seq<char>| check_is_due(config, known, now_ms, name);
    lemma_only_starts(config, exits);
    lemma_picked_contains(config.process.keys(), pick, process);
    lemma_after_exits(states, exits, process);
    assert(due == picked(config.process.keys(), pick));
    assert(pick(process) == check_is_due(config, known, now_ms, process));
    if all.contains(check) {
        let k = all.index_of(check);
        if k < first.len() {
            assert(first[k] is Start);
        }
        assert(checks[k - first.len()] == check);
        assert(due[k - first.len()] == process);
    }
    if due.contains(process) {
        let k = due.index_of(process);
        assert(checks[k] == check);
        assert(all[first.len() + k] == check);
    }
}

proof fn lemma_after_exits(states: ProcessStates, exits: Seq<(String, bool)>, process: Seq<char>)
    ensures
        after_exits(states, exits).contains_key(process) == states.contains_key(process),
        states.contains_key(process) ==> after_exits(states, exits)[process] == if exists|i: int|
            0 <= i < exits.len() && (#[trigger] exits[i]).0@ == process {
            ProcessRuntimeState { running: false, last_liveness_check_ms: None }
        } else {
            states[process]
        },
    decreases exits.len(),
{
    if exits.len() > 0 {
        let part = exits.drop_last();
        lemma_after_exits(states, part, process);
        let n = exits.len() - 1;
        if exits[n].0@ != process {
            if exists|i: int| 0 <= i < exits.len() && (#[trigger] exits[i]).0@ == process {
                let i = choose|i: int| 0 <= i < exits.len() && (#[trigger] exits[i]).0@ == process;
                assert(part[i].0@ == process);
            }
            if exists|i: int| 0 <= i < part.len() && (#[trigger] part[i]).0@ == process {
                let i = choose|i: int| 0 <= i < part.len() && (#[trigger] part[i]).0@ == process;
                assert(exits[i].0@ == process);
            }
        } else {
            assert(exits[n].0@ == process);
        }
    }
}

/// A process that is not healthy is restarted unless it never restarts or everything is being
/// stopped; one that is healthy never is. Either way the check counts from now on, and whether the
/// process runs stays.
pub proof fn law_unhealthy_processes_are_restarted(
    config: Config,
    states: ProcessStates,
    process: Seq<char>,
    now_ms: u64,
)
    requires
        states.contains_key(process),
        config.process@.contains_key(process),
    ensures
        config.process@[process].restart == RestartPolicy::Always || config.process@[process].restart
            == RestartPolicy::OnFailure ==> liveness_effects(config, states, false, process, false)
            == seq![ProcessEffectView::Restart(process)],
        config.process@[process].restart == RestartPolicy::Never ==> liveness_effects(
            config,
            states,
            false,
            process,
            false,
        ) == Seq::<ProcessEffectView>::empty(),
        liveness_effects(config, states, false, process, true) == Seq::<ProcessEffectView>::empty(),
        liveness_effects(config, states, true, process, false) == Seq::<ProcessEffectView>::empty(),
        after_check(states, process, now_ms)[process] == (ProcessRuntimeState {
            running: states[process].running,
            last_liveness_check_ms: Some(now_ms),
        }),
        forall|other: Seq<char>|
            other != process && states.contains_key(other) ==> #[trigger] after_check(
                states,
                process,
                now_ms,
            )[other] == states[other],
{
}

/// What a policy decides: never, on failure, or always; nothing is started while everything is
/// being stopped.
pub proof fn law_policies_decide(policy: RestartPolicy, success: bool)
    ensures
        !restarts(policy, success, true),
        restarts(RestartPolicy::Always, success, false),
        restarts(RestartPolicy::OnFailure, success, false) == !success,
        !restarts(RestartPolicy::Never, success, false),
{
}

/// Starting a process makes it run unchecked, stopping it makes it rest; what is known of others
/// stays, and a process that is not known stays unknown.
pub proof fn law_starting_and_stopping_are_noted(
    states: ProcessStates,
    process: Seq<char>,
    other: Seq<char>,
)
    requires
        other != process,
    ensures
        ({
            let started = with_state(states, process, just_started());
            let stopped = with_state(states, process, at_rest());
            &&& started.dom() == states.dom() && stopped.dom() == states.dom()
            &&& states.contains_key(process) ==> started[process].running
                && started[process].last_liveness_check_ms is None && !stopped[process].running
                && stopped[process].last_liveness_check_ms is None
            &&& states.contains_key(other) ==> started[other] == states[other] && stopped[other]
                == states[other]
        }),
{
    assert(with_state(states, process, just_started()).dom() =~= states.dom());
    assert(with_state(states, process, at_rest()).dom() =~= states.dom());
}

/// The processes that start by themselves are those that are configured so, and the processes that
/// are stopped at a shutdown are those that run.
pub proof fn law_picked_processes_are_those_that_are_meant(
    names: Seq<Seq<char>>,
    pick: spec_fn(Seq<char>) -> bool,
    name: Seq<char>,
)
    ensures
        start_each(picked(names, pick)).contains(ProcessEffectView::Start(name)) <==> names.contains(
            name,
        ) && pick(name),
        stop_each(picked(names, pick)).contains(ProcessEffectView::Stop(name)) <==> names.contains(name)
            && pick(name),
{
    lemma_picked_contains(names, pick, name);
    let chosen = picked(names, pick);
    if chosen.contains(name) {
        let k = chosen.index_of(name);
        assert(start_each(chosen)[k] == ProcessEffectView::Start(name));
        assert(stop_each(chosen)[k] == ProcessEffectView::Stop(name));
    }
    if start_each(chosen).contains(ProcessEffectView::Start(name)) {
        let k = start_each(chosen).index_of(ProcessEffectView::Start(name));
        assert(chosen[k] == name);
    }
    if stop_each(chosen).contains(ProcessEffectView::Stop(name)) {
        let k = stop_each(chosen).index_of(ProcessEffectView::Stop(name));
        assert(chosen[k] == name);
    }
}

} // verus!
