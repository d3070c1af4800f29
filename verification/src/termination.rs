//! Stopping a process: first gently, then by force.

use vstd::prelude::*;

verus! {

/// How long a process may take to stop by itself.
pub const PROCESS_STOP_TIMEOUT_MS: u64 = 2000;

/// How long the guardian of a process that was killed may take to exit.
pub const GUARDIAN_REAP_TIMEOUT_MS: u64 = 2000;

/// A step of stopping a process.
#[derive(Debug, Clone, Copy, PartialEq, Eq, Structural)]
pub enum StopStep {
    /// Look whether the process has exited.
    Look,
    /// Clear away what an exited process has left in its group.
    ClearGroup,
    /// Ask the group to stop.
    AskToStop,
    /// Wait until the process exits, for a limited time.
    AwaitExit,
    /// Kill what is left of the group after the process has exited.
    KillRest,
    /// Kill the group, since the process has not exited in time.
    KillGroup,
    /// Wait until the killed process exits, for a limited time.
    AwaitReap,
    /// Kill the guardian, since it has not exited in time.
    KillGuardian,
    /// Wait until the guardian is gone.
    Reap,
    /// The process had exited before it was asked to stop.
    AlreadyGone,
    /// The process has stopped.
    Stopped,
}

/// What came of a step.
#[derive(Debug, Clone, Copy, PartialEq, Eq, Structural)]
pub enum StepOutcome {
    /// It was done, or what was waited for has happened.
    Done,
    /// What was looked or waited for has not happened.
    NotYet,
}

/// The step that follows another.
pub open spec fn step_after(step: StopStep, outcome: StepOutcome) -> StopStep {
    match step {
        StopStep::Look => if outcome == StepOutcome::Done {
            StopStep::ClearGroup
        } else {
            StopStep::AskToStop
        },
        StopStep::ClearGroup => StopStep::AlreadyGone,
        StopStep::AskToStop => StopStep::AwaitExit,
        StopStep::AwaitExit => if outcome == StepOutcome::Done {
            StopStep::KillRest
        } else {
            StopStep::KillGroup
        },
        StopStep::KillRest => StopStep::Stopped,
        StopStep::KillGroup => StopStep::AwaitReap,
        StopStep::AwaitReap => if outcome == StepOutcome::Done {
            StopStep::Stopped
        } else {
            StopStep::KillGuardian
        },
        StopStep::KillGuardian => StopStep::Reap,
        StopStep::Reap => StopStep::Stopped,
        StopStep::AlreadyGone => StopStep::AlreadyGone,
        StopStep::Stopped => StopStep::Stopped,
    }
}

/// The step that follows another.
pub fn next_stop_step(step: StopStep, outcome: StepOutcome) -> (next: StopStep)
    ensures
        next == step_after(step, outcome),
{
    let done = outcome == StepOutcome::Done;
    match step {
        StopStep::Look => if done {
            StopStep::ClearGroup
        } else {
            StopStep::AskToStop
        },
        StopStep::ClearGroup => StopStep::AlreadyGone,
        StopStep::AskToStop => StopStep::AwaitExit,
        StopStep::AwaitExit => if done {
            StopStep::KillRest
        } else {
            StopStep::KillGroup
        },
        StopStep::KillRest => StopStep::Stopped,
        StopStep::KillGroup => StopStep::AwaitReap,
        StopStep::AwaitReap => if done {
            StopStep::Stopped
        } else {
            StopStep::KillGuardian
        },
        StopStep::KillGuardian => StopStep::Reap,
        StopStep::Reap => StopStep::Stopped,
        StopStep::AlreadyGone => StopStep::AlreadyGone,
        StopStep::Stopped => StopStep::Stopped,
    }
}

/// Whether nothing is left to do.
pub open spec fn is_over(step: StopStep) -> bool {
    step == StopStep::AlreadyGone || step == StopStep::Stopped
}

/// Whether a step kills the group of the process.
pub open spec fn kills_group(step: StopStep) -> bool {
    step == StopStep::ClearGroup || step == StopStep::KillRest || step == StopStep::KillGroup
}

/// The step that is reached after the outcomes.
pub open spec fn step_reached(outcomes: Seq<StepOutcome>) -> StopStep
    decreases outcomes.len(),
{
    if outcomes.len() == 0 {
        StopStep::Look
    } else {
        step_after(step_reached(outcomes.drop_last()), outcomes.last())
    }
}

/// Whatever comes of the steps, stopping a process is over after seven of them.
pub proof fn law_stopping_ends(outcomes: Seq<StepOutcome>)
    requires
        outcomes.len() >= 7,
    ensures
        is_over(step_reached(outcomes)),
    decreases outcomes.len(),
{
    reveal_with_fuel(step_reached, 8);
    if outcomes.len() > 7 {
        law_stopping_ends(outcomes.drop_last());
    }
}

/// Stopping a process is never over before its group was killed.
pub proof fn law_stopping_kills_the_group(outcomes: Seq<StepOutcome>)
    requires
        is_over(step_reached(outcomes)),
    ensures
        exists|n: int|
            0 <= n < outcomes.len() && kills_group(#[trigger] step_reached(outcomes.take(n))),
{
    lemma_kill_before(outcomes);
}

spec fn is_past_kill(step: StopStep) -> bool {
    is_over(step) || step == StopStep::AwaitReap || step == StopStep::KillGuardian || step
        == StopStep::Reap
}

proof fn lemma_kill_before(outcomes: Seq<StepOutcome>)
    requires
        is_past_kill(step_reached(outcomes)),
    ensures
        exists|n: int|
            0 <= n < outcomes.len() && kills_group(#[trigger] step_reached(outcomes.take(n))),
    decreases outcomes.len(),
{
    reveal_with_fuel(step_reached, 2);
    let before = outcomes.drop_last();
    if outcomes.len() > 0 {
        let n = outcomes.len() - 1;
        assert(outcomes.take(n) =~= before);
        if kills_group(step_reached(before)) {
            assert(kills_group(step_reached(outcomes.take(n))));
        } else {
            lemma_kill_before(before);
            let k = choose|k: int|
                0 <= k < before.len() && kills_group(#[trigger] step_reached(before.take(k)));
            assert(before.take(k) =~= outcomes.take(k));
            assert(kills_group(step_reached(outcomes.take(k))));
        }
    }
}

/// A process that has exited is not asked to stop, only its group is cleared. One that runs is asked
/// first, waited for, and killed only when it has not exited in time; its guardian only when that
/// does not help either.
pub proof fn law_processes_are_asked_before_they_are_killed(outcome: StepOutcome)
    ensures
        step_after(StopStep::Look, StepOutcome::Done) == StopStep::ClearGroup,
        step_after(StopStep::ClearGroup, outcome) == StopStep::AlreadyGone,
        step_after(StopStep::Look, StepOutcome::NotYet) == StopStep::AskToStop,
        step_after(StopStep::AskToStop, outcome) == StopStep::AwaitExit,
        step_after(StopStep::AwaitExit, StepOutcome::Done) == StopStep::KillRest,
        step_after(StopStep::KillRest, outcome) == StopStep::Stopped,
        step_after(StopStep::AwaitExit, StepOutcome::NotYet) == StopStep::KillGroup,
        step_after(StopStep::KillGroup, outcome) == StopStep::AwaitReap,
        step_after(StopStep::AwaitReap, StepOutcome::Done) == StopStep::Stopped,
        step_after(StopStep::AwaitReap, StepOutcome::NotYet) == StopStep::KillGuardian,
        step_after(StopStep::KillGuardian, outcome) == StopStep::Reap,
        step_after(StopStep::Reap, outcome) == StopStep::Stopped,
        PROCESS_STOP_TIMEOUT_MS == 2000,
        GUARDIAN_REAP_TIMEOUT_MS == 2000,
{
}

} // verus!
