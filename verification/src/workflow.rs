//! Running a workflow: which effect comes next.

use crate::config::{Config, LogStyle, WorkflowStep};
use crate::graph::{inline_target, is_sound, is_walk, leads_to, lemma_unused_decreases, unused};
use crate::graph::{law_sound_workflows_do_not_recur, runs_inline, runs_trigger};
use crate::name_map::{NameMap, NameSet};
use crate::template::{
    is_key, law_plain_text_renders_to_itself, law_references_are_filled_in_where_they_stand,
    reference_to, render_template_values, rendered,
};
use crate::text::{contains_text, copy_texts, join_texts, joined, texts};
use crate::value::{session_of, Json, SessionValue};
use std::collections::VecDeque;
use vstd::prelude::*;

verus! {

/// What a running workflow asks for.
#[derive(Debug, Clone, PartialEq, Eq)]
pub enum WorkflowEffect {
    StartProcess { process: String },
    StopProcess { process: String },
    RestartProcess { process: String },
    WaitForProcess { process: String },
    RunHook { hook: String, workflow_name: String, changed_files: Vec<String> },
    SleepMs { duration_ms: u64 },
    PersistState { key: String, value: SessionValue },
    Log { message: String, style: LogStyle },
    NotifyReload,
}

/// What an effect says.
pub enum EffectView {
    StartProcess(Seq<char>),
    StopProcess(Seq<char>),
    RestartProcess(Seq<char>),
    WaitForProcess(Seq<char>),
    RunHook { hook: Seq<char>, workflow: Seq<char>, files: Seq<Seq<char>> },
    SleepMs(u64),
    PersistState { key: Seq<char>, value: Json },
    Log { message: Seq<char>, style: LogStyle },
    NotifyReload,
}

impl WorkflowEffect {
    /// What the effect says.
    pub open spec fn view(&self) -> EffectView {
        match *self {
            WorkflowEffect::StartProcess { process } => EffectView::StartProcess(process@),
            WorkflowEffect::StopProcess { process } => EffectView::StopProcess(process@),
            WorkflowEffect::RestartProcess { process } => EffectView::RestartProcess(process@),
            WorkflowEffect::WaitForProcess { process } => EffectView::WaitForProcess(process@),
            WorkflowEffect::RunHook { hook, workflow_name, changed_files } => EffectView::RunHook {
                hook: hook@,
                workflow: workflow_name@,
                files: texts(changed_files@),
            },
            WorkflowEffect::SleepMs { duration_ms } => EffectView::SleepMs(duration_ms),
            WorkflowEffect::PersistState { key, value } => EffectView::PersistState {
                key: key@,
                value: value.json(),
            },
            WorkflowEffect::Log { message, style } => EffectView::Log { message: message@, style },
            WorkflowEffect::NotifyReload => EffectView::NotifyReload,
        }
    }
}

/// Why a running workflow cannot go on.
#[derive(Debug, Clone, PartialEq, Eq)]
pub enum WorkflowRunError {
    /// The supervisor asked for a workflow that the configuration lacks.
    Requested(String),
    /// A workflow that the configuration lacks was entered.
    UnknownWorkflow(String),
    /// A step or trigger leads back to a workflow that is still running.
    Recursion(Vec<String>),
}

impl WorkflowRunError {
    /// The text of the error.
    pub fn message(&self) -> (text: String)
        ensures
            text@ == match *self {
                WorkflowRunError::Requested(name) => "runtime requested missing workflow '"@ + name@
                    + "'"@,
                WorkflowRunError::UnknownWorkflow(name) => "unknown workflow '"@ + name@ + "'"@,
                WorkflowRunError::Recursion(cycle) => "workflow recursion detected at runtime: "@
                    + joined(texts(cycle@), " -> "@),
            },
    {
        match self {
            WorkflowRunError::Requested(name) => "runtime requested missing workflow '".to_owned().concat(
                name.as_str(),
            ).concat("'"),
            WorkflowRunError::UnknownWorkflow(name) => "unknown workflow '".to_owned().concat(
                name.as_str(),
            ).concat("'"),
            WorkflowRunError::Recursion(cycle) => "workflow recursion detected at runtime: ".to_owned().concat(
                join_texts(cycle, " -> ").as_str(),
            ),
        }
    }
}

/// A move of a running workflow.
pub enum Move {
    /// An effect of the change context is handed out.
    Hand(EffectView),
    /// A step is performed for `workflow`, which a change of `files` set off.
    Perform { workflow: Seq<char>, files: Seq<Seq<char>>, step: WorkflowStep },
    /// A workflow is entered from a step.
    EnterNested(Seq<char>),
    /// A workflow is entered from a trigger.
    EnterTriggered(Seq<char>),
    /// A trigger is passed over: its workflow has been triggered before.
    PassOver(Seq<char>),
    /// A workflow has come to its end.
    Leave(Seq<char>),
    /// A step or trigger leads back to a workflow that is still running.
    Recur(Seq<Seq<char>>),
    /// A workflow that the configuration lacks has been entered.
    Miss(Seq<char>),
}

/// Whether nothing is to be seen of a move from outside.
pub open spec fn is_silent(m: Move) -> bool {
    m is EnterNested || m is EnterTriggered || m is PassOver || m is Leave
}

/// The place of the first move of which something is to be seen.
pub open spec fn first_visible(moves: Seq<Move>) -> nat
    decreases moves.len(),
{
    if moves.len() > 0 && is_silent(moves[0]) {
        1 + first_visible(moves.skip(1))
    } else {
        0
    }
}

/// The effect that a step has, with templates filled in from the session.
pub open spec fn step_effect(
    workflow: Seq<char>,
    files: Seq<Seq<char>>,
    step: WorkflowStep,
    session: Map<Seq<char>, Json>,
) -> EffectView {
    match step {
        WorkflowStep::StartProcess { process } => EffectView::StartProcess(process@),
        WorkflowStep::StopProcess { process } => EffectView::StopProcess(process@),
        WorkflowStep::RestartProcess { process } => EffectView::RestartProcess(process@),
        WorkflowStep::WaitForProcess { process } => EffectView::WaitForProcess(process@),
        WorkflowStep::RunHook { hook } => EffectView::RunHook { hook: hook@, workflow, files },
        WorkflowStep::SleepMs { duration_ms } => EffectView::SleepMs(duration_ms),
        WorkflowStep::WriteState { key, value } => EffectView::PersistState {
            key: key@,
            value: Json::Text(rendered(session, value@)),
        },
        WorkflowStep::Log { message, style } => EffectView::Log {
            message: rendered(session, message@),
            style,
        },
        WorkflowStep::RunWorkflow { .. } => arbitrary(),
        WorkflowStep::NotifyReload => EffectView::NotifyReload,
    }
}

/// The effect that a move hands out.
pub open spec fn move_effect(m: Move, session: Map<Seq<char>, Json>) -> Option<EffectView> {
    match m {
        Move::Hand(effect) => Some(effect),
        Move::Perform { workflow, files, step } => Some(step_effect(workflow, files, step, session)),
        _ => None,
    }
}

/// The session after a move: a step that writes a key writes it there at once.
pub open spec fn session_after(m: Move, session: Map<Seq<char>, Json>) -> Map<Seq<char>, Json> {
    match m {
        Move::Perform { step: WorkflowStep::WriteState { key, value }, .. } => session.insert(
            key@,
            Json::Text(rendered(session, value@)),
        ),
        _ => session,
    }
}

/// The moves of a workflow, the workflows that have been triggered after them, and whether the
/// workflow comes to its end.
pub struct Course {
    pub moves: Seq<Move>,
    pub triggered: Set<Seq<char>>,
    pub ends: bool,
}

/// The course `rest` with one move before it.
pub open spec fn after_move(m: Move, rest: Course) -> Course {
    Course { moves: seq![m] + rest.moves, ..rest }
}

/// How many steps and triggers of a workflow are left.
pub open spec fn work_left(config: Config, name: Seq<char>, step: nat, trigger: nat) -> nat {
    let workflow = config.workflow@[name];
    (if step < workflow.steps@.len() {
        (workflow.steps@.len() - step) as nat
    } else {
        0nat
    }) + (if trigger < workflow.triggers@.len() {
        (workflow.triggers@.len() - trigger) as nat
    } else {
        0nat
    })
}

/// The course of the workflow at the end of `path`, from its step `step` and its trigger
/// `trigger` on.
///
/// Its steps are performed in order, then its triggers are entered in order. A step that runs a
/// workflow performs all of that workflow first. A trigger whose workflow has been triggered
/// before is passed over.
pub open spec fn course(
    config: Config,
    path: Seq<Seq<char>>,
    files: Seq<Seq<char>>,
    step: nat,
    trigger: nat,
    triggered: Set<Seq<char>>,
) -> Course
    decreases
            unused(config.workflow.keys(), path),
            work_left(config, path.last(), step, trigger),
            1nat,
{
    let name = path.last();
    let workflow = config.workflow@[name];
    if !config.workflow@.contains_key(name) {
        Course { moves: seq![Move::Miss(name)], triggered, ends: false }
    } else if step < workflow.steps@.len() {
        let first = workflow.steps@[step as int];
        match inline_target(first) {
            None => after_move(
                Move::Perform { workflow: name, files, step: first },
                course(config, path, files, step + 1, trigger, triggered),
            ),
            Some(target) => if path.contains(target) {
                after_move(
                    Move::Recur(path.push(target)),
                    course(config, path, files, step + 1, trigger, triggered),
                )
            } else {
                let inner = after_move(
                    Move::EnterNested(target),
                    entered_course(config, path, files, target, triggered),
                );
                if inner.ends {
                    let rest = course(config, path, files, step + 1, trigger, inner.triggered);
                    Course { moves: inner.moves + rest.moves, ..rest }
                } else {
                    inner
                }
            },
        }
    } else if trigger < workflow.triggers@.len() {
        let target = workflow.triggers@[trigger as int]@;
        if path.contains(target) {
            after_move(
                Move::Recur(path.push(target)),
                course(config, path, files, step, trigger + 1, triggered),
            )
        } else if triggered.contains(target) {
            after_move(
                Move::PassOver(target),
                course(config, path, files, step, trigger + 1, triggered),
            )
        } else {
            let inner = after_move(
                Move::EnterTriggered(target),
                entered_course(config, path, files, target, triggered.insert(target)),
            );
            if inner.ends {
                let rest = course(config, path, files, step, trigger + 1, inner.triggered);
                Course { moves: inner.moves + rest.moves, ..rest }
            } else {
                inner
            }
        }
    } else {
        Course { moves: seq![Move::Leave(name)], triggered, ends: true }
    }
}

/// The course of the workflow `target`, entered from the workflow at the end of `path`.
pub open spec fn entered_course(
    config: Config,
    path: Seq<Seq<char>>,
    files: Seq<Seq<char>>,
    target: Seq<char>,
    triggered: Set<Seq<char>>,
) -> Course
    decreases unused(config.workflow.keys(), path), 0nat, 0nat,
{
    if !config.workflow@.contains_key(target) || path.contains(target) {
        Course { moves: seq![Move::Miss(target)], triggered, ends: false }
    } else {
        proof {
            lemma_unused_decreases(config.workflow.keys(), path, target);
        }
        course(config, path.push(target), files, 0, 0, triggered)
    }
}

/// What a level of a running workflow stands for.
pub struct Level {
    pub workflow: Seq<char>,
    pub files: Seq<Seq<char>>,
    pub step: nat,
    pub trigger: nat,
    pub pending: Seq<EffectView>,
}

/// The workflows of the levels.
pub open spec fn level_names(levels: Seq<Level>) -> Seq<Seq<char>> {
    Seq::new(levels.len(), |i: int| levels[i].workflow)
}

/// The moves that hand out the effects.
pub open spec fn hand_all(effects: Seq<EffectView>) -> Seq<Move> {
    Seq::new(effects.len(), |i: int| Move::Hand(effects[i]))
}

/// The moves that are left where the levels are running, the last one innermost.
pub open spec fn moves_left(config: Config, levels: Seq<Level>, triggered: Set<Seq<char>>) -> Seq<Move>
    decreases levels.len(),
{
    if levels.len() == 0 {
        Seq::empty()
    } else {
        let top = levels.last();
        let here = course(
            config,
            level_names(levels),
            top.files,
            top.step,
            top.trigger,
            triggered,
        );
        hand_all(top.pending) + here.moves + if here.ends {
            moves_left(config, levels.drop_last(), here.triggered)
        } else {
            Seq::empty()
        }
    }
}

/// The effects that record what set a workflow off.
pub open spec fn change_context(workflow: Seq<char>, files: Seq<Seq<char>>) -> Seq<EffectView> {
    seq![
        EffectView::PersistState { key: "last_workflow"@, value: Json::Text(workflow) },
        EffectView::PersistState {
            key: "last_changed_files"@,
            value: Json::Array(Seq::new(files.len(), |i: int| Json::Text(files[i]))),
        },
    ]
}

/// All moves of a run of `workflow` that a change of `files` sets off.
pub open spec fn run_moves(config: Config, workflow: Seq<char>, files: Seq<Seq<char>>) -> Seq<Move> {
    hand_all(change_context(workflow, files)) + course(
        config,
        seq![workflow],
        files,
        0,
        0,
        Set::empty(),
    ).moves
}

/// A level of a running workflow.
#[derive(Debug, Clone)]
struct WorkflowFrame {
    workflow_name: String,
    changed_files: Vec<String>,
    next_step: usize,
    next_trigger: usize,
    pending_effects: VecDeque<WorkflowEffect>,
}

/// The effects of a queue.
spec fn effect_views(effects: Seq<WorkflowEffect>) -> Seq<EffectView> {
    Seq::new(effects.len(), |i: int| effects[i]@)
}

impl WorkflowFrame {
    spec fn level(&self) -> Level {
        Level {
            workflow: self.workflow_name@,
            files: texts(self.changed_files@),
            step: self.next_step as nat,
            trigger: self.next_trigger as nat,
            pending: effect_views(self.pending_effects@),
        }
    }

    fn new(workflow_name: String, changed_files: Vec<String>, record_change_context: bool) -> (frame: Self)
        ensures
            frame.level() == (Level {
                workflow: workflow_name@,
                files: texts(changed_files@),
                step: 0,
                trigger: 0,
                pending: if record_change_context {
                    change_context(workflow_name@, texts(changed_files@))
                } else {
                    Seq::empty()
                },
            }),
    {
        let mut pending_effects: VecDeque<WorkflowEffect> = VecDeque::new();
        if record_change_context {
            let mut files: Vec<SessionValue> = Vec::new();
            let mut i: usize = 0;
            while i < changed_files.len()
                invariant
                    i <= changed_files@.len(),
                    files@.len() == i,
                    forall|k: int|
                        0 <= k < i ==> (#[trigger] files@[k]).json() == Json::Text(changed_files@[k]@),
                decreases changed_files@.len() - i,
            {
                files.push(SessionValue::String(changed_files[i].clone()));
                i = i + 1;
            }
            let value = SessionValue::Array(files);
            assert(value.json()->Array_0 =~= Seq::new(
                changed_files@.len(),
                |i: int| Json::Text(texts(changed_files@)[i]),
            ));
            pending_effects.push_back(
                WorkflowEffect::PersistState {
                    key: "last_workflow".to_owned(),
                    value: SessionValue::String(workflow_name.clone()),
                },
            );
            pending_effects.push_back(
                WorkflowEffect::PersistState { key: "last_changed_files".to_owned(), value },
            );
            assert(effect_views(pending_effects@) =~= change_context(
                workflow_name@,
                texts(changed_files@),
            ));
        } else {
            assert(effect_views(pending_effects@) =~= Seq::empty());
        }
        WorkflowFrame { workflow_name, changed_files, next_step: 0, next_trigger: 0, pending_effects }
    }
}

/// A workflow that is running.
#[derive(Debug, Clone)]
pub struct WorkflowMachine {
    session: NameMap<SessionValue>,
    stack: Vec<WorkflowFrame>,
    triggered: NameSet,
}

spec fn levels_of(stack: Seq<WorkflowFrame>) -> Seq<Level> {
    Seq::new(stack.len(), |i: int| stack[i].level())
}

impl WorkflowMachine {
    /// What the machine knows of the session.
    pub closed spec fn known_session(&self) -> Map<Seq<char>, Json> {
        session_of(self.session)
    }

    /// The moves that are left.
    pub closed spec fn moves(&self, config: Config) -> Seq<Move> {
        moves_left(config, levels_of(self.stack@), self.triggered@)
    }

    /// Starts the workflow `workflow_name`, which a change of `changed_files` sets off.
    pub fn start(
        config: &Config,
        session: NameMap<SessionValue>,
        workflow_name: &str,
        changed_files: &Vec<String>,
    ) -> (result: Result<Self, WorkflowRunError>)
        ensures
            match result {
                Ok(machine) => {
                    &&& config.workflow@.contains_key(workflow_name@)
                    &&& machine.known_session() == session_of(session)
                    &&& machine.moves(*config) == run_moves(
                        *config,
                        workflow_name@,
                        texts(changed_files@),
                    )
                },
                Err(error) => {
                    &&& !config.workflow@.contains_key(workflow_name@)
                    &&& error matches WorkflowRunError::UnknownWorkflow(name) && name@ == workflow_name@
                },
            },
    {
        if !config.workflow.contains_key(workflow_name) {
            return Err(WorkflowRunError::UnknownWorkflow(workflow_name.to_owned()));
        }
        let frame = WorkflowFrame::new(workflow_name.to_owned(), copy_texts(changed_files), true);
        let mut stack: Vec<WorkflowFrame> = Vec::new();
        stack.push(frame);
        let machine = WorkflowMachine { session, stack, triggered: NameSet::new() };
        proof {
            let levels = levels_of(machine.stack@);
            assert(level_names(levels) =~= seq![workflow_name@]);
            assert(levels.drop_last() =~= Seq::empty());
            let run = run_moves(*config, workflow_name@, texts(changed_files@));
            let here = course(
                *config,
                seq![workflow_name@],
                texts(changed_files@),
                0,
                0,
                Set::empty(),
            );
            assert(moves_left(*config, levels.drop_last(), here.triggered) =~= Seq::empty());
            assert(run + Seq::<Move>::empty() =~= run);
            assert(levels.last() == frame.level());
            assert(machine.moves(*config) =~= run);
        }
        Ok(machine)
    }

    /// Lets the machine know a newer session.
    pub fn replace_session(&mut self, session: NameMap<SessionValue>)
        ensures
            final(self).known_session() == session_of(session),
            forall|config: Config| #[trigger] final(self).moves(config) == old(self).moves(config),
    {
        self.session = session;
    }

    /// What the machine knows of the session.
    pub fn session(&self) -> (session: &NameMap<SessionValue>)
        ensures
            session_of(*session) == self.known_session(),
    {
        &self.session
    }

    /// The names of the workflows that are running, the innermost last.
    fn running(&self) -> (names: Vec<String>)
        ensures
            texts(names@) == level_names(levels_of(self.stack@)),
    {
        let mut names: Vec<String> = Vec::new();
        let mut i: usize = 0;
        while i < self.stack.len()
            invariant
                i <= self.stack@.len(),
                names@.len() == i,
                forall|k: int| 0 <= k < i ==> (#[trigger] names@[k])@ == self.stack@[k].workflow_name@,
            decreases self.stack@.len() - i,
        {
            names.push(self.stack[i].workflow_name.clone());
            i = i + 1;
        }
        assert(texts(names@) =~= level_names(levels_of(self.stack@)));
        names
    }

    /// Performs a step for a workflow.
    fn perform(&mut self, step: &WorkflowStep, frame: &WorkflowFrame) -> (effect: WorkflowEffect)
        requires
            inline_target(*step) is None,
        ensures
            effect@ == step_effect(
                frame.workflow_name@,
                texts(frame.changed_files@),
                *step,
                old(self).known_session(),
            ),
            final(self).known_session() == session_after(
                Move::Perform {
                    workflow: frame.workflow_name@,
                    files: texts(frame.changed_files@),
                    step: *step,
                },
                old(self).known_session(),
            ),
            final(self).stack == old(self).stack,
            final(self).triggered == old(self).triggered,
    {
        match step {
            WorkflowStep::StartProcess { process } => WorkflowEffect::StartProcess {
                process: process.clone(),
            },
            WorkflowStep::StopProcess { process } => WorkflowEffect::StopProcess {
                process: process.clone(),
            },
            WorkflowStep::RestartProcess { process } => WorkflowEffect::RestartProcess {
                process: process.clone(),
            },
            WorkflowStep::WaitForProcess { process } => WorkflowEffect::WaitForProcess {
                process: process.clone(),
            },
            WorkflowStep::RunHook { hook } => WorkflowEffect::RunHook {
                hook: hook.clone(),
                workflow_name: frame.workflow_name.clone(),
                changed_files: copy_texts(&frame.changed_files),
            },
            WorkflowStep::SleepMs { duration_ms } => WorkflowEffect::SleepMs {
                duration_ms: *duration_ms,
            },
            WorkflowStep::WriteState { key, value } => {
                let text = render_template_values(&self.session, value.as_str());
                let ghost before = self.session;
                self.session.insert(key.clone(), SessionValue::String(text.clone()));
                assert(session_of(self.session) =~= session_of(before).insert(
                    key@,
                    Json::Text(text@),
                ));
                WorkflowEffect::PersistState { key: key.clone(), value: SessionValue::String(text) }
            },
            WorkflowStep::Log { message, style } => WorkflowEffect::Log {
                message: render_template_values(&self.session, message.as_str()),
                style: *style,
            },
            WorkflowStep::RunWorkflow { .. } | WorkflowStep::NotifyReload => WorkflowEffect::NotifyReload,
        }
    }

    /// The next effect of the running workflow, `None` when it has come to its end.
    ///
    /// Of the moves that are left, the silent ones are made up to the first one of which
    /// something is to be seen. That one is made too and its effect handed out. Where it leads
    /// back to a running workflow it is refused and passed by; where it has entered a workflow
    /// that is missing it is refused and stays.
    pub fn next_effect(&mut self, config: &Config) -> (result: Result<
        Option<WorkflowEffect>,
        WorkflowRunError,
    >)
        ensures
            ({
                let moves = old(self).moves(*config);
                let k = first_visible(moves) as int;
                match result {
                    Ok(None) => {
                        &&& k == moves.len()
                        &&& final(self).moves(*config) == Seq::<Move>::empty()
                        &&& final(self).known_session() == old(self).known_session()
                    },
                    Ok(Some(effect)) => {
                        &&& k < moves.len()
                        &&& move_effect(moves[k], old(self).known_session()) == Some(effect@)
                        &&& final(self).moves(*config) == moves.skip(k + 1)
                        &&& final(self).known_session() == session_after(
                            moves[k],
                            old(self).known_session(),
                        )
                    },
                    Err(WorkflowRunError::UnknownWorkflow(name)) => {
                        &&& k < moves.len() && moves[k] == Move::Miss(name@)
                        &&& final(self).moves(*config) == moves.skip(k)
                        &&& final(self).known_session() == old(self).known_session()
                    },
                    Err(WorkflowRunError::Recursion(cycle)) => {
                        &&& k < moves.len() && moves[k] == Move::Recur(texts(cycle@))
                        &&& final(self).moves(*config) == moves.skip(k + 1)
                        &&& final(self).known_session() == old(self).known_session()
                    },
                    Err(WorkflowRunError::Requested(_)) => false,
                }
            }),
    {
        let ghost all = self.moves(*config);
        let ghost mut made: nat = 0;
        proof {
            assert(all.skip(0) =~= all);
        }
        loop
            invariant
                made <= all.len(),
                all == old(self).moves(*config),
                self.moves(*config) == all.skip(made as int),
                first_visible(all) == made + first_visible(all.skip(made as int)),
                self.known_session() == old(self).known_session(),
            decreases all.len() - made,
        {
            let ghost levels = levels_of(self.stack@);
            let ghost triggered = self.triggered@;
            let ghost ahead = self.moves(*config);
            let mut frame = match self.stack.pop() {
                None => {
                    return Ok(None);
                },
                Some(frame) => frame,
            };
            let ghost below = levels_of(self.stack@);
            let ghost top = frame.level();
            proof {
                assert(levels =~= below.push(top));
                assert(levels.drop_last() =~= below);
                assert(all.skip(made as int).skip(1) =~= all.skip(made as int + 1));
                assert(all.skip(made as int).skip(0) =~= all.skip(made as int));
            }
            if let Some(effect) = frame.pending_effects.pop_front() {
                self.stack.push(frame);
                proof {
                    assert(frame.level().pending =~= top.pending.skip(1));
                    lemma_hand(*config, below, top, frame.level(), triggered);
                    assert(levels_of(self.stack@) =~= below.push(frame.level()));
                }
                return Ok(Some(effect));
            }
            assert(top.pending =~= Seq::empty());
            let workflow = match config.workflow.get(frame.workflow_name.as_str()) {
                Some(workflow) => workflow,
                None => {
                    let name = frame.workflow_name.clone();
                    self.stack.push(frame);
                    proof {
                        lemma_miss(*config, below, top, triggered);
                        assert(levels_of(self.stack@) =~= levels);
                    }
                    return Err(WorkflowRunError::UnknownWorkflow(name));
                },
            };
            if frame.next_step < workflow.steps.len() {
                let step = &workflow.steps[frame.next_step];
                frame.next_step = frame.next_step + 1;
                let ghost advanced = frame.level();
                match step {
                    WorkflowStep::RunWorkflow { workflow: target } => {
                        let files = copy_texts(&frame.changed_files);
                        self.stack.push(frame);
                        assert(levels_of(self.stack@) =~= below.push(advanced));
                        assert(level_names(below.push(advanced)) =~= level_names(levels));
                        let mut names = self.running();
                        if contains_text(&names, target.as_str()) {
                            proof {
                                lemma_step(*config, below, top, triggered);
                            }
                            let ghost path = texts(names@);
                            names.push(target.clone());
                            assert(texts(names@) =~= path.push(target@));
                            return Err(WorkflowRunError::Recursion(names));
                        }
                        let inner = WorkflowFrame::new(target.clone(), files, false);
                        self.stack.push(inner);
                        proof {
                            lemma_step(*config, below, top, triggered);
                            assert(levels_of(self.stack@) =~= below.push(advanced).push(inner.level()));
                        }
                    },
                    _ => {
                        let effect = self.perform(step, &frame);
                        self.stack.push(frame);
                        proof {
                            lemma_step(*config, below, top, triggered);
                            assert(levels_of(self.stack@) =~= below.push(advanced));
                        }
                        return Ok(Some(effect));
                    },
                }
            } else if frame.next_trigger < workflow.triggers.len() {
                let target = &workflow.triggers[frame.next_trigger];
                frame.next_trigger = frame.next_trigger + 1;
                let ghost advanced = frame.level();
                let files = copy_texts(&frame.changed_files);
                self.stack.push(frame);
                assert(levels_of(self.stack@) =~= below.push(advanced));
                assert(level_names(below.push(advanced)) =~= level_names(levels));
                proof {
                    lemma_trigger(*config, below, top, triggered);
                }
                let mut names = self.running();
                if contains_text(&names, target.as_str()) {
                    let ghost path = texts(names@);
                    names.push(target.clone());
                    assert(texts(names@) =~= path.push(target@));
                    return Err(WorkflowRunError::Recursion(names));
                }
                if self.triggered.insert(target.clone()) {
                    let inner = WorkflowFrame::new(target.clone(), files, false);
                    self.stack.push(inner);
                    assert(levels_of(self.stack@) =~= below.push(advanced).push(inner.level()));
                } else {
                    assert(triggered.insert(target@) =~= triggered);
                }
            } else {
                proof {
                    lemma_leave(*config, below, top, triggered);
                }
            }
            proof {
                assert(ahead.skip(1) == self.moves(*config));
                made = made + 1;
            }
        }
    }
}

proof fn lemma_hand(
    config: Config,
    below: Seq<Level>,
    top: Level,
    next: Level,
    triggered: Set<Seq<char>>,
)
    requires
        top.pending.len() > 0,
        next == (Level { pending: top.pending.skip(1), ..top }),
    ensures
        ({
            let ahead = moves_left(config, below.push(top), triggered);
            &&& ahead.len() > 0
            &&& ahead[0] == Move::Hand(top.pending[0])
            &&& moves_left(config, below.push(next), triggered) == ahead.skip(1)
        }),
{
    let levels = below.push(top);
    let next_levels = below.push(next);
    assert(level_names(levels) =~= level_names(next_levels));
    assert(levels.drop_last() =~= below);
    assert(next_levels.drop_last() =~= below);
    assert(hand_all(top.pending) =~= seq![Move::Hand(top.pending[0])] + hand_all(next.pending));
    let ahead = moves_left(config, levels, triggered);
    assert(moves_left(config, next_levels, triggered) =~= ahead.skip(1));
}

/// What is left where the top level has nothing pending.
proof fn lemma_top(config: Config, below: Seq<Level>, top: Level, triggered: Set<Seq<char>>)
    requires
        top.pending.len() == 0,
    ensures
        ({
            let here = course(
                config,
                level_names(below).push(top.workflow),
                top.files,
                top.step,
                top.trigger,
                triggered,
            );
            moves_left(config, below.push(top), triggered) == here.moves + if here.ends {
                moves_left(config, below, here.triggered)
            } else {
                Seq::empty()
            }
        }),
{
    let levels = below.push(top);
    assert(level_names(levels) =~= level_names(below).push(top.workflow));
    assert(levels.drop_last() =~= below);
    assert(hand_all(top.pending) =~= Seq::<Move>::empty());
    let here = course(
        config,
        level_names(levels),
        top.files,
        top.step,
        top.trigger,
        triggered,
    );
    assert(Seq::<Move>::empty() + here.moves =~= here.moves);
}

proof fn lemma_miss(config: Config, below: Seq<Level>, top: Level, triggered: Set<Seq<char>>)
    requires
        top.pending.len() == 0,
        !config.workflow@.contains_key(top.workflow),
    ensures
        moves_left(config, below.push(top), triggered) == seq![Move::Miss(top.workflow)],
{
    lemma_top(config, below, top, triggered);
    let path = level_names(below).push(top.workflow);
    assert(path.last() == top.workflow);
    assert(seq![Move::Miss(top.workflow)] + Seq::<Move>::empty() =~= seq![Move::Miss(top.workflow)]);
}

proof fn lemma_leave(config: Config, below: Seq<Level>, top: Level, triggered: Set<Seq<char>>)
    requires
        top.pending.len() == 0,
        config.workflow@.contains_key(top.workflow),
        top.step >= config.workflow@[top.workflow].steps@.len(),
        top.trigger >= config.workflow@[top.workflow].triggers@.len(),
    ensures
        ({
            let ahead = moves_left(config, below.push(top), triggered);
            &&& ahead.len() > 0
            &&& ahead[0] == Move::Leave(top.workflow)
            &&& moves_left(config, below, triggered) == ahead.skip(1)
        }),
{
    lemma_top(config, below, top, triggered);
    let path = level_names(below).push(top.workflow);
    assert(path.last() == top.workflow);
    let ahead = moves_left(config, below.push(top), triggered);
    assert(moves_left(config, below, triggered) =~= ahead.skip(1));
}

proof fn lemma_entered(
    config: Config,
    below: Seq<Level>,
    outer: Level,
    target: Seq<char>,
    triggered: Set<Seq<char>>,
)
    requires
        outer.pending.len() == 0,
        !level_names(below).push(outer.workflow).contains(target),
    ensures
        ({
            let path = level_names(below).push(outer.workflow);
            let inner = entered_course(config, path, outer.files, target, triggered);
            let level = Level {
                workflow: target,
                files: outer.files,
                step: 0,
                trigger: 0,
                pending: Seq::empty(),
            };
            moves_left(config, below.push(outer).push(level), triggered) == inner.moves
                + if inner.ends {
                moves_left(config, below.push(outer), inner.triggered)
            } else {
                Seq::empty()
            }
        }),
{
    let path = level_names(below).push(outer.workflow);
    let level = Level {
        workflow: target,
        files: outer.files,
        step: 0,
        trigger: 0,
        pending: Seq::empty(),
    };
    assert(level_names(below.push(outer)) =~= path);
    lemma_top(config, below.push(outer), level, triggered);
    assert(path.push(target).last() == target);
}

proof fn lemma_step(config: Config, below: Seq<Level>, top: Level, triggered: Set<Seq<char>>)
    requires
        top.pending.len() == 0,
        config.workflow@.contains_key(top.workflow),
        top.step < config.workflow@[top.workflow].steps@.len(),
    ensures
        ({
            let ahead = moves_left(config, below.push(top), triggered);
            let path = level_names(below).push(top.workflow);
            let next = Level { step: top.step + 1, ..top };
            let step = config.workflow@[top.workflow].steps@[top.step as int];
            &&& ahead.len() > 0
            &&& match inline_target(step) {
                None => {
                    &&& ahead[0] == (Move::Perform {
                        workflow: top.workflow,
                        files: top.files,
                        step,
                    })
                    &&& moves_left(config, below.push(next), triggered) == ahead.skip(1)
                },
                Some(target) => if level_names(below.push(top)).contains(target) {
                    &&& ahead[0] == Move::Recur(level_names(below.push(top)).push(target))
                    &&& moves_left(config, below.push(next), triggered) == ahead.skip(1)
                } else {
                    let level = Level {
                        workflow: target,
                        files: top.files,
                        step: 0,
                        trigger: 0,
                        pending: Seq::empty(),
                    };
                    &&& ahead[0] == Move::EnterNested(target)
                    &&& moves_left(config, below.push(next).push(level), triggered) == ahead.skip(1)
                },
            }
        }),
{
    let ahead = moves_left(config, below.push(top), triggered);
    let path = level_names(below).push(top.workflow);
    let next = Level { step: top.step + 1, ..top };
    let step = config.workflow@[top.workflow].steps@[top.step as int];
    assert(path.last() == top.workflow);
    assert(level_names(below.push(top)) =~= path);
    lemma_top(config, below, top, triggered);
    match inline_target(step) {
        None => {
            lemma_top(config, below, next, triggered);
            assert(moves_left(config, below.push(next), triggered) =~= ahead.skip(1));
        },
        Some(target) => {
            if path.contains(target) {
                lemma_top(config, below, next, triggered);
                assert(moves_left(config, below.push(next), triggered) =~= ahead.skip(1));
            } else {
                let inner = entered_course(config, path, top.files, target, triggered);
                let level = Level {
                    workflow: target,
                    files: top.files,
                    step: 0,
                    trigger: 0,
                    pending: Seq::empty(),
                };
                lemma_entered(config, below, next, target, triggered);
                lemma_top(config, below, next, inner.triggered);
                assert(moves_left(config, below.push(next).push(level), triggered) =~= ahead.skip(1));
            }
        },
    }
}

proof fn lemma_trigger(config: Config, below: Seq<Level>, top: Level, triggered: Set<Seq<char>>)
    requires
        top.pending.len() == 0,
        config.workflow@.contains_key(top.workflow),
        top.step >= config.workflow@[top.workflow].steps@.len(),
        top.trigger < config.workflow@[top.workflow].triggers@.len(),
    ensures
        ({
            let ahead = moves_left(config, below.push(top), triggered);
            let path = level_names(below).push(top.workflow);
            let next = Level { trigger: top.trigger + 1, ..top };
            let target = config.workflow@[top.workflow].triggers@[top.trigger as int]@;
            let level = Level {
                workflow: target,
                files: top.files,
                step: 0,
                trigger: 0,
                pending: Seq::empty(),
            };
            &&& ahead.len() > 0
            &&& if level_names(below.push(top)).contains(target) {
                &&& ahead[0] == Move::Recur(level_names(below.push(top)).push(target))
                &&& moves_left(config, below.push(next), triggered) == ahead.skip(1)
            } else if triggered.contains(target) {
                &&& ahead[0] == Move::PassOver(target)
                &&& moves_left(config, below.push(next), triggered) == ahead.skip(1)
            } else {
                &&& ahead[0] == Move::EnterTriggered(target)
                &&& moves_left(config, below.push(next).push(level), triggered.insert(target))
                    == ahead.skip(1)
            }
        }),
{
    let ahead = moves_left(config, below.push(top), triggered);
    let path = level_names(below).push(top.workflow);
    let next = Level { trigger: top.trigger + 1, ..top };
    let target = config.workflow@[top.workflow].triggers@[top.trigger as int]@;
    let level = Level {
        workflow: target,
        files: top.files,
        step: 0,
        trigger: 0,
        pending: Seq::empty(),
    };
    assert(path.last() == top.workflow);
    assert(level_names(below.push(top)) =~= path);
    lemma_top(config, below, top, triggered);
    if path.contains(target) || triggered.contains(target) {
        lemma_top(config, below, next, triggered);
        assert(moves_left(config, below.push(next), triggered) =~= ahead.skip(1));
    } else {
        let more = triggered.insert(target);
        let inner = entered_course(config, path, top.files, target, more);
        lemma_entered(config, below, next, target, more);
        lemma_top(config, below, next, inner.triggered);
        assert(moves_left(config, below.push(next).push(level), more) =~= ahead.skip(1));
    }
}

/// The workflow that a move enters from a trigger.
pub open spec fn triggered_entry(m: Move) -> Option<Seq<char>> {
    match m {
        Move::EnterTriggered(name) => Some(name),
        _ => None,
    }
}

/// Whether the moves trigger each workflow at most once, none of `before`, and all of them are in
/// `after`.
spec fn triggers_fresh(moves: Seq<Move>, before: Set<Seq<char>>, after: Set<Seq<char>>) -> bool {
    &&& before.subset_of(after)
    &&& forall|i: int|
        0 <= i < moves.len() ==> (#[trigger] triggered_entry(moves[i]) matches Some(name)
            ==> !before.contains(name) && after.contains(name))
    &&& forall|i: int, j: int|
        0 <= i < j < moves.len() && #[trigger] triggered_entry(moves[i]) is Some
            && #[trigger] triggered_entry(moves[j]) is Some ==> triggered_entry(moves[i])
            != triggered_entry(moves[j])
}

proof fn lemma_fresh_concat(
    a: Seq<Move>,
    b: Seq<Move>,
    before: Set<Seq<char>>,
    between: Set<Seq<char>>,
    after: Set<Seq<char>>,
)
    requires
        triggers_fresh(a, before, between),
        triggers_fresh(b, between, after),
    ensures
        triggers_fresh(a + b, before, after),
{
    let both = a + b;
    assert forall|i: int| 0 <= i < both.len() implies (#[trigger] triggered_entry(both[i]) matches Some(
        name,
    ) ==> !before.contains(name) && after.contains(name)) by {
        if i < a.len() {
            assert(triggered_entry(both[i]) == triggered_entry(a[i]));
        } else {
            assert(triggered_entry(both[i]) == triggered_entry(b[i - a.len()]));
        }
    }
    assert forall|i: int, j: int|
        0 <= i < j < both.len() && #[trigger] triggered_entry(both[i]) is Some
            && #[trigger] triggered_entry(both[j]) is Some implies triggered_entry(both[i])
        != triggered_entry(both[j]) by {
        if j < a.len() {
            assert(triggered_entry(both[i]) == triggered_entry(a[i]));
            assert(triggered_entry(both[j]) == triggered_entry(a[j]));
        } else if i >= a.len() {
            assert(triggered_entry(both[i]) == triggered_entry(b[i - a.len()]));
            assert(triggered_entry(both[j]) == triggered_entry(b[j - a.len()]));
        } else {
            assert(triggered_entry(both[i]) == triggered_entry(a[i]));
            assert(triggered_entry(both[j]) == triggered_entry(b[j - a.len()]));
        }
    }
}

proof fn lemma_course_fresh(
    config: Config,
    path: Seq<Seq<char>>,
    files: Seq<Seq<char>>,
    step: nat,
    trigger: nat,
    triggered: Set<Seq<char>>,
)
    ensures
        ({
            let c = course(config, path, files, step, trigger, triggered);
            triggers_fresh(c.moves, triggered, c.triggered)
        }),
    decreases
            unused(config.workflow.keys(), path),
            work_left(config, path.last(), step, trigger),
            1nat,
{
    let name = path.last();
    let workflow = config.workflow@[name];
    if !config.workflow@.contains_key(name) {
    } else if step < workflow.steps@.len() {
        let first = workflow.steps@[step as int];
        match inline_target(first) {
            None => {
                lemma_course_fresh(config, path, files, step + 1, trigger, triggered);
                let rest = course(config, path, files, step + 1, trigger, triggered);
                let m = Move::Perform { workflow: name, files, step: first };
                lemma_fresh_concat(seq![m], rest.moves, triggered, triggered, rest.triggered);
            },
            Some(target) => {
                if path.contains(target) {
                    lemma_course_fresh(config, path, files, step + 1, trigger, triggered);
                    let rest = course(config, path, files, step + 1, trigger, triggered);
                    let m = Move::Recur(path.push(target));
                    lemma_fresh_concat(seq![m], rest.moves, triggered, triggered, rest.triggered);
                } else {
                    lemma_entered_fresh(config, path, files, target, triggered);
                    let inner = entered_course(config, path, files, target, triggered);
                    let m = Move::EnterNested(target);
                    lemma_fresh_concat(seq![m], inner.moves, triggered, triggered, inner.triggered);
                    if inner.ends {
                        lemma_course_fresh(config, path, files, step + 1, trigger, inner.triggered);
                        let rest = course(config, path, files, step + 1, trigger, inner.triggered);
                        lemma_fresh_concat(
                            seq![m] + inner.moves,
                            rest.moves,
                            triggered,
                            inner.triggered,
                            rest.triggered,
                        );
                    }
                }
            },
        }
    } else if trigger < workflow.triggers@.len() {
        let target = workflow.triggers@[trigger as int]@;
        if path.contains(target) || triggered.contains(target) {
            lemma_course_fresh(config, path, files, step, trigger + 1, triggered);
            let rest = course(config, path, files, step, trigger + 1, triggered);
            let m = if path.contains(target) {
                Move::Recur(path.push(target))
            } else {
                Move::PassOver(target)
            };
            lemma_fresh_concat(seq![m], rest.moves, triggered, triggered, rest.triggered);
        } else {
            let more = triggered.insert(target);
            lemma_entered_fresh(config, path, files, target, more);
            let inner = entered_course(config, path, files, target, more);
            let m = Move::EnterTriggered(target);
            assert(triggers_fresh(seq![m], triggered, more));
            lemma_fresh_concat(seq![m], inner.moves, triggered, more, inner.triggered);
            if inner.ends {
                lemma_course_fresh(config, path, files, step, trigger + 1, inner.triggered);
                let rest = course(config, path, files, step, trigger + 1, inner.triggered);
                lemma_fresh_concat(
                    seq![m] + inner.moves,
                    rest.moves,
                    triggered,
                    inner.triggered,
                    rest.triggered,
                );
            }
        }
    }
}

proof fn lemma_entered_fresh(
    config: Config,
    path: Seq<Seq<char>>,
    files: Seq<Seq<char>>,
    target: Seq<char>,
    triggered: Set<Seq<char>>,
)
    ensures
        ({
            let c = entered_course(config, path, files, target, triggered);
            triggers_fresh(c.moves, triggered, c.triggered)
        }),
    decreases unused(config.workflow.keys(), path), 0nat, 0nat,
{
    if config.workflow@.contains_key(target) && !path.contains(target) {
        lemma_unused_decreases(config.workflow.keys(), path, target);
        lemma_course_fresh(config, path.push(target), files, 0, 0, triggered);
    }
}

/// In one run each workflow is triggered at most once.
pub proof fn law_workflows_are_triggered_once(
    config: Config,
    workflow: Seq<char>,
    files: Seq<Seq<char>>,
    i: int,
    j: int,
)
    requires
        ({
            let moves = run_moves(config, workflow, files);
            &&& 0 <= i < j < moves.len()
            &&& triggered_entry(moves[i]) is Some
            &&& triggered_entry(moves[j]) is Some
        }),
    ensures
        ({
            let moves = run_moves(config, workflow, files);
            triggered_entry(moves[i]) != triggered_entry(moves[j])
        }),
{
    let context = hand_all(change_context(workflow, files));
    let c = course(config, seq![workflow], files, 0, 0, Set::empty());
    lemma_course_fresh(config, seq![workflow], files, 0, 0, Set::empty());
    assert(triggers_fresh(context, Set::empty(), Set::empty()));
    lemma_fresh_concat(context, c.moves, Set::empty(), Set::empty(), c.triggered);
}

/// Whether the moves leave the change context alone and carry `files`.
spec fn keeps_context(moves: Seq<Move>, files: Seq<Seq<char>>) -> bool {
    forall|i: int|
        0 <= i < moves.len() ==> !(#[trigger] moves[i] is Hand) && (moves[i] is Perform
            ==> moves[i]->files == files)
}

proof fn lemma_course_keeps_context(
    config: Config,
    path: Seq<Seq<char>>,
    files: Seq<Seq<char>>,
    step: nat,
    trigger: nat,
    triggered: Set<Seq<char>>,
)
    ensures
        keeps_context(course(config, path, files, step, trigger, triggered).moves, files),
    decreases
            unused(config.workflow.keys(), path),
            work_left(config, path.last(), step, trigger),
            1nat,
{
    let name = path.last();
    let workflow = config.workflow@[name];
    if !config.workflow@.contains_key(name) {
    } else if step < workflow.steps@.len() {
        match inline_target(workflow.steps@[step as int]) {
            None => {
                lemma_course_keeps_context(config, path, files, step + 1, trigger, triggered);
            },
            Some(target) => {
                if path.contains(target) {
                    lemma_course_keeps_context(config, path, files, step + 1, trigger, triggered);
                } else {
                    lemma_entered_keeps_context(config, path, files, target, triggered);
                    let inner = entered_course(config, path, files, target, triggered);
                    if inner.ends {
                        lemma_course_keeps_context(
                            config,
                            path,
                            files,
                            step + 1,
                            trigger,
                            inner.triggered,
                        );
                    }
                }
            },
        }
    } else if trigger < workflow.triggers@.len() {
        let target = workflow.triggers@[trigger as int]@;
        if path.contains(target) || triggered.contains(target) {
            lemma_course_keeps_context(config, path, files, step, trigger + 1, triggered);
        } else {
            let more = triggered.insert(target);
            lemma_entered_keeps_context(config, path, files, target, more);
            let inner = entered_course(config, path, files, target, more);
            if inner.ends {
                lemma_course_keeps_context(config, path, files, step, trigger + 1, inner.triggered);
            }
        }
    }
}

proof fn lemma_entered_keeps_context(
    config: Config,
    path: Seq<Seq<char>>,
    files: Seq<Seq<char>>,
    target: Seq<char>,
    triggered: Set<Seq<char>>,
)
    ensures
        keeps_context(entered_course(config, path, files, target, triggered).moves, files),
    decreases unused(config.workflow.keys(), path), 0nat, 0nat,
{
    if config.workflow@.contains_key(target) && !path.contains(target) {
        lemma_unused_decreases(config.workflow.keys(), path, target);
        lemma_course_keeps_context(config, path.push(target), files, 0, 0, triggered);
    }
}

/// The change context is recorded once, at the start, for the workflow that was started. The
/// workflows that it runs or triggers do not rewrite it, and see the same changed files.
pub proof fn law_change_context_is_recorded_once(
    config: Config,
    workflow: Seq<char>,
    files: Seq<Seq<char>>,
    i: int,
)
    requires
        0 <= i < run_moves(config, workflow, files).len(),
    ensures
        ({
            let m = run_moves(config, workflow, files)[i];
            &&& m is Hand <==> i < 2
            &&& i < 2 ==> m == Move::Hand(change_context(workflow, files)[i])
            &&& m is Perform ==> m->files == files
        }),
{
    lemma_course_keeps_context(config, seq![workflow], files, 0, 0, Set::empty());
    let c = course(config, seq![workflow], files, 0, 0, Set::empty());
    let context = hand_all(change_context(workflow, files));
    assert(context.len() == 2);
    if i >= 2 {
        assert(run_moves(config, workflow, files)[i] == c.moves[i - 2]);
    }
}

/// Whether a move is a refusal.
pub open spec fn is_refusal(m: Move) -> bool {
    m is Recur || m is Miss
}

spec fn succeeds(c: Course) -> bool {
    c.ends && forall|i: int| 0 <= i < c.moves.len() ==> !is_refusal(#[trigger] c.moves[i])
}

proof fn lemma_walk_step(config: Config, path: Seq<Seq<char>>, target: Seq<char>)
    requires
        is_sound(config),
        path.len() > 0,
        config.workflow@.contains_key(path[0]),
        is_walk(config, path),
        leads_to(config, path.last(), target),
    ensures
        is_walk(config, path.push(target)),
        !path.contains(target),
        config.workflow@.contains_key(target),
{
    let longer = path.push(target);
    assert forall|i: int| 0 <= i < longer.len() - 1 implies leads_to(
        config,
        #[trigger] longer[i],
        longer[i + 1],
    ) by {
        if i < path.len() - 1 {
            assert(leads_to(config, path[i], path[i + 1]));
        }
    }
    law_sound_workflows_do_not_recur(config, longer);
    assert(config.workflow@.contains_key(longer[path.len() as int]));
    if path.contains(target) {
        let k = path.index_of(target);
        assert(longer[k] == longer[path.len() as int]);
    }
}

proof fn lemma_course_succeeds(
    config: Config,
    path: Seq<Seq<char>>,
    files: Seq<Seq<char>>,
    step: nat,
    trigger: nat,
    triggered: Set<Seq<char>>,
)
    requires
        is_sound(config),
        path.len() > 0,
        config.workflow@.contains_key(path[0]),
        is_walk(config, path),
    ensures
        succeeds(course(config, path, files, step, trigger, triggered)),
    decreases
            unused(config.workflow.keys(), path),
            work_left(config, path.last(), step, trigger),
            1nat,
{
    law_sound_workflows_do_not_recur(config, path);
    let name = path.last();
    assert(config.workflow@.contains_key(path[path.len() - 1]));
    let workflow = config.workflow@[name];
    if step < workflow.steps@.len() {
        let first = workflow.steps@[step as int];
        match inline_target(first) {
            None => {
                lemma_course_succeeds(config, path, files, step + 1, trigger, triggered);
            },
            Some(target) => {
                assert(runs_inline(workflow, target));
                lemma_walk_step(config, path, target);
                lemma_unused_decreases(config.workflow.keys(), path, target);
                lemma_course_succeeds(config, path.push(target), files, 0, 0, triggered);
                let inner = entered_course(config, path, files, target, triggered);
                lemma_course_succeeds(config, path, files, step + 1, trigger, inner.triggered);
            },
        }
    } else if trigger < workflow.triggers@.len() {
        let target = workflow.triggers@[trigger as int]@;
        assert(texts(workflow.triggers@)[trigger as int] == target);
        assert(runs_trigger(workflow, target));
        lemma_walk_step(config, path, target);
        if triggered.contains(target) {
            lemma_course_succeeds(config, path, files, step, trigger + 1, triggered);
        } else {
            let more = triggered.insert(target);
            lemma_unused_decreases(config.workflow.keys(), path, target);
            lemma_course_succeeds(config, path.push(target), files, 0, 0, more);
            let inner = entered_course(config, path, files, target, more);
            lemma_course_succeeds(config, path, files, step, trigger + 1, inner.triggered);
        }
    }
}

/// In a sound configuration a run of a workflow is never refused.
pub proof fn law_sound_runs_are_not_refused(
    config: Config,
    workflow: Seq<char>,
    files: Seq<Seq<char>>,
    i: int,
)
    requires
        is_sound(config),
        config.workflow@.contains_key(workflow),
        0 <= i < run_moves(config, workflow, files).len(),
    ensures
        !(run_moves(config, workflow, files)[i] is Recur),
        !(run_moves(config, workflow, files)[i] is Miss),
{
    lemma_course_succeeds(config, seq![workflow], files, 0, 0, Set::empty());
    let c = course(config, seq![workflow], files, 0, 0, Set::empty());
    if i >= 2 {
        assert(run_moves(config, workflow, files)[i] == c.moves[i - 2]);
    }
}

/// The moves of which something is to be seen, in order.
pub open spec fn visible(moves: Seq<Move>) -> Seq<Move>
    decreases moves.len(),
{
    if moves.len() == 0 {
        Seq::empty()
    } else if is_silent(moves[0]) {
        visible(moves.skip(1))
    } else {
        seq![moves[0]] + visible(moves.skip(1))
    }
}

/// Asking for effect after effect hands out the visible moves one by one: the first one is handed
/// out, and those behind it are left; once there is none, none is handed out any more.
pub proof fn law_visible_moves_are_handed_out_in_order(moves: Seq<Move>)
    ensures
        ({
            let k = first_visible(moves) as int;
            if visible(moves).len() == 0 {
                k == moves.len()
            } else {
                &&& k < moves.len()
                &&& moves[k] == visible(moves)[0]
                &&& visible(moves.skip(k + 1)) == visible(moves).skip(1)
            }
        }),
    decreases moves.len(),
{
    if moves.len() > 0 {
        let rest = moves.skip(1);
        if is_silent(moves[0]) {
            law_visible_moves_are_handed_out_in_order(rest);
            let k = first_visible(rest) as int;
            if k < rest.len() {
                assert(rest.skip(k + 1) =~= moves.skip(k + 2));
                assert(rest[k] == moves[k + 1]);
            }
        } else {
            assert(visible(moves).skip(1) =~= visible(rest));
        }
    }
}

proof fn lemma_visible_concat(a: Seq<Move>, b: Seq<Move>)
    ensures
        visible(a + b) == visible(a) + visible(b),
    decreases a.len(),
{
    if a.len() == 0 {
        assert(a + b =~= b);
        assert(visible(a) + visible(b) =~= visible(b));
    } else {
        lemma_visible_concat(a.skip(1), b);
        assert((a + b).skip(1) =~= a.skip(1) + b);
        assert((a + b)[0] == a[0]);
        assert(visible(a + b) =~= visible(a) + visible(b));
    }
}

/// The steps of the workflow at the end of `path` from its step `step` on, each with the name of the
/// workflow that holds it. The steps of a workflow that is run inline stand in the place of the step
/// that runs it.
pub open spec fn flat_steps(config: Config, path: Seq<Seq<char>>, step: nat) -> Seq<
    (Seq<char>, WorkflowStep),
>
    decreases
            unused(config.workflow.keys(), path),
            work_left(config, path.last(), step, 0),
            1nat,
{
    let name = path.last();
    let steps = config.workflow@[name].steps@;
    if !config.workflow@.contains_key(name) || step >= steps.len() {
        Seq::empty()
    } else {
        (match inline_target(steps[step as int]) {
            None => seq![(name, steps[step as int])],
            Some(target) => nested_steps(config, path, target),
        }) + flat_steps(config, path, step + 1)
    }
}

/// The steps of the workflow `target`, which the workflow at the end of `path` runs.
pub open spec fn nested_steps(config: Config, path: Seq<Seq<char>>, target: Seq<char>) -> Seq<
    (Seq<char>, WorkflowStep),
>
    decreases unused(config.workflow.keys(), path), 0nat, 0nat,
{
    if !config.workflow@.contains_key(target) || path.contains(target) {
        Seq::empty()
    } else {
        proof {
            lemma_unused_decreases(config.workflow.keys(), path, target);
        }
        flat_steps(config, path.push(target), 0)
    }
}

/// The moves that perform steps.
pub open spec fn perform_all(steps: Seq<(Seq<char>, WorkflowStep)>, files: Seq<Seq<char>>) -> Seq<Move> {
    Seq::new(
        steps.len(),
        |i: int| Move::Perform { workflow: steps[i].0, files, step: steps[i].1 },
    )
}

/// Whether each workflow of `names` runs the next one inline.
pub open spec fn is_inline_walk(config: Config, names: Seq<Seq<char>>) -> bool {
    forall|i: int|
        0 <= i < names.len() - 1 ==> config.workflow@.contains_key(#[trigger] names[i])
            && runs_inline(config.workflow@[names[i]], names[i + 1])
}

/// Whether the workflows that `workflow` leads to inline, and `workflow` itself, exist, have no
/// triggers, and do not lead back to themselves.
pub open spec fn runs_without_triggers(config: Config, workflow: Seq<char>) -> bool {
    forall|names: Seq<Seq<char>>| #[trigger]
        is_inline_walk(config, names) && names.len() > 0 && names[0] == workflow ==> {
            &&& names.no_duplicates()
            &&& config.workflow@.contains_key(names.last())
            &&& config.workflow@[names.last()].triggers@.len() == 0
        }
}

proof fn lemma_visible_one(m: Move)
    ensures
        visible(seq![m]) == if is_silent(m) {
            Seq::empty()
        } else {
            seq![m]
        },
{
    assert(seq![m].skip(1) =~= Seq::empty());
    assert(visible(seq![m].skip(1)) =~= Seq::empty());
    assert(seq![m] + Seq::<Move>::empty() =~= seq![m]);
}

proof fn lemma_flat_course(
    config: Config,
    path: Seq<Seq<char>>,
    files: Seq<Seq<char>>,
    step: nat,
    triggered: Set<Seq<char>>,
)
    requires
        path.len() > 0,
        is_inline_walk(config, path),
        runs_without_triggers(config, path[0]),
    ensures
        ({
            let all = course(config, path, files, step, 0, triggered);
            &&& all.ends
            &&& all.triggered == triggered
            &&& visible(all.moves) == perform_all(flat_steps(config, path, step), files)
        }),
    decreases
            unused(config.workflow.keys(), path),
            work_left(config, path.last(), step, 0),
{
    let name = path.last();
    let workflow = config.workflow@[name];
    assert(config.workflow@.contains_key(name) && workflow.triggers@.len() == 0);
    let all = course(config, path, files, step, 0, triggered);
    let flat = flat_steps(config, path, step);
    if step < workflow.steps@.len() {
        let first = workflow.steps@[step as int];
        let rest = course(config, path, files, step + 1, 0, triggered);
        let rest_flat = flat_steps(config, path, step + 1);
        lemma_flat_course(config, path, files, step + 1, triggered);
        match inline_target(first) {
            None => {
                let here = seq![Move::Perform { workflow: name, files, step: first }];
                lemma_visible_concat(here, rest.moves);
                lemma_visible_one(here[0]);
                assert(flat == seq![(name, first)] + rest_flat);
                assert(perform_all(flat, files) =~= here + perform_all(rest_flat, files));
            },
            Some(target) => {
                let longer = path.push(target);
                assert(runs_inline(workflow, target));
                assert forall|i: int| 0 <= i < longer.len() - 1 implies config.workflow@.contains_key(
                    #[trigger] longer[i],
                ) && runs_inline(config.workflow@[longer[i]], longer[i + 1]) by {
                    if i < path.len() - 1 {
                        assert(longer[i] == path[i] && longer[i + 1] == path[i + 1]);
                    }
                }
                assert(is_inline_walk(config, longer) && longer[0] == path[0]);
                assert(longer.last() == target);
                assert(!path.contains(target)) by {
                    if path.contains(target) {
                        let i = path.index_of(target);
                        assert(longer[i] == longer[path.len() as int]);
                    }
                }
                lemma_unused_decreases(config.workflow.keys(), path, target);
                lemma_flat_course(config, longer, files, 0, triggered);
                let nested = course(config, longer, files, 0, 0, triggered);
                let enter = seq![Move::EnterNested(target)];
                let inner = enter + nested.moves;
                lemma_visible_concat(enter, nested.moves);
                lemma_visible_one(enter[0]);
                assert(visible(inner) =~= visible(nested.moves));
                lemma_visible_concat(inner, rest.moves);
                assert(entered_course(config, path, files, target, triggered) == nested);
                assert(after_move(Move::EnterNested(target), nested).moves == inner);
                assert(all.moves == inner + rest.moves);
                let nested_flat = flat_steps(config, longer, 0);
                assert(nested_steps(config, path, target) == nested_flat);
                assert(flat == nested_flat + rest_flat);
                assert(perform_all(flat, files) =~= perform_all(nested_flat, files) + perform_all(
                    rest_flat,
                    files,
                ));
            },
        }
    } else {
        let leave = seq![Move::Leave(name)];
        lemma_visible_one(leave[0]);
        assert(perform_all(flat, files) =~= Seq::empty());
    }
}

proof fn lemma_all_visible(effects: Seq<EffectView>)
    ensures
        visible(hand_all(effects)) == hand_all(effects),
    decreases effects.len(),
{
    if effects.len() > 0 {
        let moves = hand_all(effects);
        assert(moves.skip(1) =~= hand_all(effects.skip(1)));
        lemma_all_visible(effects.skip(1));
        assert(visible(moves) =~= moves);
    } else {
        assert(hand_all(effects) =~= Seq::empty());
    }
}

/// A run without triggers records the change context, and then performs the steps of its workflow
/// in order, with the steps of each workflow that is run inline in the place of the step that runs
/// it. Each step is performed for the workflow that holds it, with the changed files of the run.
pub proof fn law_runs_perform_their_steps_in_order(
    config: Config,
    workflow: Seq<char>,
    files: Seq<Seq<char>>,
)
    requires
        runs_without_triggers(config, workflow),
    ensures
        visible(run_moves(config, workflow, files)) == hand_all(change_context(workflow, files))
            + perform_all(flat_steps(config, seq![workflow], 0), files),
{
    let path = seq![workflow];
    assert(is_inline_walk(config, path));
    lemma_flat_course(config, path, files, 0, Set::empty());
    lemma_all_visible(change_context(workflow, files));
    lemma_visible_concat(
        hand_all(change_context(workflow, files)),
        course(config, path, files, 0, 0, Set::empty()).moves,
    );
}

/// A step that writes a key hands out the rendering of its template for that key, and from then on
/// the session holds exactly that text under the key and what it held elsewhere, whatever the key
/// held before.
pub proof fn law_write_state_writes_what_it_renders(
    workflow: Seq<char>,
    files: Seq<Seq<char>>,
    key: String,
    template: String,
    session: Map<Seq<char>, Json>,
    other: Seq<char>,
)
    requires
        other != key@,
    ensures
        ({
            let m = Move::Perform {
                workflow,
                files,
                step: WorkflowStep::WriteState { key, value: template },
            };
            let text = rendered(session, template@);
            let after = session_after(m, session);
            &&& move_effect(m, session) == Some(
                EffectView::PersistState { key: key@, value: Json::Text(text) },
            )
            &&& after.contains_key(key@) && after[key@] == Json::Text(text)
            &&& after.contains_key(other) == session.contains_key(other)
            &&& session.contains_key(other) ==> after[other] == session[other]
        }),
{
}

/// The step that puts a page behind an address shows both as the session holds them, whatever was
/// written before.
pub proof fn law_composed_texts_follow_their_parts(
    workflow: Seq<char>,
    files: Seq<Seq<char>>,
    key: String,
    template: String,
    session: Map<Seq<char>, Json>,
    first: Seq<char>,
    middle: Seq<char>,
    second: Seq<char>,
    a: Seq<char>,
    b: Seq<char>,
)
    requires
        is_key(first),
        is_key(second),
        forall|i: int| 0 <= i < middle.len() ==> #[trigger] middle[i] != '{',
        session.contains_key(first) && session[first] == Json::Text(a),
        session.contains_key(second) && session[second] == Json::Text(b),
        template@ == seq!['{', '{'] + first + seq!['}', '}'] + middle + seq!['{', '{'] + second
            + seq!['}', '}'],
    ensures
        move_effect(
            Move::Perform {
                workflow,
                files,
                step: WorkflowStep::WriteState { key, value: template },
            },
            session,
        ) == Some(
            EffectView::PersistState { key: key@, value: Json::Text(a + middle + b) },
        ),
{
    let none = Seq::<char>::empty();
    let last = middle + reference_to(none, second, none);
    law_references_are_filled_in_where_they_stand(session, none, none, first, none, last);
    law_references_are_filled_in_where_they_stand(session, middle, none, second, none, none);
    assert(template@ =~= none + reference_to(none, first, none) + last);
    assert(last =~= middle + reference_to(none, second, none) + none);
    law_plain_text_renders_to_itself(session, none);
    assert(none + a + (middle + b + none) =~= a + middle + b);
}

/// Every step but one that writes a key or runs a workflow leaves the session as it is, and hands
/// out what it names: a process, a hook with the workflow and the files of the run, a time, the
/// rendering of a message in its style, or a reload.
pub proof fn law_other_steps_hand_out_what_they_name(
    workflow: Seq<char>,
    files: Seq<Seq<char>>,
    name: String,
    style: LogStyle,
    duration_ms: u64,
    session: Map<Seq<char>, Json>,
)
    ensures
        ({
            let at = |step: WorkflowStep|
                {
                    let m = Move::Perform { workflow, files, step };
                    (move_effect(m, session), session_after(m, session))
                };
            &&& at(WorkflowStep::StartProcess { process: name }) == (
                Some(EffectView::StartProcess(name@)),
                session,
            )
            &&& at(WorkflowStep::StopProcess { process: name }) == (
                Some(EffectView::StopProcess(name@)),
                session,
            )
            &&& at(WorkflowStep::RestartProcess { process: name }) == (
                Some(EffectView::RestartProcess(name@)),
                session,
            )
            &&& at(WorkflowStep::WaitForProcess { process: name }) == (
                Some(EffectView::WaitForProcess(name@)),
                session,
            )
            &&& at(WorkflowStep::RunHook { hook: name }) == (
                Some(EffectView::RunHook { hook: name@, workflow, files }),
                session,
            )
            &&& at(WorkflowStep::SleepMs { duration_ms }) == (
                Some(EffectView::SleepMs(duration_ms)),
                session,
            )
            &&& at(WorkflowStep::Log { message: name, style }) == (
                Some(EffectView::Log { message: rendered(session, name@), style }),
                session,
            )
            &&& at(WorkflowStep::NotifyReload) == (Some(EffectView::NotifyReload), session)
        }),
{
}

/// Whether a step has been performed for the workflow that holds it, or has entered the workflow
/// that it runs.
pub open spec fn is_seen(
    moves: Seq<Move>,
    workflow: Seq<char>,
    files: Seq<Seq<char>>,
    step: WorkflowStep,
) -> bool {
    match inline_target(step) {
        None => moves.contains(Move::Perform { workflow, files, step }),
        Some(target) => moves.contains(Move::EnterNested(target)),
    }
}

spec fn covers(
    config: Config,
    name: Seq<char>,
    files: Seq<Seq<char>>,
    c: Course,
    step: nat,
    trigger: nat,
) -> bool {
    let workflow = config.workflow@[name];
    &&& forall|i: int|
        step <= i < workflow.steps@.len() ==> is_seen(
            c.moves,
            name,
            files,
            #[trigger] workflow.steps@[i],
        )
    &&& forall|i: int|
        trigger <= i < workflow.triggers@.len() ==> c.triggered.contains(
            (#[trigger] workflow.triggers@[i])@,
        )
}

/// Whether the moves enter a workflow.
pub open spec fn enters(moves: Seq<Move>, name: Seq<char>) -> bool {
    moves.contains(Move::EnterNested(name)) || moves.contains(Move::EnterTriggered(name))
}

spec fn covers_all(config: Config, files: Seq<Seq<char>>, c: Course, triggered: Set<Seq<char>>) -> bool {
    &&& forall|name: Seq<char>| #[trigger]
        enters(c.moves, name) ==> covers(config, name, files, c, 0, 0)
    &&& forall|name: Seq<char>| #[trigger]
        c.triggered.contains(name) ==> triggered.contains(name) || c.moves.contains(
            Move::EnterTriggered(name),
        )
    &&& forall|name: Seq<char>| #[trigger] triggered.contains(name) ==> c.triggered.contains(name)
}

proof fn lemma_moves_concat(a: Seq<Move>, b: Seq<Move>, m: Move)
    ensures
        (a + b).contains(m) <==> a.contains(m) || b.contains(m),
{
    let all = a + b;
    if a.contains(m) {
        let i = a.index_of(m);
        assert(all[i] == m);
    }
    if b.contains(m) {
        let i = b.index_of(m);
        assert(all[a.len() + i] == m);
    }
    if all.contains(m) {
        let i = all.index_of(m);
        if i < a.len() {
            assert(a[i] == m);
        } else {
            assert(b[i - a.len()] == m);
        }
    }
}

proof fn lemma_covers_more(
    config: Config,
    name: Seq<char>,
    files: Seq<Seq<char>>,
    part: Course,
    whole: Course,
    step: nat,
    trigger: nat,
)
    requires
        covers(config, name, files, part, step, trigger),
        forall|m: Move| #[trigger] part.moves.contains(m) ==> whole.moves.contains(m),
        forall|t: Seq<char>| #[trigger] part.triggered.contains(t) ==> whole.triggered.contains(t),
    ensures
        covers(config, name, files, whole, step, trigger),
{
    let workflow = config.workflow@[name];
    assert forall|i: int| step <= i < workflow.steps@.len() implies is_seen(
        whole.moves,
        name,
        files,
        #[trigger] workflow.steps@[i],
    ) by {
        assert(is_seen(part.moves, name, files, workflow.steps@[i]));
    }
    assert forall|i: int| trigger <= i < workflow.triggers@.len() implies whole.triggered.contains(
        (#[trigger] workflow.triggers@[i])@,
    ) by {
        assert(part.triggered.contains(workflow.triggers@[i]@));
    }
}

proof fn lemma_one_more_move(
    config: Config,
    files: Seq<Seq<char>>,
    m: Move,
    rest: Course,
    triggered: Set<Seq<char>>,
)
    requires
        covers_all(config, files, rest, triggered),
        !(m is EnterNested) && !(m is EnterTriggered),
    ensures
        covers_all(config, files, after_move(m, rest), triggered),
        forall|other: Move| #[trigger]
            rest.moves.contains(other) ==> after_move(m, rest).moves.contains(other),
        after_move(m, rest).moves.contains(m),
{
    let whole = after_move(m, rest);
    assert forall|other: Move| whole.moves.contains(other) <==> (other == m || #[trigger] rest.moves.contains(
        other,
    )) by {
        lemma_moves_concat(seq![m], rest.moves, other);
        if other == m {
            assert(seq![m][0] == m);
            assert(seq![m].contains(m));
        }
    }
    assert(whole.moves.contains(m)) by {
        lemma_moves_concat(seq![m], rest.moves, m);
        assert(seq![m][0] == m);
        assert(seq![m].contains(m));
    }
    assert forall|name: Seq<char>| #[trigger] enters(whole.moves, name) implies covers(
        config,
        name,
        files,
        whole,
        0,
        0,
    ) by {
        assert(rest.moves.contains(Move::EnterNested(name)) || rest.moves.contains(
            Move::EnterTriggered(name),
        )) by {
            lemma_moves_concat(seq![m], rest.moves, Move::EnterNested(name));
            lemma_moves_concat(seq![m], rest.moves, Move::EnterTriggered(name));
        }
        assert(enters(rest.moves, name));
        lemma_covers_more(config, name, files, rest, whole, 0, 0);
    }
    assert forall|name: Seq<char>| #[trigger] whole.triggered.contains(name) implies triggered.contains(
        name,
    ) || whole.moves.contains(Move::EnterTriggered(name)) by {
        lemma_moves_concat(seq![m], rest.moves, Move::EnterTriggered(name));
    }
}

proof fn lemma_entered_and_rest(
    config: Config,
    files: Seq<Seq<char>>,
    enter: Move,
    target: Seq<char>,
    inner: Course,
    rest: Course,
    triggered: Set<Seq<char>>,
    inside: Set<Seq<char>>,
)
    requires
        enter == Move::EnterNested(target) && inside == triggered || enter == Move::EnterTriggered(
            target,
        ) && inside == triggered.insert(target),
        covers_all(config, files, inner, inside),
        covers(config, target, files, inner, 0, 0),
        covers_all(config, files, rest, inner.triggered),
    ensures
        ({
            let whole = Course { moves: after_move(enter, inner).moves + rest.moves, ..rest };
            &&& covers_all(config, files, whole, triggered)
            &&& forall|m: Move| #[trigger] rest.moves.contains(m) ==> whole.moves.contains(m)
            &&& whole.moves.contains(enter)
            &&& forall|t: Seq<char>| #[trigger] inside.contains(t) ==> whole.triggered.contains(t)
        }),
{
    let entered = after_move(enter, inner);
    let whole = Course { moves: entered.moves + rest.moves, ..rest };
    assert(whole.moves.contains(enter)) by {
        lemma_moves_concat(seq![enter], inner.moves, enter);
        assert(seq![enter][0] == enter);
        assert(seq![enter].contains(enter));
        lemma_moves_concat(entered.moves, rest.moves, enter);
    }
    assert forall|m: Move| #[trigger] inner.moves.contains(m) implies whole.moves.contains(m) by {
        lemma_moves_concat(seq![enter], inner.moves, m);
        lemma_moves_concat(entered.moves, rest.moves, m);
    }
    assert forall|m: Move| #[trigger] rest.moves.contains(m) implies whole.moves.contains(m) by {
        lemma_moves_concat(entered.moves, rest.moves, m);
    }
    assert forall|name: Seq<char>| #[trigger] enters(whole.moves, name) implies covers(
        config,
        name,
        files,
        whole,
        0,
        0,
    ) by {
        lemma_moves_concat(seq![enter], inner.moves, Move::EnterNested(name));
        lemma_moves_concat(seq![enter], inner.moves, Move::EnterTriggered(name));
        lemma_moves_concat(entered.moves, rest.moves, Move::EnterNested(name));
        lemma_moves_concat(entered.moves, rest.moves, Move::EnterTriggered(name));
        if enters(rest.moves, name) {
            lemma_covers_more(config, name, files, rest, whole, 0, 0);
        } else if enters(inner.moves, name) {
            lemma_covers_more(config, name, files, inner, whole, 0, 0);
        } else {
            assert(name == target);
            lemma_covers_more(config, name, files, inner, whole, 0, 0);
        }
    }
    assert forall|name: Seq<char>| #[trigger] whole.triggered.contains(name) implies triggered.contains(
        name,
    ) || whole.moves.contains(Move::EnterTriggered(name)) by {
        if !rest.moves.contains(Move::EnterTriggered(name)) {
            assert(inner.triggered.contains(name));
            if !inner.moves.contains(Move::EnterTriggered(name)) {
                assert(inside.contains(name));
            }
        }
    }
    assert forall|t: Seq<char>| #[trigger] inside.contains(t) implies whole.triggered.contains(t) by {
        assert(inner.triggered.contains(t));
    }
    assert forall|t: Seq<char>| #[trigger] triggered.contains(t) implies whole.triggered.contains(t) by {
        assert(inside.contains(t));
    }
}

proof fn lemma_course_covers(
    config: Config,
    path: Seq<Seq<char>>,
    files: Seq<Seq<char>>,
    step: nat,
    trigger: nat,
    triggered: Set<Seq<char>>,
)
    requires
        is_sound(config),
        path.len() > 0,
        config.workflow@.contains_key(path[0]),
        is_walk(config, path),
    ensures
        ({
            let c = course(config, path, files, step, trigger, triggered);
            &&& c.ends
            &&& covers_all(config, files, c, triggered)
            &&& covers(config, path.last(), files, c, step, trigger)
        }),
    decreases
            unused(config.workflow.keys(), path),
            work_left(config, path.last(), step, trigger),
{
    law_sound_workflows_do_not_recur(config, path);
    let name = path.last();
    assert(config.workflow@.contains_key(path[path.len() - 1]));
    let workflow = config.workflow@[name];
    let c = course(config, path, files, step, trigger, triggered);
    if step < workflow.steps@.len() {
        let first = workflow.steps@[step as int];
        match inline_target(first) {
            None => {
                let rest = course(config, path, files, step + 1, trigger, triggered);
                lemma_course_covers(config, path, files, step + 1, trigger, triggered);
                let m = Move::Perform { workflow: name, files, step: first };
                lemma_one_more_move(config, files, m, rest, triggered);
                lemma_covers_more(config, name, files, rest, c, step + 1, trigger);
                assert(is_seen(c.moves, name, files, first));
            },
            Some(target) => {
                assert(runs_inline(workflow, target));
                lemma_walk_step(config, path, target);
                lemma_unused_decreases(config.workflow.keys(), path, target);
                lemma_course_covers(config, path.push(target), files, 0, 0, triggered);
                let inner = entered_course(config, path, files, target, triggered);
                assert(inner == course(config, path.push(target), files, 0, 0, triggered));
                lemma_course_covers(config, path, files, step + 1, trigger, inner.triggered);
                let rest = course(config, path, files, step + 1, trigger, inner.triggered);
                lemma_entered_and_rest(
                    config,
                    files,
                    Move::EnterNested(target),
                    target,
                    inner,
                    rest,
                    triggered,
                    triggered,
                );
                lemma_covers_more(config, name, files, rest, c, step + 1, trigger);
                assert(is_seen(c.moves, name, files, first));
            },
        }
        assert(covers(config, name, files, c, step, trigger)) by {
            assert forall|i: int| step <= i < workflow.steps@.len() implies is_seen(
                c.moves,
                name,
                files,
                #[trigger] workflow.steps@[i],
            ) by {
                if i > step {
                    assert(step + 1 <= i);
                }
            }
        }
    } else if trigger < workflow.triggers@.len() {
        let target = workflow.triggers@[trigger as int]@;
        assert(texts(workflow.triggers@)[trigger as int] == target);
        assert(runs_trigger(workflow, target));
        lemma_walk_step(config, path, target);
        if triggered.contains(target) {
            let rest = course(config, path, files, step, trigger + 1, triggered);
            lemma_course_covers(config, path, files, step, trigger + 1, triggered);
            lemma_one_more_move(config, files, Move::PassOver(target), rest, triggered);
            lemma_covers_more(config, name, files, rest, c, step, trigger + 1);
            assert(c.triggered.contains(target));
        } else {
            let more = triggered.insert(target);
            lemma_unused_decreases(config.workflow.keys(), path, target);
            lemma_course_covers(config, path.push(target), files, 0, 0, more);
            let inner = entered_course(config, path, files, target, more);
            assert(inner == course(config, path.push(target), files, 0, 0, more));
            lemma_course_covers(config, path, files, step, trigger + 1, inner.triggered);
            let rest = course(config, path, files, step, trigger + 1, inner.triggered);
            lemma_entered_and_rest(
                config,
                files,
                Move::EnterTriggered(target),
                target,
                inner,
                rest,
                triggered,
                more,
            );
            lemma_covers_more(config, name, files, rest, c, step, trigger + 1);
            assert(more.contains(target));
            assert(c.triggered.contains(target));
        }
        assert(covers(config, name, files, c, step, trigger)) by {
            assert forall|i: int| trigger <= i < workflow.triggers@.len() implies c.triggered.contains(
                (#[trigger] workflow.triggers@[i])@,
            ) by {
                if i > trigger {
                    assert(trigger + 1 <= i);
                }
            }
        }
    }
}

/// In a sound configuration a run performs every step of its workflow and of every workflow that it
/// enters, enters every workflow that one of these steps runs, and enters every workflow that one of
/// these workflows triggers.
pub proof fn law_sound_runs_leave_nothing_out(
    config: Config,
    workflow: Seq<char>,
    files: Seq<Seq<char>>,
    name: Seq<char>,
    i: int,
)
    requires
        is_sound(config),
        config.workflow@.contains_key(workflow),
        name == workflow || enters(run_moves(config, workflow, files), name),
    ensures
        ({
            let moves = run_moves(config, workflow, files);
            let own = config.workflow@[name];
            &&& 0 <= i < own.steps@.len() ==> match own.steps@[i] {
                WorkflowStep::RunWorkflow { workflow: nested } => moves.contains(
                    Move::EnterNested(nested@),
                ),
                step => moves.contains(Move::Perform { workflow: name, files, step }),
            }
            &&& 0 <= i < own.triggers@.len() ==> moves.contains(
                Move::EnterTriggered(own.triggers@[i]@),
            )
        }),
{
    let path = seq![workflow];
    lemma_course_covers(config, path, files, 0, 0, Set::empty());
    let c = course(config, path, files, 0, 0, Set::empty());
    let context = hand_all(change_context(workflow, files));
    let moves = run_moves(config, workflow, files);
    lemma_moves_concat(context, c.moves, Move::EnterNested(name));
    lemma_moves_concat(context, c.moves, Move::EnterTriggered(name));
    if name != workflow {
        assert(enters(c.moves, name));
    }
    assert(covers(config, name, files, c, 0, 0));
    let own = config.workflow@[name];
    if 0 <= i < own.steps@.len() {
        let step = own.steps@[i];
        assert(is_seen(c.moves, name, files, step));
        lemma_moves_concat(context, c.moves, Move::Perform { workflow: name, files, step });
        if let WorkflowStep::RunWorkflow { workflow: nested } = step {
            lemma_moves_concat(context, c.moves, Move::EnterNested(nested@));
        }
    }
    if 0 <= i < own.triggers@.len() {
        let target = own.triggers@[i]@;
        assert(c.triggered.contains(target));
        lemma_moves_concat(context, c.moves, Move::EnterTriggered(target));
    }
}

/// Whether a workflow exists and has no step that runs a workflow.
pub open spec fn is_plain(config: Config, name: Seq<char>) -> bool {
    config.workflow@.contains_key(name) && forall|i: int|
        0 <= i < config.workflow@[name].steps@.len() ==> !(
        #[trigger] config.workflow@[name].steps@[i] is RunWorkflow)
}

/// The moves that perform the steps of a workflow, in order.
pub open spec fn own_moves(config: Config, name: Seq<char>, files: Seq<Seq<char>>) -> Seq<Move> {
    let steps = config.workflow@[name].steps@;
    Seq::new(steps.len(), |i: int| Move::Perform { workflow: name, files, step: steps[i] })
}

/// The moves that perform the steps of workflows, one workflow behind the other.
pub open spec fn moves_of_each(config: Config, names: Seq<Seq<char>>, files: Seq<Seq<char>>) -> Seq<Move>
    decreases names.len(),
{
    if names.len() == 0 {
        Seq::empty()
    } else {
        own_moves(config, names[0], files) + moves_of_each(config, names.skip(1), files)
    }
}

proof fn lemma_plain_course(
    config: Config,
    path: Seq<Seq<char>>,
    files: Seq<Seq<char>>,
    step: nat,
    trigger: nat,
    triggered: Set<Seq<char>>,
)
    requires
        path.len() > 0,
        is_plain(config, path.last()),
        step <= config.workflow@[path.last()].steps@.len(),
    ensures
        ({
            let n = config.workflow@[path.last()].steps@.len();
            let all = course(config, path, files, step, trigger, triggered);
            let end = course(config, path, files, n, trigger, triggered);
            &&& all.ends == end.ends
            &&& all.triggered == end.triggered
            &&& visible(all.moves) == own_moves(config, path.last(), files).skip(step as int) + visible(
                end.moves,
            )
        }),
    decreases config.workflow@[path.last()].steps@.len() - step,
{
    let name = path.last();
    let steps = config.workflow@[name].steps@;
    let own = own_moves(config, name, files);
    let end = course(config, path, files, steps.len(), trigger, triggered);
    if step < steps.len() {
        lemma_plain_course(config, path, files, step + 1, trigger, triggered);
        let rest = course(config, path, files, step + 1, trigger, triggered);
        let here = seq![Move::Perform { workflow: name, files, step: steps[step as int] }];
        assert(!(steps[step as int] is RunWorkflow));
        assert(inline_target(steps[step as int]) is None);
        lemma_visible_concat(here, rest.moves);
        lemma_visible_one(here[0]);
        assert(own.skip(step as int) =~= here + own.skip(step as int + 1));
        assert(visible(course(config, path, files, step, trigger, triggered).moves) =~= own.skip(
            step as int,
        ) + visible(end.moves));
    } else {
        assert(own.skip(step as int) =~= Seq::empty());
        assert(own.skip(step as int) + visible(end.moves) =~= visible(end.moves));
    }
}

proof fn lemma_plain_triggers(
    config: Config,
    name: Seq<char>,
    files: Seq<Seq<char>>,
    trigger: nat,
    triggered: Set<Seq<char>>,
)
    requires
        is_plain(config, name),
        texts(config.workflow@[name].triggers@).no_duplicates(),
        trigger <= config.workflow@[name].triggers@.len(),
        forall|i: int|
            0 <= i < config.workflow@[name].triggers@.len() ==> {
                let target = (#[trigger] config.workflow@[name].triggers@[i])@;
                &&& target != name
                &&& is_plain(config, target)
                &&& config.workflow@[target].triggers@.len() == 0
                &&& i >= trigger ==> !triggered.contains(target)
            },
    ensures
        ({
            let n = config.workflow@[name].steps@.len();
            let c = course(config, seq![name], files, n, trigger, triggered);
            &&& c.ends
            &&& visible(c.moves) == moves_of_each(
                config,
                texts(config.workflow@[name].triggers@).skip(trigger as int),
                files,
            )
        }),
    decreases config.workflow@[name].triggers@.len() - trigger,
{
    let path = seq![name];
    let workflow = config.workflow@[name];
    let n = workflow.steps@.len();
    let names = texts(workflow.triggers@);
    let c = course(config, path, files, n, trigger, triggered);
    if trigger < workflow.triggers@.len() {
        let target = workflow.triggers@[trigger as int]@;
        assert(names[trigger as int] == target);
        assert(!path.contains(target));
        let more = triggered.insert(target);
        let longer = path.push(target);
        assert(longer.last() == target);
        lemma_plain_course(config, longer, files, 0, 0, more);
        let m = config.workflow@[target].steps@.len();
        let leave = course(config, longer, files, m, 0, more);
        assert(leave.moves =~= seq![Move::Leave(target)]);
        lemma_visible_one(Move::Leave(target));
        let inner = entered_course(config, path, files, target, more);
        assert(inner == course(config, longer, files, 0, 0, more));
        assert(inner.ends && inner.triggered == more);
        let own = own_moves(config, target, files);
        assert(own.skip(0) =~= own);
        assert(visible(inner.moves) =~= own);
        let enter = seq![Move::EnterTriggered(target)];
        lemma_visible_one(enter[0]);
        lemma_visible_concat(enter, inner.moves);
        assert(visible(enter + inner.moves) =~= own);
        assert forall|i: int| 0 <= i < workflow.triggers@.len() implies {
            let target = (#[trigger] workflow.triggers@[i])@;
            &&& target != name
            &&& is_plain(config, target)
            &&& config.workflow@[target].triggers@.len() == 0
            &&& i >= trigger + 1 ==> !more.contains(target)
        } by {
            assert(names[i] == workflow.triggers@[i]@);
            if i > trigger {
                assert(names[i] != names[trigger as int]);
            }
        }
        lemma_plain_triggers(config, name, files, trigger + 1, more);
        let rest = course(config, path, files, n, trigger + 1, more);
        assert(c.moves == enter + inner.moves + rest.moves);
        lemma_visible_concat(enter + inner.moves, rest.moves);
        assert(names.skip(trigger as int)[0] == target);
        assert(names.skip(trigger as int).skip(1) =~= names.skip(trigger as int + 1));
    } else {
        assert(c.moves =~= seq![Move::Leave(name)]);
        lemma_visible_one(Move::Leave(name));
        assert(names.skip(trigger as int) =~= Seq::empty());
    }
}

/// A workflow whose steps run no other workflow performs them in the order in which they stand, and
/// then the steps of each workflow that it triggers, in the order of the triggers.
pub proof fn law_triggers_run_behind_the_steps(
    config: Config,
    workflow: Seq<char>,
    files: Seq<Seq<char>>,
)
    requires
        is_plain(config, workflow),
        texts(config.workflow@[workflow].triggers@).no_duplicates(),
        forall|i: int|
            0 <= i < config.workflow@[workflow].triggers@.len() ==> {
                let target = (#[trigger] config.workflow@[workflow].triggers@[i])@;
                &&& target != workflow
                &&& is_plain(config, target)
                &&& config.workflow@[target].triggers@.len() == 0
            },
    ensures
        visible(run_moves(config, workflow, files)) == hand_all(change_context(workflow, files))
            + own_moves(config, workflow, files) + moves_of_each(
            config,
            texts(config.workflow@[workflow].triggers@),
            files,
        ),
{
    let path = seq![workflow];
    lemma_plain_course(config, path, files, 0, 0, Set::empty());
    lemma_plain_triggers(config, workflow, files, 0, Set::empty());
    lemma_all_visible(change_context(workflow, files));
    let c = course(config, path, files, 0, 0, Set::empty());
    lemma_visible_concat(hand_all(change_context(workflow, files)), c.moves);
    let own = own_moves(config, workflow, files);
    let names = texts(config.workflow@[workflow].triggers@);
    assert(own.skip(0) =~= own);
    assert(names.skip(0) =~= names);
    assert(visible(run_moves(config, workflow, files)) =~= hand_all(change_context(workflow, files))
        + own + moves_of_each(config, names, files));
}

/// A run first records the name of its workflow and the changed files, each file as a text, in their
/// order.
pub proof fn law_runs_record_what_set_them_off(
    config: Config,
    workflow: Seq<char>,
    files: Seq<Seq<char>>,
    session: Map<Seq<char>, Json>,
    i: int,
)
    ensures
        ({
            let moves = run_moves(config, workflow, files);
            &&& moves.len() >= 2
            &&& move_effect(moves[0], session) == Some(
                EffectView::PersistState { key: "last_workflow"@, value: Json::Text(workflow) },
            )
            &&& move_effect(moves[1], session) matches Some(EffectView::PersistState { key, value })
                && key == "last_changed_files"@ && (value matches Json::Array(list) && list.len()
                == files.len() && (0 <= i < files.len() ==> list[i] == Json::Text(files[i])))
        }),
{
    let context = hand_all(change_context(workflow, files));
    assert(context.len() == 2);
    let moves = run_moves(config, workflow, files);
    assert(moves[0] == context[0] && moves[1] == context[1]);
}

} // verus!
