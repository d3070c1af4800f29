//! The graph of workflows: what each one runs inline and what it triggers.

use crate::config::{Config, WorkflowSpec, WorkflowStep};
use crate::name_map::{
    lemma_precedes_irreflexive, lemma_precedes_transitive, precedes, NameSet,
};
use crate::text::{contains_text, copy_texts, texts};
use vstd::prelude::*;

verus! {

/// Why a workflow is refused.
#[derive(Debug, Clone, PartialEq, Eq)]
pub enum WorkflowProblem<T, P> {
    NoSteps,
    MissingProcess(T),
    MissingHook(T),
    MissingWorkflow(T),
    Recursion(P),
    Overlap(T),
}

/// Why a workflow is refused.
pub type WorkflowError = WorkflowProblem<String, Vec<String>>;

/// What a refusal says.
pub type Defect = WorkflowProblem<Seq<char>, Seq<Seq<char>>>;

impl WorkflowProblem<String, Vec<String>> {
    /// What the refusal says.
    pub open spec fn view(&self) -> Defect {
        match *self {
            WorkflowProblem::NoSteps => WorkflowProblem::NoSteps,
            WorkflowProblem::MissingProcess(name) => WorkflowProblem::MissingProcess(name@),
            WorkflowProblem::MissingHook(name) => WorkflowProblem::MissingHook(name@),
            WorkflowProblem::MissingWorkflow(name) => WorkflowProblem::MissingWorkflow(name@),
            WorkflowProblem::Recursion(cycle) => WorkflowProblem::Recursion(texts(cycle@)),
            WorkflowProblem::Overlap(name) => WorkflowProblem::Overlap(name@),
        }
    }
}

/// How many of the names are not in `used`.
pub open spec fn unused(names: Seq<Seq<char>>, used: Seq<Seq<char>>) -> nat
    decreases names.len(),
{
    if names.len() == 0 {
        0
    } else {
        unused(names.drop_last(), used) + if used.contains(names.last()) {
            0nat
        } else {
            1nat
        }
    }
}

proof fn lemma_unused_monotone(names: Seq<Seq<char>>, used: Seq<Seq<char>>, name: Seq<char>)
    ensures
        unused(names, used.push(name)) <= unused(names, used),
    decreases names.len(),
{
    if names.len() > 0 {
        lemma_unused_monotone(names.drop_last(), used, name);
        let last = names.last();
        if used.contains(last) {
            assert(used.push(name)[used.index_of(last)] == last);
        }
    }
}

/// Using one more of the names leaves fewer.
pub proof fn lemma_unused_decreases(names: Seq<Seq<char>>, used: Seq<Seq<char>>, name: Seq<char>)
    requires
        names.contains(name),
        !used.contains(name),
    ensures
        unused(names, used.push(name)) < unused(names, used),
    decreases names.len(),
{
    let rest = names.drop_last();
    lemma_unused_monotone(rest, used, name);
    let last = names.last();
    if used.contains(last) {
        assert(used.push(name)[used.index_of(last)] == last);
    }
    if last == name {
        assert(used.push(name)[used.len() as int] == name);
    } else {
        let p = names.index_of(name);
        assert(rest[p] == name);
        lemma_unused_decreases(rest, used, name);
    }
}

/// The workflow that a step runs inline.
pub open spec fn inline_target(step: WorkflowStep) -> Option<Seq<char>> {
    match step {
        WorkflowStep::RunWorkflow { workflow } => Some(workflow@),
        _ => None,
    }
}

/// Whether one of the steps of a workflow runs `target` inline.
pub open spec fn runs_inline(workflow: WorkflowSpec, target: Seq<char>) -> bool {
    exists|i: int|
        0 <= i < workflow.steps@.len() && #[trigger] inline_target(workflow.steps@[i]) == Some(target)
}

/// Whether a workflow triggers `target`.
pub open spec fn runs_trigger(workflow: WorkflowSpec, target: Seq<char>) -> bool {
    texts(workflow.triggers@).contains(target)
}

/// Whether the workflow `from` runs `to`, inline or as a trigger.
pub open spec fn leads_to(config: Config, from: Seq<char>, to: Seq<char>) -> bool {
    config.workflow@.contains_key(from) && (runs_inline(config.workflow@[from], to) || runs_trigger(
        config.workflow@[from],
        to,
    ))
}

/// A place in an execution tree: a workflow, and whether a step of a workflow above it was run
/// inline on the way there.
pub type Place = (Seq<char>, bool);

/// Whether an execution tree goes from `from` to `to` in one step.
pub open spec fn tree_edge(config: Config, from: Place, to: Place) -> bool {
    config.workflow@.contains_key(from.0) && {
        let workflow = config.workflow@[from.0];
        ||| runs_inline(workflow, to.0) && to.1
        ||| runs_trigger(workflow, to.0) && to.1 == from.1
    }
}

/// Whether `places` is a way through the execution tree.
pub open spec fn tree_path(config: Config, places: Seq<Place>) -> bool {
    &&& places.len() > 0
    &&& forall|i: int|
        0 <= i < places.len() - 1 ==> tree_edge(config, #[trigger] places[i], places[i + 1])
}

/// Whether the execution tree of `root` reaches a place.
pub open spec fn in_tree(config: Config, root: Seq<char>, place: Place) -> bool {
    exists|places: Seq<Place>| #[trigger]
        tree_path(config, places) && places[0] == (root, false) && places.last() == place
}

/// Whether `name` is a trigger target that only triggers lead to from `root`.
pub open spec fn is_trigger_target(config: Config, root: Seq<char>, name: Seq<char>) -> bool {
    exists|from: Seq<char>| #[trigger]
        in_tree(config, root, (from, false)) && config.workflow@.contains_key(from) && runs_trigger(
            config.workflow@[from],
            name,
        )
}

/// Whether `name` is reached from `root` on a way that runs a step inline.
pub open spec fn is_inline_reachable(config: Config, root: Seq<char>, name: Seq<char>) -> bool {
    in_tree(config, root, (name, true))
}

/// Whether `name` is both a trigger target and inline reachable in the execution tree of `root`.
pub open spec fn overlaps(config: Config, root: Seq<char>, name: Seq<char>) -> bool {
    is_trigger_target(config, root, name) && is_inline_reachable(config, root, name)
}

/// Whether `name` is the first workflow, in the order of names, that overlaps.
pub open spec fn is_first_overlap(config: Config, root: Seq<char>, name: Seq<char>) -> bool {
    &&& overlaps(config, root, name)
    &&& forall|other: Seq<char>| #[trigger]
        overlaps(config, root, other) ==> other == name || precedes(name, other)
}

/// What is wrong with the execution tree of `root`: the first workflow that overlaps.
pub open spec fn overlap_defect(config: Config, root: Seq<char>) -> Option<Defect> {
    if exists|name: Seq<char>| overlaps(config, root, name) {
        Some(WorkflowProblem::Overlap(choose|name: Seq<char>| is_first_overlap(config, root, name)))
    } else {
        None
    }
}

/// What is wrong with the workflow `name` when the workflows of `stack` lead to it: the first
/// thing in the order of its steps, then of its triggers, then its execution tree.
pub open spec fn workflow_defect(
    config: Config,
    name: Seq<char>,
    workflow: WorkflowSpec,
    stack: Seq<Seq<char>>,
) -> Option<Defect>
    decreases unused(config.workflow.keys(), stack), 2nat, 0nat,
{
    if workflow.steps@.len() == 0 {
        Some(WorkflowProblem::NoSteps)
    } else if let Some(defect) = steps_defect(config, workflow.steps@, stack, 0) {
        Some(defect)
    } else if let Some(defect) = triggers_defect(config, texts(workflow.triggers@), stack, 0) {
        Some(defect)
    } else if workflow.triggers@.len() > 0 {
        overlap_defect(config, name)
    } else {
        None
    }
}

/// What is wrong with the first step from place `i` on with which something is wrong.
pub open spec fn steps_defect(
    config: Config,
    steps: Seq<WorkflowStep>,
    stack: Seq<Seq<char>>,
    i: nat,
) -> Option<Defect>
    decreases unused(config.workflow.keys(), stack), 1nat, steps.len() - i,
{
    if i >= steps.len() {
        None
    } else if let Some(defect) = step_defect(config, steps[i as int], stack) {
        Some(defect)
    } else {
        steps_defect(config, steps, stack, i + 1)
    }
}

/// What is wrong with the first trigger from place `i` on with which something is wrong.
pub open spec fn triggers_defect(
    config: Config,
    triggers: Seq<Seq<char>>,
    stack: Seq<Seq<char>>,
    i: nat,
) -> Option<Defect>
    decreases unused(config.workflow.keys(), stack), 1nat, triggers.len() - i,
{
    if i >= triggers.len() {
        None
    } else if let Some(defect) = nested_defect(config, stack, triggers[i as int]) {
        Some(defect)
    } else {
        triggers_defect(config, triggers, stack, i + 1)
    }
}

/// What is wrong with a step: it names what the configuration lacks, or runs a workflow with
/// which something is wrong.
pub open spec fn step_defect(config: Config, step: WorkflowStep, stack: Seq<Seq<char>>) -> Option<
    Defect,
>
    decreases unused(config.workflow.keys(), stack), 0nat, 1nat,
{
    match step {
        WorkflowStep::StartProcess { process } => process_defect(config, process@),
        WorkflowStep::StopProcess { process } => process_defect(config, process@),
        WorkflowStep::RestartProcess { process } => process_defect(config, process@),
        WorkflowStep::WaitForProcess { process } => process_defect(config, process@),
        WorkflowStep::RunHook { hook } => if config.hook@.contains_key(hook@) {
            None
        } else {
            Some(WorkflowProblem::MissingHook(hook@))
        },
        WorkflowStep::RunWorkflow { workflow } => nested_defect(config, stack, workflow@),
        _ => None,
    }
}

/// What is wrong with a step that names a process: the configuration lacks it.
pub open spec fn process_defect(config: Config, process: Seq<char>) -> Option<Defect> {
    if config.process@.contains_key(process) {
        None
    } else {
        Some(WorkflowProblem::MissingProcess(process))
    }
}

/// What is wrong with running `name` when the workflows of `stack` lead to it: it leads back to
/// one of them, it is missing, or something is wrong with it.
pub open spec fn nested_defect(config: Config, stack: Seq<Seq<char>>, name: Seq<char>) -> Option<
    Defect,
>
    decreases unused(config.workflow.keys(), stack), 0nat, 0nat,
{
    if stack.contains(name) {
        Some(WorkflowProblem::Recursion(stack.push(name)))
    } else if !config.workflow@.contains_key(name) {
        Some(WorkflowProblem::MissingWorkflow(name))
    } else {
        proof {
            lemma_unused_decreases(config.workflow.keys(), stack, name);
        }
        workflow_defect(config, name, config.workflow@[name], stack.push(name))
    }
}

/// The places of a list of names with flags.
pub open spec fn places_of(list: Seq<(String, bool)>) -> Seq<Place> {
    Seq::new(list.len(), |i: int| (list[i].0@, list[i].1))
}

proof fn lemma_in_tree_step(config: Config, root: Seq<char>, from: Place, to: Place)
    requires
        in_tree(config, root, from),
        tree_edge(config, from, to),
    ensures
        in_tree(config, root, to),
{
    let places = choose|places: Seq<Place>| #[trigger]
        tree_path(config, places) && places[0] == (root, false) && places.last() == from;
    let longer = places.push(to);
    assert forall|i: int| 0 <= i < longer.len() - 1 implies tree_edge(
        config,
        #[trigger] longer[i],
        longer[i + 1],
    ) by {
        if i < places.len() - 1 {
            assert(tree_edge(config, places[i], places[i + 1]));
        }
    }
    assert(tree_path(config, longer));
    assert(longer[0] == (root, false) && longer.last() == to);
}

/// A set of places that holds the root and what each of its places leads to holds all of the
/// execution tree.
proof fn lemma_closed_holds_tree(
    config: Config,
    root: Seq<char>,
    seen: spec_fn(Place) -> bool,
    places: Seq<Place>,
)
    requires
        seen((root, false)),
        forall|from: Place, to: Place|
            seen(from) && #[trigger] tree_edge(config, from, to) ==> seen(to),
        tree_path(config, places),
        places[0] == (root, false),
    ensures
        seen(places.last()),
    decreases places.len(),
{
    if places.len() > 1 {
        let shorter = places.drop_last();
        assert forall|i: int| 0 <= i < shorter.len() - 1 implies tree_edge(
            config,
            #[trigger] shorter[i],
            shorter[i + 1],
        ) by {
            assert(tree_edge(config, places[i], places[i + 1]));
        }
        lemma_closed_holds_tree(config, root, seen, shorter);
        let last = places.len() - 1;
        assert(tree_edge(config, places[last - 1], places[last - 1 + 1]));
    }
}

/// Puts the workflows that `workflow` runs inline on the list.
fn push_inline_targets(workflow: &WorkflowSpec, list: &mut Vec<(String, bool)>)
    ensures
        final(list)@.len() >= old(list)@.len(),
        final(list)@.take(old(list)@.len() as int) == old(list)@,
        forall|k: int|
            old(list)@.len() <= k < final(list)@.len() ==> runs_inline(
                *workflow,
                (#[trigger] final(list)@[k]).0@,
            ) && final(list)@[k].1,
        forall|target: Seq<char>|
            runs_inline(*workflow, target) ==> places_of(final(list)@).contains((target, true)),
{
    let ghost before = list@;
    let mut i: usize = 0;
    while i < workflow.steps.len()
        invariant
            i <= workflow.steps@.len(),
            list@.len() >= before.len(),
            list@.take(before.len() as int) == before,
            forall|k: int|
                before.len() <= k < list@.len() ==> runs_inline(*workflow, (#[trigger] list@[k]).0@)
                    && list@[k].1,
            forall|k: int|
                0 <= k < i && #[trigger] inline_target(workflow.steps@[k]) is Some ==> places_of(
                    list@,
                ).contains((inline_target(workflow.steps@[k])->0, true)),
        decreases workflow.steps@.len() - i,
    {
        if let WorkflowStep::RunWorkflow { workflow: target } = &workflow.steps[i] {
            let ghost earlier = list@;
            list.push((target.clone(), true));
            proof {
                assert(inline_target(workflow.steps@[i as int]) == Some(target@));
                assert(list@.take(before.len() as int) =~= earlier.take(before.len() as int));
                assert forall|place: Place| places_of(earlier).contains(place) implies places_of(
                    list@,
                ).contains(place) by {
                    assert(places_of(list@)[places_of(earlier).index_of(place)] == place);
                }
                assert(places_of(list@)[earlier.len() as int] == (target@, true));
            }
        }
        i = i + 1;
    }
    assert forall|target: Seq<char>| runs_inline(*workflow, target) implies places_of(
        list@,
    ).contains((target, true)) by {
        let k = choose|k: int|
            0 <= k < workflow.steps@.len() && #[trigger] inline_target(workflow.steps@[k]) == Some(
                target,
            );
    }
}

/// Puts the triggers of `workflow` on the list, each with the flag `used_inline`.
fn push_triggers(workflow: &WorkflowSpec, used_inline: bool, list: &mut Vec<(String, bool)>)
    ensures
        final(list)@.len() >= old(list)@.len(),
        final(list)@.take(old(list)@.len() as int) == old(list)@,
        forall|k: int|
            old(list)@.len() <= k < final(list)@.len() ==> runs_trigger(
                *workflow,
                (#[trigger] final(list)@[k]).0@,
            ) && final(list)@[k].1 == used_inline,
        forall|target: Seq<char>|
            runs_trigger(*workflow, target) ==> places_of(final(list)@).contains(
                (target, used_inline),
            ),
{
    let ghost before = list@;
    let mut i: usize = 0;
    while i < workflow.triggers.len()
        invariant
            i <= workflow.triggers@.len(),
            list@.len() == before.len() + i,
            list@.take(before.len() as int) == before,
            forall|k: int|
                0 <= k < i ==> places_of(list@)[before.len() + k] == (
                    #[trigger] workflow.triggers@[k]@,
                    used_inline,
                ),
        decreases workflow.triggers@.len() - i,
    {
        let ghost earlier = list@;
        list.push((workflow.triggers[i].clone(), used_inline));
        assert(list@.take(before.len() as int) =~= earlier.take(before.len() as int));
        assert forall|k: int| 0 <= k <= i implies places_of(list@)[before.len() + k] == (
            #[trigger] workflow.triggers@[k]@,
            used_inline,
        ) by {
            if k < i {
                assert(places_of(earlier)[before.len() + k] == (workflow.triggers@[k]@, used_inline));
            }
        }
        i = i + 1;
    }
    proof {
        let names = texts(workflow.triggers@);
        assert forall|k: int| before.len() <= k < list@.len() implies runs_trigger(
            *workflow,
            (#[trigger] list@[k]).0@,
        ) && list@[k].1 == used_inline by {
            let t = k - before.len();
            assert(places_of(list@)[before.len() + t] == (workflow.triggers@[t]@, used_inline));
            assert(names[t] == list@[k].0@);
        }
        assert forall|target: Seq<char>| runs_trigger(*workflow, target) implies places_of(
            list@,
        ).contains((target, used_inline)) by {
            let k = names.index_of(target);
            assert(places_of(list@)[before.len() + k] == (workflow.triggers@[k]@, used_inline));
        }
    }
}

/// Adds the triggers of `workflow` to the set.
fn add_triggers(workflow: &WorkflowSpec, targets: &mut NameSet)
    ensures
        forall|name: Seq<char>| #[trigger]
            final(targets)@.contains(name) <==> old(targets)@.contains(name) || runs_trigger(
                *workflow,
                name,
            ),
{
    let ghost before = targets@;
    let ghost names = texts(workflow.triggers@);
    let mut i: usize = 0;
    while i < workflow.triggers.len()
        invariant
            i <= workflow.triggers@.len(),
            names == texts(workflow.triggers@),
            forall|name: Seq<char>| #[trigger]
                targets@.contains(name) <==> before.contains(name) || names.take(i as int).contains(name),
        decreases workflow.triggers@.len() - i,
    {
        let ghost earlier = targets@;
        targets.insert(workflow.triggers[i].clone());
        proof {
            let part = names.take(i as int);
            let longer = names.take(i + 1);
            assert(longer =~= part.push(names[i as int]));
            assert forall|name: Seq<char>| #[trigger]
                targets@.contains(name) <==> before.contains(name) || longer.contains(name) by {
                if part.contains(name) {
                    assert(longer[part.index_of(name)] == name);
                }
                if longer.contains(name) && name != names[i as int] {
                    assert(part[longer.index_of(name)] == name);
                }
                assert(longer[i as int] == names[i as int]);
                assert(earlier.contains(name) || name == names[i as int] || !targets@.contains(name));
            }
        }
        i = i + 1;
    }
    assert(names.take(i as int) =~= names);
}

/// The trigger targets and the inline reachable workflows of the execution tree of
/// `workflow_name`.
fn execution_tree_overlap_sets(config: &Config, workflow_name: &str) -> (sets: (NameSet, NameSet))
    ensures
        forall|name: Seq<char>| #[trigger]
            sets.0@.contains(name) <==> is_trigger_target(*config, workflow_name@, name),
        forall|name: Seq<char>| #[trigger]
            sets.1@.contains(name) <==> is_inline_reachable(*config, workflow_name@, name),
{
    let ghost root = workflow_name@;
    let mut stack: Vec<(String, bool)> = Vec::new();
    stack.push((workflow_name.to_owned(), false));
    let mut seen_plain = NameSet::new();
    let mut seen_inline = NameSet::new();
    let mut trigger_targets = NameSet::new();
    let ghost mut plain: Seq<Seq<char>> = Seq::empty();
    let ghost mut inline: Seq<Seq<char>> = Seq::empty();
    let ghost keys = config.workflow.keys();
    proof {
        let start: Seq<Place> = seq![(root, false)];
        assert(tree_path(*config, start));
        assert(start[0] == (root, false) && start.last() == (root, false));
        assert(in_tree(*config, root, (root, false)));
        assert(places_of(stack@)[0] == (root, false));
    }
    while stack.len() > 0
        invariant
            root == workflow_name@,
            keys == config.workflow.keys(),
            forall|name: Seq<char>| #[trigger] seen_plain@.contains(name) <==> plain.contains(name),
            forall|name: Seq<char>| #[trigger] seen_inline@.contains(name) <==> inline.contains(name),
            forall|k: int|
                0 <= k < stack@.len() ==> in_tree(*config, root, #[trigger] places_of(stack@)[k]),
            forall|name: Seq<char>| #[trigger]
                seen_plain@.contains(name) ==> in_tree(*config, root, (name, false)),
            forall|name: Seq<char>| #[trigger]
                seen_inline@.contains(name) ==> in_tree(*config, root, (name, true)),
            seen_plain@.contains(root) || places_of(stack@).contains((root, false)),
            forall|from: Place, to: Place|
                (if from.1 { seen_inline@.contains(from.0) } else { seen_plain@.contains(from.0) })
                    && #[trigger] tree_edge(*config, from, to) ==> (if to.1 {
                    seen_inline@.contains(to.0)
                } else {
                    seen_plain@.contains(to.0)
                }) || places_of(stack@).contains(to),
            forall|name: Seq<char>| #[trigger]
                trigger_targets@.contains(name) <==> exists|from: Seq<char>| #[trigger]
                    seen_plain@.contains(from) && config.workflow@.contains_key(from) && runs_trigger(
                        config.workflow@[from],
                        name,
                    ),
        decreases unused(keys, plain) + unused(keys, inline), stack@.len(),
    {
        let ghost waiting = stack@;
        let (name, used_inline) = match stack.pop() {
            Some(entry) => entry,
            None => {
                return (trigger_targets, seen_inline);
            },
        };
        let ghost place: Place = (name@, used_inline);
        let ghost rest = stack@;
        let ghost targets_before = trigger_targets@;
        let ghost plain_seen_before = seen_plain@;
        proof {
            assert(places_of(waiting)[waiting.len() - 1] == place);
            assert forall|p: Place| places_of(waiting).contains(p) && p != place implies places_of(
                rest,
            ).contains(p) by {
                assert(places_of(rest)[places_of(waiting).index_of(p)] == p);
            }
            assert forall|k: int| 0 <= k < rest.len() implies in_tree(
                *config,
                root,
                #[trigger] places_of(rest)[k],
            ) by {
                assert(places_of(rest)[k] == places_of(waiting)[k]);
            }
        }
        let fresh = if used_inline {
            seen_inline.insert(name.clone())
        } else {
            seen_plain.insert(name.clone())
        };
        if fresh {
            let ghost plain_before = plain;
            let ghost inline_before = inline;
            proof {
                if used_inline {
                    inline = inline.push(name@);
                    lemma_unused_monotone(keys, inline_before, name@);
                    lemma_push_contains(inline_before, name@);
                } else {
                    plain = plain.push(name@);
                    lemma_unused_monotone(keys, plain_before, name@);
                    lemma_push_contains(plain_before, name@);
                }
            }
            if let Some(workflow) = config.workflow.get(name.as_str()) {
                proof {
                    if used_inline {
                        lemma_unused_decreases(keys, inline_before, name@);
                    } else {
                        lemma_unused_decreases(keys, plain_before, name@);
                    }
                }
                push_inline_targets(workflow, &mut stack);
                let ghost half = stack@;
                if !used_inline {
                    add_triggers(workflow, &mut trigger_targets);
                }
                push_triggers(workflow, used_inline, &mut stack);
                proof {
                    assert forall|k: int| 0 <= k < stack@.len() implies in_tree(
                        *config,
                        root,
                        #[trigger] places_of(stack@)[k],
                    ) by {
                        let q = places_of(stack@)[k];
                        if k < rest.len() {
                            assert(half.take(rest.len() as int)[k] == rest[k]);
                            assert(stack@.take(half.len() as int)[k] == half[k]);
                            assert(q == places_of(rest)[k]);
                        } else {
                            if k < half.len() {
                                assert(stack@.take(half.len() as int)[k] == half[k]);
                            }
                            assert(tree_edge(*config, place, q));
                            lemma_in_tree_step(*config, root, place, q);
                        }
                    }
                    assert forall|p: Place| places_of(rest).contains(p) || places_of(half).contains(
                        p,
                    ) implies places_of(stack@).contains(p) by {
                        if places_of(rest).contains(p) {
                            let k = places_of(rest).index_of(p);
                            assert(half.take(rest.len() as int)[k] == rest[k]);
                            assert(stack@.take(half.len() as int)[k] == half[k]);
                            assert(places_of(stack@)[k] == p);
                        } else {
                            let k = places_of(half).index_of(p);
                            assert(stack@.take(half.len() as int)[k] == half[k]);
                            assert(places_of(stack@)[k] == p);
                        }
                    }
                }
            }
        }
        assert forall|target: Seq<char>| #[trigger]
            trigger_targets@.contains(target) <==> exists|from: Seq<char>| #[trigger]
                seen_plain@.contains(from) && config.workflow@.contains_key(from) && runs_trigger(
                    config.workflow@[from],
                    target,
                ) by {
            if targets_before.contains(target) {
                let from = choose|from: Seq<char>| #[trigger]
                    plain_seen_before.contains(from) && config.workflow@.contains_key(from)
                        && runs_trigger(config.workflow@[from], target);
                assert(seen_plain@.contains(from));
            } else if trigger_targets@.contains(target) {
                assert(seen_plain@.contains(name@));
            } else if exists|from: Seq<char>| #[trigger]
                seen_plain@.contains(from) && config.workflow@.contains_key(from) && runs_trigger(
                    config.workflow@[from],
                    target,
                ) {
                let from = choose|from: Seq<char>| #[trigger]
                    seen_plain@.contains(from) && config.workflow@.contains_key(from)
                        && runs_trigger(config.workflow@[from], target);
                assert(plain_seen_before.contains(from));
            }
        }
    }
    proof {
        let seen = |p: Place| if p.1 { seen_inline@.contains(p.0) } else { seen_plain@.contains(p.0) };
        assert forall|p: Place| in_tree(*config, root, p) implies #[trigger] seen(p) by {
            let places = choose|places: Seq<Place>| #[trigger]
                tree_path(*config, places) && places[0] == (root, false) && places.last() == p;
            lemma_closed_holds_tree(*config, root, seen, places);
        }
        assert forall|name: Seq<char>| #[trigger]
            trigger_targets@.contains(name) <==> is_trigger_target(*config, root, name) by {
            if is_trigger_target(*config, root, name) {
                let from = choose|from: Seq<char>| #[trigger]
                    in_tree(*config, root, (from, false)) && config.workflow@.contains_key(from)
                        && runs_trigger(config.workflow@[from], name);
                assert(seen((from, false)));
                assert(seen_plain@.contains(from));
            }
        }
        assert forall|name: Seq<char>| #[trigger]
            seen_inline@.contains(name) <==> is_inline_reachable(*config, root, name) by {
            if is_inline_reachable(*config, root, name) {
                assert(seen((name, true)));
            }
        }
    }
    (trigger_targets, seen_inline)
}

proof fn lemma_push_contains(names: Seq<Seq<char>>, name: Seq<char>)
    ensures
        forall|other: Seq<char>| #[trigger]
            names.push(name).contains(other) <==> names.contains(other) || other == name,
{
    assert forall|other: Seq<char>| #[trigger]
        names.push(name).contains(other) <==> names.contains(other) || other == name by {
        if names.contains(other) {
            assert(names.push(name)[names.index_of(other)] == other);
        }
        assert(names.push(name)[names.len() as int] == name);
        if names.push(name).contains(other) && other != name {
            assert(names[names.push(name).index_of(other)] == other);
        }
    }
}

/// Refuses an execution tree in which a workflow is both a trigger target and inline reachable.
fn validate_execution_tree_overlap(config: &Config, workflow_name: &str) -> (result: Result<
    (),
    WorkflowError,
>)
    ensures
        match result {
            Ok(()) => overlap_defect(*config, workflow_name@) is None,
            Err(error) => overlap_defect(*config, workflow_name@) == Some(error@),
        },
{
    let (trigger_targets, inline_reachable) = execution_tree_overlap_sets(config, workflow_name);
    let ghost root = workflow_name@;
    let mut i: usize = 0;
    let n: usize = trigger_targets.len();
    while i < n
        invariant
            root == workflow_name@,
            i <= n == trigger_targets.keys().len(),
            trigger_targets.wf(),
            forall|name: Seq<char>| #[trigger]
                trigger_targets@.contains(name) <==> is_trigger_target(*config, root, name),
            forall|name: Seq<char>| #[trigger]
                inline_reachable@.contains(name) <==> is_inline_reachable(*config, root, name),
            forall|k: int|
                0 <= k < i ==> !inline_reachable@.contains(#[trigger] trigger_targets.keys()[k]),
        decreases n - i,
    {
        let name = trigger_targets.name_at(i);
        if inline_reachable.contains(name.as_str()) {
            proof {
                assert(overlaps(*config, root, name@));
                assert forall|other: Seq<char>| #[trigger] overlaps(*config, root, other) implies other
                    == name@ || precedes(name@, other) by {
                    assert(trigger_targets@.contains(other));
                    let k = trigger_targets.keys().index_of(other);
                    assert(trigger_targets.keys()[k] == other);
                    assert(inline_reachable@.contains(other));
                    assert(k >= i);
                    assert(trigger_targets.keys()[i as int] == name@);
                }
                assert(is_first_overlap(*config, root, name@));
                let first = choose|name: Seq<char>| is_first_overlap(*config, root, name);
                lemma_first_overlap_unique(*config, root, first, name@);
            }
            return Err(WorkflowProblem::Overlap(name.clone()));
        }
        i = i + 1;
    }
    assert forall|name: Seq<char>| !overlaps(*config, root, name) by {
        if overlaps(*config, root, name) {
            assert(trigger_targets@.contains(name));
            let k = trigger_targets.keys().index_of(name);
            assert(!inline_reachable@.contains(trigger_targets.keys()[k]));
        }
    }
    Ok(())
}

proof fn lemma_first_overlap_unique(config: Config, root: Seq<char>, a: Seq<char>, b: Seq<char>)
    requires
        is_first_overlap(config, root, a),
        is_first_overlap(config, root, b),
    ensures
        a == b,
{
    if a != b {
        assert(overlaps(config, root, a) && overlaps(config, root, b));
        lemma_precedes_transitive(a, b, a);
        lemma_precedes_irreflexive(a);
    }
}

/// Refuses a step or trigger that runs `workflow`, where the workflows of `stack` lead to it.
fn validate_nested_workflow(config: &Config, stack: &mut Vec<String>, workflow: &str) -> (result:
    Result<(), WorkflowError>)
    ensures
        match result {
            Ok(()) => nested_defect(*config, texts(old(stack)@), workflow@) is None && texts(
                final(stack)@,
            ) == texts(old(stack)@),
            Err(error) => nested_defect(*config, texts(old(stack)@), workflow@) == Some(error@),
        },
    decreases unused(config.workflow.keys(), texts(old(stack)@)), 0nat, 0nat,
{
    let ghost names = texts(stack@);
    if contains_text(stack, workflow) {
        let mut cycle = copy_texts(stack);
        cycle.push(workflow.to_owned());
        assert(texts(cycle@) =~= names.push(workflow@));
        return Err(WorkflowProblem::Recursion(cycle));
    }
    match config.workflow.get(workflow) {
        None => Err(WorkflowProblem::MissingWorkflow(workflow.to_owned())),
        Some(nested) => {
            stack.push(workflow.to_owned());
            assert(texts(stack@) =~= names.push(workflow@));
            proof {
                lemma_unused_decreases(config.workflow.keys(), names, workflow@);
            }
            match nested.validate_inner(config, workflow, stack) {
                Ok(()) => {
                    assert(stack@.len() == names.len() + 1) by {
                        assert(texts(stack@).len() == names.len() + 1);
                    }
                    let ghost deeper = stack@;
                    stack.pop();
                    assert(texts(stack@) =~= texts(deeper).drop_last());
                    assert(names.push(workflow@).drop_last() =~= names);
                    Ok(())
                },
                Err(error) => Err(error),
            }
        },
    }
}

impl WorkflowSpec {
    /// Refuses the workflow, under the name `workflow_name`, for the first thing that is wrong
    /// with it or with a workflow that it runs.
    pub fn validate(&self, config: &Config, workflow_name: &str) -> (result: Result<
        (),
        WorkflowError,
    >)
        ensures
            match result {
                Ok(()) => workflow_defect(*config, workflow_name@, *self, Seq::empty()) is None,
                Err(error) => workflow_defect(*config, workflow_name@, *self, Seq::empty()) == Some(
                    error@,
                ),
            },
    {
        let mut stack: Vec<String> = Vec::new();
        assert(texts(stack@) =~= Seq::empty());
        self.validate_inner(config, workflow_name, &mut stack)
    }

    fn validate_inner(&self, config: &Config, workflow_name: &str, stack: &mut Vec<String>) -> (result:
        Result<(), WorkflowError>)
        ensures
            match result {
                Ok(()) => workflow_defect(*config, workflow_name@, *self, texts(old(stack)@)) is None
                    && texts(final(stack)@) == texts(old(stack)@),
                Err(error) => workflow_defect(*config, workflow_name@, *self, texts(old(stack)@))
                    == Some(error@),
            },
        decreases unused(config.workflow.keys(), texts(old(stack)@)), 2nat, 0nat,
    {
        let ghost names = texts(stack@);
        if self.steps.is_empty() {
            return Err(WorkflowProblem::NoSteps);
        }
        let mut i: usize = 0;
        while i < self.steps.len()
            invariant
                i <= self.steps@.len(),
                self.steps@.len() > 0,
                names == texts(old(stack)@),
                texts(stack@) == names,
                steps_defect(*config, self.steps@, names, 0) == steps_defect(
                    *config,
                    self.steps@,
                    names,
                    i as nat,
                ),
            decreases self.steps@.len() - i,
        {
            let ghost step = self.steps@[i as int];
            assert(steps_defect(*config, self.steps@, names, i as nat) == match step_defect(
                *config,
                step,
                names,
            ) {
                Some(defect) => Some(defect),
                None => steps_defect(*config, self.steps@, names, i as nat + 1),
            });
            match &self.steps[i] {
                WorkflowStep::StartProcess { process }
                | WorkflowStep::StopProcess { process }
                | WorkflowStep::RestartProcess { process }
                | WorkflowStep::WaitForProcess { process } => {
                    if !config.process.contains_key(process.as_str()) {
                        return Err(WorkflowProblem::MissingProcess(process.clone()));
                    }
                },
                WorkflowStep::RunHook { hook } => {
                    if !config.hook.contains_key(hook.as_str()) {
                        return Err(WorkflowProblem::MissingHook(hook.clone()));
                    }
                },
                WorkflowStep::RunWorkflow { workflow } => {
                    if let Err(error) = validate_nested_workflow(config, stack, workflow.as_str()) {
                        return Err(error);
                    }
                },
                WorkflowStep::SleepMs { .. }
                | WorkflowStep::WriteState { .. }
                | WorkflowStep::Log { .. }
                | WorkflowStep::NotifyReload => {},
            }
            i = i + 1;
        }
        let mut j: usize = 0;
        while j < self.triggers.len()
            invariant
                j <= self.triggers@.len(),
                self.steps@.len() > 0,
                names == texts(old(stack)@),
                texts(stack@) == names,
                steps_defect(*config, self.steps@, names, 0) is None,
                triggers_defect(*config, texts(self.triggers@), names, 0) == triggers_defect(
                    *config,
                    texts(self.triggers@),
                    names,
                    j as nat,
                ),
            decreases self.triggers@.len() - j,
        {
            if let Err(error) = validate_nested_workflow(config, stack, self.triggers[j].as_str()) {
                return Err(error);
            }
            j = j + 1;
        }
        if !self.triggers.is_empty() {
            return validate_execution_tree_overlap(config, workflow_name);
        }
        Ok(())
    }
}

/// Whether nothing is wrong with any workflow.
pub open spec fn is_sound(config: Config) -> bool {
    forall|name: Seq<char>| #[trigger]
        config.workflow@.contains_key(name) ==> workflow_defect(
            config,
            name,
            config.workflow@[name],
            Seq::empty(),
        ) is None
}

/// Whether each workflow of `names` runs the next one.
pub open spec fn is_walk(config: Config, names: Seq<Seq<char>>) -> bool {
    forall|i: int| 0 <= i < names.len() - 1 ==> leads_to(config, #[trigger] names[i], names[i + 1])
}

proof fn lemma_steps_defect(
    config: Config,
    steps: Seq<WorkflowStep>,
    stack: Seq<Seq<char>>,
    from: nat,
    i: int,
)
    requires
        steps_defect(config, steps, stack, from) is None,
        from <= i < steps.len(),
    ensures
        step_defect(config, steps[i], stack) is None,
    decreases i - from,
{
    if from < i {
        lemma_steps_defect(config, steps, stack, from + 1, i);
    }
}

proof fn lemma_triggers_defect(
    config: Config,
    triggers: Seq<Seq<char>>,
    stack: Seq<Seq<char>>,
    from: nat,
    i: int,
)
    requires
        triggers_defect(config, triggers, stack, from) is None,
        from <= i < triggers.len(),
    ensures
        nested_defect(config, stack, triggers[i]) is None,
    decreases i - from,
{
    if from < i {
        lemma_triggers_defect(config, triggers, stack, from + 1, i);
    }
}

proof fn lemma_target_has_no_defect(
    config: Config,
    name: Seq<char>,
    stack: Seq<Seq<char>>,
    target: Seq<char>,
)
    requires
        config.workflow@.contains_key(name),
        workflow_defect(config, name, config.workflow@[name], stack) is None,
        leads_to(config, name, target),
    ensures
        nested_defect(config, stack, target) is None,
{
    let workflow = config.workflow@[name];
    if runs_inline(workflow, target) {
        let i = choose|i: int|
            0 <= i < workflow.steps@.len() && #[trigger] inline_target(workflow.steps@[i]) == Some(
                target,
            );
        lemma_steps_defect(config, workflow.steps@, stack, 0, i);
    } else {
        let triggers = texts(workflow.triggers@);
        let i = triggers.index_of(target);
        lemma_triggers_defect(config, triggers, stack, 0, i);
    }
}

proof fn lemma_walk_from_sound(config: Config, names: Seq<Seq<char>>)
    requires
        names.len() > 0,
        is_walk(config, names),
        config.workflow@.contains_key(names[0]),
        workflow_defect(config, names[0], config.workflow@[names[0]], Seq::empty()) is None,
    ensures
        config.workflow@.contains_key(names.last()),
        workflow_defect(config, names.last(), config.workflow@[names.last()], names.skip(1)) is None,
        names.skip(1).no_duplicates(),
    decreases names.len(),
{
    if names.len() == 1 {
        assert(names.skip(1) =~= Seq::<Seq<char>>::empty());
    } else {
        let shorter = names.drop_last();
        assert forall|i: int| 0 <= i < shorter.len() - 1 implies leads_to(
            config,
            #[trigger] shorter[i],
            shorter[i + 1],
        ) by {
            assert(leads_to(config, names[i], names[i + 1]));
        }
        lemma_walk_from_sound(config, shorter);
        let last = names.last();
        let k = names.len() - 2;
        assert(leads_to(config, names[k], names[k + 1]));
        lemma_target_has_no_defect(config, shorter.last(), shorter.skip(1), last);
        assert(names.skip(1) =~= shorter.skip(1).push(last));
        assert forall|i: int, j: int|
            0 <= i < names.skip(1).len() && 0 <= j < names.skip(1).len() && i != j implies names.skip(
            1,
        )[i] != names.skip(1)[j] by {
            let base = shorter.skip(1);
            if i < base.len() && j < base.len() {
                assert(base[i] != base[j]);
            } else if i < base.len() {
                assert(base.contains(base[i]));
            } else {
                assert(base.contains(base[j]));
            }
        }
    }
}

/// In a sound configuration every workflow that a workflow runs exists, and no workflow leads
/// back to itself: the workflows along a walk are all different.
pub proof fn law_sound_workflows_do_not_recur(config: Config, names: Seq<Seq<char>>)
    requires
        is_sound(config),
        names.len() > 0,
        config.workflow@.contains_key(names[0]),
        is_walk(config, names),
    ensures
        names.no_duplicates(),
        forall|i: int| 0 <= i < names.len() ==> config.workflow@.contains_key(#[trigger] names[i]),
{
    assert(workflow_defect(config, names[0], config.workflow@[names[0]], Seq::empty()) is None);
    lemma_walk_from_sound(config, names);
    assert forall|i: int, j: int|
        0 <= i < names.len() && 0 <= j < names.len() && i != j implies names[i] != names[j] by {
        let (a, b) = if i < j { (i, j) } else { (j, i) };
        if a > 0 {
            assert(names.skip(1)[a - 1] != names.skip(1)[b - 1]);
        } else if names[a] == names[b] {
            let round = names.take(b + 1).push(names[1]);
            assert forall|k: int| 0 <= k < round.len() - 1 implies leads_to(
                config,
                #[trigger] round[k],
                round[k + 1],
            ) by {
                if k < b {
                    assert(leads_to(config, names[k], names[k + 1]));
                } else {
                    assert(leads_to(config, names[0], names[0int + 1]));
                }
            }
            lemma_walk_from_sound(config, round);
            assert(round.skip(1)[0] == round.skip(1)[b]);
        }
    }
    assert forall|i: int| 0 <= i < names.len() implies config.workflow@.contains_key(
        #[trigger] names[i],
    ) by {
        let part = names.take(i + 1);
        assert forall|k: int| 0 <= k < part.len() - 1 implies leads_to(
            config,
            #[trigger] part[k],
            part[k + 1],
        ) by {
            assert(leads_to(config, names[k], names[k + 1]));
        }
        lemma_walk_from_sound(config, part);
        assert(part.last() == names[i]);
    }
}

proof fn lemma_plain_path(config: Config, places: Seq<Place>, i: int)
    requires
        tree_path(config, places),
        !places.last().1,
        0 <= i < places.len(),
    ensures
        !places[i].1,
    decreases places.len() - i,
{
    if i < places.len() - 1 {
        lemma_plain_path(config, places, i + 1);
        assert(tree_edge(config, places[i], places[i + 1]));
    }
}

/// In a sound configuration no workflow is both a trigger target and inline reachable in one
/// execution tree.
pub proof fn law_sound_trees_do_not_overlap(config: Config, root: Seq<char>, name: Seq<char>)
    requires
        is_sound(config),
        config.workflow@.contains_key(root),
    ensures
        !overlaps(config, root, name),
{
    let workflow = config.workflow@[root];
    assert(workflow_defect(config, root, workflow, Seq::empty()) is None);
    if overlaps(config, root, name) {
        let from = choose|from: Seq<char>| #[trigger]
            in_tree(config, root, (from, false)) && config.workflow@.contains_key(from)
                && runs_trigger(config.workflow@[from], name);
        let places = choose|places: Seq<Place>| #[trigger]
            tree_path(config, places) && places[0] == (root, false) && places.last() == (from, false);
        if places.len() > 1 {
            lemma_plain_path(config, places, 1);
            assert(tree_edge(config, places[0], places[0int + 1]));
            assert(runs_trigger(workflow, places[1].0));
        }
        assert(workflow.triggers@.len() > 0);
        assert(overlap_defect(config, root) is Some);
    }
}

/// Whether a workflow has a step that notifies browsers.
pub open spec fn notifies(workflow: WorkflowSpec) -> bool {
    exists|i: int| 0 <= i < workflow.steps@.len() && #[trigger] workflow.steps@[i] is NotifyReload
}

/// Whether `names` is a walk that avoids `avoided` to a workflow that notifies browsers.
pub open spec fn is_notifying_walk(
    config: Config,
    avoided: Seq<Seq<char>>,
    names: Seq<Seq<char>>,
) -> bool {
    &&& names.len() > 0
    &&& is_walk(config, names)
    &&& forall|i: int| 0 <= i < names.len() ==> !avoided.contains(#[trigger] names[i])
    &&& config.workflow@.contains_key(names.last())
    &&& notifies(config.workflow@[names.last()])
}

/// Whether running `name` can notify browsers without running a workflow of `avoided`.
pub open spec fn may_notify(config: Config, avoided: Seq<Seq<char>>, name: Seq<char>) -> bool {
    exists|names: Seq<Seq<char>>| #[trigger]
        is_notifying_walk(config, avoided, names) && names[0] == name
}

/// Whether one of the workflows that `name` runs may notify browsers.
proof fn lemma_may_notify_step(config: Config, avoided: Seq<Seq<char>>, name: Seq<char>, target: Seq<
    char,
>)
    requires
        !avoided.contains(name),
        leads_to(config, name, target),
        may_notify(config, avoided.push(name), target),
    ensures
        may_notify(config, avoided, name),
{
    let names = choose|names: Seq<Seq<char>>| #[trigger]
        is_notifying_walk(config, avoided.push(name), names) && names[0] == target;
    let longer = seq![name] + names;
    assert forall|i: int| 0 <= i < longer.len() - 1 implies leads_to(
        config,
        #[trigger] longer[i],
        longer[i + 1],
    ) by {
        if i > 0 {
            assert(leads_to(config, names[i - 1], names[i - 1 + 1]));
        }
    }
    assert forall|i: int| 0 <= i < longer.len() implies !avoided.contains(#[trigger] longer[i]) by {
        if i > 0 {
            assert(!avoided.push(name).contains(names[i - 1]));
            lemma_push_contains(avoided, name);
        }
    }
    assert(longer.last() == names.last());
    assert(is_notifying_walk(config, avoided, longer));
    assert(longer[0] == name);
}

/// A walk that notifies browsers is at its end, or goes on without coming back to its start.
proof fn lemma_may_notify_unfold(config: Config, avoided: Seq<Seq<char>>, name: Seq<char>) -> (target:
    Seq<char>)
    requires
        may_notify(config, avoided, name),
    ensures
        config.workflow@.contains_key(name),
        !avoided.contains(name),
        notifies(config.workflow@[name]) || (leads_to(config, name, target) && may_notify(
            config,
            avoided.push(name),
            target,
        )),
{
    let names = choose|names: Seq<Seq<char>>| #[trigger]
        is_notifying_walk(config, avoided, names) && names[0] == name;
    assert(!avoided.contains(names[0]));
    if names.len() > 1 {
        assert(leads_to(config, names[0], names[0int + 1]));
    }
    let last = last_place(names, name, names.len() - 1);
    lemma_last_place(names, name, names.len() - 1);
    if last == names.len() - 1 {
        names.last()
    } else {
        let rest = names.skip(last + 1);
        assert forall|i: int| 0 <= i < rest.len() - 1 implies leads_to(
            config,
            #[trigger] rest[i],
            rest[i + 1],
        ) by {
            assert(leads_to(config, names[last + 1 + i], names[last + 1 + i + 1]));
        }
        lemma_push_contains(avoided, name);
        assert forall|i: int| 0 <= i < rest.len() implies !avoided.push(name).contains(
            #[trigger] rest[i],
        ) by {
            assert(!avoided.contains(names[last + 1 + i]));
        }
        assert(rest.last() == names.last());
        assert(is_notifying_walk(config, avoided.push(name), rest));
        assert(leads_to(config, names[last], names[last + 1]));
        rest[0]
    }
}

spec fn last_place(names: Seq<Seq<char>>, name: Seq<char>, i: int) -> int
    decreases i,
{
    if i <= 0 || names[i] == name {
        i
    } else {
        last_place(names, name, i - 1)
    }
}

proof fn lemma_last_place(names: Seq<Seq<char>>, name: Seq<char>, i: int)
    requires
        0 <= i < names.len(),
        names[0] == name,
    ensures
        0 <= last_place(names, name, i) <= i,
        names[last_place(names, name, i)] == name,
        forall|k: int| last_place(names, name, i) < k <= i ==> names[k] != name,
    decreases i,
{
    if i > 0 && names[i] != name {
        lemma_last_place(names, name, i - 1);
    }
}

impl Config {
    /// Whether any workflow notifies browsers.
    pub fn has_browser_reload_notifications(&self) -> (found: bool)
        ensures
            found == exists|name: Seq<char>| #[trigger]
                self.workflow@.contains_key(name) && notifies(self.workflow@[name]),
    {
        let mut i: usize = 0;
        let n: usize = self.workflow.len();
        while i < n
            invariant
                self.workflow.wf(),
                i <= n == self.workflow.keys().len(),
                forall|k: int|
                    0 <= k < i ==> !may_notify(
                        *self,
                        Seq::empty(),
                        #[trigger] self.workflow.keys()[k],
                    ),
            decreases n - i,
        {
            let name = self.workflow.key_at(i);
            let mut stack: Vec<String> = Vec::new();
            assert(texts(stack@) =~= Seq::empty());
            if self.workflow_uses_notify_reload(name.as_str(), &mut stack) {
                proof {
                    let names = choose|names: Seq<Seq<char>>| #[trigger]
                        is_notifying_walk(*self, Seq::empty(), names) && names[0] == name@;
                    assert(self.workflow@.contains_key(names.last()));
                }
                return true;
            }
            i = i + 1;
        }
        assert forall|name: Seq<char>| #[trigger] self.workflow@.contains_key(name) implies !notifies(
            self.workflow@[name],
        ) by {
            let k = self.workflow.keys().index_of(name);
            assert(!may_notify(*self, Seq::empty(), self.workflow.keys()[k]));
            if notifies(self.workflow@[name]) {
                assert(is_notifying_walk(*self, Seq::empty(), seq![name]));
                assert(seq![name][0] == name);
            }
        }
        false
    }

    /// Whether running `workflow_name` may notify browsers without running a workflow of `stack`.
    fn workflow_uses_notify_reload(&self, workflow_name: &str, stack: &mut Vec<String>) -> (found: bool)
        ensures
            found == may_notify(*self, texts(old(stack)@), workflow_name@),
            texts(final(stack)@) == texts(old(stack)@),
        decreases unused(self.workflow.keys(), texts(old(stack)@)),
    {
        let ghost avoided = texts(stack@);
        let ghost name = workflow_name@;
        let workflow = match self.workflow.get(workflow_name) {
            Some(workflow) => workflow,
            None => {
                proof {
                    if may_notify(*self, avoided, name) {
                        lemma_may_notify_unfold(*self, avoided, name);
                    }
                }
                return false;
            },
        };
        if contains_text(stack, workflow_name) {
            proof {
                if may_notify(*self, avoided, name) {
                    lemma_may_notify_unfold(*self, avoided, name);
                }
            }
            return false;
        }
        stack.push(workflow_name.to_owned());
        let ghost inner = avoided.push(name);
        assert(texts(stack@) =~= inner);
        proof {
            lemma_unused_decreases(self.workflow.keys(), avoided, name);
        }
        let mut found = false;
        let mut i: usize = 0;
        while !found && i < workflow.steps.len()
            invariant
                i <= workflow.steps@.len(),
                self.workflow@.contains_key(name),
                self.workflow@[name] == *workflow,
                !avoided.contains(name),
                avoided == texts(old(stack)@),
                inner == avoided.push(name),
                texts(stack@) == inner,
                unused(self.workflow.keys(), inner) < unused(self.workflow.keys(), avoided),
                found ==> may_notify(*self, avoided, name),
                !found ==> forall|k: int|
                    0 <= k < i ==> !(#[trigger] workflow.steps@[k] is NotifyReload) && (inline_target(
                        workflow.steps@[k],
                    ) matches Some(t) ==> !may_notify(*self, inner, t)),
            decreases workflow.steps@.len() - i,
        {
            let ghost step = workflow.steps@[i as int];
            match &workflow.steps[i] {
                WorkflowStep::NotifyReload => {
                    proof {
                        assert(workflow.steps@[i as int] is NotifyReload);
                        assert(is_notifying_walk(*self, avoided, seq![name]));
                        assert(seq![name][0] == name);
                    }
                    found = true;
                },
                WorkflowStep::RunWorkflow { workflow: target } => {
                    found = self.workflow_uses_notify_reload(target.as_str(), stack);
                    proof {
                        if found {
                            assert(inline_target(step) == Some(target@));
                            assert(leads_to(*self, name, target@));
                            lemma_may_notify_step(*self, avoided, name, target@);
                        }
                    }
                },
                _ => {},
            }
            i = i + 1;
        }
        let mut j: usize = 0;
        while !found && j < workflow.triggers.len()
            invariant
                j <= workflow.triggers@.len(),
                self.workflow@.contains_key(name),
                self.workflow@[name] == *workflow,
                !avoided.contains(name),
                avoided == texts(old(stack)@),
                inner == avoided.push(name),
                texts(stack@) == inner,
                unused(self.workflow.keys(), inner) < unused(self.workflow.keys(), avoided),
                found ==> may_notify(*self, avoided, name),
                !found ==> forall|k: int|
                    0 <= k < workflow.steps@.len() ==> !(#[trigger] workflow.steps@[k] is NotifyReload)
                        && (inline_target(workflow.steps@[k]) matches Some(t) ==> !may_notify(
                        *self,
                        inner,
                        t,
                    )),
                !found ==> forall|k: int|
                    0 <= k < j ==> !may_notify(*self, inner, #[trigger] texts(workflow.triggers@)[k]),
            decreases workflow.triggers@.len() - j,
        {
            found = self.workflow_uses_notify_reload(workflow.triggers[j].as_str(), stack);
            proof {
                let target = workflow.triggers@[j as int]@;
                if found {
                    assert(texts(workflow.triggers@)[j as int] == target);
                    assert(leads_to(*self, name, target));
                    lemma_may_notify_step(*self, avoided, name, target);
                }
            }
            j = j + 1;
        }
        let ghost deeper = stack@;
        assert(stack@.len() > 0) by {
            assert(texts(stack@).len() == avoided.len() + 1);
        }
        stack.pop();
        assert(texts(stack@) =~= texts(deeper).drop_last());
        assert(inner.drop_last() =~= avoided);
        proof {
            if !found && may_notify(*self, avoided, name) {
                let target = lemma_may_notify_unfold(*self, avoided, name);
                if runs_inline(*workflow, target) {
                    let k = choose|k: int|
                        0 <= k < workflow.steps@.len() && #[trigger] inline_target(workflow.steps@[k])
                            == Some(target);
                    assert(!(workflow.steps@[k] is NotifyReload));
                } else if runs_trigger(*workflow, target) {
                    let k = texts(workflow.triggers@).index_of(target);
                    assert(!may_notify(*self, inner, texts(workflow.triggers@)[k]));
                }
            }
        }
        found
    }
}

/// In a sound configuration every workflow has steps, and each step and each trigger names a
/// process, a hook or a workflow that exists.
pub proof fn law_sound_workflows_name_what_exists(config: Config, name: Seq<char>, i: int)
    requires
        is_sound(config),
        config.workflow@.contains_key(name),
    ensures
        ({
            let workflow = config.workflow@[name];
            let step = workflow.steps@[i];
            &&& workflow.steps@.len() > 0
            &&& 0 <= i < workflow.steps@.len() ==> {
                &&& step matches WorkflowStep::StartProcess { process }
                    ==> config.process@.contains_key(process@)
                &&& step matches WorkflowStep::StopProcess { process }
                    ==> config.process@.contains_key(process@)
                &&& step matches WorkflowStep::RestartProcess { process }
                    ==> config.process@.contains_key(process@)
                &&& step matches WorkflowStep::WaitForProcess { process }
                    ==> config.process@.contains_key(process@)
                &&& step matches WorkflowStep::RunHook { hook } ==> config.hook@.contains_key(hook@)
                &&& step matches WorkflowStep::RunWorkflow { workflow: nested }
                    ==> config.workflow@.contains_key(nested@) && nested@ != name
            }
            &&& 0 <= i < workflow.triggers@.len() ==> config.workflow@.contains_key(
                workflow.triggers@[i]@,
            ) && workflow.triggers@[i]@ != name
        }),
{
    let workflow = config.workflow@[name];
    assert(workflow_defect(config, name, workflow, Seq::empty()) is None);
    if 0 <= i < workflow.steps@.len() {
        lemma_steps_defect(config, workflow.steps@, Seq::empty(), 0, i);
        if let WorkflowStep::RunWorkflow { workflow: nested } = workflow.steps@[i] {
            assert(inline_target(workflow.steps@[i]) == Some(nested@));
            let names = seq![name, nested@];
            assert(leads_to(config, names[0], names[0int + 1]));
            law_sound_workflows_do_not_recur(config, names);
            assert(names[0] != names[1]);
            assert(config.workflow@.contains_key(names[1]));
        }
    }
    if 0 <= i < workflow.triggers@.len() {
        let trigger = workflow.triggers@[i]@;
        assert(texts(workflow.triggers@)[i] == trigger);
        let names = seq![name, trigger];
        assert(leads_to(config, names[0], names[0int + 1]));
        law_sound_workflows_do_not_recur(config, names);
        assert(names[0] != names[1]);
        assert(config.workflow@.contains_key(names[1]));
    }
}

/// Whether a step names what the configuration has.
pub open spec fn names_what_exists(config: Config, step: WorkflowStep) -> bool {
    &&& step matches WorkflowStep::StartProcess { process } ==> config.process@.contains_key(process@)
    &&& step matches WorkflowStep::StopProcess { process } ==> config.process@.contains_key(process@)
    &&& step matches WorkflowStep::RestartProcess { process } ==> config.process@.contains_key(process@)
    &&& step matches WorkflowStep::WaitForProcess { process } ==> config.process@.contains_key(process@)
    &&& step matches WorkflowStep::RunHook { hook } ==> config.hook@.contains_key(hook@)
    &&& step matches WorkflowStep::RunWorkflow { workflow } ==> config.workflow@.contains_key(workflow@)
}

/// Whether a workflow has steps, and its steps and triggers name what exists.
pub open spec fn is_whole(config: Config, workflow: WorkflowSpec) -> bool {
    &&& workflow.steps@.len() > 0
    &&& forall|i: int|
        0 <= i < workflow.steps@.len() ==> names_what_exists(config, #[trigger] workflow.steps@[i])
    &&& forall|i: int|
        0 <= i < workflow.triggers@.len() ==> config.workflow@.contains_key(
            (#[trigger] workflow.triggers@[i])@,
        )
}

/// Whether nothing stands against the workflows of a configuration: they are whole, no walk comes
/// to a workflow twice, and no execution tree has an overlap.
pub open spec fn is_harmless(config: Config) -> bool {
    &&& forall|name: Seq<char>| #[trigger]
        config.workflow@.contains_key(name) ==> is_whole(config, config.workflow@[name])
    &&& forall|names: Seq<Seq<char>>| #[trigger] is_walk(config, names) ==> names.no_duplicates()
    &&& forall|root: Seq<char>, name: Seq<char>|
        config.workflow@.contains_key(root) ==> !#[trigger] overlaps(config, root, name)
}

proof fn lemma_walk_on(config: Config, names: Seq<Seq<char>>, target: Seq<char>)
    requires
        names.len() > 0,
        is_walk(config, names),
        leads_to(config, names.last(), target),
        is_harmless(config),
    ensures
        is_walk(config, names.push(target)),
        !names.skip(1).contains(target),
        names.push(target).skip(1) == names.skip(1).push(target),
{
    let longer = names.push(target);
    assert forall|i: int| 0 <= i < longer.len() - 1 implies leads_to(
        config,
        #[trigger] longer[i],
        longer[i + 1],
    ) by {
        if i < names.len() - 1 {
            assert(leads_to(config, names[i], names[i + 1]));
        }
    }
    assert(is_walk(config, longer));
    assert(longer.no_duplicates());
    if names.skip(1).contains(target) {
        let k = names.skip(1).index_of(target);
        assert(longer[k + 1] == longer[names.len() as int]);
    }
    assert(longer.skip(1) =~= names.skip(1).push(target));
}

proof fn lemma_nested_accepted(config: Config, names: Seq<Seq<char>>, target: Seq<char>)
    requires
        is_harmless(config),
        names.len() > 0,
        is_walk(config, names),
        leads_to(config, names.last(), target),
        config.workflow@.contains_key(target),
    ensures
        nested_defect(config, names.skip(1), target) is None,
    decreases unused(config.workflow.keys(), names.skip(1)), 0nat,
{
    lemma_walk_on(config, names, target);
    lemma_unused_decreases(config.workflow.keys(), names.skip(1), target);
    lemma_workflow_accepted(config, names.push(target));
}

proof fn lemma_steps_accepted(config: Config, names: Seq<Seq<char>>, from: nat)
    requires
        is_harmless(config),
        names.len() > 0,
        is_walk(config, names),
        config.workflow@.contains_key(names.last()),
    ensures
        steps_defect(config, config.workflow@[names.last()].steps@, names.skip(1), from) is None,
    decreases
            unused(config.workflow.keys(), names.skip(1)),
            1 + config.workflow@[names.last()].steps@.len() - from,
{
    let workflow = config.workflow@[names.last()];
    let steps = workflow.steps@;
    if from < steps.len() {
        assert(names_what_exists(config, steps[from as int]));
        if let WorkflowStep::RunWorkflow { workflow: nested } = steps[from as int] {
            assert(inline_target(steps[from as int]) == Some(nested@));
            assert(runs_inline(workflow, nested@));
            lemma_nested_accepted(config, names, nested@);
        }
        assert(step_defect(config, steps[from as int], names.skip(1)) is None);
        lemma_steps_accepted(config, names, from + 1);
    }
}

proof fn lemma_triggers_accepted(config: Config, names: Seq<Seq<char>>, from: nat)
    requires
        is_harmless(config),
        names.len() > 0,
        is_walk(config, names),
        config.workflow@.contains_key(names.last()),
    ensures
        triggers_defect(
            config,
            texts(config.workflow@[names.last()].triggers@),
            names.skip(1),
            from,
        ) is None,
    decreases
            unused(config.workflow.keys(), names.skip(1)),
            1 + config.workflow@[names.last()].triggers@.len() - from,
{
    let workflow = config.workflow@[names.last()];
    let triggers = texts(workflow.triggers@);
    if from < triggers.len() {
        let trigger = workflow.triggers@[from as int]@;
        assert(triggers[from as int] == trigger);
        assert(runs_trigger(workflow, trigger));
        lemma_nested_accepted(config, names, trigger);
        lemma_triggers_accepted(config, names, from + 1);
    }
}

proof fn lemma_workflow_accepted(config: Config, names: Seq<Seq<char>>)
    requires
        is_harmless(config),
        names.len() > 0,
        is_walk(config, names),
        config.workflow@.contains_key(names.last()),
    ensures
        workflow_defect(
            config,
            names.last(),
            config.workflow@[names.last()],
            names.skip(1),
        ) is None,
    decreases
            unused(config.workflow.keys(), names.skip(1)),
            3 + config.workflow@[names.last()].steps@.len()
                + config.workflow@[names.last()].triggers@.len(),
{
    lemma_steps_accepted(config, names, 0);
    lemma_triggers_accepted(config, names, 0);
    assert(overlap_defect(config, names.last()) is None);
}

/// Workflows with steps that name what exists, none of which leads back to itself and in none of
/// whose trees a trigger target is also reached inline, are sound.
pub proof fn law_harmless_workflows_are_sound(config: Config)
    requires
        is_harmless(config),
    ensures
        is_sound(config),
{
    assert forall|name: Seq<char>| #[trigger] config.workflow@.contains_key(name) implies workflow_defect(
        config,
        name,
        config.workflow@[name],
        Seq::empty(),
    ) is None by {
        let names = seq![name];
        assert(is_walk(config, names));
        lemma_workflow_accepted(config, names);
        assert(names.skip(1) =~= Seq::<Seq<char>>::empty());
    }
}

proof fn lemma_first_step_defect(
    config: Config,
    steps: Seq<WorkflowStep>,
    stack: Seq<Seq<char>>,
    from: nat,
    i: int,
)
    requires
        from <= i < steps.len(),
        step_defect(config, steps[i], stack) is Some,
        forall|k: int| from <= k < i ==> step_defect(config, #[trigger] steps[k], stack) is None,
    ensures
        steps_defect(config, steps, stack, from) == step_defect(config, steps[i], stack),
    decreases i - from,
{
    if from < i {
        assert(step_defect(config, steps[from as int], stack) is None);
        lemma_first_step_defect(config, steps, stack, from + 1, i);
    }
}

/// The first step that names what is missing, or leads back to a workflow that led to it, is why a
/// workflow is refused, and the refusal names it; a workflow without steps is refused for that.
pub proof fn law_refused_workflows_name_the_reason(
    config: Config,
    name: Seq<char>,
    workflow: WorkflowSpec,
    stack: Seq<Seq<char>>,
    i: int,
)
    requires
        0 <= i < workflow.steps@.len(),
        forall|k: int|
            0 <= k < i ==> (#[trigger] workflow.steps@[k] is NotifyReload || workflow.steps@[k] is SleepMs
                || workflow.steps@[k] is WriteState || workflow.steps@[k] is Log),
    ensures
        ({
            let defect = workflow_defect(config, name, workflow, stack);
            let step = workflow.steps@[i];
            &&& step matches WorkflowStep::StartProcess { process } ==> (!config.process@.contains_key(
                process@,
            ) ==> defect == Some(Defect::MissingProcess(process@)))
            &&& step matches WorkflowStep::StopProcess { process } ==> (!config.process@.contains_key(
                process@,
            ) ==> defect == Some(Defect::MissingProcess(process@)))
            &&& step matches WorkflowStep::RestartProcess { process } ==> (!config.process@.contains_key(
                process@,
            ) ==> defect == Some(Defect::MissingProcess(process@)))
            &&& step matches WorkflowStep::WaitForProcess { process } ==> (!config.process@.contains_key(
                process@,
            ) ==> defect == Some(Defect::MissingProcess(process@)))
            &&& step matches WorkflowStep::RunHook { hook } ==> (!config.hook@.contains_key(hook@)
                ==> defect == Some(Defect::MissingHook(hook@)))
            &&& step matches WorkflowStep::RunWorkflow { workflow: nested } ==> (stack.contains(nested@)
                ==> defect == Some(Defect::Recursion(stack.push(nested@))))
            &&& step matches WorkflowStep::RunWorkflow { workflow: nested } ==> (!stack.contains(nested@)
                && !config.workflow@.contains_key(nested@) ==> defect == Some(
                Defect::MissingWorkflow(nested@),
            ))
        }),
        forall|empty: WorkflowSpec|
            empty.steps@.len() == 0 ==> #[trigger] workflow_defect(config, name, empty, stack) == Some(
                Defect::NoSteps,
            ),
{
    if step_defect(config, workflow.steps@[i], stack) is Some {
        lemma_first_step_defect(config, workflow.steps@, stack, 0, i);
    }
}

} // verus!
