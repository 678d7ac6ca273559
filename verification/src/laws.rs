//! What holds of every resolution, proved from the model.

use vstd::prelude::*;

use crate::env::EnvView;
use crate::model::{
    all_resolvable, extends_chain, extends_circle, has_circle, has_unknown_parent, inherit_env,
    inherit_path, inherited, lemma_parents_known, lemma_resolution_holds,
    lemma_settled_from_parents, lemma_settled_once, lemma_waiting_not_resolvable,
    names_unknown_parent, parents_in, parents_of, resolution, resolvable, resolve_with,
    resolved_within, settle_env, settled_as, settling_round, sound, wait_for_each_other,
    Resolved, Tasks,
};
use crate::overridable::{Inheritable, Overridable};
use crate::path::{merge_paths, without_repeats, PathView};
use crate::resolver::{is_outcome, ResolveError};
use crate::table::Table;
use crate::task::{ResolvedTask, ResolvedTaskView, Watch};

verus! {

/// A task that extends nothing is resolved from itself alone: whatever else
/// the document holds, its record is the one that it yields without parents.
pub proof fn lemma_seed_stands_alone(tasks: Tasks, id: Seq<char>)
    requires
        tasks.dom().contains(id),
        tasks[id].extends.len() == 0,
    ensures
        resolution(tasks).contains_pair(id, resolve_with(tasks[id], Seq::empty())),
{
    let nothing = resolved_within(tasks, 0);
    assert(parents_in(tasks[id], nothing));
    assert(parents_of(tasks[id], nothing) =~= Seq::empty());
    assert(resolved_within(tasks, 1).contains_pair(id, resolve_with(tasks[id], Seq::empty())));
    lemma_resolution_holds(tasks, id, resolve_with(tasks[id], Seq::empty()));
}

/// In the resolution of a document every task has the record that its own
/// settings and the records of the tasks it extends yield.
pub proof fn lemma_record_comes_from_parents(tasks: Tasks, id: Seq<char>)
    requires
        resolution(tasks).dom().contains(id),
    ensures
        tasks.dom().contains(id),
        parents_in(tasks[id], resolution(tasks)),
        resolution(tasks)[id] == resolve_with(tasks[id], parents_of(tasks[id], resolution(tasks))),
{
    let rounds = settling_round(tasks, id);
    let before = resolved_within(tasks, (rounds - 1) as nat);
    let task = tasks[id];
    assert(resolved_within(tasks, rounds).dom().contains(id));
    assert forall|i: int| 0 <= i < task.extends.len() implies resolution(tasks).contains_pair(
        #[trigger] task.extends[i],
        before[task.extends[i]],
    ) by {
        assert(before.contains_pair(task.extends[i], before[task.extends[i]]));
        lemma_resolution_holds(tasks, task.extends[i], before[task.extends[i]]);
    }
    assert(parents_of(task, before) =~= parents_of(task, resolution(tasks)));
}

/// Two documents resolve a task that extends nothing in the same way, where it
/// is the same task in both.
pub proof fn lemma_seed_independent_of_others(first: Tasks, second: Tasks, id: Seq<char>)
    requires
        first.dom().contains(id),
        second.dom().contains(id),
        first[id] == second[id],
        first[id].extends.len() == 0,
    ensures
        resolution(first).dom().contains(id),
        resolution(second).dom().contains(id),
        resolution(first)[id] == resolution(second)[id],
{
    lemma_seed_stands_alone(first, id);
    lemma_seed_stands_alone(second, id);
}

/// No task on a circle is ever settled.
pub proof fn lemma_circle_is_not_resolvable(tasks: Tasks, circle: Seq<Seq<char>>, k: int)
    requires
        extends_circle(tasks, circle),
        0 <= k < circle.len(),
    ensures
        !resolvable(tasks, circle[k]),
{
    let members = Set::new(|id: Seq<char>| exists|j: int| 0 <= j < circle.len() - 1 && circle[j] == id);
    assert forall|id: Seq<char>| #[trigger] members.contains(id) implies tasks.dom().contains(id)
        && exists|i: int|
        0 <= i < tasks[id].extends.len() && members.contains(#[trigger] tasks[id].extends[i]) by {
        let j = choose|j: int| 0 <= j < circle.len() - 1 && circle[j] == id;
        assert(tasks.dom().contains(circle[j]));
        let next = circle[j + 1];
        let i = choose|i: int| 0 <= i < tasks[id].extends.len() && tasks[id].extends[i] == next;
        if j + 1 < circle.len() - 1 {
            assert(members.contains(next));
        } else {
            assert(circle[0] == next);
            assert(members.contains(next));
        }
    }
    assert(wait_for_each_other(tasks, members));
    if k < circle.len() - 1 {
        assert(members.contains(circle[k]));
    } else {
        assert(circle[0] == circle[k]);
        assert(members.contains(circle[k]));
    }
    lemma_waiting_not_resolvable(tasks, members, circle[k]);
}

/// A task is not settled before the tasks it extends are.
pub proof fn lemma_child_waits_for_parent(tasks: Tasks, id: Seq<char>, parent: Seq<char>)
    requires
        tasks.dom().contains(id),
        tasks[id].extends.contains(parent),
        !resolvable(tasks, parent),
    ensures
        !resolvable(tasks, id),
{
    if resolvable(tasks, id) {
        let rounds = choose|rounds: nat| #[trigger] resolved_within(tasks, rounds).dom().contains(id);
        let before = resolved_within(tasks, (rounds - 1) as nat);
        let i = choose|i: int| 0 <= i < tasks[id].extends.len() && tasks[id].extends[i] == parent;
        assert(before.dom().contains(tasks[id].extends[i]));
    }
}

/// A task from which a chain leads to a task that is never settled is never
/// settled itself.
pub proof fn lemma_chain_to_unresolvable(tasks: Tasks, chain: Seq<Seq<char>>)
    requires
        chain.len() >= 1,
        extends_chain(tasks, chain),
        !resolvable(tasks, chain.last()),
    ensures
        !resolvable(tasks, chain.first()),
    decreases chain.len(),
{
    if chain.len() >= 2 {
        let rest = chain.drop_first();
        assert forall|k: int| 0 <= k < rest.len() - 1 implies tasks.dom().contains(#[trigger] rest[k])
            && tasks[rest[k]].extends.contains(rest[k + 1]) by {
            assert(rest[k] == chain[k + 1]);
            assert(rest[k + 1] == chain[k + 2]);
        }
        lemma_chain_to_unresolvable(tasks, rest);
        assert(chain[1] == rest.first());
        assert(tasks.dom().contains(chain[0]));
        lemma_child_waits_for_parent(tasks, chain[0], chain[1]);
    }
}

/// A document in which a chain leads from a task to a circle, or in which a
/// task extends itself, is not resolvable in full: every task on the chain and
/// on the circle is never settled.
pub proof fn lemma_circle_blocks_resolution(tasks: Tasks, chain: Seq<Seq<char>>, circle: Seq<Seq<char>>)
    requires
        chain.len() >= 1,
        extends_chain(tasks, chain),
        extends_circle(tasks, circle),
        chain.last() == circle.first(),
    ensures
        !resolvable(tasks, chain.first()),
        !all_resolvable(tasks),
{
    lemma_circle_is_not_resolvable(tasks, circle, 0);
    lemma_chain_to_unresolvable(tasks, chain);
    assert(tasks.dom().contains(circle[0]));
}

/// Whether `id` is a task of the document that no round settles.
pub open spec fn stuck(tasks: Tasks, id: Seq<char>) -> bool {
    tasks.dom().contains(id) && !resolvable(tasks, id)
}

/// Every record of the resolution is the one that some round settles.
pub proof fn lemma_resolution_is_sound(tasks: Tasks)
    ensures
        sound(tasks, resolution(tasks)),
{
    assert forall|id: Seq<char>| #[trigger] resolution(tasks).dom().contains(id) implies settled_as(
        tasks,
        id,
        resolution(tasks)[id],
    ) by {
        let rounds = settling_round(tasks, id);
        assert(resolved_within(tasks, rounds).contains_pair(id, resolution(tasks)[id]));
    }
}

/// In a document without unknown parents, a task that is never settled extends
/// a task that is never settled.
pub proof fn lemma_stuck_extends_stuck(tasks: Tasks, id: Seq<char>)
    requires
        !has_unknown_parent(tasks),
        stuck(tasks, id),
    ensures
        exists|i: int|
            0 <= i < tasks[id].extends.len() && stuck(tasks, #[trigger] tasks[id].extends[i]),
{
    if forall|i: int| 0 <= i < tasks[id].extends.len() ==> !stuck(tasks, #[trigger] tasks[id].extends[i]) {
        lemma_parents_known(tasks, id);
        assert forall|i: int| 0 <= i < tasks[id].extends.len() implies resolution(
            tasks,
        ).dom().contains(#[trigger] tasks[id].extends[i]) by {
            assert(!stuck(tasks, tasks[id].extends[i]));
        }
        lemma_resolution_is_sound(tasks);
        lemma_settled_from_parents(tasks, id, resolution(tasks));
        let record = resolve_with(tasks[id], parents_of(tasks[id], resolution(tasks)));
        let rounds = choose|rounds: nat| #[trigger]
            resolved_within(tasks, rounds).contains_pair(id, record);
        assert(resolved_within(tasks, rounds).dom().contains(id));
    }
}

/// A task that `id` extends and that is never settled, where there is one.
pub open spec fn stuck_parent(tasks: Tasks, id: Seq<char>) -> Seq<char> {
    let i = choose|i: int|
        0 <= i < tasks[id].extends.len() && stuck(tasks, #[trigger] tasks[id].extends[i]);
    tasks[id].extends[i]
}

/// The chain of `steps` steps that starts at `id` and goes on, at each task, to
/// a task that it extends and that is never settled.
pub open spec fn stuck_walk(tasks: Tasks, id: Seq<char>, steps: nat) -> Seq<Seq<char>>
    decreases steps,
{
    if steps == 0 {
        seq![id]
    } else {
        let before = stuck_walk(tasks, id, (steps - 1) as nat);
        before.push(stuck_parent(tasks, before.last()))
    }
}

/// From a task that is never settled, the walk through such tasks goes on for
/// as many steps as one likes.
pub proof fn lemma_stuck_walk_goes_on(tasks: Tasks, id: Seq<char>, steps: nat)
    requires
        !has_unknown_parent(tasks),
        stuck(tasks, id),
    ensures
        stuck_walk(tasks, id, steps).len() == steps + 1,
        stuck_walk(tasks, id, steps).first() == id,
        extends_chain(tasks, stuck_walk(tasks, id, steps)),
        forall|k: int|
            0 <= k <= steps ==> stuck(tasks, #[trigger] stuck_walk(tasks, id, steps)[k]),
    decreases steps,
{
    if steps > 0 {
        let before = stuck_walk(tasks, id, (steps - 1) as nat);
        let walk = stuck_walk(tasks, id, steps);
        lemma_stuck_walk_goes_on(tasks, id, (steps - 1) as nat);
        assert(stuck(tasks, before[steps - 1]));
        lemma_stuck_extends_stuck(tasks, before.last());
        assert forall|k: int| 0 <= k <= steps implies stuck(tasks, #[trigger] walk[k]) by {
            if k < steps {
                assert(walk[k] == before[k]);
            }
        }
        assert forall|k: int| 0 <= k < walk.len() - 1 implies tasks.dom().contains(#[trigger] walk[k])
            && tasks[walk[k]].extends.contains(walk[k + 1]) by {
            assert(stuck(tasks, walk[k]));
            if k < steps - 1 {
                assert(walk[k] == before[k]);
                assert(walk[k + 1] == before[k + 1]);
            } else {
                assert(walk[k] == before.last());
                assert(walk[k + 1] == stuck_parent(tasks, before.last()));
            }
        }
    }
}

/// A sequence with more members than the finite set they are taken from
/// holds some member twice.
pub proof fn lemma_long_sequence_repeats<T>(members: Set<T>, items: Seq<T>)
    requires
        members.finite(),
        items.len() > members.len(),
        forall|k: int| 0 <= k < items.len() ==> members.contains(#[trigger] items[k]),
    ensures
        exists|i: int, j: int| 0 <= i < j < items.len() && items[i] == items[j],
{
    if items.no_duplicates() {
        items.unique_seq_to_set();
        assert forall|item: T| items.to_set().contains(item) implies members.contains(item) by {
            let k = choose|k: int| 0 <= k < items.len() && items[k] == item;
            assert(members.contains(items[k]));
        }
        vstd::set_lib::lemma_len_subset(items.to_set(), members);
    } else {
        let (i, j) = choose|i: int, j: int|
            0 <= i < items.len() && 0 <= j < items.len() && i != j && items[i] == items[j];
        if i < j {
            assert(0 <= i < j < items.len() && items[i] == items[j]);
        } else {
            assert(0 <= j < i < items.len() && items[j] == items[i]);
        }
    }
}

/// A part of a chain is a chain.
pub proof fn lemma_part_of_chain(tasks: Tasks, chain: Seq<Seq<char>>, from: int, to: int)
    requires
        extends_chain(tasks, chain),
        0 <= from < to <= chain.len(),
    ensures
        extends_chain(tasks, chain.subrange(from, to)),
{
    let part = chain.subrange(from, to);
    assert forall|k: int| 0 <= k < part.len() - 1 implies tasks.dom().contains(#[trigger] part[k])
        && tasks[part[k]].extends.contains(part[k + 1]) by {
        assert(part[k] == chain[from + k]);
        assert(part[k + 1] == chain[from + k + 1]);
    }
}

/// In a finite document without unknown parents, a task that is never settled
/// leads to a circle: a chain goes from it to a task that extends itself,
/// directly or through the tasks it extends. The chain and the circle are
/// handed back.
pub proof fn lemma_stuck_task_reaches_circle(tasks: Tasks, id: Seq<char>) -> (found: (
    Seq<Seq<char>>,
    Seq<Seq<char>>,
))
    requires
        tasks.dom().finite(),
        !has_unknown_parent(tasks),
        stuck(tasks, id),
    ensures
        found.0.len() >= 1,
        found.0.first() == id,
        extends_chain(tasks, found.0),
        found.0.last() == found.1.first(),
        extends_circle(tasks, found.1),
{
    let steps = tasks.dom().len();
    let walk = stuck_walk(tasks, id, steps);
    lemma_stuck_walk_goes_on(tasks, id, steps);
    assert forall|k: int| 0 <= k < walk.len() implies tasks.dom().contains(#[trigger] walk[k]) by {
        assert(stuck(tasks, walk[k]));
    }
    lemma_long_sequence_repeats(tasks.dom(), walk);
    let (i, j) = choose|i: int, j: int| 0 <= i < j < walk.len() && walk[i] == walk[j];
    let chain = walk.subrange(0, i + 1);
    let circle = walk.subrange(i, j + 1);
    lemma_part_of_chain(tasks, walk, 0, i + 1);
    lemma_part_of_chain(tasks, walk, i, j + 1);
    assert(chain.first() == walk[0]);
    assert(chain.last() == walk[i]);
    assert(circle.first() == walk[i]);
    assert(circle.last() == walk[j]);
    (chain, circle)
}

/// A finite document without unknown parents can be resolved in full if and
/// only if no task of it extends itself, directly or through the tasks it
/// extends.
pub proof fn lemma_resolvable_iff_no_circle(tasks: Tasks)
    requires
        tasks.dom().finite(),
        !has_unknown_parent(tasks),
    ensures
        all_resolvable(tasks) <==> !has_circle(tasks),
{
    if !all_resolvable(tasks) {
        let id = choose|id: Seq<char>| tasks.dom().contains(id) && !resolvable(tasks, id);
        let found = lemma_stuck_task_reaches_circle(tasks, id);
        assert(extends_circle(tasks, found.1));
    }
    if has_circle(tasks) {
        let circle = choose|circle: Seq<Seq<char>>| extends_circle(tasks, circle);
        lemma_circle_is_not_resolvable(tasks, circle, 0);
        assert(tasks.dom().contains(circle[0]));
    }
}

/// The first member of a non-empty sequence survives the shortening of runs.
pub proof fn lemma_without_repeats_first<T>(items: Seq<T>)
    requires
        items.len() > 0,
    ensures
        without_repeats(items).len() > 0,
        without_repeats(items).first() == items.first(),
    decreases items.len(),
{
    if items.len() > 1 {
        lemma_without_repeats_first(items.drop_last());
    }
}

/// In a merged path the first directory of the incoming side leads.
pub proof fn lemma_incoming_directory_leads(base: PathView, incoming: PathView)
    requires
        incoming.dirs.len() > 0,
    ensures
        merge_paths(base, incoming).dirs.len() > 0,
        merge_paths(base, incoming).dirs.first() == incoming.dirs.first(),
        merge_paths(base, incoming).apply == incoming.apply,
{
    lemma_without_repeats_first(incoming.dirs + base.dirs);
}

/// The order of two parents shows in the path they hand down: listed as
/// `[first, second]` the path starts with the first directory of `second`,
/// listed as `[second, first]` with that of `first`. Where those two
/// directories differ, so do the paths handed down.
pub proof fn lemma_parent_order_shows_in_path(first: ResolvedTaskView, second: ResolvedTaskView)
    requires
        first.path is Some,
        second.path is Some,
        first.path.unwrap().dirs.len() > 0,
        second.path.unwrap().dirs.len() > 0,
    ensures
        inherited(seq![first, second]).path == Some(
            merge_paths(first.path.unwrap(), second.path.unwrap()),
        ),
        inherited(seq![second, first]).path == Some(
            merge_paths(second.path.unwrap(), first.path.unwrap()),
        ),
        inherited(seq![first, second]).path.unwrap().dirs.first() == second.path.unwrap().dirs.first(),
        inherited(seq![second, first]).path.unwrap().dirs.first() == first.path.unwrap().dirs.first(),
        first.path.unwrap().dirs.first() != second.path.unwrap().dirs.first() ==> inherited(
            seq![first, second],
        ).path != inherited(seq![second, first]).path,
{
    lemma_inherited_from_two(first, second);
    lemma_inherited_from_two(second, first);
    lemma_incoming_directory_leads(first.path.unwrap(), second.path.unwrap());
    lemma_incoming_directory_leads(second.path.unwrap(), first.path.unwrap());
}

/// What two parents hand down: what the first has, with what the second has
/// laid over it.
pub proof fn lemma_inherited_from_two(first: ResolvedTaskView, second: ResolvedTaskView)
    ensures
        inherited(seq![first, second]).path == inherit_path(first.path, second.path),
        inherited(seq![first, second]).env == inherit_env(first.env, second.env),
        inherited(seq![first, second]).shell == (if second.shell is Some {
            second.shell
        } else {
            first.shell
        }),
{
    let both = seq![first, second];
    assert(both.drop_last() =~= seq![first]);
    assert(both.drop_last().drop_last() =~= Seq::<ResolvedTaskView>::empty());
    reveal_with_fuel(inherited, 3);
}

/// Among the parents of a task, the last one that sets a variable decides the
/// value that is handed down.
pub proof fn lemma_later_parent_wins(parents: Seq<ResolvedTaskView>, last: int, name: Seq<char>)
    requires
        0 <= last < parents.len(),
        parents[last].env is Some,
        parents[last].env.unwrap().vars.dom().contains(name),
        forall|j: int|
            last < j < parents.len() && (#[trigger] parents[j]).env is Some
                ==> !parents[j].env.unwrap().vars.dom().contains(name),
    ensures
        inherited(parents).env is Some,
        inherited(parents).env.unwrap().vars.contains_pair(
            name,
            parents[last].env.unwrap().vars[name],
        ),
    decreases parents.len(),
{
    let earlier = parents.drop_last();
    if last < parents.len() - 1 {
        assert(earlier[last] == parents[last]);
        assert forall|j: int| last < j < earlier.len() && (#[trigger] earlier[j]).env is Some implies !earlier[j].env.unwrap().vars.dom().contains(
            name,
        ) by {
            assert(earlier[j] == parents[j]);
        }
        lemma_later_parent_wins(earlier, last, name);
        assert(parents[parents.len() - 1] == parents.last());
    }
}

/// A variable that a task sets itself has the task's value once the task is
/// resolved, whatever its parents hand down.
pub proof fn lemma_own_variable_wins(
    own: Inheritable<EnvView>,
    handed: Option<EnvView>,
    name: Seq<char>,
)
    requires
        own.config.vars.dom().contains(name),
    ensures
        settle_env(Overridable::Custom(own), handed) is Some,
        settle_env(Overridable::Custom(own), handed).unwrap().vars.contains_pair(
            name,
            own.config.vars[name],
        ),
{
}

/// A document in which a task extends an id that no task has is refused with
/// such an id before any task is resolved, whatever holds of its other tasks.
pub proof fn lemma_unknown_parent_is_refused(
    tasks: Tasks,
    watch: Watch,
    out: Result<(Watch, Table<String, ResolvedTask>), ResolveError>,
)
    requires
        is_outcome(tasks, watch, out),
        has_unknown_parent(tasks),
    ensures
        out matches Err(ResolveError::UnknownTask(name)) && names_unknown_parent(tasks, name@),
{
}

/// A document without unknown parents in which a chain leads from a task to a
/// circle, or in which a task extends itself, is refused as a cycle.
pub proof fn lemma_circle_is_refused(
    tasks: Tasks,
    watch: Watch,
    out: Result<(Watch, Table<String, ResolvedTask>), ResolveError>,
    chain: Seq<Seq<char>>,
    circle: Seq<Seq<char>>,
)
    requires
        is_outcome(tasks, watch, out),
        !has_unknown_parent(tasks),
        chain.len() >= 1,
        extends_chain(tasks, chain),
        extends_circle(tasks, circle),
        chain.last() == circle.first(),
    ensures
        out == Err::<(Watch, Table<String, ResolvedTask>), ResolveError>(ResolveError::Cycle),
{
    lemma_circle_blocks_resolution(tasks, chain, circle);
}

/// Resolving a document twice ends in the same way: both times in the same
/// records and watcher settings, or both times in a cycle, or both times in an
/// unknown id (not always the same one, where there are several).
pub proof fn lemma_outcomes_agree(
    tasks: Tasks,
    watch: Watch,
    first: Result<(Watch, Table<String, ResolvedTask>), ResolveError>,
    second: Result<(Watch, Table<String, ResolvedTask>), ResolveError>,
)
    requires
        is_outcome(tasks, watch, first),
        is_outcome(tasks, watch, second),
    ensures
        match first {
            Ok((first_watch, first_resolved)) => second matches Ok((second_watch, second_resolved))
                && second_watch == first_watch && second_resolved@ == first_resolved@,
            Err(ResolveError::UnknownTask(_)) => second matches Err(ResolveError::UnknownTask(_)),
            Err(ResolveError::Cycle) => second matches Err(ResolveError::Cycle),
        },
{
}

/// Resolving a document twice gives the same records: two tables that hold,
/// for every task of the document, a record that some round settles for it,
/// are equal, in whatever order the tasks were settled.
pub proof fn lemma_resolution_is_unique(tasks: Tasks, first: Resolved, second: Resolved)
    requires
        sound(tasks, first),
        sound(tasks, second),
        first.dom() == tasks.dom(),
        second.dom() == tasks.dom(),
    ensures
        first == second,
        first == resolution(tasks),
        all_resolvable(tasks),
{
    assert forall|id: Seq<char>| tasks.dom().contains(id) implies first[id] == second[id]
        && resolution(tasks).contains_pair(id, first[id]) by {
        assert(first.dom().contains(id));
        assert(second.dom().contains(id));
        lemma_settled_once(tasks, id, first[id], second[id]);
        lemma_resolution_holds(tasks, id, first[id]);
    }
    assert(first =~= second);
    assert forall|id: Seq<char>| resolution(tasks).dom().contains(id) implies tasks.dom().contains(
        id,
    ) by {
        let rounds = choose|rounds: nat| #[trigger] resolved_within(tasks, rounds).dom().contains(id);
        assert(rounds > 0);
    }
    assert(first =~= resolution(tasks));
}

} // verus!
