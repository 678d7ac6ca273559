//! What resolution means, stated over the views of tasks.
//!
//! A task is settled from the resolved records of the tasks it extends. The
//! tasks that extend nothing are settled in the first round; a task whose
//! parents were all settled in earlier rounds is settled in the next one. The
//! resolution of a document is what every round agrees on.

use vstd::prelude::*;

use crate::env::{merge_envs, EnvView};
use crate::overridable::{Inheritable, Overridable};
use crate::path::{merge_paths, PathView};
use crate::task::{ResolvedTaskView, TaskView};

verus! {

/// The view of a document: its tasks by id.
pub type Tasks = Map<Seq<char>, TaskView>;

/// Resolved tasks by id.
pub type Resolved = Map<Seq<char>, ResolvedTaskView>;

/// What the parents of a task hand down to it.
pub struct Inherited {
    pub shell: Option<Seq<Seq<char>>>,
    pub path: Option<PathView>,
    pub env: Option<EnvView>,
}

/// The shell handed down so far, after one more parent: a parent that has a
/// shell replaces it.
pub open spec fn inherit_shell(
    so_far: Option<Seq<Seq<char>>>,
    parent: Option<Seq<Seq<char>>>,
) -> Option<Seq<Seq<char>>> {
    match parent {
        Some(shell) => Some(shell),
        None => so_far,
    }
}

/// The path handed down so far, after one more parent: a parent that has a
/// path is merged into it as the incoming side.
pub open spec fn inherit_path(so_far: Option<PathView>, parent: Option<PathView>) -> Option<
    PathView,
> {
    match (so_far, parent) {
        (Some(base), Some(incoming)) => Some(merge_paths(base, incoming)),
        (Some(base), None) => Some(base),
        (None, parent) => parent,
    }
}

/// The variables handed down so far, after one more parent: a parent that has
/// variables is merged into them as the incoming side.
pub open spec fn inherit_env(so_far: Option<EnvView>, parent: Option<EnvView>) -> Option<EnvView> {
    match (so_far, parent) {
        (Some(base), Some(incoming)) => Some(merge_envs(base, incoming)),
        (Some(base), None) => Some(base),
        (None, parent) => parent,
    }
}

/// What `parents`, taken from the first to the last, hand down.
pub open spec fn inherited(parents: Seq<ResolvedTaskView>) -> Inherited
    decreases parents.len(),
{
    if parents.len() == 0 {
        Inherited { shell: None, path: None, env: None }
    } else {
        let so_far = inherited(parents.drop_last());
        let parent = parents.last();
        Inherited {
            shell: inherit_shell(so_far.shell, parent.shell),
            path: inherit_path(so_far.path, parent.path),
            env: inherit_env(so_far.env, parent.env),
        }
    }
}

/// A path of the task's own against the path handed down: merged into it as
/// the incoming side, unless the task replaces or nothing was handed down.
pub open spec fn own_path(own: Inheritable<PathView>, handed: Option<PathView>) -> PathView {
    match handed {
        Some(base) if !own.replace => merge_paths(base, own.config),
        _ => own.config,
    }
}

/// Variables of the task's own against the variables handed down: merged into
/// them as the incoming side, unless the task replaces or nothing was handed
/// down.
pub open spec fn own_env(own: Inheritable<EnvView>, handed: Option<EnvView>) -> EnvView {
    match handed {
        Some(base) if !own.replace => merge_envs(base, own.config),
        _ => own.config,
    }
}

/// The path of a task, from its stance and the path handed down.
pub open spec fn settle_path(
    stance: Overridable<Inheritable<PathView>>,
    handed: Option<PathView>,
) -> Option<PathView> {
    match stance {
        Overridable::Custom(own) => Some(own_path(own, handed)),
        Overridable::Use(false) => None,
        _ => handed,
    }
}

/// The variables of a task, from its stance and the variables handed down.
pub open spec fn settle_env(
    stance: Overridable<Inheritable<EnvView>>,
    handed: Option<EnvView>,
) -> Option<EnvView> {
    match stance {
        Overridable::Custom(own) => Some(own_env(own, handed)),
        Overridable::Use(false) => None,
        _ => handed,
    }
}

/// The resolved record of `task`, given the resolved records of the tasks it
/// extends, in the order in which it lists them.
pub open spec fn resolve_with(task: TaskView, parents: Seq<ResolvedTaskView>) -> ResolvedTaskView {
    let handed = inherited(parents);
    ResolvedTaskView {
        config: task.config,
        shell: task.shell.resolved(handed.shell),
        path: settle_path(task.path, handed.path),
        env: settle_env(task.env, handed.env),
    }
}

/// Whether every task that `task` extends is among `resolved`.
pub open spec fn parents_in(task: TaskView, resolved: Resolved) -> bool {
    forall|i: int| 0 <= i < task.extends.len() ==> resolved.dom().contains(#[trigger] task.extends[i])
}

/// The records in `resolved` of the tasks that `task` extends, in its order.
pub open spec fn parents_of(task: TaskView, resolved: Resolved) -> Seq<ResolvedTaskView> {
    Seq::new(task.extends.len(), |i: int| resolved[task.extends[i]])
}

/// The tasks of `tasks` that are settled after `rounds` rounds, resolved.
pub open spec fn resolved_within(tasks: Tasks, rounds: nat) -> Resolved
    decreases rounds,
{
    if rounds == 0 {
        Map::empty()
    } else {
        let before = resolved_within(tasks, (rounds - 1) as nat);
        Map::new(
            |id: Seq<char>| tasks.dom().contains(id) && parents_in(tasks[id], before),
            |id: Seq<char>| resolve_with(tasks[id], parents_of(tasks[id], before)),
        )
    }
}

/// Whether some round settles the task `id` as `record`.
pub open spec fn settled_as(tasks: Tasks, id: Seq<char>, record: ResolvedTaskView) -> bool {
    exists|rounds: nat| #[trigger] resolved_within(tasks, rounds).contains_pair(id, record)
}

/// Whether some round settles the task `id`.
pub open spec fn resolvable(tasks: Tasks, id: Seq<char>) -> bool {
    exists|rounds: nat| #[trigger] resolved_within(tasks, rounds).dom().contains(id)
}

/// Whether every task of the document is settled by some round: no task waits
/// for itself, directly or through the tasks it extends.
pub open spec fn all_resolvable(tasks: Tasks) -> bool {
    forall|id: Seq<char>| tasks.dom().contains(id) ==> resolvable(tasks, id)
}

/// A round that settles the task `id`, where there is one.
pub open spec fn settling_round(tasks: Tasks, id: Seq<char>) -> nat {
    choose|rounds: nat| #[trigger] resolved_within(tasks, rounds).dom().contains(id)
}

/// The resolution of a document: every task that some round settles, as that
/// round resolves it.
pub open spec fn resolution(tasks: Tasks) -> Resolved {
    Map::new(
        |id: Seq<char>| resolvable(tasks, id),
        |id: Seq<char>| resolved_within(tasks, settling_round(tasks, id))[id],
    )
}

/// Whether the document has every task that `task` extends.
pub open spec fn knows_parents(tasks: Tasks, task: TaskView) -> bool {
    forall|i: int| 0 <= i < task.extends.len() ==> tasks.dom().contains(#[trigger] task.extends[i])
}

/// Whether `name` is an id that some task of the document extends and that no
/// task of the document has.
pub open spec fn names_unknown_parent(tasks: Tasks, name: Seq<char>) -> bool {
    &&& !tasks.dom().contains(name)
    &&& exists|id: Seq<char>, i: int|
        tasks.dom().contains(id) && 0 <= i < tasks[id].extends.len()
            && #[trigger] tasks[id].extends[i] == name
}

/// Whether some task of the document extends an id that no task has.
pub open spec fn has_unknown_parent(tasks: Tasks) -> bool {
    exists|name: Seq<char>| names_unknown_parent(tasks, name)
}

/// Whether each member of `chain` but the last is a task of the document that
/// extends the member after it.
pub open spec fn extends_chain(tasks: Tasks, chain: Seq<Seq<char>>) -> bool {
    forall|k: int|
        0 <= k < chain.len() - 1 ==> tasks.dom().contains(#[trigger] chain[k])
            && tasks[chain[k]].extends.contains(chain[k + 1])
}

/// Whether `circle` is a chain of at least one step that ends where it starts.
pub open spec fn extends_circle(tasks: Tasks, circle: Seq<Seq<char>>) -> bool {
    &&& circle.len() >= 2
    &&& circle.first() == circle.last()
    &&& extends_chain(tasks, circle)
}

/// Whether some task of the document extends itself, directly or through the
/// tasks it extends.
pub open spec fn has_circle(tasks: Tasks) -> bool {
    exists|circle: Seq<Seq<char>>| extends_circle(tasks, circle)
}

/// A document without an unknown parent has every task that its tasks extend.
pub proof fn lemma_parents_known(tasks: Tasks, id: Seq<char>)
    requires
        !has_unknown_parent(tasks),
        tasks.dom().contains(id),
    ensures
        knows_parents(tasks, tasks[id]),
{
    assert forall|i: int| 0 <= i < tasks[id].extends.len() implies tasks.dom().contains(
        #[trigger] tasks[id].extends[i],
    ) by {
        if !tasks.dom().contains(tasks[id].extends[i]) {
            assert(names_unknown_parent(tasks, tasks[id].extends[i]));
        }
    }
}

/// Only tasks of the document are settled.
pub proof fn lemma_settled_are_tasks(tasks: Tasks, rounds: nat, id: Seq<char>)
    requires
        resolved_within(tasks, rounds).dom().contains(id),
    ensures
        tasks.dom().contains(id),
{
}

/// What one round settles, the next round settles in the same way.
pub proof fn lemma_next_round_keeps(tasks: Tasks, rounds: nat)
    ensures
        forall|id: Seq<char>| #[trigger]
            resolved_within(tasks, rounds).dom().contains(id) ==> resolved_within(
                tasks,
                rounds + 1,
            ).contains_pair(id, resolved_within(tasks, rounds)[id]),
    decreases rounds,
{
    if rounds > 0 {
        let before = resolved_within(tasks, (rounds - 1) as nat);
        let now = resolved_within(tasks, rounds);
        let after = resolved_within(tasks, rounds + 1);
        lemma_next_round_keeps(tasks, (rounds - 1) as nat);
        assert forall|id: Seq<char>| #[trigger] now.dom().contains(id) implies after.contains_pair(
            id,
            now[id],
        ) by {
            let task = tasks[id];
            assert forall|i: int| 0 <= i < task.extends.len() implies now.contains_pair(
                #[trigger] task.extends[i],
                before[task.extends[i]],
            ) by {
                assert(before.dom().contains(task.extends[i]));
            }
            assert(parents_of(task, now) =~= parents_of(task, before));
        }
    }
}

/// What one round settles, every later round settles in the same way.
pub proof fn lemma_later_round_keeps(tasks: Tasks, earlier: nat, later: nat)
    requires
        earlier <= later,
    ensures
        forall|id: Seq<char>| #[trigger]
            resolved_within(tasks, earlier).dom().contains(id) ==> resolved_within(
                tasks,
                later,
            ).contains_pair(id, resolved_within(tasks, earlier)[id]),
    decreases later - earlier,
{
    if earlier < later {
        lemma_later_round_keeps(tasks, earlier, (later - 1) as nat);
        lemma_next_round_keeps(tasks, (later - 1) as nat);
    }
}

/// A task is settled in one way only.
pub proof fn lemma_settled_once(
    tasks: Tasks,
    id: Seq<char>,
    first: ResolvedTaskView,
    second: ResolvedTaskView,
)
    requires
        settled_as(tasks, id, first),
        settled_as(tasks, id, second),
    ensures
        first == second,
{
    let a = choose|rounds: nat| #[trigger] resolved_within(tasks, rounds).contains_pair(id, first);
    let b = choose|rounds: nat| #[trigger] resolved_within(tasks, rounds).contains_pair(id, second);
    if a <= b {
        lemma_later_round_keeps(tasks, a, b);
    } else {
        lemma_later_round_keeps(tasks, b, a);
    }
}

/// A task that some round settles stands in the resolution as that round
/// resolves it.
pub proof fn lemma_resolution_holds(tasks: Tasks, id: Seq<char>, record: ResolvedTaskView)
    requires
        settled_as(tasks, id, record),
    ensures
        resolution(tasks).contains_pair(id, record),
{
    let rounds = choose|rounds: nat| #[trigger]
        resolved_within(tasks, rounds).contains_pair(id, record);
    assert(resolved_within(tasks, rounds).dom().contains(id));
    let settling = settling_round(tasks, id);
    assert(resolved_within(tasks, settling).contains_pair(id, resolution(tasks)[id]));
    lemma_settled_once(tasks, id, record, resolution(tasks)[id]);
}

/// Whether every record in `resolved` is the one that some round settles for
/// its id.
pub open spec fn sound(tasks: Tasks, resolved: Resolved) -> bool {
    forall|id: Seq<char>| #[trigger]
        resolved.dom().contains(id) ==> settled_as(tasks, id, resolved[id])
}

/// Some round settles the first `count` parents of `task` as `resolved` has
/// them.
proof fn lemma_parents_share_round(tasks: Tasks, task: TaskView, resolved: Resolved, count: nat) -> (rounds: nat)
    requires
        sound(tasks, resolved),
        parents_in(task, resolved),
        count <= task.extends.len(),
    ensures
        forall|i: int|
            0 <= i < count ==> resolved_within(tasks, rounds).contains_pair(
                #[trigger] task.extends[i],
                resolved[task.extends[i]],
            ),
    decreases count,
{
    if count == 0 {
        0
    } else {
        let earlier = lemma_parents_share_round(tasks, task, resolved, (count - 1) as nat);
        let parent = task.extends[count - 1];
        assert(resolved.dom().contains(parent));
        let own = choose|rounds: nat| #[trigger]
            resolved_within(tasks, rounds).contains_pair(parent, resolved[parent]);
        let rounds = if earlier <= own {
            own
        } else {
            earlier
        };
        lemma_later_round_keeps(tasks, earlier, rounds);
        lemma_later_round_keeps(tasks, own, rounds);
        rounds
    }
}

/// A task whose parents are all among sound records is settled from them.
pub proof fn lemma_settled_from_parents(tasks: Tasks, id: Seq<char>, resolved: Resolved)
    requires
        sound(tasks, resolved),
        tasks.dom().contains(id),
        parents_in(tasks[id], resolved),
    ensures
        settled_as(tasks, id, resolve_with(tasks[id], parents_of(tasks[id], resolved))),
{
    let task = tasks[id];
    let rounds = lemma_parents_share_round(tasks, task, resolved, task.extends.len());
    let before = resolved_within(tasks, rounds);
    assert(parents_in(task, before));
    assert(parents_of(task, before) =~= parents_of(task, resolved));
    assert(resolved_within(tasks, rounds + 1).contains_pair(
        id,
        resolve_with(task, parents_of(task, resolved)),
    ));
}

/// Whether every task in `waiting` is a task of the document that extends a
/// task in `waiting`.
pub open spec fn wait_for_each_other(tasks: Tasks, waiting: Set<Seq<char>>) -> bool {
    forall|id: Seq<char>| #[trigger]
        waiting.contains(id) ==> tasks.dom().contains(id) && exists|i: int|
            0 <= i < tasks[id].extends.len() && waiting.contains(#[trigger] tasks[id].extends[i])
}

/// No round settles a task of a set whose members wait for each other.
pub proof fn lemma_waiting_never_settled(tasks: Tasks, waiting: Set<Seq<char>>, rounds: nat)
    requires
        wait_for_each_other(tasks, waiting),
    ensures
        forall|id: Seq<char>|
            waiting.contains(id) ==> !(#[trigger] resolved_within(tasks, rounds).dom().contains(id)),
    decreases rounds,
{
    if rounds > 0 {
        lemma_waiting_never_settled(tasks, waiting, (rounds - 1) as nat);
        let before = resolved_within(tasks, (rounds - 1) as nat);
        assert forall|id: Seq<char>| waiting.contains(id) implies !(#[trigger] resolved_within(
            tasks,
            rounds,
        ).dom().contains(id)) by {
            let i = choose|i: int|
                0 <= i < tasks[id].extends.len() && waiting.contains(#[trigger] tasks[id].extends[i]);
            assert(!before.dom().contains(tasks[id].extends[i]));
        }
    }
}

/// A task of a set whose members wait for each other is not resolvable.
pub proof fn lemma_waiting_not_resolvable(tasks: Tasks, waiting: Set<Seq<char>>, id: Seq<char>)
    requires
        wait_for_each_other(tasks, waiting),
        waiting.contains(id),
    ensures
        !resolvable(tasks, id),
{
    assert forall|rounds: nat| !(#[trigger] resolved_within(tasks, rounds).dom().contains(id)) by {
        lemma_waiting_never_settled(tasks, waiting, rounds);
    }
}

} // verus!
