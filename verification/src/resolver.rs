//! The resolution of a document into a table of resolved tasks.

use vstd::prelude::*;
use vstd::string::StringExecFns;

use crate::env::Env;
use crate::laws::lemma_resolvable_iff_no_circle;
use crate::model::{
    all_resolvable, has_circle, has_unknown_parent, inherited, knows_parents, lemma_parents_known,
    lemma_resolution_holds, lemma_settled_are_tasks, lemma_settled_from_parents,
    lemma_waiting_not_resolvable, names_unknown_parent, own_env, own_path, parents_in,
    parents_of, resolution, resolve_with, resolved_within, settle_env, settle_path, sound,
    wait_for_each_other, Tasks,
};
use crate::overridable::{Inheritable, Mergeable};
use crate::path::{lemma_clone_keeps_path, Path};
use crate::rstr::{texts, Rstr};
use crate::table::{lemma_listing_counts, lists_entries, lists_values, seed_ids, Table};
use crate::task::{
    env_view, path_view, shell_view, Config, MultiStr, ResolvedTask, ResolvedTaskView, Task,
    Watch,
};

verus! {

/// A clone of a list of shared strings holds the texts that the list holds.
proof fn lemma_clone_keeps_texts(list: Vec<Rstr>, copy: Vec<Rstr>)
    requires
        cloned(list, copy),
    ensures
        texts(copy@) == texts(list@),
{
    assert(texts(copy@) =~= texts(list@));
}

/// A reference to what an option holds.
fn borrowed<T>(option: &Option<T>) -> (out: Option<&T>)
    ensures
        match out {
            Some(value) => *option == Some(*value),
            None => *option is None,
        },
{
    match option {
        Some(value) => Some(value),
        None => None,
    }
}

/// Resolves `task` from the records in `resolved` of the tasks it extends.
///
/// Where `resolved` lacks one of those tasks, `task` is handed back as it is.
pub fn resolve_task(task: Task, resolved: &Table<String, ResolvedTask>) -> (out: Result<
    ResolvedTask,
    Task,
>)
    ensures
        match out {
            Ok(done) => parents_in(task@, resolved@) && done@ == resolve_with(
                task@,
                parents_of(task@, resolved@),
            ),
            Err(back) => !parents_in(task@, resolved@) && back == task,
        },
{
    let mut parents: Vec<&ResolvedTask> = Vec::new();
    match &task.extends {
        Some(MultiStr::Single(id)) => match resolved.get(id.as_str()) {
            Some(parent) => {
                parents.push(parent);
            },
            None => {
                assert(!resolved@.dom().contains(task@.extends[0]));
                return Err(task);
            },
        },
        Some(MultiStr::Multi(ids)) => {
            let mut i: usize = 0;
            while i < ids.len()
                invariant
                    i <= ids@.len(),
                    task@.extends == texts(ids@),
                    parents@.len() == i,
                    forall|j: int|
                        0 <= j < i ==> resolved@.contains_pair(
                            #[trigger] task@.extends[j],
                            parents@[j]@,
                        ),
                decreases ids@.len() - i,
            {
                match resolved.get(ids[i].as_str()) {
                    Some(parent) => {
                        parents.push(parent);
                    },
                    None => {
                        assert(!resolved@.dom().contains(task@.extends[i as int]));
                        return Err(task);
                    },
                }
                i += 1;
            }
        },
        _ => (),
    }
    let ghost records = parents_of(task@, resolved@);
    assert(parents@.len() == records.len());
    assert(forall|j: int| 0 <= j < records.len() ==> parents@[j]@ == #[trigger] records[j]);

    let mut shell: Option<Vec<Rstr>> = None;
    let mut path: Option<Path<Rstr>> = None;
    let mut env: Option<Env<Rstr>> = None;
    for parent in it: parents
        invariant
            it.seq().len() == records.len(),
            forall|j: int| 0 <= j < records.len() ==> it.seq()[j]@ == #[trigger] records[j],
            shell_view(shell) == inherited(records.take(it.index() as int)).shell,
            path_view(path) == inherited(records.take(it.index() as int)).path,
            env_view(env) == inherited(records.take(it.index() as int)).env,
    {
        proof {
            let seen = records.take(it.index() as int);
            let next = records.take(it.index() + 1);
            assert(next.drop_last() == seen);
            assert(next.last() == parent@);
        }
        shell = match (shell, &parent.shell) {
            (Some(shell), None) => Some(shell),
            (_, Some(shell)) => {
                let copy = shell.clone();
                assert(texts(copy@) =~= texts(shell@));
                Some(copy)
            },
            _ => None,
        };
        path = match (path, &parent.path) {
            (Some(path), Some(p_path)) => {
                let copy = p_path.clone();
                assert(texts(copy.dirs@) =~= texts(p_path.dirs@));
                Some(path.merge(copy))
            },
            (Some(path), None) => Some(path),
            (None, Some(path)) => {
                let copy = path.clone();
                assert(texts(copy.dirs@) =~= texts(path.dirs@));
                Some(copy)
            },
            _ => None,
        };
        env = match (env, &parent.env) {
            (Some(env), Some(p_env)) => Some(env.merge(p_env.clone())),
            (Some(env), None) => Some(env),
            (None, Some(env)) => Some(env.clone()),
            _ => None,
        };
    }
    assert(records.take(records.len() as int) == records);
    Ok(settle(task, shell, path, env))
}

/// Resolves `task` from what its parents hand down.
fn settle(
    task: Task,
    shell: Option<Vec<Rstr>>,
    path: Option<Path<Rstr>>,
    env: Option<Env<Rstr>>,
) -> (done: ResolvedTask)
    ensures
        done@.config == task@.config,
        done@.shell == task@.shell.resolved(shell_view(shell)),
        done@.path == settle_path(task@.path, path_view(path)),
        done@.env == settle_env(task@.env, env_view(env)),
{
    proof {
        if shell is Some {
            let list = shell->Some_0;
            assert forall|copy: Vec<Rstr>| cloned(list, copy) implies texts(copy@) == texts(
                list@,
            ) by {
                lemma_clone_keeps_texts(list, copy);
            }
        }
        if path is Some {
            let handed = path->Some_0;
            assert forall|copy: Path<Rstr>| cloned(handed, copy) implies copy@ == handed@ by {
                lemma_clone_keeps_path(handed, copy);
            }
        }
    }
    ResolvedTask {
        config: task.config,
        shell: task.shell.map_custom(
            |list: MultiStr| -> (shared: Vec<Rstr>)
                ensures
                    texts(shared@) == list@
                { Vec::from(list) },
        ).resolve(borrowed(&shell)),
        path: task.path.map_custom(
            |own: Inheritable<Path>| -> (settled: Path<Rstr>)
                ensures
                    settled@ == own_path(
                        (Inheritable { replace: own.replace, config: own.config@ }),
                        path_view(path),
                    )
                {
                    own.map(
                        |path: Path| -> (shared: Path<Rstr>)
                            ensures
                                shared@ == path@
                            { Path::from(path) },
                    ).resolve(borrowed(&path))
                },
        ).resolve(borrowed(&path)),
        env: task.env.map_custom(
            |own: Inheritable<Env>| -> (settled: Env<Rstr>)
                ensures
                    settled@ == own_env(
                        (Inheritable { replace: own.replace, config: own.config@ }),
                        env_view(env),
                    )
                {
                    own.map(
                        |env: Env| -> (shared: Env<Rstr>)
                            ensures
                                shared@ == env@
                            { Env::from(env) },
                    ).resolve(borrowed(&env))
                },
        ).resolve(borrowed(&env)),
    }
}

impl From<Task> for ResolvedTask {
    /// Resolves a task that extends no task.
    fn from(task: Task) -> (out: Self)
        ensures
            out@ == resolve_with(task@, Seq::empty()),
    {
        assert(inherited(Seq::<ResolvedTaskView>::empty()).shell is None);
        settle(task, None, None, None)
    }
}

impl vstd::std_specs::convert::FromSpecImpl<Task> for ResolvedTask {
    /// The conversion is stated over views, by the `ensures` of `from`.
    open spec fn obeys_from_spec() -> bool {
        false
    }

    open spec fn from_spec(task: Task) -> ResolvedTask {
        arbitrary()
    }
}

/// Why a document cannot be resolved.
#[derive(Debug, Clone, PartialEq, Eq)]
pub enum ResolveError {
    /// A task extends an id that no task of the document has: the id.
    UnknownTask(String),
    /// Some tasks extend each other in a circle, or extend tasks that do.
    Cycle,
}

impl ResolveError {
    /// The text of [`ResolveError::message`].
    pub open spec fn message_text(self) -> Seq<char> {
        match self {
            ResolveError::UnknownTask(name) => "Unknown task `"@ + name@ + "`"@,
            ResolveError::Cycle => "Extends dependency cycle detected"@,
        }
    }

    /// The error in words, with the unknown id where there is one.
    pub fn message(&self) -> (text: String)
        ensures
            text@ == self.message_text(),
    {
        match self {
            ResolveError::UnknownTask(name) => {
                let mut text = String::from_str("Unknown task `");
                text.append(name.as_str());
                text.append("`");
                text
            },
            ResolveError::Cycle => String::from_str("Extends dependency cycle detected"),
        }
    }
}

/// Whether `out` is what resolving a document yields whose tasks are `tasks`
/// and whose watcher settings are `watch`.
///
/// A document in which a task extends an id that no task has is refused with
/// one such id, whatever else holds of it. Otherwise a document in which a task
/// extends itself, directly or through the tasks it extends, is refused as a
/// cycle; in such a document, and in no other, some task is never settled.
/// Every other document is resolved in full: each task has its record, and the
/// watcher settings are handed on unchanged.
pub open spec fn is_outcome(
    tasks: Tasks,
    watch: Watch,
    out: Result<(Watch, Table<String, ResolvedTask>), ResolveError>,
) -> bool {
    match out {
        Ok((same_watch, resolved)) => {
            &&& !has_unknown_parent(tasks)
            &&& !has_circle(tasks)
            &&& all_resolvable(tasks)
            &&& same_watch == watch
            &&& resolved@.dom() == tasks.dom()
            &&& resolved@ == resolution(tasks)
        },
        Err(ResolveError::UnknownTask(name)) => names_unknown_parent(tasks, name@),
        Err(ResolveError::Cycle) => {
            &&& !has_unknown_parent(tasks)
            &&& has_circle(tasks)
            &&& !all_resolvable(tasks)
        },
    }
}

impl Config {
    /// Resolves every task of the document, or says why that cannot be done.
    ///
    /// The tasks that extend nothing are resolved as they stand. The others are
    /// resolved pass by pass, each as soon as all the tasks it extends are; a
    /// pass that resolves no task shows a cycle.
    pub fn resolve(self) -> (out: Result<(Watch, Table<String, ResolvedTask>), ResolveError>)
        ensures
            is_outcome(self.tasks@, self.watch, out),
    {
        let Config { tasks, watch } = self;
        let mut tasks = tasks;
        let ghost document = tasks@;

        // Every task must extend known tasks only.
        let listed = tasks.values();
        let mut n: usize = 0;
        while n < listed.len()
            invariant
                n <= listed@.len(),
                document == self.tasks@,
                tasks@ == document,
                lists_values(listed@, document),
                forall|j: int| 0 <= j < n ==> knows_parents(document, (#[trigger] listed@[j])@),
            decreases listed@.len() - n,
        {
            let task = listed[n];
            assert(document.contains_value(listed@[n as int]@));
            let ghost id = choose|id: Seq<char>|
                document.dom().contains(id) && document[id] == task@;
            match &task.extends {
                None => {},
                Some(MultiStr::Single(parent)) => {
                    if tasks.get(parent.as_str()).is_none() {
                        assert(document[id].extends[0] == parent@);
                        return Err(ResolveError::UnknownTask(parent.clone()));
                    }
                },
                Some(MultiStr::Multi(parents)) => {
                    let mut i: usize = 0;
                    while i < parents.len()
                        invariant
                            i <= parents@.len(),
                            document == self.tasks@,
                            tasks@ == document,
                            document.contains_pair(id, task@),
                            task@.extends == texts(parents@),
                            forall|k: int|
                                0 <= k < i ==> document.dom().contains(#[trigger] task@.extends[k]),
                        decreases parents@.len() - i,
                    {
                        if tasks.get(parents[i].as_str()).is_none() {
                            assert(document[id].extends[i as int] == parents@[i as int]@);
                            return Err(ResolveError::UnknownTask(parents[i].clone()));
                        }
                        i += 1;
                    }
                },
            }
            n += 1;
        }
        proof {
            assert forall|name: Seq<char>| !names_unknown_parent(document, name) by {
                if names_unknown_parent(document, name) {
                    let (id, i) = choose|id: Seq<char>, i: int|
                        document.dom().contains(id) && 0 <= i < document[id].extends.len()
                            && #[trigger] document[id].extends[i] == name;
                    let j = choose|j: int|
                        0 <= j < listed@.len() && (#[trigger] listed@[j])@ == document[id];
                    assert(knows_parents(document, listed@[j]@));
                }
            }
        }

        // The tasks that extend nothing are resolved as they stand.
        let seeds = tasks.extract_seeds();
        let ghost alone = document.restrict(seed_ids(document));
        let mut resolved = Table::<String, ResolvedTask>::new();
        for seed in it: seeds
            invariant
                it.seq() == seeds@,
                lists_entries(seeds@, alone),
                alone == document.restrict(seed_ids(document)),
                resolved@.dom().finite(),
                sound(document, resolved@),
                forall|id: Seq<char>| #[trigger]
                    resolved@.dom().contains(id) ==> alone.dom().contains(id),
                forall|j: int|
                    0 <= j < it.index() ==> resolved@.dom().contains((#[trigger] seeds@[j]).0@),
        {
            let (id, task) = seed;
            let done = ResolvedTask::from(task);
            proof {
                assert(alone.contains_pair(id@, task@));
                assert(parents_of(document[id@], resolved@) =~= Seq::empty());
                lemma_settled_from_parents(document, id@, resolved@);
            }
            resolved.insert(id, done);
        }
        proof {
            assert forall|id: Seq<char>| #[trigger] alone.dom().contains(id) implies resolved@.dom().contains(
                id,
            ) by {
                let j = choose|j: int| 0 <= j < seeds@.len() && (#[trigger] seeds@[j]).0@ == id;
                assert(resolved@.dom().contains(seeds@[j].0@));
            }
            assert forall|id: Seq<char>| document.dom().contains(id) implies resolved@.dom().contains(
                id,
            ) || tasks@.dom().contains(id) by {
                if seed_ids(document).contains(id) {
                    assert(alone.dom().contains(id));
                }
            }
        }

        // The others are resolved as their parents are, pass by pass.
        while tasks.len() != 0
            invariant
                document == self.tasks@,
                watch == self.watch,
                !has_unknown_parent(document),
                resolved@.dom().finite(),
                sound(document, resolved@),
                forall|id: Seq<char>|
                    document.dom().contains(id) <==> resolved@.dom().contains(id)
                        || tasks@.dom().contains(id),
                forall|id: Seq<char>|
                    !(resolved@.dom().contains(id) && tasks@.dom().contains(id)),
                forall|id: Seq<char>| #[trigger]
                    tasks@.dom().contains(id) ==> tasks@[id] == document[id],
            decreases tasks@.len(),
        {
            let start_len = tasks.len();
            let ghost waiting = tasks@;
            let ghost before = resolved@;
            let mut next = Table::<String, Task>::new();
            let entries = tasks.into_entries();
            proof {
                lemma_listing_counts(entries@, waiting);
            }
            for entry in it: entries
                invariant
                    it.seq() == entries@,
                    lists_entries(entries@, waiting),
                    resolved@.dom().finite(),
                    sound(document, resolved@),
                    forall|id: Seq<char>|
                        document.dom().contains(id) <==> before.dom().contains(id)
                            || waiting.dom().contains(id),
                    forall|id: Seq<char>|
                        !(before.dom().contains(id) && waiting.dom().contains(id)),
                    forall|id: Seq<char>| #[trigger]
                        waiting.dom().contains(id) ==> waiting[id] == document[id],
                    forall|id: Seq<char>| #[trigger]
                        before.dom().contains(id) ==> resolved@.dom().contains(id),
                    forall|id: Seq<char>| #[trigger]
                        resolved@.dom().contains(id) ==> before.dom().contains(id) || exists|j: int|
                            0 <= j < it.index() && (#[trigger] entries@[j]).0@ == id,
                    forall|id: Seq<char>| #[trigger]
                        next@.dom().contains(id) ==> waiting.contains_pair(id, next@[id])
                            && !resolved@.dom().contains(id) && exists|j: int|
                            0 <= j < it.index() && (#[trigger] entries@[j]).0@ == id,
                    forall|j: int|
                        0 <= j < it.index() ==> resolved@.dom().contains(
                            (#[trigger] entries@[j]).0@,
                        ) || next@.dom().contains(entries@[j].0@),
                    next@.dom().finite(),
                    next@.len() <= it.index(),
                    next@.len() == it.index() ==> resolved@ == before && forall|j: int|
                        0 <= j < it.index() ==> !parents_in((#[trigger] entries@[j]).1@, before),
            {
                let (id, task) = entry;
                proof {
                    assert(waiting.contains_pair(id@, task@));
                }
                match resolve_task(task, &resolved) {
                    Ok(done) => {
                        proof {
                            lemma_settled_from_parents(document, id@, resolved@);
                        }
                        resolved.insert(id, done);
                    },
                    Err(task) => {
                        next.insert(id, task);
                    },
                }
            }
            if next.len() == start_len {
                proof {
                    let stuck = waiting.dom();
                    assert forall|id: Seq<char>| #[trigger] stuck.contains(id) implies document.dom().contains(
                        id,
                    ) && exists|i: int|
                        0 <= i < document[id].extends.len() && stuck.contains(
                            #[trigger] document[id].extends[i],
                        ) by {
                        let j = choose|j: int|
                            0 <= j < entries@.len() && (#[trigger] entries@[j]).0@ == id;
                        assert(!parents_in(entries@[j].1@, before));
                        let i = choose|i: int|
                            0 <= i < document[id].extends.len() && !before.dom().contains(
                                #[trigger] document[id].extends[i],
                            );
                        lemma_parents_known(document, id);
                        assert(document.dom().contains(document[id].extends[i]));
                    }
                    assert(wait_for_each_other(document, stuck));
                    assert(entries@.len() > 0);
                    assert(stuck.contains(entries@[0].0@));
                    lemma_waiting_not_resolvable(document, stuck, entries@[0].0@);
                    assert(document.dom() =~= before.dom().union(stuck));
                    lemma_resolvable_iff_no_circle(document);
                }
                return Err(ResolveError::Cycle);
            }
            tasks = next;
        }
        proof {
            assert(tasks@.dom() =~= Set::<Seq<char>>::empty());
            assert forall|id: Seq<char>| document.dom().contains(id) implies resolution(
                document,
            ).contains_pair(id, resolved@[id]) by {
                lemma_resolution_holds(document, id, resolved@[id]);
            }
            assert forall|id: Seq<char>| resolution(document).dom().contains(id) implies document.dom().contains(
                id,
            ) by {
                let rounds = choose|rounds: nat| #[trigger]
                    resolved_within(document, rounds).dom().contains(id);
                lemma_settled_are_tasks(document, rounds, id);
            }
            assert(resolved@ =~= resolution(document));
            assert(resolved@.dom() =~= document.dom());
            lemma_resolvable_iff_no_circle(document);
        }
        Ok((watch, resolved))
    }
}

impl TryFrom<Config> for (Watch, Table<String, ResolvedTask>) {
    type Error = ResolveError;

    /// Resolves every task of the document: [`Config::resolve`].
    fn try_from(config: Config) -> (out: Result<Self, ResolveError>)
        ensures
            is_outcome(config.tasks@, config.watch, out),
    {
        config.resolve()
    }
}

impl vstd::std_specs::convert::TryFromSpecImpl<Config> for (Watch, Table<String, ResolvedTask>) {
    /// The conversion is stated over views, by the `ensures` of `try_from`.
    open spec fn obeys_try_from_spec() -> bool {
        false
    }

    open spec fn try_from_spec(config: Config) -> Result<Self, ResolveError> {
        arbitrary()
    }
}

} // verus!
