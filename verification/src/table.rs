//! Hash tables keyed by strings.
//!
//! The tables are those of the `hashbrown` crate. Verus does not look inside
//! one: what a table holds is named by a specification function for each kind
//! of table, and each operation is a small private function whose contract is
//! taken on trust from the source of `hashbrown`. The public operations are
//! verified against those contracts.
//!
//! The keys of a table are told apart by their text: `String` and
//! [`Rstr`] both compare and hash by the characters they hold.

use std::hash::Hash;
use vstd::prelude::*;

use crate::rstr::Rstr;
use crate::task::{IsEmpty, ResolvedTask, ResolvedTaskView, Task, TaskView};

verus! {

/// A `hashbrown::HashMap` from `K` to `V`.
#[verifier::external_body]
#[verifier::reject_recursive_types(K)]
#[verifier::reject_recursive_types(V)]
#[derive(Debug, PartialEq, Eq)]
pub struct Table<K: Hash + Eq, V> {
    inner: hashbrown::HashMap<K, V>,
}

/// The tasks that a table of tasks holds, by id.
pub uninterp spec fn task_entries(table: Table<String, Task>) -> Map<Seq<char>, TaskView>;

/// The resolved tasks that a table of them holds, by id.
pub uninterp spec fn resolved_entries(table: Table<String, ResolvedTask>) -> Map<Seq<char>, ResolvedTaskView>;

/// The variables that a table of owned strings holds, by name.
pub uninterp spec fn string_vars(table: Table<String, String>) -> Map<Seq<char>, Seq<char>>;

/// The variables that a table of shared strings holds, by name.
pub uninterp spec fn shared_vars(table: Table<Rstr, Rstr>) -> Map<Seq<char>, Seq<char>>;

impl View for Table<String, Task> {
    type V = Map<Seq<char>, TaskView>;

    open spec fn view(&self) -> Map<Seq<char>, TaskView> {
        task_entries(*self)
    }
}

impl View for Table<String, ResolvedTask> {
    type V = Map<Seq<char>, ResolvedTaskView>;

    open spec fn view(&self) -> Map<Seq<char>, ResolvedTaskView> {
        resolved_entries(*self)
    }
}

impl View for Table<String, String> {
    type V = Map<Seq<char>, Seq<char>>;

    open spec fn view(&self) -> Map<Seq<char>, Seq<char>> {
        string_vars(*self)
    }
}

impl View for Table<Rstr, Rstr> {
    type V = Map<Seq<char>, Seq<char>>;

    open spec fn view(&self) -> Map<Seq<char>, Seq<char>> {
        shared_vars(*self)
    }
}

/// Whether `items` lists the entries of `entries`: each entry once, in any
/// order, and nothing else.
pub open spec fn lists_entries<K: View, V: View>(
    items: Seq<(K, V)>,
    entries: Map<K::V, V::V>,
) -> bool {
    &&& forall|i: int|
        0 <= i < items.len() ==> entries.contains_pair((#[trigger] items[i]).0@, items[i].1@)
    &&& forall|i: int, j: int|
        0 <= i < j < items.len() ==> (#[trigger] items[i]).0@ != (#[trigger] items[j]).0@
    &&& forall|key: K::V| #[trigger]
        entries.dom().contains(key) ==> exists|i: int|
            0 <= i < items.len() && (#[trigger] items[i]).0@ == key
}

/// A map that a sequence lists is finite and has as many entries as the
/// sequence has members.
pub proof fn lemma_listing_counts<K: View, V: View>(items: Seq<(K, V)>, entries: Map<K::V, V::V>)
    requires
        lists_entries(items, entries),
    ensures
        counts(entries, items.len()),
    decreases items.len(),
{
    if items.len() == 0 {
        assert(entries.dom() =~= Set::<K::V>::empty());
    } else {
        let key = items.last().0@;
        let rest = items.drop_last();
        let smaller = entries.remove(key);
        assert(entries.dom().contains(key));
        assert forall|other: K::V| #[trigger] smaller.dom().contains(other) implies exists|i: int|
            0 <= i < rest.len() && (#[trigger] rest[i]).0@ == other by {
            let i = choose|i: int| 0 <= i < items.len() && (#[trigger] items[i]).0@ == other;
            assert(rest[i] == items[i]);
        }
        assert(lists_entries(rest, smaller)) by {
            assert forall|i: int| 0 <= i < rest.len() implies smaller.contains_pair(
                (#[trigger] rest[i]).0@,
                rest[i].1@,
            ) by {
                assert(rest[i] == items[i]);
            }
            assert forall|i: int, j: int| 0 <= i < j < rest.len() implies (#[trigger] rest[i]).0@ != (
            #[trigger] rest[j]).0@ by {
                assert(rest[i] == items[i]);
                assert(rest[j] == items[j]);
            }
        }
        lemma_listing_counts(rest, smaller);
        assert(entries.dom() =~= smaller.dom().insert(key));
    }
}

/// Whether `items` lists the values of `entries`: the value of each entry, in
/// any order, and nothing else.
pub open spec fn lists_values<V: View>(items: Seq<&V>, entries: Map<Seq<char>, V::V>) -> bool {
    &&& forall|i: int| 0 <= i < items.len() ==> entries.contains_value((#[trigger] items[i])@)
    &&& forall|key: Seq<char>| #[trigger]
        entries.dom().contains(key) ==> exists|i: int|
            0 <= i < items.len() && (#[trigger] items[i])@ == entries[key]
}

/// Whether `entries` is finite and has `len` members.
pub open spec fn counts<K, V>(entries: Map<K, V>, len: nat) -> bool {
    entries.dom().finite() && entries.len() == len
}

/// The ids of the tasks in `tasks` that extend no task.
pub open spec fn seed_ids(tasks: Map<Seq<char>, TaskView>) -> Set<Seq<char>> {
    Set::new(|id: Seq<char>| tasks.dom().contains(id) && tasks[id].extends.len() == 0)
}

impl Table<String, Task> {
    /// `hashbrown::HashMap::new`: the table it makes holds nothing.
    #[verifier::external_body]
    fn raw_new() -> (table: Self)
        ensures
            task_entries(table).dom() == Set::<Seq<char>>::empty(),
    {
        Table { inner: hashbrown::HashMap::new() }
    }

    /// `hashbrown::HashMap::insert`: afterwards the table holds `task` under
    /// `id` and is otherwise unchanged; the task that `id` stood for before, if
    /// any, is handed back.
    #[verifier::external_body]
    fn raw_insert(&mut self, id: String, task: Task) -> (previous: Option<Task>)
        ensures
            task_entries(*final(self)) == task_entries(*old(self)).insert(id@, task@),
            (previous is Some) == task_entries(*old(self)).dom().contains(id@),
            previous matches Some(before) ==> before@ == task_entries(*old(self))[id@],
    {
        self.inner.insert(id, task)
    }

    /// `hashbrown::HashMap::len`: the number of entries, which is finite.
    #[verifier::external_body]
    fn raw_len(&self) -> (len: usize)
        ensures
            counts(task_entries(*self), len as nat),
    {
        self.inner.len()
    }

    /// `hashbrown::HashMap::get`: the task that `id` stands for, if any.
    #[verifier::external_body]
    fn raw_get(&self, id: &str) -> (found: Option<&Task>)
        ensures
            (found is Some) == task_entries(*self).dom().contains(id@),
            found matches Some(task) ==> task@ == task_entries(*self)[id@],
    {
        self.inner.get(id)
    }

    /// `hashbrown::HashMap::values`, collected: every task of the table, in
    /// an order that is not fixed.
    #[verifier::external_body]
    fn raw_values(&self) -> (tasks: Vec<&Task>)
        ensures
            lists_values(tasks@, task_entries(*self)),
    {
        self.inner.values().collect()
    }

    /// `hashbrown::HashMap::extract_if`, run to its end with the test for an
    /// empty `extends`: the entries that pass the test leave the table and are
    /// handed back, in an order that is not fixed; the others stay.
    #[verifier::external_body]
    fn raw_extract_seeds(&mut self) -> (seeds: Vec<(String, Task)>)
        ensures
            task_entries(*final(self)) == task_entries(*old(self)).remove_keys(
                seed_ids(task_entries(*old(self))),
            ),
            lists_entries(
                seeds@,
                task_entries(*old(self)).restrict(seed_ids(task_entries(*old(self)))),
            ),
    {
        self.inner.extract_if(|_id, task| task.extends.is_empty()).collect()
    }

    /// `hashbrown::HashMap::into_iter`, collected: every entry of the table, in
    /// an order that is not fixed.
    #[verifier::external_body]
    fn raw_into_entries(self) -> (entries: Vec<(String, Task)>)
        ensures
            lists_entries(entries@, task_entries(self)),
    {
        self.inner.into_iter().collect()
    }

    /// A table that holds nothing.
    pub fn new() -> (table: Self)
        ensures
            table@ == Map::<Seq<char>, TaskView>::empty(),
    {
        let table = Self::raw_new();
        assert(table@ =~= Map::<Seq<char>, TaskView>::empty());
        table
    }

    /// Puts `task` under `id` and hands back the task that stood there.
    pub fn insert(&mut self, id: String, task: Task) -> (previous: Option<Task>)
        ensures
            final(self)@ == old(self)@.insert(id@, task@),
            match previous {
                Some(before) => old(self)@.dom().contains(id@) && before@ == old(self)@[id@],
                None => !old(self)@.dom().contains(id@),
            },
    {
        self.raw_insert(id, task)
    }

    /// The number of tasks.
    pub fn len(&self) -> (len: usize)
        ensures
            self@.dom().finite(),
            len == self@.len(),
    {
        self.raw_len()
    }

    /// The task that `id` stands for, if any.
    pub fn get(&self, id: &str) -> (found: Option<&Task>)
        ensures
            match found {
                Some(task) => self@.dom().contains(id@) && task@ == self@[id@],
                None => !self@.dom().contains(id@),
            },
    {
        self.raw_get(id)
    }

    /// Every task of the table, in an order that is not fixed.
    pub fn values(&self) -> (tasks: Vec<&Task>)
        ensures
            lists_values(tasks@, self@),
    {
        self.raw_values()
    }

    /// Takes the tasks that extend no task out of the table and hands them
    /// back, in an order that is not fixed.
    pub fn extract_seeds(&mut self) -> (seeds: Vec<(String, Task)>)
        ensures
            final(self)@ == old(self)@.remove_keys(seed_ids(old(self)@)),
            lists_entries(seeds@, old(self)@.restrict(seed_ids(old(self)@))),
    {
        self.raw_extract_seeds()
    }

    /// Every entry of the table, in an order that is not fixed.
    pub fn into_entries(self) -> (entries: Vec<(String, Task)>)
        ensures
            lists_entries(entries@, self@),
    {
        self.raw_into_entries()
    }
}

impl Default for Table<String, Task> {
    fn default() -> (table: Self)
        ensures
            table@ == Map::<Seq<char>, TaskView>::empty(),
    {
        Self::new()
    }
}

impl Table<String, ResolvedTask> {
    /// `hashbrown::HashMap::new`: the table it makes holds nothing.
    #[verifier::external_body]
    fn raw_new() -> (table: Self)
        ensures
            resolved_entries(table).dom() == Set::<Seq<char>>::empty(),
    {
        Table { inner: hashbrown::HashMap::new() }
    }

    /// `hashbrown::HashMap::insert`: afterwards the table holds `task` under
    /// `id` and is otherwise unchanged; the task that `id` stood for before, if
    /// any, is handed back.
    #[verifier::external_body]
    fn raw_insert(&mut self, id: String, task: ResolvedTask) -> (previous: Option<ResolvedTask>)
        ensures
            resolved_entries(*final(self)) == resolved_entries(*old(self)).insert(id@, task@),
            (previous is Some) == resolved_entries(*old(self)).dom().contains(id@),
            previous matches Some(before) ==> before@ == resolved_entries(*old(self))[id@],
    {
        self.inner.insert(id, task)
    }

    /// `hashbrown::HashMap::get`: the task that `id` stands for, if any.
    #[verifier::external_body]
    fn raw_get(&self, id: &str) -> (found: Option<&ResolvedTask>)
        ensures
            (found is Some) == resolved_entries(*self).dom().contains(id@),
            found matches Some(task) ==> task@ == resolved_entries(*self)[id@],
    {
        self.inner.get(id)
    }

    /// `hashbrown::HashMap::into_iter`, collected: every entry of the table, in
    /// an order that is not fixed.
    #[verifier::external_body]
    fn raw_into_entries(self) -> (entries: Vec<(String, ResolvedTask)>)
        ensures
            lists_entries(entries@, resolved_entries(self)),
    {
        self.inner.into_iter().collect()
    }

    /// A table that holds nothing.
    pub fn new() -> (table: Self)
        ensures
            table@ == Map::<Seq<char>, ResolvedTaskView>::empty(),
    {
        let table = Self::raw_new();
        assert(table@ =~= Map::<Seq<char>, ResolvedTaskView>::empty());
        table
    }

    /// Puts `task` under `id` and hands back the task that stood there.
    pub fn insert(&mut self, id: String, task: ResolvedTask) -> (previous: Option<ResolvedTask>)
        ensures
            final(self)@ == old(self)@.insert(id@, task@),
            match previous {
                Some(before) => old(self)@.dom().contains(id@) && before@ == old(self)@[id@],
                None => !old(self)@.dom().contains(id@),
            },
    {
        self.raw_insert(id, task)
    }

    /// The task that `id` stands for, if any.
    pub fn get(&self, id: &str) -> (found: Option<&ResolvedTask>)
        ensures
            match found {
                Some(task) => self@.dom().contains(id@) && task@ == self@[id@],
                None => !self@.dom().contains(id@),
            },
    {
        self.raw_get(id)
    }

    /// Every entry of the table, in an order that is not fixed.
    pub fn into_entries(self) -> (entries: Vec<(String, ResolvedTask)>)
        ensures
            lists_entries(entries@, self@),
    {
        self.raw_into_entries()
    }
}

impl Table<String, String> {
    /// `hashbrown::HashMap::new`: the table it makes holds nothing.
    #[verifier::external_body]
    fn raw_new() -> (table: Self)
        ensures
            string_vars(table).dom() == Set::<Seq<char>>::empty(),
    {
        Table { inner: hashbrown::HashMap::new() }
    }

    /// `hashbrown::HashMap::insert`: afterwards the table holds `value` under
    /// `name` and is otherwise unchanged; the value that `name` stood for
    /// before, if any, is handed back.
    #[verifier::external_body]
    fn raw_insert(&mut self, name: String, value: String) -> (previous: Option<String>)
        ensures
            string_vars(*final(self)) == string_vars(*old(self)).insert(name@, value@),
            (previous is Some) == string_vars(*old(self)).dom().contains(name@),
            previous matches Some(before) ==> before@ == string_vars(*old(self))[name@],
    {
        self.inner.insert(name, value)
    }

    /// `hashbrown::HashMap::into_iter`, collected: every entry of the table, in
    /// an order that is not fixed.
    #[verifier::external_body]
    fn raw_into_entries(self) -> (entries: Vec<(String, String)>)
        ensures
            lists_entries(entries@, string_vars(self)),
    {
        self.inner.into_iter().collect()
    }

    /// `hashbrown::HashMap::into_iter`, each name and value put behind a shared
    /// handle and collected into a table again: the new table holds what the
    /// old one held.
    #[verifier::external_body]
    fn raw_into_shared(self) -> (shared: Table<Rstr, Rstr>)
        ensures
            shared_vars(shared) == string_vars(self),
    {
        Table {
            inner: self.inner.into_iter().map(|(name, value)| (Rstr::new(name), Rstr::new(value))).collect(),
        }
    }

    /// A table that holds nothing.
    pub fn new() -> (table: Self)
        ensures
            table@ == Map::<Seq<char>, Seq<char>>::empty(),
    {
        let table = Self::raw_new();
        assert(table@ =~= Map::<Seq<char>, Seq<char>>::empty());
        table
    }

    /// Puts `value` under `name` and hands back the value that stood there.
    pub fn insert(&mut self, name: String, value: String) -> (previous: Option<String>)
        ensures
            final(self)@ == old(self)@.insert(name@, value@),
            match previous {
                Some(before) => old(self)@.dom().contains(name@) && before@ == old(self)@[name@],
                None => !old(self)@.dom().contains(name@),
            },
    {
        self.raw_insert(name, value)
    }

    /// Every entry of the table, in an order that is not fixed.
    pub fn into_entries(self) -> (entries: Vec<(String, String)>)
        ensures
            lists_entries(entries@, self@),
    {
        self.raw_into_entries()
    }

    /// The same variables, each name and value behind a shared handle.
    pub fn into_shared(self) -> (shared: Table<Rstr, Rstr>)
        ensures
            shared@ == self@,
    {
        self.raw_into_shared()
    }
}

impl Table<Rstr, Rstr> {
    /// `hashbrown::HashMap::new`: the table it makes holds nothing.
    #[verifier::external_body]
    fn raw_new() -> (table: Self)
        ensures
            shared_vars(table).dom() == Set::<Seq<char>>::empty(),
    {
        Table { inner: hashbrown::HashMap::new() }
    }

    /// `hashbrown::HashMap::insert`: afterwards the table holds `value` under
    /// `name` and is otherwise unchanged; the value that `name` stood for
    /// before, if any, is handed back.
    #[verifier::external_body]
    fn raw_insert(&mut self, name: Rstr, value: Rstr) -> (previous: Option<Rstr>)
        ensures
            shared_vars(*final(self)) == shared_vars(*old(self)).insert(name@, value@),
            (previous is Some) == shared_vars(*old(self)).dom().contains(name@),
            previous matches Some(before) ==> before@ == shared_vars(*old(self))[name@],
    {
        self.inner.insert(name, value)
    }

    /// `hashbrown::HashMap::extend` with the entries of another table:
    /// afterwards the table holds every entry of `other`, and those of its own
    /// entries whose name `other` does not hold.
    #[verifier::external_body]
    fn raw_extend(&mut self, other: Self)
        ensures
            shared_vars(*final(self)) == shared_vars(*old(self)).union_prefer_right(
                shared_vars(other),
            ),
    {
        self.inner.extend(other.inner)
    }

    /// `hashbrown::HashMap::clone`: the copy holds what the table holds.
    #[verifier::external_body]
    fn raw_clone(&self) -> (copy: Self)
        ensures
            shared_vars(copy) == shared_vars(*self),
    {
        Table { inner: self.inner.clone() }
    }

    /// `hashbrown::HashMap::into_iter`, collected: every entry of the table, in
    /// an order that is not fixed.
    #[verifier::external_body]
    fn raw_into_entries(self) -> (entries: Vec<(Rstr, Rstr)>)
        ensures
            lists_entries(entries@, shared_vars(self)),
    {
        self.inner.into_iter().collect()
    }

    /// A table that holds nothing.
    pub fn new() -> (table: Self)
        ensures
            table@ == Map::<Seq<char>, Seq<char>>::empty(),
    {
        let table = Self::raw_new();
        assert(table@ =~= Map::<Seq<char>, Seq<char>>::empty());
        table
    }

    /// Puts `value` under `name` and hands back the value that stood there.
    pub fn insert(&mut self, name: Rstr, value: Rstr) -> (previous: Option<Rstr>)
        ensures
            final(self)@ == old(self)@.insert(name@, value@),
            match previous {
                Some(before) => old(self)@.dom().contains(name@) && before@ == old(self)@[name@],
                None => !old(self)@.dom().contains(name@),
            },
    {
        self.raw_insert(name, value)
    }

    /// Puts every entry of `other` into the table, over an entry of the same
    /// name where there is one.
    pub fn extend(&mut self, other: Self)
        ensures
            final(self)@ == old(self)@.union_prefer_right(other@),
    {
        self.raw_extend(other)
    }

    /// Every entry of the table, in an order that is not fixed.
    pub fn into_entries(self) -> (entries: Vec<(Rstr, Rstr)>)
        ensures
            lists_entries(entries@, self@),
    {
        self.raw_into_entries()
    }
}

impl Clone for Table<Rstr, Rstr> {
    fn clone(&self) -> (copy: Self)
        ensures
            copy@ == self@,
    {
        self.raw_clone()
    }
}

} // verus!
