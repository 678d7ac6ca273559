//! The search-path setting of a task and how two of them combine.

use vstd::prelude::*;

use crate::overridable::Mergeable;
use crate::rstr::{texts, Rstr};

verus! {

/// How the directories of a [`Path`] are applied to the inherited `PATH`.
#[derive(Debug, Clone, Copy, PartialEq, Eq)]
pub enum PathApplyMethod {
    /// The directories go in front of the inherited `PATH`.
    Before,
    /// The directories go behind the inherited `PATH`.
    After,
    /// The directories stand in place of the inherited `PATH`.
    Overwrite,
}

/// A custom `PATH` for a task.
#[derive(Debug, PartialEq, Eq)]
pub struct Path<S = String> {
    /// The directories to include, most important first.
    pub dirs: Vec<S>,
    /// How to apply them.
    pub apply: PathApplyMethod,
}

/// What a [`Path`] holds, whatever the kind of string it is made of.
pub struct PathView {
    pub dirs: Seq<Seq<char>>,
    pub apply: PathApplyMethod,
}

impl<S: View<V = Seq<char>>> View for Path<S> {
    type V = PathView;

    open spec fn view(&self) -> PathView {
        PathView { dirs: texts(self.dirs@), apply: self.apply }
    }
}

/// `items` with every run of equal neighbours shortened to its first member.
pub open spec fn without_repeats<T>(items: Seq<T>) -> Seq<T>
    decreases items.len(),
{
    if items.len() <= 1 {
        items
    } else if items[items.len() - 2] == items.last() {
        without_repeats(items.drop_last())
    } else {
        without_repeats(items.drop_last()).push(items.last())
    }
}

/// The combination of two paths: the incoming directories go first, the
/// incoming way of applying them stands, and a directory that directly follows
/// itself is listed once.
pub open spec fn merge_paths(base: PathView, incoming: PathView) -> PathView {
    PathView { dirs: without_repeats(incoming.dirs + base.dirs), apply: incoming.apply }
}

/// The last member of a non-empty sequence survives the shortening of runs.
pub proof fn lemma_without_repeats_last<T>(items: Seq<T>)
    requires
        items.len() > 0,
    ensures
        without_repeats(items).len() > 0,
        without_repeats(items).last() == items.last(),
    decreases items.len(),
{
    if items.len() > 1 && items[items.len() - 2] == items.last() {
        lemma_without_repeats_last(items.drop_last());
    }
}

/// Whether no member of `items` equals the member directly before it.
pub open spec fn no_repeats<T>(items: Seq<T>) -> bool {
    forall|i: int| 0 < i < items.len() ==> items[i - 1] != #[trigger] items[i]
}

/// After the shortening of runs no member equals the member directly before it.
pub proof fn lemma_without_repeats_has_none<T>(items: Seq<T>)
    ensures
        no_repeats(without_repeats(items)),
    decreases items.len(),
{
    if items.len() > 1 {
        let earlier = items.drop_last();
        lemma_without_repeats_has_none(earlier);
        lemma_without_repeats_last(earlier);
        if items[items.len() - 2] != items.last() {
            let kept = without_repeats(earlier);
            let all = kept.push(items.last());
            assert forall|i: int| 0 < i < all.len() implies all[i - 1] != #[trigger] all[i] by {
                if i < kept.len() {
                    assert(all[i] == kept[i]);
                    assert(all[i - 1] == kept[i - 1]);
                } else {
                    assert(all[i - 1] == kept.last());
                }
            }
        }
    }
}

/// The shortening of runs leaves a sequence as it is where no member equals the
/// member directly before it: a directory that comes back later stays.
pub proof fn lemma_without_repeats_keeps<T>(items: Seq<T>)
    requires
        no_repeats(items),
    ensures
        without_repeats(items) == items,
    decreases items.len(),
{
    if items.len() > 1 {
        let earlier = items.drop_last();
        assert forall|i: int| 0 < i < earlier.len() implies earlier[i - 1] != #[trigger] earlier[i] by {
            assert(earlier[i] == items[i]);
            assert(earlier[i - 1] == items[i - 1]);
        }
        lemma_without_repeats_keeps(earlier);
        assert(items[items.len() - 2] != items[items.len() - 1]);
        assert(earlier.push(items.last()) =~= items);
    }
}

impl Default for PathApplyMethod {
    /// Directories go in front of the inherited `PATH` unless told otherwise.
    fn default() -> (out: Self)
        ensures
            out == PathApplyMethod::Before,
    {
        PathApplyMethod::Before
    }
}

impl<S> Default for Path<S> {
    /// No directory, to go in front of the inherited `PATH`.
    fn default() -> (out: Self)
        ensures
            out.dirs@.len() == 0,
            out.apply == PathApplyMethod::Before,
    {
        Path { dirs: Vec::new(), apply: PathApplyMethod::Before }
    }
}

impl<S: Clone> Clone for Path<S> {
    fn clone(&self) -> (out: Self)
        ensures
            out.apply == self.apply,
            out.dirs@.len() == self.dirs@.len(),
            forall|i: int| 0 <= i < self.dirs@.len() ==> cloned(self.dirs@[i], #[trigger] out.dirs@[i]),
    {
        Path { dirs: self.dirs.clone(), apply: self.apply }
    }
}

/// A clone of a path of shared strings holds what the path holds.
pub proof fn lemma_clone_keeps_path(path: Path<Rstr>, copy: Path<Rstr>)
    requires
        cloned(path, copy),
    ensures
        copy@ == path@,
{
    assert(texts(copy.dirs@) =~= texts(path.dirs@));
}

impl From<Path<String>> for Path<Rstr> {
    /// Puts every directory behind a shared handle.
    fn from(value: Path<String>) -> (out: Self)
        ensures
            out@ == value@,
    {
        let Path { dirs, apply } = value;
        let ghost all = texts(dirs@);
        let mut shared: Vec<Rstr> = Vec::new();
        for dir in it: dirs
            invariant
                all == texts(it.seq()),
                texts(shared@) == all.take(it.index() as int),
        {
            let ghost before = shared@;
            shared.push(Rstr::new(dir));
            assert(texts(shared@) == texts(before).push(dir@));
            assert(all.take(it.index() + 1) == all.take(it.index() as int).push(dir@));
        }
        assert(all.take(all.len() as int) == all);
        Path { dirs: shared, apply }
    }
}

impl vstd::std_specs::convert::FromSpecImpl<Path<String>> for Path<Rstr> {
    /// The conversion is stated over views, by the `ensures` of `from`.
    open spec fn obeys_from_spec() -> bool {
        false
    }

    open spec fn from_spec(value: Path<String>) -> Path<Rstr> {
        arbitrary()
    }
}

impl Mergeable for Path<Rstr> {
    open spec fn merged(base: PathView, incoming: PathView) -> PathView {
        merge_paths(base, incoming)
    }

    fn merge(self, other: Self) -> (combined: Self) {
        let mut base = self;
        let mut incoming = other;
        incoming.dirs.append(&mut base.dirs);
        assert(texts(incoming.dirs@) == texts(other.dirs@) + texts(self.dirs@));
        Path { dirs: Self::dedup(incoming.dirs), apply: incoming.apply }
    }
}

impl Path<Rstr> {
    /// Drops every directory that equals the one directly before it.
    fn dedup(dirs: Vec<Rstr>) -> (kept: Vec<Rstr>)
        ensures
            texts(kept@) == without_repeats(texts(dirs@)),
    {
        let ghost all = texts(dirs@);
        let mut kept: Vec<Rstr> = Vec::new();
        for dir in it: dirs
            invariant
                all == texts(it.seq()),
                texts(kept@) == without_repeats(all.take(it.index() as int)),
        {
            let ghost seen = all.take(it.index() as int);
            let ghost next = all.take(it.index() + 1);
            proof {
                assert(next.drop_last() == seen);
                assert(next.last() == dir@);
                if seen.len() > 0 {
                    lemma_without_repeats_last(seen);
                    assert(texts(kept@).last() == kept@.last()@);
                    assert(seen.last() == next[next.len() - 2]);
                }
            }
            let ghost before = kept@;
            let repeat = kept.len() > 0 && kept[kept.len() - 1].same_text(&dir);
            if !repeat {
                kept.push(dir);
                assert(texts(kept@) == texts(before).push(dir@));
            }
        }
        proof {
            assert(all.take(all.len() as int) == all);
        }
        kept
    }
}

} // verus!
