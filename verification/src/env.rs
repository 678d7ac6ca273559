//! The environment variables of a task and how two sets of them combine.

use std::hash::Hash;
use vstd::prelude::*;

use crate::overridable::Mergeable;
use crate::rstr::Rstr;
use crate::table::Table;

verus! {

/// Custom environment variables for a task.
#[verifier::reject_recursive_types(S)]
#[derive(Debug, PartialEq, Eq)]
pub struct Env<S = String> where S: Hash + Eq {
    /// The variables to pass to the command, by name.
    pub vars: Table<S, S>,
    /// Whether the variables are merged into those of this process, rather
    /// than standing in their place.
    pub merge: bool,
}

/// What an [`Env`] holds, whatever the kind of string it is made of.
pub struct EnvView {
    pub vars: Map<Seq<char>, Seq<char>>,
    pub merge: bool,
}

impl View for Env<String> {
    type V = EnvView;

    open spec fn view(&self) -> EnvView {
        EnvView { vars: self.vars@, merge: self.merge }
    }
}

impl View for Env<Rstr> {
    type V = EnvView;

    open spec fn view(&self) -> EnvView {
        EnvView { vars: self.vars@, merge: self.merge }
    }
}

/// The combination of two sets of variables: every incoming variable is set,
/// over a base variable of the same name where there is one, and the incoming
/// choice of merging with the process's environment stands.
pub open spec fn merge_envs(base: EnvView, incoming: EnvView) -> EnvView {
    EnvView { vars: base.vars.union_prefer_right(incoming.vars), merge: incoming.merge }
}

impl Clone for Env<Rstr> {
    fn clone(&self) -> (out: Self)
        ensures
            out@ == self@,
    {
        Env { vars: self.vars.clone(), merge: self.merge }
    }
}

impl Default for Env<String> {
    fn default() -> (out: Self)
        ensures
            out@.vars == Map::<Seq<char>, Seq<char>>::empty(),
            out@.merge,
    {
        Env { vars: Table::<String, String>::new(), merge: true }
    }
}

impl Default for Env<Rstr> {
    fn default() -> (out: Self)
        ensures
            out@.vars == Map::<Seq<char>, Seq<char>>::empty(),
            out@.merge,
    {
        Env { vars: Table::<Rstr, Rstr>::new(), merge: true }
    }
}

impl From<Env<String>> for Env<Rstr> {
    /// Puts every name and value behind a shared handle.
    fn from(value: Env<String>) -> (out: Self)
        ensures
            out@ == value@,
    {
        Env { vars: value.vars.into_shared(), merge: value.merge }
    }
}

impl vstd::std_specs::convert::FromSpecImpl<Env<String>> for Env<Rstr> {
    /// The conversion is stated over views, by the `ensures` of `from`.
    open spec fn obeys_from_spec() -> bool {
        false
    }

    open spec fn from_spec(value: Env<String>) -> Env<Rstr> {
        arbitrary()
    }
}

impl Mergeable for Env<Rstr> {
    open spec fn merged(base: EnvView, incoming: EnvView) -> EnvView {
        merge_envs(base, incoming)
    }

    fn merge(self, other: Self) -> (combined: Self) {
        let mut base = self;
        base.vars.extend(other.vars);
        Env { vars: base.vars, merge: other.merge }
    }
}

} // verus!
