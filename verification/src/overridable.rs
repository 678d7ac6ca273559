//! The two wrappers a task uses to state its stance on one configuration axis:
//! [`Overridable`] (inherit, switch off, or set) and [`Inheritable`] (merge with
//! what was inherited, or replace it).

use vstd::prelude::*;

verus! {

/// A task's stance on one configuration axis.
#[derive(Debug, Clone, PartialEq, Eq)]
pub enum Overridable<T> {
    /// Nothing was said: take what the parents give.
    Unset,
    /// `true` takes what the parents give, `false` drops it.
    Use(bool),
    /// A value of the task's own.
    Custom(T),
}

/// A value of the task's own, with the choice between merging it into the
/// inherited value and replacing the inherited value by it.
#[derive(Debug, Clone, PartialEq, Eq)]
pub struct Inheritable<T> {
    /// Whether to replace the inherited value entirely instead of merging.
    pub replace: bool,
    /// The value itself.
    pub config: T,
}

/// A configuration value that can be combined with one of its own kind.
///
/// `merged` says, over views, what `merge` hands back; `base.merge(incoming)`
/// lets the settings of `incoming` win.
pub trait Mergeable: View + Sized {
    /// The combination of `base` and `incoming`.
    spec fn merged(base: Self::V, incoming: Self::V) -> Self::V;

    /// Combines `self`, the base, with `other`, the incoming value.
    fn merge(self, other: Self) -> (combined: Self)
        ensures
            combined@ == Self::merged(self@, other@),
    ;
}

impl<T> Default for Overridable<T> {
    /// A task that says nothing of an axis leaves it unset.
    fn default() -> (out: Self)
        ensures
            out == Overridable::<T>::Unset,
    {
        Overridable::Unset
    }
}

impl<T: Default> Default for Inheritable<T> {
    /// A value of a task's own is merged unless the task says otherwise.
    fn default() -> (out: Self)
        ensures
            !out.replace,
            T::default.ensures((), out.config),
    {
        Inheritable { replace: false, config: T::default() }
    }
}

impl<T> Overridable<T> {
    /// The stance applied to what the parents gave.
    pub open spec fn resolved(self, parent: Option<T>) -> Option<T> {
        match self {
            Overridable::Custom(v) => Some(v),
            Overridable::Use(false) => None,
            _ => parent,
        }
    }

    /// Whether the stance lets the parents' value through.
    pub open spec fn inherits(self) -> bool {
        match self {
            Overridable::Unset => true,
            Overridable::Use(flag) => flag,
            Overridable::Custom(_) => false,
        }
    }

    /// Applies `f` to a custom value and leaves the other stances as they are.
    pub fn map_custom<O>(self, f: impl FnOnce(T) -> O) -> (out: Overridable<O>)
        requires
            self matches Overridable::Custom(v) ==> f.requires((v,)),
        ensures
            match self {
                Overridable::Unset => out == Overridable::<O>::Unset,
                Overridable::Use(flag) => out == Overridable::<O>::Use(flag),
                Overridable::Custom(v) => out matches Overridable::Custom(o) && f.ensures((v,), o),
            },
    {
        match self {
            Overridable::Unset => Overridable::Unset,
            Overridable::Use(u) => Overridable::Use(u),
            Overridable::Custom(v) => Overridable::Custom(f(v)),
        }
    }
}

impl<T> Overridable<T> where T: Clone {
    /// Settles the stance against the value the parents gave, if any.
    ///
    /// A custom value stands whatever the parents gave; `Use(false)` yields
    /// nothing; otherwise the result is a clone of the parents' value, or
    /// nothing where there is none.
    pub fn resolve(self, parent: Option<&T>) -> (out: Option<T>)
        ensures
            match self {
                Overridable::Custom(v) => out == Some(v),
                _ => match parent {
                    Some(p) if self.inherits() => out matches Some(o) && cloned(*p, o),
                    _ => out is None,
                },
            },
    {
        match (self, parent) {
            (Overridable::Use(true), Some(parent)) | (Overridable::Unset, Some(parent)) => Some(
                parent.clone(),
            ),
            (Overridable::Custom(v), _) => Some(v),
            _ => None,
        }
    }
}

impl<T> Inheritable<T> {
    /// Applies `f` to the value and keeps the choice between merge and replace.
    pub fn map<O>(self, f: impl FnOnce(T) -> O) -> (out: Inheritable<O>)
        requires
            f.requires((self.config,)),
        ensures
            out.replace == self.replace,
            f.ensures((self.config,), out.config),
    {
        Inheritable { replace: self.replace, config: f(self.config) }
    }
}

impl<T> Inheritable<T> where T: Mergeable + Clone {
    /// Whether the value is merged into `parent` rather than standing alone.
    pub open spec fn merges_into(self, parent: Option<&T>) -> bool {
        !self.replace && parent is Some
    }

    /// Settles the value against the one the parents gave, if any.
    ///
    /// Without `replace` and with a parent, the result is a clone of the parent
    /// merged with the value, the value being the incoming side; otherwise it is
    /// the value alone.
    pub fn resolve(self, parent: Option<&T>) -> (out: T)
        ensures
            self.merges_into(parent) ==> exists|base: T|
                #![trigger cloned(*parent.unwrap(), base)]
                cloned(*parent.unwrap(), base) && out@ == T::merged(base@, self.config@),
            !self.merges_into(parent) ==> out == self.config,
    {
        match (self.replace, parent) {
            (false, Some(parent)) => {
                let base = parent.clone();
                assert(cloned(*parent, base));
                base.merge(self.config)
            },
            _ => self.config,
        }
    }
}

} // verus!
