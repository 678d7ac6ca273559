//! Strings that resolved tasks share with the tasks they inherit from.

use std::rc::Rc;
use vstd::prelude::*;

verus! {

/// A handle to an immutable string. Cloning the handle shares the string.
#[derive(Debug, PartialEq, Eq, Hash)]
pub struct Rstr {
    text: Rc<String>,
}

/// The texts of a sequence of strings, owned or shared.
pub open spec fn texts<S: View>(items: Seq<S>) -> Seq<S::V> {
    Seq::new(items.len(), |i: int| items[i]@)
}

impl View for Rstr {
    type V = Seq<char>;

    closed spec fn view(&self) -> Seq<char> {
        self.text@
    }
}

/// [`Rc::clone`] on a shared string: the new handle points at the string that
/// the old one points at.
#[verifier::external_body]
fn share(text: &Rc<String>) -> (out: Rc<String>)
    ensures
        out == *text,
{
    Rc::clone(text)
}

impl Rstr {
    /// Puts `text` behind a handle.
    pub fn new(text: String) -> (out: Self)
        ensures
            out@ == text@,
    {
        Rstr { text: Rc::new(text) }
    }

    /// The string behind the handle.
    pub fn as_str(&self) -> (text: &str)
        ensures
            text@ == self@,
    {
        self.text.as_str()
    }

    /// Whether two handles hold the same text.
    pub fn same_text(&self, other: &Rstr) -> (same: bool)
        ensures
            same == (self@ == other@),
    {
        *self.text == *other.text
    }
}

impl Default for Rstr {
    /// The empty string.
    fn default() -> (out: Self)
        ensures
            out@ == Seq::<char>::empty(),
    {
        Rstr::new(String::new())
    }
}

impl Clone for Rstr {
    fn clone(&self) -> (out: Self)
        ensures
            out == *self,
    {
        Rstr { text: share(&self.text) }
    }
}

} // verus!
