//! Where the text that is laid out is kept.

use vstd::prelude::*;
use std::rc::Rc;

verus! {

/// Something that holds a text and can lend it out.
///
/// The default of `text` is an arbitrary value: an implementation that is not
/// verified leaves it out.
pub trait TextStorage {
    /// The text that is held.
    open spec fn text(&self) -> Seq<char> {
        arbitrary()
    }

    fn as_str(&self) -> (s: &str)
        ensures
            s@ == self.text(),
    ;
}

impl TextStorage for String {
    open spec fn text(&self) -> Seq<char> {
        self@
    }

    fn as_str(&self) -> (s: &str) {
        String::as_str(self)
    }
}

/// A shared text, whatever holds it.
pub struct Storage(pub Rc<dyn TextStorage>);

impl Storage {
    /// The text that is held.
    pub open spec fn text(&self) -> Seq<char> {
        self.0.text()
    }

    /// The text that is held.
    pub fn as_str(&self) -> (s: &str)
        ensures
            s@ == self.text(),
    {
        self.0.as_str()
    }
}

} // verus!
