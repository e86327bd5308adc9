//! A text that is named by its key.

use vstd::prelude::*;

verus! {

/// Something that names a text by a key.
///
/// The default of `key_spec` is an arbitrary value: an implementation that is
/// not verified leaves it out.
pub trait LocalizedStringKey<'a> {
    /// The key, as a sequence of characters.
    open spec fn key_spec(&self) -> Seq<char> {
        arbitrary()
    }

    fn key(&self) -> (key: &'a str)
        ensures
            key@ == self.key_spec(),
    ;
}

/// A key, with the arguments that are put into the text it names.
pub struct LocalizedString<'a> {
    key: &'a str,
    args: Option<Vec<&'a str>>,
}

impl<'a> LocalizedString<'a> {
    /// The arguments, if any were given.
    pub closed spec fn args(&self) -> Option<Vec<&'a str>> {
        self.args
    }

    /// The text named by `key`, without arguments.
    pub fn new(key: &'a str) -> (s: Self)
        ensures
            s.key_spec() == key@,
            s.args() is None,
    {
        Self { key, args: None }
    }
}

impl<'a> LocalizedStringKey<'a> for LocalizedString<'a> {
    closed spec fn key_spec(&self) -> Seq<char> {
        self.key@
    }

    fn key(&self) -> (key: &'a str) {
        self.key
    }
}

impl<'a> LocalizedStringKey<'a> for &'a str {
    open spec fn key_spec(&self) -> Seq<char> {
        self@
    }

    fn key(&self) -> (key: &'a str) {
        *self
    }
}

impl<'a> LocalizedStringKey<'a> for &'a String {
    open spec fn key_spec(&self) -> Seq<char> {
        self@
    }

    fn key(&self) -> (key: &'a str) {
        String::as_str(*self)
    }
}

} // verus!
