//! Characters and texts: what the standard library knows of a character, and
//! the ways between a text and the row of its characters.

use vstd::prelude::*;

verus! {

/// Whether the standard library counts `c` as a lowercase character.
pub uninterp spec fn char_is_lowercase(c: char) -> bool;

/// Whether the standard library counts `c` as an uppercase character.
pub uninterp spec fn char_is_uppercase(c: char) -> bool;

/// Whether the standard library counts `c` as a letter or a number.
pub uninterp spec fn char_is_alphanumeric(c: char) -> bool;

/// Whether the standard library counts `c` as white space.
pub uninterp spec fn char_is_whitespace(c: char) -> bool;

/// The characters that the standard library gives as the lowercase of `c`.
pub uninterp spec fn char_lowercase(c: char) -> Seq<char>;

/// `char::is_lowercase`: whether `c` has the Unicode property Lowercase. The
/// answer is taken as a function of the character.
#[verifier::external_body]
pub(crate) fn is_lowercase(c: char) -> (lower: bool)
    ensures
        lower == char_is_lowercase(c),
{
    c.is_lowercase()
}

/// `char::is_uppercase`: whether `c` has the Unicode property Uppercase. The
/// answer is taken as a function of the character.
#[verifier::external_body]
pub(crate) fn is_uppercase(c: char) -> (upper: bool)
    ensures
        upper == char_is_uppercase(c),
{
    c.is_uppercase()
}

/// `char::is_alphanumeric`: whether `c` is a letter or a number by the
/// Unicode tables. The answer is taken as a function of the character.
#[verifier::external_body]
pub(crate) fn is_alphanumeric(c: char) -> (alphanumeric: bool)
    ensures
        alphanumeric == char_is_alphanumeric(c),
{
    c.is_alphanumeric()
}

/// `char::is_whitespace`: whether `c` has the Unicode property White_Space.
/// The answer is taken as a function of the character.
#[verifier::external_body]
pub(crate) fn is_whitespace(c: char) -> (space: bool)
    ensures
        space == char_is_whitespace(c),
{
    c.is_whitespace()
}

/// `char::to_lowercase`: the lowercase of `c`, which may be more than one
/// character, collected into a vector. The answer is taken as a function of
/// the character.
#[verifier::external_body]
pub(crate) fn to_lowercase(c: char) -> (lower: Vec<char>)
    ensures
        lower@ == char_lowercase(c),
{
    c.to_lowercase().collect()
}

/// `String::push`: appends `c` to `s`.
#[verifier::external_body]
pub(crate) fn push_char(s: &mut String, c: char)
    ensures
        final(s)@ == old(s)@.push(c),
{
    s.push(c)
}

/// The characters of `s`, in their order.
pub fn chars_of(s: &str) -> (chars: Vec<char>)
    ensures
        chars@ == s@,
{
    let mut chars: Vec<char> = Vec::new();
    for c in it: s.chars()
        invariant
            it.seq() == s@,
            chars@ == s@.take(it.index() as int),
    {
        chars.push(c);
    }
    chars
}

/// The text made of the characters of `chars` from place `from` up to, not
/// including, place `to`.
pub fn string_of(chars: &Vec<char>, from: usize, to: usize) -> (s: String)
    requires
        from <= to <= chars@.len(),
    ensures
        s@ == chars@.subrange(from as int, to as int),
{
    let mut s = String::new();
    let mut i = from;
    while i < to
        invariant
            from <= i <= to <= chars@.len(),
            s@ == chars@.subrange(from as int, i as int),
        decreases to - i,
    {
        push_char(&mut s, chars[i]);
        assert(chars@.subrange(from as int, i as int).push(chars@[i as int]) =~= chars@.subrange(
            from as int,
            i + 1,
        ));
        i = i + 1;
    }
    s
}

/// Appends the characters of `more` to `s`.
pub fn push_chars(s: &mut String, more: &Vec<char>)
    ensures
        final(s)@ == old(s)@ + more@,
{
    let mut i: usize = 0;
    while i < more.len()
        invariant
            i <= more@.len(),
            s@ == old(s)@ + more@.take(i as int),
        decreases more@.len() - i,
    {
        push_char(s, more[i]);
        assert(old(s)@ + more@.take(i + 1) =~= (old(s)@ + more@.take(i as int)).push(
            more@[i as int],
        ));
        i = i + 1;
    }
    assert(more@.take(more@.len() as int) =~= more@);
}

} // verus!
