//! From tokens to the values of properties.

use vstd::prelude::*;
use crate::chars::chars_of;
use crate::style::parser::selector::{views, Spanned};
use crate::style::parser::tokenizer::{is_digit, Span, Token, TokenView};
use crate::style::Color;

verus! {

/// The number that a row of digits stands for in base ten.
pub open spec fn digits_value(digits: Seq<char>) -> nat
    decreases digits.len(),
{
    if digits.len() == 0 {
        0
    } else {
        digits_value(digits.drop_last()) * 10 + (digits.last() as nat - '0' as nat) as nat
    }
}

/// Whether every character of `s` is a digit.
pub open spec fn all_digits(s: Seq<char>) -> bool {
    forall|i: int| 0 <= i < s.len() ==> is_digit(#[trigger] s[i])
}

/// `text` without the `+` that it may start with.
pub open spec fn unsigned(text: Seq<char>) -> Seq<char> {
    if text.len() > 0 && text[0] == '+' {
        text.drop_first()
    } else {
        text
    }
}

/// The byte that `text` stands for: a `+` or none, and then digits, one at
/// least, that give a number up to 255.
pub open spec fn byte_of(text: Seq<char>) -> Option<u8> {
    let digits = unsigned(text);
    if digits.len() > 0 && all_digits(digits) && digits_value(digits) <= 255 {
        Some(digits_value(digits) as u8)
    } else {
        None
    }
}

/// Rows of digits that go on give numbers that do not get smaller.
pub proof fn lemma_digits_value_grows(digits: Seq<char>, n: int)
    requires
        0 <= n <= digits.len(),
        forall|i: int| 0 <= i < digits.len() ==> is_digit(#[trigger] digits[i]),
    ensures
        digits_value(digits.take(n)) <= digits_value(digits),
    decreases digits.len() - n,
{
    if n < digits.len() {
        lemma_digits_value_grows(digits, n + 1);
        assert(digits.take(n + 1).drop_last() =~= digits.take(n));
        assert(is_digit(digits[n]));
    } else {
        assert(digits.take(n) =~= digits);
    }
}

/// The byte that `text` stands for.
pub fn parse_byte(text: &str) -> (byte: Option<u8>)
    ensures
        byte == byte_of(text@),
{
    let chars = chars_of(text);
    let from: usize = if chars.len() > 0 && chars[0] == '+' {
        1
    } else {
        0
    };
    let ghost digits = chars@.subrange(from as int, chars@.len() as int);
    proof {
        if from == 1 {
            assert(digits =~= chars@.drop_first());
        } else {
            assert(digits =~= chars@);
        }
    }
    if from == chars.len() {
        return None;
    }
    let mut value: u32 = 0;
    let mut i = from;
    while i < chars.len()
        invariant
            from <= i <= chars@.len(),
            digits == chars@.subrange(from as int, chars@.len() as int),
            digits == unsigned(text@),
            digits.len() > 0,
            value <= 255,
            value == digits_value(digits.take(i - from)),
            forall|k: int| 0 <= k < i - from ==> is_digit(#[trigger] digits[k]),
        decreases chars@.len() - i,
    {
        let c = chars[i];
        assert(digits[i - from] == c);
        if !('0' <= c && c <= '9') {
            assert(!is_digit(digits[i - from]));
            return None;
        }
        let digit = (c as u32) - ('0' as u32);
        let next = value * 10 + digit;
        proof {
            assert(digits.take(i - from + 1).drop_last() =~= digits.take(i - from));
            assert(digits.take(i - from + 1).last() == c);
            assert(next == digits_value(digits.take(i - from + 1)));
        }
        if next > 255 {
            proof {
                if all_digits(digits) {
                    lemma_digits_value_grows(digits, i - from + 1);
                    assert(digits_value(digits) > 255);
                }
                assert(byte_of(text@) is None);
            }
            return None;
        }
        value = next;
        i = i + 1;
    }
    assert(digits.take(i - from) =~= digits);
    Some(value as u8)
}

/// A colour found among tokens: its three parts.
pub struct Mixed {
    pub red: u8,
    pub green: u8,
    pub blue: u8,
}

/// The byte that the token at place `at` stands for, if it is a number that
/// stands for one.
pub open spec fn byte_at(tokens: Seq<TokenView>, at: int) -> Option<u8> {
    if 0 <= at < tokens.len() && tokens[at] is Number {
        byte_of(tokens[at]->Number_0)
    } else {
        None
    }
}

/// The colour that stands at place `at`: the function name `rgb`, and three
/// bytes with commas between them.
pub open spec fn rgb_color_at(tokens: Seq<TokenView>, at: int) -> Option<Mixed> {
    if 0 <= at && at + 6 <= tokens.len() && tokens[at] == TokenView::Function("rgb"@)
        && byte_at(tokens, at + 1) is Some && tokens[at + 2] is Comma && byte_at(tokens, at + 3)
        is Some && tokens[at + 4] is Comma && byte_at(tokens, at + 5) is Some {
        Some(
            Mixed {
                red: byte_at(tokens, at + 1)->0,
                green: byte_at(tokens, at + 3)->0,
                blue: byte_at(tokens, at + 5)->0,
            },
        )
    } else {
        None
    }
}

/// The byte that the token stands for, if it is a number that stands for
/// one.
pub fn number_byte(tokens: &Vec<Token>, at: usize) -> (byte: Option<u8>)
    ensures
        byte == byte_at(views(tokens@), at as int),
{
    if at < tokens.len() {
        match &tokens[at] {
            Token::Number(value) => parse_byte(value.as_str()),
            _ => None,
        }
    } else {
        None
    }
}

/// Whether the token at place `at` is a comma.
pub fn is_comma(tokens: &Vec<Token>, at: usize) -> (is: bool)
    ensures
        is == (0 <= at < tokens@.len() && views(tokens@)[at as int] is Comma),
{
    if at < tokens.len() {
        match &tokens[at] {
            Token::Comma => true,
            _ => false,
        }
    } else {
        false
    }
}

/// Whether the token at place `at` is the function name `name`.
pub fn is_function(tokens: &Vec<Token>, at: usize, name: &str) -> (is: bool)
    ensures
        is == (0 <= at < tokens@.len() && views(tokens@)[at as int] == TokenView::Function(name@)),
{
    if at < tokens.len() {
        match &tokens[at] {
            Token::Function(f) => {
                let same = crate::style::parser::property::same_text(f.as_str(), name);
                same
            },
            _ => false,
        }
    } else {
        false
    }
}

/// Whether two texts are made of the same characters.
pub fn same_text(a: &str, b: &str) -> (same: bool)
    ensures
        same == (a@ == b@),
{
    let left = chars_of(a);
    let right = chars_of(b);
    if left.len() != right.len() {
        return false;
    }
    let mut i: usize = 0;
    while i < left.len()
        invariant
            left@.len() == right@.len(),
            left@ == a@,
            right@ == b@,
            i <= left@.len(),
            forall|k: int| 0 <= k < i ==> left@[k] == right@[k],
        decreases left@.len() - i,
    {
        if left[i] != right[i] {
            assert(a@[i as int] != b@[i as int]);
            return false;
        }
        i = i + 1;
    }
    assert(left@ =~= right@);
    true
}

/// The colour at place `at`, with the stretch of the six tokens that it is
/// read from.
pub fn rgb_color(tokens: &Vec<Token>, at: usize) -> (found: Option<Spanned<Color>>)
    ensures
        match (found, rgb_color_at(views(tokens@), at as int)) {
            (Some((color, span)), Some(mixed)) => {
                &&& color == (Color { r: mixed.red, g: mixed.green, b: mixed.blue, a: 255 })
                &&& span.start == at
                &&& span.end == at + 6
            },
            (None, None) => true,
            _ => false,
        },
{
    if !(tokens.len() >= at && tokens.len() - at >= 6) {
        return None;
    }
    if !is_function(tokens, at, "rgb") {
        return None;
    }
    let red = match number_byte(tokens, at + 1) {
        Some(red) => red,
        None => {
            return None;
        },
    };
    if !is_comma(tokens, at + 2) {
        return None;
    }
    let green = match number_byte(tokens, at + 3) {
        Some(green) => green,
        None => {
            return None;
        },
    };
    if !is_comma(tokens, at + 4) {
        return None;
    }
    let blue = match number_byte(tokens, at + 5) {
        Some(blue) => blue,
        None => {
            return None;
        },
    };
    Some((Color::rgb(red, green, blue), Span { start: at, end: at + 6 }))
}

} // verus!
