//! From tokens to selectors.

use vstd::prelude::*;
use crate::style::parser::tokenizer::{char_text, Span, Token, TokenView};

verus! {

/// A value with the stretch of the tokens that it was read from, counted in
/// tokens.
pub type Spanned<T> = (T, Span);

/// How one selector stands to the next.
pub enum Combinator {
    Universal,
}

/// A part of a selector.
pub enum Component {
    Combinator(Combinator),
}

/// The tokens as they are compared: with their texts as rows of characters.
pub open spec fn views(tokens: Seq<Token>) -> Seq<TokenView> {
    Seq::new(tokens.len(), |i: int| tokens[i]@)
}

/// A selector found among tokens: the name that it selects by, and how many
/// tokens it takes.
pub struct Selected {
    pub name: Seq<char>,
    pub len: int,
}

/// The selector of everything: the token `*`.
pub open spec fn universal_at(tokens: Seq<TokenView>, at: int) -> Option<Selected> {
    if 0 <= at < tokens.len() && tokens[at] == TokenView::Delim('*') {
        Some(Selected { name: seq!['*'], len: 1 })
    } else {
        None
    }
}

/// The selector by id: a hash token.
pub open spec fn id_at(tokens: Seq<TokenView>, at: int) -> Option<Selected> {
    if 0 <= at < tokens.len() && tokens[at] is Hash {
        Some(Selected { name: tokens[at]->Hash_0, len: 1 })
    } else {
        None
    }
}

/// The selector by element: a name.
pub open spec fn element_at(tokens: Seq<TokenView>, at: int) -> Option<Selected> {
    if 0 <= at < tokens.len() && tokens[at] is Ident {
        Some(Selected { name: tokens[at]->Ident_0, len: 1 })
    } else {
        None
    }
}

/// The selector by class: the token `.` and a name.
pub open spec fn class_at(tokens: Seq<TokenView>, at: int) -> Option<Selected> {
    if 0 <= at && at + 1 < tokens.len() && tokens[at] == TokenView::Delim('.') && tokens[at
        + 1] is Ident {
        Some(Selected { name: tokens[at + 1]->Ident_0, len: 2 })
    } else {
        None
    }
}

/// The selector by pseudo-class: a colon and a name.
pub open spec fn pseudoclass_at(tokens: Seq<TokenView>, at: int) -> Option<Selected> {
    if 0 <= at && at + 1 < tokens.len() && tokens[at] is Colon && tokens[at + 1] is Ident {
        Some(Selected { name: tokens[at + 1]->Ident_0, len: 2 })
    } else {
        None
    }
}

/// The selector that stands at place `at`: the first of the selector of
/// everything, by id, by class and by pseudo-class that is found there.
pub open spec fn selector_at(tokens: Seq<TokenView>, at: int) -> Option<Selected> {
    if universal_at(tokens, at) is Some {
        universal_at(tokens, at)
    } else if id_at(tokens, at) is Some {
        id_at(tokens, at)
    } else if class_at(tokens, at) is Some {
        class_at(tokens, at)
    } else {
        pseudoclass_at(tokens, at)
    }
}

/// Whether what a parser found at place `at` is the selector that the
/// grammar says stands there: the name, and the stretch of the tokens taken.
pub open spec fn same_selector(
    found: Option<Spanned<String>>,
    selected: Option<Selected>,
    at: int,
) -> bool {
    match (found, selected) {
        (Some((name, span)), Some(s)) => {
            &&& name@ == s.name
            &&& span.start == at
            &&& span.end == at + s.len
        },
        (None, None) => true,
        _ => false,
    }
}

/// The selector of everything at place `at`.
pub fn universal(tokens: &Vec<Token>, at: usize) -> (found: Option<Spanned<String>>)
    ensures
        same_selector(found, universal_at(views(tokens@), at as int), at as int),
{
    if at < tokens.len() {
        match &tokens[at] {
            Token::Delim(c) => {
                if *c == '*' {
                    Some((char_text('*'), Span { start: at, end: at + 1 }))
                } else {
                    None
                }
            },
            _ => None,
        }
    } else {
        None
    }
}

/// The selector by id at place `at`.
pub fn id(tokens: &Vec<Token>, at: usize) -> (found: Option<Spanned<String>>)
    ensures
        same_selector(found, id_at(views(tokens@), at as int), at as int),
{
    if at < tokens.len() {
        match &tokens[at] {
            Token::Hash(ident) => Some((ident.clone(), Span { start: at, end: at + 1 })),
            _ => None,
        }
    } else {
        None
    }
}

/// The selector by element at place `at`.
pub fn element(tokens: &Vec<Token>, at: usize) -> (found: Option<Spanned<String>>)
    ensures
        same_selector(found, element_at(views(tokens@), at as int), at as int),
{
    if at < tokens.len() {
        match &tokens[at] {
            Token::Ident(ident) => Some((ident.clone(), Span { start: at, end: at + 1 })),
            _ => None,
        }
    } else {
        None
    }
}

/// Whether the token is the character `c` by itself.
pub fn is_delim(token: &Token, c: char) -> (is: bool)
    ensures
        is == (token@ == TokenView::Delim(c)),
{
    match token {
        Token::Delim(d) => *d == c,
        _ => false,
    }
}

/// The selector by class at place `at`.
pub fn class(tokens: &Vec<Token>, at: usize) -> (found: Option<Spanned<String>>)
    ensures
        same_selector(found, class_at(views(tokens@), at as int), at as int),
{
    if tokens.len() >= at && tokens.len() - at >= 2 && is_delim(&tokens[at], '.') {
        match &tokens[at + 1] {
            Token::Ident(ident) => Some((ident.clone(), Span { start: at, end: at + 2 })),
            _ => None,
        }
    } else {
        None
    }
}

/// The selector by pseudo-class at place `at`.
pub fn pseudoclass(tokens: &Vec<Token>, at: usize) -> (found: Option<Spanned<String>>)
    ensures
        same_selector(found, pseudoclass_at(views(tokens@), at as int), at as int),
{
    if tokens.len() >= at && tokens.len() - at >= 2 {
        match (&tokens[at], &tokens[at + 1]) {
            (Token::Colon, Token::Ident(ident)) => Some(
                (ident.clone(), Span { start: at, end: at + 2 }),
            ),
            _ => None,
        }
    } else {
        None
    }
}

/// The selector at place `at`.
pub fn selector(tokens: &Vec<Token>, at: usize) -> (found: Option<Spanned<String>>)
    ensures
        same_selector(found, selector_at(views(tokens@), at as int), at as int),
{
    match universal(tokens, at) {
        Some(found) => {
            return Some(found);
        },
        None => {},
    }
    match id(tokens, at) {
        Some(found) => {
            return Some(found);
        },
        None => {},
    }
    match class(tokens, at) {
        Some(found) => {
            return Some(found);
        },
        None => {},
    }
    pseudoclass(tokens, at)
}

} // verus!
