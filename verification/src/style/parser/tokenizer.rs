//! From the characters of a style sheet to its tokens.

use vstd::prelude::*;
use crate::chars::{
    char_is_alphanumeric, char_is_whitespace, is_alphanumeric, is_whitespace, push_char,
    push_chars, string_of,
};

verus! {

/// How one selector stands to the next.
#[derive(Debug, Clone, Copy)]
pub enum Combinator {
    Universal,
    Parent,
    Ancestor,
    Adjacent,
    Sibling,
}

/// A stretch of the input: the places of its first character and of the
/// character behind its last, counted in characters.
pub type Span = core::ops::Range<usize>;

/// A token of a style sheet.
#[derive(Debug, Clone, PartialEq, Eq, Hash)]
pub enum Token {
    Ident(String),
    Function(String),
    AtKeyword(String),
    Hash(String),
    IDHash(String),
    String(String),
    BadString(String),
    Url(String),
    BadUrl(String),
    Delim(char),
    Number(String),
    Percentage(String),
    Dimension { value: String, unit: String },
    Whitespace,
    CDO,
    CDC,
    Colon,
    Semicolon,
    Comma,
    OpenSquareBracket,
    CloseSquareBracket,
    OpenParenthesis,
    CloseParenthesis,
    OpenCurlyBracket,
    CloseCurlyBracket,
}

/// A token with the place where it stands.
pub type TokenSpan = (Token, Span);

/// What a selector names.
pub enum SelectorToken {
    Id(String),
    Element(String),
    Class(String),
    Pseudoclass(String),
}

/// A token, with its texts as rows of characters.
pub enum TokenView {
    Ident(Seq<char>),
    Function(Seq<char>),
    AtKeyword(Seq<char>),
    Hash(Seq<char>),
    IDHash(Seq<char>),
    String(Seq<char>),
    BadString(Seq<char>),
    Url(Seq<char>),
    BadUrl(Seq<char>),
    Delim(char),
    Number(Seq<char>),
    Percentage(Seq<char>),
    Dimension { value: Seq<char>, unit: Seq<char> },
    Whitespace,
    CDO,
    CDC,
    Colon,
    Semicolon,
    Comma,
    OpenSquareBracket,
    CloseSquareBracket,
    OpenParenthesis,
    CloseParenthesis,
    OpenCurlyBracket,
    CloseCurlyBracket,
}

impl View for Token {
    type V = TokenView;

    open spec fn view(&self) -> TokenView {
        match *self {
            Token::Ident(s) => TokenView::Ident(s@),
            Token::Function(s) => TokenView::Function(s@),
            Token::AtKeyword(s) => TokenView::AtKeyword(s@),
            Token::Hash(s) => TokenView::Hash(s@),
            Token::IDHash(s) => TokenView::IDHash(s@),
            Token::String(s) => TokenView::String(s@),
            Token::BadString(s) => TokenView::BadString(s@),
            Token::Url(s) => TokenView::Url(s@),
            Token::BadUrl(s) => TokenView::BadUrl(s@),
            Token::Delim(c) => TokenView::Delim(c),
            Token::Number(s) => TokenView::Number(s@),
            Token::Percentage(s) => TokenView::Percentage(s@),
            Token::Dimension { value, unit } => TokenView::Dimension { value: value@, unit: unit@ },
            Token::Whitespace => TokenView::Whitespace,
            Token::CDO => TokenView::CDO,
            Token::CDC => TokenView::CDC,
            Token::Colon => TokenView::Colon,
            Token::Semicolon => TokenView::Semicolon,
            Token::Comma => TokenView::Comma,
            Token::OpenSquareBracket => TokenView::OpenSquareBracket,
            Token::CloseSquareBracket => TokenView::CloseSquareBracket,
            Token::OpenParenthesis => TokenView::OpenParenthesis,
            Token::CloseParenthesis => TokenView::CloseParenthesis,
            Token::OpenCurlyBracket => TokenView::OpenCurlyBracket,
            Token::CloseCurlyBracket => TokenView::CloseCurlyBracket,
        }
    }
}

/// The kinds of character that the grammar tells apart.
#[derive(Clone, Copy, PartialEq, Eq, Structural, Debug)]
pub enum CharClass {
    /// `0` to `9`.
    Digit,
    /// A digit, or `a` to `f`, or `A` to `F`.
    HexDigit,
    /// An ASCII letter or `_`: what an identifier starts with.
    IdentStart,
    /// An ASCII letter, a digit or `_`: what an identifier goes on with.
    IdentRest,
    /// An ASCII letter, a digit, `_` or `-`: what a name goes on with.
    NameRest,
    /// A letter or a number of any script.
    Alphanumeric,
    /// A blank, a tab, a line feed, a carriage return or a form feed.
    Space,
    /// White space of any script.
    Blank,
}

/// Whether `c` is one of `0` to `9`.
pub open spec fn is_digit(c: char) -> bool {
    '0' <= c <= '9'
}

/// Whether `c` is an ASCII letter.
pub open spec fn is_letter(c: char) -> bool {
    ('a' <= c <= 'z') || ('A' <= c <= 'Z')
}

/// Whether `c` is of the kind `class`.
pub open spec fn in_class(class: CharClass, c: char) -> bool {
    match class {
        CharClass::Digit => is_digit(c),
        CharClass::HexDigit => is_digit(c) || ('a' <= c <= 'f') || ('A' <= c <= 'F'),
        CharClass::IdentStart => is_letter(c) || c == '_',
        CharClass::IdentRest => is_letter(c) || is_digit(c) || c == '_',
        CharClass::NameRest => is_letter(c) || is_digit(c) || c == '_' || c == '-',
        CharClass::Alphanumeric => char_is_alphanumeric(c),
        CharClass::Space => c == ' ' || c == '\t' || c == '\n' || c == '\r' || c == '\x0C',
        CharClass::Blank => char_is_whitespace(c),
    }
}

/// Whether `c` is of the kind `class`.
pub fn class_has(class: CharClass, c: char) -> (has: bool)
    ensures
        has == in_class(class, c),
{
    match class {
        CharClass::Digit => '0' <= c && c <= '9',
        CharClass::HexDigit => ('0' <= c && c <= '9') || ('a' <= c && c <= 'f') || ('A' <= c && c
            <= 'F'),
        CharClass::IdentStart => ('a' <= c && c <= 'z') || ('A' <= c && c <= 'Z') || c == '_',
        CharClass::IdentRest => ('a' <= c && c <= 'z') || ('A' <= c && c <= 'Z') || ('0' <= c && c
            <= '9') || c == '_',
        CharClass::NameRest => ('a' <= c && c <= 'z') || ('A' <= c && c <= 'Z') || ('0' <= c && c
            <= '9') || c == '_' || c == '-',
        CharClass::Alphanumeric => is_alphanumeric(c),
        CharClass::Space => c == ' ' || c == '\t' || c == '\n' || c == '\r' || c == '\x0C',
        CharClass::Blank => is_whitespace(c),
    }
}

/// The place behind the longest run of characters of the kind `class` that
/// starts at place `at` of `s`; `at` itself where there is no such character
/// at `at`.
pub open spec fn run_end(s: Seq<char>, at: int, class: CharClass) -> int
    decreases s.len() - at,
{
    if 0 <= at < s.len() && in_class(class, s[at]) {
        run_end(s, at + 1, class)
    } else {
        at
    }
}

/// A run ends where it starts or behind it, within the text, and covers
/// characters of its kind alone, up to one that is not of its kind.
pub proof fn lemma_run_end(s: Seq<char>, at: int, class: CharClass)
    requires
        0 <= at <= s.len(),
    ensures
        at <= run_end(s, at, class) <= s.len(),
        forall|i: int| at <= i < run_end(s, at, class) ==> in_class(class, #[trigger] s[i]),
        run_end(s, at, class) < s.len() ==> !in_class(class, s[run_end(s, at, class)]),
    decreases s.len() - at,
{
    if at < s.len() && in_class(class, s[at]) {
        lemma_run_end(s, at + 1, class);
    }
}

/// The place behind the longest run of characters of the kind `class` that
/// starts at place `at`.
pub fn scan(input: &Vec<char>, at: usize, class: CharClass) -> (end: usize)
    requires
        at <= input@.len(),
    ensures
        end == run_end(input@, at as int, class),
        at <= end <= input@.len(),
{
    let mut end = at;
    while end < input.len() && class_has(class, input[end])
        invariant
            at <= end <= input@.len(),
            run_end(input@, at as int, class) == run_end(input@, end as int, class),
        decreases input@.len() - end,
    {
        end = end + 1;
    }
    end
}

/// A token found in a text: what it is, the stretch of the text that is
/// reported for it, and the place behind the characters that it took.
pub struct Lexeme {
    pub token: TokenView,
    pub start: int,
    pub end: int,
    pub next: int,
}

/// Whether the characters of `word` stand in `s` from place `at` on.
pub open spec fn stands_at(s: Seq<char>, at: int, word: Seq<char>) -> bool {
    0 <= at && at + word.len() <= s.len() && s.subrange(at, at + word.len()) == word
}

/// A hash: `#` and the identifier behind it, or else `#` and the letters and
/// numbers behind it, of which there may be none. The stretch reported is
/// that behind the `#`.
pub open spec fn hash_or_id_at(s: Seq<char>, at: int) -> Option<Lexeme> {
    if 0 <= at < s.len() && s[at] == '#' {
        if at + 1 < s.len() && in_class(CharClass::IdentStart, s[at + 1]) {
            let end = run_end(s, at + 2, CharClass::IdentRest);
            Some(
                Lexeme {
                    token: TokenView::IDHash(s.subrange(at + 1, end)),
                    start: at + 1,
                    end,
                    next: end,
                },
            )
        } else {
            let end = run_end(s, at + 1, CharClass::Alphanumeric);
            Some(
                Lexeme {
                    token: TokenView::Hash(s.subrange(at + 1, end)),
                    start: at + 1,
                    end,
                    next: end,
                },
            )
        }
    } else {
        None
    }
}

/// White space: the longest run of blanks, tabs and ends of lines.
pub open spec fn whitespace_token_at(s: Seq<char>, at: int) -> Option<Lexeme> {
    if 0 <= at < s.len() && in_class(CharClass::Space, s[at]) {
        let end = run_end(s, at + 1, CharClass::Space);
        Some(Lexeme { token: TokenView::Whitespace, start: at, end, next: end })
    } else {
        None
    }
}

/// The token that a single character of punctuation is.
pub open spec fn punctuation(c: char) -> Option<TokenView> {
    if c == '(' {
        Some(TokenView::OpenParenthesis)
    } else if c == ')' {
        Some(TokenView::CloseParenthesis)
    } else if c == '[' {
        Some(TokenView::OpenSquareBracket)
    } else if c == ']' {
        Some(TokenView::CloseSquareBracket)
    } else if c == '{' {
        Some(TokenView::OpenCurlyBracket)
    } else if c == '}' {
        Some(TokenView::CloseCurlyBracket)
    } else if c == ',' {
        Some(TokenView::Comma)
    } else if c == ':' {
        Some(TokenView::Colon)
    } else if c == ';' {
        Some(TokenView::Semicolon)
    } else {
        None
    }
}

/// `<!--`.
pub open spec fn cdo_at(s: Seq<char>, at: int) -> Option<Lexeme> {
    if stands_at(s, at, seq!['<', '!', '-', '-']) {
        Some(Lexeme { token: TokenView::CDO, start: at, end: at + 4, next: at + 4 })
    } else {
        None
    }
}

/// `-->`.
pub open spec fn cdc_at(s: Seq<char>, at: int) -> Option<Lexeme> {
    if stands_at(s, at, seq!['-', '-', '>']) {
        Some(Lexeme { token: TokenView::CDC, start: at, end: at + 3, next: at + 3 })
    } else {
        None
    }
}

/// A number as the tokenizer reads it: its text, and the place behind it.
pub struct Numeral {
    pub value: Seq<char>,
    pub end: int,
}

/// The place behind the whole part of a number that starts at `at`: a digit
/// other than `0` with the digits behind it, or a single `0`.
pub open spec fn whole_end(s: Seq<char>, at: int) -> Option<int> {
    if 0 <= at < s.len() && is_digit(s[at]) {
        if s[at] == '0' {
            Some(at + 1)
        } else {
            Some(run_end(s, at + 1, CharClass::Digit))
        }
    } else {
        None
    }
}

/// The place behind the fraction that starts at `at`: a point with at least
/// one digit behind it. `at` itself where no fraction starts there.
pub open spec fn fraction_end(s: Seq<char>, at: int) -> int {
    if 0 <= at && at + 1 < s.len() && s[at] == '.' && is_digit(s[at + 1]) {
        run_end(s, at + 2, CharClass::Digit)
    } else {
        at
    }
}

/// The place of the first digit of the exponent that starts at `at`: behind
/// `e` or `E` and a sign, if there is one. `None` where no exponent starts
/// at `at`.
pub open spec fn exponent_digits(s: Seq<char>, at: int) -> Option<int> {
    if 0 <= at < s.len() && (s[at] == 'e' || s[at] == 'E') {
        let signed = at + 1 < s.len() && (s[at + 1] == '+' || s[at + 1] == '-');
        let digits = if signed {
            at + 2
        } else {
            at + 1
        };
        if digits < s.len() && is_digit(s[digits]) {
            Some(digits)
        } else {
            None
        }
    } else {
        None
    }
}

/// A number: a minus sign or none, a whole part, a fraction or none, and an
/// exponent or none. The text of the number is made of these parts in their
/// order; of the exponent the sign and the digits go into it, and the `e`
/// does not.
pub open spec fn number_at(s: Seq<char>, at: int) -> Option<Numeral> {
    if 0 <= at < s.len() {
        let whole = if s[at] == '-' {
            at + 1
        } else {
            at
        };
        match whole_end(s, whole) {
            Some(fraction) => {
                let exponent = fraction_end(s, fraction);
                match exponent_digits(s, exponent) {
                    Some(digits) => {
                        let end = run_end(s, digits + 1, CharClass::Digit);
                        Some(
                            Numeral {
                                value: s.subrange(at, exponent) + s.subrange(exponent + 1, end),
                                end,
                            },
                        )
                    },
                    None => Some(Numeral { value: s.subrange(at, exponent), end: exponent }),
                }
            },
            None => None,
        }
    } else {
        None
    }
}

/// A numeric token: a number with a unit behind it is a dimension, a number
/// with `%` behind it is a percentage, and any other number is a number.
pub open spec fn numeric_token_at(s: Seq<char>, at: int) -> Option<Lexeme> {
    match number_at(s, at) {
        Some(number) => {
            let end = number.end;
            if 0 <= end < s.len() && in_class(CharClass::IdentStart, s[end]) {
                let unit_end = run_end(s, end + 1, CharClass::IdentRest);
                Some(
                    Lexeme {
                        token: TokenView::Dimension {
                            value: number.value,
                            unit: s.subrange(end, unit_end),
                        },
                        start: at,
                        end: unit_end,
                        next: unit_end,
                    },
                )
            } else if 0 <= end < s.len() && s[end] == '%' {
                Some(
                    Lexeme {
                        token: TokenView::Percentage(number.value),
                        start: at,
                        end: end + 1,
                        next: end + 1,
                    },
                )
            } else {
                Some(Lexeme { token: TokenView::Number(number.value), start: at, end, next: end })
            }
        },
        None => None,
    }
}

/// The name of a function: an identifier with `(` behind it. The `(` belongs
/// to the stretch of the token.
pub open spec fn function_token_at(s: Seq<char>, at: int) -> Option<Lexeme> {
    if 0 <= at < s.len() && in_class(CharClass::IdentStart, s[at]) {
        let end = run_end(s, at + 1, CharClass::IdentRest);
        if end < s.len() && s[end] == '(' {
            Some(
                Lexeme {
                    token: TokenView::Function(s.subrange(at, end)),
                    start: at,
                    end: end + 1,
                    next: end + 1,
                },
            )
        } else {
            None
        }
    } else {
        None
    }
}

/// A name: an ASCII letter or `_`, and the letters, digits, `_` and `-`
/// behind it.
pub open spec fn ident_token_at(s: Seq<char>, at: int) -> Option<Lexeme> {
    if 0 <= at < s.len() && in_class(CharClass::IdentStart, s[at]) {
        let end = run_end(s, at + 1, CharClass::NameRest);
        Some(Lexeme { token: TokenView::Ident(s.subrange(at, end)), start: at, end, next: end })
    } else {
        None
    }
}

/// `@` and the identifier behind it.
pub open spec fn at_keyword_token_at(s: Seq<char>, at: int) -> Option<Lexeme> {
    if 0 <= at && at + 1 < s.len() && s[at] == '@' && in_class(CharClass::IdentStart, s[at + 1]) {
        let end = run_end(s, at + 2, CharClass::IdentRest);
        Some(
            Lexeme {
                token: TokenView::AtKeyword(s.subrange(at + 1, end)),
                start: at,
                end,
                next: end,
            },
        )
    } else {
        None
    }
}

/// The token that stands at place `at` of `s`: the first of hash, white
/// space, punctuation, `<!--`, `-->`, numeric token, function name and name
/// that is found there, or else the character at `at` by itself.
pub open spec fn token_at(s: Seq<char>, at: int) -> Lexeme {
    if hash_or_id_at(s, at) is Some {
        hash_or_id_at(s, at)->0
    } else if whitespace_token_at(s, at) is Some {
        whitespace_token_at(s, at)->0
    } else if punctuation(s[at]) is Some {
        Lexeme { token: punctuation(s[at])->0, start: at, end: at + 1, next: at + 1 }
    } else if cdo_at(s, at) is Some {
        cdo_at(s, at)->0
    } else if cdc_at(s, at) is Some {
        cdc_at(s, at)->0
    } else if numeric_token_at(s, at) is Some {
        numeric_token_at(s, at)->0
    } else if function_token_at(s, at) is Some {
        function_token_at(s, at)->0
    } else if ident_token_at(s, at) is Some {
        ident_token_at(s, at)->0
    } else {
        Lexeme { token: TokenView::Delim(s[at]), start: at, end: at + 1, next: at + 1 }
    }
}

/// The tokens of `s` from place `at` on, each with the stretch reported for
/// it.
pub open spec fn tokens_from(s: Seq<char>, at: int) -> Seq<(TokenView, (int, int))>
    decreases s.len() - at,
{
    if at < 0 || at >= s.len() {
        Seq::empty()
    } else {
        let found = token_at(s, at);
        if found.next <= at || found.next > s.len() {
            Seq::empty()
        } else {
            seq![(found.token, (found.start, found.end))] + tokens_from(s, found.next)
        }
    }
}

/// Tokens with their stretches, as rows of characters and pairs of places.
pub open spec fn spanned_view(tokens: Seq<TokenSpan>) -> Seq<(TokenView, (int, int))> {
    Seq::new(
        tokens.len(),
        |i: int| (tokens[i].0@, (tokens[i].1.start as int, tokens[i].1.end as int)),
    )
}

/// Every token takes at least one character and ends within the text.
pub proof fn lemma_token_advances(s: Seq<char>, at: int)
    requires
        0 <= at < s.len(),
    ensures
        at < token_at(s, at).next <= s.len(),
        at <= token_at(s, at).start <= token_at(s, at).end <= token_at(s, at).next,
{
    lemma_run_end(s, at + 1, CharClass::Alphanumeric);
    lemma_run_end(s, at + 1, CharClass::Space);
    lemma_run_end(s, at + 1, CharClass::IdentRest);
    lemma_run_end(s, at + 1, CharClass::NameRest);
    if at + 2 <= s.len() {
        lemma_run_end(s, at + 2, CharClass::IdentRest);
    }
    lemma_number_advances(s, at);
    match number_at(s, at) {
        Some(number) => {
            if number.end < s.len() {
                lemma_run_end(s, number.end + 1, CharClass::IdentRest);
            }
        },
        None => {},
    }
}

/// A number takes at least one character and ends within the text, and its
/// text is as long as the stretch it takes, or one character shorter where it
/// has an exponent.
pub proof fn lemma_number_advances(s: Seq<char>, at: int)
    requires
        0 <= at < s.len(),
    ensures
        number_at(s, at) matches Some(number) ==> at < number.end <= s.len(),
{
    let whole = if s[at] == '-' {
        at + 1
    } else {
        at
    };
    match whole_end(s, whole) {
        Some(fraction) => {
            lemma_run_end(s, whole + 1, CharClass::Digit);
            if fraction + 2 <= s.len() {
                lemma_run_end(s, fraction + 2, CharClass::Digit);
            }
            let exponent = fraction_end(s, fraction);
            match exponent_digits(s, exponent) {
                Some(digits) => {
                    lemma_run_end(s, digits + 1, CharClass::Digit);
                },
                None => {},
            }
        },
        None => {},
    }
}

/// Whether what a parser found is what the grammar says stands there.
pub open spec fn same_lexeme(found: Option<(TokenSpan, usize)>, lexeme: Option<Lexeme>) -> bool {
    match (found, lexeme) {
        (Some(((token, span), next)), Some(l)) => {
            &&& token@ == l.token
            &&& span.start == l.start
            &&& span.end == l.end
            &&& next == l.next
        },
        (None, None) => true,
        _ => false,
    }
}

/// A hash at place `at`: `#` and what stands behind it.
pub fn hash_or_id(input: &Vec<char>, at: usize) -> (found: Option<(TokenSpan, usize)>)
    requires
        at <= input@.len(),
    ensures
        same_lexeme(found, hash_or_id_at(input@, at as int)),
{
    if at < input.len() && input[at] == '#' {
        if at + 1 < input.len() && class_has(CharClass::IdentStart, input[at + 1]) {
            let end = scan(input, at + 2, CharClass::IdentRest);
            Some(((Token::IDHash(string_of(input, at + 1, end)), Span { start: at + 1, end }), end))
        } else {
            let end = scan(input, at + 1, CharClass::Alphanumeric);
            Some(((Token::Hash(string_of(input, at + 1, end)), Span { start: at + 1, end }), end))
        }
    } else {
        None
    }
}

/// White space at place `at`: the longest run of blanks, tabs and ends of
/// lines.
pub fn whitespace_token(input: &Vec<char>, at: usize) -> (found: Option<(TokenSpan, usize)>)
    requires
        at <= input@.len(),
    ensures
        same_lexeme(found, whitespace_token_at(input@, at as int)),
{
    if at < input.len() && class_has(CharClass::Space, input[at]) {
        let end = scan(input, at + 1, CharClass::Space);
        Some(((Token::Whitespace, Span { start: at, end }), end))
    } else {
        None
    }
}

/// The token that a single character of punctuation is.
pub fn punctuation_token(c: char) -> (token: Option<Token>)
    ensures
        match (token, punctuation(c)) {
            (Some(t), Some(v)) => t@ == v,
            (None, None) => true,
            _ => false,
        },
{
    if c == '(' {
        Some(Token::OpenParenthesis)
    } else if c == ')' {
        Some(Token::CloseParenthesis)
    } else if c == '[' {
        Some(Token::OpenSquareBracket)
    } else if c == ']' {
        Some(Token::CloseSquareBracket)
    } else if c == '{' {
        Some(Token::OpenCurlyBracket)
    } else if c == '}' {
        Some(Token::CloseCurlyBracket)
    } else if c == ',' {
        Some(Token::Comma)
    } else if c == ':' {
        Some(Token::Colon)
    } else if c == ';' {
        Some(Token::Semicolon)
    } else {
        None
    }
}

/// `<!--` at place `at`.
pub fn cdo_token(input: &Vec<char>, at: usize) -> (found: Option<(TokenSpan, usize)>)
    requires
        at <= input@.len(),
    ensures
        same_lexeme(found, cdo_at(input@, at as int)),
{
    if input.len() - at >= 4 && input[at] == '<' && input[at + 1] == '!' && input[at + 2] == '-'
        && input[at + 3] == '-' {
        assert(input@.subrange(at as int, at + 4) =~= seq!['<', '!', '-', '-']);
        Some(((Token::CDO, Span { start: at, end: at + 4 }), at + 4))
    } else {
        proof {
            if stands_at(input@, at as int, seq!['<', '!', '-', '-']) {
                let word = input@.subrange(at as int, at + 4);
                assert(word[0] == '<' && word[1] == '!' && word[2] == '-' && word[3] == '-');
            }
        }
        None
    }
}

/// `-->` at place `at`.
pub fn cdc_token(input: &Vec<char>, at: usize) -> (found: Option<(TokenSpan, usize)>)
    requires
        at <= input@.len(),
    ensures
        same_lexeme(found, cdc_at(input@, at as int)),
{
    if input.len() - at >= 3 && input[at] == '-' && input[at + 1] == '-' && input[at + 2] == '>' {
        assert(input@.subrange(at as int, at + 3) =~= seq!['-', '-', '>']);
        Some(((Token::CDC, Span { start: at, end: at + 3 }), at + 3))
    } else {
        proof {
            if stands_at(input@, at as int, seq!['-', '-', '>']) {
                let word = input@.subrange(at as int, at + 3);
                assert(word[0] == '-' && word[1] == '-' && word[2] == '>');
            }
        }
        None
    }
}

/// The place behind the whole part of a number that starts at `at`.
pub fn whole_part(input: &Vec<char>, at: usize) -> (end: Option<usize>)
    requires
        at <= input@.len(),
    ensures
        match (end, whole_end(input@, at as int)) {
            (Some(e), Some(w)) => e == w && at < e <= input@.len(),
            (None, None) => true,
            _ => false,
        },
{
    if at < input.len() && class_has(CharClass::Digit, input[at]) {
        if input[at] == '0' {
            Some(at + 1)
        } else {
            Some(scan(input, at + 1, CharClass::Digit))
        }
    } else {
        None
    }
}

/// The place behind the fraction that starts at `at`; `at` itself where no
/// fraction starts there.
pub fn fraction_part(input: &Vec<char>, at: usize) -> (end: usize)
    requires
        at <= input@.len(),
    ensures
        end == fraction_end(input@, at as int),
        at <= end <= input@.len(),
{
    if input.len() - at >= 2 && input[at] == '.' && class_has(CharClass::Digit, input[at + 1]) {
        scan(input, at + 2, CharClass::Digit)
    } else {
        at
    }
}

/// The place of the first digit of the exponent that starts at `at`.
pub fn exponent_part(input: &Vec<char>, at: usize) -> (digits: Option<usize>)
    requires
        at <= input@.len(),
    ensures
        match (digits, exponent_digits(input@, at as int)) {
            (Some(d), Some(e)) => d == e && at < d < input@.len(),
            (None, None) => true,
            _ => false,
        },
{
    if at < input.len() && (input[at] == 'e' || input[at] == 'E') {
        let signed = input.len() - at >= 2 && (input[at + 1] == '+' || input[at + 1] == '-');
        let digits = if signed {
            at + 2
        } else {
            at + 1
        };
        if digits < input.len() && class_has(CharClass::Digit, input[digits]) {
            Some(digits)
        } else {
            None
        }
    } else {
        None
    }
}

/// A number at place `at`: its text, and the place behind it.
pub fn number(input: &Vec<char>, at: usize) -> (found: Option<(String, usize)>)
    requires
        at <= input@.len(),
    ensures
        match (found, number_at(input@, at as int)) {
            (Some((value, end)), Some(n)) => value@ == n.value && end == n.end,
            (None, None) => true,
            _ => false,
        },
        found matches Some((_, end)) ==> at < end <= input@.len(),
{
    if at >= input.len() {
        return None;
    }
    let whole = if input[at] == '-' {
        at + 1
    } else {
        at
    };
    let fraction = match whole_part(input, whole) {
        Some(fraction) => fraction,
        None => {
            return None;
        },
    };
    let exponent = fraction_part(input, fraction);
    let mut value = string_of(input, at, exponent);
    match exponent_part(input, exponent) {
        Some(digits) => {
            let end = scan(input, digits + 1, CharClass::Digit);
            let rest = string_of(input, exponent + 1, end);
            value.append(rest.as_str());
            Some((value, end))
        },
        None => Some((value, exponent)),
    }
}

/// A numeric token at place `at`: a dimension, a percentage or a number.
pub fn numeric_token(input: &Vec<char>, at: usize) -> (found: Option<(TokenSpan, usize)>)
    requires
        at <= input@.len(),
    ensures
        same_lexeme(found, numeric_token_at(input@, at as int)),
{
    match number(input, at) {
        Some((value, end)) => {
            if end < input.len() && class_has(CharClass::IdentStart, input[end]) {
                let unit_end = scan(input, end + 1, CharClass::IdentRest);
                Some(
                    (
                        (
                            Token::Dimension { value, unit: string_of(input, end, unit_end) },
                            Span { start: at, end: unit_end },
                        ),
                        unit_end,
                    ),
                )
            } else if end < input.len() && input[end] == '%' {
                Some(((Token::Percentage(value), Span { start: at, end: end + 1 }), end + 1))
            } else {
                Some(((Token::Number(value), Span { start: at, end }), end))
            }
        },
        None => None,
    }
}

/// The name of a function at place `at`: an identifier with `(` behind it.
pub fn function_token(input: &Vec<char>, at: usize) -> (found: Option<(TokenSpan, usize)>)
    requires
        at <= input@.len(),
    ensures
        same_lexeme(found, function_token_at(input@, at as int)),
{
    if at < input.len() && class_has(CharClass::IdentStart, input[at]) {
        let end = scan(input, at + 1, CharClass::IdentRest);
        if end < input.len() && input[end] == '(' {
            Some(
                ((Token::Function(string_of(input, at, end)), Span { start: at, end: end + 1 }), end
                    + 1),
            )
        } else {
            None
        }
    } else {
        None
    }
}

/// A name at place `at`.
pub fn ident_token(input: &Vec<char>, at: usize) -> (found: Option<(TokenSpan, usize)>)
    requires
        at <= input@.len(),
    ensures
        same_lexeme(found, ident_token_at(input@, at as int)),
{
    if at < input.len() && class_has(CharClass::IdentStart, input[at]) {
        let end = scan(input, at + 1, CharClass::NameRest);
        Some(((Token::Ident(string_of(input, at, end)), Span { start: at, end }), end))
    } else {
        None
    }
}

/// `@` and the identifier behind it, at place `at`.
pub fn at_keyword_token(input: &Vec<char>, at: usize) -> (found: Option<(TokenSpan, usize)>)
    requires
        at <= input@.len(),
    ensures
        same_lexeme(found, at_keyword_token_at(input@, at as int)),
{
    if input.len() - at >= 2 && input[at] == '@' && class_has(
        CharClass::IdentStart,
        input[at + 1],
    ) {
        let end = scan(input, at + 2, CharClass::IdentRest);
        Some(((Token::AtKeyword(string_of(input, at + 1, end)), Span { start: at, end }), end))
    } else {
        None
    }
}

/// The token at place `at`.
pub fn next_token(input: &Vec<char>, at: usize) -> (found: (TokenSpan, usize))
    requires
        at < input@.len(),
    ensures
        same_lexeme(Some(found), Some(token_at(input@, at as int))),
        at < found.1 <= input@.len(),
{
    proof {
        lemma_token_advances(input@, at as int);
    }
    let len = input.len();
    match hash_or_id(input, at) {
        Some(found) => {
            return found;
        },
        None => {},
    }
    match whitespace_token(input, at) {
        Some(found) => {
            return found;
        },
        None => {},
    }
    match punctuation_token(input[at]) {
        Some(token) => {
            return ((token, Span { start: at, end: at + 1 }), at + 1);
        },
        None => {},
    }
    match cdo_token(input, at) {
        Some(found) => {
            return found;
        },
        None => {},
    }
    match cdc_token(input, at) {
        Some(found) => {
            return found;
        },
        None => {},
    }
    match numeric_token(input, at) {
        Some(found) => {
            return found;
        },
        None => {},
    }
    match function_token(input, at) {
        Some(found) => {
            return found;
        },
        None => {},
    }
    match ident_token(input, at) {
        Some(found) => {
            return found;
        },
        None => {},
    }
    ((Token::Delim(input[at]), Span { start: at, end: at + 1 }), at + 1)
}

/// The tokens of `input`, each with the stretch reported for it: the text is
/// read from its first character to its last, and at each place the first
/// kind of token that is found there is taken, so that no character is left
/// out.
pub fn tokenize(input: &str) -> (tokens: Vec<TokenSpan>)
    ensures
        spanned_view(tokens@) == tokens_from(input@, 0),
{
    let chars = crate::chars::chars_of(input);
    let mut tokens: Vec<TokenSpan> = Vec::new();
    let mut at: usize = 0;
    while at < chars.len()
        invariant
            at <= chars@.len(),
            chars@ == input@,
            tokens_from(chars@, 0) == spanned_view(tokens@) + tokens_from(chars@, at as int),
        decreases chars@.len() - at,
    {
        let (token, next) = next_token(&chars, at);
        let ghost before = tokens@;
        tokens.push(token);
        proof {
            let found = token_at(chars@, at as int);
            assert(spanned_view(tokens@) =~= spanned_view(before) + seq![
                (found.token, (found.start, found.end)),
            ]);
            assert(spanned_view(before) + (seq![(found.token, (found.start, found.end))]
                + tokens_from(chars@, next as int)) =~= spanned_view(tokens@) + tokens_from(
                chars@,
                next as int,
            ));
        }
        at = next;
    }
    assert(spanned_view(tokens@) + tokens_from(chars@, at as int) =~= spanned_view(tokens@));
    tokens
}

/// The place of the first `*/` in `s` from place `at` on.
pub open spec fn close_from(s: Seq<char>, at: int) -> Option<int>
    decreases s.len() - at,
{
    if at < 0 || at + 2 > s.len() {
        None
    } else if s[at] == '*' && s[at + 1] == '/' {
        Some(at)
    } else {
        close_from(s, at + 1)
    }
}

/// The place behind the comment that stands at `at`: white space or none,
/// `/*`, everything up to and with the first `*/` behind it, and white space
/// or none. `None` where no comment stands there, or where it is not closed.
pub open spec fn comment_end(s: Seq<char>, at: int) -> Option<int> {
    let open = run_end(s, at, CharClass::Blank);
    if stands_at(s, open, seq!['/', '*']) {
        match close_from(s, open + 2) {
            Some(close) => Some(run_end(s, close + 2, CharClass::Blank)),
            None => None,
        }
    } else {
        None
    }
}

/// The place of the first `*/` in `input` from place `at` on.
pub fn find_close(input: &Vec<char>, at: usize) -> (close: Option<usize>)
    requires
        at <= input@.len(),
    ensures
        match (close, close_from(input@, at as int)) {
            (Some(c), Some(f)) => c == f && at <= c && c + 2 <= input@.len(),
            (None, None) => true,
            _ => false,
        },
{
    let mut i = at;
    while input.len() - i >= 2
        invariant
            at <= i <= input@.len(),
            close_from(input@, at as int) == close_from(input@, i as int),
        decreases input@.len() - i,
    {
        if input[i] == '*' && input[i + 1] == '/' {
            return Some(i);
        }
        i = i + 1;
    }
    None
}

/// Reads over the comment that stands at place `at`, with the white space
/// before and behind it. Returns the place behind it.
pub fn comment(input: &Vec<char>, at: usize) -> (end: Option<usize>)
    requires
        at <= input@.len(),
    ensures
        match (end, comment_end(input@, at as int)) {
            (Some(e), Some(c)) => e == c && at + 4 <= e <= input@.len(),
            (None, None) => true,
            _ => false,
        },
{
    let open = scan(input, at, CharClass::Blank);
    if input.len() - open >= 2 && input[open] == '/' && input[open + 1] == '*' {
        assert(input@.subrange(open as int, open + 2) =~= seq!['/', '*']);
        match find_close(input, open + 2) {
            Some(close) => Some(scan(input, close + 2, CharClass::Blank)),
            None => None,
        }
    } else {
        proof {
            if stands_at(input@, open as int, seq!['/', '*']) {
                let word = input@.subrange(open as int, open + 2);
                assert(word[0] == '/' && word[1] == '*');
            }
        }
        None
    }
}

/// The place behind the end of line that stands at `at`: a carriage return
/// with a line feed, a line feed, a carriage return, or a form feed.
pub open spec fn newline_end(s: Seq<char>, at: int) -> Option<int> {
    if 0 <= at && at + 1 < s.len() && s[at] == '\r' && s[at + 1] == '\n' {
        Some(at + 2)
    } else if 0 <= at < s.len() && (s[at] == '\n' || s[at] == '\r' || s[at] == '\x0C') {
        Some(at + 1)
    } else {
        None
    }
}

/// Reads over the end of line that stands at place `at`.
pub fn newline(input: &Vec<char>, at: usize) -> (end: Option<usize>)
    requires
        at <= input@.len(),
    ensures
        end matches Some(e) ==> at < e <= input@.len(),
        match (end, newline_end(input@, at as int)) {
            (Some(e), Some(n)) => e == n,
            (None, None) => true,
            _ => false,
        },
{
    if input.len() - at >= 2 && input[at] == '\r' && input[at + 1] == '\n' {
        Some(at + 2)
    } else if at < input.len() && (input[at] == '\n' || input[at] == '\r' || input[at] == '\x0C') {
        Some(at + 1)
    } else {
        None
    }
}

/// The place behind the piece of white space that stands at `at`: a blank, a
/// tab, or an end of line.
pub open spec fn whitespace_end(s: Seq<char>, at: int) -> Option<int> {
    if 0 <= at < s.len() && (s[at] == ' ' || s[at] == '\t') {
        Some(at + 1)
    } else {
        newline_end(s, at)
    }
}

/// Reads over the piece of white space that stands at place `at`.
pub fn whitespace(input: &Vec<char>, at: usize) -> (end: Option<usize>)
    requires
        at <= input@.len(),
    ensures
        end matches Some(e) ==> at < e <= input@.len(),
        match (end, whitespace_end(input@, at as int)) {
            (Some(e), Some(w)) => e == w,
            (None, None) => true,
            _ => false,
        },
{
    if at < input.len() && (input[at] == ' ' || input[at] == '\t') {
        Some(at + 1)
    } else {
        newline(input, at)
    }
}

/// The digits of base sixteen that stand at place `at`, of which there is at
/// least one, and the place behind them.
pub fn hex_digit(input: &Vec<char>, at: usize) -> (found: Option<(String, usize)>)
    requires
        at <= input@.len(),
    ensures
        match found {
            Some((digits, end)) => {
                &&& at < end
                &&& end == run_end(input@, at as int, CharClass::HexDigit)
                &&& digits@ == input@.subrange(at as int, end as int)
            },
            None => run_end(input@, at as int, CharClass::HexDigit) == at,
        },
{
    let end = scan(input, at, CharClass::HexDigit);
    if end > at {
        Some((string_of(input, at, end), end))
    } else {
        None
    }
}

/// The character that `c` stands for behind a backslash.
pub open spec fn escaped(c: char) -> Option<char> {
    if c == '\\' || c == '/' || c == '"' {
        Some(c)
    } else if c == 'b' {
        Some('\x08')
    } else if c == 'f' {
        Some('\x0C')
    } else if c == 'n' {
        Some('\n')
    } else if c == 'r' {
        Some('\r')
    } else if c == 't' {
        Some('\t')
    } else {
        None
    }
}

/// The character that the escape at place `at` stands for: a backslash and
/// one of `\`, `/`, `"`, `b`, `f`, `n`, `r`, `t`.
pub open spec fn escape_at(s: Seq<char>, at: int) -> Option<char> {
    if 0 <= at && at + 1 < s.len() && s[at] == '\\' {
        escaped(s[at + 1])
    } else {
        None
    }
}

/// Reads the escape that stands at place `at`: the character that it stands
/// for, and the place behind it.
pub fn escape(input: &Vec<char>, at: usize) -> (found: Option<(char, usize)>)
    requires
        at <= input@.len(),
    ensures
        match (found, escape_at(input@, at as int)) {
            (Some((c, next)), Some(e)) => c == e && next == at + 2 && next <= input@.len(),
            (None, None) => true,
            _ => false,
        },
{
    if input.len() - at >= 2 && input[at] == '\\' {
        let c = input[at + 1];
        if c == '\\' || c == '/' || c == '"' {
            Some((c, at + 2))
        } else if c == 'b' {
            Some(('\x08', at + 2))
        } else if c == 'f' {
            Some(('\x0C', at + 2))
        } else if c == 'n' {
            Some(('\n', at + 2))
        } else if c == 'r' {
            Some(('\r', at + 2))
        } else if c == 't' {
            Some(('\t', at + 2))
        } else {
            None
        }
    } else {
        None
    }
}

/// What stands between the quotes of a string.
pub struct Quoted {
    /// The characters, with each escape replaced by what it stands for.
    pub text: Seq<char>,
    /// The place behind the last of them.
    pub end: int,
}

/// What stands in a string from place `at` on, behind the characters `text`
/// that have been read: characters other than `\` and `"`, and escapes, up to
/// the first place where neither stands.
pub open spec fn quoted_from(s: Seq<char>, at: int, text: Seq<char>) -> Quoted
    decreases s.len() - at,
{
    if 0 <= at < s.len() && s[at] != '\\' && s[at] != '"' {
        quoted_from(s, at + 1, text.push(s[at]))
    } else if escape_at(s, at) is Some {
        quoted_from(s, at + 2, text.push(escape_at(s, at)->0))
    } else {
        Quoted { text, end: at }
    }
}

/// A string: `"`, what stands in it, and `"`.
pub open spec fn string_token_at(s: Seq<char>, at: int) -> Option<Lexeme> {
    if 0 <= at < s.len() && s[at] == '"' {
        let quoted = quoted_from(s, at + 1, Seq::empty());
        if 0 <= quoted.end < s.len() && s[quoted.end] == '"' {
            Some(
                Lexeme {
                    token: TokenView::String(quoted.text),
                    start: at,
                    end: quoted.end + 1,
                    next: quoted.end + 1,
                },
            )
        } else {
            None
        }
    } else {
        None
    }
}

/// A string at place `at`.
pub fn string_token(input: &Vec<char>, at: usize) -> (found: Option<(TokenSpan, usize)>)
    requires
        at <= input@.len(),
    ensures
        same_lexeme(found, string_token_at(input@, at as int)),
{
    if !(at < input.len() && input[at] == '"') {
        return None;
    }
    let mut text = String::new();
    let mut end = at + 1;
    loop
        invariant
            at < end <= input@.len(),
            quoted_from(input@, at + 1, Seq::empty()) == quoted_from(input@, end as int, text@),
        ensures
            end <= input@.len(),
            quoted_from(input@, at + 1, Seq::empty()) == (Quoted { text: text@, end: end as int }),
        decreases input@.len() - end,
    {
        if end < input.len() && input[end] != '\\' && input[end] != '"' {
            push_char(&mut text, input[end]);
            end = end + 1;
        } else {
            match escape(input, end) {
                Some((c, next)) => {
                    push_char(&mut text, c);
                    end = next;
                },
                None => {
                    break ;
                },
            }
        }
    }
    if end < input.len() && input[end] == '"' {
        Some(((Token::String(text), Span { start: at, end: end + 1 }), end + 1))
    } else {
        None
    }
}

/// The text that a token is shown as.
pub open spec fn token_text(token: TokenView) -> Seq<char> {
    match token {
        TokenView::Ident(s) => s,
        TokenView::Function(s) => s,
        TokenView::AtKeyword(s) => s,
        TokenView::Hash(s) => s,
        TokenView::IDHash(s) => s,
        TokenView::String(s) => s,
        TokenView::BadString(s) => s,
        TokenView::Url(s) => s,
        TokenView::BadUrl(s) => s,
        TokenView::Delim(c) => seq![c],
        TokenView::Number(s) => s,
        TokenView::Percentage(s) => s,
        TokenView::Dimension { value, unit } => value + unit,
        TokenView::Whitespace => seq![' '],
        TokenView::CDO => seq!['<', '!', '-', '-', '>'],
        TokenView::CDC => seq!['-', '-', '>'],
        TokenView::Colon => seq![':'],
        TokenView::Semicolon => seq![';'],
        TokenView::Comma => seq![','],
        TokenView::OpenSquareBracket => seq!['['],
        TokenView::CloseSquareBracket => seq![']'],
        TokenView::OpenParenthesis => seq!['('],
        TokenView::CloseParenthesis => seq![')'],
        TokenView::OpenCurlyBracket => seq!['{'],
        TokenView::CloseCurlyBracket => seq!['}'],
    }
}

/// The text of one character.
pub fn char_text(c: char) -> (text: String)
    ensures
        text@ == seq![c],
{
    let mut text = String::new();
    push_char(&mut text, c);
    assert(text@ =~= seq![c]);
    text
}

impl Token {
    /// The text that the token is shown as.
    pub fn to_string(&self) -> (text: String)
        ensures
            text@ == token_text(self@),
    {
        match self {
            Token::Ident(s) => s.clone(),
            Token::Function(s) => s.clone(),
            Token::AtKeyword(s) => s.clone(),
            Token::Hash(s) => s.clone(),
            Token::IDHash(s) => s.clone(),
            Token::String(s) => s.clone(),
            Token::BadString(s) => s.clone(),
            Token::Url(s) => s.clone(),
            Token::BadUrl(s) => s.clone(),
            Token::Delim(c) => char_text(*c),
            Token::Number(s) => s.clone(),
            Token::Percentage(s) => s.clone(),
            Token::Dimension { value, unit } => {
                let mut text = value.clone();
                text.append(unit.as_str());
                text
            },
            Token::Whitespace => char_text(' '),
            Token::CDO => {
                let mut text = char_text('<');
                push_char(&mut text, '!');
                push_char(&mut text, '-');
                push_char(&mut text, '-');
                push_char(&mut text, '>');
                assert(text@ =~= seq!['<', '!', '-', '-', '>']);
                text
            },
            Token::CDC => {
                let mut text = char_text('-');
                push_char(&mut text, '-');
                push_char(&mut text, '>');
                assert(text@ =~= seq!['-', '-', '>']);
                text
            },
            Token::Colon => char_text(':'),
            Token::Semicolon => char_text(';'),
            Token::Comma => char_text(','),
            Token::OpenSquareBracket => char_text('['),
            Token::CloseSquareBracket => char_text(']'),
            Token::OpenParenthesis => char_text('('),
            Token::CloseParenthesis => char_text(')'),
            Token::OpenCurlyBracket => char_text('{'),
            Token::CloseCurlyBracket => char_text('}'),
        }
    }
}

} // verus!
