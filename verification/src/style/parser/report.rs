//! What is said of a place where a style sheet could not be read.

use vstd::prelude::*;
use crate::chars::push_char;

verus! {

/// What was expected, as a text: the character, or the end of the input.
pub open spec fn expected_text(expected: Option<char>) -> Seq<char> {
    match expected {
        Some(c) => seq![c],
        None => "end of input"@,
    }
}

/// What was expected from place `from` of the list on, with `, ` between the
/// entries.
pub open spec fn expected_list(expected: Seq<Option<char>>, from: int) -> Seq<char>
    decreases expected.len() - from,
{
    if from < 0 || from >= expected.len() {
        Seq::empty()
    } else if from + 1 == expected.len() {
        expected_text(expected[from])
    } else {
        expected_text(expected[from]) + ", "@ + expected_list(expected, from + 1)
    }
}

/// The message for a place where the input could not be read: what was found
/// there, what was being read, and what was expected.
pub open spec fn error_text(
    found: Option<char>,
    label: Option<Seq<char>>,
    expected: Seq<Option<char>>,
) -> Seq<char> {
    (if found is Some {
        "Unexpected token"@
    } else {
        "Unexpected end of input"@
    }) + (match label {
        Some(l) => " while parsing "@ + l,
        None => Seq::empty(),
    }) + ", expected "@ + (if expected.len() == 0 {
        "something else"@
    } else {
        expected_list(expected, 0)
    })
}

/// The message for a place where the input could not be read: what was found
/// there, what was being read, and what was expected.
pub fn error_message(
    found: Option<char>,
    label: Option<&str>,
    expected: &Vec<Option<char>>,
) -> (message: String)
    ensures
        message@ == error_text(
            found,
            match label {
                Some(l) => Some(l@),
                None => None,
            },
            expected@,
        ),
{
    let mut message = String::new();
    if found.is_some() {
        message.append("Unexpected token");
    } else {
        message.append("Unexpected end of input");
    }
    match label {
        Some(label) => {
            message.append(" while parsing ");
            message.append(label);
        },
        None => {},
    }
    message.append(", expected ");
    let ghost head = message@;
    if expected.len() == 0 {
        message.append("something else");
    } else {
        let mut i: usize = 0;
        while i < expected.len()
            invariant
                i <= expected@.len(),
                expected@.len() > 0,
                head + expected_list(expected@, 0) == message@ + expected_list(expected@, i as int),
            decreases expected@.len() - i,
        {
            let ghost before = message@;
            match expected[i] {
                Some(c) => {
                    push_char(&mut message, c);
                    assert(message@ =~= before + seq![c]);
                },
                None => {
                    message.append("end of input");
                },
            }
            if i + 1 < expected.len() {
                message.append(", ");
                assert(message@ + expected_list(expected@, i + 1) =~= before + (expected_text(
                    expected@[i as int],
                ) + ", "@ + expected_list(expected@, i + 1)));
            } else {
                assert(message@ + expected_list(expected@, i + 1) =~= before + expected_text(
                    expected@[i as int],
                ));
            }
            i = i + 1;
        }
        assert(message@ + expected_list(expected@, i as int) =~= message@);
    }
    proof {
        let label_view: Option<Seq<char>> = match label {
            Some(l) => Some(l@),
            None => None,
        };
        assert(message@ =~= error_text(found, label_view, expected@));
    }
    message
}

/// What is said of the thing that was found: the token, or a sequence where
/// the input had ended.
pub open spec fn found_text(found: Option<char>) -> Seq<char> {
    match found {
        Some(c) => "Unexpected token "@ + seq![c],
        None => "Unexpected sequence"@,
    }
}

/// What is said of the thing that was found.
pub fn found_message(found: Option<char>) -> (message: String)
    ensures
        message@ == found_text(found),
{
    let mut message = String::new();
    match found {
        Some(c) => {
            message.append("Unexpected token ");
            push_char(&mut message, c);
            assert(message@ =~= "Unexpected token "@ + seq![c]);
        },
        None => {
            message.append("Unexpected sequence");
        },
    }
    message
}

/// What is said of a delimiter that was opened and not closed.
pub fn unclosed_message(delimiter: char) -> (message: String)
    ensures
        message@ == "Unclosed delimiter "@ + seq![delimiter],
{
    let mut message = String::new();
    message.append("Unclosed delimiter ");
    push_char(&mut message, delimiter);
    assert(message@ =~= "Unclosed delimiter "@ + seq![delimiter]);
    message
}

} // verus!
