use vizia_core::chars::chars_of;
use vizia_core::style::parser::property::{parse_byte, rgb_color};
use vizia_core::style::parser::report::{error_message, found_message, unclosed_message};
use vizia_core::style::parser::selector::{class, element, id, pseudoclass, selector, universal};
use vizia_core::style::parser::tokenizer::{
    at_keyword_token, comment, escape, hex_digit, ident_token, newline, string_token, tokenize,
    whitespace, whitespace_token, Token,
};
use vizia_core::style::Color;

const TEST_STRING: &str = r#"
        .button:hover .checkbox {
            background-color: rgb(255, 0, 0);
        }
    "#;

fn tokens_of(input: &str) -> Vec<Token> {
    tokenize(input).into_iter().map(|(token, _)| token).collect()
}

fn ident(name: &str) -> Token {
    Token::Ident(name.to_string())
}

fn number(value: &str) -> Token {
    Token::Number(value.to_string())
}

#[test]
fn test_tokenize() {
    let output = tokenize(TEST_STRING);
    println!("Output: {:#?}", output);
    let consumed: usize = output.last().map(|(_, span)| span.end).unwrap_or(0);
    assert_eq!(consumed, TEST_STRING.chars().count());
}

#[test]
fn test_whitespace_token() {
    const TEST: &str = r#"   "#;
    let output = whitespace_token(&chars_of(TEST), 0);
    println!("Output: {:#?}", output);
    assert_eq!(output, Some(((Token::Whitespace, 0..3), 3)));
}

#[test]
fn test_comment() {
    const TEST: &str = r#"/* comment */"#;
    let output = comment(&chars_of(TEST), 0);
    println!("Output: {:#?}", output);
    assert_eq!(output, Some(13));
}

#[test]
fn test_ident() {
    let input = "testytest";
    let output = ident_token(&chars_of(input), 0);
    println!("Output: {:#?}", output);
    assert_eq!(output, Some(((ident("testytest"), 0..9), 9)));
}

#[test]
fn test_id() {
    const TEST_STRING: &str = r#"
            .button
        "#;

    let tokens = tokenize(TEST_STRING);
    println!("{:?}", tokens);
    let output =
        selector(&tokens.into_iter().map(|(token, _)| token).collect::<Vec<Token>>(), 0);
    println!("{:?}", output);
    assert_eq!(output, None);
}

#[test]
fn test_class() {
    let tokens = vec![Token::Delim('.'), Token::Ident("class_name".to_string())];
    let output = class(&tokens, 0);
    println!("{:?}", output);
    assert_eq!(output, Some(("class_name".to_string(), 0..2)));
}

#[test]
fn test_color() {
    const TEST_STRING: &str = r#"
            .button:hover {
                background-color: rgb(255, 0, 0);
            }
        "#;

    let tokens = tokenize(TEST_STRING);
    println!("{:?}", tokens);
    let output =
        rgb_color(&tokens.into_iter().map(|(token, _)| token).collect::<Vec<Token>>(), 0);
    println!("{:?}", output);
    assert_eq!(output, None);
}

#[test]
fn rule_is_cut_into_tokens_with_their_places() {
    assert_eq!(
        tokenize(".button:hover {"),
        vec![
            (Token::Delim('.'), 0..1),
            (ident("button"), 1..7),
            (Token::Colon, 7..8),
            (ident("hover"), 8..13),
            (Token::Whitespace, 13..14),
            (Token::OpenCurlyBracket, 14..15),
        ]
    );
    assert_eq!(
        tokenize("background-color: rgb(255, 0, 0);"),
        vec![
            (ident("background-color"), 0..16),
            (Token::Colon, 16..17),
            (Token::Whitespace, 17..18),
            (Token::Function("rgb".to_string()), 18..22),
            (number("255"), 22..25),
            (Token::Comma, 25..26),
            (Token::Whitespace, 26..27),
            (number("0"), 27..28),
            (Token::Comma, 28..29),
            (Token::Whitespace, 29..30),
            (number("0"), 30..31),
            (Token::CloseParenthesis, 31..32),
            (Token::Semicolon, 32..33),
        ]
    );
    assert_eq!(tokenize(""), vec![]);
}

#[test]
fn hashes_report_the_stretch_behind_the_sign() {
    assert_eq!(tokenize("#name"), vec![(Token::IDHash("name".to_string()), 1..5)]);
    assert_eq!(tokenize("#12ab"), vec![(Token::Hash("12ab".to_string()), 1..5)]);
    assert_eq!(tokenize("#"), vec![(Token::Hash(String::new()), 1..1)]);
    assert_eq!(
        tokenize("# a"),
        vec![(Token::Hash(String::new()), 1..1), (Token::Whitespace, 1..2), (ident("a"), 2..3)]
    );
    assert_eq!(tokenize("#\u{e9}1"), vec![(Token::Hash("\u{e9}1".to_string()), 1..3)]);
    assert_eq!(
        tokenize("#-x"),
        vec![(Token::Hash(String::new()), 1..1), (Token::Delim('-'), 1..2), (ident("x"), 2..3)]
    );
}

#[test]
fn numbers_dimensions_and_percentages() {
    assert_eq!(tokens_of("12"), vec![number("12")]);
    assert_eq!(tokens_of("-3"), vec![number("-3")]);
    assert_eq!(tokens_of("0.25"), vec![number("0.25")]);
    assert_eq!(tokens_of("04"), vec![number("0"), number("4")]);
    assert_eq!(tokens_of("1."), vec![number("1"), Token::Delim('.')]);
    assert_eq!(tokens_of("1.5e3"), vec![number("1.53")]);
    assert_eq!(tokens_of("2E-7"), vec![number("2-7")]);
    assert_eq!(
        tokens_of("12px"),
        vec![Token::Dimension { value: "12".to_string(), unit: "px".to_string() }]
    );
    assert_eq!(
        tokens_of("1e"),
        vec![Token::Dimension { value: "1".to_string(), unit: "e".to_string() }]
    );
    assert_eq!(
        tokens_of("1em"),
        vec![Token::Dimension { value: "1".to_string(), unit: "em".to_string() }]
    );
    assert_eq!(tokens_of("50%"), vec![Token::Percentage("50".to_string())]);
    assert_eq!(tokens_of("-"), vec![Token::Delim('-')]);
    assert_eq!(tokens_of("-a"), vec![Token::Delim('-'), ident("a")]);
    assert_eq!(tokenize("7%"), vec![(Token::Percentage("7".to_string()), 0..2)]);
    assert_eq!(
        tokenize("7px "),
        vec![
            (Token::Dimension { value: "7".to_string(), unit: "px".to_string() }, 0..3),
            (Token::Whitespace, 3..4),
        ]
    );
}

#[test]
fn comment_marks_functions_and_fallbacks() {
    assert_eq!(tokens_of("<!--"), vec![Token::CDO]);
    assert_eq!(tokens_of("-->"), vec![Token::CDC]);
    assert_eq!(tokens_of("<!-"), vec![Token::Delim('<'), Token::Delim('!'), Token::Delim('-')]);
    assert_eq!(tokenize("url(x)")[0], (Token::Function("url".to_string()), 0..4));
    assert_eq!(tokens_of("a-b_c9"), vec![ident("a-b_c9")]);
    assert_eq!(tokens_of("_x"), vec![ident("_x")]);
    assert_eq!(tokens_of("@media"), vec![Token::Delim('@'), ident("media")]);
    assert_eq!(
        tokens_of("()[]{},:;"),
        vec![
            Token::OpenParenthesis,
            Token::CloseParenthesis,
            Token::OpenSquareBracket,
            Token::CloseSquareBracket,
            Token::OpenCurlyBracket,
            Token::CloseCurlyBracket,
            Token::Comma,
            Token::Colon,
            Token::Semicolon,
        ]
    );
    assert_eq!(tokenize(" \t\r\n\x0c x"), vec![(Token::Whitespace, 0..6), (ident("x"), 6..7)]);
    assert_eq!(tokens_of("\u{a0}"), vec![Token::Delim('\u{a0}')]);
}

#[test]
fn pieces_of_the_grammar_by_themselves() {
    assert_eq!(comment(&chars_of("  /* a */ \u{2003}x"), 0), Some(11));
    assert_eq!(comment(&chars_of("/*/"), 0), None);
    assert_eq!(comment(&chars_of("/**/"), 0), Some(4));
    assert_eq!(comment(&chars_of("x/* a */"), 0), None);
    assert_eq!(comment(&chars_of("x/* a */"), 1), Some(8));
    assert_eq!(newline(&chars_of("\r\nx"), 0), Some(2));
    assert_eq!(newline(&chars_of("\rx"), 0), Some(1));
    assert_eq!(newline(&chars_of("\n"), 0), Some(1));
    assert_eq!(newline(&chars_of("\x0c"), 0), Some(1));
    assert_eq!(newline(&chars_of(" "), 0), None);
    assert_eq!(whitespace(&chars_of(" "), 0), Some(1));
    assert_eq!(whitespace(&chars_of("\t"), 0), Some(1));
    assert_eq!(whitespace(&chars_of("\r\n"), 0), Some(2));
    assert_eq!(whitespace(&chars_of("x"), 0), None);
    assert_eq!(hex_digit(&chars_of("1aFg"), 0), Some(("1aF".to_string(), 3)));
    assert_eq!(hex_digit(&chars_of("g"), 0), None);
    assert_eq!(escape(&chars_of("\\n"), 0), Some(('\n', 2)));
    assert_eq!(escape(&chars_of("\\b"), 0), Some(('\x08', 2)));
    assert_eq!(escape(&chars_of("\\\""), 0), Some(('"', 2)));
    assert_eq!(escape(&chars_of("\\x"), 0), None);
    assert_eq!(
        string_token(&chars_of("\"a\\tb\\\\\" rest"), 0),
        Some(((Token::String("a\tb\\".to_string()), 0..8), 8))
    );
    assert_eq!(string_token(&chars_of("\"open"), 0), None);
    assert_eq!(string_token(&chars_of("\"bad\\q\""), 0), None);
    assert_eq!(
        at_keyword_token(&chars_of("@media x"), 0),
        Some(((Token::AtKeyword("media".to_string()), 0..6), 6))
    );
    assert_eq!(at_keyword_token(&chars_of("@1"), 0), None);
}

#[test]
fn selectors_are_read_from_tokens() {
    let tokens = vec![
        Token::Delim('*'),
        Token::Hash("main".to_string()),
        Token::Delim('.'),
        ident("wide"),
        Token::Colon,
        ident("hover"),
        ident("label"),
    ];
    assert_eq!(universal(&tokens, 0), Some(("*".to_string(), 0..1)));
    assert_eq!(universal(&tokens, 1), None);
    assert_eq!(id(&tokens, 1), Some(("main".to_string(), 1..2)));
    assert_eq!(id(&tokens, 0), None);
    assert_eq!(class(&tokens, 2), Some(("wide".to_string(), 2..4)));
    assert_eq!(class(&tokens, 3), None);
    assert_eq!(pseudoclass(&tokens, 4), Some(("hover".to_string(), 4..6)));
    assert_eq!(pseudoclass(&tokens, 5), None);
    assert_eq!(element(&tokens, 6), Some(("label".to_string(), 6..7)));
    assert_eq!(element(&tokens, 0), None);
    assert_eq!(selector(&tokens, 0), Some(("*".to_string(), 0..1)));
    assert_eq!(selector(&tokens, 1), Some(("main".to_string(), 1..2)));
    assert_eq!(selector(&tokens, 2), Some(("wide".to_string(), 2..4)));
    assert_eq!(selector(&tokens, 4), Some(("hover".to_string(), 4..6)));
    assert_eq!(selector(&tokens, 6), None);
    assert_eq!(selector(&tokens, 7), None);
    assert_eq!(id(&[Token::IDHash("x".to_string())].to_vec(), 0), None);
}

#[test]
fn colours_are_read_from_tokens() {
    let tokens = tokens_of("rgb(255,0,17)");
    assert_eq!(rgb_color(&tokens, 0), Some((Color::rgb(255, 0, 17), 0..6)));
    assert_eq!(rgb_color(&tokens, 1), None);
    assert_eq!(rgb_color(&tokens_of("rgb(255, 0, 17)"), 0), None);
    assert_eq!(rgb_color(&tokens_of("rgb(256,0,0)"), 0), None);
    assert_eq!(rgb_color(&tokens_of("rgb(-1,0,0)"), 0), None);
    assert_eq!(rgb_color(&tokens_of("rgba(1,2,3)"), 0), None);
    assert_eq!(rgb_color(&tokens_of("rgb(1,2)"), 0), None);
    let spaced = tokens_of("x rgb(1,2,3)");
    assert_eq!(rgb_color(&spaced, 2), Some((Color::rgb(1, 2, 3), 2..8)));
}

#[test]
fn bytes_are_parsed_as_the_standard_library_does() {
    let texts = [
        "0", "7", "255", "256", "+5", "+", "", "-0", "007", "0255", "000256", "1a", " 1", "1 ",
        "99999999999999999999", "++1", "2.5",
    ];
    for text in texts {
        assert_eq!(parse_byte(text), text.parse::<u8>().ok(), "{:?}", text);
    }
    assert_eq!(parse_byte("255"), Some(255));
    assert_eq!(parse_byte("+5"), Some(5));
    assert_eq!(parse_byte("256"), None);
}

#[test]
fn tokens_are_shown_as_text() {
    assert_eq!(ident("a").to_string(), "a");
    assert_eq!(Token::Delim('*').to_string(), "*");
    assert_eq!(Token::Whitespace.to_string(), " ");
    assert_eq!(Token::CDO.to_string(), "<!-->");
    assert_eq!(Token::CDC.to_string(), "-->");
    assert_eq!(Token::OpenCurlyBracket.to_string(), "{");
    assert_eq!(Token::CloseCurlyBracket.to_string(), "}");
    assert_eq!(Token::OpenSquareBracket.to_string(), "[");
    assert_eq!(Token::CloseParenthesis.to_string(), ")");
    assert_eq!(Token::Colon.to_string(), ":");
    assert_eq!(Token::Semicolon.to_string(), ";");
    assert_eq!(Token::Comma.to_string(), ",");
    assert_eq!(
        Token::Dimension { value: "12".to_string(), unit: "px".to_string() }.to_string(),
        "12px"
    );
    assert_eq!(Token::Percentage("50".to_string()).to_string(), "50");
}

#[test]
fn messages_for_places_that_could_not_be_read() {
    assert_eq!(
        error_message(Some('x'), None, &vec![]),
        "Unexpected token, expected something else"
    );
    assert_eq!(
        error_message(None, Some("string"), &vec![Some('"')]),
        "Unexpected end of input while parsing string, expected \""
    );
    assert_eq!(
        error_message(Some('}'), Some("number"), &vec![Some('a'), None, Some('b')]),
        "Unexpected token while parsing number, expected a, end of input, b"
    );
    assert_eq!(found_message(Some('x')), "Unexpected token x");
    assert_eq!(found_message(None), "Unexpected sequence");
    assert_eq!(unclosed_message('('), "Unclosed delimiter (");
}
