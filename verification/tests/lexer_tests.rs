use minilex::lexer::{char_to_token, lex, string_to_token};
use minilex::token::Token;

fn lex_str(input: &str) -> Vec<Token> {
    let result = lex(String::from(input));
    assert!(result.is_some());
    result.unwrap()
}

#[test]
fn empty_input_yields_no_tokens() {
    assert_eq!(lex_str(""), Vec::<Token>::new());
}

#[test]
fn punctuation_run() {
    assert_eq!(
        lex_str("+-.="),
        vec![Token::Plus, Token::Minus, Token::Dot, Token::Equals]
    );
}

#[test]
fn keywords_separated_by_spaces() {
    assert_eq!(
        lex_str("true false null"),
        vec![Token::True, Token::False, Token::Null]
    );
}

#[test]
fn identifiers_punctuation_and_skips() {
    assert_eq!(
        lex_str("a-_ bc+-+-*({[]})"),
        vec![
            Token::Identifier(String::from("a-_")),
            Token::Identifier(String::from("bc")),
            Token::Plus,
            Token::Minus,
            Token::Plus,
            Token::Minus,
            Token::LeftBrace,
            Token::LeftBracket,
            Token::RightBracket,
            Token::RightBrace,
        ]
    );
}

#[test]
fn digits_are_silently_skipped() {
    assert_eq!(lex_str("123"), Vec::<Token>::new());
}

#[test]
fn quotes_are_silently_skipped() {
    assert_eq!(
        lex_str("\"abc\""),
        vec![Token::Identifier(String::from("abc"))]
    );
}

#[test]
fn identifier_at_end_of_input() {
    assert_eq!(lex_str("abc"), vec![Token::Identifier(String::from("abc"))]);
}

#[test]
fn identifier_may_contain_digits_after_the_head() {
    assert_eq!(
        lex_str("ab1_c-d"),
        vec![Token::Identifier(String::from("ab1_c-d"))]
    );
}

#[test]
fn identifier_led_keyword_is_not_a_keyword() {
    assert_eq!(
        lex_str("truex"),
        vec![Token::Identifier(String::from("truex"))]
    );
    assert_eq!(
        lex_str("atrue"),
        vec![Token::Identifier(String::from("atrue"))]
    );
}

#[test]
fn keyword_ended_by_punctuation() {
    assert_eq!(lex_str("true+"), vec![Token::True, Token::Plus]);
    assert_eq!(
        lex_str("x=true"),
        vec![
            Token::Identifier(String::from("x")),
            Token::Equals,
            Token::True,
        ]
    );
}

#[test]
fn hyphen_is_punctuation_at_the_head_of_a_span() {
    assert_eq!(
        lex_str("-a"),
        vec![Token::Minus, Token::Identifier(String::from("a"))]
    );
}

#[test]
fn non_ascii_alphabetic_starts_an_identifier() {
    assert_eq!(
        lex_str("caf\u{e9}"),
        vec![Token::Identifier(String::from("caf\u{e9}"))]
    );
}

#[test]
fn output_never_longer_than_input() {
    let samples = [
        "",
        "+-.=",
        "true false null",
        "a-_ bc+-+-*({[]})",
        "123",
        "abc",
        "   ",
        "{}[]..==++--",
    ];
    for input in samples {
        let tokens = lex_str(input);
        assert!(tokens.len() <= input.chars().count());
    }
}

#[test]
fn char_classifier_full_mapping() {
    assert_eq!(char_to_token(&'+'), Some(Token::Plus));
    assert_eq!(char_to_token(&'-'), Some(Token::Minus));
    assert_eq!(char_to_token(&'.'), Some(Token::Dot));
    assert_eq!(char_to_token(&'='), Some(Token::Equals));
    assert_eq!(char_to_token(&'['), Some(Token::LeftBracket));
    assert_eq!(char_to_token(&']'), Some(Token::RightBracket));
    assert_eq!(char_to_token(&'{'), Some(Token::LeftBrace));
    assert_eq!(char_to_token(&'}'), Some(Token::RightBrace));
    assert_eq!(char_to_token(&'*'), None);
    assert_eq!(char_to_token(&'('), None);
    assert_eq!(char_to_token(&' '), None);
    assert_eq!(char_to_token(&'a'), None);
    assert_eq!(char_to_token(&'7'), None);
}

#[test]
fn keyword_classifier_exact_matches_only() {
    assert_eq!(string_to_token("true"), Some(Token::True));
    assert_eq!(string_to_token("false"), Some(Token::False));
    assert_eq!(string_to_token("null"), Some(Token::Null));
    assert_eq!(string_to_token("True"), None);
    assert_eq!(string_to_token("tru"), None);
    assert_eq!(string_to_token("nulls"), None);
    assert_eq!(string_to_token(""), None);
}

#[test]
fn classifiers_give_the_same_answer_twice() {
    for c in ['+', '-', 'a', '*', '\u{e9}'] {
        assert_eq!(char_to_token(&c), char_to_token(&c));
    }
    for w in ["true", "false", "null", "word", ""] {
        assert_eq!(string_to_token(w), string_to_token(w));
    }
}

#[test]
fn lexing_twice_gives_the_same_answer() {
    let input = "a-_ bc+-+-*({[]})";
    assert_eq!(lex(String::from(input)), lex(String::from(input)));
}
