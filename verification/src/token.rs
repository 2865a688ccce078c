//! The token data model: the closed set of token variants the lexer can
//! produce, together with its mathematical view.

use vstd::prelude::*;

verus! {

/// The mathematical form of a token: text payloads are character sequences
/// and the integer payload is unbounded.
pub enum SpecToken {
    Plus,
    Minus,
    Dot,
    Equals,
    True,
    False,
    Null,
    String(Seq<char>),
    Integer(int),
    Float(u64),
    Identifier(Seq<char>),
    LeftBrace,
    RightBrace,
    LeftBracket,
    RightBracket,
    WhiteSpace,
}

/// A classified, immutable unit of lexical output, identified by kind and
/// optional payload. `String`, `Integer`, `Float` and `WhiteSpace` are part
/// of the data model but are never produced by the current scanner.
#[derive(Debug, Clone, PartialEq, Eq)]
pub enum Token {
    Plus,
    Minus,
    Dot,
    Equals,
    True,
    False,
    Null,
    String(String),
    Integer(i64),
    /// A floating-point literal, carried as its IEEE 754 bit pattern so the
    /// token itself stays free of floating-point arithmetic.
    Float(u64),
    Identifier(String),
    LeftBrace,
    RightBrace,
    LeftBracket,
    RightBracket,
    WhiteSpace,
}

impl View for Token {
    type V = SpecToken;

    open spec fn view(&self) -> SpecToken {
        match self {
            Token::Plus => SpecToken::Plus,
            Token::Minus => SpecToken::Minus,
            Token::Dot => SpecToken::Dot,
            Token::Equals => SpecToken::Equals,
            Token::True => SpecToken::True,
            Token::False => SpecToken::False,
            Token::Null => SpecToken::Null,
            Token::String(s) => SpecToken::String(s@),
            Token::Integer(v) => SpecToken::Integer(*v as int),
            Token::Float(bits) => SpecToken::Float(*bits),
            Token::Identifier(s) => SpecToken::Identifier(s@),
            Token::LeftBrace => SpecToken::LeftBrace,
            Token::RightBrace => SpecToken::RightBrace,
            Token::LeftBracket => SpecToken::LeftBracket,
            Token::RightBracket => SpecToken::RightBracket,
            Token::WhiteSpace => SpecToken::WhiteSpace,
        }
    }
}

/// The views of a sequence of produced tokens, element by element.
pub open spec fn token_views(ts: Seq<Token>) -> Seq<SpecToken> {
    ts.map_values(|t: Token| t@)
}

/// The view of an optional token, used to relate the executable classifiers
/// to their specifications.
pub open spec fn opt_token_view(r: Option<Token>) -> Option<SpecToken> {
    match r {
        Some(t) => Some(t@),
        None => None,
    }
}

} // verus!
