//! The lexer: a left-to-right scan that consults a single-character
//! classifier first, falls back to an identifier/keyword scan on an
//! alphabetic character, and silently skips everything else.

use vstd::prelude::*;

use crate::token::{opt_token_view, token_views, SpecToken, Token};

verus! {

/// Whether a character has the Unicode `Alphabetic` property; a function of
/// the character alone, left without a definition here.
pub uninterp spec fn alphabetic(c: char) -> bool;

/// Whether a character is Unicode alphanumeric; a function of the character
/// alone, left without a definition here.
pub uninterp spec fn alphanumeric(c: char) -> bool;

/// Relies on char::is_alphabetic: it reports the Unicode `Alphabetic`
/// property, which depends on the character alone.
pub assume_specification[ char::is_alphabetic ](c: char) -> (r: bool)
    ensures
        r == alphabetic(c),
;

/// Relies on char::is_alphanumeric: it reports whether the character is
/// Unicode alphanumeric, which depends on the character alone.
pub assume_specification[ char::is_alphanumeric ](c: char) -> (r: bool)
    ensures
        r == alphanumeric(c),
;

/// The single-character classification: the exhaustive, case-sensitive map
/// from one character to its punctuation or delimiter token.
pub open spec fn char_token(c: char) -> Option<SpecToken> {
    if c == '+' {
        Some(SpecToken::Plus)
    } else if c == '-' {
        Some(SpecToken::Minus)
    } else if c == '.' {
        Some(SpecToken::Dot)
    } else if c == '=' {
        Some(SpecToken::Equals)
    } else if c == '[' {
        Some(SpecToken::LeftBracket)
    } else if c == ']' {
        Some(SpecToken::RightBracket)
    } else if c == '{' {
        Some(SpecToken::LeftBrace)
    } else if c == '}' {
        Some(SpecToken::RightBrace)
    } else {
        None
    }
}

/// The keyword classification: a span is a reserved word exactly when it
/// equals `true`, `false` or `null`.
pub open spec fn keyword_token(w: Seq<char>) -> Option<SpecToken> {
    if w == "true"@ {
        Some(SpecToken::True)
    } else if w == "false"@ {
        Some(SpecToken::False)
    } else if w == "null"@ {
        Some(SpecToken::Null)
    } else {
        None
    }
}

/// The token a fully scanned span yields: its keyword token if it is a
/// reserved word, otherwise an identifier carrying the span itself.
pub open spec fn word_token(w: Seq<char>) -> SpecToken {
    match keyword_token(w) {
        Some(t) => t,
        None => SpecToken::Identifier(w),
    }
}

/// Whether a character may continue an identifier span: broader than the
/// alphabetic start, it admits alphanumerics, underscore and hyphen.
pub open spec fn word_continue(c: char) -> bool {
    alphanumeric(c) || c == '_' || c == '-'
}

/// The cursor position where an identifier span that is being extended from
/// position `j` ends: the first position at or after `j` that is past the
/// end of the input or holds a non-continuation character.
pub open spec fn word_end(s: Seq<char>, j: int) -> int
    decreases s.len() - j,
{
    if j < 0 || j >= s.len() {
        j
    } else if word_continue(s[j]) {
        word_end(s, j + 1)
    } else {
        j
    }
}

/// The span-extension cursor never moves backwards, and never runs past the
/// end of the input when it starts inside it.
pub proof fn lemma_word_end_bounds(s: Seq<char>, j: int)
    ensures
        j <= word_end(s, j),
        j <= s.len() ==> word_end(s, j) <= s.len(),
    decreases s.len() - j,
{
    if 0 <= j < s.len() && word_continue(s[j]) {
        lemma_word_end_bounds(s, j + 1);
    }
}

/// Every character strictly inside an extended span is a continuation
/// character.
pub proof fn lemma_word_end_continues(s: Seq<char>, j: int, m: int)
    requires
        0 <= j <= m < word_end(s, j),
    ensures
        word_continue(s[m]),
    decreases m - j,
{
    if j < m {
        lemma_word_end_continues(s, j + 1, m);
    }
}

/// The tokens the scan yields from position `i` to the end of the input:
/// a single-character token where the classifier matches, a keyword or
/// identifier token for an alphabetic-led span, and nothing for a silently
/// skipped character.
pub open spec fn lex_from(s: Seq<char>, i: int) -> Seq<SpecToken>
    decreases s.len() - i,
{
    if i < 0 || i >= s.len() {
        Seq::empty()
    } else {
        match char_token(s[i]) {
            Some(t) => seq![t] + lex_from(s, i + 1),
            None => {
                if alphabetic(s[i]) {
                    proof {
                        lemma_word_end_bounds(s, i + 1);
                    }
                    seq![word_token(s.subrange(i, word_end(s, i + 1)))] + lex_from(
                        s,
                        word_end(s, i + 1),
                    )
                } else {
                    lex_from(s, i + 1)
                }
            },
        }
    }
}

/// The full scan: the token sequence the lexer owes for a given input.
pub open spec fn lex_spec(s: Seq<char>) -> Seq<SpecToken> {
    lex_from(s, 0)
}

/// Maps one character to its punctuation or delimiter token, or reports
/// that none matches.
pub fn char_to_token(ch: &char) -> (r: Option<Token>)
    ensures
        opt_token_view(r) == char_token(*ch),
{
    match *ch {
        '+' => Some(Token::Plus),
        '-' => Some(Token::Minus),
        '.' => Some(Token::Dot),
        '=' => Some(Token::Equals),
        '[' => Some(Token::LeftBracket),
        ']' => Some(Token::RightBracket),
        '{' => Some(Token::LeftBrace),
        '}' => Some(Token::RightBrace),
        _ => None,
    }
}

/// Maps a fully scanned span to its reserved-word token if it is exactly
/// `true`, `false` or `null`, and reports that none matches otherwise.
pub fn string_to_token(string: &str) -> (r: Option<Token>)
    ensures
        opt_token_view(r) == keyword_token(string@),
{
    let owned: String = string.to_owned();
    if owned == "true".to_owned() {
        Some(Token::True)
    } else if owned == "false".to_owned() {
        Some(Token::False)
    } else if owned == "null".to_owned() {
        Some(Token::Null)
    } else {
        None
    }
}

/// Decides whether a character may continue the identifier span under scan.
fn is_word_continue(c: char) -> (r: bool)
    ensures
        r == word_continue(c),
{
    c.is_alphanumeric() || c == '_' || c == '-'
}

/// Scans the input left to right and returns its token sequence. The scan
/// never fails: every input, the empty one included, yields a present
/// result, and each produced token consumed at least one input character.
pub fn lex(string: String) -> (r: Option<Vec<Token>>)
    ensures
        r is Some,
        token_views(r.unwrap()@) == lex_spec(string@),
        r.unwrap()@.len() <= string@.len(),
{
    let s: &str = string.as_str();
    let len: usize = s.unicode_len();
    let mut tokens: Vec<Token> = Vec::new();
    let mut i: usize = 0;
    proof {
        assert(token_views(tokens@) + lex_from(s@, 0) =~= lex_from(s@, 0));
    }
    while i < len
        invariant
            s@ == string@,
            len == s@.len(),
            i <= len,
            token_views(tokens@) + lex_from(s@, i as int) == lex_spec(s@),
        decreases len - i,
    {
        let ch: char = s.get_char(i);
        match char_to_token(&ch) {
            Some(t) => {
                let ghost prev = tokens@;
                tokens.push(t);
                proof {
                    assert(token_views(tokens@) =~= token_views(prev).push(t@));
                    assert(token_views(tokens@) + lex_from(s@, i + 1) =~= token_views(prev)
                        + lex_from(s@, i as int));
                }
                i = i + 1;
            },
            None => {
                if ch.is_alphabetic() {
                    let mut j: usize = i + 1;
                    while j < len && is_word_continue(s.get_char(j))
                        invariant
                            s@ == string@,
                            len == s@.len(),
                            i + 1 <= j <= len,
                            word_end(s@, i + 1) == word_end(s@, j as int),
                        decreases len - j,
                    {
                        j = j + 1;
                    }
                    let word: &str = s.substring_char(i, j);
                    let tok: Token = match string_to_token(word) {
                        Some(t) => t,
                        None => Token::Identifier(word.to_owned()),
                    };
                    let ghost prev = tokens@;
                    tokens.push(tok);
                    proof {
                        assert(word_end(s@, j as int) == j);
                        assert(tok@ == word_token(s@.subrange(i as int, j as int)));
                        assert(token_views(tokens@) =~= token_views(prev).push(tok@));
                        assert(token_views(tokens@) + lex_from(s@, j as int) =~= token_views(prev)
                            + lex_from(s@, i as int));
                    }
                    i = j;
                } else {
                    i = i + 1;
                }
            },
        }
    }
    proof {
        assert(token_views(tokens@) + lex_from(s@, len as int) =~= token_views(tokens@));
        lemma_lex_from_len(s@, 0);
    }
    Some(tokens)
}

/// From any position inside the input, the rest of the scan yields at most
/// one token per remaining character.
pub proof fn lemma_lex_from_len(s: Seq<char>, i: int)
    requires
        0 <= i <= s.len(),
    ensures
        lex_from(s, i).len() <= s.len() - i,
    decreases s.len() - i,
{
    if i < s.len() {
        match char_token(s[i]) {
            Some(t) => {
                lemma_lex_from_len(s, i + 1);
            },
            None => {
                if alphabetic(s[i]) {
                    lemma_word_end_bounds(s, i + 1);
                    lemma_lex_from_len(s, word_end(s, i + 1));
                } else {
                    lemma_lex_from_len(s, i + 1);
                }
            },
        }
    }
}

/// Law: the scan never yields more tokens than the input has characters.
pub proof fn lemma_lex_spec_len(s: Seq<char>)
    ensures
        lex_spec(s).len() <= s.len(),
{
    lemma_lex_from_len(s, 0);
}

/// Law: both classifiers are pure. Their results are functions of the input
/// alone, so any two classifications of the same character, and of the same
/// span, agree.
pub proof fn lemma_classifiers_deterministic(
    c: char,
    w: Seq<char>,
    r1: Option<SpecToken>,
    r2: Option<SpecToken>,
    q1: Option<SpecToken>,
    q2: Option<SpecToken>,
)
    requires
        r1 == char_token(c),
        r2 == char_token(c),
        q1 == keyword_token(w),
        q2 == keyword_token(w),
    ensures
        r1 == r2,
        q1 == q2,
{
}

/// The shape every identifier payload has: led by an alphabetic character,
/// continued only by word-continuation characters, and not a reserved word.
pub open spec fn identifier_shape(w: Seq<char>) -> bool {
    &&& w.len() >= 1
    &&& alphabetic(w[0])
    &&& (forall|k: int| 1 <= k < w.len() ==> word_continue(#[trigger] w[k]))
    &&& keyword_token(w) is None
}

proof fn lemma_lex_from_identifier_shape(s: Seq<char>, i: int, k: int)
    requires
        0 <= i,
        0 <= k < lex_from(s, i).len(),
        lex_from(s, i)[k] is Identifier,
    ensures
        identifier_shape(lex_from(s, i)[k]->Identifier_0),
    decreases s.len() - i,
{
    if i < s.len() {
        match char_token(s[i]) {
            Some(t) => {
                if k > 0 {
                    lemma_lex_from_identifier_shape(s, i + 1, k - 1);
                }
            },
            None => {
                if alphabetic(s[i]) {
                    lemma_word_end_bounds(s, i + 1);
                    let j: int = word_end(s, i + 1);
                    if k == 0 {
                        let w: Seq<char> = s.subrange(i, j);
                        assert(w[0] == s[i]);
                        assert forall|m: int| 1 <= m < w.len() implies word_continue(
                            #[trigger] w[m],
                        ) by {
                            lemma_word_end_continues(s, i + 1, i + m);
                        }
                    } else {
                        lemma_lex_from_identifier_shape(s, j, k - 1);
                    }
                } else {
                    lemma_lex_from_identifier_shape(s, i + 1, k);
                }
            },
        }
    }
}

/// Law: every identifier token the scan yields carries a payload that starts
/// with an alphabetic character, continues with alphanumeric, underscore or
/// hyphen characters, and equals none of `true`, `false` and `null`.
pub proof fn lemma_lex_identifier_shape(s: Seq<char>, k: int)
    requires
        0 <= k < lex_spec(s).len(),
        lex_spec(s)[k] is Identifier,
    ensures
        identifier_shape(lex_spec(s)[k]->Identifier_0),
{
    lemma_lex_from_identifier_shape(s, 0, k);
}

} // verus!

