//! A small lexical analyzer: it turns a character stream into an ordered
//! sequence of typed tokens for a little data/expression language with
//! keyword literals (`true`, `false`, `null`), identifiers, punctuation
//! (`+ - . =`) and bracket/brace delimiters.

pub mod lexer;
pub mod token;
