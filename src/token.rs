use vstd::prelude::*;

verus! {

/// One lexical token of the language.
#[derive(Debug, Clone, PartialEq, Eq)]
pub enum Token {
    Illegal,
    Eof,
    Blank,
    Ident(String),
    Int(i64),
    String(String),
    Bool(bool),
    Assign,
    Equal,
    NotEqual,
    Plus,
    Minus,
    Bang,
    Asterisk,
    Slash,
    LessThan,
    LessThanEqual,
    GreaterThan,
    GreaterThanEqual,
    Lparen,
    Rparen,
    Lbrace,
    Rbrace,
    Lbracket,
    Rbracket,
    Dot,
    Comma,
    Semicolon,
    Colon,
    Func,
    Let,
    If,
    Else,
    Return,
}

} // verus!
