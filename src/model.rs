//! The mathematical model of scanning.
//!
//! Scanning is stated over the input's bytes: `scan(s, i)` is the lexeme that
//! a scanner whose cursor stands at byte offset `i` of `s` produces next,
//! together with the offset at which its cursor stands afterwards.
use vstd::prelude::*;
use vstd::utf8::encode_utf8;
use crate::token::Token;

verus! {

/// What a scan produces: a payload-free token, or a token whose payload is
/// given by the bytes of the input that it was read from.
pub enum Lexeme {
    /// A token that carries no text and no integer.
    Fixed(Token),
    /// An identifier spelled by these bytes.
    Word(Seq<u8>),
    /// An integer literal of this (unbounded) value.
    Number(int),
    /// A string literal whose contents are these bytes.
    Text(Seq<u8>),
}

/// The byte at `i`, or 0 past either end of the buffer.
pub open spec fn byte_at(s: Seq<u8>, i: int) -> u8 {
    if 0 <= i < s.len() {
        s[i]
    } else {
        0
    }
}

pub open spec fn is_space(b: u8) -> bool {
    b == ' ' as u8 || b == '\t' as u8
}

pub open spec fn is_letter(b: u8) -> bool {
    ('a' as u8 <= b && b <= 'z' as u8) || ('A' as u8 <= b && b <= 'Z' as u8) || b == '_' as u8
}

pub open spec fn is_digit(b: u8) -> bool {
    '0' as u8 <= b && b <= '9' as u8
}

/// The first offset at or after `i` that does not hold a space or a tab.
pub open spec fn skip_spaces(s: Seq<u8>, i: int) -> int
    decreases s.len() - i,
{
    if 0 <= i < s.len() && is_space(s[i]) {
        skip_spaces(s, i + 1)
    } else {
        i
    }
}

/// A byte that the scanner passes over before it classifies: a space, a tab,
/// or a newline that is not directly followed by another newline.
pub open spec fn is_layout_at(s: Seq<u8>, i: int) -> bool {
    is_space(byte_at(s, i)) || (byte_at(s, i) == '\n' as u8 && byte_at(s, i + 1) != '\n' as u8)
}

/// The offset at which the scanner classifies when its cursor stands at `i`.
pub open spec fn skip_layout(s: Seq<u8>, i: int) -> int
    decreases s.len() - i,
{
    if 0 <= i < s.len() && is_layout_at(s, i) {
        skip_layout(s, i + 1)
    } else {
        i
    }
}

/// The end of the run of letters and underscores that starts at `i`.
pub open spec fn letters_end(s: Seq<u8>, i: int) -> int
    decreases s.len() - i,
{
    if 0 <= i < s.len() && is_letter(s[i]) {
        letters_end(s, i + 1)
    } else {
        i
    }
}

/// The end of the run of decimal digits that starts at `i`.
pub open spec fn digits_end(s: Seq<u8>, i: int) -> int
    decreases s.len() - i,
{
    if 0 <= i < s.len() && is_digit(s[i]) {
        digits_end(s, i + 1)
    } else {
        i
    }
}

/// The first offset at or after `i` that holds a double quote, a zero byte,
/// or lies at the end of the input.
pub open spec fn text_end(s: Seq<u8>, i: int) -> int
    decreases s.len() - i,
{
    if 0 <= i < s.len() && s[i] != '"' as u8 && s[i] != 0 {
        text_end(s, i + 1)
    } else {
        i
    }
}

/// The value of a sequence of decimal digits, most significant first.
pub open spec fn decimal_value(d: Seq<u8>) -> int
    decreases d.len(),
{
    if d.len() == 0 {
        0
    } else {
        10 * decimal_value(d.drop_last()) + (d.last() - '0' as u8)
    }
}

/// The keyword token that a word spells, if it spells one.
pub open spec fn keyword(w: Seq<u8>) -> Option<Token> {
    if w == seq!['f' as u8, 'n' as u8] {
        Some(Token::Func)
    } else if w == seq!['l' as u8, 'e' as u8, 't' as u8] {
        Some(Token::Let)
    } else if w == seq!['t' as u8, 'r' as u8, 'u' as u8, 'e' as u8] {
        Some(Token::Bool(true))
    } else if w == seq!['f' as u8, 'a' as u8, 'l' as u8, 's' as u8, 'e' as u8] {
        Some(Token::Bool(false))
    } else if w == seq!['i' as u8, 'f' as u8] {
        Some(Token::If)
    } else if w == seq!['e' as u8, 'l' as u8, 's' as u8, 'e' as u8] {
        Some(Token::Else)
    } else if w == seq!['r' as u8, 'e' as u8, 't' as u8, 'u' as u8, 'r' as u8, 'n' as u8] {
        Some(Token::Return)
    } else {
        None
    }
}

/// The token of a punctuation byte that stands alone whatever follows it.
pub open spec fn symbol(c: u8) -> Option<Token> {
    if c == '+' as u8 {
        Some(Token::Plus)
    } else if c == '-' as u8 {
        Some(Token::Minus)
    } else if c == '/' as u8 {
        Some(Token::Slash)
    } else if c == '*' as u8 {
        Some(Token::Asterisk)
    } else if c == '(' as u8 {
        Some(Token::Lparen)
    } else if c == ')' as u8 {
        Some(Token::Rparen)
    } else if c == '{' as u8 {
        Some(Token::Lbrace)
    } else if c == '}' as u8 {
        Some(Token::Rbrace)
    } else if c == '[' as u8 {
        Some(Token::Lbracket)
    } else if c == ']' as u8 {
        Some(Token::Rbracket)
    } else if c == '.' as u8 {
        Some(Token::Dot)
    } else if c == ',' as u8 {
        Some(Token::Comma)
    } else if c == ';' as u8 {
        Some(Token::Semicolon)
    } else if c == ':' as u8 {
        Some(Token::Colon)
    } else {
        None
    }
}

/// The one-byte and two-byte tokens of an operator byte that may be followed
/// by `=`.
pub open spec fn operator(c: u8) -> Option<(Token, Token)> {
    if c == '=' as u8 {
        Some((Token::Assign, Token::Equal))
    } else if c == '!' as u8 {
        Some((Token::Bang, Token::NotEqual))
    } else if c == '<' as u8 {
        Some((Token::LessThan, Token::LessThanEqual))
    } else if c == '>' as u8 {
        Some((Token::GreaterThan, Token::GreaterThanEqual))
    } else {
        None
    }
}

/// The lexeme of a run of letters: its keyword, or an identifier.
pub open spec fn word(w: Seq<u8>) -> Lexeme {
    match keyword(w) {
        Some(t) => Lexeme::Fixed(t),
        None => Lexeme::Word(w),
    }
}

/// The lexeme produced from offset `i` of `s`, and the offset after it.
///
/// A zero byte reads as the end of the input: it gives `Eof` and the cursor
/// stays on it, so that every later scan gives `Eof` again. A newline that
/// gives `Blank` is the first of two; the second one is looked at again by
/// the following scan.
pub open spec fn scan(s: Seq<u8>, i: int) -> (Lexeme, int) {
    let p = skip_layout(s, i);
    let c = byte_at(s, p);
    if let Some((one, two)) = operator(c) {
        if byte_at(s, p + 1) == '=' as u8 {
            (Lexeme::Fixed(two), p + 2)
        } else {
            (Lexeme::Fixed(one), p + 1)
        }
    } else if symbol(c) is Some {
        (Lexeme::Fixed(symbol(c)->0), p + 1)
    } else if is_letter(c) {
        let e = letters_end(s, p);
        (word(s.subrange(p, e)), e)
    } else if is_digit(c) {
        let e = digits_end(s, p);
        (Lexeme::Number(decimal_value(s.subrange(p, e))), e)
    } else if c == '"' as u8 {
        let e = text_end(s, p + 1);
        (Lexeme::Text(s.subrange(p + 1, e)), if byte_at(s, e) == '"' as u8 { e + 1 } else { e })
    } else if c == '\n' as u8 {
        (Lexeme::Fixed(Token::Blank), p + 1)
    } else if c == 0 {
        (Lexeme::Fixed(Token::Eof), p)
    } else {
        (Lexeme::Fixed(Token::Illegal), p + 1)
    }
}

/// Whether the scanner can hand out this lexeme as a token: an integer
/// literal must fit in an `i64`.
pub open spec fn representable(l: Lexeme) -> bool {
    match l {
        Lexeme::Number(v) => v <= i64::MAX,
        _ => true,
    }
}

/// Whether token `t` is the token that lexeme `l` stands for; a text payload
/// is the UTF-8 encoding of the token's string.
pub open spec fn denotes(t: Token, l: Lexeme) -> bool {
    match l {
        Lexeme::Fixed(f) => t == f,
        Lexeme::Word(w) => t matches Token::Ident(n) && encode_utf8(n@) == w,
        Lexeme::Number(v) => t matches Token::Int(x) && x == v,
        Lexeme::Text(b) => t matches Token::String(x) && encode_utf8(x@) == b,
    }
}

} // verus!
