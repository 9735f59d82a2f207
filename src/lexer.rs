//! The scanner: a cursor over a borrowed input buffer.
use vstd::prelude::*;
use vstd::string::StringSliceAdditionalSpecFns;
use vstd::utf8::*;
use crate::model::{
    Lexeme,
    byte_at, decimal_value, denotes, digits_end, is_digit, is_letter, is_space, keyword,
    letters_end, representable, scan, skip_layout, skip_spaces, text_end, word,
};
use crate::token::Token;

verus! {

broadcast use vstd::utf8::group_utf8_lib;

/// A pull scanner over `input`: each call of `next_token` hands out the next
/// token and moves the cursor past the bytes that it was read from.
pub struct Lexer<'a> {
    input: &'a str,
    pos: usize,
    next_pos: usize,
    ch: u8,
}

/// In valid UTF-8 the byte that follows an ASCII byte starts a character.
proof fn lemma_after_ascii(b: Seq<u8>, i: int)
    requires
        valid_utf8(b),
        0 <= i,
        i + 1 < b.len(),
        b[i] < 0x80,
    ensures
        !is_continuation_byte(b[i + 1]),
{
    is_char_boundary_iff_not_is_continuation_byte(b, i);
    valid_utf8_split(b, i);
    let t = b.subrange(i, b.len() as int);
    assert(t[0] == b[i]);
    assert(valid_first_scalar(t));
    assert(length_of_first_scalar(t) == 1);
    let rest = pop_first_scalar(t);
    assert(rest =~= b.subrange(i + 1, b.len() as int));
    is_char_boundary_start_end_of_seq(rest);
    is_char_boundary_iff_not_is_continuation_byte(rest, 0);
    assert(rest[0] == b[i + 1]);
}

/// The part of `s` between byte offsets `from` and `to`, both of which start a
/// character or lie at the end.
fn slice<'b>(s: &'b str, from: usize, to: usize) -> (r: &'b str)
    requires
        from <= to <= s.spec_bytes().len(),
        from == s.spec_bytes().len() || !is_continuation_byte(s.spec_bytes()[from as int]),
        to == s.spec_bytes().len() || !is_continuation_byte(s.spec_bytes()[to as int]),
    ensures
        r.spec_bytes() == s.spec_bytes().subrange(from as int, to as int),
{
    let ghost b = s.spec_bytes();
    proof {
        encode_utf8_valid_utf8(s@);
        is_char_boundary_start_end_of_seq(b);
        if to < b.len() {
            is_char_boundary_iff_not_is_continuation_byte(b, to as int);
        }
    }
    let (head, _) = s.split_at(to);
    proof {
        let h = head.spec_bytes();
        valid_utf8_split(b, to as int);
        is_char_boundary_start_end_of_seq(h);
        if from < to {
            assert(h[from as int] == b[from as int]);
            is_char_boundary_iff_not_is_continuation_byte(h, from as int);
        }
    }
    let (_, mid) = head.split_at(from);
    proof {
        assert(mid.spec_bytes() =~= b.subrange(from as int, to as int));
    }
    mid
}

/// Whether `c` is an ASCII letter or an underscore.
fn letter(c: u8) -> (r: bool)
    ensures
        r == is_letter(c),
{
    ('a' as u8 <= c && c <= 'z' as u8) || ('A' as u8 <= c && c <= 'Z' as u8) || c == '_' as u8
}

/// Whether `c` is an ASCII decimal digit.
fn digit(c: u8) -> (r: bool)
    ensures
        r == is_digit(c),
{
    '0' as u8 <= c && c <= '9' as u8
}

/// The keyword token that `w` spells, if it spells one.
fn keyword_token(w: &[u8]) -> (r: Option<Token>)
    ensures
        r == keyword(w@),
{
    let n = w.len();
    if n == 2 && w[0] == 'f' as u8 && w[1] == 'n' as u8 {
        assert(w@ =~= seq!['f' as u8, 'n' as u8]);
        Some(Token::Func)
    } else if n == 3 && w[0] == 'l' as u8 && w[1] == 'e' as u8 && w[2] == 't' as u8 {
        assert(w@ =~= seq!['l' as u8, 'e' as u8, 't' as u8]);
        Some(Token::Let)
    } else if n == 4 && w[0] == 't' as u8 && w[1] == 'r' as u8 && w[2] == 'u' as u8 && w[3]
        == 'e' as u8 {
        assert(w@ =~= seq!['t' as u8, 'r' as u8, 'u' as u8, 'e' as u8]);
        Some(Token::Bool(true))
    } else if n == 5 && w[0] == 'f' as u8 && w[1] == 'a' as u8 && w[2] == 'l' as u8 && w[3]
        == 's' as u8 && w[4] == 'e' as u8 {
        assert(w@ =~= seq!['f' as u8, 'a' as u8, 'l' as u8, 's' as u8, 'e' as u8]);
        Some(Token::Bool(false))
    } else if n == 2 && w[0] == 'i' as u8 && w[1] == 'f' as u8 {
        assert(w@ =~= seq!['i' as u8, 'f' as u8]);
        Some(Token::If)
    } else if n == 4 && w[0] == 'e' as u8 && w[1] == 'l' as u8 && w[2] == 's' as u8 && w[3]
        == 'e' as u8 {
        assert(w@ =~= seq!['e' as u8, 'l' as u8, 's' as u8, 'e' as u8]);
        Some(Token::Else)
    } else if n == 6 && w[0] == 'r' as u8 && w[1] == 'e' as u8 && w[2] == 't' as u8 && w[3]
        == 'u' as u8 && w[4] == 'r' as u8 && w[5] == 'n' as u8 {
        assert(w@ =~= seq!['r' as u8, 'e' as u8, 't' as u8, 'u' as u8, 'r' as u8, 'n' as u8]);
        Some(Token::Return)
    } else {
        None
    }
}

impl<'a> Lexer<'a> {
    /// The bytes of the input.
    pub closed spec fn bytes(&self) -> Seq<u8> {
        self.input.spec_bytes()
    }

    /// The byte offset of the cursor.
    pub closed spec fn position(&self) -> int {
        self.pos as int
    }

    /// The cursor lies within the input (or at its end), the lookahead offset
    /// is one past it, and `ch` caches the byte under the cursor.
    pub closed spec fn wf(&self) -> bool {
        &&& self.pos <= self.bytes().len()
        &&& self.next_pos == self.pos + 1
        &&& self.ch == byte_at(self.bytes(), self.pos as int)
        &&& self.bytes().len() < usize::MAX
    }

    /// A scanner whose cursor stands on the first byte of `input`.
    pub fn new(input: &'a str) -> (r: Lexer<'a>)
        requires
            input.spec_bytes().len() < usize::MAX,
        ensures
            r.wf(),
            r.bytes() == input.spec_bytes(),
            r.position() == 0,
    {
        let mut lexer = Lexer { input, pos: 0, next_pos: 0, ch: 0 };
        if input.len() > 0 {
            lexer.ch = input.as_bytes()[0];
        }
        lexer.next_pos = 1;
        lexer
    }

    /// Moves the cursor one byte on.
    fn read_char(&mut self)
        requires
            old(self).wf(),
            old(self).pos < old(self).bytes().len(),
        ensures
            final(self).wf(),
            final(self).input == old(self).input,
            final(self).pos == old(self).pos + 1,
    {
        if self.next_pos >= self.input.len() {
            self.ch = 0;
        } else {
            self.ch = self.input.as_bytes()[self.next_pos];
        }
        self.pos = self.next_pos;
        self.next_pos = self.next_pos + 1;
    }

    /// The byte after the cursor, or 0 past the end.
    fn nextch(&self) -> (c: u8)
        requires
            self.wf(),
        ensures
            c == byte_at(self.bytes(), self.pos + 1),
    {
        if self.next_pos >= self.input.len() {
            0
        } else {
            self.input.as_bytes()[self.next_pos]
        }
    }

    fn nextch_is(&self, ch: u8) -> (r: bool)
        requires
            self.wf(),
        ensures
            r == (byte_at(self.bytes(), self.pos + 1) == ch),
    {
        self.nextch() == ch
    }

    /// Moves the cursor past spaces and tabs.
    fn skip_whitespace(&mut self)
        requires
            old(self).wf(),
        ensures
            final(self).wf(),
            final(self).input == old(self).input,
            final(self).pos == skip_spaces(old(self).bytes(), old(self).pos as int),
            old(self).pos <= final(self).pos,
            !is_space(final(self).ch),
            skip_layout(final(self).bytes(), final(self).pos as int) == skip_layout(
                old(self).bytes(),
                old(self).pos as int,
            ),
    {
        let ghost s = self.bytes();
        let ghost start = self.pos as int;
        loop
            invariant
                self.wf(),
                self.input == old(self).input,
                s == self.bytes(),
                s == old(self).bytes(),
                start == old(self).pos,
                start <= self.pos,
                skip_spaces(s, self.pos as int) == skip_spaces(s, start),
                skip_layout(s, self.pos as int) == skip_layout(s, start),
            ensures
                self.pos == skip_spaces(s, start),
                !is_space(self.ch),
            decreases s.len() - self.pos,
        {
            let ghost p = self.pos as int;
            if self.ch == ' ' as u8 || self.ch == '\t' as u8 {
                assert(skip_spaces(s, p) == skip_spaces(s, p + 1));
                assert(skip_layout(s, p) == skip_layout(s, p + 1));
                self.read_char();
            } else {
                assert(skip_spaces(s, p) == p);
                break;
            }
        }
    }
    /// Scans the next token. `None` stands for an integer literal too large
    /// for an `i64`; the cursor is then past its digits.
    pub fn next_token_checked(&mut self) -> (r: Option<Token>)
        requires
            old(self).wf(),
        ensures
            final(self).wf(),
            final(self).bytes() == old(self).bytes(),
            final(self).position() == scan(old(self).bytes(), old(self).position()).1,
            r is Some <==> representable(scan(old(self).bytes(), old(self).position()).0),
            r matches Some(t) ==> denotes(t, scan(old(self).bytes(), old(self).position()).0),
    {
        let ghost s = self.bytes();
        let ghost start = self.pos as int;
        loop
            invariant
                self.wf(),
                self.input == old(self).input,
                s == self.bytes(),
                s == old(self).bytes(),
                start == old(self).pos,
                skip_layout(s, self.pos as int) == skip_layout(s, start),
            ensures
                self.pos == skip_layout(s, start),
            decreases s.len() - self.pos,
        {
            self.skip_whitespace();
            let ghost p = self.pos as int;
            if self.ch == '\n' as u8 && !self.nextch_is('\n' as u8) {
                assert(skip_layout(s, p) == skip_layout(s, p + 1));
                self.read_char();
            } else {
                assert(skip_layout(s, p) == p);
                break;
            }
        }
        let tok = if self.ch == '=' as u8 {
            if self.nextch_is('=' as u8) {
                self.read_char();
                Token::Equal
            } else {
                Token::Assign
            }
        } else if self.ch == '+' as u8 {
            Token::Plus
        } else if self.ch == '-' as u8 {
            Token::Minus
        } else if self.ch == '!' as u8 {
            if self.nextch_is('=' as u8) {
                self.read_char();
                Token::NotEqual
            } else {
                Token::Bang
            }
        } else if self.ch == '/' as u8 {
            Token::Slash
        } else if self.ch == '*' as u8 {
            Token::Asterisk
        } else if self.ch == '<' as u8 {
            if self.nextch_is('=' as u8) {
                self.read_char();
                Token::LessThanEqual
            } else {
                Token::LessThan
            }
        } else if self.ch == '>' as u8 {
            if self.nextch_is('=' as u8) {
                self.read_char();
                Token::GreaterThanEqual
            } else {
                Token::GreaterThan
            }
        } else if self.ch == '(' as u8 {
            Token::Lparen
        } else if self.ch == ')' as u8 {
            Token::Rparen
        } else if self.ch == '{' as u8 {
            Token::Lbrace
        } else if self.ch == '}' as u8 {
            Token::Rbrace
        } else if self.ch == '[' as u8 {
            Token::Lbracket
        } else if self.ch == ']' as u8 {
            Token::Rbracket
        } else if self.ch == '.' as u8 {
            Token::Dot
        } else if self.ch == ',' as u8 {
            Token::Comma
        } else if self.ch == ';' as u8 {
            Token::Semicolon
        } else if self.ch == ':' as u8 {
            Token::Colon
        } else if letter(self.ch) {
            return Some(self.consume_identifier());
        } else if digit(self.ch) {
            return self.consume_number();
        } else if self.ch == '"' as u8 {
            return Some(self.consume_string());
        } else if self.ch == '\n' as u8 {
            // a newline directly followed by another: the second one is
            // looked at again by the next call
            Token::Blank
        } else if self.ch == 0 {
            // the end of the input; the cursor stays, so the end is final
            return Some(Token::Eof);
        } else {
            Token::Illegal
        };
        self.read_char();
        Some(tok)
    }

    /// Scans the next token; an integer literal must fit in an `i64`.
    pub fn next_token(&mut self) -> (t: Token)
        requires
            old(self).wf(),
            representable(scan(old(self).bytes(), old(self).position()).0),
        ensures
            final(self).wf(),
            final(self).bytes() == old(self).bytes(),
            final(self).position() == scan(old(self).bytes(), old(self).position()).1,
            denotes(t, scan(old(self).bytes(), old(self).position()).0),
    {
        self.next_token_checked().unwrap()
    }

    /// Reads the run of letters under the cursor as a keyword or an
    /// identifier.
    fn consume_identifier(&mut self) -> (t: Token)
        requires
            old(self).wf(),
            is_letter(old(self).ch),
        ensures
            final(self).wf(),
            final(self).input == old(self).input,
            final(self).pos == letters_end(old(self).bytes(), old(self).pos as int),
            denotes(
                t,
                word(old(self).bytes().subrange(old(self).pos as int, final(self).pos as int)),
            ),
    {
        let ghost s = self.bytes();
        let start = self.pos;
        loop
            invariant
                self.wf(),
                self.input == old(self).input,
                s == self.bytes(),
                s == old(self).bytes(),
                start == old(self).pos,
                start <= self.pos,
                letters_end(s, self.pos as int) == letters_end(s, start as int),
                start < s.len(),
                is_letter(s[start as int]),
                start < self.pos ==> is_letter(s[self.pos - 1]),
            ensures
                self.pos == letters_end(s, start as int),
                start < self.pos,
                is_letter(s[self.pos - 1]),
            decreases s.len() - self.pos,
        {
            let ghost p = self.pos as int;
            if letter(self.ch) {
                assert(letters_end(s, p) == letters_end(s, p + 1));
                self.read_char();
            } else {
                assert(letters_end(s, p) == p);
                break;
            }
        }
        proof {
            encode_utf8_valid_utf8(self.input@);
            if self.pos < s.len() {
                lemma_after_ascii(s, self.pos - 1);
            }
        }
        let literal = slice(self.input, start, self.pos);
        match keyword_token(literal.as_bytes()) {
            Some(t) => t,
            None => Token::Ident(literal.to_owned()),
        }
    }

    /// Reads the run of digits under the cursor as a decimal integer; `None`
    /// where its value exceeds `i64::MAX`.
    fn consume_number(&mut self) -> (r: Option<Token>)
        requires
            old(self).wf(),
            is_digit(old(self).ch),
        ensures
            final(self).wf(),
            final(self).input == old(self).input,
            final(self).pos == digits_end(old(self).bytes(), old(self).pos as int),
            ({
                let v = decimal_value(
                    old(self).bytes().subrange(old(self).pos as int, final(self).pos as int),
                );
                &&& r is Some <==> v <= i64::MAX
                &&& r matches Some(t) ==> t matches Token::Int(x) && x == v
            }),
    {
        let ghost s = self.bytes();
        let start = self.pos;
        let mut value: i64 = 0;
        let mut fits = true;
        loop
            invariant
                self.wf(),
                self.input == old(self).input,
                s == self.bytes(),
                s == old(self).bytes(),
                start == old(self).pos,
                start <= self.pos,
                digits_end(s, self.pos as int) == digits_end(s, start as int),
                value >= 0,
                fits ==> value == decimal_value(s.subrange(start as int, self.pos as int)),
                !fits ==> decimal_value(s.subrange(start as int, self.pos as int)) > i64::MAX,
            ensures
                self.pos == digits_end(s, start as int),
                fits ==> value == decimal_value(s.subrange(start as int, self.pos as int)),
                !fits ==> decimal_value(s.subrange(start as int, self.pos as int)) > i64::MAX,
            decreases s.len() - self.pos,
        {
            let ghost p = self.pos as int;
            if digit(self.ch) {
                assert(digits_end(s, p) == digits_end(s, p + 1));
                let d = (self.ch - '0' as u8) as i64;
                proof {
                    let run = s.subrange(start as int, p + 1);
                    assert(run.drop_last() =~= s.subrange(start as int, p));
                    assert(run.last() == self.ch);
                    assert(decimal_value(run) == 10 * decimal_value(run.drop_last()) + d);
                }
                if fits {
                    match value.checked_mul(10) {
                        Some(m) => match m.checked_add(d) {
                            Some(v) => {
                                value = v;
                            },
                            None => {
                                fits = false;
                            },
                        },
                        None => {
                            fits = false;
                        },
                    }
                }
                self.read_char();
            } else {
                assert(digits_end(s, p) == p);
                break;
            }
        }
        if fits {
            Some(Token::Int(value))
        } else {
            None
        }
    }

    /// Reads a string literal: the bytes after the opening quote up to the
    /// closing quote, a zero byte or the end of the input. A closing quote is
    /// consumed; there are no escapes.
    fn consume_string(&mut self) -> (t: Token)
        requires
            old(self).wf(),
            old(self).ch == '"' as u8,
        ensures
            final(self).wf(),
            final(self).input == old(self).input,
            ({
                let s = old(self).bytes();
                let e = text_end(s, old(self).pos + 1);
                &&& final(self).pos == if byte_at(s, e) == '"' as u8 {
                    e + 1
                } else {
                    e
                }
                &&& denotes(t, Lexeme::Text(s.subrange(old(self).pos + 1, e)))
            }),
    {
        let ghost s = self.bytes();
        proof {
            encode_utf8_valid_utf8(self.input@);
            if self.pos + 1 < s.len() {
                lemma_after_ascii(s, self.pos as int);
            }
        }
        self.read_char();
        let start = self.pos;
        loop
            invariant
                self.wf(),
                self.input == old(self).input,
                s == self.bytes(),
                s == old(self).bytes(),
                start == old(self).pos + 1,
                start <= self.pos,
                text_end(s, self.pos as int) == text_end(s, start as int),
            ensures
                self.pos == text_end(s, start as int),
                self.ch == '"' as u8 || self.ch == 0,
            decreases s.len() - self.pos,
        {
            let ghost p = self.pos as int;
            if self.ch == '"' as u8 || self.ch == 0 {
                assert(text_end(s, p) == p);
                break;
            } else {
                assert(text_end(s, p) == text_end(s, p + 1));
                self.read_char();
            }
        }
        assert(!is_continuation_byte(byte_at(s, self.pos as int)));
        let literal = slice(self.input, start, self.pos);
        if self.ch == '"' as u8 {
            self.read_char();
        }
        Token::String(literal.to_owned())
    }
}

} // verus!
