//! Laws of scanning, proved over the model that `Lexer::next_token` follows.
use vstd::prelude::*;
use crate::model::{
    byte_at, decimal_value, digits_end, is_digit, is_layout_at, is_letter, is_space, keyword,
    letters_end, representable, scan, skip_layout, Lexeme,
};
use crate::token::Token;

verus! {

proof fn lemma_layout_to_end(s: Seq<u8>, i: int)
    requires
        0 <= i <= s.len(),
        forall|j: int| i <= j < s.len() ==> #[trigger] is_layout_at(s, j),
    ensures
        skip_layout(s, i) == s.len(),
    decreases s.len() - i,
{
    if i < s.len() {
        assert(is_layout_at(s, i));
        lemma_layout_to_end(s, i + 1);
    }
}

proof fn lemma_letters_end(s: Seq<u8>, i: int, e: int)
    requires
        0 <= i <= e <= s.len(),
        forall|j: int| i <= j < e ==> #[trigger] is_letter(s[j]),
        e == s.len() || !is_letter(s[e]),
    ensures
        letters_end(s, i) == e,
    decreases e - i,
{
    if i < e {
        assert(is_letter(s[i]));
        lemma_letters_end(s, i + 1, e);
    }
}

proof fn lemma_digits_end(s: Seq<u8>, i: int, e: int)
    requires
        0 <= i <= e <= s.len(),
        forall|j: int| i <= j < e ==> #[trigger] is_digit(s[j]),
        e == s.len() || !is_digit(s[e]),
    ensures
        digits_end(s, i) == e,
    decreases e - i,
{
    if i < e {
        assert(is_digit(s[i]));
        lemma_digits_end(s, i + 1, e);
    }
}

/// An input made only of spaces and tabs followed by one newline holds no
/// token but the end of input, and the end of input is all that follows it.
pub proof fn law_blank_line_is_empty(s: Seq<u8>)
    requires
        s.len() >= 1,
        s.last() == '\n' as u8,
        forall|j: int| 0 <= j < s.len() - 1 ==> #[trigger] is_space(s[j]),
    ensures
        scan(s, 0) == (Lexeme::Fixed(Token::Eof), s.len() as int),
        scan(s, s.len() as int) == (Lexeme::Fixed(Token::Eof), s.len() as int),
{
    assert forall|j: int| 0 <= j < s.len() implies #[trigger] is_layout_at(s, j) by {
        if j < s.len() - 1 {
            assert(is_space(s[j]));
        } else {
            assert(byte_at(s, j + 1) == 0);
        }
    }
    lemma_layout_to_end(s, 0);
    lemma_layout_to_end(s, s.len() as int);
}

/// Once the end of input has been produced, every later scan produces it
/// again and leaves the cursor where it is.
pub proof fn law_end_is_final(s: Seq<u8>, i: int)
    requires
        0 <= i <= s.len(),
        scan(s, i).0 == Lexeme::Fixed(Token::Eof),
    ensures
        scan(s, scan(s, i).1) == scan(s, i),
{
    let p = skip_layout(s, i);
    assert(skip_layout(s, p) == p);
}

/// A maximal run of letters and underscores at the start of the input that
/// spells no keyword is scanned as an identifier carrying exactly that run.
pub proof fn law_identifier_run(w: Seq<u8>, rest: Seq<u8>)
    requires
        w.len() > 0,
        forall|j: int| 0 <= j < w.len() ==> #[trigger] is_letter(w[j]),
        keyword(w) is None,
        rest.len() == 0 || !is_letter(rest[0]),
    ensures
        scan(w + rest, 0) == (Lexeme::Word(w), w.len() as int),
{
    let s = w + rest;
    assert(is_letter(s[0]));
    assert(skip_layout(s, 0) == 0);
    assert forall|j: int| 0 <= j < w.len() implies #[trigger] is_letter(s[j]) by {
        assert(s[j] == w[j]);
    }
    if w.len() < s.len() {
        assert(s[w.len() as int] == rest[0]);
    }
    lemma_letters_end(s, 0, w.len() as int);
    assert(s.subrange(0, w.len() as int) =~= w);
}

/// A maximal run of decimal digits at the start of the input is scanned as
/// an integer literal of the run's value; the scanner can hand it out
/// exactly when that value fits in an `i64`.
pub proof fn law_integer_run(d: Seq<u8>, rest: Seq<u8>)
    requires
        d.len() > 0,
        forall|j: int| 0 <= j < d.len() ==> #[trigger] is_digit(d[j]),
        rest.len() == 0 || !is_digit(rest[0]),
    ensures
        scan(d + rest, 0) == (Lexeme::Number(decimal_value(d)), d.len() as int),
        representable(scan(d + rest, 0).0) <==> decimal_value(d) <= i64::MAX,
{
    let s = d + rest;
    assert(is_digit(s[0]));
    assert(skip_layout(s, 0) == 0);
    assert forall|j: int| 0 <= j < d.len() implies #[trigger] is_digit(s[j]) by {
        assert(s[j] == d[j]);
    }
    if d.len() < s.len() {
        assert(s[d.len() as int] == rest[0]);
    }
    lemma_digits_end(s, 0, d.len() as int);
    assert(s.subrange(0, d.len() as int) =~= d);
}

/// Each keyword scanned on its own gives its keyword token (or its boolean
/// literal), never an identifier.
pub proof fn law_keyword_alone(w: Seq<u8>)
    requires
        keyword(w) is Some,
    ensures
        scan(w, 0) == (Lexeme::Fixed(keyword(w)->0), w.len() as int),
{
    assert(w.len() > 0);
    assert forall|j: int| 0 <= j < w.len() implies #[trigger] is_letter(w[j]) by {}
    assert(is_letter(w[0]));
    assert(skip_layout(w, 0) == 0);
    lemma_letters_end(w, 0, w.len() as int);
    assert(w.subrange(0, w.len() as int) =~= w);
}

} // verus!
