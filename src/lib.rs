//! A lexical scanner for a small C-like scripting language.
//!
//! [`Lexer`] walks an immutable source buffer byte by byte and hands out one
//! [`Token`] per call of [`Lexer::next_token`]. Every step of the scanner is
//! stated against a mathematical model of scanning (see `model`), and the
//! laws that relate successive calls are proved in `laws`.
use vstd::prelude::*;

pub mod token;
pub mod model;
pub mod lexer;
pub mod laws;

pub use token::Token;
pub use lexer::Lexer;

verus! {

} // verus!
