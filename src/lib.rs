//! A verified tokenizer for a small interpreted language: it turns source
//! text into keywords, identifiers, literals, operators and delimiters.
use vstd::prelude::*;

pub mod errors;
pub mod laws;
pub mod lexeme;
pub mod lexer;
pub mod text;
pub mod token;

pub use errors::{LexerError, ParseError, TokenParseError};
pub use lexer::{lex, Lexer};
pub use token::Token;

verus! {

} // verus!
