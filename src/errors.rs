//! Errors reported while turning text into tokens.
use vstd::prelude::*;

verus! {

/// A numeric lexeme that does not denote a value; each variant keeps the
/// offending text.
#[derive(Debug, Clone)]
pub enum ParseError {
    /// Text without a `.` that is not a decimal integer fitting in `i64`.
    IntError(String),
    /// Text with a `.` that is not a float literal: digits, a `.`, more
    /// digits if any, and an optional exponent part (`e` or `E`, an optional
    /// sign, and digits).
    FloatError(String),
}

/// Why a lexeme could not be resolved into a token.
#[derive(Debug, Clone)]
pub enum TokenParseError {
    /// The text is no token's text. Resolution never gives it: every text
    /// that is not numeric resolves to some token.
    InvalidInput,
    /// The text looks numeric but does not parse.
    ParseError(ParseError),
}

/// An error reported by the scanner.
#[derive(Debug, Clone)]
pub enum LexerError {
    /// A character that starts no token.
    IllegalCharacter(char),
    /// A string literal still open at the end of the input.
    UnterminatedString,
    /// A numeric lexeme that does not parse.
    MalformedNumber(ParseError),
}

/// The mathematical value of a [`ParseError`].
pub enum ParseErrorView {
    IntError(Seq<char>),
    FloatError(Seq<char>),
}

pub enum TokenParseErrorView {
    InvalidInput,
    ParseError(ParseErrorView),
}

pub enum LexerErrorView {
    IllegalCharacter(char),
    UnterminatedString,
    MalformedNumber(ParseErrorView),
}

impl View for ParseError {
    type V = ParseErrorView;

    open spec fn view(&self) -> ParseErrorView {
        match self {
            ParseError::IntError(s) => ParseErrorView::IntError(s@),
            ParseError::FloatError(s) => ParseErrorView::FloatError(s@),
        }
    }
}

impl View for TokenParseError {
    type V = TokenParseErrorView;

    open spec fn view(&self) -> TokenParseErrorView {
        match self {
            TokenParseError::InvalidInput => TokenParseErrorView::InvalidInput,
            TokenParseError::ParseError(p) => TokenParseErrorView::ParseError(p@),
        }
    }
}

impl View for LexerError {
    type V = LexerErrorView;

    open spec fn view(&self) -> LexerErrorView {
        match self {
            LexerError::IllegalCharacter(c) => LexerErrorView::IllegalCharacter(*c),
            LexerError::UnterminatedString => LexerErrorView::UnterminatedString,
            LexerError::MalformedNumber(p) => LexerErrorView::MalformedNumber(p@),
        }
    }
}

impl From<ParseError> for TokenParseError {
    fn from(error: ParseError) -> Self {
        TokenParseError::ParseError(error)
    }
}

impl vstd::std_specs::convert::FromSpecImpl<ParseError> for TokenParseError {
    open spec fn obeys_from_spec() -> bool {
        true
    }

    open spec fn from_spec(v: ParseError) -> TokenParseError {
        TokenParseError::ParseError(v)
    }
}

} // verus!
