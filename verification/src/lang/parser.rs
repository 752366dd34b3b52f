//! The surface language's parse errors.

use vstd::prelude::*;

use crate::lang::span::Span;
use crate::lang::token::TokenKind;

verus! {

/// What went wrong while reading source text.
#[derive(Debug, PartialEq, Eq)]
pub enum ParseErrorKind {
    UnexpectedEof,
    UnexpectedChar(char),
    ExpectedDigit,
    ParseInt(String),
    ParseFloat(String),
    IndentationError,
    ExpectedToken { expected: TokenKind, got: TokenKind },
    ExpectedDefinition { got: TokenKind },
}

/// A parse error: what went wrong, and where, when the place is known.
#[derive(Debug, PartialEq, Eq)]
pub struct ParseError {
    pub span: Option<Span>,
    pub source: ParseErrorKind,
}

impl ParseError {
    /// An error of the given kind at the given place.
    pub fn new(span: Option<Span>, source: ParseErrorKind) -> (r: ParseError)
        ensures
            r.span == span,
            r.source == source,
    {
        ParseError { span, source }
    }
}

} // verus!
