//! The surface language's tokens: their kinds, carried values and spans.

use vstd::prelude::*;

use crate::lang::span::Span;

verus! {

/// The kind of a token.
#[derive(Debug, Clone, Copy, PartialEq, Eq, Structural)]
pub enum TokenKind {
    Def,
    Eq,
    Term,
    Char,
    Int,
    Float,
    String,
    Indent,
    Dedent,
    LBrace,
    RBrace,
    Backslash,
    Eof,
}

/// The value a token carries, when its kind carries one.
#[derive(Debug, PartialEq, Eq)]
pub enum TokenValue {
    Char(char),
    String(String),
    Int(i64),
}

/// One token: its span, its kind, and the value it carries, if any.
#[derive(Debug, PartialEq, Eq)]
pub struct Token {
    pub span: Span,
    pub kind: TokenKind,
    pub value: Option<TokenValue>,
}

impl Token {
    /// A token of the given kind at the given span, carrying no value.
    pub fn new(span: Span, kind: TokenKind) -> (r: Token)
        ensures
            r.span == span,
            r.kind == kind,
            r.value is None,
    {
        Token { span, kind, value: None }
    }

    /// A token of the given kind with the empty span and no value.
    pub fn of(kind: TokenKind) -> (r: Token)
        ensures
            r.span.start == 0,
            r.span.length == 0,
            r.kind == kind,
            r.value is None,
    {
        Token { span: Span::default(), kind, value: None }
    }

    /// The same token, placed at the given span.
    pub fn with_span(self, span: Span) -> (r: Token)
        ensures
            r.span == span,
            r.kind == self.kind,
            r.value == self.value,
    {
        Token { span, ..self }
    }

    /// A token of the given kind carrying the given value, with the
    /// empty span.
    pub fn with(kind: TokenKind, value: TokenValue) -> (r: Token)
        ensures
            r.span.start == 0,
            r.span.length == 0,
            r.kind == kind,
            r.value == Some(value),
    {
        Token { span: Span::default(), kind, value: Some(value) }
    }

    /// A token of the given kind carrying a character.
    pub fn with_char(kind: TokenKind, value: char) -> (r: Token)
        ensures
            r.span.start == 0,
            r.span.length == 0,
            r.kind == kind,
            r.value == Some(TokenValue::Char(value)),
    {
        Self::with(kind, TokenValue::Char(value))
    }

    /// A token of the given kind carrying a string.
    pub fn with_string(kind: TokenKind, value: String) -> (r: Token)
        ensures
            r.span.start == 0,
            r.span.length == 0,
            r.kind == kind,
            r.value == Some(TokenValue::String(value)),
    {
        Self::with(kind, TokenValue::String(value))
    }

    /// A token of the given kind carrying an integer.
    pub fn with_int(kind: TokenKind, value: i64) -> (r: Token)
        ensures
            r.span.start == 0,
            r.span.length == 0,
            r.kind == kind,
            r.value == Some(TokenValue::Int(value)),
    {
        Self::with(kind, TokenValue::Int(value))
    }

    /// The carried character, when the token carries one.
    pub fn value_char(&self) -> (r: Option<char>)
        ensures
            r == (match self.value {
                Some(TokenValue::Char(v)) => Some(v),
                _ => None::<char>,
            }),
    {
        match &self.value {
            Some(TokenValue::Char(v)) => Some(*v),
            _ => None,
        }
    }

    /// A copy of the carried string, when the token carries one.
    pub fn value_string(&self) -> (r: Option<String>)
        ensures
            match self.value {
                Some(TokenValue::String(v)) => r matches Some(s) && s@ == v@,
                _ => r is None,
            },
    {
        match &self.value {
            Some(TokenValue::String(v)) => Some(v.clone()),
            _ => None,
        }
    }

    /// The carried integer, when the token carries one.
    pub fn value_int(&self) -> (r: Option<i64>)
        ensures
            r == (match self.value {
                Some(TokenValue::Int(v)) => Some(v),
                _ => None::<i64>,
            }),
    {
        match &self.value {
            Some(TokenValue::Int(v)) => Some(*v),
            _ => None,
        }
    }
}

} // verus!
