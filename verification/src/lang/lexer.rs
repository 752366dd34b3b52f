//! Character classes of the surface language's lexer.
//!
//! A term is a word of letters, digits and operator characters; a term
//! cannot begin with a digit.

use vstd::prelude::*;

verus! {

/// Whether `c` may appear anywhere in a term: a letter, a digit, or one
/// of the operator characters.
pub open spec fn term_char(c: char) -> bool {
    ('a' <= c && c <= 'z') || ('A' <= c && c <= 'Z') || ('0' <= c && c <= '9') || c == '=' || c
        == '+' || c == '-' || c == '*' || c == '/' || c == '>' || c == '<' || c == '_' || c == '|'
        || c == '^' || c == '%' || c == '?' || c == '!' || c == ':' || c == '~'
}

/// Whether `c` may begin a term: a term character that is not a digit.
pub open spec fn term_lead_char(c: char) -> bool {
    term_char(c) && !('0' <= c && c <= '9')
}

/// Decides whether `c` may begin a term.
pub fn is_term_lead(c: char) -> (r: bool)
    ensures
        r == term_lead_char(c),
{
    matches!(c,
        'a'..='z'
        | 'A'..='Z'
        | '='
        | '+'
        | '-'
        | '*'
        | '/'
        | '>'
        | '<'
        | '_'
        | '|'
        | '^'
        | '%'
        | '?'
        | '!'
        | ':'
        | '~')
}

/// Decides whether `c` may appear anywhere in a term.
pub fn is_term(c: char) -> (r: bool)
    ensures
        r == term_char(c),
{
    matches!(c,
        'a'..='z'
        | 'A'..='Z'
        | '0'..='9'
        | '='
        | '+'
        | '-'
        | '*'
        | '/'
        | '>'
        | '<'
        | '_'
        | '|'
        | '^'
        | '%'
        | '?'
        | '!'
        | ':'
        | '~')
}

} // verus!
