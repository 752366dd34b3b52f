//! A source span: where a token starts and how far it runs.

use vstd::prelude::*;

verus! {

/// A region of source text: a start offset and a length, in characters.
#[derive(Debug, Clone, Copy, PartialEq, Eq, Structural)]
pub struct Span {
    pub start: usize,
    pub length: usize,
}

impl Span {
    /// The span starting at `start` and running for `length` characters.
    pub fn new(start: usize, length: usize) -> (r: Span)
        ensures
            r.start == start,
            r.length == length,
    {
        Span { start, length }
    }
}

impl Default for Span {
    /// The empty span at the origin.
    fn default() -> (r: Span)
        ensures
            r.start == 0,
            r.length == 0,
    {
        Span { start: 0, length: 0 }
    }
}

} // verus!
