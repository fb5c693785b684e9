//! Positions in a file's text, counted in characters.
use vstd::prelude::*;

verus! {

/// A half-open range `start..end` of character positions in one file's text.
#[derive(Clone, Copy, Debug, PartialEq, Eq, Structural)]
pub struct Span {
    pub start: usize,
    pub end: usize,
}

/// The span of a bracketed list, brackets included.
#[derive(Clone, Copy, Debug, PartialEq, Eq, Structural)]
pub struct BracketSpan {
    pub outer: Span,
}

impl Span {
    pub open spec fn spec_overarching(a: Span, b: Span) -> Span {
        Span {
            start: if a.start <= b.start { a.start } else { b.start },
            end: if a.end >= b.end { a.end } else { b.end },
        }
    }

    /// The smallest span that covers both `a` and `b`.
    pub fn new_overarching(a: Span, b: Span) -> (r: Span)
        ensures
            r == Span::spec_overarching(a, b),
    {
        Span {
            start: if a.start <= b.start { a.start } else { b.start },
            end: if a.end >= b.end { a.end } else { b.end },
        }
    }

    /// Whether the span lies within a text of `len` characters.
    pub open spec fn fits(self, len: nat) -> bool {
        self.start <= self.end && self.end <= len
    }
}

impl BracketSpan {
    pub fn outer_span(&self) -> (r: Span)
        ensures
            r == self.outer,
    {
        self.outer
    }
}

} // verus!
