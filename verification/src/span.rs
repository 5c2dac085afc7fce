//! Source positions.

use vstd::prelude::*;

verus! {

/// A byte range of the source together with the lines it touches.
#[derive(Debug, Clone, Copy, PartialEq, Eq, Structural)]
pub struct Span {
    pub start: usize,
    pub end: usize,
    pub line_start: u32,
    pub line_end: u32,
}

/// Anything that knows which part of the source it came from.
pub trait Spanned {
    spec fn spanned(&self) -> Span;

    fn span(&self) -> (s: Span)
        ensures
            s == self.spanned(),
    ;
}

/// The lesser of two integers.
pub open spec fn min_int(a: int, b: int) -> int {
    if a <= b {
        a
    } else {
        b
    }
}

/// The greater of two integers.
pub open spec fn max_int(a: int, b: int) -> int {
    if a >= b {
        a
    } else {
        b
    }
}

impl Span {
    /// The smallest span that covers both `self` and `other`.
    pub open spec fn joined(self, other: Span) -> Span {
        Span {
            start: min_int(self.start as int, other.start as int) as usize,
            end: max_int(self.end as int, other.end as int) as usize,
            line_start: min_int(self.line_start as int, other.line_start as int) as u32,
            line_end: max_int(self.line_end as int, other.line_end as int) as u32,
        }
    }

    /// The span of nothing at the start of the first line.
    pub open spec fn origin() -> Span {
        Span { start: 0, end: 0, line_start: 1, line_end: 1 }
    }

    /// Whether `offset` lies inside the byte range.
    pub open spec fn covers(self, offset: int) -> bool {
        self.start <= offset < self.end
    }

    /// The smallest span that covers both `self` and `other`.
    pub fn join(&self, other: &Span) -> (s: Span)
        ensures
            s == self.joined(*other),
    {
        Span {
            start: if self.start <= other.start {
                self.start
            } else {
                other.start
            },
            end: if self.end >= other.end {
                self.end
            } else {
                other.end
            },
            line_start: if self.line_start <= other.line_start {
                self.line_start
            } else {
                other.line_start
            },
            line_end: if self.line_end >= other.line_end {
                self.line_end
            } else {
                other.line_end
            },
        }
    }
}

impl Default for Span {
    fn default() -> (s: Span)
        ensures
            s == Span::origin(),
    {
        Span { start: 0, end: 0, line_start: 1, line_end: 1 }
    }
}

impl Spanned for Span {
    open spec fn spanned(&self) -> Span {
        *self
    }

    fn span(&self) -> (s: Span) {
        *self
    }
}

/// Joining is commutative, idempotent and associative, and the result covers
/// every byte that either operand covers.
pub proof fn lemma_join_laws(a: Span, b: Span, c: Span)
    ensures
        a.joined(b) == b.joined(a),
        a.joined(a) == a,
        a.joined(b).joined(c) == a.joined(b.joined(c)),
        forall|offset: int| a.covers(offset) || b.covers(offset) ==> a.joined(b).covers(offset),
        a.joined(b).line_start <= a.line_start && a.line_end <= a.joined(b).line_end,
{
}

} // verus!
