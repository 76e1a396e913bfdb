//! Byte spans in source text.
use vstd::prelude::*;

verus! {

/// A byte span in source code (half-open interval).
#[derive(Debug, Clone, Copy, PartialEq, Eq, Structural)]
pub struct Span {
    /// Starting byte offset (inclusive).
    pub start: usize,
    /// Ending byte offset (exclusive).
    pub end: usize,
}

impl Span {
    /// Join two spans by taking the minimum start and maximum end.
    pub fn join(self, other: Span) -> (r: Span)
        ensures
            r.start == if self.start <= other.start { self.start } else { other.start },
            r.end == if self.end >= other.end { self.end } else { other.end },
    {
        Span {
            start: if self.start <= other.start { self.start } else { other.start },
            end: if self.end >= other.end { self.end } else { other.end },
        }
    }
}

} // verus!
