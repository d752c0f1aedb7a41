//! Byte ranges of a source text.

use vstd::prelude::*;

verus! {

/// A half-open range of byte offsets into a source text: the first field is
/// where it starts, the second where it ends.
#[derive(Debug, Clone, Copy, PartialEq, Eq, Structural)]
pub struct Span(pub usize, pub usize);

impl Span {
    /// A span does not end before it starts.
    pub open spec fn well_formed(self) -> bool {
        self.0 <= self.1
    }

    /// The smallest span that covers both `self` and `other`.
    pub fn union(self, other: Self) -> (res: Self)
        ensures
            res.0 == if self.0 <= other.0 { self.0 } else { other.0 },
            res.1 == if self.1 >= other.1 { self.1 } else { other.1 },
            self.well_formed() || other.well_formed() ==> res.well_formed(),
    {
        let lo: usize = if self.0 <= other.0 { self.0 } else { other.0 };
        let hi: usize = if self.1 >= other.1 { self.1 } else { other.1 };
        Span(lo, hi)
    }

    /// The number of bytes the span covers.
    pub fn len(&self) -> (res: usize)
        requires
            self.well_formed(),
        ensures
            res == self.1 - self.0,
    {
        self.1 - self.0
    }
}

} // verus!
