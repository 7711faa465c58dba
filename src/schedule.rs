//! One entry of the schedule book and the overlap rule between entries.
use vstd::prelude::*;

use crate::stamp::Stamp;

verus! {

/// One entry: an identifier, a subject and the half-open range
/// `[start, end)` that it occupies.
#[derive(Debug, Clone, PartialEq, Eq)]
pub struct Schedule {
    pub id: u64,
    pub subject: String,
    pub start: Stamp,
    pub end: Stamp,
}

/// Whether the half-open ranges `[s1, e1)` and `[s2, e2)` share a moment;
/// ranges that only touch at an end do not.
pub open spec fn ranges_meet(s1: Stamp, e1: Stamp, s2: Stamp, e2: Stamp) -> bool {
    s1.before(e2) && s2.before(e1)
}

impl Schedule {
    /// Whether the range is non-empty: the start comes before the end.
    pub open spec fn is_proper(self) -> bool {
        self.start.before(self.end)
    }

    /// Whether the two entries' ranges overlap.
    pub open spec fn meets(self, other: Schedule) -> bool {
        ranges_meet(self.start, self.end, other.start, other.end)
    }

    /// Whether this entry's range overlaps `other`'s. Touching ranges do not.
    pub fn intersects(&self, other: &Schedule) -> (r: bool)
        ensures
            r == self.meets(*other),
    {
        self.start.is_before(&other.end) && other.start.is_before(&self.end)
    }
}

/// Overlap is symmetric, and for proper ranges it is exactly
/// "each starts before the other ends".
pub proof fn lemma_intersects_symmetric(a: Schedule, b: Schedule)
    requires
        a.is_proper(),
        b.is_proper(),
    ensures
        a.meets(b) == b.meets(a),
        a.meets(b) == (a.start.before(b.end) && b.start.before(a.end)),
{
}

} // verus!
