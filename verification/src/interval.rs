//! Algebra of closed inclusive integer intervals: containment, overlap, and
//! pairwise merge into the smallest covering interval.

use vstd::prelude::*;

verus! {

/// A closed inclusive range `[start, end]` of signed integers.
///
/// An interval is well formed when `start <= end`; a row with no coverage is
/// represented as `None` by the producers rather than as a degenerate value.
#[derive(Clone, Copy, Debug, PartialEq, Eq, Structural)]
pub struct Interval {
    pub start: i64,
    pub end: i64,
}

impl Interval {
    /// Well-formedness: the interval holds at least one integer.
    pub open spec fn wf(self) -> bool {
        self.start <= self.end
    }

    /// The point `x` lies inside the interval.
    pub open spec fn spec_covers(self, x: int) -> bool {
        self.start <= x <= self.end
    }

    /// `self` contains all of `other`.
    pub open spec fn spec_subsumes(self, other: Interval) -> bool {
        self.start <= other.start && self.end >= other.end
    }

    /// One interval's endpoint falls within the other (inclusive at both
    /// ends); touching at a single shared integer counts as overlap.
    pub open spec fn spec_overlaps(self, other: Interval) -> bool {
        ||| self.spec_covers(other.start as int)
        ||| self.spec_covers(other.end as int)
        ||| other.spec_covers(self.start as int)
        ||| other.spec_covers(self.end as int)
    }

    /// The smallest interval containing both `self` and `other`.
    pub open spec fn spec_hull(self, other: Interval) -> Interval {
        Interval {
            start: if self.start <= other.start { self.start } else { other.start },
            end: if self.end >= other.end { self.end } else { other.end },
        }
    }

    /// Number of integers in the interval.
    pub open spec fn spec_len(self) -> int {
        self.end - self.start + 1
    }

    /// True iff `self.start <= other.start` and `self.end >= other.end`.
    pub fn subsumes(&self, other: &Interval) -> (r: bool)
        ensures
            r == self.spec_subsumes(*other),
    {
        self.start <= other.start && self.end >= other.end
    }

    /// True iff the two intervals share at least one integer.
    pub fn overlaps(&self, other: &Interval) -> (r: bool)
        ensures
            r == self.spec_overlaps(*other),
    {
        (self.start <= other.start && other.start <= self.end)
            || (self.start <= other.end && other.end <= self.end)
            || (other.start <= self.start && self.start <= other.end)
            || (other.start <= self.end && self.end <= other.end)
    }

    /// The single interval covering both inputs when they overlap, `None`
    /// when they do not (a gap, even of a single integer, is preserved).
    pub fn merge(&self, other: &Interval) -> (r: Option<Interval>)
        ensures
            r == if self.spec_overlaps(*other) {
                Some(self.spec_hull(*other))
            } else {
                None::<Interval>
            },
            r is Some <==> self.spec_overlaps(*other),
    {
        if self.overlaps(other) {
            Some(Interval {
                start: if self.start <= other.start { self.start } else { other.start },
                end: if self.end >= other.end { self.end } else { other.end },
            })
        } else {
            None
        }
    }
}

/// Law: when two intervals overlap, their merge subsumes both of them and is
/// the smallest interval that does so: every interval subsuming both inputs
/// also subsumes the merge.
pub proof fn lemma_merge_is_smallest_cover(a: Interval, b: Interval)
    requires
        a.spec_overlaps(b),
    ensures
        a.spec_hull(b).spec_subsumes(a),
        a.spec_hull(b).spec_subsumes(b),
        forall|c: Interval|
            c.spec_subsumes(a) && c.spec_subsumes(b) ==> c.spec_subsumes(a.spec_hull(b)),
{
}

} // verus!
