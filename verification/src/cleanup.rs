//! Counting pairs of assignment ranges that fully contain or overlap each
//! other, using the interval algebra.

use vstd::prelude::*;
use crate::interval::Interval;

verus! {

/// One range of the pair fully contains the other.
pub open spec fn spec_fully_contained(p: (Interval, Interval)) -> bool {
    p.0.spec_subsumes(p.1) || p.1.spec_subsumes(p.0)
}

/// The two ranges of the pair share at least one integer.
pub open spec fn spec_pair_overlaps(p: (Interval, Interval)) -> bool {
    p.0.spec_overlaps(p.1)
}

/// Number of pairs where one range fully contains the other.
pub open spec fn spec_count_contained(s: Seq<(Interval, Interval)>) -> int
    decreases s.len(),
{
    if s.len() == 0 {
        0
    } else {
        spec_count_contained(s.drop_last()) + if spec_fully_contained(s.last()) {
            1int
        } else {
            0int
        }
    }
}

/// Number of pairs whose ranges overlap.
pub open spec fn spec_count_overlapping(s: Seq<(Interval, Interval)>) -> int
    decreases s.len(),
{
    if s.len() == 0 {
        0
    } else {
        spec_count_overlapping(s.drop_last()) + if spec_pair_overlaps(s.last()) {
            1int
        } else {
            0int
        }
    }
}

/// Count the pairs in which one range fully contains the other.
pub fn part1(ranges: &Vec<(Interval, Interval)>) -> (r: usize)
    ensures
        r == spec_count_contained(ranges@),
{
    let mut count: usize = 0;
    let mut i: usize = 0;
    proof {
        assert(ranges@.subrange(0, 0) =~= Seq::<(Interval, Interval)>::empty());
    }
    while i < ranges.len()
        invariant
            0 <= i <= ranges@.len(),
            count == spec_count_contained(ranges@.subrange(0, i as int)),
            count <= i,
        decreases ranges@.len() - i,
    {
        let (first, second) = ranges[i];
        if first.subsumes(&second) || second.subsumes(&first) {
            count += 1;
        }
        proof {
            assert(ranges@.subrange(0, i + 1).drop_last() =~= ranges@.subrange(0, i as int));
            assert(ranges@.subrange(0, i + 1).last() == ranges@[i as int]);
        }
        i += 1;
    }
    proof {
        assert(ranges@.subrange(0, i as int) =~= ranges@);
    }
    count
}

/// Count the pairs whose ranges overlap at all.
pub fn part2(ranges: &Vec<(Interval, Interval)>) -> (r: usize)
    ensures
        r == spec_count_overlapping(ranges@),
{
    let mut count: usize = 0;
    let mut i: usize = 0;
    proof {
        assert(ranges@.subrange(0, 0) =~= Seq::<(Interval, Interval)>::empty());
    }
    while i < ranges.len()
        invariant
            0 <= i <= ranges@.len(),
            count == spec_count_overlapping(ranges@.subrange(0, i as int)),
            count <= i,
        decreases ranges@.len() - i,
    {
        let (first, second) = ranges[i];
        if first.overlaps(&second) {
            count += 1;
        }
        proof {
            assert(ranges@.subrange(0, i + 1).drop_last() =~= ranges@.subrange(0, i as int));
            assert(ranges@.subrange(0, i + 1).last() == ranges@[i as int]);
        }
        i += 1;
    }
    proof {
        assert(ranges@.subrange(0, i as int) =~= ranges@);
    }
    count
}

} // verus!
