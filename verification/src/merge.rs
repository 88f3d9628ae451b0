//! Merging a collection of closed intervals into the canonical disjoint
//! covering set: sort by start, then fold while a running interval absorbs
//! every overlapping successor.
//!
//! The merged form is characterised by `is_merge_of`, which pins it down
//! uniquely: the result is a separated ascending sequence whose members are
//! exactly the overlap-connected components of the inputs. Uniqueness makes
//! the merge independent of the order in which the inputs were supplied.

use vstd::prelude::*;
use vstd::seq_lib::group_to_multiset_ensures;
use crate::interval::Interval;

verus! {

/// Every interval in the sequence is well formed.
pub open spec fn all_wf(s: Seq<Interval>) -> bool {
    forall|i: int| 0 <= i < s.len() ==> (#[trigger] s[i]).wf()
}

/// The intervals stand in ascending order, pairwise disjoint, with at least
/// one uncovered integer between consecutive ones.
pub open spec fn separated(r: Seq<Interval>) -> bool {
    forall|i: int, j: int| #![trigger r[i], r[j]] 0 <= i < j < r.len() ==> r[i].end < r[j].start
}

/// Some member of `r` subsumes the interval `iv`.
#[verifier::opaque]
pub open spec fn covered_by(r: Seq<Interval>, iv: Interval) -> bool {
    exists|k: int| 0 <= k < r.len() && (#[trigger] r[k]).spec_subsumes(iv)
}

/// Every interval of `s` is subsumed by some member of `r`.
pub open spec fn all_inputs_covered(s: Seq<Interval>, r: Seq<Interval>) -> bool {
    forall|iv: Interval| #[trigger] s.contains(iv) ==> covered_by(r, iv)
}

/// Some input inside `c` starts exactly at `c.start`.
#[verifier::opaque]
pub open spec fn attains_start(s: Seq<Interval>, c: Interval) -> bool {
    exists|iv: Interval| #[trigger] s.contains(iv) && c.spec_subsumes(iv) && iv.start == c.start
}

/// Some input inside `c` ends exactly at `c.end`.
#[verifier::opaque]
pub open spec fn attains_end(s: Seq<Interval>, c: Interval) -> bool {
    exists|iv: Interval| #[trigger] s.contains(iv) && c.spec_subsumes(iv) && iv.end == c.end
}

/// Some input inside `c` covers both `x` and `x + 1`: the component cannot
/// be split between those two points.
#[verifier::opaque]
pub open spec fn spanned(s: Seq<Interval>, c: Interval, x: int) -> bool {
    exists|iv: Interval|
        #[trigger] s.contains(iv) && c.spec_subsumes(iv) && iv.start <= x && x + 1 <= iv.end
}

/// Both endpoints of every member of `r` are attained by inputs lying
/// inside it.
pub open spec fn components_of(s: Seq<Interval>, r: Seq<Interval>) -> bool {
    forall|k: int| 0 <= k < r.len() ==> attains_start(s, #[trigger] r[k]) && attains_end(s, r[k])
}

/// No member of `r` can be split: every internal cut point is spanned by an
/// input lying inside it.
pub open spec fn unsplit(s: Seq<Interval>, r: Seq<Interval>) -> bool {
    forall|k: int, x: int|
        #![trigger spanned(s, r[k], x)]
        0 <= k < r.len() && r[k].start <= x < r[k].end ==> spanned(s, r[k], x)
}

/// `r` is the disjoint merged form of the interval collection `s`.
///
/// The conditions depend on `s` only through membership, so any reordering
/// (or duplication) of the inputs admits the same merged forms; together
/// with `lemma_merge_of_unique` this makes the merged form canonical.
pub open spec fn is_merge_of(s: Seq<Interval>, r: Seq<Interval>) -> bool {
    &&& all_wf(s)
    &&& all_wf(r)
    &&& separated(r)
    &&& all_inputs_covered(s, r)
    &&& components_of(s, r)
    &&& unsplit(s, r)
}

/// The canonical merged form of `s` (meaningful wherever some merged form
/// exists, as `merge_all` proves it does for well-formed inputs).
pub open spec fn merged_of(s: Seq<Interval>) -> Seq<Interval> {
    choose|r: Seq<Interval>| is_merge_of(s, r)
}

/// The intervals stand in ascending order of their start points.
pub open spec fn sorted_by_start(s: Seq<Interval>) -> bool {
    forall|i: int, j: int| #![trigger s[i], s[j]] 0 <= i < j < s.len() ==> s[i].start <= s[j].start
}

/// The interval `iv` occurs somewhere in `r`.
pub open spec fn appears_in(r: Seq<Interval>, iv: Interval) -> bool {
    exists|j: int| 0 <= j < r.len() && r[j] == iv
}

/// `covered_by` holds once a subsuming member is named.
proof fn intro_covered(r: Seq<Interval>, k: int, iv: Interval)
    requires
        0 <= k < r.len(),
        r[k].spec_subsumes(iv),
    ensures
        covered_by(r, iv),
{
    reveal(covered_by);
}

/// Extract the member of `r` that subsumes `iv`.
proof fn choose_covered(r: Seq<Interval>, iv: Interval) -> (k: int)
    requires
        covered_by(r, iv),
    ensures
        0 <= k < r.len(),
        r[k].spec_subsumes(iv),
{
    reveal(covered_by);
    choose|k: int| 0 <= k < r.len() && (#[trigger] r[k]).spec_subsumes(iv)
}

/// `attains_start` holds once a witness input is named.
proof fn intro_attains_start(s: Seq<Interval>, iv: Interval, c: Interval)
    requires
        s.contains(iv),
        c.spec_subsumes(iv),
        iv.start == c.start,
    ensures
        attains_start(s, c),
{
    reveal(attains_start);
}

/// Extract the input attaining the start of `c`.
proof fn choose_attains_start(s: Seq<Interval>, c: Interval) -> (iv: Interval)
    requires
        attains_start(s, c),
    ensures
        s.contains(iv),
        c.spec_subsumes(iv),
        iv.start == c.start,
{
    reveal(attains_start);
    choose|iv: Interval| #[trigger] s.contains(iv) && c.spec_subsumes(iv) && iv.start == c.start
}

/// `attains_end` holds once a witness input is named.
proof fn intro_attains_end(s: Seq<Interval>, iv: Interval, c: Interval)
    requires
        s.contains(iv),
        c.spec_subsumes(iv),
        iv.end == c.end,
    ensures
        attains_end(s, c),
{
    reveal(attains_end);
}

/// Extract the input attaining the end of `c`.
proof fn choose_attains_end(s: Seq<Interval>, c: Interval) -> (iv: Interval)
    requires
        attains_end(s, c),
    ensures
        s.contains(iv),
        c.spec_subsumes(iv),
        iv.end == c.end,
{
    reveal(attains_end);
    choose|iv: Interval| #[trigger] s.contains(iv) && c.spec_subsumes(iv) && iv.end == c.end
}

/// `spanned` holds once a witness input is named.
proof fn intro_spanned(s: Seq<Interval>, c: Interval, iv: Interval, x: int)
    requires
        s.contains(iv),
        c.spec_subsumes(iv),
        iv.start <= x,
        x + 1 <= iv.end,
    ensures
        spanned(s, c, x),
{
    reveal(spanned);
}

/// Extract the input spanning the cut `x` inside `c`.
proof fn choose_spanned(s: Seq<Interval>, c: Interval, x: int) -> (iv: Interval)
    requires
        spanned(s, c, x),
    ensures
        s.contains(iv),
        c.spec_subsumes(iv),
        iv.start <= x,
        x + 1 <= iv.end,
{
    reveal(spanned);
    choose|iv: Interval|
        #[trigger] s.contains(iv) && c.spec_subsumes(iv) && iv.start <= x && x + 1 <= iv.end
}

/// A member of a sequence of well-formed intervals is well formed.
proof fn lemma_member_wf(s: Seq<Interval>, iv: Interval)
    requires
        all_wf(s),
        s.contains(iv),
    ensures
        iv.wf(),
{
    let w = choose|w: int| 0 <= w < s.len() && s[w] == iv;
    assert(s[w].wf());
}

/// Membership in a pushed sequence is membership in the base or equality
/// with the new element.
proof fn lemma_push_contains(p: Seq<Interval>, x: Interval)
    ensures
        forall|iv: Interval|
            #![trigger p.push(x).contains(iv)]
            p.push(x).contains(iv) <==> (p.contains(iv) || iv == x),
{
    let p2 = p.push(x);
    assert forall|iv: Interval| p2.contains(iv) <==> (p.contains(iv) || iv == x) by {
        if p2.contains(iv) {
            let w = choose|w: int| 0 <= w < p2.len() && p2[w] == iv;
            if w < p.len() {
                assert(p[w] == iv);
            }
        }
        if p.contains(iv) {
            let w = choose|w: int| 0 <= w < p.len() && p[w] == iv;
            assert(p2[w] == iv);
        }
        if iv == x {
            assert(p2[p.len() as int] == x);
        }
    }
}

/// Stable insertion sort on the start points.
fn sort_by_start(v: &Vec<Interval>) -> (r: Vec<Interval>)
    ensures
        r@.to_multiset() == v@.to_multiset(),
        sorted_by_start(r@),
        r@.len() == v@.len(),
{
    let mut out: Vec<Interval> = Vec::new();
    let mut i: usize = 0;
    proof {
        assert(v@.subrange(0, 0) =~= Seq::<Interval>::empty());
        assert(out@.to_multiset() =~= v@.subrange(0, 0).to_multiset());
    }
    while i < v.len()
        invariant
            0 <= i <= v@.len(),
            out@.len() == i,
            out@.to_multiset() == v@.subrange(0, i as int).to_multiset(),
            sorted_by_start(out@),
        decreases v@.len() - i,
    {
        let x = v[i];
        let ghost prev = out@;
        let mut pos: usize = 0;
        while pos < out.len() && out[pos].start <= x.start
            invariant
                0 <= pos <= out@.len(),
                out@ == prev,
                forall|t: int| 0 <= t < pos ==> (#[trigger] out@[t]).start <= x.start,
            decreases out@.len() - pos,
        {
            pos += 1;
        }
        out.insert(pos, x);
        proof {
            broadcast use group_to_multiset_ensures;

            assert(out@ == prev.insert(pos as int, x));
            assert forall|a: int, b: int|
                #![trigger out@[a], out@[b]]
                0 <= a < b < out@.len() implies out@[a].start <= out@[b].start by {
                if a < pos && b < pos {
                    assert(out@[a] == prev[a] && out@[b] == prev[b]);
                } else if a < pos && b == pos {
                    assert(out@[a] == prev[a]);
                } else if a < pos && b > pos {
                    assert(out@[a] == prev[a] && out@[b] == prev[b - 1]);
                } else if a == pos {
                    // prev[b - 1].start > x.start since the scan stopped at pos
                    assert(out@[b] == prev[b - 1]);
                    assert(prev[pos as int].start > x.start);
                    assert(prev[pos as int].start <= prev[b - 1].start);
                } else {
                    assert(out@[a] == prev[a - 1] && out@[b] == prev[b - 1]);
                }
            }
            assert(v@.subrange(0, i + 1) =~= v@.subrange(0, i as int).push(x));
            assert(out@.to_multiset() == prev.to_multiset().insert(x));
            assert(v@.subrange(0, i + 1).to_multiset() == v@.subrange(
                0,
                i as int,
            ).to_multiset().insert(x));
        }
        i += 1;
    }
    proof {
        assert(v@.subrange(0, i as int) =~= v@);
    }
    out
}

/// Merge a collection of well-formed intervals into the minimal disjoint
/// covering set, in ascending order: sort by start, then fold, absorbing
/// each interval that overlaps the running last merged interval.
pub fn merge_all(intervals: Vec<Interval>) -> (r: Vec<Interval>)
    requires
        all_wf(intervals@),
    ensures
        is_merge_of(intervals@, r@),
        r@ == merged_of(intervals@),
{
    let mut m: Vec<Interval> = Vec::new();
    if intervals.len() == 0 {
        proof {
            assert(is_merge_of(intervals@, m@));
            lemma_merged_of_is(intervals@, m@);
        }
        return m;
    }
    let sorted = sort_by_start(&intervals);
    proof {
        lemma_same_multiset_same_members(sorted@, intervals@);
        assert(all_wf(sorted@)) by {
            assert forall|t: int| 0 <= t < sorted@.len() implies (#[trigger] sorted@[t]).wf() by {
                assert(sorted@.contains(sorted@[t]));
                assert(intervals@.contains(sorted@[t]));
                let w = choose|w: int| 0 <= w < intervals@.len() && intervals@[w] == sorted@[t];
                assert(intervals@[w].wf());
            }
        }
    }
    m.push(sorted[0]);
    let mut i: usize = 1;
    proof {
        let p = sorted@.subrange(0, 1);
        let s0 = sorted@[0];
        assert(p[0] == s0);
        assert(p.contains(s0));
        assert forall|iv: Interval| #[trigger] p.contains(iv) implies covered_by(m@, iv) by {
            let w = choose|w: int| 0 <= w < p.len() && p[w] == iv;
            assert(iv == s0);
            intro_covered(m@, 0, iv);
        }
        assert forall|k: int| 0 <= k < m@.len() implies attains_start(p, #[trigger] m@[k])
            && attains_end(p, m@[k]) by {
            assert(m@[k] == s0);
            intro_attains_start(p, s0, m@[k]);
            intro_attains_end(p, s0, m@[k]);
        }
        assert forall|k: int, x: int|
            #![trigger spanned(p, m@[k], x)]
            0 <= k < m@.len() && m@[k].start <= x < m@[k].end implies spanned(p, m@[k], x) by {
            assert(m@[k] == s0);
            intro_spanned(p, m@[k], s0, x);
        }
    }
    while i < sorted.len()
        invariant
            1 <= i <= sorted@.len(),
            sorted@.len() == intervals@.len(),
            sorted@.to_multiset() == intervals@.to_multiset(),
            all_wf(sorted@),
            sorted_by_start(sorted@),
            m@.len() >= 1,
            all_wf(m@),
            separated(m@),
            all_inputs_covered(sorted@.subrange(0, i as int), m@),
            components_of(sorted@.subrange(0, i as int), m@),
            unsplit(sorted@.subrange(0, i as int), m@),
            m@[m@.len() - 1].start <= sorted@[i - 1].start,
        decreases sorted@.len() - i,
    {
        let x = sorted[i];
        let last_idx = m.len() - 1;
        let running = m[last_idx];
        let ghost old_m = m@;
        let ghost p = sorted@.subrange(0, i as int);
        let ghost p2 = sorted@.subrange(0, i + 1);
        proof {
            assert(p2 =~= p.push(x));
            // sortedness gives the running interval the least start so far
            assert(running.start <= x.start);
        }
        match running.merge(&x) {
            Some(mg) => {
                let _ = m.pop();
                m.push(mg);
                proof {
                    let ln = old_m.len() - 1;
                    assert(m@ =~= old_m.update(ln, mg));
                    // overlap plus sortedness pins the merged bounds
                    assert(x.start <= running.end);
                    assert(mg.start == running.start);
                    assert(mg.end >= running.end && mg.end >= x.end);
                    assert(mg.spec_subsumes(running) && mg.spec_subsumes(x));
                    lemma_step_absorb(p, x, old_m, mg);
                    assert(all_inputs_covered(p2, m@) && components_of(p2, m@) && unsplit(
                        p2,
                        m@,
                    ) && separated(m@) && all_wf(m@));
                }
            },
            None => {
                m.push(x);
                proof {
                    assert(m@ =~= old_m.push(x));
                    // no overlap: the new interval starts past the running end
                    assert(!running.spec_overlaps(x));
                    assert(x.start > running.end);
                    lemma_step_fresh(p, x, old_m);
                    assert(all_inputs_covered(p2, m@) && components_of(p2, m@) && unsplit(
                        p2,
                        m@,
                    ) && separated(m@) && all_wf(m@));
                }
            },
        }
        i += 1;
    }
    proof {
        assert(sorted@.subrange(0, i as int) =~= sorted@);
        assert(is_merge_of(sorted@, m@));
        lemma_is_merge_of_permutation(sorted@, intervals@, m@);
        lemma_merged_of_is(intervals@, m@);
    }
    m
}

/// Fold step where the next interval `x` overlaps the running interval: the
/// last merged interval is replaced by the hull `mg`.
proof fn lemma_step_absorb(p: Seq<Interval>, x: Interval, old_m: Seq<Interval>, mg: Interval)
    requires
        old_m.len() >= 1,
        all_wf(old_m),
        separated(old_m),
        all_inputs_covered(p, old_m),
        components_of(p, old_m),
        unsplit(p, old_m),
        x.wf(),
        mg == old_m[old_m.len() - 1].spec_hull(x),
        old_m[old_m.len() - 1].start <= x.start,
        x.start <= old_m[old_m.len() - 1].end,
    ensures
        all_wf(old_m.update(old_m.len() - 1, mg)),
        separated(old_m.update(old_m.len() - 1, mg)),
        all_inputs_covered(p.push(x), old_m.update(old_m.len() - 1, mg)),
        components_of(p.push(x), old_m.update(old_m.len() - 1, mg)),
        unsplit(p.push(x), old_m.update(old_m.len() - 1, mg)),
{
    let ln = old_m.len() - 1;
    let running = old_m[ln];
    let m2 = old_m.update(ln, mg);
    let p2 = p.push(x);
    lemma_push_contains(p, x);
    assert(mg.start == running.start);
    assert(mg.end >= running.end && mg.end >= x.end);
    assert(mg.wf());
    assert(mg.spec_subsumes(running) && mg.spec_subsumes(x));
    // separation: only the last interval changed, keeping its start
    assert forall|a: int, b: int|
        #![trigger m2[a], m2[b]]
        0 <= a < b < m2.len() implies m2[a].end < m2[b].start by {
        if b < ln {
            assert(m2[a] == old_m[a] && m2[b] == old_m[b]);
        } else {
            assert(m2[a] == old_m[a]);
            assert(old_m[a].end < running.start);
        }
    }
    // every processed input is inside some merged interval
    assert forall|iv: Interval| #[trigger] p2.contains(iv) implies covered_by(m2, iv) by {
        if p.contains(iv) {
            let k = choose_covered(old_m, iv);
            if k < ln {
                assert(m2[k] == old_m[k]);
                intro_covered(m2, k, iv);
            } else {
                assert(mg.spec_subsumes(iv));
                intro_covered(m2, ln, iv);
            }
        } else {
            assert(iv == x);
            intro_covered(m2, ln, iv);
        }
    }
    // endpoints of every merged interval are attained
    assert forall|k: int| 0 <= k < m2.len() implies attains_start(p2, #[trigger] m2[k])
        && attains_end(p2, m2[k]) by {
        if k < ln {
            assert(m2[k] == old_m[k]);
            let ivs = choose_attains_start(p, old_m[k]);
            assert(p2.contains(ivs));
            intro_attains_start(p2, ivs, m2[k]);
            let ive = choose_attains_end(p, old_m[k]);
            assert(p2.contains(ive));
            intro_attains_end(p2, ive, m2[k]);
        } else {
            assert(m2[k] == mg);
            let ivs = choose_attains_start(p, old_m[ln]);
            assert(p2.contains(ivs));
            assert(mg.spec_subsumes(ivs) && ivs.start == mg.start);
            intro_attains_start(p2, ivs, mg);
            if x.end >= running.end {
                assert(p2.contains(x));
                intro_attains_end(p2, x, mg);
            } else {
                let ive = choose_attains_end(p, old_m[ln]);
                assert(p2.contains(ive));
                assert(mg.spec_subsumes(ive) && ive.end == mg.end);
                intro_attains_end(p2, ive, mg);
            }
        }
    }
    // no merged interval can be split at an internal cut
    assert forall|k: int, cut: int|
        #![trigger spanned(p2, m2[k], cut)]
        0 <= k < m2.len() && m2[k].start <= cut < m2[k].end implies spanned(p2, m2[k], cut) by {
        if k < ln {
            assert(m2[k] == old_m[k]);
            assert(spanned(p, old_m[k], cut));
            let iv = choose_spanned(p, old_m[k], cut);
            assert(p2.contains(iv));
            intro_spanned(p2, m2[k], iv, cut);
        } else {
            assert(m2[k] == mg);
            if cut < running.end {
                assert(spanned(p, old_m[ln], cut));
                let iv = choose_spanned(p, old_m[ln], cut);
                assert(p2.contains(iv));
                assert(mg.spec_subsumes(iv));
                intro_spanned(p2, mg, iv, cut);
            } else {
                // past the old end the new input x itself spans the cut
                assert(mg.end == x.end);
                assert(x.start <= cut && cut + 1 <= x.end);
                assert(p2.contains(x));
                intro_spanned(p2, mg, x, cut);
            }
        }
    }
}

/// Fold step where the next interval `x` does not overlap the running
/// interval: `x` opens a fresh merged interval.
proof fn lemma_step_fresh(p: Seq<Interval>, x: Interval, old_m: Seq<Interval>)
    requires
        old_m.len() >= 1,
        all_wf(old_m),
        separated(old_m),
        all_inputs_covered(p, old_m),
        components_of(p, old_m),
        unsplit(p, old_m),
        x.wf(),
        x.start > old_m[old_m.len() - 1].end,
    ensures
        all_wf(old_m.push(x)),
        separated(old_m.push(x)),
        all_inputs_covered(p.push(x), old_m.push(x)),
        components_of(p.push(x), old_m.push(x)),
        unsplit(p.push(x), old_m.push(x)),
{
    let ln = old_m.len() as int;
    let running = old_m[ln - 1];
    let m2 = old_m.push(x);
    let p2 = p.push(x);
    lemma_push_contains(p, x);
    assert(p2.contains(x));
    assert forall|a: int, b: int|
        #![trigger m2[a], m2[b]]
        0 <= a < b < m2.len() implies m2[a].end < m2[b].start by {
        if b < ln {
            assert(m2[a] == old_m[a] && m2[b] == old_m[b]);
        } else {
            assert(m2[a] == old_m[a] && m2[b] == x);
            if a < ln - 1 {
                assert(old_m[a].end < running.start);
                assert(running.start <= running.end);
            }
        }
    }
    assert forall|iv: Interval| #[trigger] p2.contains(iv) implies covered_by(m2, iv) by {
        if p.contains(iv) {
            let k = choose_covered(old_m, iv);
            assert(m2[k] == old_m[k]);
            intro_covered(m2, k, iv);
        } else {
            assert(iv == x);
            assert(m2[ln] == x);
            intro_covered(m2, ln, iv);
        }
    }
    assert forall|k: int| 0 <= k < m2.len() implies attains_start(p2, #[trigger] m2[k])
        && attains_end(p2, m2[k]) by {
        if k < ln {
            assert(m2[k] == old_m[k]);
            let ivs = choose_attains_start(p, old_m[k]);
            assert(p2.contains(ivs));
            intro_attains_start(p2, ivs, m2[k]);
            let ive = choose_attains_end(p, old_m[k]);
            assert(p2.contains(ive));
            intro_attains_end(p2, ive, m2[k]);
        } else {
            assert(m2[k] == x);
            intro_attains_start(p2, x, m2[k]);
            intro_attains_end(p2, x, m2[k]);
        }
    }
    assert forall|k: int, cut: int|
        #![trigger spanned(p2, m2[k], cut)]
        0 <= k < m2.len() && m2[k].start <= cut < m2[k].end implies spanned(p2, m2[k], cut) by {
        if k < ln {
            assert(m2[k] == old_m[k]);
            assert(spanned(p, old_m[k], cut));
            let iv = choose_spanned(p, old_m[k], cut);
            assert(p2.contains(iv));
            intro_spanned(p2, m2[k], iv, cut);
        } else {
            assert(m2[k] == x);
            intro_spanned(p2, m2[k], x, cut);
        }
    }
}

/// Sequences with the same multiset have the same members.
proof fn lemma_same_multiset_same_members(s1: Seq<Interval>, s2: Seq<Interval>)
    requires
        s1.to_multiset() == s2.to_multiset(),
    ensures
        forall|iv: Interval|
            #![trigger s1.contains(iv)]
            #![trigger s2.contains(iv)]
            s1.contains(iv) <==> s2.contains(iv),
{
    broadcast use group_to_multiset_ensures;

    assert forall|iv: Interval| s1.contains(iv) <==> s2.contains(iv) by {
        assert(s1.contains(iv) <==> s1.to_multiset().count(iv) > 0);
        assert(s2.contains(iv) <==> s2.to_multiset().count(iv) > 0);
    }
}

/// The merge conditions depend on the inputs only through membership, so a
/// permutation (multiset equality) of the inputs admits the same merged form.
pub proof fn lemma_is_merge_of_permutation(s1: Seq<Interval>, s2: Seq<Interval>, r: Seq<Interval>)
    requires
        s1.to_multiset() == s2.to_multiset(),
        is_merge_of(s1, r),
    ensures
        is_merge_of(s2, r),
{
    lemma_same_multiset_same_members(s1, s2);
    assert(all_wf(s2)) by {
        assert forall|t: int| 0 <= t < s2.len() implies (#[trigger] s2[t]).wf() by {
            assert(s2.contains(s2[t]));
            assert(s1.contains(s2[t]));
            lemma_member_wf(s1, s2[t]);
        }
    }
    assert forall|iv: Interval| #[trigger] s2.contains(iv) implies covered_by(r, iv) by {
        assert(s1.contains(iv));
    }
    assert forall|k: int| 0 <= k < r.len() implies attains_start(s2, #[trigger] r[k])
        && attains_end(s2, r[k]) by {
        let ivs = choose_attains_start(s1, r[k]);
        assert(s2.contains(ivs));
        intro_attains_start(s2, ivs, r[k]);
        let ive = choose_attains_end(s1, r[k]);
        assert(s2.contains(ive));
        intro_attains_end(s2, ive, r[k]);
    }
    assert forall|k: int, cut: int|
        #![trigger spanned(s2, r[k], cut)]
        0 <= k < r.len() && r[k].start <= cut < r[k].end implies spanned(s2, r[k], cut) by {
        assert(spanned(s1, r[k], cut));
        let iv = choose_spanned(s1, r[k], cut);
        assert(s2.contains(iv));
        intro_spanned(s2, r[k], iv, cut);
    }
}

/// Walking rightward from a covered point: the member of `r` covering `x`
/// also covers everything up to `a.end`, because each cut of `a` is spanned
/// by an input that a single member of `r` must subsume.
proof fn lemma_run_inside(s: Seq<Interval>, r: Seq<Interval>, a: Interval, j: int, x: int)
    requires
        is_merge_of(s, r),
        a.wf(),
        forall|cut: int| a.start <= cut < a.end ==> spanned(s, a, cut),
        0 <= j < r.len(),
        a.start <= x <= a.end,
        r[j].spec_covers(x),
    ensures
        r[j].spec_covers(a.end as int),
    decreases a.end - x,
{
    if x < a.end {
        assert(spanned(s, a, x));
        let iv = choose_spanned(s, a, x);
        let j2 = choose_covered(r, iv);
        assert(r[j2].spec_covers(x) && r[j2].spec_covers(x + 1));
        // two members of a separated sequence cannot both cover x
        assert(j2 == j) by {
            if j < j2 {
                assert(r[j].end < r[j2].start);
            } else if j2 < j {
                assert(r[j2].end < r[j].start);
            }
        }
        lemma_run_inside(s, r, a, j, x + 1);
    }
}

/// Every member of one merged form lies inside some member of any other
/// merged form of the same inputs.
proof fn lemma_elem_subsumed(s: Seq<Interval>, r1: Seq<Interval>, r2: Seq<Interval>, k: int)
    requires
        is_merge_of(s, r1),
        is_merge_of(s, r2),
        0 <= k < r1.len(),
    ensures
        exists|j: int| 0 <= j < r2.len() && (#[trigger] r2[j]).spec_subsumes(r1[k]),
{
    let a = r1[k];
    assert(attains_start(s, a));
    let ivs = choose_attains_start(s, a);
    lemma_member_wf(s, ivs);
    let j = choose_covered(r2, ivs);
    assert(r2[j].spec_covers(a.start as int));
    assert forall|cut: int| a.start <= cut < a.end implies spanned(s, a, cut) by {
        assert(spanned(s, r1[k], cut));
    }
    lemma_run_inside(s, r2, a, j, a.start as int);
    assert(r2[j].spec_subsumes(a));
}

/// Every member of one merged form equals some member of any other merged
/// form of the same inputs.
proof fn lemma_elem_equal(s: Seq<Interval>, r1: Seq<Interval>, r2: Seq<Interval>, k: int)
    requires
        is_merge_of(s, r1),
        is_merge_of(s, r2),
        0 <= k < r1.len(),
    ensures
        appears_in(r2, r1[k]),
{
    lemma_elem_subsumed(s, r1, r2, k);
    let j = choose|j: int| 0 <= j < r2.len() && (#[trigger] r2[j]).spec_subsumes(r1[k]);
    lemma_elem_subsumed(s, r2, r1, j);
    let k2 = choose|k2: int| 0 <= k2 < r1.len() && (#[trigger] r1[k2]).spec_subsumes(r2[j]);
    // r1[k2] contains r1[k], and both cover the point r1[k].start
    assert(r1[k2].spec_covers(r1[k].start as int));
    assert(r1[k].spec_covers(r1[k].start as int));
    assert(k2 == k) by {
        if k < k2 {
            assert(r1[k].end < r1[k2].start);
        } else if k2 < k {
            assert(r1[k2].end < r1[k].start);
        }
    }
    assert(r2[j].start == r1[k].start && r2[j].end == r1[k].end);
    assert(r2[j] == r1[k]);
}

/// Two separated ascending sequences made of the same intervals are equal.
proof fn lemma_separated_mutual_eq(r1: Seq<Interval>, r2: Seq<Interval>)
    requires
        all_wf(r1),
        separated(r1),
        all_wf(r2),
        separated(r2),
        forall|k: int| #![trigger r1[k]] 0 <= k < r1.len() ==> appears_in(r2, r1[k]),
        forall|j: int| #![trigger r2[j]] 0 <= j < r2.len() ==> appears_in(r1, r2[j]),
    ensures
        r1 == r2,
    decreases r1.len(),
{
    if r1.len() == 0 {
        assert(r2.len() == 0) by {
            if r2.len() > 0 {
                assert(appears_in(r1, r2[0]));
                let k = choose|k: int| 0 <= k < r1.len() && r1[k] == r2[0];
            }
        }
        assert(r1 =~= r2);
    } else {
        assert(appears_in(r2, r1[0]));
        let j0 = choose|j: int| 0 <= j < r2.len() && r2[j] == r1[0];
        assert(appears_in(r1, r2[0]));
        let k0 = choose|k: int| 0 <= k < r1.len() && r1[k] == r2[0];
        assert(r1[0] == r2[0]) by {
            if j0 > 0 {
                assert(r2[0].end < r2[j0].start);
            }
            if k0 > 0 {
                assert(r1[0].end < r1[k0].start);
            }
        }
        let t1 = r1.skip(1);
        let t2 = r2.skip(1);
        assert forall|k: int| #![trigger t1[k]] 0 <= k < t1.len() implies appears_in(t2, t1[k]) by {
            assert(t1[k] == r1[k + 1]);
            assert(appears_in(r2, r1[k + 1]));
            let j = choose|j: int| 0 <= j < r2.len() && r2[j] == r1[k + 1];
            assert(j != 0) by {
                if j == 0 {
                    assert(r1[0].end < r1[k + 1].start);
                    assert(r2[0] == r1[0]);
                }
            }
            assert(t2[j - 1] == r2[j]);
        }
        assert forall|j: int| #![trigger t2[j]] 0 <= j < t2.len() implies appears_in(t1, t2[j]) by {
            assert(t2[j] == r2[j + 1]);
            assert(appears_in(r1, r2[j + 1]));
            let k = choose|k: int| 0 <= k < r1.len() && r1[k] == r2[j + 1];
            assert(k != 0) by {
                if k == 0 {
                    assert(r2[0].end < r2[j + 1].start);
                    assert(r1[0] == r2[0]);
                }
            }
            assert(t1[k - 1] == r1[k]);
        }
        assert(all_wf(t1) && all_wf(t2) && separated(t1) && separated(t2)) by {
            assert forall|t: int| 0 <= t < t1.len() implies (#[trigger] t1[t]).wf() by {
                assert(t1[t] == r1[t + 1]);
            }
            assert forall|t: int| 0 <= t < t2.len() implies (#[trigger] t2[t]).wf() by {
                assert(t2[t] == r2[t + 1]);
            }
            assert forall|a: int, b: int|
                #![trigger t1[a], t1[b]]
                0 <= a < b < t1.len() implies t1[a].end < t1[b].start by {
                assert(t1[a] == r1[a + 1] && t1[b] == r1[b + 1]);
            }
            assert forall|a: int, b: int|
                #![trigger t2[a], t2[b]]
                0 <= a < b < t2.len() implies t2[a].end < t2[b].start by {
                assert(t2[a] == r2[a + 1] && t2[b] == r2[b + 1]);
            }
        }
        lemma_separated_mutual_eq(t1, t2);
        assert(r1 =~= r2) by {
            assert(r1.len() == t1.len() + 1 && r2.len() == t2.len() + 1);
            assert forall|t: int| 0 <= t < r1.len() implies r1[t] == r2[t] by {
                if t > 0 {
                    assert(t1[t - 1] == r1[t] && t2[t - 1] == r2[t]);
                }
            }
        }
    }
}

/// Law: the merged form of an interval collection is unique. Together with
/// `lemma_is_merge_of_permutation`, merging is independent of input order.
pub proof fn lemma_merge_of_unique(s: Seq<Interval>, r1: Seq<Interval>, r2: Seq<Interval>)
    requires
        is_merge_of(s, r1),
        is_merge_of(s, r2),
    ensures
        r1 == r2,
{
    assert forall|k: int| #![trigger r1[k]] 0 <= k < r1.len() implies appears_in(r2, r1[k]) by {
        lemma_elem_equal(s, r1, r2, k);
    }
    assert forall|j: int| #![trigger r2[j]] 0 <= j < r2.len() implies appears_in(r1, r2[j]) by {
        lemma_elem_equal(s, r2, r1, j);
    }
    lemma_separated_mutual_eq(r1, r2);
}

/// Law: `merge_all` applied to any two permutations of the same intervals
/// yields the same disjoint set.
pub proof fn lemma_merge_order_independent(
    s1: Seq<Interval>,
    s2: Seq<Interval>,
    r1: Seq<Interval>,
    r2: Seq<Interval>,
)
    requires
        s1.to_multiset() == s2.to_multiset(),
        is_merge_of(s1, r1),
        is_merge_of(s2, r2),
    ensures
        r1 == r2,
{
    lemma_is_merge_of_permutation(s1, s2, r1);
    lemma_merge_of_unique(s2, r1, r2);
}

/// Whatever satisfies the merge conditions is the canonical merged form.
pub proof fn lemma_merged_of_is(s: Seq<Interval>, r: Seq<Interval>)
    requires
        is_merge_of(s, r),
    ensures
        merged_of(s) == r,
{
    assert(is_merge_of(s, merged_of(s))) by {
        assert(exists|w: Seq<Interval>| is_merge_of(s, w));
    }
    lemma_merge_of_unique(s, merged_of(s), r);
}

} // verus!
