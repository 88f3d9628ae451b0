//! Totalling the snacks each carrier holds and picking out the largest
//! loads: the single largest total, and the sum of the three largest.

use vstd::prelude::*;

verus! {

/// Sum of the calorie values.
pub open spec fn spec_total(meals: Seq<u64>) -> int
    decreases meals.len(),
{
    if meals.len() == 0 {
        0
    } else {
        spec_total(meals.drop_last()) + meals.last()
    }
}

/// The largest total carried by any single carrier (zero for an empty
/// list).
pub open spec fn spec_max_total(list: Seq<Seq<u64>>) -> int
    decreases list.len(),
{
    if list.len() == 0 {
        0
    } else {
        let rest = spec_max_total(list.drop_last());
        let last = spec_total(list.last());
        if last >= rest {
            last
        } else {
            rest
        }
    }
}

/// The largest sum obtainable by picking at most `k` of the totals: since
/// totals are non-negative this is the sum of the `k` largest.
pub open spec fn spec_best_k(totals: Seq<int>, k: int) -> int
    decreases totals.len(),
{
    if totals.len() == 0 || k <= 0 {
        0
    } else {
        let skip = spec_best_k(totals.drop_last(), k);
        let take = totals.last() + spec_best_k(totals.drop_last(), k - 1);
        if take >= skip {
            take
        } else {
            skip
        }
    }
}

/// The per-carrier totals of the list.
pub open spec fn spec_totals(list: Seq<Seq<u64>>) -> Seq<int> {
    list.map_values(|meals: Seq<u64>| spec_total(meals))
}

/// Every carrier's total fits the machine word.
pub open spec fn totals_fit(list: Seq<Seq<u64>>) -> bool {
    forall|i: int| 0 <= i < list.len() ==> spec_total(#[trigger] list[i]) <= u64::MAX
}

/// A prefix of non-negative values sums to no more than the whole.
proof fn lemma_total_prefix(meals: Seq<u64>, k: int)
    requires
        0 <= k <= meals.len(),
    ensures
        spec_total(meals.subrange(0, k)) <= spec_total(meals),
        spec_total(meals.subrange(0, k)) >= 0,
    decreases meals.len() - k,
{
    if k == meals.len() {
        assert(meals.subrange(0, k) =~= meals);
        lemma_total_nonneg(meals);
    } else {
        assert(meals.subrange(0, k + 1).drop_last() =~= meals.subrange(0, k));
        assert(meals.subrange(0, k + 1).last() == meals[k]);
        lemma_total_nonneg(meals.subrange(0, k));
        lemma_total_prefix(meals, k + 1);
    }
}

/// Totals of non-negative values are non-negative.
proof fn lemma_total_nonneg(meals: Seq<u64>)
    ensures
        spec_total(meals) >= 0,
    decreases meals.len(),
{
    if meals.len() > 0 {
        lemma_total_nonneg(meals.drop_last());
    }
}

/// Picking at most `k` non-negative totals never beats picking at most
/// `k + 1`, and never beats their grand total.
proof fn lemma_best_k_bounds(totals: Seq<int>, k: int)
    requires
        forall|i: int| 0 <= i < totals.len() ==> 0 <= #[trigger] totals[i],
    ensures
        0 <= spec_best_k(totals, k),
        spec_best_k(totals, k) <= spec_best_k(totals, k + 1),
    decreases totals.len(),
{
    if totals.len() > 0 && k > 0 {
        lemma_best_k_bounds(totals.drop_last(), k);
        lemma_best_k_bounds(totals.drop_last(), k - 1);
        assert(totals.last() >= 0);
    } else if totals.len() > 0 {
        lemma_best_k_bounds(totals.drop_last(), 0);
        assert(totals.last() >= 0);
    }
}

/// Total of one carrier's meals.
fn carrier_total(meals: &Vec<u64>) -> (r: u64)
    requires
        spec_total(meals@) <= u64::MAX,
    ensures
        r == spec_total(meals@),
{
    let mut total: u64 = 0;
    let mut i: usize = 0;
    proof {
        assert(meals@.subrange(0, 0) =~= Seq::<u64>::empty());
    }
    while i < meals.len()
        invariant
            0 <= i <= meals@.len(),
            spec_total(meals@) <= u64::MAX,
            total == spec_total(meals@.subrange(0, i as int)),
        decreases meals@.len() - i,
    {
        proof {
            assert(meals@.subrange(0, i + 1).drop_last() =~= meals@.subrange(0, i as int));
            assert(meals@.subrange(0, i + 1).last() == meals@[i as int]);
            lemma_total_prefix(meals@, i + 1);
        }
        total = total + meals[i];
        i += 1;
    }
    proof {
        assert(meals@.subrange(0, i as int) =~= meals@);
    }
    total
}

/// The largest calorie total carried by a single carrier.
pub fn part1_most_calories_carried(calorie_list: &Vec<Vec<u64>>) -> (r: u64)
    requires
        totals_fit(calorie_list@.map_values(|v: Vec<u64>| v@)),
    ensures
        r == spec_max_total(calorie_list@.map_values(|v: Vec<u64>| v@)),
{
    let ghost list = calorie_list@.map_values(|v: Vec<u64>| v@);
    let mut best: u64 = 0;
    let mut i: usize = 0;
    proof {
        assert(list.subrange(0, 0) =~= Seq::<Seq<u64>>::empty());
    }
    while i < calorie_list.len()
        invariant
            0 <= i <= list.len(),
            list == calorie_list@.map_values(|v: Vec<u64>| v@),
            list.len() == calorie_list@.len(),
            totals_fit(list),
            best == spec_max_total(list.subrange(0, i as int)),
        decreases list.len() - i,
    {
        proof {
            assert(list[i as int] == calorie_list@[i as int]@);
        }
        let total = carrier_total(&calorie_list[i]);
        if total > best {
            best = total;
        }
        proof {
            assert(list.subrange(0, i + 1).drop_last() =~= list.subrange(0, i as int));
            assert(list.subrange(0, i + 1).last() == list[i as int]);
        }
        i += 1;
    }
    proof {
        assert(list.subrange(0, i as int) =~= list);
    }
    best
}

/// The sum of the three largest calorie totals (all of them when there are
/// fewer than three carriers).
pub fn part2_most_calories_carried_by_3_elves(calorie_list: &Vec<Vec<u64>>) -> (r: u64)
    requires
        totals_fit(calorie_list@.map_values(|v: Vec<u64>| v@)),
        spec_best_k(spec_totals(calorie_list@.map_values(|v: Vec<u64>| v@)), 3) <= u64::MAX,
    ensures
        r == spec_best_k(spec_totals(calorie_list@.map_values(|v: Vec<u64>| v@)), 3),
{
    let ghost list = calorie_list@.map_values(|v: Vec<u64>| v@);
    let ghost totals = spec_totals(list);
    let mut best1: u64 = 0;
    let mut best2: u64 = 0;
    let mut best3: u64 = 0;
    let mut i: usize = 0;
    proof {
        assert(list.subrange(0, 0) =~= Seq::<Seq<u64>>::empty());
        assert(spec_totals(list.subrange(0, 0)) =~= Seq::<int>::empty());
        assert forall|t: int| 0 <= t < totals.len() implies 0 <= #[trigger] totals[t] by {
            assert(totals[t] == spec_total(list[t]));
            lemma_total_nonneg(list[t]);
        }
    }
    while i < calorie_list.len()
        invariant
            0 <= i <= list.len(),
            list == calorie_list@.map_values(|v: Vec<u64>| v@),
            list.len() == calorie_list@.len(),
            totals == spec_totals(list),
            totals_fit(list),
            spec_best_k(totals, 3) <= u64::MAX,
            forall|t: int| 0 <= t < totals.len() ==> 0 <= #[trigger] totals[t],
            best1 == spec_best_k(spec_totals(list.subrange(0, i as int)), 1),
            best2 == spec_best_k(spec_totals(list.subrange(0, i as int)), 2),
            best3 == spec_best_k(spec_totals(list.subrange(0, i as int)), 3),
        decreases list.len() - i,
    {
        let ghost p1 = spec_totals(list.subrange(0, i as int));
        let ghost p2 = spec_totals(list.subrange(0, i + 1));
        proof {
            assert(list[i as int] == calorie_list@[i as int]@);
            assert(list.subrange(0, i + 1).drop_last() =~= list.subrange(0, i as int));
            assert(list.subrange(0, i + 1).last() == list[i as int]);
            assert(p2.drop_last() =~= p1);
            assert(p2.last() == spec_total(list[i as int]));
            assert(spec_best_k(p1, 0) == 0);
            // the new bests stay at or below the overall best of three
            lemma_best_prefix_le(totals, i + 1, 1);
            lemma_best_prefix_le(totals, i + 1, 2);
            lemma_best_prefix_le(totals, i + 1, 3);
            assert(p2 =~= totals.subrange(0, i + 1));
            assert forall|t: int| 0 <= t < p1.len() implies 0 <= #[trigger] p1[t] by {
                assert(p1[t] == spec_total(list[t]));
                lemma_total_nonneg(list[t]);
            }
            lemma_best_k_bounds(p1, 1);
            lemma_best_k_bounds(p1, 2);
        }
        let total = carrier_total(&calorie_list[i]);
        let c1 = if total > best1 {
            total
        } else {
            best1
        };
        let c2 = if total + best1 > best2 {
            total + best1
        } else {
            best2
        };
        let c3 = if total + best2 > best3 {
            total + best2
        } else {
            best3
        };
        best1 = c1;
        best2 = c2;
        best3 = c3;
        i += 1;
    }
    proof {
        assert(list.subrange(0, i as int) =~= list);
        assert(spec_totals(list.subrange(0, i as int)) =~= totals);
    }
    best3
}

/// The best-of-`k` over a prefix of the totals never exceeds the
/// best-of-three over all of them, for `k` up to three.
proof fn lemma_best_prefix_le(totals: Seq<int>, m: int, k: int)
    requires
        forall|i: int| 0 <= i < totals.len() ==> 0 <= #[trigger] totals[i],
        0 <= m <= totals.len(),
        1 <= k <= 3,
    ensures
        spec_best_k(totals.subrange(0, m), k) <= spec_best_k(totals, 3),
    decreases totals.len() - m, 4 - k,
{
    if m == totals.len() {
        assert(totals.subrange(0, m) =~= totals);
        if k < 3 {
            lemma_best_k_mono(totals, k, 3);
        }
    } else {
        assert(totals.subrange(0, m + 1).drop_last() =~= totals.subrange(0, m));
        assert(totals.subrange(0, m + 1).last() == totals[m]);
        assert forall|t: int|
            0 <= t < totals.subrange(0, m).len() implies 0 <= #[trigger] totals.subrange(
            0,
            m,
        )[t] by {
            assert(totals.subrange(0, m)[t] == totals[t]);
        }
        lemma_best_k_bounds(totals.subrange(0, m), k);
        lemma_best_prefix_le(totals, m + 1, k);
    }
}

/// More choices never hurt: best-of-`k` grows with `k`.
proof fn lemma_best_k_mono(totals: Seq<int>, k1: int, k2: int)
    requires
        forall|i: int| 0 <= i < totals.len() ==> 0 <= #[trigger] totals[i],
        0 <= k1 <= k2,
    ensures
        spec_best_k(totals, k1) <= spec_best_k(totals, k2),
    decreases k2 - k1,
{
    if k1 < k2 {
        lemma_best_k_bounds(totals, k1);
        lemma_best_k_mono(totals, k1 + 1, k2);
    }
}

} // verus!
