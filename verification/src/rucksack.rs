//! Rucksack item priorities: lowercase items score 1 to 26, uppercase 27
//! to 52. Each rucksack splits into two halves, and the items common to
//! both halves (summed once per distinct item) give its score; groups of
//! three rucksacks are scored by the items common to the whole group.

use vstd::prelude::*;

verus! {

/// The item is an ASCII lowercase letter.
pub open spec fn spec_is_lowercase(c: char) -> bool {
    'a' as int <= c as int <= 'z' as int
}

/// The item is an ASCII uppercase letter.
pub open spec fn spec_is_uppercase(c: char) -> bool {
    'A' as int <= c as int <= 'Z' as int
}

/// The item is a letter and so has a priority.
pub open spec fn spec_alphabetic(c: char) -> bool {
    spec_is_lowercase(c) || spec_is_uppercase(c)
}

/// Priority of an item: 1 to 26 for `a` to `z`, 27 to 52 for `A` to `Z`.
pub open spec fn spec_item_priority(c: char) -> int {
    if spec_is_lowercase(c) {
        c as int - 'a' as int + 1
    } else {
        c as int - 'A' as int + 27
    }
}

/// Every item of the sequence is a letter.
pub open spec fn all_alphabetic(s: Seq<char>) -> bool {
    forall|i: int| 0 <= i < s.len() ==> spec_alphabetic(#[trigger] s[i])
}

/// Some item of `s[from..to)` has priority `p`.
pub open spec fn has_priority_in(s: Seq<char>, from: int, to: int, p: int) -> bool {
    exists|i: int| from <= i < to && spec_item_priority(#[trigger] s[i]) == p
}

/// Priority `p` occurs in both halves of the rucksack.
pub open spec fn common_priority(r: Seq<char>, p: int) -> bool {
    has_priority_in(r, 0, r.len() as int / 2, p) && has_priority_in(
        r,
        r.len() as int / 2,
        r.len() as int,
        p,
    )
}

/// Sum of the priorities `p, p + 1, ..., 52` that occur in both halves of
/// the rucksack.
pub open spec fn spec_overlap_sum(r: Seq<char>, p: int) -> int
    decreases 53 - p,
{
    if p >= 53 || p < 1 {
        0
    } else {
        (if common_priority(r, p) {
            p
        } else {
            0int
        }) + spec_overlap_sum(r, p + 1)
    }
}

/// Priority of an item: 1 to 26 for `a` to `z`, 27 to 52 for `A` to `Z`.
pub fn item_priority(item: char) -> (r: u64)
    requires
        spec_alphabetic(item),
    ensures
        r == spec_item_priority(item),
        1 <= r <= 52,
{
    let v = item as u32;
    if v >= 97 {
        (v - 97 + 1) as u64
    } else {
        (v - 65 + 27) as u64
    }
}

/// Some item of `items[from..to)` has priority `p`.
fn contains_priority(items: &Vec<char>, from: usize, to: usize, p: u64) -> (r: bool)
    requires
        from <= to <= items@.len(),
        all_alphabetic(items@),
    ensures
        r == has_priority_in(items@, from as int, to as int, p as int),
{
    let mut i: usize = from;
    while i < to
        invariant
            from <= i <= to <= items@.len(),
            all_alphabetic(items@),
            !has_priority_in(items@, from as int, i as int, p as int),
        decreases to - i,
    {
        if item_priority(items[i]) == p {
            proof {
                assert(spec_item_priority(items@[i as int]) == p);
            }
            return true;
        }
        i += 1;
    }
    false
}

/// Sum of the priorities of the distinct items found in both halves of the
/// rucksack.
pub fn priority_of_overlapping_item(rucksack: &Vec<char>) -> (r: u64)
    requires
        all_alphabetic(rucksack@),
    ensures
        r == spec_overlap_sum(rucksack@, 1),
        r <= 2704,
{
    let half = rucksack.len() / 2;
    let full = rucksack.len();
    let mut total: u64 = 0;
    let mut p: u64 = 1;
    while p <= 52
        invariant
            1 <= p <= 53,
            half == rucksack@.len() / 2,
            full == rucksack@.len(),
            all_alphabetic(rucksack@),
            total + spec_overlap_sum(rucksack@, p as int) == spec_overlap_sum(rucksack@, 1),
            total <= 52 * (p - 1),
        decreases 53 - p,
    {
        if contains_priority(rucksack, 0, half, p) && contains_priority(rucksack, half, full, p) {
            total = total + p;
        }
        p += 1;
    }
    proof {
        assert(spec_overlap_sum(rucksack@, 53) == 0);
        lemma_overlap_sum_bound(rucksack@, 1);
    }
    total
}

/// Crude tail bound: each of the remaining priorities adds at most 52.
proof fn lemma_overlap_sum_bound(r: Seq<char>, p: int)
    requires
        1 <= p <= 53,
    ensures
        0 <= spec_overlap_sum(r, p) <= 52 * (53 - p),
    decreases 53 - p,
{
    if p < 53 {
        lemma_overlap_sum_bound(r, p + 1);
    }
}

/// Sum of the overlap scores of all rucksacks.
pub open spec fn spec_part1_sum(rucksacks: Seq<Seq<char>>) -> int
    decreases rucksacks.len(),
{
    if rucksacks.len() == 0 {
        0
    } else {
        spec_part1_sum(rucksacks.drop_last()) + spec_overlap_sum(rucksacks.last(), 1)
    }
}

/// Total priority of the overlapping items over all rucksacks.
pub fn part1(rucksacks: &Vec<Vec<char>>) -> (r: u64)
    requires
        rucksacks@.len() <= 0x100_0000_0000,
        forall|i: int| 0 <= i < rucksacks@.len() ==> all_alphabetic(#[trigger] rucksacks@[i]@),
    ensures
        r == spec_part1_sum(rucksacks@.map_values(|v: Vec<char>| v@)),
{
    let ghost list = rucksacks@.map_values(|v: Vec<char>| v@);
    let mut total: u64 = 0;
    let mut i: usize = 0;
    proof {
        assert(list.subrange(0, 0) =~= Seq::<Seq<char>>::empty());
    }
    while i < rucksacks.len()
        invariant
            0 <= i <= list.len(),
            list == rucksacks@.map_values(|v: Vec<char>| v@),
            list.len() == rucksacks@.len() <= 0x100_0000_0000,
            forall|t: int| 0 <= t < list.len() ==> all_alphabetic(#[trigger] list[t]),
            total == spec_part1_sum(list.subrange(0, i as int)),
            total <= 2704 * i,
        decreases list.len() - i,
    {
        proof {
            assert(list[i as int] == rucksacks@[i as int]@);
        }
        let s = priority_of_overlapping_item(&rucksacks[i]);
        total = total + s;
        proof {
            assert(list.subrange(0, i + 1).drop_last() =~= list.subrange(0, i as int));
            assert(list.subrange(0, i + 1).last() == list[i as int]);
        }
        i += 1;
    }
    proof {
        assert(list.subrange(0, i as int) =~= list);
    }
    total
}

/// Priority `p` occurs in every rucksack of `group[from..to)`.
pub open spec fn group_common_priority(group: Seq<Seq<char>>, from: int, to: int, p: int) -> bool {
    forall|g: int| from <= g < to ==> has_priority_in(#[trigger] group[g], 0, group[g].len() as int, p)
}

/// Sum of the priorities `p, ..., 52` common to all of `group[from..to)`.
pub open spec fn spec_group_sum(group: Seq<Seq<char>>, from: int, to: int, p: int) -> int
    decreases 53 - p,
{
    if p >= 53 || p < 1 {
        0
    } else {
        (if group_common_priority(group, from, to, p) {
            p
        } else {
            0int
        }) + spec_group_sum(group, from, to, p + 1)
    }
}

/// Sum of the badge priorities of the three-rucksack groups, the final
/// group possibly shorter.
pub open spec fn spec_part2_sum(rucksacks: Seq<Seq<char>>, g: int) -> int
    decreases rucksacks.len() + 3 - g,
{
    if g < 0 || g >= rucksacks.len() || rucksacks.len() + 3 - g < 0 {
        0
    } else {
        let to = if g + 3 <= rucksacks.len() {
            g + 3
        } else {
            rucksacks.len() as int
        };
        spec_group_sum(rucksacks, g, to, 1) + spec_part2_sum(rucksacks, g + 3)
    }
}

/// Every rucksack of `group[from..to)` holds an item of priority `p`.
fn group_contains_priority(group: &Vec<Vec<char>>, from: usize, to: usize, p: u64) -> (r: bool)
    requires
        from <= to <= group@.len(),
        forall|i: int| 0 <= i < group@.len() ==> all_alphabetic(#[trigger] group@[i]@),
    ensures
        r == group_common_priority(
            group@.map_values(|v: Vec<char>| v@),
            from as int,
            to as int,
            p as int,
        ),
{
    let ghost list = group@.map_values(|v: Vec<char>| v@);
    let mut g: usize = from;
    while g < to
        invariant
            from <= g <= to <= group@.len(),
            list == group@.map_values(|v: Vec<char>| v@),
            forall|i: int| 0 <= i < group@.len() ==> all_alphabetic(#[trigger] group@[i]@),
            group_common_priority(list, from as int, g as int, p as int),
        decreases to - g,
    {
        proof {
            assert(list[g as int] == group@[g as int]@);
        }
        let rucksack = &group[g];
        if !contains_priority(rucksack, 0, rucksack.len(), p) {
            proof {
                assert(!has_priority_in(list[g as int], 0, list[g as int].len() as int, p as int));
            }
            return false;
        }
        g += 1;
    }
    true
}

/// Sum of the priorities common to all of `group[from..to)`.
fn group_badge_sum(group: &Vec<Vec<char>>, from: usize, to: usize) -> (r: u64)
    requires
        from <= to <= group@.len(),
        forall|i: int| 0 <= i < group@.len() ==> all_alphabetic(#[trigger] group@[i]@),
    ensures
        r == spec_group_sum(group@.map_values(|v: Vec<char>| v@), from as int, to as int, 1),
        r <= 2704,
{
    let ghost list = group@.map_values(|v: Vec<char>| v@);
    let mut total: u64 = 0;
    let mut p: u64 = 1;
    while p <= 52
        invariant
            1 <= p <= 53,
            from <= to <= group@.len(),
            list == group@.map_values(|v: Vec<char>| v@),
            forall|i: int| 0 <= i < group@.len() ==> all_alphabetic(#[trigger] group@[i]@),
            total + spec_group_sum(list, from as int, to as int, p as int) == spec_group_sum(
                list,
                from as int,
                to as int,
                1,
            ),
            total <= 52 * (p - 1),
        decreases 53 - p,
    {
        if group_contains_priority(group, from, to, p) {
            total = total + p;
        }
        p += 1;
    }
    proof {
        assert(spec_group_sum(list, from as int, to as int, 53) == 0);
        lemma_group_sum_bound(list, from as int, to as int, 1);
    }
    total
}

/// Total badge priority over the three-rucksack groups.
pub fn part2(rucksacks: &Vec<Vec<char>>) -> (r: u64)
    requires
        rucksacks@.len() <= 0x100_0000_0000,
        forall|i: int| 0 <= i < rucksacks@.len() ==> all_alphabetic(#[trigger] rucksacks@[i]@),
    ensures
        r == spec_part2_sum(rucksacks@.map_values(|v: Vec<char>| v@), 0),
{
    let ghost list = rucksacks@.map_values(|v: Vec<char>| v@);
    let mut total: u64 = 0;
    let mut g: usize = 0;
    while g < rucksacks.len()
        invariant
            0 <= g <= list.len(),
            list == rucksacks@.map_values(|v: Vec<char>| v@),
            list.len() == rucksacks@.len() <= 0x100_0000_0000,
            forall|i: int| 0 <= i < rucksacks@.len() ==> all_alphabetic(#[trigger] rucksacks@[i]@),
            total + spec_part2_sum(list, g as int) == spec_part2_sum(list, 0),
            total <= 2704 * g,
        decreases list.len() - g,
    {
        let to = if rucksacks.len() - g > 3 {
            g + 3
        } else {
            rucksacks.len()
        };
        let s = group_badge_sum(rucksacks, g, to);
        total = total + s;
        proof {
            lemma_part2_sum_nonneg(list, g + 3);
        }
        g = to;
    }
    proof {
        assert(spec_part2_sum(list, g as int) == 0);
    }
    total
}

/// The group sums are non-negative.
proof fn lemma_part2_sum_nonneg(rucksacks: Seq<Seq<char>>, g: int)
    ensures
        0 <= spec_part2_sum(rucksacks, g),
    decreases rucksacks.len() + 3 - g,
{
    if 0 <= g && g < rucksacks.len() && rucksacks.len() + 3 - g >= 0 {
        lemma_part2_sum_nonneg(rucksacks, g + 3);
        let to = if g + 3 <= rucksacks.len() {
            g + 3
        } else {
            rucksacks.len() as int
        };
        lemma_group_sum_bound(rucksacks, g, to, 1);
    }
}

/// Crude tail bound: each of the remaining priorities adds at most 52.
proof fn lemma_group_sum_bound(group: Seq<Seq<char>>, from: int, to: int, p: int)
    requires
        1 <= p <= 53,
    ensures
        0 <= spec_group_sum(group, from, to, p) <= 52 * (53 - p),
    decreases 53 - p,
{
    if p < 53 {
        lemma_group_sum_bound(group, from, to, p + 1);
    }
}

} // verus!
