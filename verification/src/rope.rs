//! A rope of knots on the integer grid: the head moves one cell at a time
//! and each following knot steps toward its predecessor whenever it falls
//! more than one cell behind, diagonally if needed.

use vstd::prelude::*;

verus! {

/// A direction the rope's head can move in.
#[derive(Clone, Copy, Debug, PartialEq, Eq, Structural)]
pub enum Direction {
    Left,
    Right,
    Top,
    Bottom,
}

/// Coordinates a rope knot may hold, with room for single steps.
pub const KNOT_LIMIT: i64 = 0x2000_0000_0000_0000;

/// The location lies within `margin` of the supported knot range.
pub open spec fn loc_ok(loc: (i64, i64), margin: int) -> bool {
    &&& -KNOT_LIMIT + margin <= loc.0 <= KNOT_LIMIT - margin
    &&& -KNOT_LIMIT + margin <= loc.1 <= KNOT_LIMIT - margin
}

/// One step from the location in the direction.
pub open spec fn spec_move(loc: (i64, i64), direction: Direction) -> (int, int) {
    match direction {
        Direction::Left => (loc.0 - 1, loc.1 as int),
        Direction::Right => (loc.0 + 1, loc.1 as int),
        Direction::Top => (loc.0 as int, loc.1 + 1),
        Direction::Bottom => (loc.0 as int, loc.1 - 1),
    }
}

/// The sign of the offset: the direction a knot is dragged in.
pub open spec fn sign(x: int) -> int {
    if x > 0 {
        1
    } else if x < 0 {
        -1
    } else {
        0
    }
}

/// Where a knot at `tail` ends up after its predecessor moved to `head`:
/// unchanged while adjacent (diagonals included), otherwise one step toward
/// the predecessor on each axis.
pub open spec fn spec_follow(head: (i64, i64), tail: (i64, i64)) -> (int, int) {
    let dx = head.0 - tail.0;
    let dy = head.1 - tail.1;
    if dx > 1 || dx < -1 || dy > 1 || dy < -1 {
        (tail.0 + sign(dx), tail.1 + sign(dy))
    } else {
        (tail.0 as int, tail.1 as int)
    }
}

/// One step from the location in the direction.
pub fn move_in_direction(start: (i64, i64), direction: Direction) -> (r: (i64, i64))
    requires
        loc_ok(start, 1),
    ensures
        r.0 == spec_move(start, direction).0,
        r.1 == spec_move(start, direction).1,
        loc_ok(r, 0),
{
    let (start_x, start_y) = start;
    match direction {
        Direction::Left => (start_x - 1, start_y),
        Direction::Right => (start_x + 1, start_y),
        Direction::Top => (start_x, start_y + 1),
        Direction::Bottom => (start_x, start_y - 1),
    }
}

/// A rope: the head knot first, each later knot following the one before
/// it.
#[derive(Debug)]
pub struct Rope {
    knots: Vec<(i64, i64)>,
}

impl Rope {
    /// The knot locations, head first.
    pub closed spec fn spec_knots(&self) -> Seq<(i64, i64)> {
        self.knots@
    }

    /// A rope of the given length with every knot at the origin.
    pub fn new(length: usize) -> (r: Rope)
        ensures
            r.spec_knots().len() == length,
            forall|i: int| 0 <= i < length ==> r.spec_knots()[i] == (0i64, 0i64),
    {
        let mut knots: Vec<(i64, i64)> = Vec::new();
        let mut i: usize = 0;
        while i < length
            invariant
                0 <= i <= length,
                knots@.len() == i,
                forall|t: int| 0 <= t < i ==> knots@[t] == (0i64, 0i64),
            decreases length - i,
        {
            knots.push((0, 0));
            i += 1;
        }
        Rope { knots }
    }

    /// Number of knots.
    pub fn length(&self) -> (r: usize)
        ensures
            r == self.spec_knots().len(),
    {
        self.knots.len()
    }

    /// Drag the knot at `index` after its predecessor.
    pub fn update_knot(&mut self, index: usize)
        requires
            1 <= index < old(self).spec_knots().len(),
            loc_ok(old(self).spec_knots()[index - 1], 0),
            loc_ok(old(self).spec_knots()[index as int], 1),
        ensures
            final(self).spec_knots().len() == old(self).spec_knots().len(),
            forall|i: int|
                0 <= i < old(self).spec_knots().len() && i != index
                    ==> final(self).spec_knots()[i] == old(self).spec_knots()[i],
            final(self).spec_knots()[index as int].0 == spec_follow(
                old(self).spec_knots()[index - 1],
                old(self).spec_knots()[index as int],
            ).0,
            final(self).spec_knots()[index as int].1 == spec_follow(
                old(self).spec_knots()[index - 1],
                old(self).spec_knots()[index as int],
            ).1,
            loc_ok(final(self).spec_knots()[index as int], 0),
    {
        let (head_x, head_y) = self.knots[index - 1];
        let (tail_x, tail_y) = self.knots[index];
        let dx = head_x - tail_x;
        let dy = head_y - tail_y;
        let is_far = dx > 1 || dx < -1 || dy > 1 || dy < -1;

        let (tdx, tdy): (i64, i64) = if is_far {
            (
                if dx > 0 {
                    1
                } else if dx < 0 {
                    -1
                } else {
                    0
                },
                if dy > 0 {
                    1
                } else if dy < 0 {
                    -1
                } else {
                    0
                },
            )
        } else {
            (0, 0)
        };

        let new_loc = (tail_x + tdx, tail_y + tdy);
        self.knots.set(index, new_loc);
    }

    /// Move the head one step and let every later knot follow in turn.
    pub fn move_head(&mut self, direction: Direction)
        requires
            old(self).spec_knots().len() >= 1,
            forall|i: int|
                0 <= i < old(self).spec_knots().len() ==> loc_ok(
                    #[trigger] old(self).spec_knots()[i],
                    1,
                ),
        ensures
            final(self).spec_knots().len() == old(self).spec_knots().len(),
            final(self).spec_knots()[0].0 == spec_move(old(self).spec_knots()[0], direction).0,
            final(self).spec_knots()[0].1 == spec_move(old(self).spec_knots()[0], direction).1,
            forall|i: int|
                1 <= i < old(self).spec_knots().len() ==> {
                    &&& (#[trigger] final(self).spec_knots()[i]).0 == spec_follow(
                        final(self).spec_knots()[i - 1],
                        old(self).spec_knots()[i],
                    ).0
                    &&& final(self).spec_knots()[i].1 == spec_follow(
                        final(self).spec_knots()[i - 1],
                        old(self).spec_knots()[i],
                    ).1
                },
            forall|i: int|
                0 <= i < old(self).spec_knots().len() ==> loc_ok(
                    #[trigger] final(self).spec_knots()[i],
                    0,
                ),
    {
        let ghost orig = self.knots@;
        let head = self.knots[0];
        let new_head = move_in_direction(head, direction);
        self.knots.set(0, new_head);
        let mut index: usize = 1;
        while index < self.knots.len()
            invariant
                1 <= index <= self.knots@.len(),
                self.knots@.len() == orig.len(),
                forall|i: int| 0 <= i < orig.len() ==> loc_ok(#[trigger] orig[i], 1),
                self.knots@[0].0 == spec_move(orig[0], direction).0,
                self.knots@[0].1 == spec_move(orig[0], direction).1,
                forall|i: int| index <= i < orig.len() ==> self.knots@[i] == orig[i],
                forall|i: int|
                    1 <= i < index ==> {
                        &&& (#[trigger] self.knots@[i]).0 == spec_follow(
                            self.knots@[i - 1],
                            orig[i],
                        ).0
                        &&& self.knots@[i].1 == spec_follow(self.knots@[i - 1], orig[i]).1
                    },
                forall|i: int| 0 <= i < index ==> loc_ok(#[trigger] self.knots@[i], 0),
            decreases self.knots@.len() - index,
        {
            proof {
                assert(self.knots@[index as int] == orig[index as int]);
                assert(loc_ok(orig[index as int], 1));
            }
            self.update_knot(index);
            index += 1;
        }
    }

    /// The location of the knot at `index`.
    pub fn tail_location(&self, index: usize) -> (r: (i64, i64))
        requires
            index < self.spec_knots().len(),
        ensures
            r == self.spec_knots()[index as int],
    {
        self.knots[index]
    }
}

/// A direction repeated a number of single steps.
#[derive(Clone, Copy, Debug, PartialEq, Eq, Structural)]
pub struct WeightedDirection {
    pub direction: Direction,
    pub weight: u64,
}

/// Total number of single steps the weighted directions describe.
pub open spec fn total_weight(dirs: Seq<WeightedDirection>) -> int
    decreases dirs.len(),
{
    if dirs.len() == 0 {
        0
    } else {
        total_weight(dirs.drop_last()) + dirs.last().weight
    }
}

/// The weighted directions flattened into single steps.
pub open spec fn expand(dirs: Seq<WeightedDirection>) -> Seq<Direction>
    decreases dirs.len(),
{
    if dirs.len() == 0 {
        Seq::empty()
    } else {
        expand(dirs.drop_last()) + Seq::new(
            dirs.last().weight as nat,
            |k: int| dirs.last().direction,
        )
    }
}

/// Knot `i` after one head move: the head steps, each later knot follows
/// the already-moved knot before it.
pub open spec fn knot_after(knots: Seq<(i64, i64)>, d: Direction, i: int) -> (i64, i64)
    decreases i,
{
    if i <= 0 {
        ((spec_move(knots[0], d).0) as i64, (spec_move(knots[0], d).1) as i64)
    } else {
        (
            (spec_follow(knot_after(knots, d, i - 1), knots[i]).0) as i64,
            (spec_follow(knot_after(knots, d, i - 1), knots[i]).1) as i64,
        )
    }
}

/// The whole rope after one head move.
pub open spec fn step_knots(knots: Seq<(i64, i64)>, d: Direction) -> Seq<(i64, i64)> {
    Seq::new(knots.len(), |i: int| knot_after(knots, d, i))
}

/// The rope after a sequence of single head moves.
pub open spec fn rope_after(knots0: Seq<(i64, i64)>, moves: Seq<Direction>) -> Seq<(i64, i64)>
    decreases moves.len(),
{
    if moves.len() == 0 {
        knots0
    } else {
        step_knots(rope_after(knots0, moves.drop_last()), moves.last())
    }
}

/// The locations the last knot has held: the origin, then its location
/// after each single head move.
pub open spec fn tail_visits(knots0: Seq<(i64, i64)>, moves: Seq<Direction>) -> Set<(i64, i64)>
    decreases moves.len(),
{
    if moves.len() == 0 {
        Set::empty().insert((0i64, 0i64))
    } else {
        tail_visits(knots0, moves.drop_last()).insert(rope_after(knots0, moves).last())
    }
}

/// The exact per-knot recurrence of one head move matches `step_knots`.
proof fn lemma_knot_after_matches(
    old_knots: Seq<(i64, i64)>,
    new_knots: Seq<(i64, i64)>,
    d: Direction,
    i: int,
)
    requires
        old_knots.len() >= 1,
        new_knots.len() == old_knots.len(),
        forall|t: int| 0 <= t < old_knots.len() ==> loc_ok(#[trigger] old_knots[t], 1),
        new_knots[0].0 == spec_move(old_knots[0], d).0,
        new_knots[0].1 == spec_move(old_knots[0], d).1,
        forall|t: int|
            1 <= t < old_knots.len() ==> {
                &&& (#[trigger] new_knots[t]).0 == spec_follow(new_knots[t - 1], old_knots[t]).0
                &&& new_knots[t].1 == spec_follow(new_knots[t - 1], old_knots[t]).1
            },
        0 <= i < old_knots.len(),
    ensures
        new_knots[i] == knot_after(old_knots, d, i),
    decreases i,
{
    if i == 0 {
        assert(loc_ok(old_knots[0], 1));
    } else {
        lemma_knot_after_matches(old_knots, new_knots, d, i - 1);
        assert(loc_ok(old_knots[i], 1));
    }
}

/// One `move_head` call realises `step_knots` on the previous state.
proof fn lemma_move_head_is_step(
    old_knots: Seq<(i64, i64)>,
    new_knots: Seq<(i64, i64)>,
    d: Direction,
)
    requires
        old_knots.len() >= 1,
        new_knots.len() == old_knots.len(),
        forall|t: int| 0 <= t < old_knots.len() ==> loc_ok(#[trigger] old_knots[t], 1),
        new_knots[0].0 == spec_move(old_knots[0], d).0,
        new_knots[0].1 == spec_move(old_knots[0], d).1,
        forall|t: int|
            1 <= t < old_knots.len() ==> {
                &&& (#[trigger] new_knots[t]).0 == spec_follow(new_knots[t - 1], old_knots[t]).0
                &&& new_knots[t].1 == spec_follow(new_knots[t - 1], old_knots[t]).1
            },
    ensures
        new_knots == step_knots(old_knots, d),
{
    assert forall|i: int| 0 <= i < old_knots.len() implies new_knots[i] == step_knots(
        old_knots,
        d,
    )[i] by {
        lemma_knot_after_matches(old_knots, new_knots, d, i);
    }
    assert(new_knots =~= step_knots(old_knots, d));
}

/// Pushing a fresh location keeps the list duplicate-free and adds exactly
/// that location to the set of entries.
proof fn lemma_seen_push(s: Seq<(i64, i64)>, x: (i64, i64))
    requires
        s.no_duplicates(),
        !s.contains(x),
    ensures
        s.push(x).no_duplicates(),
        s.push(x).to_set() == s.to_set().insert(x),
{
    let s2 = s.push(x);
    assert forall|i: int, j: int|
        0 <= i < s2.len() && 0 <= j < s2.len() && i != j implies s2[i] != s2[j] by {
        if i < s.len() && j < s.len() {
        } else if j == s.len() {
            assert(s2[j] == x);
            if i < s.len() && s2[i] == x {
                assert(s[i] == x);
                assert(s.contains(x));
            }
        } else {
            assert(s2[i] == x);
            if j < s.len() && s2[j] == x {
                assert(s[j] == x);
                assert(s.contains(x));
            }
        }
    }
    assert(s2.to_set() =~= s.to_set().insert(x)) by {
        assert forall|a: (i64, i64)|
            s2.to_set().contains(a) <==> s.to_set().insert(x).contains(a) by {
            if s2.contains(a) {
                let w = choose|w: int| 0 <= w < s2.len() && s2[w] == a;
                if w < s.len() {
                    assert(s[w] == a);
                    assert(s.contains(a));
                }
            }
            if s.contains(a) {
                let w = choose|w: int| 0 <= w < s.len() && s[w] == a;
                assert(s2[w] == a);
            }
            if a == x {
                assert(s2[s.len() as int] == x);
                assert(s2.contains(a));
            }
        }
    }
}

/// Prefix totals never exceed the whole total.
proof fn lemma_total_weight_prefix(dirs: Seq<WeightedDirection>, k: int)
    requires
        0 <= k <= dirs.len(),
    ensures
        total_weight(dirs.subrange(0, k)) <= total_weight(dirs),
    decreases dirs.len() - k,
{
    if k == dirs.len() {
        assert(dirs.subrange(0, k) =~= dirs);
    } else {
        assert(dirs.subrange(0, k + 1).drop_last() =~= dirs.subrange(0, k));
        assert(dirs.subrange(0, k + 1).last() == dirs[k]);
        lemma_total_weight_prefix(dirs, k + 1);
    }
}

/// Number of distinct locations the last knot passes through while the
/// head walks the weighted directions, the starting origin included.
pub fn unique_locations_visited_by_tail(rope: &mut Rope, directions: &Vec<WeightedDirection>) -> (n:
    usize)
    requires
        old(rope).spec_knots().len() >= 1,
        forall|i: int|
            0 <= i < old(rope).spec_knots().len() ==> loc_ok(
                #[trigger] old(rope).spec_knots()[i],
                total_weight(directions@) + 1,
            ),
    ensures
        final(rope).spec_knots() == rope_after(old(rope).spec_knots(), expand(directions@)),
        n == tail_visits(old(rope).spec_knots(), expand(directions@)).len(),
{
    let tail_index = rope.length() - 1;
    let ghost knots0 = rope.spec_knots();
    let ghost all = directions@;
    let mut seen: Vec<(i64, i64)> = Vec::new();
    seen.push((0, 0));
    let ghost mut moves: Seq<Direction> = Seq::empty();
    proof {
        assert(expand(all.subrange(0, 0)) =~= Seq::<Direction>::empty()) by {
            assert(all.subrange(0, 0) =~= Seq::<WeightedDirection>::empty());
        }
        assert(moves =~= expand(all.subrange(0, 0)));
        assert(seen@.to_set() =~= tail_visits(knots0, moves)) by {
            assert(tail_visits(knots0, moves) == Set::empty().insert((0i64, 0i64)));
            assert forall|a: (i64, i64)|
                seen@.to_set().contains(a) <==> tail_visits(knots0, moves).contains(a) by {
                if seen@.contains(a) {
                    let w = choose|w: int| 0 <= w < seen@.len() && seen@[w] == a;
                    assert(a == (0i64, 0i64));
                }
                if a == (0i64, 0i64) {
                    assert(seen@[0] == a);
                    assert(seen@.contains(a));
                }
            }
        }
        assert(seen@.no_duplicates());
    }
    let mut d: usize = 0;
    while d < directions.len()
        invariant
            0 <= d <= all.len(),
            directions@ == all,
            rope.spec_knots().len() == knots0.len(),
            knots0.len() >= 1,
            tail_index == knots0.len() - 1,
            forall|i: int|
                0 <= i < knots0.len() ==> loc_ok(#[trigger] knots0[i], total_weight(all) + 1),
            moves == expand(all.subrange(0, d as int)),
            rope.spec_knots() == rope_after(knots0, moves),
            forall|i: int|
                0 <= i < rope.spec_knots().len() ==> loc_ok(
                    #[trigger] rope.spec_knots()[i],
                    total_weight(all) - total_weight(all.subrange(0, d as int)) + 1,
                ),
            seen@.no_duplicates(),
            seen@.to_set() == tail_visits(knots0, moves),
        decreases all.len() - d,
    {
        let wd = directions[d];
        let ghost base_moves = moves;
        let ghost base_total = total_weight(all.subrange(0, d as int));
        proof {
            assert(all.subrange(0, d + 1).drop_last() =~= all.subrange(0, d as int));
            assert(all.subrange(0, d + 1).last() == all[d as int]);
            lemma_total_weight_prefix(all, d + 1);
        }
        let mut step: u64 = 0;
        while step < wd.weight
            invariant
                0 <= d < all.len(),
                directions@ == all,
                wd == all[d as int],
                0 <= step <= wd.weight,
                rope.spec_knots().len() == knots0.len(),
                knots0.len() >= 1,
                tail_index == knots0.len() - 1,
                base_moves == expand(all.subrange(0, d as int)),
                base_total == total_weight(all.subrange(0, d as int)),
                base_total + wd.weight <= total_weight(all),
                moves == base_moves + Seq::new(step as nat, |k: int| wd.direction),
                rope.spec_knots() == rope_after(knots0, moves),
                forall|i: int|
                    0 <= i < rope.spec_knots().len() ==> loc_ok(
                        #[trigger] rope.spec_knots()[i],
                        total_weight(all) - base_total - step + 1,
                    ),
                seen@.no_duplicates(),
                seen@.to_set() == tail_visits(knots0, moves),
            decreases wd.weight - step,
        {
            let ghost pre = rope.spec_knots();
            proof {
                assert forall|i: int| 0 <= i < pre.len() implies loc_ok(#[trigger] pre[i], 1) by {
                    assert(total_weight(all) - base_total - step + 1 >= 1);
                }
            }
            rope.move_head(wd.direction);
            proof {
                lemma_move_head_is_step(pre, rope.spec_knots(), wd.direction);
                moves = moves.push(wd.direction);
                assert(moves.drop_last() =~= base_moves + Seq::new(step as nat, |k: int| wd.direction));
                assert(moves.last() == wd.direction);
                assert(rope.spec_knots() == rope_after(knots0, moves));
                assert(moves =~= base_moves + Seq::new((step + 1) as nat, |k: int| wd.direction));
                // each knot moved at most one cell on each axis
                assert forall|i: int| 0 <= i < rope.spec_knots().len() implies loc_ok(
                    #[trigger] rope.spec_knots()[i],
                    total_weight(all) - base_total - (step + 1) + 1,
                ) by {
                    if i == 0 {
                        assert(loc_ok(pre[0], total_weight(all) - base_total - step + 1));
                    } else {
                        assert(loc_ok(pre[i], total_weight(all) - base_total - step + 1));
                    }
                }
            }
            let t = rope.tail_location(tail_index);
            let mut found = false;
            let mut j: usize = 0;
            while j < seen.len()
                invariant
                    0 <= j <= seen@.len(),
                    found == exists|k: int| 0 <= k < j && seen@[k] == t,
                decreases seen@.len() - j,
            {
                let entry = seen[j];
                if entry.0 == t.0 && entry.1 == t.1 {
                    proof {
                        assert(seen@[j as int] == t);
                    }
                    found = true;
                }
                j += 1;
            }
            proof {
                assert(tail_visits(knots0, moves) == tail_visits(knots0, moves.drop_last()).insert(
                    rope_after(knots0, moves).last(),
                ));
                assert(rope_after(knots0, moves).last() == t);
            }
            if !found {
                proof {
                    assert(!seen@.contains(t));
                    lemma_seen_push(seen@, t);
                }
                seen.push(t);
            } else {
                proof {
                    assert(seen@.contains(t));
                    assert(seen@.to_set().contains(t));
                    assert(seen@.to_set().insert(t) =~= seen@.to_set());
                }
            }
            step += 1;
        }
        proof {
            assert(moves =~= expand(all.subrange(0, d + 1)));
            assert(total_weight(all.subrange(0, d + 1)) == base_total + wd.weight);
        }
        d += 1;
    }
    proof {
        assert(all.subrange(0, d as int) =~= all);
        seen@.unique_seq_to_set();
    }
    seen.len()
}

/// A rope of the given length with every knot at the origin.
pub open spec fn origin_rope(len: int) -> Seq<(i64, i64)> {
    Seq::new(len as nat, |i: int| (0i64, 0i64))
}

/// Distinct locations visited by the tail of a two-knot rope started at
/// the origin.
pub fn part1(directions: &Vec<WeightedDirection>) -> (n: usize)
    requires
        total_weight(directions@) + 1 <= KNOT_LIMIT,
    ensures
        n == tail_visits(origin_rope(2), expand(directions@)).len(),
{
    let mut rope = Rope::new(2);
    proof {
        assert(rope.spec_knots() =~= origin_rope(2));
    }
    unique_locations_visited_by_tail(&mut rope, directions)
}

/// Distinct locations visited by the tail of a ten-knot rope started at
/// the origin.
pub fn part2(directions: &Vec<WeightedDirection>) -> (n: usize)
    requires
        total_weight(directions@) + 1 <= KNOT_LIMIT,
    ensures
        n == tail_visits(origin_rope(10), expand(directions@)).len(),
{
    let mut rope = Rope::new(10);
    proof {
        assert(rope.spec_knots() =~= origin_rope(10));
    }
    unique_locations_visited_by_tail(&mut rope, directions)
}

} // verus!
