//! Sensor coverage engine: each sensor knows its nearest excluded point
//! under the taxicab metric, which carves a diamond of excluded positions.
//! The engine projects those diamonds onto horizontal rows, merges the
//! resulting intervals, and answers two queries: how many positions on one
//! row are excluded, and where the single uncovered position of a bounded
//! square lies.

use vstd::prelude::*;
use vstd::math::abs;
use crate::interval::Interval;
use crate::merge::{all_wf, merge_all, merged_of};

verus! {

/// Coordinates are kept well inside the `i64` range so that taxicab
/// distances and row projections never overflow.
pub const COORD_LIMIT: i64 = 0x1000_0000_0000_0000;

/// The coordinate is small enough for overflow-free projection.
pub open spec fn coord_ok(c: i64) -> bool {
    -COORD_LIMIT <= c <= COORD_LIMIT
}

/// An ordered pair of signed integer coordinates.
#[derive(Clone, Copy, Debug, PartialEq, Eq, Structural)]
pub struct Point {
    pub x: i64,
    pub y: i64,
}

/// A sensor together with its nearest excluded point. The taxicab distance
/// between the two is the radius of the sensor's exclusion diamond.
#[derive(Clone, Copy, Debug, PartialEq, Eq, Structural)]
pub struct Pair {
    pub sensor: Point,
    pub beacon: Point,
}

impl Point {
    /// Build a point from its coordinates.
    pub fn new(x: i64, y: i64) -> (r: Point)
        ensures
            r == (Point { x, y }),
    {
        Point { x, y }
    }
}

impl Pair {
    /// Both points lie within the supported coordinate range.
    pub open spec fn wf(self) -> bool {
        &&& coord_ok(self.sensor.x)
        &&& coord_ok(self.sensor.y)
        &&& coord_ok(self.beacon.x)
        &&& coord_ok(self.beacon.y)
    }

    /// Taxicab distance between the sensor and its excluded point.
    pub open spec fn spec_manhattan(self) -> int {
        abs(self.beacon.x - self.sensor.x) + abs(self.beacon.y - self.sensor.y) as int
    }

    /// The interval of columns of row `y` covered by the diamond, `None`
    /// when the row lies outside it.
    pub open spec fn spec_row_interval(self, y: int) -> Option<Interval> {
        if abs(y - self.sensor.y) > self.spec_manhattan() {
            None
        } else {
            let rem = self.spec_manhattan() - abs(y - self.sensor.y);
            Some(
                Interval {
                    start: (self.sensor.x - rem) as i64,
                    end: (self.sensor.x + rem) as i64,
                },
            )
        }
    }

    /// Build a pair from its two points.
    pub fn new(sensor: Point, beacon: Point) -> (r: Pair)
        requires
            coord_ok(sensor.x),
            coord_ok(sensor.y),
            coord_ok(beacon.x),
            coord_ok(beacon.y),
        ensures
            r == (Pair { sensor, beacon }),
            r.wf(),
    {
        Pair { sensor, beacon }
    }

    /// Taxicab distance between the sensor and its excluded point.
    pub fn manhattan(&self) -> (r: u64)
        requires
            self.wf(),
        ensures
            r == self.spec_manhattan(),
    {
        let dx: i64 = if self.beacon.x >= self.sensor.x {
            self.beacon.x - self.sensor.x
        } else {
            self.sensor.x - self.beacon.x
        };
        let dy: i64 = if self.beacon.y >= self.sensor.y {
            self.beacon.y - self.sensor.y
        } else {
            self.sensor.y - self.beacon.y
        };
        dx as u64 + dy as u64
    }

    /// The row `y` lies outside the sensor's diamond.
    pub fn is_too_far(&self, y: i64) -> (r: bool)
        requires
            self.wf(),
            coord_ok(y),
        ensures
            r == (abs(y - self.sensor.y) > self.spec_manhattan()),
    {
        let dy: i64 = if y >= self.sensor.y {
            y - self.sensor.y
        } else {
            self.sensor.y - y
        };
        (dy as u64) > self.manhattan()
    }

    /// Project the diamond onto row `y`: `None` exactly when the row is
    /// farther from the sensor than the taxicab radius; otherwise the
    /// covered interval, centred on the sensor column, of length
    /// `2 * (manhattan - |y - sensor.y|) + 1`.
    pub fn row_interval(&self, y: i64) -> (r: Option<Interval>)
        requires
            self.wf(),
            coord_ok(y),
        ensures
            r == self.spec_row_interval(y as int),
            r is Some <==> abs(y - self.sensor.y) <= self.spec_manhattan(),
            r matches Some(iv) ==> {
                let rem = self.spec_manhattan() - abs(y - self.sensor.y);
                &&& iv.wf()
                &&& iv.start == self.sensor.x - rem
                &&& iv.end == self.sensor.x + rem
                &&& iv.spec_len() == 2 * rem + 1
            },
    {
        let m = self.manhattan();
        let dy: i64 = if y >= self.sensor.y {
            y - self.sensor.y
        } else {
            self.sensor.y - y
        };
        if (dy as u64) > m {
            None
        } else {
            let rem = m - (dy as u64);
            let rem_i = rem as i64;
            Some(Interval { start: self.sensor.x - rem_i, end: self.sensor.x + rem_i })
        }
    }
}

/// Every pair lies within the supported coordinate range.
pub open spec fn all_pairs_wf(pairs: Seq<Pair>) -> bool {
    forall|i: int| 0 <= i < pairs.len() ==> (#[trigger] pairs[i]).wf()
}

/// The row intervals of all pairs whose diamond meets row `y`, in input
/// order.
pub open spec fn row_ivs(pairs: Seq<Pair>, y: int) -> Seq<Interval>
    decreases pairs.len(),
{
    if pairs.len() == 0 {
        Seq::empty()
    } else {
        row_ivs(pairs.drop_last(), y) + match pairs.last().spec_row_interval(y) {
            Some(iv) => seq![iv],
            None => Seq::empty(),
        }
    }
}

/// As `row_ivs`, restricted to intervals that intersect `[lo, hi]`.
pub open spec fn row_ivs_within(pairs: Seq<Pair>, y: int, lo: int, hi: int) -> Seq<Interval>
    decreases pairs.len(),
{
    if pairs.len() == 0 {
        Seq::empty()
    } else {
        row_ivs_within(pairs.drop_last(), y, lo, hi) + match pairs.last().spec_row_interval(y) {
            Some(iv) => if iv.start <= hi && lo <= iv.end {
                seq![iv]
            } else {
                Seq::empty()
            },
            None => Seq::empty(),
        }
    }
}

/// Collect the row intervals of all pairs for row `y`.
pub fn collect_row_intervals(pairs: &Vec<Pair>, y: i64) -> (r: Vec<Interval>)
    requires
        all_pairs_wf(pairs@),
        coord_ok(y),
    ensures
        r@ == row_ivs(pairs@, y as int),
        all_wf(r@),
{
    let mut out: Vec<Interval> = Vec::new();
    let mut i: usize = 0;
    proof {
        assert(pairs@.subrange(0, 0) =~= Seq::<Pair>::empty());
    }
    while i < pairs.len()
        invariant
            0 <= i <= pairs@.len(),
            all_pairs_wf(pairs@),
            coord_ok(y),
            out@ == row_ivs(pairs@.subrange(0, i as int), y as int),
            all_wf(out@),
        decreases pairs@.len() - i,
    {
        let ghost p1 = pairs@.subrange(0, i as int);
        let ghost p2 = pairs@.subrange(0, i + 1);
        match pairs[i].row_interval(y) {
            Some(iv) => {
                out.push(iv);
            },
            None => {},
        }
        proof {
            assert(p2.drop_last() =~= p1);
            assert(p2.last() == pairs@[i as int]);
            assert(row_ivs(p2, y as int) == row_ivs(p1, y as int)
                + match pairs@[i as int].spec_row_interval(y as int) {
                Some(iv) => seq![iv],
                None => Seq::<Interval>::empty(),
            });
            assert(out@ =~= row_ivs(p2, y as int));
        }
        i += 1;
    }
    proof {
        assert(pairs@.subrange(0, i as int) =~= pairs@);
    }
    out
}

/// Collect the row intervals for row `y` that intersect `[lo, hi]`.
pub fn collect_row_intervals_within(pairs: &Vec<Pair>, y: i64, lo: i64, hi: i64) -> (r: Vec<
    Interval,
>)
    requires
        all_pairs_wf(pairs@),
        coord_ok(y),
    ensures
        r@ == row_ivs_within(pairs@, y as int, lo as int, hi as int),
        all_wf(r@),
{
    let mut out: Vec<Interval> = Vec::new();
    let mut i: usize = 0;
    proof {
        assert(pairs@.subrange(0, 0) =~= Seq::<Pair>::empty());
    }
    while i < pairs.len()
        invariant
            0 <= i <= pairs@.len(),
            all_pairs_wf(pairs@),
            coord_ok(y),
            out@ == row_ivs_within(pairs@.subrange(0, i as int), y as int, lo as int, hi as int),
            all_wf(out@),
        decreases pairs@.len() - i,
    {
        let ghost p1 = pairs@.subrange(0, i as int);
        let ghost p2 = pairs@.subrange(0, i + 1);
        match pairs[i].row_interval(y) {
            Some(iv) => {
                if iv.start <= hi && lo <= iv.end {
                    out.push(iv);
                }
            },
            None => {},
        }
        proof {
            assert(p2.drop_last() =~= p1);
            assert(p2.last() == pairs@[i as int]);
            assert(row_ivs_within(p2, y as int, lo as int, hi as int) == row_ivs_within(
                p1,
                y as int,
                lo as int,
                hi as int,
            ) + match pairs@[i as int].spec_row_interval(y as int) {
                Some(iv) => if iv.start <= hi && lo <= iv.end {
                    seq![iv]
                } else {
                    Seq::<Interval>::empty()
                },
                None => Seq::<Interval>::empty(),
            });
            assert(out@ =~= row_ivs_within(p2, y as int, lo as int, hi as int));
        }
        i += 1;
    }
    proof {
        assert(pairs@.subrange(0, i as int) =~= pairs@);
    }
    out
}

/// Shape of a row's merged coverage against the scan bound `[lo, hi]`.
#[derive(Clone, Copy, Debug, PartialEq, Eq, Structural)]
pub enum RowShape {
    /// A single interval subsumes the whole bound: nothing uncovered here.
    Covered,
    /// Exactly two intervals separated by a single free column: that
    /// column is the uncovered position.
    Gap(i64),
    /// Any other shape breaks the uniqueness guarantee the caller owes.
    Violation,
}

/// The shape of a merged (separated, ascending) interval list with respect
/// to the bound `[lo, hi]`.
pub open spec fn shape_of(m: Seq<Interval>, lo: int, hi: int) -> RowShape {
    if m.len() == 1 && m[0].start <= lo && hi <= m[0].end {
        RowShape::Covered
    } else if m.len() == 2 && m[0].end + 2 == m[1].start {
        RowShape::Gap((m[0].end + 1) as i64)
    } else {
        RowShape::Violation
    }
}

/// Classify a row's merged coverage: fully covered, a single free column,
/// or a shape that violates the uniqueness guarantee.
pub fn classify_row(merged: &Vec<Interval>, lo: i64, hi: i64) -> (r: RowShape)
    ensures
        r == shape_of(merged@, lo as int, hi as int),
{
    if merged.len() == 1 {
        let iv = merged[0];
        if iv.start <= lo && hi <= iv.end {
            RowShape::Covered
        } else {
            RowShape::Violation
        }
    } else if merged.len() == 2 {
        let first = merged[0];
        let second = merged[1];
        match first.end.checked_add(2) {
            Some(v) => {
                if v == second.start {
                    RowShape::Gap(first.end + 1)
                } else {
                    RowShape::Violation
                }
            },
            None => RowShape::Violation,
        }
    } else {
        RowShape::Violation
    }
}

/// A precondition violation: a row whose merged coverage does not have one
/// of the shapes the puzzle guarantees, reported with the offending row and
/// its merged interval list.
#[derive(Debug)]
pub struct CoverageError {
    pub row: i64,
    pub intervals: Vec<Interval>,
}

/// The merged coverage of row `row`, over all pairs.
pub open spec fn row_coverage(pairs: Seq<Pair>, row: int) -> Seq<Interval> {
    merged_of(row_ivs(pairs, row))
}

/// The merged coverage of row `y` restricted to intervals meeting
/// `[lo, hi]`.
pub open spec fn row_coverage_within(pairs: Seq<Pair>, y: int, lo: int, hi: int) -> Seq<Interval> {
    merged_of(row_ivs_within(pairs, y, lo, hi))
}

/// The shape of row `y`'s bounded coverage.
pub open spec fn row_shape(pairs: Seq<Pair>, y: int, lo: int, hi: int) -> RowShape {
    shape_of(row_coverage_within(pairs, y, lo, hi), lo, hi)
}

/// All rows of `[lo, hi]` before `y` are fully covered.
pub open spec fn rows_covered_before(pairs: Seq<Pair>, lo: int, hi: int, y: int) -> bool {
    forall|yy: int| lo <= yy < y ==> row_shape(pairs, yy, lo, hi) is Covered
}

/// Count of positions on `row` that are certainly excluded and not known
/// to hold an object: the merged coverage of the row must be a single
/// interval (else the caller broke the puzzle's guarantee and the offending
/// row is reported); its inclusive length minus the count of known objects
/// on the row, which the caller supplies, is returned.
pub fn count_excluded(pairs: &Vec<Pair>, row: i64, known_objects_on_row: u64) -> (r: Result<
    u64,
    CoverageError,
>)
    requires
        all_pairs_wf(pairs@),
        coord_ok(row),
        row_coverage(pairs@, row as int).len() == 1 ==> {
            let iv = row_coverage(pairs@, row as int)[0];
            &&& known_objects_on_row <= iv.spec_len()
            &&& iv.spec_len() - known_objects_on_row <= u64::MAX
        },
    ensures
        ({
            let m = row_coverage(pairs@, row as int);
            &&& (r is Ok <==> m.len() == 1)
            &&& (r matches Ok(n) ==> n == m[0].spec_len() - known_objects_on_row)
            &&& (r matches Err(e) ==> m.len() != 1 && e.row == row && e.intervals@ == m)
        }),
{
    let ivs = collect_row_intervals(pairs, row);
    let merged = merge_all(ivs);
    if merged.len() == 1 {
        let iv = merged[0];
        let len: i128 = iv.end as i128 - iv.start as i128 + 1;
        proof {
            assert(len == iv.spec_len());
        }
        Ok((len - known_objects_on_row as i128) as u64)
    } else {
        Err(CoverageError { row, intervals: merged })
    }
}

/// Scan the rows of the square `[lo, hi] x [lo, hi]` in ascending order for
/// the single uncovered position.
///
/// Every fully covered row is passed over; the first row that is not fully
/// covered decides the result: a unit gap yields the uncovered position,
/// any other shape is a precondition violation reported with that row. A
/// scan that exhausts the bound (in particular an empty bound) yields
/// `None`.
pub fn find_gap(pairs: &Vec<Pair>, bound_min: i64, bound_max: i64) -> (r: Result<
    Option<(i64, i64)>,
    CoverageError,
>)
    requires
        all_pairs_wf(pairs@),
        coord_ok(bound_min),
        coord_ok(bound_max),
    ensures
        ({
            let lo = bound_min as int;
            let hi = bound_max as int;
            &&& (r matches Ok(p) ==> (p matches Some(pt) ==> {
                &&& lo <= pt.1 <= hi
                &&& rows_covered_before(pairs@, lo, hi, pt.1 as int)
                &&& row_shape(pairs@, pt.1 as int, lo, hi) == RowShape::Gap(pt.0)
            }))
            &&& (r matches Ok(p) ==> (p is None ==> rows_covered_before(pairs@, lo, hi, hi + 1)))
            &&& (r matches Err(e) ==> {
                &&& lo <= e.row <= hi
                &&& rows_covered_before(pairs@, lo, hi, e.row as int)
                &&& row_shape(pairs@, e.row as int, lo, hi) is Violation
                &&& e.intervals@ == row_coverage_within(pairs@, e.row as int, lo, hi)
            })
        }),
{
    if bound_min > bound_max {
        return Ok(None);
    }
    let mut y = bound_min;
    while y <= bound_max
        invariant
            all_pairs_wf(pairs@),
            coord_ok(bound_min),
            coord_ok(bound_max),
            bound_min <= y <= bound_max + 1,
            rows_covered_before(pairs@, bound_min as int, bound_max as int, y as int),
        decreases bound_max - y + 1,
    {
        let ivs = collect_row_intervals_within(pairs, y, bound_min, bound_max);
        let merged = merge_all(ivs);
        match classify_row(&merged, bound_min, bound_max) {
            RowShape::Covered => {
                proof {
                    let lo = bound_min as int;
                    let hi = bound_max as int;
                    assert forall|yy: int| lo <= yy < y + 1 implies row_shape(
                        pairs@,
                        yy,
                        lo,
                        hi,
                    ) is Covered by {
                        if yy == y as int {
                            assert(merged@ == row_coverage_within(pairs@, yy, lo, hi));
                        }
                    }
                }
            },
            RowShape::Gap(x) => {
                return Ok(Some((x, y)));
            },
            RowShape::Violation => {
                return Err(CoverageError { row: y, intervals: merged });
            },
        }
        y += 1;
    }
    Ok(None)
}

} // verus!
