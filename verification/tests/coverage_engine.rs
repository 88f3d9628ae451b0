use aoc22::coverage::{
    classify_row, count_excluded, find_gap, Pair, Point, RowShape,
};
use aoc22::interval::Interval;

fn iv(start: i64, end: i64) -> Interval {
    Interval { start, end }
}

fn pair(sx: i64, sy: i64, bx: i64, by: i64) -> Pair {
    Pair::new(Point::new(sx, sy), Point::new(bx, by))
}

/// The classic fourteen-sensor example grid.
fn example_pairs() -> Vec<Pair> {
    vec![
        pair(2, 18, -2, 15),
        pair(9, 16, 10, 16),
        pair(13, 2, 15, 3),
        pair(12, 14, 10, 16),
        pair(10, 20, 10, 16),
        pair(14, 17, 10, 16),
        pair(8, 7, 2, 10),
        pair(2, 0, 2, 10),
        pair(0, 11, 2, 10),
        pair(20, 14, 25, 17),
        pair(17, 20, 21, 22),
        pair(16, 7, 15, 3),
        pair(14, 3, 15, 3),
        pair(20, 1, 15, 3),
    ]
}

#[test]
fn row_interval_round_trip() {
    // sensor (8,7), excluded point (2,10): manhattan = 6 + 3 = 9
    let p = pair(8, 7, 2, 10);
    assert_eq!(p.manhattan(), 9);
    // the sensor row itself gets the full-width interval
    assert_eq!(p.row_interval(7), Some(iv(-1, 17)));
    // |16 - 7| equals the manhattan distance: a single-cell interval
    assert_eq!(p.row_interval(16), Some(iv(8, 8)));
    // one row further the diamond is left behind
    assert_eq!(p.row_interval(17), None);
}

#[test]
fn row_interval_none_exactly_outside_diamond() {
    let p = pair(0, 0, 3, 0);
    for y in -10i64..=10 {
        let r = p.row_interval(y);
        if y.abs() > 3 {
            assert!(r.is_none());
        } else {
            let rem = 3 - y.abs();
            let got = r.unwrap();
            assert_eq!(got, iv(-rem, rem));
            assert_eq!(got.end - got.start + 1, 2 * rem + 1);
        }
    }
}

#[test]
fn is_too_far_matches_row_interval() {
    let p = pair(5, 5, 5, 9);
    for y in -5i64..=15 {
        assert_eq!(p.is_too_far(y), p.row_interval(y).is_none());
    }
}

#[test]
fn part1_row_ten_counts_twenty_six() {
    // one known object (the excluded point itself) sits on row 10
    let pairs = example_pairs();
    assert_eq!(count_excluded(&pairs, 10, 1).unwrap(), 26);
}

#[test]
fn part2_finds_the_distress_position() {
    let pairs = example_pairs();
    assert_eq!(find_gap(&pairs, 0, 20).unwrap(), Some((14, 11)));
}

#[test]
fn empty_bound_scan_returns_none() {
    let pairs = example_pairs();
    assert_eq!(find_gap(&pairs, 5, 3).unwrap(), None);
}

#[test]
fn fully_covered_bound_returns_none() {
    // one wide diamond covers the whole square: no gap to find
    let pairs = vec![pair(5, 5, 5, 25)];
    assert_eq!(find_gap(&pairs, 0, 10).unwrap(), None);
}

#[test]
fn classify_row_detects_the_unit_gap() {
    assert_eq!(classify_row(&vec![iv(0, 13), iv(15, 20)], 0, 20), RowShape::Gap(14));
    assert_eq!(classify_row(&vec![iv(-3, 25)], 0, 20), RowShape::Covered);
}

#[test]
fn classify_row_rejects_three_interval_shape() {
    // a synthetic three-interval, non-adjacent row must be flagged as a
    // violation, not silently treated as a gap
    let merged = vec![iv(0, 2), iv(5, 7), iv(10, 12)];
    assert_eq!(classify_row(&merged, 0, 12), RowShape::Violation);
}

#[test]
fn classify_row_rejects_wide_gap() {
    assert_eq!(classify_row(&vec![iv(0, 5), iv(9, 20)], 0, 20), RowShape::Violation);
    assert_eq!(classify_row(&vec![iv(2, 18)], 0, 20), RowShape::Violation);
}

#[test]
fn find_gap_reports_the_offending_row() {
    // three separate diamonds leave a three-interval shape on every row of
    // the bound: the scan must fail on the first row, reporting it
    let pairs = vec![
        pair(0, 0, 0, 2),
        pair(10, 0, 10, 2),
        pair(20, 0, 20, 2),
    ];
    let err = find_gap(&pairs, 0, 20).unwrap_err();
    assert_eq!(err.row, 0);
    assert_eq!(err.intervals, vec![iv(-2, 2), iv(8, 12), iv(18, 22)]);
}

#[test]
fn count_excluded_reports_split_coverage() {
    // two diamonds far apart: row coverage is two intervals, which part 1
    // treats as a broken precondition
    let pairs = vec![pair(0, 0, 0, 2), pair(100, 0, 100, 2)];
    let err = count_excluded(&pairs, 0, 0).unwrap_err();
    assert_eq!(err.row, 0);
    assert_eq!(err.intervals, vec![iv(-2, 2), iv(98, 102)]);
}

#[test]
fn count_excluded_single_sensor_row() {
    let pairs = vec![pair(8, 7, 2, 10)];
    // row 7: interval [-1, 17], 19 cells, no known objects subtracted
    assert_eq!(count_excluded(&pairs, 7, 0).unwrap(), 19);
    // subtracting one known object
    assert_eq!(count_excluded(&pairs, 7, 1).unwrap(), 18);
}
