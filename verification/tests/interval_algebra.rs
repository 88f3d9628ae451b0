use aoc22::interval::Interval;
use aoc22::merge::merge_all;

fn iv(start: i64, end: i64) -> Interval {
    Interval { start, end }
}

#[test]
fn merge_is_some_iff_overlaps() {
    let cases = [
        (iv(1, 3), iv(2, 5)),
        (iv(1, 3), iv(3, 5)),
        (iv(1, 3), iv(4, 6)),
        (iv(1, 3), iv(5, 9)),
        (iv(4, 6), iv(1, 3)),
        (iv(1, 9), iv(3, 4)),
        (iv(-5, -1), iv(-1, 2)),
    ];
    for (a, b) in cases {
        assert_eq!(a.merge(&b).is_some(), a.overlaps(&b));
        assert_eq!(a.merge(&b), b.merge(&a));
    }
}

#[test]
fn merge_spans_both_inputs() {
    let a = iv(1, 4);
    let b = iv(3, 9);
    let m = a.merge(&b).unwrap();
    assert_eq!(m, iv(1, 9));
    assert!(m.subsumes(&a));
    assert!(m.subsumes(&b));
}

#[test]
fn touching_intervals_merge_but_unit_gap_does_not() {
    // sharing the single integer 3 counts as overlap
    assert_eq!(iv(1, 3).merge(&iv(3, 6)), Some(iv(1, 6)));
    // a gap of exactly one integer (4) is preserved
    assert_eq!(iv(1, 3).merge(&iv(5, 6)), None);
    // adjacency without a shared integer is not overlap either
    assert_eq!(iv(1, 3).merge(&iv(4, 6)), None);
}

#[test]
fn subsumes_on_nested_and_shifted() {
    assert!(iv(0, 10).subsumes(&iv(2, 5)));
    assert!(iv(0, 10).subsumes(&iv(0, 10)));
    assert!(!iv(0, 10).subsumes(&iv(2, 11)));
    assert!(!iv(2, 5).subsumes(&iv(0, 10)));
}

#[test]
fn merge_all_sorts_and_merges() {
    let merged = merge_all(vec![iv(8, 10), iv(1, 3), iv(2, 6)]);
    assert_eq!(merged, vec![iv(1, 6), iv(8, 10)]);
}

#[test]
fn merge_all_chains_through_running_interval() {
    // the third interval overlaps the merged result of the first two,
    // but not the raw interval right before it
    let merged = merge_all(vec![iv(1, 10), iv(2, 3), iv(9, 12)]);
    assert_eq!(merged, vec![iv(1, 12)]);
}

#[test]
fn merge_all_keeps_adjacent_intervals_apart() {
    let merged = merge_all(vec![iv(4, 6), iv(1, 3)]);
    assert_eq!(merged, vec![iv(1, 3), iv(4, 6)]);
}

#[test]
fn merge_all_of_nothing_is_nothing() {
    let merged = merge_all(Vec::new());
    assert!(merged.is_empty());
}

#[test]
fn merge_all_is_order_independent() {
    let a = vec![iv(5, 7), iv(-3, 0), iv(6, 11), iv(20, 25), iv(0, 2)];
    let b = vec![iv(0, 2), iv(20, 25), iv(6, 11), iv(-3, 0), iv(5, 7)];
    let c = vec![iv(20, 25), iv(5, 7), iv(0, 2), iv(-3, 0), iv(6, 11)];
    let expected = vec![iv(-3, 2), iv(5, 11), iv(20, 25)];
    assert_eq!(merge_all(a), expected);
    assert_eq!(merge_all(b), expected);
    assert_eq!(merge_all(c), expected);
}
