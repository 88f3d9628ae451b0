use aoc22::rucksack::{item_priority, part1, part2, priority_of_overlapping_item};

fn chars(s: &str) -> Vec<char> {
    s.chars().collect()
}

fn example() -> Vec<Vec<char>> {
    vec![
        chars("vJrwpWtwJgWrhcsFMMfFFhFp"),
        chars("jqHRNqRjqzjGDLGLrsFMfFZSrLrFZsSL"),
        chars("PmmdzqPrVvPwwTWBwg"),
        chars("wMqvLMZHhHMvwLHjbvcjnnSBnvTQFn"),
        chars("ttgJtRGJQctTZtZT"),
        chars("CrZsJsPPZsGzwwsLwLmpwMDw"),
    ]
}

#[test]
fn priorities_of_letters() {
    assert_eq!(item_priority('a'), 1);
    assert_eq!(item_priority('z'), 26);
    assert_eq!(item_priority('A'), 27);
    assert_eq!(item_priority('Z'), 52);
    assert_eq!(item_priority('p'), 16);
    assert_eq!(item_priority('L'), 38);
}

#[test]
fn overlapping_item_per_rucksack() {
    let rucksacks = example();
    let expected = [16, 38, 42, 22, 20, 19];
    for (rucksack, want) in rucksacks.iter().zip(expected) {
        assert_eq!(priority_of_overlapping_item(rucksack), want);
    }
}

#[test]
fn rucksack_part1_sums_157() {
    assert_eq!(part1(&example()), 157);
}

#[test]
fn rucksack_part2_badges_sum_70() {
    assert_eq!(part2(&example()), 70);
}
