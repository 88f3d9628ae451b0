use aoc22::calories::{part1_most_calories_carried, part2_most_calories_carried_by_3_elves};

fn input() -> Vec<Vec<u64>> {
    vec![
        vec![1000, 2000, 3000],
        vec![4000],
        vec![5000, 6000],
        vec![7000, 8000, 9000],
        vec![10000],
    ]
}

#[test]
fn test_part1() {
    assert_eq!(24000, part1_most_calories_carried(&input()));
}

#[test]
fn test_part2() {
    assert_eq!(45000, part2_most_calories_carried_by_3_elves(&input()));
}

#[test]
fn top_three_with_fewer_carriers() {
    assert_eq!(part2_most_calories_carried_by_3_elves(&vec![vec![5, 5]]), 10);
    assert_eq!(part2_most_calories_carried_by_3_elves(&Vec::new()), 0);
}

#[test]
fn most_calories_of_empty_list_is_zero() {
    assert_eq!(part1_most_calories_carried(&Vec::new()), 0);
}
