use aoc22::cleanup;
use aoc22::crt;
use aoc22::crt::{crt_draw, perform_instructions, Cpu, Instruction};
use aoc22::interval::Interval;
use aoc22::matrix::{Direction, Matrix};
use aoc22::rps::{
    hand_value, outcome_value, part1_total_score, part2_total_score, Hand, Outcome, Part1Round,
    Part2Round,
};
use aoc22::rope;
use aoc22::rope::Direction::{Bottom, Left, Right, Top};
use aoc22::rope::{Rope, WeightedDirection};
use aoc22::signal::{distinct_n_char_location, has_unique_elements};

fn iv(start: i64, end: i64) -> Interval {
    Interval { start, end }
}

#[test]
fn rps_values() {
    assert_eq!(hand_value(Hand::Rock), 1);
    assert_eq!(hand_value(Hand::Paper), 2);
    assert_eq!(hand_value(Hand::Scissors), 3);
    assert_eq!(outcome_value(Outcome::Win), 6);
    assert_eq!(outcome_value(Outcome::Draw), 3);
    assert_eq!(outcome_value(Outcome::Loss), 0);
}

#[test]
fn rps_part1_example_scores_fifteen() {
    // A Y, B X, C Z
    let rounds = vec![
        Part1Round { opponent: Hand::Rock, player: Hand::Paper },
        Part1Round { opponent: Hand::Paper, player: Hand::Rock },
        Part1Round { opponent: Hand::Scissors, player: Hand::Scissors },
    ];
    assert_eq!(rounds[0].score(), 8);
    assert_eq!(rounds[1].score(), 1);
    assert_eq!(rounds[2].score(), 6);
    assert_eq!(part1_total_score(&rounds), 15);
}

#[test]
fn rps_part2_example_scores_twelve() {
    let rounds = vec![
        Part2Round { opponent: Hand::Rock, required_outcome: Outcome::Draw },
        Part2Round { opponent: Hand::Paper, required_outcome: Outcome::Loss },
        Part2Round { opponent: Hand::Scissors, required_outcome: Outcome::Win },
    ];
    assert_eq!(rounds[0].required_hand(), Hand::Rock);
    assert_eq!(rounds[1].required_hand(), Hand::Rock);
    assert_eq!(rounds[2].required_hand(), Hand::Rock);
    assert_eq!(part2_total_score(&rounds), 12);
}

#[test]
fn cleanup_counts_containment_and_overlap() {
    // 2-4,6-8  2-3,4-5  5-7,7-9  2-8,3-7  6-6,4-6  2-6,4-8
    let ranges = vec![
        (iv(2, 4), iv(6, 8)),
        (iv(2, 3), iv(4, 5)),
        (iv(5, 7), iv(7, 9)),
        (iv(2, 8), iv(3, 7)),
        (iv(6, 6), iv(4, 6)),
        (iv(2, 6), iv(4, 8)),
    ];
    assert_eq!(cleanup::part1(&ranges), 2);
    assert_eq!(cleanup::part2(&ranges), 4);
}

#[test]
fn signal_markers() {
    let chars = |s: &str| s.chars().collect::<Vec<char>>();
    assert_eq!(distinct_n_char_location(&chars("mjqjpqmgbljsphdztnvjfqwrcgsmlb"), 4), Some(7));
    assert_eq!(distinct_n_char_location(&chars("bvwbjplbgvbhsrlpgdmjqwftvncz"), 4), Some(5));
    assert_eq!(distinct_n_char_location(&chars("nppdvjthqldpwncqszvftbrmjlhg"), 4), Some(6));
    assert_eq!(distinct_n_char_location(&chars("mjqjpqmgbljsphdztnvjfqwrcgsmlb"), 14), Some(19));
    assert_eq!(distinct_n_char_location(&chars("aaaaaa"), 4), None);
}

#[test]
fn signal_uniqueness_check() {
    assert!(has_unique_elements(&vec!['a', 'b', 'c']));
    assert!(!has_unique_elements(&vec!['a', 'b', 'a']));
    assert!(has_unique_elements(&Vec::new()));
}

#[test]
fn cpu_records_each_cycle() {
    // the small three-instruction example: noop, addx 3, addx -5
    let mut cpu = Cpu::default();
    perform_instructions(
        &mut cpu,
        vec![Instruction::NoOp, Instruction::AddX(3), Instruction::AddX(-5)],
    );
    assert_eq!(cpu.register, -1);
    assert_eq!(cpu.sprite_positions, vec![1, 1, 1, 4, 4, -1]);
}

#[test]
fn signal_strength_samples_every_fortieth_cycle() {
    // register recording with known values at cycles 20 and 60
    let mut sprites = vec![1i64; 60];
    sprites[19] = 5;
    sprites[59] = 7;
    let cpu = Cpu { register: 7, sprite_positions: sprites };
    assert_eq!(crt::part1(&cpu), 20 * 5 + 60 * 7);
}

#[test]
fn crt_renders_rows_of_forty() {
    // 41 cycles with the sprite parked at column 1: the first three pixels
    // lit, the rest of the row dark, then a new row starting lit
    let cpu = Cpu { register: 1, sprite_positions: vec![1i64; 41] };
    let expected: Vec<char> =
        format!("###{}\n#", ".".repeat(37)).chars().collect();
    assert_eq!(crt::part2(&cpu), expected);
}

#[test]
fn crt_draws_sprite_overlap() {
    // cycle 1 lights column 0; a sprite centred at 1 covers it
    assert_eq!(crt_draw(1, 1), '#');
    // a sprite centred at 5 leaves column 0 dark
    assert_eq!(crt_draw(1, 5), '.');
    // cycle 41 wraps to column 0 again
    assert_eq!(crt_draw(41, 1), '#');
}

fn wd(direction: rope::Direction, weight: u64) -> WeightedDirection {
    WeightedDirection { direction, weight }
}

fn rope_example() -> Vec<WeightedDirection> {
    vec![
        wd(Right, 4),
        wd(Top, 4),
        wd(Left, 3),
        wd(Bottom, 1),
        wd(Right, 4),
        wd(Bottom, 1),
        wd(Left, 5),
        wd(Right, 2),
    ]
}

#[test]
fn rope_tail_follows_head() {
    let mut r = Rope::new(2);
    assert_eq!(r.length(), 2);
    r.move_head(rope::Direction::Right);
    assert_eq!(r.tail_location(0), (1, 0));
    assert_eq!(r.tail_location(1), (0, 0));
    r.move_head(rope::Direction::Right);
    // two cells behind: the tail is dragged one step
    assert_eq!(r.tail_location(0), (2, 0));
    assert_eq!(r.tail_location(1), (1, 0));
    r.move_head(rope::Direction::Top);
    // diagonal offsets within one cell leave the tail in place
    assert_eq!(r.tail_location(0), (2, 1));
    assert_eq!(r.tail_location(1), (1, 0));
}

#[test]
fn rope_short_example_visits_thirteen() {
    assert_eq!(rope::part1(&rope_example()), 13);
}

#[test]
fn rope_long_tail_visits() {
    assert_eq!(rope::part2(&rope_example()), 1);
    let larger = vec![
        wd(Right, 5),
        wd(Top, 8),
        wd(Left, 8),
        wd(Bottom, 3),
        wd(Right, 17),
        wd(Bottom, 10),
        wd(Left, 25),
        wd(Top, 20),
    ];
    assert_eq!(rope::part2(&larger), 36);
}

#[test]
fn matrix_access_and_walks() {
    let m = Matrix::from_rows(vec![vec![1u8, 2, 3], vec![4, 5, 6], vec![7, 8, 9]]);
    assert_eq!(m.number_of_rows(), 3);
    assert_eq!(m.number_of_cols(), 3);
    assert_eq!(m.get((1, 2)), Some(&6));
    assert_eq!(m.get((3, 0)), None);
    assert_eq!(m.get((0, 3)), None);

    let mut it = m.elements_to_right((1, 0));
    assert_eq!(it.next(), Some(&5));
    assert_eq!(it.next(), Some(&6));
    assert_eq!(it.next(), None);

    let mut it = m.elements_to_top((2, 1));
    assert_eq!(it.next(), Some(&5));
    assert_eq!(it.next(), Some(&2));
    assert_eq!(it.next(), None);

    let mut it = m.elements_in_direction((0, 0), Direction::Bottom);
    assert_eq!(it.next(), Some(&4));
    assert_eq!(it.next(), Some(&7));
    assert_eq!(it.next(), None);

    let mut it = m.elements_to_left((0, 0));
    assert_eq!(it.next(), None);

    let mut it = m.elements_to_bottom((2, 2));
    assert_eq!(it.next(), None);
}
