use aoc22::supply::{perform_commands, Command, CrateMover, Ship};

fn example_stacks() -> Vec<Vec<char>> {
    vec![vec!['Z', 'N'], vec!['M', 'C', 'D'], vec!['P']]
}

fn example_commands() -> Vec<Command> {
    vec![
        Command { crates: 1, from_stack: 2, to_stack: 1 },
        Command { crates: 3, from_stack: 1, to_stack: 3 },
        Command { crates: 2, from_stack: 2, to_stack: 1 },
        Command { crates: 1, from_stack: 1, to_stack: 2 },
    ]
}

#[test]
fn one_at_a_time_crane_reverses() {
    let mut ship = Ship { stacks: example_stacks(), crate_mover: CrateMover::CM9000 };
    let tops = perform_commands(&mut ship, &example_commands());
    assert_eq!(tops, vec!['C', 'M', 'Z']);
    assert_eq!(ship.stacks, vec![vec!['C'], vec!['M'], vec!['P', 'D', 'N', 'Z']]);
}

#[test]
fn block_lifting_crane_keeps_order() {
    let mut ship = Ship { stacks: example_stacks(), crate_mover: CrateMover::CM9001 };
    let tops = perform_commands(&mut ship, &example_commands());
    assert_eq!(tops, vec!['M', 'C', 'D']);
}

#[test]
fn moving_a_stack_onto_itself_changes_nothing() {
    let mut ship = Ship { stacks: example_stacks(), crate_mover: CrateMover::CM9000 };
    let noop = vec![Command { crates: 2, from_stack: 2, to_stack: 2 }];
    let tops = perform_commands(&mut ship, &noop);
    assert_eq!(ship.stacks, example_stacks());
    assert_eq!(tops, vec!['N', 'D', 'P']);
}
