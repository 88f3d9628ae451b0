//! Crate stacks rearranged by move commands: one crane moves crates one at
//! a time (reversing them), the newer model lifts the whole block at once
//! (keeping their order). The answer is the crate on top of each stack.

use vstd::prelude::*;

verus! {

/// The crane model doing the moves.
#[derive(Clone, Copy, Debug, PartialEq, Eq, Structural)]
pub enum CrateMover {
    CM9000,
    CM9001,
}

/// Move `crates` crates from stack `from_stack` to stack `to_stack`, both
/// numbered from one.
#[derive(Clone, Copy, Debug, PartialEq, Eq, Structural)]
pub struct Command {
    pub crates: usize,
    pub from_stack: usize,
    pub to_stack: usize,
}

/// The stacks of crates (each crate a single letter) and the crane model
/// that moves them.
#[derive(Debug)]
pub struct Ship {
    pub stacks: Vec<Vec<char>>,
    pub crate_mover: CrateMover,
}

/// The command names existing stacks and does not move more crates than
/// the source holds.
pub open spec fn spec_command_ok(stacks: Seq<Seq<char>>, c: Command) -> bool {
    &&& 1 <= c.from_stack <= stacks.len()
    &&& 1 <= c.to_stack <= stacks.len()
    &&& c.crates <= stacks[c.from_stack - 1].len()
}

/// The stacks after one command: the top `crates` of the source move to
/// the target, reversed by the one-at-a-time crane and kept in order by
/// the block-lifting one. Moving a stack onto itself leaves it unchanged.
pub open spec fn spec_move_crates(stacks: Seq<Seq<char>>, mover: CrateMover, c: Command) -> Seq<
    Seq<char>,
> {
    let from = c.from_stack - 1;
    let to = c.to_stack - 1;
    if from == to {
        stacks
    } else {
        let src = stacks[from];
        let kept = src.subrange(0, src.len() - c.crates);
        let moved = src.subrange(src.len() - c.crates, src.len() as int);
        let arriving = match mover {
            CrateMover::CM9000 => moved.reverse(),
            CrateMover::CM9001 => moved,
        };
        stacks.update(from, kept).update(to, stacks[to] + arriving)
    }
}

impl Ship {
    /// The stacks as mathematical sequences.
    pub open spec fn stack_views(&self) -> Seq<Seq<char>> {
        self.stacks@.map_values(|v: Vec<char>| v@)
    }

    /// Carry out one move command with the ship's crane.
    pub fn move_crates(&mut self, command: &Command)
        requires
            spec_command_ok(old(self).stack_views(), *command),
        ensures
            final(self).crate_mover == old(self).crate_mover,
            final(self).stack_views() == spec_move_crates(
                old(self).stack_views(),
                old(self).crate_mover,
                *command,
            ),
    {
        let ghost sv0 = self.stack_views();
        let ghost src = sv0[command.from_stack - 1];
        let from = command.from_stack - 1;
        let to = command.to_stack - 1;
        if from == to {
            return;
        }
        proof {
            assert(sv0[from as int] == self.stacks@[from as int]@);
        }
        let final_length = self.stacks[from].len() - command.crates;
        let moved = self.stacks[from].split_off(final_length);
        proof {
            assert(self.stacks@[from as int]@ == src.subrange(0, src.len() - command.crates));
            assert(moved@ == src.subrange(src.len() - command.crates, src.len() as int));
        }
        let mut arriving: Vec<char> = match self.crate_mover {
            CrateMover::CM9000 => {
                let ghost moved0 = moved@;
                let mut stack = moved;
                let mut rev: Vec<char> = Vec::new();
                proof {
                    assert(stack@ =~= moved0.subrange(0, stack@.len() as int));
                    assert(rev@ =~= moved0.subrange(
                        stack@.len() as int,
                        moved0.len() as int,
                    ).reverse());
                }
                while stack.len() > 0
                    invariant
                        stack@.len() <= moved0.len(),
                        stack@ == moved0.subrange(0, stack@.len() as int),
                        rev@ == moved0.subrange(stack@.len() as int, moved0.len() as int).reverse(),
                    decreases stack@.len(),
                {
                    let ghost k = stack@.len() as int;
                    let c = stack.pop().unwrap();
                    rev.push(c);
                    proof {
                        assert(c == moved0[k - 1]);
                        assert(stack@ =~= moved0.subrange(0, k - 1));
                        assert(rev@ =~= moved0.subrange(k - 1, moved0.len() as int).reverse());
                    }
                }
                proof {
                    assert(rev@ =~= moved0.reverse());
                }
                rev
            },
            CrateMover::CM9001 => moved,
        };
        let ghost arrived = arriving@;
        self.stacks[to].append(&mut arriving);
        proof {
            let target = spec_move_crates(sv0, old(self).crate_mover, *command);
            assert(self.stacks@[to as int]@ == sv0[to as int] + arrived);
            assert forall|i: int|
                0 <= i < self.stack_views().len() implies self.stack_views()[i] == target[i] by {
                assert(self.stack_views()[i] == self.stacks@[i]@);
                if i == from {
                    assert(self.stacks@[i]@ == src.subrange(0, src.len() - command.crates));
                } else if i == to {
                    assert(self.stacks@[i]@ == sv0[to as int] + arrived);
                } else {
                    assert(self.stacks@[i]@ == sv0[i]);
                }
            }
            assert(self.stack_views() =~= target);
        }
    }

    /// The crate on top of each stack, in stack order.
    pub fn get_top_crates(&self) -> (r: Vec<char>)
        requires
            forall|i: int| 0 <= i < self.stack_views().len() ==> self.stack_views()[i].len() > 0,
        ensures
            r@.len() == self.stack_views().len(),
            forall|i: int|
                0 <= i < r@.len() ==> r@[i] == self.stack_views()[i].last(),
    {
        let mut tops: Vec<char> = Vec::new();
        let mut i: usize = 0;
        while i < self.stacks.len()
            invariant
                0 <= i <= self.stacks@.len(),
                forall|t: int|
                    0 <= t < self.stack_views().len() ==> self.stack_views()[t].len() > 0,
                tops@.len() == i,
                forall|t: int| 0 <= t < i ==> tops@[t] == self.stack_views()[t].last(),
            decreases self.stacks@.len() - i,
        {
            let stack = &self.stacks[i];
            proof {
                assert(self.stack_views()[i as int] == self.stacks@[i as int]@);
            }
            tops.push(stack[stack.len() - 1]);
            i += 1;
        }
        tops
    }
}

/// The stacks after a sequence of commands, applied in order.
pub open spec fn spec_run_commands(
    stacks: Seq<Seq<char>>,
    mover: CrateMover,
    cmds: Seq<Command>,
) -> Seq<Seq<char>>
    decreases cmds.len(),
{
    if cmds.len() == 0 {
        stacks
    } else {
        spec_move_crates(spec_run_commands(stacks, mover, cmds.drop_last()), mover, cmds.last())
    }
}

/// Run every command, then read the crate on top of each stack.
pub fn perform_commands(ship: &mut Ship, commands: &Vec<Command>) -> (r: Vec<char>)
    requires
        forall|k: int|
            0 <= k < commands@.len() ==> spec_command_ok(
                spec_run_commands(
                    old(ship).stack_views(),
                    old(ship).crate_mover,
                    commands@.subrange(0, k),
                ),
                #[trigger] commands@[k],
            ),
        ({
            let done = spec_run_commands(old(ship).stack_views(), old(ship).crate_mover, commands@);
            forall|i: int| 0 <= i < done.len() ==> #[trigger] done[i].len() > 0
        }),
    ensures
        final(ship).crate_mover == old(ship).crate_mover,
        final(ship).stack_views() == spec_run_commands(
            old(ship).stack_views(),
            old(ship).crate_mover,
            commands@,
        ),
        r@.len() == final(ship).stack_views().len(),
        forall|i: int| 0 <= i < r@.len() ==> r@[i] == final(ship).stack_views()[i].last(),
{
    let ghost sv0 = ship.stack_views();
    let ghost mover = ship.crate_mover;
    let mut k: usize = 0;
    proof {
        assert(commands@.subrange(0, 0) =~= Seq::<Command>::empty());
    }
    while k < commands.len()
        invariant
            0 <= k <= commands@.len(),
            sv0 == old(ship).stack_views(),
            mover == old(ship).crate_mover,
            ship.crate_mover == mover,
            ship.stack_views() == spec_run_commands(sv0, mover, commands@.subrange(0, k as int)),
            forall|t: int|
                0 <= t < commands@.len() ==> spec_command_ok(
                    spec_run_commands(sv0, mover, commands@.subrange(0, t)),
                    #[trigger] commands@[t],
                ),
        decreases commands@.len() - k,
    {
        let command = commands[k];
        ship.move_crates(&command);
        proof {
            assert(commands@.subrange(0, k + 1).drop_last() =~= commands@.subrange(0, k as int));
            assert(commands@.subrange(0, k + 1).last() == commands@[k as int]);
        }
        k += 1;
    }
    proof {
        assert(commands@.subrange(0, k as int) =~= commands@);
    }
    ship.get_top_crates()
}

} // verus!
