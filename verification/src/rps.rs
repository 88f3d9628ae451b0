//! Rock-paper-scissors scoring: a round is scored from the hand played and
//! the outcome it produces, either with both hands given or with the hand
//! derived from a required outcome.

use vstd::prelude::*;

verus! {

/// A hand shape.
#[derive(Clone, Copy, Debug, PartialEq, Eq, Structural)]
pub enum Hand {
    Rock,
    Paper,
    Scissors,
}

/// The outcome of a round from the player's side.
#[derive(Clone, Copy, Debug, PartialEq, Eq, Structural)]
pub enum Outcome {
    Win,
    Loss,
    Draw,
}

/// Score of the hand shape itself.
pub open spec fn spec_hand_value(hand: Hand) -> int {
    match hand {
        Hand::Rock => 1,
        Hand::Paper => 2,
        Hand::Scissors => 3,
    }
}

/// Score of the round's outcome.
pub open spec fn spec_outcome_value(outcome: Outcome) -> int {
    match outcome {
        Outcome::Win => 6,
        Outcome::Loss => 0,
        Outcome::Draw => 3,
    }
}

/// Score of the hand shape itself: 1 for rock, 2 for paper, 3 for
/// scissors.
pub fn hand_value(hand: Hand) -> (r: u64)
    ensures
        r == spec_hand_value(hand),
{
    match hand {
        Hand::Rock => 1,
        Hand::Paper => 2,
        Hand::Scissors => 3,
    }
}

/// Score of the round's outcome: 6 for a win, 3 for a draw, 0 for a loss.
pub fn outcome_value(outcome: Outcome) -> (r: u64)
    ensures
        r == spec_outcome_value(outcome),
{
    match outcome {
        Outcome::Win => 6,
        Outcome::Loss => 0,
        Outcome::Draw => 3,
    }
}

/// A round given as the opponent's hand and the player's hand.
#[derive(Clone, Copy, Debug, PartialEq, Eq, Structural)]
pub struct Part1Round {
    pub opponent: Hand,
    pub player: Hand,
}

impl Part1Round {
    /// The player's outcome against the opponent.
    pub open spec fn spec_outcome(&self) -> Outcome {
        match (self.player, self.opponent) {
            (Hand::Rock, Hand::Rock) => Outcome::Draw,
            (Hand::Rock, Hand::Paper) => Outcome::Loss,
            (Hand::Rock, Hand::Scissors) => Outcome::Win,
            (Hand::Paper, Hand::Rock) => Outcome::Win,
            (Hand::Paper, Hand::Paper) => Outcome::Draw,
            (Hand::Paper, Hand::Scissors) => Outcome::Loss,
            (Hand::Scissors, Hand::Rock) => Outcome::Loss,
            (Hand::Scissors, Hand::Paper) => Outcome::Win,
            (Hand::Scissors, Hand::Scissors) => Outcome::Draw,
        }
    }

    /// Total score of the round: hand value plus outcome value.
    pub open spec fn spec_score(&self) -> int {
        spec_hand_value(self.player) + spec_outcome_value(self.spec_outcome())
    }

    /// The player's outcome against the opponent: each shape beats the
    /// one it classically beats.
    pub fn outcome(&self) -> (r: Outcome)
        ensures
            r == self.spec_outcome(),
    {
        match (self.player, self.opponent) {
            (Hand::Rock, Hand::Rock) => Outcome::Draw,
            (Hand::Rock, Hand::Paper) => Outcome::Loss,
            (Hand::Rock, Hand::Scissors) => Outcome::Win,
            (Hand::Paper, Hand::Rock) => Outcome::Win,
            (Hand::Paper, Hand::Paper) => Outcome::Draw,
            (Hand::Paper, Hand::Scissors) => Outcome::Loss,
            (Hand::Scissors, Hand::Rock) => Outcome::Loss,
            (Hand::Scissors, Hand::Paper) => Outcome::Win,
            (Hand::Scissors, Hand::Scissors) => Outcome::Draw,
        }
    }

    /// Total score of the round.
    pub fn score(&self) -> (r: u64)
        ensures
            r == self.spec_score(),
            r <= 9,
    {
        hand_value(self.player) + outcome_value(self.outcome())
    }
}

/// A round given as the opponent's hand and the outcome the player must
/// reach.
#[derive(Clone, Copy, Debug, PartialEq, Eq, Structural)]
pub struct Part2Round {
    pub opponent: Hand,
    pub required_outcome: Outcome,
}

impl Part2Round {
    /// The hand the player must play to reach the required outcome.
    pub open spec fn spec_required_hand(&self) -> Hand {
        match (self.opponent, self.required_outcome) {
            (Hand::Rock, Outcome::Win) => Hand::Paper,
            (Hand::Rock, Outcome::Loss) => Hand::Scissors,
            (Hand::Rock, Outcome::Draw) => Hand::Rock,
            (Hand::Paper, Outcome::Win) => Hand::Scissors,
            (Hand::Paper, Outcome::Loss) => Hand::Rock,
            (Hand::Paper, Outcome::Draw) => Hand::Paper,
            (Hand::Scissors, Outcome::Win) => Hand::Rock,
            (Hand::Scissors, Outcome::Loss) => Hand::Paper,
            (Hand::Scissors, Outcome::Draw) => Hand::Scissors,
        }
    }

    /// Total score of the round: value of the forced hand plus the value
    /// of the required outcome.
    pub open spec fn spec_score(&self) -> int {
        spec_hand_value(self.spec_required_hand()) + spec_outcome_value(self.required_outcome)
    }

    /// The hand the player must play to reach the required outcome.
    pub fn required_hand(&self) -> (r: Hand)
        ensures
            r == self.spec_required_hand(),
    {
        match (self.opponent, self.required_outcome) {
            (Hand::Rock, Outcome::Win) => Hand::Paper,
            (Hand::Rock, Outcome::Loss) => Hand::Scissors,
            (Hand::Rock, Outcome::Draw) => Hand::Rock,
            (Hand::Paper, Outcome::Win) => Hand::Scissors,
            (Hand::Paper, Outcome::Loss) => Hand::Rock,
            (Hand::Paper, Outcome::Draw) => Hand::Paper,
            (Hand::Scissors, Outcome::Win) => Hand::Rock,
            (Hand::Scissors, Outcome::Loss) => Hand::Paper,
            (Hand::Scissors, Outcome::Draw) => Hand::Scissors,
        }
    }

    /// Total score of the round.
    pub fn score(&self) -> (r: u64)
        ensures
            r == self.spec_score(),
            r <= 9,
    {
        hand_value(self.required_hand()) + outcome_value(self.required_outcome)
    }
}

/// Sum of the scores of the given rounds.
pub open spec fn spec_part1_total(rounds: Seq<Part1Round>) -> int
    decreases rounds.len(),
{
    if rounds.len() == 0 {
        0
    } else {
        spec_part1_total(rounds.drop_last()) + rounds.last().spec_score()
    }
}

/// Sum of the scores of the given rounds.
pub open spec fn spec_part2_total(rounds: Seq<Part2Round>) -> int
    decreases rounds.len(),
{
    if rounds.len() == 0 {
        0
    } else {
        spec_part2_total(rounds.drop_last()) + rounds.last().spec_score()
    }
}

/// Total score over all rounds with both hands given.
pub fn part1_total_score(rounds: &Vec<Part1Round>) -> (r: u64)
    requires
        rounds@.len() <= 0x1000_0000_0000_0000,
    ensures
        r == spec_part1_total(rounds@),
{
    let mut total: u64 = 0;
    let mut i: usize = 0;
    proof {
        assert(rounds@.subrange(0, 0) =~= Seq::<Part1Round>::empty());
    }
    while i < rounds.len()
        invariant
            0 <= i <= rounds@.len(),
            rounds@.len() <= 0x1000_0000_0000_0000,
            total == spec_part1_total(rounds@.subrange(0, i as int)),
            total <= 9 * i,
        decreases rounds@.len() - i,
    {
        let s = rounds[i].score();
        total = total + s;
        proof {
            assert(rounds@.subrange(0, i + 1).drop_last() =~= rounds@.subrange(0, i as int));
            assert(rounds@.subrange(0, i + 1).last() == rounds@[i as int]);
        }
        i += 1;
    }
    proof {
        assert(rounds@.subrange(0, i as int) =~= rounds@);
    }
    total
}

/// Total score over all rounds with a required outcome.
pub fn part2_total_score(rounds: &Vec<Part2Round>) -> (r: u64)
    requires
        rounds@.len() <= 0x1000_0000_0000_0000,
    ensures
        r == spec_part2_total(rounds@),
{
    let mut total: u64 = 0;
    let mut i: usize = 0;
    proof {
        assert(rounds@.subrange(0, 0) =~= Seq::<Part2Round>::empty());
    }
    while i < rounds.len()
        invariant
            0 <= i <= rounds@.len(),
            rounds@.len() <= 0x1000_0000_0000_0000,
            total == spec_part2_total(rounds@.subrange(0, i as int)),
            total <= 9 * i,
        decreases rounds@.len() - i,
    {
        let s = rounds[i].score();
        total = total + s;
        proof {
            assert(rounds@.subrange(0, i + 1).drop_last() =~= rounds@.subrange(0, i as int));
            assert(rounds@.subrange(0, i + 1).last() == rounds@[i as int]);
        }
        i += 1;
    }
    proof {
        assert(rounds@.subrange(0, i as int) =~= rounds@);
    }
    total
}

} // verus!
