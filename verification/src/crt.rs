//! A one-register CPU driven by `addx`/`noop` instructions, recording the
//! register (sprite centre) at every cycle, and the signal-strength and
//! pixel computations read off that recording.

use vstd::prelude::*;

verus! {

/// One CPU instruction.
#[derive(Clone, Copy, Debug, PartialEq, Eq, Structural)]
pub enum Instruction {
    AddX(i64),
    NoOp,
}

/// The CPU: the current register and the register value at the end of
/// every cycle executed so far (one entry per cycle, starting at cycle 1).
#[derive(Debug)]
pub struct Cpu {
    pub register: i64,
    pub sprite_positions: Vec<i64>,
}

/// Register value after running the instructions from the initial value.
pub open spec fn reg_after(reg0: i64, instrs: Seq<Instruction>) -> int
    decreases instrs.len(),
{
    if instrs.len() == 0 {
        reg0 as int
    } else {
        match instrs.last() {
            Instruction::AddX(v) => reg_after(reg0, instrs.drop_last()) + v,
            Instruction::NoOp => reg_after(reg0, instrs.drop_last()),
        }
    }
}

/// The register stays within `i64` after every prefix of the run.
pub open spec fn run_in_range(reg0: i64, instrs: Seq<Instruction>) -> bool {
    forall|k: int|
        0 <= k <= instrs.len() ==> i64::MIN <= reg_after(reg0, #[trigger] instrs.subrange(0, k))
            <= i64::MAX
}

/// The cycle recording after running the instructions: `addx` takes two
/// cycles (the old register, then the updated one), `noop` takes one.
pub open spec fn sprites_after(reg0: i64, sprites0: Seq<i64>, instrs: Seq<Instruction>) -> Seq<i64>
    decreases instrs.len(),
{
    if instrs.len() == 0 {
        sprites0
    } else {
        let prev = sprites_after(reg0, sprites0, instrs.drop_last());
        let pr = reg_after(reg0, instrs.drop_last());
        match instrs.last() {
            Instruction::AddX(v) => prev.push(pr as i64).push((pr + v) as i64),
            Instruction::NoOp => prev.push(pr as i64),
        }
    }
}

impl Default for Cpu {
    /// A fresh CPU: register 1, one recorded cycle at value 1.
    fn default() -> (r: Cpu)
        ensures
            r.register == 1,
            r.sprite_positions@ =~= seq![1i64],
    {
        Cpu { register: 1, sprite_positions: vec![1] }
    }
}

impl Cpu {
    /// Execute one instruction, recording the register at the end of each
    /// cycle it takes.
    pub fn perform_instruction(&mut self, instruction: Instruction)
        requires
            instruction matches Instruction::AddX(v) ==> i64::MIN <= old(self).register + v
                <= i64::MAX,
        ensures
            match instruction {
                Instruction::AddX(v) => {
                    &&& final(self).register == old(self).register + v
                    &&& final(self).sprite_positions@ == old(self).sprite_positions@.push(
                        old(self).register,
                    ).push(final(self).register)
                },
                Instruction::NoOp => {
                    &&& final(self).register == old(self).register
                    &&& final(self).sprite_positions@ == old(self).sprite_positions@.push(
                        old(self).register,
                    )
                },
            },
    {
        match instruction {
            Instruction::AddX(new_val) => {
                self.sprite_positions.push(self.register);
                self.register = self.register + new_val;
            },
            Instruction::NoOp => {},
        }
        self.sprite_positions.push(self.register);
    }
}

/// Execute all instructions in order.
pub fn perform_instructions(cpu: &mut Cpu, instructions: Vec<Instruction>)
    requires
        run_in_range(old(cpu).register, instructions@),
    ensures
        final(cpu).register == reg_after(old(cpu).register, instructions@),
        final(cpu).sprite_positions@ == sprites_after(
            old(cpu).register,
            old(cpu).sprite_positions@,
            instructions@,
        ),
{
    let ghost reg0 = cpu.register;
    let ghost sp0 = cpu.sprite_positions@;
    let mut i: usize = 0;
    proof {
        assert(instructions@.subrange(0, 0) =~= Seq::<Instruction>::empty());
    }
    while i < instructions.len()
        invariant
            0 <= i <= instructions@.len(),
            run_in_range(reg0, instructions@),
            cpu.register == reg_after(reg0, instructions@.subrange(0, i as int)),
            cpu.sprite_positions@ == sprites_after(
                reg0,
                sp0,
                instructions@.subrange(0, i as int),
            ),
        decreases instructions@.len() - i,
    {
        let ghost p1 = instructions@.subrange(0, i as int);
        let ghost p2 = instructions@.subrange(0, i + 1);
        proof {
            assert(p2.drop_last() =~= p1);
            assert(p2.last() == instructions@[i as int]);
            // the range precondition for this step comes from the prefix at i + 1
            assert(instructions@.subrange(0, i + 1) == p2);
            assert(i64::MIN <= reg_after(reg0, p2) <= i64::MAX);
        }
        let instruction = instructions[i];
        cpu.perform_instruction(instruction);
        i += 1;
    }
    proof {
        assert(instructions@.subrange(0, i as int) =~= instructions@);
    }
}

/// Sum of `cycle * register` over the sampled cycles `i + 1`, for
/// `i, i + 40, i + 80, ...` within the recording.
pub open spec fn spec_signal_sum(s: Seq<i64>, i: int) -> int
    decreases s.len() + 40 - i,
{
    if i < 0 || i >= s.len() || s.len() + 40 - i < 0 {
        0
    } else {
        (i + 1) * s[i] + spec_signal_sum(s, i + 40)
    }
}

/// Sum of the signal strengths at cycles 20, 60, 100, ...: the cycle
/// number times the register recorded for it.
pub fn part1(cpu: &Cpu) -> (r: i64)
    requires
        cpu.sprite_positions@.len() <= 100000,
        forall|k: int|
            0 <= k < cpu.sprite_positions@.len() ==> -100000 <= #[trigger] cpu.sprite_positions@[k]
                <= 100000,
    ensures
        r == spec_signal_sum(cpu.sprite_positions@, 19),
{
    let s = &cpu.sprite_positions;
    let mut sum: i64 = 0;
    let mut i: usize = 19;
    let ghost mut cnt: int = 0;
    while i < s.len()
        invariant
            19 <= i,
            s@.len() <= 100000,
            forall|k: int| 0 <= k < s@.len() ==> -100000 <= #[trigger] s@[k] <= 100000,
            sum == spec_signal_sum(s@, 19) - spec_signal_sum(s@, i as int),
            0 <= cnt,
            cnt * 40 <= i + 21,
            -cnt * 10000100000 <= sum <= cnt * 10000100000,
        decreases s@.len() + 40 - i,
    {
        let v = s[i];
        proof {
            assert(-10000100000 <= (i + 1) * v <= 10000100000) by (nonlinear_arith)
                requires
                    0 < i + 1 <= 100000,
                    -100000 <= v <= 100000,
            ;
            assert(spec_signal_sum(s@, i as int) == (i + 1) * v + spec_signal_sum(s@, i + 40));
        }
        let term: i64 = (i as i64 + 1) * v;
        sum = sum + term;
        proof {
            cnt = cnt + 1;
        }
        i = i + 40;
    }
    proof {
        assert(spec_signal_sum(s@, i as int) == 0);
    }
    sum
}

/// The CRT column lit during the cycle: cycles run from 1 and the screen
/// is 40 columns wide.
pub fn crt_position_at_cycle(cycle: u64) -> (r: u64)
    requires
        cycle >= 1,
    ensures
        r == (cycle - 1) % 40,
{
    (cycle - 1) % 40
}

/// The three-pixel sprite centred on `sprite_center` covers the pixel
/// column.
pub fn crt_sprite_overlaps_with_current_pixel(sprite_center: i64, current_pixel: u64) -> (r: bool)
    requires
        current_pixel < 40,
        i64::MIN < sprite_center < i64::MAX,
    ensures
        r == (sprite_center - 1 <= current_pixel <= sprite_center + 1),
{
    let p = current_pixel as i64;
    p >= sprite_center - 1 && p <= sprite_center + 1
}

/// The character drawn at the cycle: a lit pixel where the sprite covers
/// the column, a dark one elsewhere.
pub open spec fn spec_crt_draw(cycle: int, sprite_center: int) -> char {
    if sprite_center - 1 <= (cycle - 1) % 40 <= sprite_center + 1 {
        '#'
    } else {
        '.'
    }
}

/// Draw the pixel for the cycle from the sprite centre recorded for it.
pub fn crt_draw(cycle: u64, sprite_center: i64) -> (r: char)
    requires
        cycle >= 1,
        i64::MIN < sprite_center < i64::MAX,
    ensures
        r == spec_crt_draw(cycle as int, sprite_center as int),
{
    let current_pixel = crt_position_at_cycle(cycle);
    if crt_sprite_overlaps_with_current_pixel(sprite_center, current_pixel) {
        '#'
    } else {
        '.'
    }
}

/// The screen rendered from cycle `i + 1` on: one pixel per recorded
/// cycle, with a line break before each new 40-column row.
pub open spec fn spec_render(s: Seq<i64>, i: int) -> Seq<char>
    decreases s.len() - i,
{
    if i < 0 || i >= s.len() {
        Seq::empty()
    } else {
        (if i > 0 && i % 40 == 0 {
            seq!['\n']
        } else {
            Seq::empty()
        }) + seq![spec_crt_draw(i + 1, s[i] as int)] + spec_render(s, i + 1)
    }
}

/// Render the whole screen from the cycle recording: rows of forty
/// pixels, separated by line breaks.
pub fn part2(cpu: &Cpu) -> (r: Vec<char>)
    requires
        forall|k: int|
            0 <= k < cpu.sprite_positions@.len() ==> i64::MIN < #[trigger] cpu.sprite_positions@[k]
                < i64::MAX,
    ensures
        r@ == spec_render(cpu.sprite_positions@, 0),
{
    let s = &cpu.sprite_positions;
    let mut out: Vec<char> = Vec::new();
    let mut i: usize = 0;
    while i < s.len()
        invariant
            0 <= i <= s@.len(),
            forall|k: int| 0 <= k < s@.len() ==> i64::MIN < #[trigger] s@[k] < i64::MAX,
            out@ + spec_render(s@, i as int) == spec_render(s@, 0),
        decreases s@.len() - i,
    {
        if i > 0 && i % 40 == 0 {
            out.push('\n');
        }
        let cycle = i as u64 + 1;
        let pixel = crt_draw(cycle, s[i]);
        out.push(pixel);
        proof {
            assert(spec_render(s@, i as int) == (if i > 0 && i as int % 40 == 0 {
                seq!['\n']
            } else {
                Seq::<char>::empty()
            }) + seq![spec_crt_draw(i + 1, s@[i as int] as int)] + spec_render(s@, i + 1));
            assert(out@ + spec_render(s@, i + 1) =~= spec_render(s@, 0));
        }
        i += 1;
    }
    proof {
        assert(spec_render(s@, i as int) == Seq::<char>::empty());
        assert(out@ =~= spec_render(s@, 0));
    }
    out
}

} // verus!
