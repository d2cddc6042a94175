//! A small deterministic linear congruential generator.

use vstd::prelude::*;

verus! {

/// Multiplier of the congruential step.
pub const LCG_MULTIPLIER: u32 = 1664525;

/// Increment of the congruential step.
pub const LCG_INCREMENT: u32 = 1013904223;

/// The state that follows `state`: `state * 1664525 + 1013904223` modulo 2^32.
pub open spec fn lcg_step(state: u32) -> u32 {
    ((state as int * LCG_MULTIPLIER as int + LCG_INCREMENT as int) % 0x1_0000_0000) as u32
}

/// The value that a draw from `[min, max)` yields when the generator is in
/// `state` before the draw.
pub open spec fn range_draw(state: u32, min: int, max: int) -> int {
    lcg_step(state) as int % (max - min) + min
}

/// A generator whose whole state is one 32-bit word.
#[derive(Debug)]
pub struct SimpleRng {
    pub state: u32,
}

impl SimpleRng {
    /// A generator that starts from `seed`.
    pub fn new(seed: u32) -> (rng: Self)
        ensures
            rng.state == seed,
    {
        Self { state: seed }
    }

    /// Advances the state by one congruential step and returns the new state.
    pub fn next(&mut self) -> (value: u32)
        ensures
            final(self).state == lcg_step(old(self).state),
            value == final(self).state,
    {
        self.state = self.state.wrapping_mul(LCG_MULTIPLIER).wrapping_add(LCG_INCREMENT);
        self.state
    }

    /// Draws from `[min, max)`: the next state, reduced modulo the width of
    /// the range and shifted by `min`.
    pub fn range(&mut self, min: usize, max: usize) -> (value: usize)
        requires
            min < max,
        ensures
            final(self).state == lcg_step(old(self).state),
            value == range_draw(old(self).state, min as int, max as int),
            min <= value < max,
    {
        let width: usize = max - min;
        let raw: usize = self.next() as usize;
        raw % width + min
    }
}

} // verus!
