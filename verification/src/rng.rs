//! The owned source of the random draws that place coins and enemy balls.

use vstd::prelude::*;
use crate::fixed::{in_range, Fixed};

verus! {

/// Multiplier of the generator's step.
pub const RNG_MULTIPLIER: u64 = 6364136223846793005;

/// Increment of the generator's step.
pub const RNG_INCREMENT: u64 = 1442695040888963407;

/// The state that follows `state`.
#[verifier::opaque]
pub open spec fn next_state(state: u64) -> u64 {
    ((state * RNG_MULTIPLIER + RNG_INCREMENT) % 0x1_0000_0000_0000_0000) as u64
}

/// The draw that a state gives: its upper half.
#[verifier::opaque]
pub open spec fn draw_of(state: u64) -> u32 {
    (state / 0x1_0000_0000) as u32
}

/// `draw` mapped evenly onto `[low, high)`.
#[verifier::opaque]
pub open spec fn spread(draw: u32, low: int, high: int) -> int {
    low + (draw * (high - low)) / 0x1_0000_0000
}

/// A draw lands inside the interval it is spread over.
pub proof fn lemma_spread_bounds(draw: u32, low: int, high: int)
    requires
        low < high,
    ensures
        low <= spread(draw, low, high) < high,
{
    reveal(spread);
    let span = high - low;
    assert(0 <= draw * span < 0x1_0000_0000 * span) by (nonlinear_arith)
        requires
            0 <= draw < 0x1_0000_0000,
            span > 0,
    ;
    assert(0 <= (draw * span) / 0x1_0000_0000 < span) by (nonlinear_arith)
        requires
            0 <= draw * span < 0x1_0000_0000 * span,
    ;
}

/// A linear congruential generator. The same seed gives the same draws.
#[derive(Clone, Copy, Debug, PartialEq, Eq, Structural)]
pub struct Rng {
    pub state: u64,
}

impl Rng {
    pub fn new(seed: u64) -> (rng: Rng)
        ensures
            rng.state == seed,
    {
        Rng { state: seed }
    }

    /// Steps the generator and returns the draw of the new state.
    pub fn rand(&mut self) -> (draw: u32)
        ensures
            final(self).state == next_state(old(self).state),
            draw == draw_of(final(self).state),
    {
        proof {
            reveal(next_state);
            reveal(draw_of);
        }
        assert(self.state * RNG_MULTIPLIER <= 0xffff_ffff_ffff_ffff * 0xffff_ffff_ffff_ffff)
            by (nonlinear_arith)
            requires
                0 <= self.state <= 0xffff_ffff_ffff_ffff,
                0 <= RNG_MULTIPLIER <= 0xffff_ffff_ffff_ffff,
        ;
        let wide: u128 = (self.state as u128) * (RNG_MULTIPLIER as u128) + (RNG_INCREMENT as u128);
        self.state = (wide % 0x1_0000_0000_0000_0000) as u64;
        (self.state / 0x1_0000_0000) as u32
    }

    /// Steps the generator and returns a quantity of `[low, high)`.
    pub fn rand_range(&mut self, low: Fixed, high: Fixed) -> (value: Fixed)
        requires
            in_range(low as int),
            in_range(high as int),
            low < high,
        ensures
            final(self).state == next_state(old(self).state),
            value == spread(draw_of(final(self).state), low as int, high as int),
            low <= value < high,
    {
        let draw: u32 = self.rand();
        let span: i128 = (high - low) as i128;
        proof {
            reveal(spread);
            lemma_spread_bounds(draw, low as int, high as int);
            assert(0 <= draw * span < 0x1_0000_0000 * span) by (nonlinear_arith)
                requires
                    0 <= draw < 0x1_0000_0000,
                    span > 0,
            ;
        }
        let step: i128 = ((draw as i128) * span) / 0x1_0000_0000;
        (low as i128 + step) as i64
    }
}

} // verus!
