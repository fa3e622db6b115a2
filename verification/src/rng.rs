//! A small seedable pseudo-random generator.
//!
//! The generator is a 64-bit counter whose values pass through a fixed
//! scrambling function. Every draw is a function of the state alone, so two
//! generators with the same seed give the same draws.
use vstd::prelude::*;

verus! {

/// The increment of the counter.
pub const INCREMENT: u64 = 0x9E37_79B9_7F4A_7C15u64;

/// The first multiplier of the scrambling function.
pub const FIRST_MULTIPLIER: u64 = 0xBF58_476D_1CE4_E5B9u64;

/// The second multiplier of the scrambling function.
pub const SECOND_MULTIPLIER: u64 = 0x94D0_49BB_1331_11EBu64;

/// The state that follows `state`.
pub open spec fn advance(state: u64) -> u64 {
    state.wrapping_add(INCREMENT)
}

/// The number that a generator hands out when it has reached `state`.
pub open spec fn output(state: u64) -> u64 {
    let a: u64 = (state ^ (state >> 30)).wrapping_mul(FIRST_MULTIPLIER);
    let b: u64 = (a ^ (a >> 27)).wrapping_mul(SECOND_MULTIPLIER);
    b ^ (b >> 31)
}

/// The index below `bound` that a generator in `state` draws next.
pub open spec fn draw_below(state: u64, bound: nat) -> nat
    recommends
        bound > 0,
{
    (output(advance(state)) as nat) % bound
}

/// A seedable source of pseudo-random numbers.
#[derive(Clone, Copy, Debug, PartialEq, Eq)]
pub struct SearchRng {
    state: u64,
}

impl View for SearchRng {
    type V = u64;

    closed spec fn view(&self) -> u64 {
        self.state
    }
}

impl SearchRng {
    /// A generator that starts from `seed`.
    pub fn seeded(seed: u64) -> (rng: SearchRng)
        ensures
            rng@ == seed,
    {
        SearchRng { state: seed }
    }

    /// The state of the generator, from which it can be rebuilt with `seeded`.
    pub fn state(&self) -> (state: u64)
        ensures
            state == self@,
    {
        self.state
    }

    /// Draws the next 64-bit number.
    pub fn next_u64(&mut self) -> (drawn: u64)
        ensures
            final(self)@ == advance(old(self)@),
            drawn == output(advance(old(self)@)),
    {
        self.state = self.state.wrapping_add(INCREMENT);
        let a: u64 = (self.state ^ (self.state >> 30)).wrapping_mul(FIRST_MULTIPLIER);
        let b: u64 = (a ^ (a >> 27)).wrapping_mul(SECOND_MULTIPLIER);
        b ^ (b >> 31)
    }

    /// Draws an index below `bound`.
    pub fn below(&mut self, bound: usize) -> (drawn: usize)
        requires
            bound > 0,
        ensures
            final(self)@ == advance(old(self)@),
            drawn == draw_below(old(self)@, bound as nat),
            drawn < bound,
    {
        let wide: u64 = self.next_u64();
        let reduced: u64 = wide % (bound as u64);
        reduced as usize
    }
}

} // verus!
