//! A linear congruential pseudo-random number generator. The miner's
//! fractal payloads are perturbed by this generator, seeded with the
//! block nonce, so that every nonce yields a distinct drawing.

use vstd::prelude::*;

verus! {

/// The next LCG state: the POSIX `rand()` multiplier and increment,
/// taken modulo 2^64.
pub open spec fn lcg_next(state: u64) -> u64 {
    vstd::wrapping::u64_specs::wrapping_add(
        vstd::wrapping::u64_specs::wrapping_mul(state, 1103515245),
        12345,
    )
}

/// A simple linear congruential generator.
pub struct Lcg {
    state: u64,
}

impl Lcg {
    /// The current internal state.
    pub closed spec fn view(&self) -> u64 {
        self.state
    }

    /// Starts the generator at `seed`.
    pub fn new(seed: u64) -> (r: Self)
        ensures
            r@ == seed,
    {
        Lcg { state: seed }
    }

    /// Advances the state once and returns it.
    pub fn next(&mut self) -> (r: u64)
        ensures
            r == lcg_next(old(self)@),
            final(self)@ == r,
    {
        self.state = self.state.wrapping_mul(1103515245).wrapping_add(12345);
        self.state
    }
}

} // verus!
