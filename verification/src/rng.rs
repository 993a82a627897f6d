//! A linear congruential pseudo-random number generator.

use vstd::prelude::*;

verus! {

/// Multiplier of the linear congruential step.
pub const RNG_A: i32 = 1103515245;

/// Increment of the linear congruential step.
pub const RNG_C: i32 = 12345;

/// The seed after one linear congruential step, with 32-bit wrap-around.
pub open spec fn rng_next(seed: i32) -> i32 {
    vstd::wrapping::i32_specs::wrapping_add(
        vstd::wrapping::i32_specs::wrapping_mul(RNG_A, seed),
        RNG_C,
    )
}

/// Deterministic pseudo-random number generator seeding enemy spawns.
pub struct Rng {
    pub seed: i32,
}

impl Rng {
    /// A generator starting from the given seed.
    pub fn from_seed(seed: i32) -> (r: Rng)
        ensures
            r.seed == seed,
    {
        Rng { seed }
    }

    /// Steps the generator and returns the new seed.
    pub fn rand(&mut self) -> (r: i32)
        ensures
            final(self).seed == rng_next(old(self).seed),
            r == final(self).seed,
    {
        self.seed = RNG_A.wrapping_mul(self.seed).wrapping_add(RNG_C);
        self.seed
    }
}

} // verus!
