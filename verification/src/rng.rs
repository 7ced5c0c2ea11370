//! Deterministic pseudo-random numbers for spawn placement.
//!
//! The coordinator owns a seeded linear congruential generator, so a
//! replay of the same messages from the same seed reproduces the same
//! world exactly; tests seed it directly.  A fresh unpredictable seed
//! can be drawn from the process's entropy source.

use vstd::prelude::*;

verus! {

/// The next generator state: a 64-bit linear congruential step.
pub open spec fn spec_lcg_next(s: u64) -> u64 {
    (((s * 6364136223846793005) + 1442695040888963407) % 0x1_0000_0000_0000_0000) as u64
}

/// A 64-bit linear congruential generator.
#[derive(Clone, Copy, Debug, PartialEq, Eq, Structural)]
pub struct Lcg {
    pub state: u64,
}

impl Lcg {
    pub fn new(seed: u64) -> (r: Lcg)
        ensures
            r.state == seed,
    {
        Lcg { state: seed }
    }

    /// Advance the generator and return its new state.
    pub fn next(&mut self) -> (r: u64)
        ensures
            final(self).state == spec_lcg_next(old(self).state),
            r == final(self).state,
    {
        let prod: u128 = (self.state as u128) * 6364136223846793005u128 + 1442695040888963407u128;
        self.state = (prod % 0x1_0000_0000_0000_0000u128) as u64;
        self.state
    }

    /// Advance the generator and reduce the draw below `n`.
    pub fn below(&mut self, n: u64) -> (r: u64)
        requires
            n > 0,
        ensures
            final(self).state == spec_lcg_next(old(self).state),
            r == spec_lcg_next(old(self).state) % n,
            r < n,
    {
        self.next() % n
    }
}

/// Relies on `rand::random`: one unpredictable word from the
/// thread-local entropy source.  Nothing is promised of the value.
#[verifier::external_body]
pub fn fresh_seed() -> u64 {
    rand::random::<u64>()
}

} // verus!
