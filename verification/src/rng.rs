//! Randomness for the playouts: a seedable generator behind a small trusted
//! boundary around the rand crate.

use vstd::prelude::*;

use rand::seq::SliceRandom;
use rand::Rng;
use rand::SeedableRng;

use crate::santorini::ActionResult;
use crate::santorini::BuildAction;
use crate::santorini::Move;
use crate::santorini::MoveAction;

verus! {

#[verifier::external_type_specification]
#[verifier::external_body]
pub struct ExSmallRng(rand::rngs::SmallRng);

/// A seedable pseudo-random source.  Two sources built from the same seed
/// hand out the same numbers in the same order.
pub struct SeededRng {
    rng: rand::rngs::SmallRng,
}

impl SeededRng {
    /// Relies on rand's SeedableRng::seed_from_u64: it builds the generator
    /// from the seed alone, so equal seeds give equal generators.
    #[verifier::external_body]
    pub fn from_seed(seed: u64) -> (r: SeededRng) {
        SeededRng { rng: rand::rngs::SmallRng::seed_from_u64(seed) }
    }

    /// Relies on rand's SeedableRng::from_entropy: it builds the generator
    /// from operating-system randomness.
    #[verifier::external_body]
    pub fn from_entropy() -> (r: SeededRng) {
        SeededRng { rng: rand::rngs::SmallRng::from_entropy() }
    }

    /// Relies on rand's Rng::gen_range: it returns a number drawn uniformly
    /// from the given range, and panics only when the range is empty.
    #[verifier::external_body]
    pub fn gen_below(&mut self, n: u64) -> (r: u64)
        requires
            n >= 1,
        ensures
            r < n,
    {
        self.rng.gen_range(0..n)
    }

    /// Relies on rand's SliceRandom::shuffle: it reorders the elements in
    /// place and neither adds, drops nor changes any of them.
    #[verifier::external_body]
    pub fn shuffle_outcomes(
        &mut self,
        v: &mut Vec<((MoveAction, Option<BuildAction>), ActionResult<Move>)>,
    )
        ensures
            final(v)@.to_multiset() == old(v)@.to_multiset(),
    {
        v.shuffle(&mut self.rng)
    }
}

} // verus!
