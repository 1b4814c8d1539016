//! The two ways to deal a new game, and the random source both draw on.

use vstd::prelude::*;

pub mod heights;
pub mod shuffled;
pub mod smartish;

pub use shuffled::shuffled_random;
pub use smartish::smartish_random;

verus! {

/// `fastrand::Rng`: a small seeded generator. Nothing of its state is known
/// here; it is only passed on to the calls below.
#[verifier::external_type_specification]
#[verifier::external_body]
pub struct ExRng(fastrand::Rng);

/// The generator that `fastrand::Rng::with_seed` makes of a seed.
pub uninterp spec fn rng_with_seed(seed: u64) -> fastrand::Rng;

/// `fastrand::Rng::with_seed`: a generator that starts from `seed`. It
/// holds the seed and nothing else, so the same seed always gives the same
/// generator; what it will draw is not claimed.
pub assume_specification[ fastrand::Rng::with_seed ](seed: u64) -> (rng: fastrand::Rng)
    ensures
        rng == rng_with_seed(seed),
;

/// `fastrand::Rng::new`: a generator seeded by the system. Nothing is
/// claimed of it.
pub assume_specification[ fastrand::Rng::new ]() -> (rng: fastrand::Rng)
;

/// `fastrand::Rng::shuffle`: swaps elements of the slice among themselves,
/// so what the slice holds afterwards is a rearrangement of what it held.
pub assume_specification<T>[ fastrand::Rng::shuffle::<T> ](
    rng: &mut fastrand::Rng,
    slice: &mut [T],
)
    ensures
        final(slice)@.to_multiset() == old(slice)@.to_multiset(),
;

/// `fastrand::Rng::usize` on the range `0..bound`: some index below `bound`.
/// The crate panics on an empty range, so `bound` must be positive.
#[verifier::external_body]
pub(crate) fn random_below(rng: &mut fastrand::Rng, bound: usize) -> (r: usize)
    requires
        bound > 0,
    ensures
        r < bound,
{
    rng.usize(0..bound)
}

/// The generator for a deal: seeded where a seed is given, so that the same
/// seed deals the same game, and seeded by the system otherwise. Of a
/// generator that the system seeds nothing is known.
pub(crate) fn make_rng(seed: Option<u64>) -> (rng: fastrand::Rng)
    ensures
        seed matches Some(given) ==> rng == rng_with_seed(given),
{
    match seed {
        Some(seed) => fastrand::Rng::with_seed(seed),
        None => fastrand::Rng::new(),
    }
}

} // verus!
