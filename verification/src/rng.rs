//! Trusted interface to the pseudo-random generator that drives the search.
//!
//! The engine owns a seedable generator so that whole runs are reproducible
//! from a single word of seed. Every stochastic primitive the engine uses is
//! wrapped here; each contract states only what holds of every outcome.

use vstd::prelude::*;

use rand::RngExt;
use rand::SeedableRng;
use rand::seq::IndexedRandom;

verus! {

#[verifier::external_type_specification]
#[verifier::external_body]
pub struct ExStdRng(rand::rngs::StdRng);

/// Relies on rand::SeedableRng::seed_from_u64 to build a generator whose
/// stream is a function of the seed alone.
#[verifier::external_body]
pub fn rng_from_seed(seed: u64) -> (r: rand::rngs::StdRng) {
    rand::rngs::StdRng::seed_from_u64(seed)
}

/// Relies on rand::RngExt::random_range over an inclusive byte range: the
/// result lies in the range. An empty range would panic, so it is excluded.
#[verifier::external_body]
pub fn rng_range_u8(rng: &mut rand::rngs::StdRng, lo: u8, hi: u8) -> (r: u8)
    requires
        lo <= hi,
    ensures
        lo <= r <= hi,
{
    rng.random_range(lo..=hi)
}

/// Relies on rand::seq::IndexedRandom::choose: `None` exactly on an empty
/// slice, otherwise one of the slice's elements.
#[verifier::external_body]
pub fn rng_choose_position(rng: &mut rand::rngs::StdRng, v: &Vec<(usize, usize)>) -> (r: Option<
    (usize, usize),
>)
    ensures
        match r {
            Some(p) => v@.len() > 0 && v@.contains(p),
            None => v@.len() == 0,
        },
{
    v.as_slice().choose(rng).copied()
}

/// Relies on rand::seq::index::sample, which returns `amount` distinct
/// indices below `length`; it panics when `amount` exceeds `length`, so
/// that is excluded.
#[verifier::external_body]
pub fn rng_sample_indices(rng: &mut rand::rngs::StdRng, length: usize, amount: usize) -> (r: Vec<
    usize,
>)
    requires
        amount <= length,
    ensures
        r@.len() == amount,
        forall|i: int| 0 <= i < r@.len() ==> #[trigger] r@[i] < length,
        forall|i: int, j: int| 0 <= i < j < r@.len() ==> r@[i] != r@[j],
{
    rand::seq::index::sample(rng, length, amount).into_vec()
}

/// Relies on rand::seq::index::sample, which returns `amount` distinct
/// indices below `length`; it panics when `amount` exceeds `length`, so
/// lengths under two are excluded.
#[verifier::external_body]
pub fn rng_two_indices(rng: &mut rand::rngs::StdRng, length: usize) -> (r: (usize, usize))
    requires
        length >= 2,
    ensures
        r.0 < length,
        r.1 < length,
        r.0 != r.1,
{
    let picked = rand::seq::index::sample(rng, length, 2);
    (picked.index(0), picked.index(1))
}

} // verus!
