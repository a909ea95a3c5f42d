//! Random draws from the `rand` crate that the game rules use: the number of
//! enemies a chunk spawns and the choice of a spawn tile.
use rand::rngs::{StdRng, ThreadRng};
use rand::Rng;
use vstd::prelude::*;

verus! {

/// `rand::rngs::StdRng`, the seeded generator of a chunk; opaque here.
#[verifier::external_type_specification]
#[verifier::external_body]
pub struct ExStdRng(StdRng);

/// `rand::rngs::ThreadRng`, the thread-local generator; opaque here.
#[verifier::external_type_specification]
#[verifier::external_body]
pub struct ExThreadRng(ThreadRng);

/// Calls `rand::Rng::random_range` with the inclusive range `lo..=hi` on a
/// `StdRng`. Claimed: the value lies in the range (rand documents the range as
/// the set of possible results and panics only on an empty range, which
/// `requires` excludes). Which value comes out is not stated: it depends on
/// the generator's state.
#[verifier::external_body]
pub(crate) fn std_rng_range_inclusive(rng: &mut StdRng, lo: u32, hi: u32) -> (n: u32)
    requires
        lo <= hi,
    ensures
        lo <= n <= hi,
{
    rng.random_range(lo..=hi)
}

/// Calls `rand::rng()`, which hands out the thread-local generator. Nothing is
/// claimed of it.
#[verifier::external_body]
pub(crate) fn thread_rng() -> ThreadRng {
    rand::rng()
}

/// Calls `rand::Rng::random_range` with the half-open range `0..n` on a
/// `ThreadRng`. Claimed: the value is below `n` (rand panics only on an empty
/// range, which `requires` excludes). Which value comes out is not stated.
#[verifier::external_body]
pub(crate) fn thread_rng_below(rng: &mut ThreadRng, n: usize) -> (i: usize)
    requires
        n > 0,
    ensures
        i < n,
{
    rng.random_range(0..n)
}

} // verus!
