//! Randomness, through the `rand` crate.
//!
//! The render core threads an explicit generator handle through every
//! function that draws samples (one per worker thread); nothing here
//! promises anything about the drawn values beyond their range, and no
//! verified result depends on more.

use vstd::prelude::*;
use rand::Rng;

verus! {

/// The `rand` crate's per-thread generator handle.
#[verifier::external_type_specification]
#[verifier::external_body]
pub struct ExThreadRng(rand::rngs::ThreadRng);

/// Relies on rand's `thread_rng`: a handle to the thread-local
/// generator, for the scene builder and the render workers.
#[verifier::external_body]
pub fn new_rng() -> rand::rngs::ThreadRng {
    rand::thread_rng()
}

/// Relies on rand's `Rng::gen_range` over `0..n`: a uniform value in
/// `[0, n)`; nothing more is assumed of it.
#[verifier::external_body]
pub fn rng_below(rng: &mut rand::rngs::ThreadRng, n: u32) -> (r: u32)
    requires
        n >= 1,
    ensures
        r < n,
{
    rng.gen_range(0..n)
}

/// Relies on rand's `Rng::gen_range` over `lo..hi`: a uniform value in
/// `[lo, hi)`; nothing more is assumed of it.
#[verifier::external_body]
pub fn rng_range_i64(rng: &mut rand::rngs::ThreadRng, lo: i64, hi: i64) -> (r: i64)
    requires
        lo < hi,
    ensures
        lo <= r < hi,
{
    rng.gen_range(lo..hi)
}

} // verus!
