//! Trusted access to the `rand` crate, used only to sample the initial
//! population of bodies.

use vstd::prelude::*;
use rand::RngExt;
use rand::SeedableRng;

verus! {

/// The standard random number generator of the `rand` crate; Verus treats
/// its values as opaque.
#[verifier::external_type_specification]
#[verifier::external_body]
pub struct ExStdRng(rand::rngs::StdRng);

/// Relies on `rand::SeedableRng::seed_from_u64`: builds a generator from a
/// seed.  Nothing is assumed about the values it will produce.
#[verifier::external_body]
pub(crate) fn rng_from_seed(seed: u64) -> rand::rngs::StdRng {
    rand::rngs::StdRng::seed_from_u64(seed)
}

/// Relies on `rand::RngExt::random_range`: a sample from the non-empty
/// range `lo..hi` lies in `[lo, hi)`.  Which value comes out is left open.
#[verifier::external_body]
pub(crate) fn sample_range(rng: &mut rand::rngs::StdRng, lo: i128, hi: i128) -> (r: i128)
    requires
        lo < hi,
    ensures
        lo <= r < hi,
{
    rng.random_range(lo..hi)
}

} // verus!
