//! Trusted boundary to the `rand` crate, used only to seed new flocks.

use vstd::prelude::*;
use rand::Rng;

verus! {

#[verifier::external_type_specification]
#[verifier::external_body]
pub struct ExThreadRng(rand::rngs::ThreadRng);

/// Relies on `rand::thread_rng`: a handle to the thread-local generator.
/// Nothing is promised of the values it will produce.
#[verifier::external_body]
pub fn fresh_rng() -> rand::rngs::ThreadRng {
    rand::thread_rng()
}

/// Relies on `rand::Rng::gen_range`: returns a uniformly distributed value
/// in `[0, bound)`.  The call panics on an empty range, so a positive bound
/// is required; of the result only the range is stated, since nothing more
/// holds of a random draw.
#[verifier::external_body]
pub fn sample_below(rng: &mut rand::rngs::ThreadRng, bound: u64) -> (r: u64)
    requires
        1 <= bound,
    ensures
        r < bound,
{
    rng.gen_range(0..bound)
}

} // verus!
