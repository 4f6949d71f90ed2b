//! The source of randomness: the thread-local generator of the `rand` crate.

use vstd::prelude::*;
use rand::Rng;

verus! {

/// The handle to `rand`'s thread-local generator. Nothing is known of its
/// state.
#[verifier::external_type_specification]
#[verifier::external_body]
pub struct ExThreadRng(rand::rngs::ThreadRng);

/// `rand::thread_rng` hands out the handle to the calling thread's generator,
/// which the operating system seeds on first use. Nothing is claimed of the
/// handle. (Where the system cannot provide a seed, the call panics.)
pub assume_specification[ rand::thread_rng ]() -> (rng: rand::rngs::ThreadRng);

/// `Rng::gen_range` on the inclusive range `low..=high` of `u32`: an empty
/// range is ruled out, since the call panics on it, and the number drawn lies
/// in the range. Which number it is depends on the generator's state, so
/// nothing more is claimed.
#[verifier::external_body]
pub(crate) fn gen_range_inclusive(rng: &mut rand::rngs::ThreadRng, low: u32, high: u32) -> (drawn:
    u32)
    requires
        low <= high,
    ensures
        low <= drawn <= high,
{
    rng.gen_range(low..=high)
}

} // verus!
