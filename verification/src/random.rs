use rand::rngs::ThreadRng;
use rand::Rng;
use vstd::prelude::*;

verus! {

/// The generator of random numbers that `rand` keeps for each thread.
/// Nothing is known of what it holds.
#[verifier::external_type_specification]
#[verifier::external_body]
pub struct ExThreadRng(ThreadRng);

/// `rand::thread_rng` hands out the thread's generator. Nothing is claimed
/// of it. It panics where the system cannot seed the generator, which no
/// argument decides.
pub assume_specification[ rand::thread_rng ]() -> (generator: ThreadRng)
;

/// Draws a whole number from `low` up to, but without, `high`.
///
/// The number comes from `rand::Rng::gen_range`, called with the range
/// `low..high`. All that is claimed of it is the range in which it lies:
/// two calls with the same bounds may well differ. An empty range is left
/// out, because `gen_range` panics on it.
#[verifier::external_body]
pub(crate) fn random_between(generator: &mut ThreadRng, low: u32, high: u32) -> (drawn: u32)
    requires
        low < high,
    ensures
        low <= drawn < high,
{
    generator.gen_range(low..high)
}

} // verus!
