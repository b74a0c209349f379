//! Random draws within a range, on top of the `rand` crate's thread-local
//! generator.

use rand::Rng;

use vstd::prelude::*;

verus! {

#[verifier::external_type_specification]
#[verifier::external_body]
pub struct ExThreadRng(rand::rngs::ThreadRng);

/// Relies on rand::thread_rng: a handle to the thread-local generator.
#[verifier::external_body]
fn fresh_rng() -> rand::rngs::ThreadRng {
    rand::thread_rng()
}

/// Relies on rand::Rng::gen_range on an i64 half-open range: the draw lies
/// within the given bounds, which must be non-empty.
#[verifier::external_body]
fn gen_range_i64(rng: &mut rand::rngs::ThreadRng, min: i64, max: i64) -> (r: i64)
    requires
        min < max,
    ensures
        min <= r < max,
{
    rng.gen_range(min..max)
}

/// A draw in `[min, max)`; an empty or reversed range yields 0.
pub fn rand_range(min: i64, max: i64) -> (r: i64)
    ensures
        min < max ==> min <= r < max,
        min >= max ==> r == 0,
{
    if min >= max {
        0
    } else {
        let mut rng = fresh_rng();
        gen_range_i64(&mut rng, min, max)
    }
}

} // verus!
