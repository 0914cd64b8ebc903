//! The random words that the second-block search draws, from the `rand` crate.

use rand::rngs::ThreadRng;
use rand::Rng;
use vstd::prelude::*;

verus! {

/// `rand::rngs::ThreadRng`, carried through the search as an opaque value.
#[verifier::external_type_specification]
#[verifier::external_body]
pub struct ExThreadRng(ThreadRng);

/// Calls `rand::thread_rng()`, which hands out the calling thread's
/// generator. Nothing is claimed of it. (The crate's source panics inside
/// this call if the operating system cannot seed the generator.)
#[verifier::external_body]
pub(crate) fn thread_rng() -> ThreadRng {
    rand::thread_rng()
}

/// Calls `Rng::gen::<u32>()` on the generator. The result is any `u32`:
/// no clause constrains it.
#[verifier::external_body]
pub(crate) fn random_u32(rng: &mut ThreadRng) -> u32 {
    rng.gen::<u32>()
}

/// Calls `Rng::gen::<usize>()` on the generator. The result is any
/// `usize`: no clause constrains it.
#[verifier::external_body]
pub(crate) fn random_usize(rng: &mut ThreadRng) -> usize {
    rng.gen::<usize>()
}

} // verus!
