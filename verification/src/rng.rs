//! The random number generator that Cxkk draws from, and the two calls
//! into `rand` that the interpreter makes.

use vstd::prelude::*;

use rand::rngs::ThreadRng;
use rand::RngExt;

verus! {

/// The handle to the thread-local generator of `rand`, carried through the
/// interpreter unopened.
#[verifier::external_type_specification]
#[verifier::external_body]
pub struct ExThreadRng(rand::rngs::ThreadRng);

/// Calls `rand::rng()`, which hands out a handle to the thread-local
/// generator. Nothing is claimed of the handle. (`rand` documents that this
/// panics when the operating system cannot seed the generator the first time.)
#[verifier::external_body]
pub(crate) fn thread_rng() -> ThreadRng {
    rand::rng()
}

/// Calls `RngExt::random::<u8>` on the generator: the result is a byte drawn
/// uniformly at random, so no clause relates it to anything; every `u8` may
/// come back.
#[verifier::external_body]
pub(crate) fn random_byte(rng: &mut ThreadRng) -> u8 {
    rng.random::<u8>()
}

} // verus!
