//! The source of chance that seeds a board.

use rand::rngs::ThreadRng;
use rand::Rng;
use vstd::prelude::*;

verus! {

/// `rand::rngs::ThreadRng`, the handle to the generator that each thread
/// owns. Nothing is known of its state.
#[verifier::external_type_specification]
#[verifier::external_body]
pub struct ExThreadRng(ThreadRng);

/// `rand::thread_rng` hands out the calling thread's generator. Nothing is
/// claimed of the handle.
pub assume_specification[ rand::thread_rng ]() -> (rng: ThreadRng)
;

/// `Rng::gen` for `usize`: the next value of the generator. It may be any
/// `usize`, so nothing is claimed of it.
#[verifier::external_body]
pub(crate) fn draw(rng: &mut ThreadRng) -> (value: usize) {
    rng.gen()
}

} // verus!
