//! The default source of randomness, which draws from the thread's generator.

use vstd::prelude::*;
use rand::Rng;
use crate::random_trait::RandomTrait;

verus! {

/// Draws from the generator that `rand` keeps for the current thread.
#[derive(Debug, Clone, Copy)]
pub struct DefaultRandom {}

/// Calls `rand::Rng::gen_range` on `rand::thread_rng()` with the inclusive
/// range `min..=max`. The range is not empty, so the call does not panic, and
/// what it returns lies in the range; nothing else is claimed of the value.
#[verifier::external_body]
fn thread_rng_range(min: usize, max: usize) -> (r: usize)
    requires
        min <= max,
    ensures
        min <= r <= max,
{
    rand::thread_rng().gen_range(min..=max)
}

/// Calls `rand::Rng::gen` on `rand::thread_rng()` for a `bool`. Nothing is
/// claimed of the value.
#[verifier::external_body]
fn thread_rng_bool() -> (b: bool) {
    rand::thread_rng().gen()
}

impl DefaultRandom {
    /// The default source, boxed as a capability.
    pub fn new() -> (r: Box<dyn RandomTrait>) {
        Box::new(DefaultRandom {  })
    }
}

impl RandomTrait for DefaultRandom {
    fn get_number(&self, min: usize, max: usize) -> (r: usize) {
        thread_rng_range(min, max)
    }

    fn get_bool(&self) -> (b: bool) {
        thread_rng_bool()
    }
}

} // verus!
