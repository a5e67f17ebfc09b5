//! Random numbers.
use rand::Rng;
use vstd::prelude::*;

verus! {

/// `Rng::next_u32` of `rand::rng()`: any 32-bit number may come.
#[verifier::external_body]
pub(crate) fn random_u32() -> (n: u32) {
    rand::rng().next_u32()
}

} // verus!
