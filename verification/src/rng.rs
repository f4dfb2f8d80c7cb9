//! The random byte source for the `CXNN` opcode.

use vstd::prelude::*;

verus! {

/// Relies on rand's `thread_rng().gen::<u8>()`: a uniformly distributed
/// random byte. Nothing is promised of the value; callers state what holds
/// of every outcome.
#[verifier::external_body]
pub(crate) fn random_u8() -> u8 {
    rand::Rng::gen::<u8>(&mut rand::thread_rng())
}

} // verus!
