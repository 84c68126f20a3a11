//! The crate's one source of randomness.

use vstd::prelude::*;

verus! {

/// Relies on `rand::random`: one draw from the thread-local generator,
/// uniform over `u64`.  Nothing is promised of the value; every caller
/// states what holds of every outcome.
#[verifier::external_body]
pub fn random_u64() -> u64 {
    rand::random::<u64>()
}

} // verus!
