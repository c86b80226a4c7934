//! Random draws.
use vstd::prelude::*;

verus! {

/// Relies on `rand::random::<u64>`: a value drawn from the thread-local
/// generator. Nothing is known of which value comes back.
#[verifier::external_body]
pub(crate) fn random_u64() -> u64 {
    rand::random::<u64>()
}

} // verus!
