use vstd::prelude::*;

verus! {

/// Relies on `rand::random::<u16>`: a value drawn from the thread-local
/// generator. Nothing is known of it, so nothing is promised.
#[verifier::external_body]
pub(crate) fn random_u16() -> (r: u16) {
    rand::random::<u16>()
}

} // verus!
