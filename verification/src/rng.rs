//! The crate's source of randomness: cookies and packet padding.

use vstd::prelude::*;

verus! {

/// Relies on `rand::Rng::fill` on the thread-local generator: it fills the
/// whole slice with random bytes.  Nothing can be promised of the values.
#[verifier::external_body]
pub(crate) fn random_bytes(n: usize) -> (r: Vec<u8>)
    ensures
        r@.len() == n,
{
    let mut v = vec![0u8; n];
    rand::Rng::fill(&mut rand::thread_rng(), v.as_mut_slice());
    v
}

} // verus!
