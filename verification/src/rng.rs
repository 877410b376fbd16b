//! The library's only sources of randomness, each behind a trusted wrapper.
//! Nothing is promised about which value comes back, so every caller is
//! verified for all outcomes.

use vstd::prelude::*;

use rand::Rng;

verus! {

/// Relies on `rand::Rng::gen_range` over `0..n`: the sample lies in the
/// half-open range, and the call panics only on an empty range, which the
/// precondition rules out.
#[verifier::external_body]
pub(crate) fn random_index(n: usize) -> (r: usize)
    requires
        n > 0,
    ensures
        r < n,
{
    rand::thread_rng().gen_range(0..n)
}

/// Relies on `rand::random`: an arbitrary 32-bit room code; nothing is
/// promised about the value.
#[verifier::external_body]
pub(crate) fn random_room_code() -> (r: u32) {
    rand::random::<u32>()
}

} // verus!
