//! Trusted randomness: thin wrappers over `rand`'s thread-local generator.
//! Resolution and assembly are verified for every value these can return.

use vstd::prelude::*;

verus! {

/// Relies on rand's `Rng::gen_range`: a value drawn uniformly from
/// `[0, len)`; it panics only on an empty range, which the bound rules out.
#[verifier::external_body]
pub(crate) fn random_index(len: usize) -> (r: usize)
    requires
        len > 0,
    ensures
        r < len,
{
    rand::Rng::gen_range(&mut rand::thread_rng(), 0..len)
}

/// Relies on rand's `Rng::gen_range`: a compass heading drawn uniformly
/// from `[0, 360)`.
#[verifier::external_body]
pub(crate) fn random_heading() -> (r: u16)
    ensures
        r < 360,
{
    rand::Rng::gen_range(&mut rand::thread_rng(), 0u16..360u16)
}

} // verus!
