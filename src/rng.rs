//! Random draws for gameplay rolls, from the thread-local generator.
use vstd::prelude::*;

verus! {

/// Relies on rand::Rng::gen_range over rand::thread_rng: a uniform draw from
/// `0..hi`; it panics on an empty range.
#[verifier::external_body]
pub(crate) fn random_below(hi: u64) -> (r: u64)
    requires
        hi > 0,
    ensures
        r < hi,
{
    rand::Rng::gen_range(&mut rand::thread_rng(), 0..hi)
}

} // verus!
