//! The randomness the gossip scheduler draws on, behind a trusted
//! boundary. The generator is injected by the caller, so a test can
//! seed it and get a reproducible run.

use vstd::prelude::*;

verus! {

/// Declares rand's `StdRng`, so that a generator owned by the caller
/// can cross the library's signatures; the library sees nothing inside
/// it and draws from it only through `rng_range`.
#[verifier::external_type_specification]
#[verifier::external_body]
pub struct ExStdRng(rand::rngs::StdRng);

/// Relies on rand's `Rng::gen_range` over the inclusive range
/// `lo..=hi`: it returns a sample within the bounds and panics only on
/// an empty range, which the precondition rules out.
#[verifier::external_body]
pub(crate) fn rng_range(rng: &mut rand::rngs::StdRng, lo: usize, hi: usize) -> (r: usize)
    requires
        lo <= hi,
    ensures
        lo <= r <= hi,
{
    rand::Rng::gen_range(rng, lo..=hi)
}

} // verus!
