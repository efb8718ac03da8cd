//! The two sources of fresh values the protocol needs: random group
//! exponents and opaque identifiers. Both rely on outside generators;
//! everything proved about the protocol holds for every value they can
//! return.

use vstd::prelude::*;

verus! {

/// Relies on `rand::thread_rng` and `rand::Rng::gen_range` over `0..q`:
/// the sampled value lies in `[0, q)`; the range is non-empty, so the
/// call does not panic.
#[verifier::external_body]
pub(crate) fn random_below(q: u64) -> (r: u64)
    requires
        q > 0,
    ensures
        r < q,
{
    rand::Rng::gen_range(&mut rand::thread_rng(), 0..q)
}

/// Relies on `uuid::Uuid::new_v4` and its hyphenated rendering: an
/// unguessable freshly drawn identifier. Nothing is assumed of the
/// drawn value beyond its rendered length.
#[verifier::external_body]
pub(crate) fn fresh_id() -> (r: String)
    ensures
        r@.len() == 36,
{
    uuid::Uuid::new_v4().to_string()
}

} // verus!
