//! Randomness is supplied by an explicit, externally owned
//! generator passed into each operation that needs it; determinism
//! for a fixed seed and call sequence is a hard requirement, so the
//! engine never owns or seeds a generator itself.
//!
//! The generator and the two operations the engine draws on are
//! trusted items over the `rand` crate.

use vstd::prelude::*;
use crate::events::{entries_model, pool_wf, PoolEntry};
use crate::probability::PROB_SCALE;

verus! {

/// The standard pseudo-random generator of the `rand` crate,
/// opaque to the verifier; values of it are only threaded through.
#[verifier::external_type_specification]
#[verifier::external_body]
pub struct ExStdRng(rand::rngs::StdRng);

/// One uniform draw against the fixed-point chance scale.
///
/// Relies on `rand::Rng::gen_range`: the sample lies in the given
/// half-open range, here `0..PROB_SCALE`. Nothing is assumed about
/// which value comes back.
#[verifier::external_body]
pub fn draw_chance(rng: &mut rand::rngs::StdRng) -> (r: u64)
    ensures
        r < PROB_SCALE,
{
    rand::Rng::gen_range(rng, 0..PROB_SCALE)
}

/// Shuffle the pool's entries into a uniformly random order.
///
/// Relies on `rand::seq::SliceRandom::shuffle`: a Fisher-Yates
/// shuffle permutes the slice in place, so the entries afterwards
/// are exactly the entries before, in some order; in particular
/// their models form the same multiset and distinct event ids stay
/// distinct. Nothing is assumed about the order.
#[verifier::external_body]
pub fn shuffle_entries(entries: &mut Vec<PoolEntry>, rng: &mut rand::rngs::StdRng)
    ensures
        final(entries)@.len() == old(entries)@.len(),
        final(entries)@.to_multiset() == old(entries)@.to_multiset(),
        entries_model(final(entries)@).to_multiset() == entries_model(
            old(entries)@,
        ).to_multiset(),
        pool_wf(entries_model(old(entries)@)) ==> pool_wf(entries_model(final(entries)@)),
{
    rand::seq::SliceRandom::shuffle(entries.as_mut_slice(), rng)
}

} // verus!
