//! Trusted boundary to the random sources the crate relies on: UUID
//! generation for fresh identifiers and uniform sampling for gossip
//! targets.  Nothing is assumed about which values come back beyond what
//! the outside crates document; the callers state what holds of every
//! outcome.

use vstd::prelude::*;

verus! {

/// Relies on uuid's `Uuid::new_v4` and its `Display` form: a random
/// version-4 UUID rendered as the 36-character hyphenated string.
#[verifier::external_body]
pub(crate) fn new_uuid_string() -> (r: String)
    ensures
        r@.len() == 36,
{
    uuid::Uuid::new_v4().to_string()
}

/// Relies on rand's `SliceRandom::choose_multiple`: chooses
/// `min(amount, pool.len())` elements of the slice at random, without
/// repetition of positions, so with a duplicate-free pool the values drawn
/// are distinct.
#[verifier::external_body]
pub(crate) fn sample_distinct(pool: &Vec<String>, amount: usize) -> (r: Vec<String>)
    requires
        crate::types::names(pool@).no_duplicates(),
    ensures
        r@.len() == vstd::math::min(amount as int, pool@.len() as int),
        forall|i: int| 0 <= i < r@.len() ==> crate::types::names(pool@).contains(#[trigger] r@[i]@),
        crate::types::names(r@).no_duplicates(),
{
    let mut rng = rand::thread_rng();
    rand::seq::SliceRandom::choose_multiple(pool.as_slice(), &mut rng, amount).cloned().collect()
}

} // verus!
