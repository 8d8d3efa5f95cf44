//! The randomness the agents draw on: sampling identifiers from a pool or
//! an index, and the monthly condition-decay fraction.  Both are trusted
//! wrappers around the rand crate; their contracts state only what holds
//! of every outcome, since which values come back is up to the generator.

use vstd::prelude::*;
use rand::Rng;
use rand::seq::SliceRandom;
use crate::fixed::SCALE;

verus! {

/// Draw up to `amount` identifiers from `xs`, without replacement.
///
/// Relies on rand's `SliceRandom::choose_multiple`: it yields
/// `min(amount, xs.len())` elements of the slice, each drawn from a
/// distinct position.  Which elements come back is up to the generator,
/// so the contract promises membership and count alone.
#[verifier::external_body]
pub(crate) fn sample_ids(xs: &Vec<usize>, amount: usize) -> (r: Vec<usize>)
    ensures
        r@.len() == (if amount <= xs@.len() { amount as nat } else { xs@.len() }),
        forall|j: int| 0 <= j < r@.len() ==> xs@.contains(#[trigger] r@[j]),
{
    let mut rng = rand::thread_rng();
    xs.choose_multiple(&mut rng, amount).cloned().collect()
}

/// Draw a fixed-point fraction in `[0, 1)`: the monthly condition decay.
///
/// Relies on rand's `Rng::gen_range`: the value lies within the
/// half-open range it is given.
#[verifier::external_body]
pub(crate) fn random_fraction() -> (r: u64)
    ensures
        r < SCALE,
{
    rand::thread_rng().gen_range(0..SCALE)
}

} // verus!
