//! The seeded random generator of the simulation, from `rand_chacha`.

use rand::seq::SliceRandom;
use rand_chacha::ChaCha8Rng;
use vstd::prelude::*;

use crate::types::Ballot;

verus! {

/// The ChaCha generator of `rand_chacha`, held as an opaque value.
#[verifier::external_type_specification]
#[verifier::external_body]
pub struct ExChaCha8Rng(ChaCha8Rng);

/// Calls `rand::seq::SliceRandom::shuffle` on the ballots.
///
/// Trusted: the ballots come back as a permutation of those handed in (the
/// shuffle only swaps elements). Which permutation depends on the generator's
/// state and is left unsaid.
#[verifier::external_body]
pub(crate) fn shuffle_ballots(ballots: &mut Vec<Ballot>, rng: &mut ChaCha8Rng)
    ensures
        final(ballots)@.len() == old(ballots)@.len(),
        final(ballots)@.to_multiset() == old(ballots)@.to_multiset(),
{
    ballots.shuffle(rng)
}

} // verus!
