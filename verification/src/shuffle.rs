//! The random source of a sampler, and the one thing asked of it: a shuffle.

use rand::seq::SliceRandom;
use rand_chacha::ChaCha20Rng;
use vstd::prelude::*;

verus! {

/// `rand_chacha::ChaCha20Rng`, the random number generator that samplers
/// draw from. The verifier does not look inside it.
#[verifier::external_type_specification]
#[verifier::external_body]
pub struct ExChaCha20Rng(ChaCha20Rng);

/// `SliceRandom::shuffle` of `rand`, on a vector of labels: the labels are
/// put in an order that the generator picks.
/// Whatever it picks, the vector holds after the call the labels that it
/// held before, each as often as before.
#[verifier::external_body]
pub(crate) fn shuffle(labels: &mut Vec<usize>, rng: &mut ChaCha20Rng)
    ensures
        final(labels)@.to_multiset() == old(labels)@.to_multiset(),
{
    labels.shuffle(rng)
}

} // verus!
