use vstd::prelude::*;

use crate::card::Card;
use rand::seq::SliceRandom;
use std::collections::VecDeque;

verus! {

/// Relies on rand::random::<u64>: a value drawn from the thread-local
/// generator, about which nothing is promised. Player UIDs come from it.
#[verifier::external_body]
pub(crate) fn generate_uid() -> u64 {
    rand::random::<u64>()
}

/// Relies on rand's `SliceRandom::shuffle` for slices, driven by
/// `rand::thread_rng`: it only swaps elements, so the result holds the same
/// cards, each as many times as before, in an order left to chance.
#[verifier::external_body]
pub(crate) fn shuffle_cards(deck: VecDeque<Card>) -> (r: VecDeque<Card>)
    ensures
        r@.to_multiset() == deck@.to_multiset(),
{
    let mut cards = Vec::from(deck);
    cards.shuffle(&mut rand::thread_rng());
    VecDeque::from(cards)
}

} // verus!
