use vstd::prelude::*;
use rand::seq::SliceRandom;
use rltk::RandomNumberGenerator;
use crate::move_type::AttackType;

verus! {

/// The dice that every roll of the combat core is drawn from.
#[verifier::external_type_specification]
#[verifier::external_body]
pub struct ExRandomNumberGenerator(rltk::RandomNumberGenerator);

/// Relies on rltk's `RandomNumberGenerator::range`, a uniform draw from
/// `min..max` (rand's `gen_range`, which panics on an empty range).
#[verifier::external_body]
pub(crate) fn roll(rng: &mut RandomNumberGenerator, min: i32, max: i32) -> (r: i32)
    requires
        min < max,
    ensures
        min <= r < max,
{
    rng.range(min, max)
}

/// Relies on rand's `SliceRandom::shuffle` with the thread-local generator:
/// the cards are permuted in place.
#[verifier::external_body]
pub(crate) fn shuffle_cards(cards: &mut Vec<AttackType>)
    ensures
        final(cards)@.to_multiset() == old(cards)@.to_multiset(),
{
    cards.shuffle(&mut rand::thread_rng());
}

} // verus!
