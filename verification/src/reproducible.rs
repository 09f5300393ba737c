//! The same seed gives the same shuffles.
//!
//! Each law takes two decks before a shuffle and after it. What it requires
//! of the decks afterwards is what the shuffle ensures of them; what it
//! states is that decks which were alike are alike again, cards and
//! generator, so that whatever is done to both next keeps them alike.

use crate::arrangement::{dealt_piles, lifted, packets_turned, rearranged, woven};
use crate::deck::Deck;
use crate::randomness::{
    generator_after_shuffle, generator_after_trials, generator_of_seed, generator_of_u64,
    shuffled_places, trials,
};
use crate::shuffling::{generator_after_riffle, riffle_marks};
use vstd::prelude::*;

verus! {

/// The two decks hold the same cards in the same order, and their
/// generators are in the same state.
pub open spec fn alike<T>(one: Deck<T>, other: Deck<T>) -> bool {
    one@ == other@ && one.rng == other.rng
}

/// Decks that hold the same cards are alike once they are given the same
/// seed, whatever their generators were.
pub proof fn lemma_same_seed_alike<T>(one: Deck<T>, other: Deck<T>, seed: u64)
    requires
        one@ == other@,
        one.rng == generator_of_u64(seed),
        other.rng == generator_of_u64(seed),
    ensures
        alike(one, other),
{
}

/// The same holds of a seed of sixteen bytes.
pub proof fn lemma_same_seed_bytes_alike<T>(one: Deck<T>, other: Deck<T>, seed: Seq<u8>)
    requires
        one@ == other@,
        one.rng == generator_of_seed(seed),
        other.rng == generator_of_seed(seed),
    ensures
        alike(one, other),
{
}

/// Decks that are alike are alike after a uniform shuffle, and after a pile
/// shuffle with no fewer piles than cards, which is the same.
pub proof fn lemma_shuffle_reproducible<T>(
    one: Deck<T>,
    other: Deck<T>,
    one_after: Deck<T>,
    other_after: Deck<T>,
)
    requires
        alike(one, other),
        one_after@ == rearranged(one@, shuffled_places(one.rng, one@.len())),
        one_after.rng == generator_after_shuffle(one.rng, one@.len()),
        other_after@ == rearranged(other@, shuffled_places(other.rng, other@.len())),
        other_after.rng == generator_after_shuffle(other.rng, other@.len()),
    ensures
        alike(one_after, other_after),
{
}

/// Decks that are alike are alike after a riffle with decks of the same
/// cards.
pub proof fn lemma_riffle_reproducible<T>(
    one: Deck<T>,
    other: Deck<T>,
    right: Seq<T>,
    one_after: Deck<T>,
    other_after: Deck<T>,
)
    requires
        alike(one, other),
        one_after@ == woven(one@, right, riffle_marks(one.rng, one@.len(), right.len())),
        one_after.rng == generator_after_riffle(one.rng, one@.len(), right.len()),
        other_after@ == woven(other@, right, riffle_marks(other.rng, other@.len(), right.len())),
        other_after.rng == generator_after_riffle(other.rng, other@.len(), right.len()),
    ensures
        alike(one_after, other_after),
{
}

/// Decks that are alike are alike after a riffle backwards.
pub proof fn lemma_inverse_riffle_reproducible<T>(
    one: Deck<T>,
    other: Deck<T>,
    one_after: Deck<T>,
    other_after: Deck<T>,
)
    requires
        alike(one, other),
        one_after@ == lifted(one@, trials(one.rng, 1, 2, one@.len())),
        one_after.rng == generator_after_trials(one.rng, 1, 2, one@.len()),
        other_after@ == lifted(other@, trials(other.rng, 1, 2, other@.len())),
        other_after.rng == generator_after_trials(other.rng, 1, 2, other@.len()),
    ensures
        alike(one_after, other_after),
{
}

/// Decks that are alike are alike after Pemantle's shuffle with the same
/// odds, and so after an overhand shuffle, which only turns the deck over
/// after it.
pub proof fn lemma_premantle_reproducible<T>(
    one: Deck<T>,
    other: Deck<T>,
    numerator: u32,
    denominator: u32,
    one_after: Deck<T>,
    other_after: Deck<T>,
)
    requires
        alike(one, other),
        one_after@ == packets_turned(one@, trials(one.rng, numerator, denominator, one@.len())),
        one_after.rng == generator_after_trials(one.rng, numerator, denominator, one@.len()),
        other_after@ == packets_turned(
            other@,
            trials(other.rng, numerator, denominator, other@.len()),
        ),
        other_after.rng == generator_after_trials(
            other.rng,
            numerator,
            denominator,
            other@.len(),
        ),
    ensures
        alike(one_after, other_after),
{
}

/// Decks that are alike are alike after a pile shuffle with the same number
/// of piles, fewer than there are cards.
pub proof fn lemma_pile_shuffle_reproducible<T>(
    one: Deck<T>,
    other: Deck<T>,
    n: nat,
    one_after: Deck<T>,
    other_after: Deck<T>,
)
    requires
        alike(one, other),
        one_after@ == rearranged(dealt_piles(one@, n as int), shuffled_places(one.rng, n)).flatten(),
        one_after.rng == generator_after_shuffle(one.rng, n),
        other_after@ == rearranged(
            dealt_piles(other@, n as int),
            shuffled_places(other.rng, n),
        ).flatten(),
        other_after.rng == generator_after_shuffle(other.rng, n),
    ensures
        alike(one_after, other_after),
{
}

} // verus!
