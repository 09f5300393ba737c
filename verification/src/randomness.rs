//! The generator behind every random choice a deck makes.
//!
//! Nothing here is proved: each item states what the `rand` family of crates
//! documents of one of its functions, and the rest of the library is verified
//! against these statements alone.

use rand::seq::SliceRandom;
use rand::Rng;
use rand::SeedableRng;
use rand_xoshiro::Xoroshiro128PlusPlus;
use vstd::prelude::*;

verus! {

/// `rand_xoshiro::Xoroshiro128PlusPlus`, the generator that every deck owns.
/// Its state is hidden from proofs.
#[verifier::external_type_specification]
#[verifier::external_body]
pub struct ExXoroshiro128PlusPlus(Xoroshiro128PlusPlus);

/// `Clone::clone` of `Xoroshiro128PlusPlus`: the copy is in the state of the
/// generator it was made from.
pub assume_specification[ <Xoroshiro128PlusPlus as Clone>::clone ](
    rng: &Xoroshiro128PlusPlus,
) -> (copy: Xoroshiro128PlusPlus)
    ensures
        copy == *rng,
;

/// `SeedableRng::from_entropy`: a generator seeded by the operating system.
/// Nothing is known of its state. The call aborts the program if the system
/// cannot supply the seed.
#[verifier::external_body]
pub(crate) fn generator_from_entropy() -> (rng: Xoroshiro128PlusPlus) {
    Xoroshiro128PlusPlus::from_entropy()
}

/// The generator that `SeedableRng::from_seed` makes of the sixteen bytes
/// of a seed. It is made of the bytes alone, so one seed always gives a
/// generator in one and the same state.
pub uninterp spec fn generator_of_seed(seed: Seq<u8>) -> Xoroshiro128PlusPlus;

/// The generator that `SeedableRng::seed_from_u64` makes of a 64-bit seed.
/// It is made of the number alone, so one seed always gives a generator in
/// one and the same state.
pub uninterp spec fn generator_of_u64(seed: u64) -> Xoroshiro128PlusPlus;

/// `SeedableRng::from_seed`: a generator whose 128 bits of state are read
/// from `seed`, or stand in for them where all of them are zero. The state
/// itself is not spelled out: it is the one that goes by the name
/// [`generator_of_seed`].
#[verifier::external_body]
pub(crate) fn generator_from_seed(seed: [u8; 16]) -> (rng: Xoroshiro128PlusPlus)
    ensures
        rng == generator_of_seed(seed@),
{
    Xoroshiro128PlusPlus::from_seed(seed)
}

/// `SeedableRng::seed_from_u64`: a generator whose state is worked out from
/// `seed`. The state itself is not spelled out: it is the one that goes by
/// the name [`generator_of_u64`].
#[verifier::external_body]
pub(crate) fn generator_from_u64(seed: u64) -> (rng: Xoroshiro128PlusPlus)
    ensures
        rng == generator_of_u64(seed),
{
    Xoroshiro128PlusPlus::seed_from_u64(seed)
}

/// `Rng::gen_range` on `0..n`: an index below `n`. The call panics on an
/// empty range, so `n` must be positive.
#[verifier::external_body]
pub(crate) fn uniform_index(rng: &mut Xoroshiro128PlusPlus, n: usize) -> (index: usize)
    requires
        n > 0,
    ensures
        index < n,
{
    rng.gen_range(0..n)
}

/// Whether the trial that `Rng::gen_ratio` makes with these odds succeeds
/// for a generator in this state. The trial is worked out from the state
/// and the odds alone.
pub uninterp spec fn trial_outcome(
    rng: Xoroshiro128PlusPlus,
    numerator: u32,
    denominator: u32,
) -> bool;

/// The state in which `Rng::gen_ratio` with these odds leaves a generator
/// that was in this state.
pub uninterp spec fn generator_after_trial(
    rng: Xoroshiro128PlusPlus,
    numerator: u32,
    denominator: u32,
) -> Xoroshiro128PlusPlus;

/// Where `SliceRandom::shuffle` takes the items from: the item that it puts
/// at position `i` of `n` items stood at position `shuffled_places(rng,
/// n)[i]`, for a generator in this state. The places are worked out from
/// the state and the number of items alone, whatever the items are.
pub uninterp spec fn shuffled_places(rng: Xoroshiro128PlusPlus, n: nat) -> Seq<int>;

/// The state in which `SliceRandom::shuffle` of `n` items leaves a
/// generator that was in this state.
pub uninterp spec fn generator_after_shuffle(
    rng: Xoroshiro128PlusPlus,
    n: nat,
) -> Xoroshiro128PlusPlus;

/// The generator after `count` trials with the same odds, one after the
/// other.
pub open spec fn generator_after_trials(
    rng: Xoroshiro128PlusPlus,
    numerator: u32,
    denominator: u32,
    count: nat,
) -> Xoroshiro128PlusPlus
    decreases count,
{
    if count == 0 {
        rng
    } else {
        generator_after_trial(
            generator_after_trials(rng, numerator, denominator, (count - 1) as nat),
            numerator,
            denominator,
        )
    }
}

/// The outcomes of `count` trials with the same odds, in the order in which
/// they are made.
pub open spec fn trials(
    rng: Xoroshiro128PlusPlus,
    numerator: u32,
    denominator: u32,
    count: nat,
) -> Seq<bool>
    decreases count,
{
    if count == 0 {
        Seq::empty()
    } else {
        trials(rng, numerator, denominator, (count - 1) as nat).push(
            trial_outcome(
                generator_after_trials(rng, numerator, denominator, (count - 1) as nat),
                numerator,
                denominator,
            ),
        )
    }
}

/// `Rng::gen_ratio`: a trial that succeeds with probability
/// `numerator / denominator`. It is documented to succeed always where the
/// two are equal and never where `numerator` is zero, and to panic where
/// `denominator` is zero or less than `numerator`. The outcome and the state
/// of the generator afterwards are not spelled out: they go by the names
/// [`trial_outcome`] and [`generator_after_trial`].
#[verifier::external_body]
pub(crate) fn bernoulli_trial(
    rng: &mut Xoroshiro128PlusPlus,
    numerator: u32,
    denominator: u32,
) -> (success: bool)
    requires
        denominator > 0,
        numerator <= denominator,
    ensures
        success == trial_outcome(*old(rng), numerator, denominator),
        *final(rng) == generator_after_trial(*old(rng), numerator, denominator),
        numerator == denominator ==> success,
        numerator == 0 ==> !success,
{
    rng.gen_ratio(numerator, denominator)
}

/// `SliceRandom::shuffle`: rearranges the slice in place. It only ever swaps
/// items, at places that it draws from the generator, so the slice holds
/// the same items afterwards, each as often as before. Which item comes to
/// which place, and the state of the generator afterwards, are not spelled
/// out: they go by the names [`shuffled_places`] and
/// [`generator_after_shuffle`].
#[verifier::external_body]
pub(crate) fn shuffle_slice<U>(items: &mut [U], rng: &mut Xoroshiro128PlusPlus)
    ensures
        final(items)@.to_multiset() == old(items)@.to_multiset(),
        final(items)@.len() == old(items)@.len(),
        forall|i: int|
            0 <= i < old(items)@.len() ==> 0 <= #[trigger] shuffled_places(
                *old(rng),
                old(items)@.len(),
            )[i] < old(items)@.len() && final(items)@[i] == old(items)@[shuffled_places(
                *old(rng),
                old(items)@.len(),
            )[i]],
        *final(rng) == generator_after_shuffle(*old(rng), old(items)@.len()),
{
    items.shuffle(rng)
}

} // verus!
