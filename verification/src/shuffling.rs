//! The shuffles: the ways in which a deck rearranges its own cards.

use crate::arrangement::{
    dealt_pile, dealt_piles, every_nth, faro_order, interleaves, lemma_flatten_update,
    lemma_lifting_keeps_cards, lemma_marked_before_agree, lemma_marked_before_grows,
    lemma_packet_end_found, lemma_packet_start_found, lemma_packets_of_trivial_cuts,
    lemma_rearranged_flatten, lemma_rearranged_map, lemma_woven_is_a_riffle, lifted,
    marked_before, marks_fit, packets_turned, rearranged, same_cards, selected, woven,
};
use crate::deck::{contiguous, turn_over, Deck, DeckError};
use crate::faro::lemma_faro_is_a_riffle;
use crate::randomness::{
    bernoulli_trial, generator_after_shuffle, generator_after_trial, generator_after_trials,
    shuffle_slice, shuffled_places, trial_outcome, trials,
};
use rand_xoshiro::Xoroshiro128PlusPlus;
use std::collections::VecDeque;
use vstd::prelude::*;

verus! {

/// The piles of a row, each as the sequence of its cards.
pub open spec fn stacks_of<T>(piles: Seq<VecDeque<T>>) -> Seq<Seq<T>> {
    piles.map_values(|pile: VecDeque<T>| pile@)
}

/// The marks of one riffle of a packet of `right` cards into one of `left`
/// cards, for a generator in this state. As long as the second packet
/// holds a card, a trial with the odds of its cards among all that are
/// still to fall decides whether its next card falls; after that the cards
/// of the first packet fall, and no trial is made for them.
pub open spec fn riffle_marks(rng: Xoroshiro128PlusPlus, left: nat, right: nat) -> Seq<bool>
    decreases left + right,
{
    if right == 0 {
        Seq::new(left, |i: int| false)
    } else {
        let falls = trial_outcome(rng, right as u32, (left + right) as u32);
        let next = generator_after_trial(rng, right as u32, (left + right) as u32);
        if falls || left == 0 {
            seq![true] + riffle_marks(next, left, (right - 1) as nat)
        } else {
            seq![false] + riffle_marks(next, (left - 1) as nat, right)
        }
    }
}

/// The state in which the trials of [`riffle_marks`] leave the generator.
pub open spec fn generator_after_riffle(
    rng: Xoroshiro128PlusPlus,
    left: nat,
    right: nat,
) -> Xoroshiro128PlusPlus
    decreases left + right,
{
    if right == 0 {
        rng
    } else {
        let falls = trial_outcome(rng, right as u32, (left + right) as u32);
        let next = generator_after_trial(rng, right as u32, (left + right) as u32);
        if falls || left == 0 {
            generator_after_riffle(next, left, (right - 1) as nat)
        } else {
            generator_after_riffle(next, (left - 1) as nat, right)
        }
    }
}

impl<T> Deck<T> {
    /// Shuffles the deck so that every order of its cards is as likely as
    /// any other, with the deck's own generator. The order is the one that
    /// the generator gives for this number of cards: each card comes from
    /// the place that [`shuffled_places`] names for its new position.
    pub fn shuffle(&mut self)
        ensures
            final(self)@ == rearranged(
                old(self)@,
                shuffled_places(old(self).rng, old(self)@.len()),
            ),
            final(self).rng == generator_after_shuffle(old(self).rng, old(self)@.len()),
            same_cards(final(self)@, old(self)@),
            final(self)@.len() == old(self)@.len(),
    {
        let slice = contiguous(&mut self.cards);
        shuffle_slice(slice, &mut self.rng);
        assert(self@ =~= rearranged(
            old(self)@,
            shuffled_places(old(self).rng, old(self)@.len()),
        ));
    }

    /// Puts the cards of `right` below this deck's own and shuffles them
    /// all, as [`Deck::shuffle`] does it, with this deck's generator.
    pub fn shuffle_with(&mut self, right: Deck<T>)
        ensures
            final(self)@ == rearranged(
                old(self)@ + right@,
                shuffled_places(old(self).rng, old(self)@.len() + right@.len()),
            ),
            final(self).rng == generator_after_shuffle(
                old(self).rng,
                old(self)@.len() + right@.len(),
            ),
            final(self)@.to_multiset() == old(self)@.to_multiset().add(right@.to_multiset()),
            final(self)@.len() == old(self)@.len() + right@.len(),
    {
        self.extend(right);
        self.shuffle();
        proof {
            vstd::seq_lib::lemma_multiset_commutative(old(self)@, right@);
        }
    }

    /// One riffle of `right` into this deck with the marks given.
    /// `from_right` has a flag for every card of the merged deck, from the
    /// top: where it is set the next card of `right` falls, and where it is
    /// not, the next card of this deck. The cards of each of the two keep
    /// their order. Refused, with no card moved, where the flags are not as
    /// many as the cards of both decks, or where those that are set are not
    /// as many as the cards of `right`.
    pub fn riffle_with_marks(&mut self, right: Deck<T>, from_right: &[bool]) -> (outcome: Result<
        (),
        DeckError,
    >)
        ensures
            marks_fit(from_right@, old(self)@.len(), right@.len()) ==> outcome is Ok && final(self)@ == woven(old(self)@, right@, from_right@),
            outcome is Ok ==> from_right@.len() == final(self)@.len() && selected(
                final(self)@,
                from_right@,
                false,
            ) == old(self)@ && selected(final(self)@, from_right@, true) == right@
                && interleaves(old(self)@, right@, final(self)@) && final(self)@.to_multiset()
                == old(self)@.to_multiset().add(right@.to_multiset()),
            !marks_fit(from_right@, old(self)@.len(), right@.len()) ==> outcome == Err::<
                (),
                DeckError,
            >(DeckError::InvalidArgument) && final(self)@ == old(self)@,
            final(self).rng == old(self).rng,
    {
        let ghost left0 = self@;
        let ghost right0 = right@;
        let ghost marks = from_right@;
        let mut right = right;
        let l = self.cards.len();
        let r = right.cards.len();
        let total = from_right.len();
        let mut set: usize = 0;
        let mut k: usize = 0;
        while k < total
            invariant
                k <= total,
                total == marks.len(),
                marks == from_right@,
                set == marked_before(marks, k as int),
                set <= k,
            decreases total - k,
        {
            if from_right[k] {
                set += 1;
            }
            k += 1;
        }
        if total < l || total - l != r || set != r {
            return Err(DeckError::InvalidArgument);
        }
        let ghost merged = woven(left0, right0, marks);
        let mut taken: usize = 0;
        let mut p: usize = 0;
        while p < total
            invariant
                p <= total,
                total == l + r,
                total == marks.len(),
                marks == from_right@,
                l == left0.len(),
                r == right0.len(),
                marks_fit(marks, left0.len(), right0.len()),
                merged == woven(left0, right0, marks),
                self.rng == old(self).rng,
                taken == marked_before(marks, p as int),
                taken <= r,
                p - taken <= l,
                self@.len() == l + taken,
                right@ == right0.subrange(taken as int, r as int),
                forall|q: int| 0 <= q < p ==> #[trigger] self@[q] == merged[q],
                forall|q: int| p <= q < l + taken ==> #[trigger] self@[q] == left0[q - taken],
            decreases total - p,
        {
            proof {
                lemma_marked_before_grows(marks, p + 1, total as int);
                lemma_marked_before_grows(marks, 0, p as int);
            }
            if from_right[p] {
                let card = right.cards.pop_front().unwrap();
                self.cards.insert(p, card);
                taken += 1;
            }
            p += 1;
        }
        proof {
            assert(self@ =~= merged);
            lemma_woven_is_a_riffle(left0, right0, marks);
        }
        Ok(())
    }

    /// Draws the marks of one riffle of a packet of `right` cards into one
    /// of `left` cards.
    fn draw_riffle_marks(&mut self, left: usize, right: usize) -> (marks: Vec<bool>)
        requires
            left + right <= u32::MAX,
        ensures
            marks@ == riffle_marks(old(self).rng, left as nat, right as nat),
            marks_fit(marks@, left as nat, right as nat),
            final(self).rng == generator_after_riffle(old(self).rng, left as nat, right as nat),
            final(self)@ == old(self)@,
    {
        let mut marks: Vec<bool> = Vec::new();
        let mut l_len: usize = left;
        let mut r_len: usize = right;
        while r_len > 0
            invariant
                left + right <= u32::MAX,
                l_len <= left,
                r_len <= right,
                self@ == old(self)@,
                marks@.len() == (left - l_len) + (right - r_len),
                marked_before(marks@, marks@.len() as int) == right - r_len,
                riffle_marks(old(self).rng, left as nat, right as nat) == marks@ + riffle_marks(
                    self.rng,
                    l_len as nat,
                    r_len as nat,
                ),
                generator_after_riffle(old(self).rng, left as nat, right as nat)
                    == generator_after_riffle(self.rng, l_len as nat, r_len as nat),
            decreases l_len + r_len,
        {
            let ghost drawn = marks@;
            let ghost rest = riffle_marks(self.rng, l_len as nat, r_len as nat);
            let falls = bernoulli_trial(&mut self.rng, r_len as u32, (l_len + r_len) as u32);
            marks.push(falls);
            if falls {
                r_len -= 1;
            } else {
                l_len -= 1;
            }
            proof {
                let after = riffle_marks(self.rng, l_len as nat, r_len as nat);
                assert(rest == seq![falls] + after);
                assert(drawn + (seq![falls] + after) =~= drawn.push(falls) + after);
                lemma_marked_before_agree(drawn, marks@, drawn.len() as int);
            }
        }
        while l_len > 0
            invariant
                l_len <= left,
                r_len == 0,
                self@ == old(self)@,
                marks@.len() == (left - l_len) + right,
                marked_before(marks@, marks@.len() as int) == right,
                riffle_marks(old(self).rng, left as nat, right as nat) == marks@ + Seq::new(
                    l_len as nat,
                    |i: int| false,
                ),
                self.rng == generator_after_riffle(old(self).rng, left as nat, right as nat),
            decreases l_len,
        {
            let ghost drawn = marks@;
            marks.push(false);
            l_len -= 1;
            proof {
                assert(drawn + Seq::new((l_len + 1) as nat, |i: int| false) =~= drawn.push(false)
                    + Seq::new(l_len as nat, |i: int| false));
                lemma_marked_before_agree(drawn, marks@, drawn.len() as int);
            }
        }
        proof {
            assert(marks@ + Seq::new(0nat, |i: int| false) =~= marks@);
        }
        marks
    }

    /// One riffle of `right` into this deck, after Gilbert, Shannon and Reeds:
    /// the next card of the merged deck comes from `right` with the odds of
    /// the cards that `right` still holds among all that are still to come.
    /// The cards of each of the two keep their order. The trials are those
    /// that [`riffle_marks`] names, and what they do to the deck is said by
    /// [`Deck::riffle_with_marks`].
    ///
    /// The odds are handed to the generator as 32-bit numbers, so the two
    /// decks together hold no more cards than such a number counts.
    pub fn riffle_with(&mut self, right: Deck<T>)
        requires
            old(self)@.len() + right@.len() <= u32::MAX,
        ensures
            final(self)@ == woven(
                old(self)@,
                right@,
                riffle_marks(old(self).rng, old(self)@.len(), right@.len()),
            ),
            final(self).rng == generator_after_riffle(
                old(self).rng,
                old(self)@.len(),
                right@.len(),
            ),
            interleaves(old(self)@, right@, final(self)@),
            final(self)@.to_multiset() == old(self)@.to_multiset().add(right@.to_multiset()),
            final(self)@.len() == old(self)@.len() + right@.len(),
    {
        let marks = self.draw_riffle_marks(self.cards.len(), right.cards.len());
        let outcome = self.riffle_with_marks(right, marks.as_slice());
        proof {
            lemma_woven_is_a_riffle(old(self)@, right@, marks@);
        }
    }

    /// One riffle of the deck against itself: the cards from position `n` on
    /// are taken off and riffled back into the top `n`, as
    /// [`Deck::riffle_with`] does it.
    pub fn riffle_at_nth(&mut self, n: usize)
        requires
            n <= old(self)@.len() <= u32::MAX,
        ensures
            final(self)@ == woven(
                old(self)@.subrange(0, n as int),
                old(self)@.subrange(n as int, old(self)@.len() as int),
                riffle_marks(old(self).rng, n as nat, (old(self)@.len() - n) as nat),
            ),
            final(self).rng == generator_after_riffle(
                old(self).rng,
                n as nat,
                (old(self)@.len() - n) as nat,
            ),
            interleaves(
                old(self)@.subrange(0, n as int),
                old(self)@.subrange(n as int, old(self)@.len() as int),
                final(self)@,
            ),
            same_cards(final(self)@, old(self)@),
            final(self)@.len() == old(self)@.len(),
    {
        let right = self.split_off_nth(n);
        self.riffle_with(right);
        proof {
            let top = old(self)@.subrange(0, n as int);
            let bottom = old(self)@.subrange(n as int, old(self)@.len() as int);
            assert(top + bottom == old(self)@);
            vstd::seq_lib::lemma_multiset_commutative(top, bottom);
        }
    }

    /// A riffle backwards with the lifts given. `lifts` has a flag for every
    /// card, from the top; the cards whose flag is set are lifted out and go
    /// below those that stay, and both keep their order. Refused, with no
    /// card moved, where `lifts` has more flags than the deck has cards, or
    /// fewer.
    pub fn inverse_riffle_at(&mut self, lifts: &[bool]) -> (outcome: Result<(), DeckError>)
        ensures
            lifts@.len() == old(self)@.len() ==> outcome is Ok && final(self)@ == lifted(
                old(self)@,
                lifts@,
            ),
            lifts@.len() != old(self)@.len() ==> outcome == Err::<(), DeckError>(
                DeckError::InvalidArgument,
            ) && final(self)@ == old(self)@,
            final(self).rng == old(self).rng,
            same_cards(final(self)@, old(self)@),
            final(self)@.len() == old(self)@.len(),
    {
        let ghost before = self@;
        let n = self.cards.len();
        if lifts.len() != n {
            return Err(DeckError::InvalidArgument);
        }
        let mut cursor: usize = 0;
        let mut seen: usize = 0;
        while seen < n
            invariant
                seen <= n,
                n == before.len(),
                n == lifts@.len(),
                cursor <= seen,
                self@.len() == n,
                self.rng == old(self).rng,
                cursor == selected(before.subrange(0, seen as int), lifts@, false).len(),
                self@ == selected(before.subrange(0, seen as int), lifts@, false) + before.subrange(
                    seen as int,
                    n as int,
                ) + selected(before.subrange(0, seen as int), lifts@, true),
            decreases n - seen,
        {
            let ghost done = before.subrange(0, seen as int);
            let ghost kept = selected(done, lifts@, false);
            let ghost taken = selected(done, lifts@, true);
            let ghost card = before[seen as int];
            proof {
                assert(before.subrange(0, seen + 1).drop_last() == done);
                assert(before.subrange(0, seen + 1).last() == card);
                assert(self@[cursor as int] == card);
            }
            if lifts[seen] {
                let lifted_card = self.cards.remove(cursor).unwrap();
                self.cards.push_back(lifted_card);
                assert(self@ == kept + before.subrange(seen + 1, n as int) + taken.push(card));
            } else {
                cursor += 1;
                assert(self@ == kept.push(card) + before.subrange(seen + 1, n as int) + taken);
            }
            seen += 1;
        }
        proof {
            assert(before.subrange(0, n as int) == before);
            assert(self@ == lifted(before, lifts@));
            lemma_lifting_keeps_cards(before, lifts@);
        }
        Ok(())
    }

    /// A riffle backwards. For each card in turn, from the top, the toss of
    /// a fair coin decides whether it is lifted out; the lifted cards go
    /// below those that stay, and both keep their order, as
    /// [`Deck::inverse_riffle_at`] says.
    pub fn inverse_riffle(&mut self)
        ensures
            final(self)@ == lifted(old(self)@, trials(old(self).rng, 1, 2, old(self)@.len())),
            final(self).rng == generator_after_trials(old(self).rng, 1, 2, old(self)@.len()),
            same_cards(final(self)@, old(self)@),
            final(self)@.len() == old(self)@.len(),
    {
        let lifts = self.draw_trials(1, 2);
        let outcome = self.inverse_riffle_at(lifts.as_slice());
    }

    /// A Gilbreath shuffle: the top `n` cards are dealt off into a packet,
    /// which reverses them, and the packet is riffled into the others.
    /// Refused, with no card moved, where the deck holds fewer than `n`
    /// cards.
    pub fn gilbreath(&mut self, n: usize) -> (outcome: Result<(), DeckError>)
        requires
            n <= old(self)@.len() ==> old(self)@.len() <= u32::MAX,
        ensures
            n <= old(self)@.len() ==> outcome is Ok && final(self)@ == woven(
                old(self)@.subrange(0, n as int).reverse(),
                old(self)@.subrange(n as int, old(self)@.len() as int),
                riffle_marks(old(self).rng, n as nat, (old(self)@.len() - n) as nat),
            ) && final(self).rng == generator_after_riffle(
                old(self).rng,
                n as nat,
                (old(self)@.len() - n) as nat,
            ) && interleaves(
                old(self)@.subrange(0, n as int).reverse(),
                old(self)@.subrange(n as int, old(self)@.len() as int),
                final(self)@,
            ),
            n > old(self)@.len() ==> outcome == Err::<(), DeckError>(DeckError::InvalidArgument)
                && final(self)@ == old(self)@ && final(self).rng == old(self).rng,
            same_cards(final(self)@, old(self)@),
            final(self)@.len() == old(self)@.len(),
    {
        if n > self.cards.len() {
            return Err(DeckError::InvalidArgument);
        }
        let rest = self.split_off_nth(n);
        self.reverse();
        self.riffle_with(rest);
        proof {
            let top = old(self)@.subrange(0, n as int);
            let bottom = old(self)@.subrange(n as int, old(self)@.len() as int);
            assert(top + bottom == old(self)@);
            vstd::seq_lib::lemma_multiset_commutative(top, bottom);
            top.lemma_reverse_to_multiset();
        }
        Ok(())
    }

    /// A faro shuffle, the perfect riffle: the deck is split in the middle
    /// and the halves are woven card by card. An out-shuffle leaves the top
    /// card on top; an in-shuffle puts it second. With an odd number of cards
    /// the bottom half holds one more than the top half; an in-shuffle
    /// weaves them all the same, and an out-shuffle is refused, with no card
    /// moved.
    pub fn faro(&mut self, out: bool) -> (outcome: Result<(), DeckError>)
        ensures
            !out || old(self)@.len() % 2 == 0 ==> outcome is Ok && final(self)@ == faro_order(
                old(self)@,
                out,
            ),
            out && old(self)@.len() % 2 == 1 ==> outcome == Err::<(), DeckError>(
                DeckError::InvalidArgument,
            ) && final(self)@ == old(self)@,
            final(self).rng == old(self).rng,
            same_cards(final(self)@, old(self)@),
            final(self)@.len() == old(self)@.len(),
    {
        let ghost before = self@;
        let len = self.cards.len();
        if out && len % 2 == 1 {
            return Err(DeckError::InvalidArgument);
        }
        let half = len / 2;
        let mut right = self.cards.split_off(half);
        let count = right.len();
        let start: usize = if out {
            1
        } else {
            0
        };
        let mut k: usize = 0;
        while k < count
            invariant
                k <= count,
                len == before.len(),
                half == len / 2,
                count == len - half,
                start == if out { 1usize } else { 0usize },
                !out || len % 2 == 0,
                self.rng == old(self).rng,
                self@.len() == half + k,
                right@ == before.subrange(half + k, len as int),
                forall|p: int|
                    0 <= p < self@.len() ==> #[trigger] self@[p] == if p < 2 * k {
                        faro_order(before, out)[p]
                    } else {
                        before[p - k]
                    },
            decreases count - k,
        {
            let card = right.pop_front().unwrap();
            self.cards.insert(2 * k + start, card);
            k += 1;
        }
        proof {
            assert(self@ =~= faro_order(before, out));
            lemma_faro_is_a_riffle(before, out);
        }
        Ok(())
    }

    /// Pemantle's shuffle with the cuts given: the deck is cut into packets,
    /// and each packet but the last is turned over where it lies. `cuts`
    /// has a flag for every card, from the top; a set flag ends a packet
    /// above its card. Refused, with no card moved, where `cuts` has more
    /// flags than the deck has cards, or fewer.
    pub fn premantle_at(&mut self, cuts: &[bool]) -> (outcome: Result<(), DeckError>)
        ensures
            cuts@.len() == old(self)@.len() ==> outcome is Ok && final(self)@ == packets_turned(
                old(self)@,
                cuts@,
            ),
            cuts@.len() != old(self)@.len() ==> outcome == Err::<(), DeckError>(
                DeckError::InvalidArgument,
            ) && final(self)@ == old(self)@,
            final(self).rng == old(self).rng,
            same_cards(final(self)@, old(self)@),
            final(self)@.len() == old(self)@.len(),
    {
        let ghost before = self@;
        let n = self.cards.len();
        if cuts.len() != n {
            return Err(DeckError::InvalidArgument);
        }
        let mut lo: usize = 0;
        let mut i: usize = 0;
        while i < n
            invariant
                i <= n,
                n == before.len(),
                n == cuts@.len(),
                self@.len() == n,
                self.rng == old(self).rng,
                same_cards(self@, before),
                lo <= i,
                i > 0 ==> lo < i,
                lo == 0 || cuts@[lo as int],
                forall|j: int| lo < j < i ==> !cuts@[j],
                forall|p: int| lo <= p < n ==> #[trigger] self@[p] == before[p],
                forall|p: int|
                    0 <= p < lo ==> #[trigger] self@[p] == packets_turned(before, cuts@)[p],
            decreases n - i,
        {
            if cuts[i] {
                let ghost held = self@;
                turn_over(&mut self.cards, lo, i);
                proof {
                    assert forall|p: int| 0 <= p < i implies #[trigger] self@[p] == packets_turned(
                        before,
                        cuts@,
                    )[p] by {
                        if p < lo {
                            assert(self@[p] == held[p]);
                        } else {
                            lemma_packet_end_found(cuts@, p, i as int);
                            lemma_packet_start_found(cuts@, lo as int, p);
                            assert(self@[p] == held[lo + i - 1 - p]);
                        }
                    }
                }
                lo = i;
            }
            i += 1;
        }
        proof {
            assert forall|p: int| 0 <= p < n implies #[trigger] self@[p] == packets_turned(
                before,
                cuts@,
            )[p] by {
                if p >= lo {
                    lemma_packet_end_found(cuts@, p, n as int);
                }
            }
            assert(self@ =~= packets_turned(before, cuts@));
        }
        Ok(())
    }

    /// An overhand shuffle with the cuts given: [`Deck::premantle_at`], and
    /// then the whole deck is turned over. So the packets come out in
    /// reverse order, and each but the last of them in its own order.
    /// Refused, with no card moved, where `cuts` has more flags than the
    /// deck has cards, or fewer.
    pub fn overhand_at(&mut self, cuts: &[bool]) -> (outcome: Result<(), DeckError>)
        ensures
            cuts@.len() == old(self)@.len() ==> outcome is Ok && final(self)@ == packets_turned(
                old(self)@,
                cuts@,
            ).reverse(),
            cuts@.len() != old(self)@.len() ==> outcome == Err::<(), DeckError>(
                DeckError::InvalidArgument,
            ) && final(self)@ == old(self)@,
            final(self).rng == old(self).rng,
            same_cards(final(self)@, old(self)@),
            final(self)@.len() == old(self)@.len(),
    {
        match self.premantle_at(cuts) {
            Ok(()) => {
                self.reverse();
                Ok(())
            },
            Err(error) => Err(error),
        }
    }

    /// One trial for every card of the deck, each with the odds `numerator`
    /// in `denominator`, in the order in which they were drawn.
    fn draw_trials(&mut self, numerator: u32, denominator: u32) -> (outcomes: Vec<bool>)
        requires
            denominator > 0,
            numerator <= denominator,
        ensures
            outcomes@ == trials(old(self).rng, numerator, denominator, old(self)@.len()),
            outcomes@.len() == old(self)@.len(),
            final(self).rng == generator_after_trials(
                old(self).rng,
                numerator,
                denominator,
                old(self)@.len(),
            ),
            final(self)@ == old(self)@,
            numerator == 0 ==> forall|i: int| 0 <= i < outcomes@.len() ==> !outcomes@[i],
            numerator == denominator ==> forall|i: int| 0 <= i < outcomes@.len() ==> outcomes@[i],
    {
        let n = self.cards.len();
        let mut outcomes: Vec<bool> = Vec::with_capacity(n);
        let mut i: usize = 0;
        while i < n
            invariant
                i <= n,
                n == self@.len(),
                self@ == old(self)@,
                denominator > 0,
                numerator <= denominator,
                outcomes@.len() == i,
                outcomes@ == trials(old(self).rng, numerator, denominator, i as nat),
                self.rng == generator_after_trials(old(self).rng, numerator, denominator, i as nat),
                numerator == 0 ==> forall|j: int| 0 <= j < i ==> !outcomes@[j],
                numerator == denominator ==> forall|j: int| 0 <= j < i ==> outcomes@[j],
            decreases n - i,
        {
            outcomes.push(bernoulli_trial(&mut self.rng, numerator, denominator));
            i += 1;
        }
        outcomes
    }

    /// Pemantle's shuffle: the deck is cut into packets, and each packet but
    /// the last is turned over where it lies. For each card in turn, from
    /// the top, a trial with the odds `numerator` in `denominator` decides
    /// whether a packet ends above it; what the cuts do to the deck is said
    /// by [`Deck::premantle_at`]. Odds of nothing or of one in one leave
    /// the deck as it is. Refused, with no card moved and no random number
    /// drawn, where the odds are no probability.
    pub fn premantle(&mut self, numerator: u32, denominator: u32) -> (outcome: Result<
        (),
        DeckError,
    >)
        ensures
            denominator > 0 && numerator <= denominator ==> outcome is Ok && final(self)@
                == packets_turned(
                old(self)@,
                trials(old(self).rng, numerator, denominator, old(self)@.len()),
            ) && final(self).rng == generator_after_trials(
                old(self).rng,
                numerator,
                denominator,
                old(self)@.len(),
            ),
            denominator == 0 || numerator > denominator ==> outcome == Err::<(), DeckError>(
                DeckError::InvalidArgument,
            ) && final(self)@ == old(self)@ && final(self).rng == old(self).rng,
            denominator > 0 && (numerator == 0 || numerator == denominator) ==> final(self)@
                == old(self)@,
            same_cards(final(self)@, old(self)@),
            final(self)@.len() == old(self)@.len(),
    {
        if denominator == 0 || numerator > denominator {
            return Err(DeckError::InvalidArgument);
        }
        let cuts = self.draw_trials(numerator, denominator);
        proof {
            if numerator == 0 || numerator == denominator {
                lemma_packets_of_trivial_cuts(old(self)@, cuts@);
            }
        }
        self.premantle_at(cuts.as_slice())
    }

    /// An overhand shuffle: packets are drawn off the top one after the
    /// other and dropped on one another. For each card in turn, from the
    /// top, a trial with the odds `numerator` in `denominator` decides
    /// whether a packet ends above it; what the cuts do to the deck is said
    /// by [`Deck::overhand_at`]. Odds of nothing or of one in one reverse
    /// the deck. Refused, with no card moved and no random number drawn,
    /// where the odds are no probability.
    pub fn overhand(&mut self, numerator: u32, denominator: u32) -> (outcome: Result<
        (),
        DeckError,
    >)
        ensures
            denominator > 0 && numerator <= denominator ==> outcome is Ok && final(self)@
                == packets_turned(
                old(self)@,
                trials(old(self).rng, numerator, denominator, old(self)@.len()),
            ).reverse() && final(self).rng == generator_after_trials(
                old(self).rng,
                numerator,
                denominator,
                old(self)@.len(),
            ),
            denominator == 0 || numerator > denominator ==> outcome == Err::<(), DeckError>(
                DeckError::InvalidArgument,
            ) && final(self)@ == old(self)@ && final(self).rng == old(self).rng,
            denominator > 0 && (numerator == 0 || numerator == denominator) ==> final(self)@
                == old(self)@.reverse(),
            same_cards(final(self)@, old(self)@),
            final(self)@.len() == old(self)@.len(),
    {
        if denominator == 0 || numerator > denominator {
            return Err(DeckError::InvalidArgument);
        }
        let cuts = self.draw_trials(numerator, denominator);
        proof {
            if numerator == 0 || numerator == denominator {
                lemma_packets_of_trivial_cuts(old(self)@, cuts@);
            }
        }
        self.overhand_at(cuts.as_slice())
    }

    /// A pile shuffle: the cards are dealt out to `n` piles in turn, each
    /// card on top of its pile, and the piles are put on one another in a
    /// random order. With no more cards than piles this is
    /// [`Deck::shuffle`]. Refused, with no card moved, where a deck that
    /// holds cards is to be dealt out to no pile.
    pub fn pile_shuffle(&mut self, n: usize) -> (outcome: Result<(), DeckError>)
        ensures
            n > 0 || old(self)@.len() == 0 ==> outcome is Ok,
            n >= old(self)@.len() ==> final(self)@ == rearranged(
                old(self)@,
                shuffled_places(old(self).rng, old(self)@.len()),
            ) && final(self).rng == generator_after_shuffle(old(self).rng, old(self)@.len()),
            0 < n < old(self)@.len() ==> final(self)@ == rearranged(
                dealt_piles(old(self)@, n as int),
                shuffled_places(old(self).rng, n as nat),
            ).flatten() && final(self).rng == generator_after_shuffle(old(self).rng, n as nat),
            0 < n < old(self)@.len() ==> exists|stacks: Seq<Seq<T>>|
                stacks.to_multiset() == dealt_piles(old(self)@, n as int).to_multiset()
                    && final(self)@ == #[trigger] stacks.flatten(),
            n == 0 && old(self)@.len() > 0 ==> outcome == Err::<(), DeckError>(
                DeckError::InvalidArgument,
            ) && final(self)@ == old(self)@ && final(self).rng == old(self).rng,
            same_cards(final(self)@, old(self)@),
            final(self)@.len() == old(self)@.len(),
    {
        broadcast use vstd::seq_lib::group_to_multiset_ensures;

        let ghost before = self@;
        let len = self.cards.len();
        if n >= len {
            self.shuffle();
            return Ok(());
        }
        if n == 0 {
            return Err(DeckError::InvalidArgument);
        }
        let mut piles: Vec<VecDeque<T>> = Vec::new();
        let mut k: usize = 0;
        while k < n
            invariant
                k <= n,
                piles@.len() == k,
                self.rng == old(self).rng,
                self@ == old(self)@,
                forall|i: int| 0 <= i < k ==> (#[trigger] piles@[i])@ == Seq::<T>::empty(),
            decreases n - k,
        {
            piles.push(VecDeque::new());
            k += 1;
        }
        proof {
            assert(stacks_of(piles@).flatten() =~= Seq::<T>::empty()) by {
                lemma_flatten_of_empty_packets(stacks_of(piles@));
            }
        }
        let mut pile: usize = 0;
        let mut dealt: usize = 0;
        while dealt < len
            invariant
                0 < n,
                self.rng == old(self).rng,
                dealt <= len,
                len == before.len(),
                pile < n,
                pile == dealt % n,
                piles@.len() == n,
                self@ == before.subrange(dealt as int, len as int),
                forall|i: int|
                    0 <= i < n ==> (#[trigger] piles@[i])@ == dealt_pile(
                        before.subrange(0, dealt as int),
                        n as int,
                        i,
                    ),
                stacks_of(piles@).flatten().to_multiset().add(self@.to_multiset())
                    == before.to_multiset(),
            decreases len - dealt,
        {
            let ghost rows = piles@;
            let ghost held = self@;
            let card = self.cards.pop_front().unwrap();
            piles[pile].push_front(card);
            proof {
                broadcast use vstd::seq_lib::group_to_multiset_ensures;
                broadcast use vstd::multiset::group_multiset_axioms;

                let seen = before.subrange(0, dealt as int);
                let seen_next = before.subrange(0, dealt + 1);
                assert(seen_next.drop_last() == seen);
                assert(seen_next.last() == card);
                assert forall|i: int| 0 <= i < n implies (#[trigger] piles@[i])@ == dealt_pile(
                    seen_next,
                    n as int,
                    i,
                ) by {
                    if i == pile {
                        assert(piles@[i]@ == seq![card] + rows[i]@);
                        assert(every_nth(seen, n as int, i).push(
                            card,
                        ).reverse() =~= seq![card] + dealt_pile(seen, n as int, i));
                    } else {
                        assert(piles@[i] == rows[i]);
                    }
                }
                assert(stacks_of(piles@) =~= stacks_of(rows).update(
                    pile as int,
                    seq![card] + rows[pile as int]@,
                ));
                lemma_flatten_update(
                    stacks_of(rows),
                    pile as int,
                    seq![card] + rows[pile as int]@,
                );
                assert(seq![card] + rows[pile as int]@ =~= rows[pile as int]@.insert(0, card));
                assert(self@ =~= held.remove(0));
                assert(held.to_multiset().count(card) > 0) by {
                    assert(held[0] == card);
                    assert(held.contains(card));
                }
                assert(stacks_of(piles@).flatten().to_multiset() =~= stacks_of(
                    rows,
                ).flatten().to_multiset().insert(card)) by {
                    assert forall|x: T|
                        stacks_of(piles@).flatten().to_multiset().count(x) == stacks_of(
                            rows,
                        ).flatten().to_multiset().insert(card).count(x) by {
                        assert(stacks_of(piles@).flatten().to_multiset().add(
                            rows[pile as int]@.to_multiset(),
                        ).count(x) == stacks_of(rows).flatten().to_multiset().add(
                            rows[pile as int]@.insert(0, card).to_multiset(),
                        ).count(x));
                    }
                }
                assert(stacks_of(piles@).flatten().to_multiset().add(self@.to_multiset())
                    =~= before.to_multiset());
                assert((dealt + 1) % (n as int) == if pile + 1 == n {
                    0
                } else {
                    pile + 1
                }) by (nonlinear_arith)
                    requires
                        pile == dealt % n,
                        0 < n,
                        pile < n,
                ;
            }
            pile = if pile + 1 == n {
                0
            } else {
                pile + 1
            };
            dealt += 1;
        }
        let ghost dealt_out = piles@;
        shuffle_slice(piles.as_mut_slice(), &mut self.rng);
        let ghost stacked = piles@;
        proof {
            assert(before.subrange(0, len as int) == before);
            assert(stacks_of(dealt_out) =~= dealt_piles(before, n as int));
            lemma_rearranged_map(dealt_out, stacked, |pile: VecDeque<T>| pile@);
            lemma_rearranged_flatten(stacks_of(dealt_out), stacks_of(stacked));
            assert(self@ =~= Seq::<T>::empty());
            assert(stacks_of(stacked) =~= rearranged(
                dealt_piles(before, n as int),
                shuffled_places(old(self).rng, n as nat),
            ));
        }
        let mut k: usize = 0;
        while k < n
            invariant
                k <= n,
                piles@.len() == n,
                stacked.len() == n,
                forall|i: int| k <= i < n ==> #[trigger] piles@[i] == stacked[i],
                self@ == stacks_of(stacked.subrange(0, k as int)).flatten(),
                self.rng == generator_after_shuffle(old(self).rng, n as nat),
            decreases n - k,
        {
            self.cards.append(&mut piles[k]);
            proof {
                let done = stacked.subrange(0, k as int);
                assert(stacked.subrange(0, k + 1) == done.push(stacked[k as int]));
                assert(stacks_of(done.push(stacked[k as int])) =~= stacks_of(done).push(
                    stacked[k as int]@,
                ));
                stacks_of(done).lemma_flatten_push(stacked[k as int]@);
            }
            k += 1;
        }
        proof {
            assert(stacked.subrange(0, n as int) == stacked);
            assert(self@ == stacks_of(stacked).flatten());
            assert(stacks_of(dealt_out).flatten().to_multiset() =~= before.to_multiset());
            assert(self@.to_multiset().len() == before.to_multiset().len());
        }
        Ok(())
    }
}

/// A row of empty packets holds no card.
proof fn lemma_flatten_of_empty_packets<T>(packets: Seq<Seq<T>>)
    requires
        forall|i: int| 0 <= i < packets.len() ==> (#[trigger] packets[i]).len() == 0,
    ensures
        packets.flatten().len() == 0,
    decreases packets.len(),
{
    if packets.len() > 0 {
        lemma_flatten_of_empty_packets(packets.drop_first());
    }
}

} // verus!
