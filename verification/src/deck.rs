//! The deck: an ordered sequence of cards, top first, and the generator that
//! its random operations draw from.

use crate::arrangement::{
    cut_at, cycled, lemma_cut_keeps_cards, lemma_cycle_keeps_cards, lemma_swap_keeps_cards,
    same_cards, swapped, turned_over,
};
use crate::randomness::{
    generator_from_entropy, generator_from_seed, generator_from_u64, generator_of_seed,
    generator_of_u64, uniform_index,
};
use rand::SeedableRng;
use rand_xoshiro::Xoroshiro128PlusPlus;
use std::collections::vec_deque::{Iter, IterMut};
use std::collections::VecDeque;
use vstd::prelude::*;

verus! {

/// Why an operation on a deck was refused. A refused operation leaves the
/// deck as it was.
#[derive(Debug, Clone, Copy, PartialEq, Eq, Structural)]
pub enum DeckError {
    /// A position at or beyond the end of the deck was named.
    IndexOutOfBounds,
    /// An argument of a shuffle does not fit the deck or the shuffle.
    InvalidArgument,
}

/// A deck of cards, with the generator that its random operations draw
/// from.
///
/// A deck owns its cards and its generator, and nothing in it is locked: to
/// use one deck from several threads, put it behind a lock of your own.
/// Decks share nothing with one another.
#[derive(Debug, Clone)]
pub struct Deck<T> {
    /// The cards. The front is the top of the deck.
    pub cards: VecDeque<T>,
    /// The generator, seeded by the system unless [`Deck::set_seed`] or
    /// [`Deck::set_seed_u64`] has been called.
    pub rng: Xoroshiro128PlusPlus,
}

impl<T> View for Deck<T> {
    type V = Seq<T>;

    /// The cards from top to bottom.
    open spec fn view(&self) -> Seq<T> {
        self.cards@
    }
}

/// `VecDeque::swap`: exchanges the items at `i` and `j`, which may be equal.
/// The call panics where either is out of bounds.
#[verifier::external_body]
pub(crate) fn swap_cards<T>(cards: &mut VecDeque<T>, i: usize, j: usize)
    requires
        i < old(cards)@.len(),
        j < old(cards)@.len(),
    ensures
        final(cards)@ == swapped(old(cards)@, i as int, j as int),
{
    cards.swap(i, j)
}

/// `VecDeque::rotate_left`: rotates the queue `n` places to the left, so that
/// the item at `n` comes first. The call panics where `n` exceeds the length.
#[verifier::external_body]
pub(crate) fn rotate_cards<T>(cards: &mut VecDeque<T>, n: usize)
    requires
        n <= old(cards)@.len(),
    ensures
        final(cards)@ == cut_at(old(cards)@, n as int),
{
    cards.rotate_left(n)
}

/// `VecDeque::make_contiguous`: the items of the queue as one slice, in
/// their order. What is done to the slice is done to the queue.
#[verifier::external_body]
pub(crate) fn contiguous<T>(cards: &mut VecDeque<T>) -> (slice: &mut [T])
    ensures
        slice@ == old(cards)@,
        final(slice)@ == final(cards)@,
{
    cards.make_contiguous()
}

/// `VecDeque::from` on a `Vec`: the same items in the same order.
#[verifier::external_body]
pub(crate) fn deque_from_vec<T>(items: Vec<T>) -> (cards: VecDeque<T>)
    ensures
        cards@ == items@,
{
    VecDeque::from(items)
}

/// `VecDeque::from` on an array: the same items in the same order.
#[verifier::external_body]
pub(crate) fn deque_from_array<T, const N: usize>(items: [T; N]) -> (cards: VecDeque<T>)
    ensures
        cards@ == items@,
{
    VecDeque::from(items)
}

/// `VecDeque::get_mut`: the item at position `n` for writing, or `None`
/// where the queue has no such position. What is written to the item is
/// written to the queue, which is otherwise left as it was.
#[verifier::external_body]
pub(crate) fn card_mut<T>(cards: &mut VecDeque<T>, n: usize) -> (card: Option<&mut T>)
    ensures
        n >= old(cards)@.len() ==> card is None && final(cards)@ == old(cards)@,
        n < old(cards)@.len() ==> card is Some && *card->0 == old(cards)@[n as int] && final(cards)@ == old(cards)@.update(n as int, *final(card->0)),
{
    cards.get_mut(n)
}

/// `std::collections::vec_deque::IterMut`, which hands out the items of a
/// queue for writing, from the front to the back.
#[verifier::external_type_specification]
#[verifier::external_body]
#[verifier::reject_recursive_types(T)]
pub struct ExIterMut<'a, T: 'a>(IterMut<'a, T>);

/// `VecDeque::iter_mut`: hands out the items for writing. Items are
/// neither added nor taken away through it; nothing is stated of what is
/// written.
#[verifier::external_body]
pub(crate) fn cards_iter_mut<T>(cards: &mut VecDeque<T>) -> (items: IterMut<'_, T>)
    ensures
        final(cards)@.len() == old(cards)@.len(),
{
    cards.iter_mut()
}

/// Reverses the order of the cards from position `from` up to, but not
/// including, `to`.
pub(crate) fn turn_over<T>(cards: &mut VecDeque<T>, from: usize, to: usize)
    requires
        from <= to <= old(cards)@.len(),
    ensures
        final(cards)@ == turned_over(old(cards)@, from as int, to as int),
        same_cards(final(cards)@, old(cards)@),
{
    let ghost before = cards@;
    let mut i: usize = from;
    let mut j: usize = to;
    while j - i > 1
        invariant
            from <= i <= j <= to,
            i + j == from + to,
            to <= before.len(),
            cards@.len() == before.len(),
            same_cards(cards@, before),
            forall|p: int|
                0 <= p < before.len() ==> #[trigger] cards@[p] == if from <= p < i || j <= p < to {
                    before[from + to - 1 - p]
                } else {
                    before[p]
                },
        decreases j - i,
    {
        proof {
            lemma_swap_keeps_cards(cards@, i as int, j - 1);
        }
        swap_cards(cards, i, j - 1);
        i += 1;
        j -= 1;
    }
    assert(cards@ =~= turned_over(before, from as int, to as int));
}

impl<T> Deck<T> {
    /// A deck without cards.
    pub fn empty() -> (deck: Deck<T>)
        ensures
            deck@ == Seq::<T>::empty(),
    {
        Deck { cards: VecDeque::new(), rng: generator_from_entropy() }
    }

    /// A deck without cards, with room for `n` of them.
    pub fn with_capacity(n: usize) -> (deck: Deck<T>)
        ensures
            deck@ == Seq::<T>::empty(),
    {
        Deck { cards: VecDeque::with_capacity(n), rng: generator_from_entropy() }
    }

    /// Restarts the generator from 128 bits of state: whatever state it was
    /// in, it is now in the one that this seed gives. The cards stay.
    pub fn set_seed(&mut self, seed: [u8; 16])
        ensures
            final(self).rng == generator_of_seed(seed@),
            final(self)@ == old(self)@,
    {
        self.rng = generator_from_seed(seed);
    }

    /// Restarts the generator from a 64-bit seed: whatever state it was in,
    /// it is now in the one that this seed gives. The cards stay.
    pub fn set_seed_u64(&mut self, seed: u64)
        ensures
            final(self).rng == generator_of_u64(seed),
            final(self)@ == old(self)@,
    {
        self.rng = generator_from_u64(seed);
    }

    /// The number of cards.
    pub fn len(&self) -> (n: usize)
        ensures
            n == self@.len(),
    {
        self.cards.len()
    }

    /// Puts the cards of `other` below this deck's own, in their order.
    pub fn extend(&mut self, other: Deck<T>)
        ensures
            final(self)@ == old(self)@ + other@,
            final(self).rng == old(self).rng,
    {
        let mut other = other;
        self.cards.append(&mut other.cards);
    }

    /// The card at position `n`, counted from the top. Refused where `n`
    /// is not a position of the deck.
    pub fn get(&self, n: usize) -> (card: Result<&T, DeckError>)
        ensures
            n < self@.len() ==> card == Ok::<&T, DeckError>(&self@[n as int]),
            n >= self@.len() ==> card == Err::<&T, DeckError>(DeckError::IndexOutOfBounds),
    {
        if n < self.cards.len() {
            Ok(&self.cards[n])
        } else {
            Err(DeckError::IndexOutOfBounds)
        }
    }

    /// The card at position `n` for writing. The other cards stay as they
    /// are. Refused, with the deck left as it is, where `n` is not a
    /// position of the deck.
    pub fn get_mut(&mut self, n: usize) -> (card: Result<&mut T, DeckError>)
        ensures
            n >= old(self)@.len() ==> card is Err && card->Err_0 == DeckError::IndexOutOfBounds
                && final(self)@ == old(self)@,
            n < old(self)@.len() ==> card is Ok && *card->Ok_0 == old(self)@[n as int] && final(self)@ == old(self)@.update(n as int, *final(card->Ok_0)),
            final(self).rng == old(self).rng,
    {
        match card_mut(&mut self.cards, n) {
            Some(card) => Ok(card),
            None => Err(DeckError::IndexOutOfBounds),
        }
    }

    /// The cards from the top to the bottom.
    pub fn iter(&self) -> (cards: Iter<'_, T>)
        ensures
            cards == vstd::std_specs::vecdeque::spec_iter(&self.cards),
    {
        self.cards.iter()
    }

    /// The cards from the top to the bottom, for writing.
    pub fn iter_mut(&mut self) -> (cards: IterMut<'_, T>)
        ensures
            final(self)@.len() == old(self)@.len(),
            final(self).rng == old(self).rng,
    {
        cards_iter_mut(&mut self.cards)
    }

    /// Exchanges the cards at `i` and `j`. Refused, with no card moved, where
    /// either position is beyond the deck.
    pub fn swap(&mut self, i: usize, j: usize) -> (outcome: Result<(), DeckError>)
        ensures
            i < old(self)@.len() && j < old(self)@.len() ==> outcome is Ok && final(self)@
                == swapped(old(self)@, i as int, j as int),
            i >= old(self)@.len() || j >= old(self)@.len() ==> outcome == Err::<(), DeckError>(
                DeckError::IndexOutOfBounds,
            ) && final(self)@ == old(self)@,
            final(self).rng == old(self).rng,
            same_cards(final(self)@, old(self)@),
            final(self)@.len() == old(self)@.len(),
    {
        if i >= self.cards.len() || j >= self.cards.len() {
            return Err(DeckError::IndexOutOfBounds);
        }
        proof {
            lemma_swap_keeps_cards(self@, i as int, j as int);
        }
        swap_cards(&mut self.cards, i, j);
        Ok(())
    }

    /// Reverses the order of the whole deck.
    pub fn reverse(&mut self)
        ensures
            final(self)@ == old(self)@.reverse(),
            final(self).rng == old(self).rng,
            same_cards(final(self)@, old(self)@),
            final(self)@.len() == old(self)@.len(),
    {
        let n = self.cards.len();
        turn_over(&mut self.cards, 0, n);
        assert(self@ =~= old(self)@.reverse());
    }

    /// The top card, if there is one.
    pub fn top(&self) -> (card: Option<&T>)
        ensures
            self@.len() > 0 ==> card == Some(&self@[0]),
            self@.len() == 0 ==> card is None,
    {
        if self.cards.len() > 0 {
            Some(&self.cards[0])
        } else {
            None
        }
    }

    /// The top card for writing, if there is one. The other cards stay as
    /// they are.
    pub fn top_mut(&mut self) -> (card: Option<&mut T>)
        ensures
            old(self)@.len() == 0 ==> card is None && final(self)@ == old(self)@,
            old(self)@.len() > 0 ==> card is Some && *card->0 == old(self)@[0] && final(self)@
                == old(self)@.update(0, *final(card->0)),
            final(self).rng == old(self).rng,
    {
        card_mut(&mut self.cards, 0)
    }

    /// The bottom card, if there is one.
    pub fn bottom(&self) -> (card: Option<&T>)
        ensures
            self@.len() > 0 ==> card == Some(&self@[self@.len() - 1]),
            self@.len() == 0 ==> card is None,
    {
        let n = self.cards.len();
        if n > 0 {
            Some(&self.cards[n - 1])
        } else {
            None
        }
    }

    /// The bottom card for writing, if there is one. The other cards stay
    /// as they are.
    pub fn bottom_mut(&mut self) -> (card: Option<&mut T>)
        ensures
            old(self)@.len() == 0 ==> card is None && final(self)@ == old(self)@,
            old(self)@.len() > 0 ==> card is Some && *card->0 == old(self)@.last() && final(self)@ == old(self)@.update(old(self)@.len() - 1, *final(card->0)),
            final(self).rng == old(self).rng,
    {
        let n = self.cards.len();
        if n == 0 {
            None
        } else {
            card_mut(&mut self.cards, n - 1)
        }
    }

    /// Takes the top card. The same as [`Deck::draw_top`].
    pub fn draw(&mut self) -> (card: Option<T>)
        ensures
            old(self)@.len() > 0 ==> card == Some(old(self)@[0]) && final(self)@ == old(self)@.drop_first(),
            old(self)@.len() == 0 ==> card is None && final(self)@ == old(self)@,
            final(self).rng == old(self).rng,
    {
        self.cards.pop_front()
    }

    /// Takes the top card. An empty deck gives `None`.
    pub fn draw_top(&mut self) -> (card: Option<T>)
        ensures
            old(self)@.len() > 0 ==> card == Some(old(self)@[0]) && final(self)@ == old(self)@.drop_first(),
            old(self)@.len() == 0 ==> card is None && final(self)@ == old(self)@,
            final(self).rng == old(self).rng,
    {
        self.cards.pop_front()
    }

    /// Takes the bottom card. An empty deck gives `None`.
    pub fn draw_bottom(&mut self) -> (card: Option<T>)
        ensures
            old(self)@.len() > 0 ==> card == Some(old(self)@.last()) && final(self)@ == old(self)@.drop_last(),
            old(self)@.len() == 0 ==> card is None && final(self)@ == old(self)@,
            final(self).rng == old(self).rng,
    {
        self.cards.pop_back()
    }

    /// Takes the card at position `n`; position 0 is the top. Refused,
    /// with no card taken, where `n` is not a position of the deck.
    pub fn draw_nth(&mut self, n: usize) -> (card: Result<T, DeckError>)
        ensures
            n < old(self)@.len() ==> card == Ok::<T, DeckError>(old(self)@[n as int]) && final(self)@ == old(self)@.remove(n as int),
            n >= old(self)@.len() ==> card == Err::<T, DeckError>(DeckError::IndexOutOfBounds)
                && final(self)@ == old(self)@,
            final(self).rng == old(self).rng,
    {
        match self.cards.remove(n) {
            Some(card) => Ok(card),
            None => Err(DeckError::IndexOutOfBounds),
        }
    }

    /// Takes a card from a position chosen uniformly among all of them. An
    /// empty deck gives `None` and draws no random number.
    pub fn draw_random(&mut self) -> (card: Option<T>)
        ensures
            old(self)@.len() == 0 ==> card is None && final(self)@ == old(self)@ && final(self).rng == old(self).rng,
            old(self)@.len() > 0 ==> exists|n: int|
                0 <= n < old(self)@.len() && card == Some(#[trigger] old(self)@[n]) && final(self)@ == old(self)@.remove(n),
    {
        if self.cards.len() == 0 {
            return None;
        }
        let n = uniform_index(&mut self.rng, self.cards.len());
        self.cards.remove(n)
    }

    /// Puts `card` on top.
    pub fn place_top(&mut self, card: T)
        ensures
            final(self)@ == seq![card] + old(self)@,
            final(self).rng == old(self).rng,
    {
        self.cards.push_front(card)
    }

    /// Puts `card` at the bottom.
    pub fn place_bottom(&mut self, card: T)
        ensures
            final(self)@ == old(self)@.push(card),
            final(self).rng == old(self).rng,
    {
        self.cards.push_back(card)
    }

    /// Puts `card` at position `n`, above the card that was there; position 0
    /// is the top. Refused where `n` is not a position of the deck.
    pub fn place_nth(&mut self, n: usize, card: T) -> (outcome: Result<(), DeckError>)
        ensures
            n < old(self)@.len() ==> outcome is Ok && final(self)@ == old(self)@.insert(
                n as int,
                card,
            ),
            n >= old(self)@.len() ==> outcome == Err::<(), DeckError>(
                DeckError::IndexOutOfBounds,
            ) && final(self)@ == old(self)@,
            final(self).rng == old(self).rng,
    {
        if n >= self.cards.len() {
            return Err(DeckError::IndexOutOfBounds);
        }
        self.cards.insert(n, card);
        Ok(())
    }

    /// Puts `card` at a position chosen uniformly among those of the deck.
    pub fn place_random(&mut self, card: T)
        requires
            old(self)@.len() > 0,
        ensures
            exists|n: int|
                0 <= n < old(self)@.len() && final(self)@ == #[trigger] old(self)@.insert(n, card),
    {
        let n = uniform_index(&mut self.rng, self.cards.len());
        self.cards.insert(n, card);
    }

    /// Cuts the deck at `n`: the top `n` cards go to the bottom.
    pub fn cut_nth(&mut self, n: usize)
        requires
            n <= old(self)@.len(),
        ensures
            final(self)@ == cut_at(old(self)@, n as int),
            final(self).rng == old(self).rng,
            same_cards(final(self)@, old(self)@),
            final(self)@.len() == old(self)@.len(),
            n == 0 || n == old(self)@.len() ==> final(self)@ == old(self)@,
    {
        proof {
            lemma_cut_keeps_cards(self@, n as int);
        }
        rotate_cards(&mut self.cards, n)
    }

    /// Cuts the deck at a position chosen uniformly. An empty deck stays
    /// empty and draws no random number.
    pub fn cut_random(&mut self)
        ensures
            old(self)@.len() == 0 ==> final(self)@ == old(self)@ && final(self).rng == old(self).rng,
            old(self)@.len() > 0 ==> exists|n: int|
                0 <= n < old(self)@.len() && final(self)@ == #[trigger] cut_at(old(self)@, n),
            same_cards(final(self)@, old(self)@),
            final(self)@.len() == old(self)@.len(),
    {
        if self.cards.len() == 0 {
            return ;
        }
        let n = uniform_index(&mut self.rng, self.cards.len());
        proof {
            lemma_cut_keeps_cards(self@, n as int);
        }
        rotate_cards(&mut self.cards, n)
    }

    /// Splits the deck at `n`: the top `n` cards stay, and the others are
    /// handed out as a deck of their own, with a generator of its own.
    pub fn split_off_nth(&mut self, n: usize) -> (rest: Deck<T>)
        requires
            n <= old(self)@.len(),
        ensures
            final(self)@ == old(self)@.subrange(0, n as int),
            rest@ == old(self)@.subrange(n as int, old(self)@.len() as int),
            final(self).rng == old(self).rng,
            n == 0 ==> final(self)@.len() == 0 && rest@ == old(self)@,
            n == old(self)@.len() ==> final(self)@ == old(self)@ && rest@.len() == 0,
    {
        let cards = self.cards.split_off(n);
        proof {
            assert(old(self)@.subrange(0, old(self)@.len() as int) == old(self)@);
        }
        Deck { cards, rng: generator_from_entropy() }
    }

    /// Splits the deck at a position chosen uniformly, keeping the top part.
    /// Where the deck holds a card, the part handed out holds one too. An
    /// empty deck gives an empty deck and draws no random number.
    pub fn split_off_random(&mut self) -> (rest: Deck<T>)
        ensures
            final(self)@ + rest@ == old(self)@,
            old(self)@.len() > 0 ==> rest@.len() > 0,
            old(self)@.len() == 0 ==> final(self).rng == old(self).rng,
    {
        if self.cards.len() == 0 {
            return Deck::empty();
        }
        let n = uniform_index(&mut self.rng, self.cards.len());
        let cards = self.cards.split_off(n);
        Deck { cards, rng: generator_from_entropy() }
    }

    /// Splits the deck at `n` into the top `n` cards and the others. Each of
    /// the two decks has a generator of its own.
    pub fn split_nth(self, n: usize) -> (parts: (Deck<T>, Deck<T>))
        requires
            n <= self@.len(),
        ensures
            parts.0@ == self@.subrange(0, n as int),
            parts.1@ == self@.subrange(n as int, self@.len() as int),
            n == 0 ==> parts.0@.len() == 0 && parts.1@ == self@,
            n == self@.len() ==> parts.0@ == self@ && parts.1@.len() == 0,
    {
        let mut top = self.cards;
        let bottom = top.split_off(n);
        proof {
            assert(self@.subrange(0, self@.len() as int) == self@);
        }
        (
            Deck { cards: top, rng: generator_from_entropy() },
            Deck { cards: bottom, rng: generator_from_entropy() },
        )
    }

    /// Splits the deck at a position chosen uniformly. Where the deck holds
    /// a card, the second part holds one too. An empty deck gives two empty
    /// decks.
    pub fn split_random(self) -> (parts: (Deck<T>, Deck<T>))
        ensures
            parts.0@ + parts.1@ == self@,
            self@.len() > 0 ==> parts.1@.len() > 0,
    {
        let mut deck = self;
        let rest = deck.split_off_random();
        (Deck { cards: deck.cards, rng: generator_from_entropy() }, rest)
    }

    /// Exchanges the cards at each two neighbouring entries of `positions`,
    /// pair after pair from the first. Refused, with no card moved, where any
    /// entry is beyond the deck.
    pub fn cycle(&mut self, positions: &[usize]) -> (outcome: Result<(), DeckError>)
        ensures
            (forall|k: int| 0 <= k < positions@.len() ==> positions@[k] < old(self)@.len())
                ==> outcome is Ok && final(self)@ == cycled(old(self)@, positions@),
            (exists|k: int| 0 <= k < positions@.len() && positions@[k] >= old(self)@.len())
                ==> outcome == Err::<(), DeckError>(DeckError::IndexOutOfBounds) && final(self)@
                == old(self)@,
            final(self).rng == old(self).rng,
            same_cards(final(self)@, old(self)@),
            final(self)@.len() == old(self)@.len(),
    {
        let n = self.cards.len();
        let count = positions.len();
        let mut k: usize = 0;
        while k < count
            invariant
                k <= count,
                count == positions@.len(),
                n == self@.len(),
                self@ == old(self)@,
                self.rng == old(self).rng,
                forall|i: int| 0 <= i < k ==> positions@[i] < n,
            decreases count - k,
        {
            if positions[k] >= n {
                return Err(DeckError::IndexOutOfBounds);
            }
            k += 1;
        }
        let mut k: usize = 1;
        while k < count
            invariant
                1 <= k,
                count == positions@.len(),
                count >= 2 ==> k <= count,
                n == self@.len(),
                self.rng == old(self).rng,
                forall|i: int| 0 <= i < count ==> positions@[i] < n,
                count >= 2 ==> self@ == cycled(old(self)@, positions@.subrange(0, k as int)),
                count < 2 ==> self@ == old(self)@,
            decreases count - k,
        {
            swap_cards(&mut self.cards, positions[k - 1], positions[k]);
            proof {
                assert(positions@.subrange(0, k + 1).drop_last() == positions@.subrange(
                    0,
                    k as int,
                ));
            }
            k += 1;
        }
        proof {
            if count >= 2 {
                assert(positions@.subrange(0, count as int) == positions@);
            }
            lemma_cycle_keeps_cards(old(self)@, positions@);
        }
        Ok(())
    }
}

impl<T, const N: usize> From<[T; N]> for Deck<T> {
    /// A deck of the items of `items`, the first on top, with a generator
    /// seeded by the system.
    fn from(items: [T; N]) -> (deck: Deck<T>)
        ensures
            deck@ == items@,
    {
        Deck { cards: deque_from_array(items), rng: generator_from_entropy() }
    }
}

impl<T, const N: usize> vstd::std_specs::convert::FromSpecImpl<[T; N]> for Deck<T> {
    /// The generator of the new deck is seeded by the system, so the deck is
    /// not determined by the cards alone.
    open spec fn obeys_from_spec() -> bool {
        false
    }

    open spec fn from_spec(items: [T; N]) -> Deck<T> {
        arbitrary()
    }
}

impl<T> From<Vec<T>> for Deck<T> {
    /// A deck of the items of `items`, the first on top, with a generator
    /// seeded by the system.
    fn from(items: Vec<T>) -> (deck: Deck<T>)
        ensures
            deck@ == items@,
    {
        Deck { cards: deque_from_vec(items), rng: generator_from_entropy() }
    }
}

impl<T> vstd::std_specs::convert::FromSpecImpl<Vec<T>> for Deck<T> {
    /// The generator of the new deck is seeded by the system, so the deck is
    /// not determined by the cards alone.
    open spec fn obeys_from_spec() -> bool {
        false
    }

    open spec fn from_spec(items: Vec<T>) -> Deck<T> {
        arbitrary()
    }
}

impl<T> From<VecDeque<T>> for Deck<T> {
    /// A deck of the items of `cards`, the front on top, with a generator
    /// seeded by the system.
    fn from(cards: VecDeque<T>) -> (deck: Deck<T>)
        ensures
            deck@ == cards@,
    {
        Deck { cards, rng: generator_from_entropy() }
    }
}

impl<T> vstd::std_specs::convert::FromSpecImpl<VecDeque<T>> for Deck<T> {
    /// The generator of the new deck is seeded by the system, so the deck is
    /// not determined by the cards alone.
    open spec fn obeys_from_spec() -> bool {
        false
    }

    open spec fn from_spec(cards: VecDeque<T>) -> Deck<T> {
        arbitrary()
    }
}

/// The decks of a row, each as the sequence of its cards.
pub open spec fn cards_of<T>(decks: Seq<Deck<T>>) -> Seq<Seq<T>> {
    decks.map_values(|deck: Deck<T>| deck@)
}

impl<T> From<Vec<Deck<T>>> for Deck<T> {
    /// One deck of the cards of all of `decks`: those of the first on top,
    /// those of each other below, and each deck's cards in their order. The
    /// new deck has a generator of its own.
    fn from(decks: Vec<Deck<T>>) -> (deck: Deck<T>)
        ensures
            deck@ == cards_of(decks@).flatten(),
    {
        let ghost row = decks@;
        let mut decks = decks;
        let mut out = Deck::empty();
        let n = decks.len();
        let mut k: usize = 0;
        while k < n
            invariant
                k <= n,
                decks@.len() == n,
                row.len() == n,
                forall|i: int| k <= i < n ==> #[trigger] decks@[i] == row[i],
                out@ == cards_of(row.subrange(0, k as int)).flatten(),
            decreases n - k,
        {
            out.cards.append(&mut decks[k].cards);
            proof {
                let done = row.subrange(0, k as int);
                assert(row.subrange(0, k + 1) == done.push(row[k as int]));
                assert(cards_of(done.push(row[k as int])) =~= cards_of(done).push(row[k as int]@));
                cards_of(done).lemma_flatten_push(row[k as int]@);
            }
            k += 1;
        }
        proof {
            assert(row.subrange(0, n as int) == row);
        }
        out
    }
}

impl<T> vstd::std_specs::convert::FromSpecImpl<Vec<Deck<T>>> for Deck<T> {
    /// The generator of the new deck is seeded by the system, so the deck is
    /// not determined by the cards alone.
    open spec fn obeys_from_spec() -> bool {
        false
    }

    open spec fn from_spec(decks: Vec<Deck<T>>) -> Deck<T> {
        arbitrary()
    }
}

impl<T> FromIterator<T> for Deck<T> {
    /// A deck of the items that `items` hands out, the first on top, with a
    /// generator seeded by the system. The cards are those of
    /// `VecDeque::from_iter` and the generator is that of
    /// `SeedableRng::from_entropy`; nothing is stated of either here, since
    /// nothing is known of what an iterator hands out.
    #[verifier::external_body]
    fn from_iter<I: IntoIterator<Item = T>>(items: I) -> (deck: Deck<T>) {
        Deck { cards: VecDeque::from_iter(items), rng: Xoroshiro128PlusPlus::from_entropy() }
    }
}

} // verus!
