use card_deck::deck::{Deck, DeckError};
use rand::Rng;
use rand_distr::{Binomial, Distribution};

#[test]
fn riffle() {
    let mut deck = Deck::<i32>::from_iter(0..10);
    deck.set_seed_u64(314159);
    let cut = Binomial::new(10, 0.5).unwrap().sample(&mut deck.rng) as usize;
    deck.riffle_at_nth(cut);
    assert_eq!(deck.cards, [5, 0, 1, 6, 2, 3, 7, 8, 4, 9]);
}

#[test]
fn riffle_with() {
    let mut left = Deck::from_iter(0..10_i32);
    left.set_seed_u64(314159);
    let right = Deck::from([10, 11, 12, 13, 14, 15, 16, 17, 18, 19]);
    left.riffle_with(right);
    assert_eq!(
        left.cards,
        [10, 11, 0, 1, 12, 2, 3, 13, 4, 5, 14, 15, 16, 17, 18, 6, 7, 8, 19, 9]
    );
}

#[test]
fn gilbreath() {
    let mut deck = Deck::from_iter(0..10_i32);
    deck.set_seed_u64(314159);
    deck.gilbreath(5).unwrap();
    assert_eq!(deck.cards, [5, 6, 4, 3, 7, 2, 1, 8, 0, 9]);
}

#[test]
fn overhand() {
    let mut deck = Deck::from_iter(0..10_i32);
    deck.set_seed_u64(314159);
    deck.overhand(3, 10).unwrap();
    assert_eq!(deck.cards, [9, 8, 7, 4, 5, 6, 1, 2, 3, 0]);
}

#[test]
fn premantle() {
    let mut deck = Deck::from_iter(0..10_i32);
    deck.set_seed_u64(314159);
    deck.premantle(3, 10).unwrap();
    assert_eq!(deck.cards, [0, 3, 2, 1, 6, 5, 4, 7, 8, 9]);
}

#[test]
fn inv_riffle() {
    let mut deck = Deck::from_iter(0..10_i32);
    deck.set_seed_u64(314159);
    deck.inverse_riffle();
    assert_eq!(deck.cards, [2, 3, 5, 6, 8, 9, 0, 1, 4, 7]);
}

#[test]
fn faro_in_place() {
    // Out shuffle places the first card on top
    let mut deck = Deck::from_iter(0..10_i32);
    deck.faro(true).unwrap();
    assert_eq!(deck, Deck::from([0, 5, 1, 6, 2, 7, 3, 8, 4, 9]));

    // In shuffle places the first card in the second position
    let mut deck = Deck::from_iter(0..10_i32);
    deck.faro(false).unwrap();
    assert_eq!(deck, Deck::from([5, 0, 6, 1, 7, 2, 8, 3, 9, 4]));

    // Check an odd number of cards
    let mut deck = Deck::from_iter(0..9_i32);
    deck.faro(false).unwrap();
    assert_eq!(deck, Deck::from([4, 0, 5, 1, 6, 2, 7, 3, 8]));
}

#[test]
fn pile_shuffle() {
    let mut deck = Deck::from_iter(0..10_i32);
    deck.set_seed_u64(314159);
    deck.pile_shuffle(3).unwrap();
    assert_eq!(deck.cards, [8, 5, 2, 7, 4, 1, 9, 6, 3, 0]);
}

#[test]
fn overhand_with_real_odds() {
    let mut deck = Deck::from_iter(0..10_i32);
    deck.set_seed_u64(314159);
    let mut cuts = Vec::new();
    for _ in 0..10 {
        cuts.push(deck.rng.gen_bool(0.3));
    }
    deck.overhand_at(&cuts).unwrap();
    assert_eq!(deck.cards, [9, 8, 7, 4, 5, 6, 1, 2, 3, 0]);
}

#[test]
fn premantle_with_real_odds() {
    let mut deck = Deck::from_iter(0..10_i32);
    deck.set_seed_u64(314159);
    let mut cuts = Vec::new();
    for _ in 0..10 {
        cuts.push(deck.rng.gen_bool(0.3));
    }
    assert_eq!(cuts, [false, true, false, false, true, false, false, true, false, false]);
    deck.premantle_at(&cuts).unwrap();
    assert_eq!(deck.cards, [0, 3, 2, 1, 6, 5, 4, 7, 8, 9]);
}

#[test]
fn premantle_at_given_cuts() {
    let mut deck = Deck::from_iter(0..6_i32);
    deck.premantle_at(&[true, false, false, true, true, false]).unwrap();
    assert_eq!(deck.cards, [2, 1, 0, 3, 4, 5]);
    deck.premantle_at(&[false, false, false, false, false, true]).unwrap();
    assert_eq!(deck.cards, [4, 3, 0, 1, 2, 5]);
    let mut none: Deck<i32> = Deck::empty();
    assert_eq!(none.premantle_at(&[]), Ok(()));
    assert_eq!(none.overhand_at(&[]), Ok(()));
}

#[test]
fn overhand_at_given_cuts() {
    let mut deck = Deck::from_iter(0..6_i32);
    deck.overhand_at(&[false, false, true, false, true, false]).unwrap();
    assert_eq!(deck.cards, [5, 4, 2, 3, 0, 1]);
}

#[test]
fn cuts_that_do_not_fit_the_deck_are_refused() {
    let mut deck = Deck::from_iter(0..3_i32);
    assert_eq!(deck.premantle_at(&[true, false]), Err(DeckError::InvalidArgument));
    assert_eq!(deck.overhand_at(&[true, false, true, true]), Err(DeckError::InvalidArgument));
    assert_eq!(deck.cards, [0, 1, 2]);
}

#[test]
fn riffle_with_marks_given() {
    let mut deck = Deck::from([0, 1, 2]);
    let right = Deck::from([10, 11]);
    deck.riffle_with_marks(right, &[true, false, false, true, false]).unwrap();
    assert_eq!(deck.cards, [10, 0, 1, 11, 2]);
    let mut deck = Deck::from([0, 1, 2]);
    deck.riffle_with_marks(Deck::from([10, 11]), &[false, false, false, true, true]).unwrap();
    assert_eq!(deck.cards, [0, 1, 2, 10, 11]);
    deck.riffle_with_marks(Deck::empty(), &[false; 5]).unwrap();
    assert_eq!(deck.cards, [0, 1, 2, 10, 11]);
    let mut none: Deck<i32> = Deck::empty();
    none.riffle_with_marks(Deck::from([4, 5]), &[true, true]).unwrap();
    assert_eq!(none.cards, [4, 5]);
    none.riffle_with_marks(Deck::empty(), &[]).unwrap_err();
}

#[test]
fn marks_that_do_not_fit_the_decks_are_refused() {
    let mut deck = Deck::from([0, 1, 2]);
    let too_few = deck.riffle_with_marks(Deck::from([10, 11]), &[true, false, false, true]);
    assert_eq!(too_few, Err(DeckError::InvalidArgument));
    let too_many = deck.riffle_with_marks(Deck::from([10, 11]), &[true, false, false, true, false, false]);
    assert_eq!(too_many, Err(DeckError::InvalidArgument));
    let one_set = deck.riffle_with_marks(Deck::from([10, 11]), &[true, false, false, false, false]);
    assert_eq!(one_set, Err(DeckError::InvalidArgument));
    let three_set = deck.riffle_with_marks(Deck::from([10, 11]), &[true, true, false, true, false]);
    assert_eq!(three_set, Err(DeckError::InvalidArgument));
    assert_eq!(deck.cards, [0, 1, 2]);
}

#[test]
fn inverse_riffle_at_given_lifts() {
    let mut deck = Deck::from_iter(0..6_i32);
    deck.inverse_riffle_at(&[false, true, false, false, true, true]).unwrap();
    assert_eq!(deck.cards, [0, 2, 3, 1, 4, 5]);
    deck.inverse_riffle_at(&[true; 6]).unwrap();
    assert_eq!(deck.cards, [0, 2, 3, 1, 4, 5]);
    deck.inverse_riffle_at(&[false; 6]).unwrap();
    assert_eq!(deck.cards, [0, 2, 3, 1, 4, 5]);
    assert_eq!(deck.inverse_riffle_at(&[true; 5]), Err(DeckError::InvalidArgument));
    assert_eq!(deck.inverse_riffle_at(&[true; 7]), Err(DeckError::InvalidArgument));
    assert_eq!(deck.cards, [0, 2, 3, 1, 4, 5]);
    let mut none: Deck<i32> = Deck::empty();
    assert_eq!(none.inverse_riffle_at(&[]), Ok(()));
}

#[test]
fn lifting_the_marked_cards_undoes_a_riffle() {
    let marks = [true, false, true, true, false, false, true, false];
    let mut deck = Deck::from([0, 1, 2, 3]);
    deck.riffle_with_marks(Deck::from([4, 5, 6, 7]), &marks).unwrap();
    assert_eq!(deck.cards, [4, 0, 5, 6, 1, 2, 7, 3]);
    deck.inverse_riffle_at(&marks).unwrap();
    assert_eq!(deck.cards, [0, 1, 2, 3, 4, 5, 6, 7]);
}

#[test]
fn same_seed_same_generator_afterwards() {
    let run = |seed: u64| {
        let mut deck = Deck::from_iter(0..40_i32);
        deck.set_seed_u64(seed);
        deck.shuffle();
        deck.riffle_at_nth(17);
        deck.riffle_with(Deck::from_iter(40..52));
        deck.inverse_riffle();
        deck.gilbreath(9).unwrap();
        deck.overhand(2, 7).unwrap();
        deck.premantle(2, 7).unwrap();
        deck.pile_shuffle(6).unwrap();
        deck.pile_shuffle(60).unwrap();
        deck
    };
    let one = run(99);
    let other = run(99);
    assert_eq!(one.cards, other.cards);
    assert_eq!(one.rng, other.rng);
    assert_ne!(one.rng, run(100).rng);
}
