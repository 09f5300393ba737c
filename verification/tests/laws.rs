use card_deck::deck::{Deck, DeckError};

fn cards_of(deck: &Deck<u32>) -> Vec<u32> {
    deck.iter().copied().collect()
}

fn seeded(n: u32, seed: u64) -> Deck<u32> {
    let mut deck = Deck::from_iter(0..n);
    deck.set_seed_u64(seed);
    deck
}

fn holds_all(deck: &Deck<u32>, n: u32) -> bool {
    let mut cards = cards_of(deck);
    cards.sort();
    cards == (0..n).collect::<Vec<u32>>()
}

fn is_woven(merged: &[u32], left: &[u32], right: &[u32]) -> bool {
    let from_left: Vec<u32> = merged.iter().copied().filter(|c| left.contains(c)).collect();
    let from_right: Vec<u32> = merged.iter().copied().filter(|c| right.contains(c)).collect();
    from_left == left && from_right == right
}

#[test]
fn every_shuffle_keeps_every_card() {
    for seed in 0..20 {
        let mut deck = seeded(31, seed);
        deck.shuffle();
        assert!(holds_all(&deck, 31));
        deck.riffle_at_nth(15);
        assert!(holds_all(&deck, 31));
        deck.inverse_riffle();
        assert!(holds_all(&deck, 31));
        deck.gilbreath(10).unwrap();
        assert!(holds_all(&deck, 31));
        deck.overhand(3, 10).unwrap();
        assert!(holds_all(&deck, 31));
        deck.premantle(1, 4).unwrap();
        assert!(holds_all(&deck, 31));
        deck.faro(false).unwrap();
        assert!(holds_all(&deck, 31));
        deck.pile_shuffle(4).unwrap();
        assert!(holds_all(&deck, 31));
        deck.pile_shuffle(40).unwrap();
        assert!(holds_all(&deck, 31));
        deck.shuffle_with(Deck::from_iter(31..40));
        assert!(holds_all(&deck, 40));
        deck.riffle_with(Deck::from_iter(40..45));
        assert!(holds_all(&deck, 45));
    }
}

#[test]
fn shuffle_moves_cards() {
    let mut deck = seeded(52, 1);
    deck.shuffle();
    assert_ne!(cards_of(&deck), (0..52).collect::<Vec<u32>>());
}

#[test]
fn same_seed_same_order() {
    let run = |seed: u64| {
        let mut deck = seeded(52, seed);
        deck.shuffle();
        deck.riffle_at_nth(26);
        deck.inverse_riffle();
        deck.overhand(3, 10).unwrap();
        deck.pile_shuffle(5).unwrap();
        deck.cut_random();
        deck.gilbreath(20).unwrap();
        deck.premantle(1, 3).unwrap();
        let drawn = deck.draw_random();
        (cards_of(&deck), drawn)
    };
    assert_eq!(run(42), run(42));
    assert_ne!(run(42), run(43));
    let mut one = Deck::from_iter(0..52_u32);
    let mut other = Deck::from_iter(0..52_u32);
    one.set_seed([7; 16]);
    other.set_seed([7; 16]);
    one.shuffle();
    other.shuffle();
    assert_eq!(one, other);
}

#[test]
fn uniform_shuffle_reaches_every_place() {
    let mut seen = [[false; 4]; 4];
    for seed in 0..200 {
        let mut deck = seeded(4, seed);
        deck.shuffle();
        for (place, card) in cards_of(&deck).into_iter().enumerate() {
            seen[place][card as usize] = true;
        }
    }
    assert!(seen.iter().all(|row| row.iter().all(|hit| *hit)));
}

#[test]
fn riffle_keeps_both_packets_in_order() {
    for seed in 0..20 {
        let mut deck = seeded(20, seed);
        deck.riffle_at_nth(8);
        let left: Vec<u32> = (0..8).collect();
        let right: Vec<u32> = (8..20).collect();
        assert!(is_woven(&cards_of(&deck), &left, &right));
    }
}

#[test]
fn riffle_with_an_empty_packet() {
    let mut deck = seeded(5, 1);
    deck.riffle_with(Deck::empty());
    assert_eq!(cards_of(&deck), vec![0, 1, 2, 3, 4]);
    let mut none: Deck<u32> = Deck::empty();
    none.riffle_with(Deck::from_iter(0..3));
    assert_eq!(cards_of(&none), vec![0, 1, 2]);
    let mut deck = seeded(5, 1);
    deck.riffle_at_nth(0);
    assert_eq!(cards_of(&deck), vec![0, 1, 2, 3, 4]);
    deck.riffle_at_nth(5);
    assert_eq!(cards_of(&deck), vec![0, 1, 2, 3, 4]);
}

#[test]
fn inverse_riffle_lifts_cards_in_order() {
    for seed in 0..20 {
        let mut deck = seeded(20, seed);
        deck.inverse_riffle();
        let cards = cards_of(&deck);
        let descents = cards.windows(2).filter(|pair| pair[0] > pair[1]).count();
        assert!(descents <= 1);
    }
}

#[test]
fn gilbreath_reverses_the_top_packet() {
    for seed in 0..20 {
        let mut deck = seeded(12, seed);
        deck.gilbreath(5).unwrap();
        let left: Vec<u32> = vec![4, 3, 2, 1, 0];
        let right: Vec<u32> = (5..12).collect();
        assert!(is_woven(&cards_of(&deck), &left, &right));
    }
    let mut deck = seeded(4, 1);
    deck.gilbreath(4).unwrap();
    assert_eq!(cards_of(&deck), vec![3, 2, 1, 0]);
    deck.gilbreath(0).unwrap();
    assert_eq!(cards_of(&deck), vec![3, 2, 1, 0]);
}

#[test]
fn gilbreath_of_too_many_cards_is_refused() {
    let mut deck = seeded(4, 1);
    assert_eq!(deck.gilbreath(5), Err(DeckError::InvalidArgument));
    assert_eq!(cards_of(&deck), vec![0, 1, 2, 3]);
    let mut none: Deck<u32> = Deck::empty();
    assert_eq!(none.gilbreath(1), Err(DeckError::InvalidArgument));
    assert_eq!(none.gilbreath(0), Ok(()));
}

#[test]
fn out_faro_of_an_odd_deck_is_refused() {
    let mut deck = seeded(9, 1);
    assert_eq!(deck.faro(true), Err(DeckError::InvalidArgument));
    assert_eq!(cards_of(&deck), (0..9).collect::<Vec<u32>>());
}

#[test]
fn faro_scenarios() {
    let mut deck = Deck::from_iter(0..10_u32);
    deck.faro(true).unwrap();
    assert_eq!(cards_of(&deck), vec![0, 5, 1, 6, 2, 7, 3, 8, 4, 9]);
    let mut deck = Deck::from_iter(0..10_u32);
    deck.faro(false).unwrap();
    assert_eq!(cards_of(&deck), vec![5, 0, 6, 1, 7, 2, 8, 3, 9, 4]);
    let mut one = Deck::from([7_u32]);
    one.faro(false).unwrap();
    assert_eq!(cards_of(&one), vec![7]);
}

#[test]
fn eight_out_faros_restore_fifty_two_cards() {
    let mut deck = Deck::from_iter(0..52_u32);
    for round in 1..=8 {
        deck.faro(true).unwrap();
        let restored = cards_of(&deck) == (0..52).collect::<Vec<u32>>();
        assert_eq!(restored, round == 8);
    }
}

#[test]
fn out_faro_twice_restores_two_and_four_cards() {
    for n in [0_u32, 2, 4] {
        let mut deck = Deck::from_iter(0..n);
        deck.faro(true).unwrap();
        deck.faro(true).unwrap();
        assert_eq!(cards_of(&deck), (0..n).collect::<Vec<u32>>());
    }
    let mut six = Deck::from_iter(0..6_u32);
    six.faro(true).unwrap();
    six.faro(true).unwrap();
    assert_eq!(cards_of(&six), vec![0, 4, 3, 2, 1, 5]);
    let mut eight = Deck::from_iter(0..8_u32);
    for _ in 0..3 {
        eight.faro(true).unwrap();
    }
    assert_eq!(cards_of(&eight), (0..8).collect::<Vec<u32>>());
}

#[test]
fn fifty_two_in_faros_restore_fifty_two_cards() {
    let mut deck = Deck::from_iter(0..52_u32);
    for round in 1..=52 {
        deck.faro(false).unwrap();
        let restored = cards_of(&deck) == (0..52).collect::<Vec<u32>>();
        assert_eq!(restored, round == 52);
    }
}

#[test]
fn overhand_with_sure_odds() {
    let mut deck = seeded(6, 1);
    deck.premantle(0, 5).unwrap();
    assert_eq!(cards_of(&deck), vec![0, 1, 2, 3, 4, 5]);
    deck.premantle(5, 5).unwrap();
    assert_eq!(cards_of(&deck), vec![0, 1, 2, 3, 4, 5]);
    deck.overhand(0, 1).unwrap();
    assert_eq!(cards_of(&deck), vec![5, 4, 3, 2, 1, 0]);
    deck.overhand(1, 1).unwrap();
    assert_eq!(cards_of(&deck), vec![0, 1, 2, 3, 4, 5]);
}

#[test]
fn overhand_with_odds_that_are_none_is_refused() {
    let mut deck = seeded(6, 1);
    assert_eq!(deck.overhand(1, 0), Err(DeckError::InvalidArgument));
    assert_eq!(deck.overhand(3, 2), Err(DeckError::InvalidArgument));
    assert_eq!(deck.premantle(0, 0), Err(DeckError::InvalidArgument));
    assert_eq!(deck.premantle(11, 10), Err(DeckError::InvalidArgument));
    assert_eq!(cards_of(&deck), vec![0, 1, 2, 3, 4, 5]);
}

#[test]
fn premantle_turns_packets_over() {
    for seed in 0..20 {
        let mut deck = seeded(16, seed);
        deck.premantle(1, 3).unwrap();
        let cards = cards_of(&deck);
        let mut at = 0;
        while at < cards.len() {
            let first = cards[at] as usize;
            if first == at {
                at += 1;
            } else {
                assert!(first > at);
                for step in 0..=(first - at) {
                    assert_eq!(cards[at + step] as usize, first - step);
                }
                at = first + 1;
            }
        }
    }
}

#[test]
fn pile_shuffle_stacks_the_piles() {
    for seed in 0..20 {
        let mut deck = seeded(10, seed);
        deck.pile_shuffle(3).unwrap();
        let cards = cards_of(&deck);
        let piles: [Vec<u32>; 3] = [vec![9, 6, 3, 0], vec![7, 4, 1], vec![8, 5, 2]];
        let mut at = 0;
        let mut used = [false; 3];
        while at < cards.len() {
            let pile = (cards[at] % 3) as usize;
            assert!(!used[pile]);
            used[pile] = true;
            assert_eq!(&cards[at..at + piles[pile].len()], &piles[pile][..]);
            at += piles[pile].len();
        }
    }
}

#[test]
fn pile_shuffle_with_one_pile_reverses() {
    let mut deck = seeded(5, 1);
    deck.pile_shuffle(1).unwrap();
    assert_eq!(cards_of(&deck), vec![4, 3, 2, 1, 0]);
}

#[test]
fn pile_shuffle_with_many_piles_is_the_uniform_shuffle() {
    for seed in 0..20 {
        for piles in [10, 11, 1000] {
            let mut piled = seeded(10, seed);
            let mut shuffled = seeded(10, seed);
            piled.pile_shuffle(piles).unwrap();
            shuffled.shuffle();
            assert_eq!(piled, shuffled);
            piled.riffle_at_nth(5);
            shuffled.riffle_at_nth(5);
            assert_eq!(piled, shuffled);
        }
    }
}

#[test]
fn pile_shuffle_to_no_pile_is_refused() {
    let mut deck = seeded(5, 1);
    assert_eq!(deck.pile_shuffle(0), Err(DeckError::InvalidArgument));
    assert_eq!(cards_of(&deck), vec![0, 1, 2, 3, 4]);
    let mut none: Deck<u32> = Deck::empty();
    assert_eq!(none.pile_shuffle(0), Ok(()));
}

#[test]
fn empty_deck_is_shuffled_to_an_empty_deck() {
    let mut deck: Deck<u32> = Deck::empty();
    deck.shuffle();
    deck.shuffle_with(Deck::empty());
    deck.riffle_with(Deck::empty());
    deck.riffle_at_nth(0);
    deck.inverse_riffle();
    assert_eq!(deck.gilbreath(0), Ok(()));
    assert_eq!(deck.faro(true), Ok(()));
    assert_eq!(deck.faro(false), Ok(()));
    assert_eq!(deck.overhand(1, 2), Ok(()));
    assert_eq!(deck.premantle(1, 2), Ok(()));
    assert_eq!(deck.pile_shuffle(3), Ok(()));
    assert_eq!(deck.len(), 0);
}

#[test]
fn shuffle_with_is_the_shuffle_of_both() {
    for seed in 0..20 {
        let mut joined = seeded(7, seed);
        joined.shuffle_with(Deck::from_iter(7..12));
        let mut whole = seeded(12, seed);
        whole.shuffle();
        assert_eq!(joined.cards, whole.cards);
        assert_eq!(joined.rng, whole.rng);
        assert_ne!(cards_of(&joined), (0..12).collect::<Vec<u32>>());
    }
}
