use card_deck::deck::Deck;

#[test]
fn draw_top() {
    let mut deck = Deck::from_iter(1..=6);
    assert_eq!(deck.draw_top().unwrap(), 1)
}

#[test]
fn draw_bottom() {
    let mut deck = Deck::from([1, 2, 3, 4, 5, 6]);
    assert_eq!(deck.draw_bottom().unwrap(), 6)
}

#[test]
fn draw_nth() {
    let mut deck = Deck::from([1, 2, 3, 4, 5, 6]);
    assert_eq!(deck.draw_nth(3).unwrap(), 4)
}

#[test]
fn place_top() {
    let mut deck = Deck::from([1, 2, 3, 4, 5, 6]);
    deck.place_top(100);
    assert_eq!(deck.get(0).unwrap(), &100);
}

#[test]
fn place_bottom() {
    let mut deck = Deck::from([1, 2, 3, 4, 5, 6]);
    deck.place_bottom(100);
    assert_eq!(deck.get(6).unwrap(), &100);
}

#[test]
fn place_nth() {
    let mut deck = Deck::from([1, 2, 3, 4, 5, 6]);
    deck.place_nth(3, 100).unwrap();
    assert_eq!(deck.get(3).unwrap(), &100);
}

#[test]
fn cut_nth() {
    let mut deck = Deck::from([1, 2, 3, 4, 5, 6]);
    deck.cut_nth(3);
    assert_eq!(deck, Deck::from([4, 5, 6, 1, 2, 3]));
}

#[test]
fn cycle() {
    let mut deck = Deck::from([0, 1, 2]);
    deck.cycle(&[0, 1, 2]).unwrap();
    assert_eq!(deck, Deck::from([1, 2, 0]));
}

#[test]
fn reverse() {
    let mut deck = Deck::from_iter(0..=9);
    deck.reverse();
    assert_eq!(deck, Deck::from([9, 8, 7, 6, 5, 4, 3, 2, 1, 0]));
}
