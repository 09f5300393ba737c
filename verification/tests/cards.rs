use card_deck::playing_card::PlayingCard;
use card_deck::rank::Rank;
use card_deck::suit::Suit;

#[test]
fn card_from_tuple() {
    let card = PlayingCard::try_from(('A', 'S')).unwrap();
    assert_eq!(
        card,
        PlayingCard {
            rank: Rank::Ace,
            suit: Suit::Spades
        }
    )
}

#[test]
fn card_from_tuple_unicode() {
    let card = PlayingCard::try_from(('A', '♠')).unwrap();
    assert_eq!(
        card,
        PlayingCard {
            rank: Rank::Ace,
            suit: Suit::Spades
        }
    )
}

#[test]
fn card_display() {
    let card = PlayingCard {
        rank: Rank::Ace,
        suit: Suit::Spades,
    };
    assert_eq!(card.pair(), ('A', 'S'));
    assert_eq!(card.pair_unicode(), ('A', '♠'));
    assert_eq!(card.name(), "Ace of Spades");
    assert_eq!(card.unicode(), '🂡');
}

#[test]
fn playing_card_from_tuple() {
    let card = PlayingCard::try_from(('A', 'S')).unwrap();
    assert_eq!(
        card,
        PlayingCard {
            rank: Rank::Ace,
            suit: Suit::Spades
        }
    )
}

#[test]
fn playing_card_from_tuple_unicode() {
    let card = PlayingCard::try_from(('A', '♠')).unwrap();
    assert_eq!(
        card,
        PlayingCard {
            rank: Rank::Ace,
            suit: Suit::Spades
        }
    )
}

#[test]
fn playing_card_display() {
    let card = PlayingCard {
        rank: Rank::Ace,
        suit: Suit::Spades,
    };
    assert_eq!(card.pair(), ('A', 'S'));
    assert_eq!(card.pair_unicode(), ('A', '♠'));
    assert_eq!(card.name(), "Ace of Spades");
    assert_eq!(card.unicode(), '🂡');
}
