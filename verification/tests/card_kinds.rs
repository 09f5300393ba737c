use card_deck::deck::Deck;
use card_deck::playing_card::PlayingCard;
use card_deck::rank::Rank;
use card_deck::set_card::{SetCard, SetColor, SetNumber, SetShading, SetShape};
use card_deck::suit::{Suit, CLUBS, DIAMONDS, HEARTS, SPADES};

const RANKS: [Rank; 14] = [
    Rank::One,
    Rank::Two,
    Rank::Three,
    Rank::Four,
    Rank::Five,
    Rank::Six,
    Rank::Seven,
    Rank::Eight,
    Rank::Nine,
    Rank::Ten,
    Rank::Jack,
    Rank::Queen,
    Rank::King,
    Rank::Ace,
];

const SUITS: [Suit; 4] = [Suit::Clubs, Suit::Hearts, Suit::Diamonds, Suit::Spades];

#[test]
fn rank_symbols_read_back() {
    for rank in RANKS {
        assert_eq!(Rank::try_from(rank.symbol()), Ok(rank));
    }
    assert_eq!(Rank::Ten.symbol(), 'T');
    assert_eq!(Rank::One.symbol(), '1');
    assert_eq!(Rank::Queen.name(), "Queen");
    assert!(Rank::One < Rank::Two && Rank::King < Rank::Ace);
}

#[test]
fn rank_of_a_stray_character_is_refused() {
    assert_eq!(Rank::try_from('0'), Err("invalid char for rank"));
    assert_eq!(Rank::try_from('a'), Err("invalid char for rank"));
}

#[test]
fn suit_symbols_read_back() {
    for suit in SUITS {
        assert_eq!(Suit::try_from(suit.symbol()), Ok(suit));
        assert_eq!(Suit::try_from(suit.unicode()), Ok(suit));
        assert_eq!(Suit::try_from(suit.symbol().to_ascii_lowercase()), Ok(suit));
    }
    assert_eq!(Suit::Hearts.symbol(), 'H');
    assert_eq!(Suit::Hearts.unicode(), '♥');
    assert_eq!(Suit::Diamonds.name(), "Diamonds");
}

#[test]
fn suit_of_a_stray_character_is_refused() {
    assert_eq!(Suit::try_from('X'), Err("invalid char for suit"));
    assert_eq!(PlayingCard::try_from(('A', 'X')), Err("invalid char for suit"));
    assert_eq!(PlayingCard::try_from(('X', 'S')), Err("invalid char for rank"));
    assert_eq!(PlayingCard::try_from(('X', 'X')), Err("invalid char for rank"));
}

#[test]
fn suit_glyphs() {
    assert_eq!(Suit::Clubs.cards(), &CLUBS);
    assert_eq!(Suit::Hearts.cards(), &HEARTS);
    assert_eq!(Suit::Diamonds.cards(), &DIAMONDS);
    assert_eq!(Suit::Spades.cards(), &SPADES);
    assert_eq!(SPADES[0], '\u{1F0A1}');
    assert_eq!(CLUBS[13], '\u{1F0DE}');
}

#[test]
fn card_glyphs() {
    let glyph = |rank, suit| PlayingCard { rank, suit }.unicode();
    assert_eq!(glyph(Rank::Ace, Suit::Hearts), '\u{1F0B1}');
    assert_eq!(glyph(Rank::One, Suit::Hearts), '\u{1F0B1}');
    assert_eq!(glyph(Rank::Two, Suit::Diamonds), '\u{1F0C2}');
    assert_eq!(glyph(Rank::Ten, Suit::Clubs), '\u{1F0DA}');
    assert_eq!(glyph(Rank::Jack, Suit::Spades), '\u{1F0AB}');
    assert_eq!(glyph(Rank::Queen, Suit::Hearts), '\u{1F0BD}');
    assert_eq!(glyph(Rank::King, Suit::Spades), '\u{1F0AE}');
}

#[test]
fn card_in_two_characters() {
    let card = PlayingCard { rank: Rank::Ten, suit: Suit::Diamonds };
    assert_eq!(card.to_string(), "TD");
    assert_eq!(card.name(), "Ten of Diamonds");
    assert_eq!(card.pair_unicode(), ('T', '♦'));
}

#[test]
fn new_deck_of_playing_cards() {
    let deck = Deck::<PlayingCard>::new();
    assert_eq!(deck.len(), 52);
    let text: Vec<String> = deck.iter().map(|card| card.to_string()).collect();
    let expected = "AS 2S 3S 4S 5S 6S 7S 8S 9S TS JS QS KS \
                    AD 2D 3D 4D 5D 6D 7D 8D 9D TD JD QD KD \
                    KC QC JC TC 9C 8C 7C 6C 5C 4C 3C 2C AC \
                    KH QH JH TH 9H 8H 7H 6H 5H 4H 3H 2H AH";
    assert_eq!(text.join(" "), expected);
}

#[test]
fn new_deck_of_set_cards() {
    let deck = Deck::<SetCard>::new();
    assert_eq!(deck.len(), 81);
    assert_eq!(deck.top().unwrap().to_string(), "[Purple, Open, Oval, Three]");
    assert_eq!(deck.get(1).unwrap().to_string(), "[Purple, Open, Oval, Two]");
    assert_eq!(deck.get(3).unwrap().to_string(), "[Purple, Open, Squiggle, Three]");
    assert_eq!(deck.get(9).unwrap().to_string(), "[Purple, Striped, Oval, Three]");
    assert_eq!(deck.get(27).unwrap().to_string(), "[Green, Open, Oval, Three]");
    assert_eq!(deck.bottom().unwrap().to_string(), "[Red, Solid, Diamond, One]");
    let mut seen: Vec<String> = deck.iter().map(|card| card.to_string()).collect();
    seen.sort();
    seen.dedup();
    assert_eq!(seen.len(), 81);
}

#[test]
fn set_card_in_words() {
    let card = SetCard {
        color: SetColor::Custom("Blue"),
        shading: SetShading::Striped,
        shape: SetShape::Custom("Star"),
        number: SetNumber::Two,
    };
    assert_eq!(card.to_string(), "[Blue, Striped, Star, Two]");
    assert_eq!(SetColor::Green.to_string(), "Green");
    assert_eq!(SetShading::Custom("Dotted").name(), "Dotted");
    assert_eq!(SetShape::Squiggle.name(), "Squiggle");
    assert_eq!(SetNumber::Three.to_string(), "Three");
}
