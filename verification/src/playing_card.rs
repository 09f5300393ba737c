//! Playing cards, and the deck of fifty-two of them.

use crate::deck::Deck;
use crate::rank::Rank;
use crate::suit::Suit;
use vstd::prelude::*;
use vstd::std_specs::convert::{TryFromSpec, TryFromSpecImpl};
use vstd::string::StringExecFns;

verus! {

/// A playing card: a rank and a suit.
#[derive(Debug, Copy, Clone, PartialEq, Eq, Structural)]
pub struct PlayingCard {
    pub rank: Rank,
    pub suit: Suit,
}

/// `String::push`: appends one character.
#[verifier::external_body]
pub(crate) fn push_char(text: &mut String, c: char)
    ensures
        final(text)@ == old(text)@.push(c),
{
    text.push(c)
}

/// Where the glyph of a rank stands among the fourteen glyphs of a suit. The
/// glyphs begin with the ace, and a knight stands between jack and queen.
pub open spec fn glyph_position(rank: Rank) -> int {
    match rank {
        Rank::Ace => 0,
        Rank::One => 0,
        Rank::Two => 1,
        Rank::Three => 2,
        Rank::Four => 3,
        Rank::Five => 4,
        Rank::Six => 5,
        Rank::Seven => 6,
        Rank::Eight => 7,
        Rank::Nine => 8,
        Rank::Ten => 9,
        Rank::Jack => 10,
        Rank::Queen => 12,
        Rank::King => 13,
    }
}

/// The ranks of a deck of fifty-two, from the ace up to the king.
pub open spec fn deck_rank(i: int) -> Rank {
    if i == 0 {
        Rank::Ace
    } else if i == 1 {
        Rank::Two
    } else if i == 2 {
        Rank::Three
    } else if i == 3 {
        Rank::Four
    } else if i == 4 {
        Rank::Five
    } else if i == 5 {
        Rank::Six
    } else if i == 6 {
        Rank::Seven
    } else if i == 7 {
        Rank::Eight
    } else if i == 8 {
        Rank::Nine
    } else if i == 9 {
        Rank::Ten
    } else if i == 10 {
        Rank::Jack
    } else if i == 11 {
        Rank::Queen
    } else {
        Rank::King
    }
}

/// The card at position `p` of a new deck. From the top: the spades and the
/// diamonds, each from the ace up to the king, then the clubs and the
/// hearts, each from the king down to the ace.
pub open spec fn new_deck_card(p: int) -> PlayingCard {
    if p < 13 {
        PlayingCard { rank: deck_rank(p), suit: Suit::Spades }
    } else if p < 26 {
        PlayingCard { rank: deck_rank(p - 13), suit: Suit::Diamonds }
    } else if p < 39 {
        PlayingCard { rank: deck_rank(38 - p), suit: Suit::Clubs }
    } else {
        PlayingCard { rank: deck_rank(51 - p), suit: Suit::Hearts }
    }
}

/// A new deck of fifty-two cards, from the top.
pub open spec fn new_deck_order() -> Seq<PlayingCard> {
    Seq::new(52, |p: int| new_deck_card(p))
}

impl PlayingCard {
    /// The English name of the card: its rank, ` of `, its suit.
    pub open spec fn spec_name(self) -> Seq<char> {
        self.rank.spec_name() + " of "@ + self.suit.spec_name()
    }

    /// The English name of the card, as in `Ace of Spades`.
    pub fn name(&self) -> (name: String)
        ensures
            name@ == self.spec_name(),
    {
        let mut name = String::from_str(self.rank.name());
        name.append(" of ");
        name.append(self.suit.name());
        name
    }

    /// The characters that stand for the rank and for the suit.
    pub fn pair(&self) -> (pair: (char, char))
        ensures
            pair == (self.rank.spec_symbol(), self.suit.spec_symbol()),
    {
        (self.rank.symbol(), self.suit.symbol())
    }

    /// The character that stands for the rank, and the pip of the suit.
    pub fn pair_unicode(&self) -> (pair: (char, char))
        ensures
            pair == (self.rank.spec_symbol(), self.suit.spec_unicode()),
    {
        (self.rank.symbol(), self.suit.unicode())
    }

    /// The glyph of the card.
    pub fn unicode(&self) -> (glyph: char)
        ensures
            glyph == self.suit.spec_cards()@[glyph_position(self.rank)],
    {
        let position: usize = match self.rank {
            Rank::Ace => 0,
            Rank::One => 0,
            Rank::Two => 1,
            Rank::Three => 2,
            Rank::Four => 3,
            Rank::Five => 4,
            Rank::Six => 5,
            Rank::Seven => 6,
            Rank::Eight => 7,
            Rank::Nine => 8,
            Rank::Ten => 9,
            Rank::Jack => 10,
            Rank::Queen => 12,
            Rank::King => 13,
        };
        self.suit.cards()[position]
    }

    /// The card in two characters, rank and suit, as in `AS`.
    pub fn to_string(&self) -> (text: String)
        ensures
            text@ == seq![self.rank.spec_symbol(), self.suit.spec_symbol()],
    {
        let mut text = String::new();
        push_char(&mut text, self.rank.symbol());
        push_char(&mut text, self.suit.symbol());
        assert(text@ =~= seq![self.rank.spec_symbol(), self.suit.spec_symbol()]);
        text
    }

    /// The card at position `p` of a new deck.
    fn of_new_deck(p: usize) -> (card: PlayingCard)
        requires
            p < 52,
        ensures
            card == new_deck_card(p as int),
    {
        let (step, suit): (usize, Suit) = if p < 13 {
            (p, Suit::Spades)
        } else if p < 26 {
            (p - 13, Suit::Diamonds)
        } else if p < 39 {
            (38 - p, Suit::Clubs)
        } else {
            (51 - p, Suit::Hearts)
        };
        let rank = if step == 0 {
            Rank::Ace
        } else if step == 1 {
            Rank::Two
        } else if step == 2 {
            Rank::Three
        } else if step == 3 {
            Rank::Four
        } else if step == 4 {
            Rank::Five
        } else if step == 5 {
            Rank::Six
        } else if step == 6 {
            Rank::Seven
        } else if step == 7 {
            Rank::Eight
        } else if step == 8 {
            Rank::Nine
        } else if step == 9 {
            Rank::Ten
        } else if step == 10 {
            Rank::Jack
        } else if step == 11 {
            Rank::Queen
        } else {
            Rank::King
        };
        PlayingCard { rank, suit }
    }
}

impl TryFrom<(char, char)> for PlayingCard {
    type Error = &'static str;

    /// The card whose rank the first character stands for and whose suit the
    /// second is read as. Refused where the first stands for no rank, or
    /// else where the second is read as no suit.
    fn try_from(value: (char, char)) -> (outcome: Result<PlayingCard, &'static str>)
        ensures
            match outcome {
                Ok(card) => card.rank.spec_symbol() == value.0 && card.suit.spec_reads(value.1),
                Err(message) => if forall|rank: Rank| rank.spec_symbol() != value.0 {
                    message@ == "invalid char for rank"@
                } else {
                    message@ == "invalid char for suit"@ && forall|suit: Suit|
                        !suit.spec_reads(value.1)
                },
            },
    {
        let rank = match Rank::try_from(value.0) {
            Ok(rank) => rank,
            Err(message) => {
                return Err(message);
            },
        };
        let suit = match Suit::try_from(value.1) {
            Ok(suit) => suit,
            Err(message) => {
                return Err(message);
            },
        };
        Ok(PlayingCard { rank, suit })
    }
}

impl TryFromSpecImpl<(char, char)> for PlayingCard {
    open spec fn obeys_try_from_spec() -> bool {
        true
    }

    open spec fn try_from_spec(value: (char, char)) -> Result<PlayingCard, &'static str> {
        match (
            <Rank as TryFromSpec<char>>::try_from_spec(value.0),
            <Suit as TryFromSpec<char>>::try_from_spec(value.1),
        ) {
            (Ok(rank), Ok(suit)) => Ok(PlayingCard { rank, suit }),
            (Err(message), _) => Err(message),
            (_, Err(message)) => Err(message),
        }
    }
}

impl Deck<PlayingCard> {
    /// A deck of fifty-two playing cards in the order of a new deck.
    pub fn new() -> (deck: Deck<PlayingCard>)
        ensures
            deck@ == new_deck_order(),
    {
        let mut deck = Deck::with_capacity(52);
        let mut p: usize = 0;
        while p < 52
            invariant
                p <= 52,
                deck@.len() == p,
                forall|i: int| 0 <= i < p ==> #[trigger] deck@[i] == new_deck_card(i),
            decreases 52 - p,
        {
            deck.place_bottom(PlayingCard::of_new_deck(p));
            p += 1;
        }
        assert(deck@ =~= new_deck_order());
        deck
    }
}

} // verus!
