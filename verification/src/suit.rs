//! The suit of a playing card.

use vstd::prelude::*;
use vstd::std_specs::convert::TryFromSpecImpl;

verus! {

/// The suit of a playing card.
#[derive(Debug, Copy, Clone, PartialEq, Eq, Structural)]
pub enum Suit {
    Clubs,
    Hearts,
    Diamonds,
    Spades,
}

/// The card glyphs of the clubs: ace, two to ten, jack, knight, queen, king.
pub const CLUBS: [char; 14] = [
    '🃑', '🃒', '🃓', '🃔', '🃕', '🃖', '🃗', '🃘', '🃙', '🃚', '🃛', '🃜', '🃝', '🃞',
];

/// The card glyphs of the hearts, in the same order.
pub const HEARTS: [char; 14] = [
    '🂱', '🂲', '🂳', '🂴', '🂵', '🂶', '🂷', '🂸', '🂹', '🂺', '🂻', '🂼', '🂽', '🂾',
];

/// The card glyphs of the diamonds, in the same order.
pub const DIAMONDS: [char; 14] = [
    '🃁', '🃂', '🃃', '🃄', '🃅', '🃆', '🃇', '🃈', '🃉', '🃊', '🃋', '🃌', '🃍', '🃎',
];

/// The card glyphs of the spades, in the same order.
pub const SPADES: [char; 14] = [
    '🂡', '🂢', '🂣', '🂤', '🂥', '🂦', '🂧', '🂨', '🂩', '🂪', '🂫', '🂬', '🂭', '🂮',
];

impl Suit {
    /// The letter that stands for each suit.
    pub open spec fn spec_symbol(self) -> char {
        match self {
            Suit::Clubs => 'C',
            Suit::Hearts => 'H',
            Suit::Spades => 'S',
            Suit::Diamonds => 'D',
        }
    }

    /// The small letter that is read as each suit.
    pub open spec fn spec_small_symbol(self) -> char {
        match self {
            Suit::Clubs => 'c',
            Suit::Hearts => 'h',
            Suit::Spades => 's',
            Suit::Diamonds => 'd',
        }
    }

    /// The black pip of each suit.
    pub open spec fn spec_unicode(self) -> char {
        match self {
            Suit::Clubs => '♣',
            Suit::Hearts => '♥',
            Suit::Spades => '♠',
            Suit::Diamonds => '♦',
        }
    }

    /// The card glyphs of each suit.
    pub open spec fn spec_cards(self) -> [char; 14] {
        match self {
            Suit::Clubs => CLUBS,
            Suit::Hearts => HEARTS,
            Suit::Diamonds => DIAMONDS,
            Suit::Spades => SPADES,
        }
    }

    /// The English name of each suit.
    pub open spec fn spec_name(self) -> Seq<char> {
        match self {
            Suit::Clubs => "Clubs"@,
            Suit::Hearts => "Hearts"@,
            Suit::Spades => "Spades"@,
            Suit::Diamonds => "Diamonds"@,
        }
    }

    /// `c` is read as this suit: it is the suit's letter, capital or small,
    /// or its pip.
    pub open spec fn spec_reads(self, c: char) -> bool {
        c == self.spec_symbol() || c == self.spec_small_symbol() || c == self.spec_unicode()
    }

    /// The letter that stands for the suit.
    pub fn symbol(&self) -> (c: char)
        ensures
            c == self.spec_symbol(),
    {
        match self {
            Suit::Clubs => 'C',
            Suit::Hearts => 'H',
            Suit::Spades => 'S',
            Suit::Diamonds => 'D',
        }
    }

    /// The black pip of the suit.
    pub fn unicode(&self) -> (c: char)
        ensures
            c == self.spec_unicode(),
    {
        match self {
            Suit::Clubs => '♣',
            Suit::Hearts => '♥',
            Suit::Spades => '♠',
            Suit::Diamonds => '♦',
        }
    }

    /// The card glyphs of the suit: ace, two to ten, jack, knight, queen,
    /// king.
    pub fn cards(&self) -> (glyphs: &'static [char; 14])
        ensures
            *glyphs == self.spec_cards(),
    {
        match self {
            Suit::Clubs => &CLUBS,
            Suit::Hearts => &HEARTS,
            Suit::Diamonds => &DIAMONDS,
            Suit::Spades => &SPADES,
        }
    }

    /// The English name of the suit.
    pub fn name(&self) -> (name: &'static str)
        ensures
            name@ == self.spec_name(),
    {
        match self {
            Suit::Clubs => "Clubs",
            Suit::Hearts => "Hearts",
            Suit::Spades => "Spades",
            Suit::Diamonds => "Diamonds",
        }
    }
}

impl TryFrom<char> for Suit {
    type Error = &'static str;

    /// The suit that `value` is read as. A character that is read as no suit
    /// is refused.
    fn try_from(value: char) -> (outcome: Result<Suit, &'static str>)
        ensures
            match outcome {
                Ok(suit) => suit.spec_reads(value),
                Err(message) => message@ == "invalid char for suit"@ && forall|suit: Suit|
                    !suit.spec_reads(value),
            },
    {
        let suit = match value {
            'C' | '♣' | 'c' => Suit::Clubs,
            'H' | '♥' | 'h' => Suit::Hearts,
            'D' | '♦' | 'd' => Suit::Diamonds,
            'S' | '♠' | 's' => Suit::Spades,
            _ => {
                assert forall|suit: Suit| !suit.spec_reads(value) by {}
                return Err("invalid char for suit");
            },
        };
        assert(suit.spec_reads(value));
        assert(forall|other: Suit| other.spec_reads(value) ==> other == suit);
        Ok(suit)
    }
}

impl TryFromSpecImpl<char> for Suit {
    open spec fn obeys_try_from_spec() -> bool {
        true
    }

    open spec fn try_from_spec(value: char) -> Result<Suit, &'static str> {
        if exists|suit: Suit| suit.spec_reads(value) {
            Ok(choose|suit: Suit| suit.spec_reads(value))
        } else {
            Err("invalid char for suit")
        }
    }
}

} // verus!
