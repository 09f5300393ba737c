//! The rank of a playing card.

use vstd::prelude::*;
use vstd::std_specs::convert::TryFromSpecImpl;

verus! {

/// The rank of a playing card, from the lowest to the highest.
#[derive(Debug, Copy, Clone, PartialEq, Eq, PartialOrd, Ord, Structural)]
pub enum Rank {
    One,
    Two,
    Three,
    Four,
    Five,
    Six,
    Seven,
    Eight,
    Nine,
    Ten,
    Jack,
    Queen,
    King,
    Ace,
}

impl Rank {
    /// The character that stands for each rank.
    pub open spec fn spec_symbol(self) -> char {
        match self {
            Rank::Ace => 'A',
            Rank::One => '1',
            Rank::Two => '2',
            Rank::Three => '3',
            Rank::Four => '4',
            Rank::Five => '5',
            Rank::Six => '6',
            Rank::Seven => '7',
            Rank::Eight => '8',
            Rank::Nine => '9',
            Rank::Ten => 'T',
            Rank::Jack => 'J',
            Rank::Queen => 'Q',
            Rank::King => 'K',
        }
    }

    /// The English name of each rank.
    pub open spec fn spec_name(self) -> Seq<char> {
        match self {
            Rank::Ace => "Ace"@,
            Rank::One => "One"@,
            Rank::Two => "Two"@,
            Rank::Three => "Three"@,
            Rank::Four => "Four"@,
            Rank::Five => "Five"@,
            Rank::Six => "Six"@,
            Rank::Seven => "Seven"@,
            Rank::Eight => "Eight"@,
            Rank::Nine => "Nine"@,
            Rank::Ten => "Ten"@,
            Rank::Jack => "Jack"@,
            Rank::Queen => "Queen"@,
            Rank::King => "King"@,
        }
    }

    /// The character that stands for the rank.
    pub fn symbol(&self) -> (c: char)
        ensures
            c == self.spec_symbol(),
    {
        match self {
            Rank::Ace => 'A',
            Rank::One => '1',
            Rank::Two => '2',
            Rank::Three => '3',
            Rank::Four => '4',
            Rank::Five => '5',
            Rank::Six => '6',
            Rank::Seven => '7',
            Rank::Eight => '8',
            Rank::Nine => '9',
            Rank::Ten => 'T',
            Rank::Jack => 'J',
            Rank::Queen => 'Q',
            Rank::King => 'K',
        }
    }

    /// The English name of the rank.
    pub fn name(&self) -> (name: &'static str)
        ensures
            name@ == self.spec_name(),
    {
        match self {
            Rank::Ace => "Ace",
            Rank::One => "One",
            Rank::Two => "Two",
            Rank::Three => "Three",
            Rank::Four => "Four",
            Rank::Five => "Five",
            Rank::Six => "Six",
            Rank::Seven => "Seven",
            Rank::Eight => "Eight",
            Rank::Nine => "Nine",
            Rank::Ten => "Ten",
            Rank::Jack => "Jack",
            Rank::Queen => "Queen",
            Rank::King => "King",
        }
    }
}

impl TryFrom<char> for Rank {
    type Error = &'static str;

    /// The rank that `value` stands for. A character that stands for no rank
    /// is refused.
    fn try_from(value: char) -> (outcome: Result<Rank, &'static str>)
        ensures
            match outcome {
                Ok(rank) => rank.spec_symbol() == value,
                Err(message) => message@ == "invalid char for rank"@ && forall|rank: Rank|
                    rank.spec_symbol() != value,
            },
    {
        let rank = match value {
            'A' => Rank::Ace,
            '1' => Rank::One,
            '2' => Rank::Two,
            '3' => Rank::Three,
            '4' => Rank::Four,
            '5' => Rank::Five,
            '6' => Rank::Six,
            '7' => Rank::Seven,
            '8' => Rank::Eight,
            '9' => Rank::Nine,
            'T' => Rank::Ten,
            'J' => Rank::Jack,
            'Q' => Rank::Queen,
            'K' => Rank::King,
            _ => {
                assert forall|rank: Rank| rank.spec_symbol() != value by {}
                return Err("invalid char for rank");
            },
        };
        assert(rank.spec_symbol() == value);
        assert(forall|other: Rank| other.spec_symbol() == value ==> other == rank);
        Ok(rank)
    }
}

impl TryFromSpecImpl<char> for Rank {
    open spec fn obeys_try_from_spec() -> bool {
        true
    }

    open spec fn try_from_spec(value: char) -> Result<Rank, &'static str> {
        if exists|rank: Rank| rank.spec_symbol() == value {
            Ok(choose|rank: Rank| rank.spec_symbol() == value)
        } else {
            Err("invalid char for rank")
        }
    }
}

} // verus!
