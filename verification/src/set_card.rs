//! The cards of the game of Set, and the deck of eighty-one of them.

use crate::deck::Deck;
use vstd::prelude::*;
use vstd::string::StringExecFns;

verus! {

/// The color of a Set card: one of the three of the game, or one of the
/// caller's own, by its name.
#[derive(Clone, Copy, Debug, PartialEq, Eq)]
pub enum SetColor {
    Red,
    Green,
    Purple,
    Custom(&'static str),
}

impl SetColor {
    /// The name of the color.
    pub open spec fn spec_name(self) -> Seq<char> {
        match self {
            SetColor::Red => "Red"@,
            SetColor::Green => "Green"@,
            SetColor::Purple => "Purple"@,
            SetColor::Custom(name) => name@,
        }
    }

    /// The name of the color.
    pub fn name(&self) -> (name: &'static str)
        ensures
            name@ == self.spec_name(),
    {
        match self {
            SetColor::Red => "Red",
            SetColor::Green => "Green",
            SetColor::Purple => "Purple",
            SetColor::Custom(name) => name,
        }
    }

    /// The name of the color, as a string of its own.
    pub fn to_string(&self) -> (text: String)
        ensures
            text@ == self.spec_name(),
    {
        String::from_str(self.name())
    }

    /// The color that stands at `i` among the three of the game.
    pub open spec fn spec_nth(i: int) -> SetColor {
        if i == 0 {
            SetColor::Red
        } else if i == 1 {
            SetColor::Green
        } else {
            SetColor::Purple
        }
    }

    /// The color that stands at `i` among the three of the game.
    fn nth(i: usize) -> (it: SetColor)
        ensures
            it == SetColor::spec_nth(i as int),
    {
        if i == 0 {
            SetColor::Red
        } else if i == 1 {
            SetColor::Green
        } else {
            SetColor::Purple
        }
    }
}

/// The shading of a Set card: one of the three of the game, or one of the
/// caller's own, by its name.
#[derive(Clone, Copy, Debug, PartialEq, Eq)]
pub enum SetShading {
    Solid,
    Striped,
    Open,
    Custom(&'static str),
}

impl SetShading {
    /// The name of the shading.
    pub open spec fn spec_name(self) -> Seq<char> {
        match self {
            SetShading::Solid => "Solid"@,
            SetShading::Striped => "Striped"@,
            SetShading::Open => "Open"@,
            SetShading::Custom(name) => name@,
        }
    }

    /// The name of the shading.
    pub fn name(&self) -> (name: &'static str)
        ensures
            name@ == self.spec_name(),
    {
        match self {
            SetShading::Solid => "Solid",
            SetShading::Striped => "Striped",
            SetShading::Open => "Open",
            SetShading::Custom(name) => name,
        }
    }

    /// The name of the shading, as a string of its own.
    pub fn to_string(&self) -> (text: String)
        ensures
            text@ == self.spec_name(),
    {
        String::from_str(self.name())
    }

    /// The shading that stands at `i` among the three of the game.
    pub open spec fn spec_nth(i: int) -> SetShading {
        if i == 0 {
            SetShading::Solid
        } else if i == 1 {
            SetShading::Striped
        } else {
            SetShading::Open
        }
    }

    /// The shading that stands at `i` among the three of the game.
    fn nth(i: usize) -> (it: SetShading)
        ensures
            it == SetShading::spec_nth(i as int),
    {
        if i == 0 {
            SetShading::Solid
        } else if i == 1 {
            SetShading::Striped
        } else {
            SetShading::Open
        }
    }
}

/// The shape of a Set card: one of the three of the game, or one of the
/// caller's own, by its name.
#[derive(Clone, Copy, Debug, PartialEq, Eq)]
pub enum SetShape {
    Diamond,
    Squiggle,
    Oval,
    Custom(&'static str),
}

impl SetShape {
    /// The name of the shape.
    pub open spec fn spec_name(self) -> Seq<char> {
        match self {
            SetShape::Diamond => "Diamond"@,
            SetShape::Squiggle => "Squiggle"@,
            SetShape::Oval => "Oval"@,
            SetShape::Custom(name) => name@,
        }
    }

    /// The name of the shape.
    pub fn name(&self) -> (name: &'static str)
        ensures
            name@ == self.spec_name(),
    {
        match self {
            SetShape::Diamond => "Diamond",
            SetShape::Squiggle => "Squiggle",
            SetShape::Oval => "Oval",
            SetShape::Custom(name) => name,
        }
    }

    /// The name of the shape, as a string of its own.
    pub fn to_string(&self) -> (text: String)
        ensures
            text@ == self.spec_name(),
    {
        String::from_str(self.name())
    }

    /// The shape that stands at `i` among the three of the game.
    pub open spec fn spec_nth(i: int) -> SetShape {
        if i == 0 {
            SetShape::Diamond
        } else if i == 1 {
            SetShape::Squiggle
        } else {
            SetShape::Oval
        }
    }

    /// The shape that stands at `i` among the three of the game.
    fn nth(i: usize) -> (it: SetShape)
        ensures
            it == SetShape::spec_nth(i as int),
    {
        if i == 0 {
            SetShape::Diamond
        } else if i == 1 {
            SetShape::Squiggle
        } else {
            SetShape::Oval
        }
    }
}

/// The number of a Set card: one of the three of the game, or one of the
/// caller's own, by its name.
#[derive(Clone, Copy, Debug, PartialEq, Eq)]
pub enum SetNumber {
    One,
    Two,
    Three,
    Custom(&'static str),
}

impl SetNumber {
    /// The name of the number.
    pub open spec fn spec_name(self) -> Seq<char> {
        match self {
            SetNumber::One => "One"@,
            SetNumber::Two => "Two"@,
            SetNumber::Three => "Three"@,
            SetNumber::Custom(name) => name@,
        }
    }

    /// The name of the number.
    pub fn name(&self) -> (name: &'static str)
        ensures
            name@ == self.spec_name(),
    {
        match self {
            SetNumber::One => "One",
            SetNumber::Two => "Two",
            SetNumber::Three => "Three",
            SetNumber::Custom(name) => name,
        }
    }

    /// The name of the number, as a string of its own.
    pub fn to_string(&self) -> (text: String)
        ensures
            text@ == self.spec_name(),
    {
        String::from_str(self.name())
    }

    /// The number that stands at `i` among the three of the game.
    pub open spec fn spec_nth(i: int) -> SetNumber {
        if i == 0 {
            SetNumber::One
        } else if i == 1 {
            SetNumber::Two
        } else {
            SetNumber::Three
        }
    }

    /// The number that stands at `i` among the three of the game.
    fn nth(i: usize) -> (it: SetNumber)
        ensures
            it == SetNumber::spec_nth(i as int),
    {
        if i == 0 {
            SetNumber::One
        } else if i == 1 {
            SetNumber::Two
        } else {
            SetNumber::Three
        }
    }
}

/// A card of the game of Set.
#[derive(Clone, Copy, Debug, PartialEq, Eq)]
pub struct SetCard {
    pub color: SetColor,
    pub shading: SetShading,
    pub shape: SetShape,
    pub number: SetNumber,
}

/// The card that is dealt into a new Set deck as number `i`, counted from 0.
/// The number of the card changes from each card to the next, its shape with
/// every third card, its shading with every ninth, and its color with every
/// twenty-seventh.
pub open spec fn set_card_dealt(i: int) -> SetCard {
    SetCard {
        color: SetColor::spec_nth(i / 27),
        shading: SetShading::spec_nth((i / 9) % 3),
        shape: SetShape::spec_nth((i / 3) % 3),
        number: SetNumber::spec_nth(i % 3),
    }
}

/// A new Set deck, from the top. Each card is dealt on top of those before
/// it, so the last one dealt is the top card.
pub open spec fn set_deck_order() -> Seq<SetCard> {
    Seq::new(81, |p: int| set_card_dealt(80 - p))
}

impl SetCard {
    /// The card in words: its color, shading, shape and number, in square
    /// brackets, with a comma and a space between each two.
    pub open spec fn spec_text(self) -> Seq<char> {
        "["@ + self.color.spec_name() + ", "@ + self.shading.spec_name() + ", "@
            + self.shape.spec_name() + ", "@ + self.number.spec_name() + "]"@
    }

    /// The card in words, as in `[Red, Solid, Diamond, One]`.
    pub fn to_string(&self) -> (text: String)
        ensures
            text@ == self.spec_text(),
    {
        let mut text = String::from_str("[");
        text.append(self.color.name());
        text.append(", ");
        text.append(self.shading.name());
        text.append(", ");
        text.append(self.shape.name());
        text.append(", ");
        text.append(self.number.name());
        text.append("]");
        text
    }
}

impl Deck<SetCard> {
    /// The deck of the eighty-one cards of the game of Set.
    pub fn new() -> (deck: Deck<SetCard>)
        ensures
            deck@ == set_deck_order(),
    {
        let mut deck = Deck::with_capacity(81);
        let mut i: usize = 0;
        while i < 81
            invariant
                i <= 81,
                deck@.len() == i,
                forall|p: int| 0 <= p < i ==> #[trigger] deck@[p] == set_card_dealt(i - 1 - p),
            decreases 81 - i,
        {
            let card = SetCard {
                color: SetColor::nth(i / 27),
                shading: SetShading::nth((i / 9) % 3),
                shape: SetShape::nth((i / 3) % 3),
                number: SetNumber::nth(i % 3),
            };
            deck.place_top(card);
            i += 1;
        }
        assert(deck@ =~= set_deck_order());
        deck
    }
}

} // verus!
