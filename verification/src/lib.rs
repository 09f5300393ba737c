//! Decks of cards: an ordered, double-ended sequence of items that owns its
//! random number generator, the shuffles that rearrange it, and a few
//! ready-made kinds of card.

pub mod randomness;
pub mod arrangement;
pub mod deck;
pub mod equality;
pub mod shuffling;
pub mod reproducible;
pub mod faro;
pub mod sorting;
pub mod rank;
pub mod suit;
pub mod playing_card;
pub mod set_card;
