//! A single-player patience game: a 52-card deck dealt onto a board of twenty
//! labelled locations, with verified rules for moving cards between them.

pub mod board;
pub mod card;
pub mod deck;
pub mod location;

pub use board::{Board, Movement, VictoryState};
pub use card::{Card, Color, Rank, Suit, MAX_RANK, NUM_SUITS};
pub use deck::Deck;
pub use location::{Column, Foundation, SpotInHand};
