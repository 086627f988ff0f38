//! A verified Klondike (patience) solitaire engine.
//!
//! The engine tracks 52 cards distributed across nine ordered piles
//! (seven tableaus, four foundations, one waste, one stock), validates
//! and executes card moves according to Klondike's legality rules, and
//! maintains the face-up/face-down and card-count invariants of the
//! game. Rendering and console interaction live outside the library.

pub mod card;
pub mod deck;
pub mod pile;
pub mod tableau;
pub mod foundation;
pub mod waste;
pub mod stock;
pub mod game;
pub mod parser;
pub mod menu;
