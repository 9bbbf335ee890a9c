//! Core rules engine for a single-table Blackjack round played against an
//! automated dealer: card and deck model, hand scoring with soft-ace
//! adjustment, player turn progression, dealer policy, and round outcome.

pub mod card;
pub mod deck;
pub mod game;
pub mod hand;
