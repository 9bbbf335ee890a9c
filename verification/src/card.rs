//! Card model: ranks, suits, and the blackjack point value of one card.

use vstd::prelude::*;

verus! {

/// The thirteen ranks of a standard deck.
#[derive(Debug, Copy, Clone, PartialEq, Eq, Structural)]
pub enum Rank {
    Two,
    Three,
    Four,
    Five,
    Six,
    Seven,
    Eight,
    Nine,
    Ten,
    Jack,
    Queen,
    King,
    Ace,
}

/// The four suits. Suits have no effect on scoring; they only identify cards.
#[derive(Debug, Copy, Clone, PartialEq, Eq, Structural)]
pub enum Suit {
    Spade,
    Heart,
    Diamond,
    Club,
}

/// One playing card. `hidden` marks the dealer's hole card, which is concealed
/// from the player-facing view; it has no effect on scoring.
#[derive(Debug, Copy, Clone, PartialEq, Eq, Structural)]
pub struct Card {
    pub rank: Rank,
    pub suit: Suit,
    pub hidden: bool,
}

/// Point value of a rank: face value for Two..Ten, 10 for court cards, and 11
/// for an Ace (the soft value; scoring may demote it to 1).
pub open spec fn card_points(rank: Rank) -> int {
    match rank {
        Rank::Two => 2,
        Rank::Three => 3,
        Rank::Four => 4,
        Rank::Five => 5,
        Rank::Six => 6,
        Rank::Seven => 7,
        Rank::Eight => 8,
        Rank::Nine => 9,
        Rank::Ten => 10,
        Rank::Jack => 10,
        Rank::Queen => 10,
        Rank::King => 10,
        Rank::Ace => 11,
    }
}

impl Card {
    /// The card's point value; a total function of the rank alone.
    pub fn score(&self) -> (r: u8)
        ensures
            r == card_points(self.rank),
    {
        match self.rank {
            Rank::Two => 2,
            Rank::Three => 3,
            Rank::Four => 4,
            Rank::Five => 5,
            Rank::Six => 6,
            Rank::Seven => 7,
            Rank::Eight => 8,
            Rank::Nine => 9,
            Rank::Ten | Rank::Jack | Rank::Queen | Rank::King => 10,
            Rank::Ace => 11,
        }
    }
}

} // verus!
