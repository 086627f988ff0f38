//! Cards: an immutable rank/suit pair with a mutable visibility flag.

use vstd::prelude::*;

verus! {

/// The glyph drawn for any face-down card.
pub const CARD_BACK: char = '\u{1F0A0}';

#[derive(Debug, Clone, Copy, PartialEq, Eq, Structural)]
pub enum Rank {
    Ace,
    Two,
    Three,
    Four,
    Five,
    Six,
    Seven,
    Eight,
    Nine,
    Ten,
    Jack,
    Queen,
    King,
}

#[derive(Debug, Clone, Copy, PartialEq, Eq, Structural)]
pub enum Suit {
    Clubs,
    Diamonds,
    Hearts,
    Spades,
}

/// The numeric value of a rank, from 1 (Ace) up to 13 (King).
pub open spec fn rank_num(r: Rank) -> int {
    match r {
        Rank::Ace => 1,
        Rank::Two => 2,
        Rank::Three => 3,
        Rank::Four => 4,
        Rank::Five => 5,
        Rank::Six => 6,
        Rank::Seven => 7,
        Rank::Eight => 8,
        Rank::Nine => 9,
        Rank::Ten => 10,
        Rank::Jack => 11,
        Rank::Queen => 12,
        Rank::King => 13,
    }
}

/// Diamonds and Hearts are red; Clubs and Spades are black.
pub open spec fn is_red(s: Suit) -> bool {
    s == Suit::Diamonds || s == Suit::Hearts
}

#[derive(Debug, Clone)]
pub struct Card {
    pub rank: Rank,
    pub suit: Suit,
    pub open: bool,
    pub unicode: char,
}

impl Card {
    /// A new card is always created face-down.
    pub fn new(rank: Rank, suit: Suit, unicode: char) -> (c: Card)
        ensures
            c == (Card { rank, suit, open: false, unicode }),
    {
        Card { rank, suit, open: false, unicode }
    }

    /// Turn the card face-up.
    pub fn open(&mut self)
        ensures
            *final(self) == (Card { open: true, ..*old(self) }),
    {
        self.open = true;
    }

    /// Turn the card face-down.
    pub fn close(&mut self)
        ensures
            *final(self) == (Card { open: false, ..*old(self) }),
    {
        self.open = false;
    }

    /// The rank's numeric value: Ace is 1, King is 13.
    pub fn get_numbered_rank(&self) -> (n: usize)
        ensures
            n == rank_num(self.rank),
    {
        match self.rank {
            Rank::Ace => 1,
            Rank::Two => 2,
            Rank::Three => 3,
            Rank::Four => 4,
            Rank::Five => 5,
            Rank::Six => 6,
            Rank::Seven => 7,
            Rank::Eight => 8,
            Rank::Nine => 9,
            Rank::Ten => 10,
            Rank::Jack => 11,
            Rank::Queen => 12,
            Rank::King => 13,
        }
    }

    pub fn get_rank(&self) -> (r: Rank)
        ensures
            r == self.rank,
    {
        self.rank
    }

    pub fn get_suit(&self) -> (s: Suit)
        ensures
            s == self.suit,
    {
        self.suit
    }

    pub fn is_open(&self) -> (b: bool)
        ensures
            b == self.open,
    {
        self.open
    }
}

} // verus!
