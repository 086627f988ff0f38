//! Deck: the fixed 52-card deterministic sequence that seeds a game.
//! Cards come in four suit blocks of thirteen ascending ranks; the
//! whole deck is drained exactly once at setup.

use vstd::prelude::*;
use crate::card::rank_num;
use crate::pile::{pile_ms, pile_pairs, deck_complete};

pub use crate::card::Card;
pub use crate::card::Rank;
pub use crate::card::Suit;

verus! {

/// The rank whose numeric value is `n`, for `n` in 1..13.
pub open spec fn rank_of_num(n: int) -> Rank {
    if n == 1 {
        Rank::Ace
    } else if n == 2 {
        Rank::Two
    } else if n == 3 {
        Rank::Three
    } else if n == 4 {
        Rank::Four
    } else if n == 5 {
        Rank::Five
    } else if n == 6 {
        Rank::Six
    } else if n == 7 {
        Rank::Seven
    } else if n == 8 {
        Rank::Eight
    } else if n == 9 {
        Rank::Nine
    } else if n == 10 {
        Rank::Ten
    } else if n == 11 {
        Rank::Jack
    } else if n == 12 {
        Rank::Queen
    } else {
        Rank::King
    }
}

/// The suit of deck position `i`: thirteen Clubs, then Diamonds, then
/// Hearts, then Spades.
pub open spec fn deck_suit(i: int) -> Suit {
    if i < 13 {
        Suit::Clubs
    } else if i < 26 {
        Suit::Diamonds
    } else if i < 39 {
        Suit::Hearts
    } else {
        Suit::Spades
    }
}

/// The rank of deck position `i`: Ace up to King within each suit block.
pub open spec fn deck_rank(i: int) -> Rank {
    if i < 13 {
        rank_of_num(i + 1)
    } else if i < 26 {
        rank_of_num(i - 12)
    } else if i < 39 {
        rank_of_num(i - 25)
    } else {
        rank_of_num(i - 38)
    }
}

pub open spec fn deck_pair(i: int) -> (Rank, Suit) {
    (deck_rank(i), deck_suit(i))
}

/// The card at deck position `i`, face-down as freshly constructed.
pub open spec fn deck_card(i: int) -> Card {
    Card {
        rank: deck_rank(i),
        suit: deck_suit(i),
        open: false,
        unicode: glyph_of(deck_rank(i), deck_suit(i)),
    }
}

/// The (rank, suit) identities of the whole deck, in deck order.
pub open spec fn deck_pairs() -> Seq<(Rank, Suit)> {
    Seq::new(52, |i: int| deck_pair(i))
}

/// The Unicode playing-card glyph for a rank and suit.
pub open spec fn glyph_of(r: Rank, s: Suit) -> char {
    match s {
        Suit::Clubs => match r {
            Rank::Ace => '\u{1F0D1}',
            Rank::Two => '\u{1F0D2}',
            Rank::Three => '\u{1F0D3}',
            Rank::Four => '\u{1F0D4}',
            Rank::Five => '\u{1F0D5}',
            Rank::Six => '\u{1F0D6}',
            Rank::Seven => '\u{1F0D7}',
            Rank::Eight => '\u{1F0D8}',
            Rank::Nine => '\u{1F0D9}',
            Rank::Ten => '\u{1F0DA}',
            Rank::Jack => '\u{1F0DB}',
            Rank::Queen => '\u{1F0DD}',
            Rank::King => '\u{1F0DE}',
        },
        Suit::Diamonds => match r {
            Rank::Ace => '\u{1F0C1}',
            Rank::Two => '\u{1F0C2}',
            Rank::Three => '\u{1F0C3}',
            Rank::Four => '\u{1F0C4}',
            Rank::Five => '\u{1F0C5}',
            Rank::Six => '\u{1F0C6}',
            Rank::Seven => '\u{1F0C7}',
            Rank::Eight => '\u{1F0C8}',
            Rank::Nine => '\u{1F0C9}',
            Rank::Ten => '\u{1F0CA}',
            Rank::Jack => '\u{1F0CB}',
            Rank::Queen => '\u{1F0CD}',
            Rank::King => '\u{1F0CE}',
        },
        Suit::Hearts => match r {
            Rank::Ace => '\u{1F0B1}',
            Rank::Two => '\u{1F0B2}',
            Rank::Three => '\u{1F0B3}',
            Rank::Four => '\u{1F0B4}',
            Rank::Five => '\u{1F0B5}',
            Rank::Six => '\u{1F0B6}',
            Rank::Seven => '\u{1F0B7}',
            Rank::Eight => '\u{1F0B8}',
            Rank::Nine => '\u{1F0B9}',
            Rank::Ten => '\u{1F0BA}',
            Rank::Jack => '\u{1F0BB}',
            Rank::Queen => '\u{1F0BD}',
            Rank::King => '\u{1F0BE}',
        },
        Suit::Spades => match r {
            Rank::Ace => '\u{1F0A1}',
            Rank::Two => '\u{1F0A2}',
            Rank::Three => '\u{1F0A3}',
            Rank::Four => '\u{1F0A4}',
            Rank::Five => '\u{1F0A5}',
            Rank::Six => '\u{1F0A6}',
            Rank::Seven => '\u{1F0A7}',
            Rank::Eight => '\u{1F0A8}',
            Rank::Nine => '\u{1F0A9}',
            Rank::Ten => '\u{1F0AA}',
            Rank::Jack => '\u{1F0AB}',
            Rank::Queen => '\u{1F0AD}',
            Rank::King => '\u{1F0AE}',
        },
    }
}

/// Draws the face glyph of `(r, s)`.
fn glyph(r: Rank, s: Suit) -> (c: char)
    ensures
        c == glyph_of(r, s),
{
    match s {
        Suit::Clubs => match r {
            Rank::Ace => '\u{1F0D1}',
            Rank::Two => '\u{1F0D2}',
            Rank::Three => '\u{1F0D3}',
            Rank::Four => '\u{1F0D4}',
            Rank::Five => '\u{1F0D5}',
            Rank::Six => '\u{1F0D6}',
            Rank::Seven => '\u{1F0D7}',
            Rank::Eight => '\u{1F0D8}',
            Rank::Nine => '\u{1F0D9}',
            Rank::Ten => '\u{1F0DA}',
            Rank::Jack => '\u{1F0DB}',
            Rank::Queen => '\u{1F0DD}',
            Rank::King => '\u{1F0DE}',
        },
        Suit::Diamonds => match r {
            Rank::Ace => '\u{1F0C1}',
            Rank::Two => '\u{1F0C2}',
            Rank::Three => '\u{1F0C3}',
            Rank::Four => '\u{1F0C4}',
            Rank::Five => '\u{1F0C5}',
            Rank::Six => '\u{1F0C6}',
            Rank::Seven => '\u{1F0C7}',
            Rank::Eight => '\u{1F0C8}',
            Rank::Nine => '\u{1F0C9}',
            Rank::Ten => '\u{1F0CA}',
            Rank::Jack => '\u{1F0CB}',
            Rank::Queen => '\u{1F0CD}',
            Rank::King => '\u{1F0CE}',
        },
        Suit::Hearts => match r {
            Rank::Ace => '\u{1F0B1}',
            Rank::Two => '\u{1F0B2}',
            Rank::Three => '\u{1F0B3}',
            Rank::Four => '\u{1F0B4}',
            Rank::Five => '\u{1F0B5}',
            Rank::Six => '\u{1F0B6}',
            Rank::Seven => '\u{1F0B7}',
            Rank::Eight => '\u{1F0B8}',
            Rank::Nine => '\u{1F0B9}',
            Rank::Ten => '\u{1F0BA}',
            Rank::Jack => '\u{1F0BB}',
            Rank::Queen => '\u{1F0BD}',
            Rank::King => '\u{1F0BE}',
        },
        Suit::Spades => match r {
            Rank::Ace => '\u{1F0A1}',
            Rank::Two => '\u{1F0A2}',
            Rank::Three => '\u{1F0A3}',
            Rank::Four => '\u{1F0A4}',
            Rank::Five => '\u{1F0A5}',
            Rank::Six => '\u{1F0A6}',
            Rank::Seven => '\u{1F0A7}',
            Rank::Eight => '\u{1F0A8}',
            Rank::Nine => '\u{1F0A9}',
            Rank::Ten => '\u{1F0AA}',
            Rank::Jack => '\u{1F0AB}',
            Rank::Queen => '\u{1F0AD}',
            Rank::King => '\u{1F0AE}',
        },
    }
}

/// The rank at offset `n` within a suit block, counted from 1.
fn rank_at(n: usize) -> (r: Rank)
    requires
        1 <= n <= 13,
    ensures
        r == rank_of_num(n as int),
{
    if n == 1 {
        Rank::Ace
    } else if n == 2 {
        Rank::Two
    } else if n == 3 {
        Rank::Three
    } else if n == 4 {
        Rank::Four
    } else if n == 5 {
        Rank::Five
    } else if n == 6 {
        Rank::Six
    } else if n == 7 {
        Rank::Seven
    } else if n == 8 {
        Rank::Eight
    } else if n == 9 {
        Rank::Nine
    } else if n == 10 {
        Rank::Ten
    } else if n == 11 {
        Rank::Jack
    } else if n == 12 {
        Rank::Queen
    } else {
        Rank::King
    }
}

/// The rank and suit at deck position `i`.
fn deck_entry(i: usize) -> (rs: (Rank, Suit))
    requires
        i < 52,
    ensures
        rs.0 == deck_rank(i as int),
        rs.1 == deck_suit(i as int),
{
    if i < 13 {
        (rank_at(i + 1), Suit::Clubs)
    } else if i < 26 {
        (rank_at(i - 12), Suit::Diamonds)
    } else if i < 39 {
        (rank_at(i - 25), Suit::Hearts)
    } else {
        (rank_at(i - 38), Suit::Spades)
    }
}

pub struct Deck {
    pub cards: Vec<Card>,
}

impl Deck {
    /// The fixed deterministic deck: all 52 cards, face-down, in suit
    /// blocks of ascending ranks.
    pub fn new() -> (d: Deck)
        ensures
            d.cards@.len() == 52,
            forall|i: int| 0 <= i < 52 ==> #[trigger] d.cards@[i] == deck_card(i),
    {
        let mut cards: Vec<Card> = Vec::new();
        let mut i: usize = 0;
        while i < 52
            invariant
                i <= 52,
                cards@.len() == i,
                forall|j: int| 0 <= j < i ==> #[trigger] cards@[j] == deck_card(j),
            decreases 52 - i,
        {
            let (rank, suit) = deck_entry(i);
            let u = glyph(rank, suit);
            cards.push(Card::new(rank, suit, u));
            i = i + 1;
        }
        Deck { cards }
    }

    /// Remove and return the deck's last card, turned face-up when
    /// `open` asks for it. Must not be called on an empty deck.
    pub fn deal(&mut self, open: bool) -> (c: Card)
        requires
            old(self).cards@.len() > 0,
        ensures
            final(self).cards@ == old(self).cards@.drop_last(),
            c == (Card {
                open: old(self).cards@.last().open || open,
                ..old(self).cards@.last()
            }),
    {
        let mut card = self.cards.pop().unwrap();
        if open {
            card.open();
        }
        card
    }
}

/// The deck holds each of the 52 (rank, suit) pairs exactly once.
pub proof fn lemma_deck_pairs_complete()
    ensures
        deck_complete(deck_pairs().to_multiset()),
{
    broadcast use vstd::seq_lib::group_to_multiset_ensures;

    let dp = deck_pairs();
    assert forall|i: int, j: int| 0 <= i < j < 52 implies dp[i] != dp[j] by {
        assert(rank_num(rank_of_num(rank_num(dp[i].0))) == rank_num(dp[i].0));
    }
    assert(dp.no_duplicates());
    dp.lemma_multiset_has_no_duplicates();
    assert forall|p: (Rank, Suit)| #[trigger] dp.to_multiset().count(p) == 1 by {
        let base: int = match p.1 {
            Suit::Clubs => 0,
            Suit::Diamonds => 13,
            Suit::Hearts => 26,
            Suit::Spades => 39,
        };
        let idx = base + rank_num(p.0) - 1;
        assert(rank_of_num(rank_num(p.0)) == p.0);
        assert(dp[idx] == p);
        assert(dp.contains(p));
    }
}

/// A pile that holds the full deck card-for-card is a complete deck.
pub proof fn lemma_full_deck_ms(s: Seq<Card>)
    requires
        s.len() == 52,
        forall|i: int| 0 <= i < 52 ==> #[trigger] s[i] == deck_card(i),
    ensures
        deck_complete(pile_ms(s)),
{
    assert(pile_pairs(s) =~= deck_pairs());
    lemma_deck_pairs_complete();
}

} // verus!
