//! Foundation: one of four suit-bound ascending piles, Ace up to King.

use vstd::prelude::*;
use crate::card::{Card, Rank, Suit, rank_num};
use crate::pile::foundation_wf;

verus! {

/// A Foundation bound to `suit` accepts `c` when `c` is face-up, of the
/// bound suit, and continues the pile upward: the next rank after the
/// current top, or an Ace on an empty pile.
pub open spec fn spec_foundation_can_push(s: Seq<Card>, suit: Suit, c: Card) -> bool {
    &&& c.open
    &&& c.suit == suit
    &&& if s.len() > 0 {
        rank_num(s.last().rank) + 1 == rank_num(c.rank)
    } else {
        c.rank == Rank::Ace
    }
}

pub struct Foundation {
    stack: Vec<Card>,
    suit: Suit,
}

impl View for Foundation {
    type V = Seq<Card>;

    closed spec fn view(&self) -> Seq<Card> {
        self.stack@
    }
}

impl Foundation {
    /// The suit this Foundation was bound to at construction.
    pub closed spec fn suit(self) -> Suit {
        self.suit
    }

    pub fn new(suit: Suit) -> (f: Foundation)
        ensures
            f@ == Seq::<Card>::empty(),
            f.suit() == suit,
    {
        Foundation { suit, stack: Vec::new() }
    }

    pub fn can_push(&self, card: &Card) -> (r: bool)
        ensures
            r == spec_foundation_can_push(self@, self.suit(), *card),
    {
        if !card.is_open() {
            return false;
        }
        if card.get_suit() != self.suit {
            return false;
        }
        if self.stack.len() > 0 {
            let last = &self.stack[self.stack.len() - 1];
            last.get_numbered_rank() + 1 == card.get_numbered_rank()
        } else {
            card.get_rank() == Rank::Ace
        }
    }

    /// Append `card` when it is acceptable; otherwise return it to the
    /// caller and leave the pile untouched.
    pub fn push(&mut self, card: Card) -> (rejected: Option<Card>)
        ensures
            spec_foundation_can_push(old(self)@, old(self).suit(), card) ==> rejected is None
                && final(self)@ == old(self)@.push(card),
            !spec_foundation_can_push(old(self)@, old(self).suit(), card) ==> rejected == Some(card)
                && final(self)@ == old(self)@,
            final(self).suit() == old(self).suit(),
    {
        if self.can_push(&card) {
            self.stack.push(card);
            None
        } else {
            Some(card)
        }
    }

    pub fn pop(&mut self) -> (r: Option<Card>)
        ensures
            old(self)@.len() == 0 ==> r is None && final(self)@ == old(self)@,
            old(self)@.len() > 0 ==> r == Some(old(self)@.last()) && final(self)@ == old(
                self,
            )@.drop_last(),
            final(self).suit() == old(self).suit(),
    {
        self.stack.pop()
    }

    pub fn len(&self) -> (n: usize)
        ensures
            n == self@.len(),
    {
        self.stack.len()
    }

    pub fn last(&self) -> (r: Option<&Card>)
        ensures
            (match r {
                Some(c) => self@.len() > 0 && *c == self@.last(),
                None => self@.len() == 0,
            }),
    {
        if self.stack.len() == 0 {
            None
        } else {
            Some(&self.stack[self.stack.len() - 1])
        }
    }

    pub fn get(&self, i: usize) -> (r: Option<&Card>)
        ensures
            (match r {
                Some(c) => i < self@.len() && *c == self@[i as int],
                None => i >= self@.len(),
            }),
    {
        if i < self.stack.len() {
            Some(&self.stack[i])
        } else {
            None
        }
    }
}

/// An accepted push keeps the Foundation an exact Ace..k prefix.
pub proof fn lemma_foundation_push_wf(s: Seq<Card>, suit: Suit, c: Card)
    requires
        foundation_wf(s, suit),
        spec_foundation_can_push(s, suit, c),
    ensures
        foundation_wf(s.push(c), suit),
{
    let s2 = s.push(c);
    assert forall|i: int| 0 <= i < s2.len() implies (#[trigger] s2[i]).suit == suit && rank_num(
        s2[i].rank,
    ) == i + 1 && s2[i].open by {
        if i < s.len() {
            assert(s2[i] == s[i]);
        } else {
            assert(s2[i] == c);
            if s.len() > 0 {
                assert(rank_num(s.last().rank) == s.len());
            }
        }
    }
}

/// Removing the top card keeps the Foundation an exact Ace..k prefix.
pub proof fn lemma_foundation_pop_wf(s: Seq<Card>, suit: Suit)
    requires
        foundation_wf(s, suit),
        s.len() > 0,
    ensures
        foundation_wf(s.drop_last(), suit),
{
}

} // verus!
