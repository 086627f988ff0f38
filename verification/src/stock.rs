//! Stock: the face-down draw pile, recycled from the Waste when empty.

use vstd::prelude::*;
use crate::card::Card;

verus! {

/// The Stock accepts any card that is face-down, symmetric to the Waste.
pub open spec fn spec_stock_can_push(c: Card) -> bool {
    !c.open
}

pub struct Stock {
    stack: Vec<Card>,
}

impl View for Stock {
    type V = Seq<Card>;

    closed spec fn view(&self) -> Seq<Card> {
        self.stack@
    }
}

impl Stock {
    pub fn new(stack: Vec<Card>) -> (s: Stock)
        ensures
            s@ == stack@,
    {
        Stock { stack }
    }

    pub fn can_push(&self, card: &Card) -> (r: bool)
        ensures
            r == spec_stock_can_push(*card),
    {
        !card.is_open()
    }

    /// Append `card` when it is face-down; otherwise return it to the
    /// caller and leave the pile untouched.
    pub fn push(&mut self, card: Card) -> (rejected: Option<Card>)
        ensures
            spec_stock_can_push(card) ==> rejected is None && final(self)@ == old(self)@.push(card),
            !spec_stock_can_push(card) ==> rejected == Some(card) && final(self)@ == old(self)@,
    {
        if self.can_push(&card) {
            self.stack.push(card);
            None
        } else {
            Some(card)
        }
    }

    pub fn pop(&mut self) -> (r: Option<Card>)
        ensures
            old(self)@.len() == 0 ==> r is None && final(self)@ == old(self)@,
            old(self)@.len() > 0 ==> r == Some(old(self)@.last()) && final(self)@ == old(
                self,
            )@.drop_last(),
    {
        self.stack.pop()
    }

    pub fn len(&self) -> (n: usize)
        ensures
            n == self@.len(),
    {
        self.stack.len()
    }

    pub fn last(&self) -> (r: Option<&Card>)
        ensures
            (match r {
                Some(c) => self@.len() > 0 && *c == self@.last(),
                None => self@.len() == 0,
            }),
    {
        if self.stack.len() == 0 {
            None
        } else {
            Some(&self.stack[self.stack.len() - 1])
        }
    }

    pub fn get(&self, i: usize) -> (r: Option<&Card>)
        ensures
            (match r {
                Some(c) => i < self@.len() && *c == self@[i as int],
                None => i >= self@.len(),
            }),
    {
        if i < self.stack.len() {
            Some(&self.stack[i])
        } else {
            None
        }
    }
}

} // verus!
