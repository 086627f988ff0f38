//! Tableau: one of the seven main play columns. Accepts descending,
//! alternating-color face-up runs; a King may start an empty column;
//! popping reveals the card underneath.

use vstd::prelude::*;
use crate::card::{Card, Rank, rank_num, is_red};
use crate::pile::{reveal_top, face_up, tableau_wf};

verus! {

/// A Tableau accepts `c` when `c` is face-up and either continues the
/// current top card downward in the opposite color, or is a King on an
/// empty column.
pub open spec fn spec_tableau_can_push(s: Seq<Card>, c: Card) -> bool {
    &&& c.open
    &&& if s.len() > 0 {
        rank_num(s.last().rank) - 1 == rank_num(c.rank) && is_red(s.last().suit) != is_red(c.suit)
    } else {
        c.rank == Rank::King
    }
}

pub struct Tableau {
    stack: Vec<Card>,
}

impl View for Tableau {
    type V = Seq<Card>;

    closed spec fn view(&self) -> Seq<Card> {
        self.stack@
    }
}

impl Tableau {
    pub fn new(stack: Vec<Card>) -> (t: Tableau)
        ensures
            t@ == stack@,
    {
        Tableau { stack }
    }

    pub fn can_push(&self, card: &Card) -> (r: bool)
        ensures
            r == spec_tableau_can_push(self@, *card),
    {
        if !card.is_open() {
            return false;
        }
        if self.stack.len() > 0 {
            let last = &self.stack[self.stack.len() - 1];
            if last.get_numbered_rank() - 1 != card.get_numbered_rank() {
                return false;
            }
            let last_red = last.get_suit() == crate::card::Suit::Diamonds || last.get_suit()
                == crate::card::Suit::Hearts;
            let card_red = card.get_suit() == crate::card::Suit::Diamonds || card.get_suit()
                == crate::card::Suit::Hearts;
            last_red != card_red
        } else {
            card.get_rank() == Rank::King
        }
    }

    /// Append `card` when it is acceptable; otherwise return it to the
    /// caller and leave the pile untouched.
    pub fn push(&mut self, card: Card) -> (rejected: Option<Card>)
        ensures
            spec_tableau_can_push(old(self)@, card) ==> rejected is None && final(self)@ == old(
                self,
            )@.push(card),
            !spec_tableau_can_push(old(self)@, card) ==> rejected == Some(card) && final(self)@
                == old(self)@,
    {
        if self.can_push(&card) {
            self.stack.push(card);
            None
        } else {
            Some(card)
        }
    }

    /// Remove and return the top card; the card uncovered by it, if any,
    /// is turned face-up.
    pub fn pop(&mut self) -> (r: Option<Card>)
        ensures
            old(self)@.len() == 0 ==> r is None && final(self)@ == old(self)@,
            old(self)@.len() > 0 ==> r == Some(old(self)@.last()) && final(self)@ == reveal_top(
                old(self)@.drop_last(),
            ),
    {
        match self.stack.pop() {
            Some(card) => {
                match self.stack.pop() {
                    Some(mut card_2) => {
                        card_2.open();
                        self.stack.push(card_2);
                    },
                    None => {},
                }
                proof {
                    assert(self@ =~= reveal_top(old(self)@.drop_last()));
                }
                Some(card)
            },
            None => None,
        }
    }

    pub fn len(&self) -> (n: usize)
        ensures
            n == self@.len(),
    {
        self.stack.len()
    }

    pub fn last(&self) -> (r: Option<&Card>)
        ensures
            (match r {
                Some(c) => self@.len() > 0 && *c == self@.last(),
                None => self@.len() == 0,
            }),
    {
        if self.stack.len() == 0 {
            None
        } else {
            Some(&self.stack[self.stack.len() - 1])
        }
    }

    pub fn get(&self, i: usize) -> (r: Option<&Card>)
        ensures
            (match r {
                Some(c) => i < self@.len() && *c == self@[i as int],
                None => i >= self@.len(),
            }),
    {
        if i < self.stack.len() {
            Some(&self.stack[i])
        } else {
            None
        }
    }
}

/// An accepted push extends a legal run, so well-formedness is kept.
pub proof fn lemma_tableau_push_wf(s: Seq<Card>, c: Card)
    requires
        tableau_wf(s),
        spec_tableau_can_push(s, c),
    ensures
        tableau_wf(s.push(c)),
{
    let s2 = s.push(c);
    assert forall|i: int, j: int|
        0 <= i < j < s2.len() && (#[trigger] s2[i]).open implies (#[trigger] s2[j]).open by {
        if j < s.len() {
            assert(s[i].open && s[j].open);
        }
    }
    assert forall|i: int, j: int|
        0 <= i && j == i + 1 && j < s2.len() && (#[trigger] s2[i]).open implies rank_num(
        (#[trigger] s2[j]).rank,
    ) == rank_num(s2[i].rank) - 1 && is_red(s2[j].suit) != is_red(s2[i].suit) by {
        if j < s.len() {
            assert(s[i].open && s2[i] == s[i] && s2[j] == s[j]);
        } else {
            assert(s2[i] == s.last() && s2[j] == c);
        }
    }
}

/// Popping the top card and revealing the one beneath keeps a Tableau
/// well-formed.
pub proof fn lemma_tableau_pop_wf(s: Seq<Card>)
    requires
        tableau_wf(s),
        s.len() > 0,
    ensures
        tableau_wf(reveal_top(s.drop_last())),
{
    let s2 = reveal_top(s.drop_last());
    assert(s2.len() == s.len() - 1);
    assert forall|i: int, j: int|
        0 <= i < j < s2.len() && (#[trigger] s2[i]).open implies (#[trigger] s2[j]).open by {
        if j < s2.len() - 1 {
            assert(s2[i] == s[i] && s2[j] == s[j]);
            assert(s[i].open && s[j].open);
        }
    }
    assert forall|i: int, j: int|
        0 <= i && j == i + 1 && j < s2.len() && (#[trigger] s2[i]).open implies rank_num(
        (#[trigger] s2[j]).rank,
    ) == rank_num(s2[i].rank) - 1 && is_red(s2[j].suit) != is_red(s2[i].suit) by {
        assert(s2[i] == s[i]);
        assert(s[i].open);
        if j < s2.len() - 1 {
            assert(s2[j] == s[j]);
        } else {
            assert(s2[j] == face_up(s[j]));
        }
        assert(rank_num(s[j].rank) == rank_num(s[i].rank) - 1 && is_red(s[j].suit) != is_red(
            s[i].suit,
        ));
    }
}

/// Removing any number of top cards and revealing the new top keeps a
/// Tableau well-formed.
pub proof fn lemma_tableau_take_wf(s: Seq<Card>, k: int)
    requires
        tableau_wf(s),
        0 <= k <= s.len(),
    ensures
        tableau_wf(reveal_top(s.take(k))),
{
    let s2 = reveal_top(s.take(k));
    if k > 0 {
        assert(s2.len() == k);
        assert forall|i: int, j: int|
            0 <= i < j < s2.len() && (#[trigger] s2[i]).open implies (#[trigger] s2[j]).open by {
            if j < k - 1 {
                assert(s2[i] == s[i] && s2[j] == s[j]);
                assert(s[i].open && s[j].open);
            }
        }
        assert forall|i: int, j: int|
            0 <= i && j == i + 1 && j < s2.len() && (#[trigger] s2[i]).open implies rank_num(
            (#[trigger] s2[j]).rank,
        ) == rank_num(s2[i].rank) - 1 && is_red(s2[j].suit) != is_red(s2[i].suit) by {
            assert(s2[i] == s[i]);
            assert(s[i].open);
            if j < k - 1 {
                assert(s2[j] == s[j]);
            } else {
                assert(s2[j] == face_up(s[j]));
            }
            assert(rank_num(s[j].rank) == rank_num(s[i].rank) - 1 && is_red(s[j].suit) != is_red(
                s[i].suit,
            ));
        }
    }
}

/// A face-up suffix of a well-formed Tableau is internally a strictly
/// descending run: each card's rank drops by one per step.
pub proof fn lemma_tableau_run(s: Seq<Card>, start: int, i: int)
    requires
        tableau_wf(s),
        0 <= start < s.len(),
        s[start].open,
        start <= i < s.len(),
    ensures
        s[i].open,
        rank_num(s[i].rank) == rank_num(s[start].rank) - (i - start),
    decreases i - start,
{
    if i > start {
        lemma_tableau_run(s, start, i - 1);
        assert(s[i - 1].open);
        assert(rank_num(s[i].rank) == rank_num(s[i - 1].rank) - 1);
    }
}

} // verus!
