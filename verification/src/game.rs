//! Game: owns the nine piles and the deal size, routes each move
//! request to the piles involved, and keeps the global invariants: the
//! 52 cards are partitioned exactly once across the piles, tableaus
//! carry legal face-up runs, foundations are exact Ace..k prefixes,
//! stock cards are face-down and waste cards face-up.

use vstd::prelude::*;
use vstd::multiset::Multiset;
use crate::card::{Card, Rank, Suit, rank_num};
use crate::deck::{Deck, deck_card};
use crate::pile::{
    all_down, all_up, close_all, deck_complete, face_up, foundation_wf, open_all, pair_of,
    pile_ms, reveal_top, tableau_wf,
};
use crate::tableau::{
    Tableau, lemma_tableau_pop_wf, lemma_tableau_push_wf, lemma_tableau_run,
    spec_tableau_can_push,
};
use crate::foundation::{
    Foundation, lemma_foundation_pop_wf, lemma_foundation_push_wf, spec_foundation_can_push,
};
use crate::waste::{Waste, spec_waste_can_push};
use crate::stock::{Stock, spec_stock_can_push};

verus! {

broadcast use vstd::multiset::group_multiset_axioms;

/// How many cards a deal moves from Stock to Waste: one or three,
/// fixed for the session.
#[derive(Debug, Clone, Copy, PartialEq, Eq, Structural)]
pub enum DealSize {
    One,
    Three,
}

pub open spec fn spec_deal_size(d: DealSize) -> int {
    match d {
        DealSize::One => 1,
        DealSize::Three => 3,
    }
}

/// Tableaus are addressed 1 through 7.
pub open spec fn valid_tab(n: int) -> bool {
    1 <= n <= 7
}

pub struct Game {
    tableau_1: Tableau,
    tableau_2: Tableau,
    tableau_3: Tableau,
    tableau_4: Tableau,
    tableau_5: Tableau,
    tableau_6: Tableau,
    tableau_7: Tableau,
    clubs_foundation: Foundation,
    diamonds_foundation: Foundation,
    hearts_foundation: Foundation,
    spades_foundation: Foundation,
    waste: Waste,
    stock: Stock,
    deal_size: DealSize,
}

impl Game {
    /// The cards of tableau `n`, bottom first; the empty sequence for
    /// an address outside 1..7.
    pub closed spec fn tab(self, n: int) -> Seq<Card> {
        if n == 1 {
            self.tableau_1@
        } else if n == 2 {
            self.tableau_2@
        } else if n == 3 {
            self.tableau_3@
        } else if n == 4 {
            self.tableau_4@
        } else if n == 5 {
            self.tableau_5@
        } else if n == 6 {
            self.tableau_6@
        } else if n == 7 {
            self.tableau_7@
        } else {
            Seq::empty()
        }
    }

    /// The cards of the foundation bound to `s`, bottom first.
    pub closed spec fn foundation(self, s: Suit) -> Seq<Card> {
        match s {
            Suit::Clubs => self.clubs_foundation@,
            Suit::Diamonds => self.diamonds_foundation@,
            Suit::Hearts => self.hearts_foundation@,
            Suit::Spades => self.spades_foundation@,
        }
    }

    pub closed spec fn waste_cards(self) -> Seq<Card> {
        self.waste@
    }

    pub closed spec fn stock_cards(self) -> Seq<Card> {
        self.stock@
    }

    pub closed spec fn deal_count(self) -> int {
        spec_deal_size(self.deal_size)
    }

    /// Each foundation is bound to its own suit.
    pub closed spec fn foundations_bound(self) -> bool {
        &&& self.clubs_foundation.suit() == Suit::Clubs
        &&& self.diamonds_foundation.suit() == Suit::Diamonds
        &&& self.hearts_foundation.suit() == Suit::Hearts
        &&& self.spades_foundation.suit() == Suit::Spades
    }

    /// The multiset of (rank, suit) pairs across all nine piles.
    pub open spec fn all_cards(self) -> Multiset<(Rank, Suit)> {
        pile_ms(self.tab(1)).add(pile_ms(self.tab(2))).add(pile_ms(self.tab(3))).add(
            pile_ms(self.tab(4)),
        ).add(pile_ms(self.tab(5))).add(pile_ms(self.tab(6))).add(pile_ms(self.tab(7))).add(
            pile_ms(self.foundation(Suit::Clubs)),
        ).add(pile_ms(self.foundation(Suit::Diamonds))).add(
            pile_ms(self.foundation(Suit::Hearts)),
        ).add(pile_ms(self.foundation(Suit::Spades))).add(pile_ms(self.waste_cards())).add(
            pile_ms(self.stock_cards()),
        )
    }

    /// The global game invariant, preserved by every operation: every
    /// tableau and foundation is well-formed, waste cards are face-up,
    /// stock cards face-down, each foundation answers for its own suit,
    /// and the 52 distinct cards are partitioned exactly once across
    /// the nine piles.
    pub open spec fn wf(self) -> bool {
        &&& forall|n: int| valid_tab(n) ==> tableau_wf(#[trigger] self.tab(n))
        &&& forall|s: Suit| foundation_wf(#[trigger] self.foundation(s), s)
        &&& all_up(self.waste_cards())
        &&& all_down(self.stock_cards())
        &&& self.foundations_bound()
        &&& deck_complete(self.all_cards())
    }
}

/// All tableaus except possibly `n` agree between the two states.
pub open spec fn tabs_eq_except(a: Game, b: Game, n: int) -> bool {
    forall|m: int| valid_tab(m) && m != n ==> #[trigger] a.tab(m) == b.tab(m)
}

pub open spec fn tabs_eq(a: Game, b: Game) -> bool {
    forall|m: int| valid_tab(m) ==> #[trigger] a.tab(m) == b.tab(m)
}

/// All foundations except possibly the one bound to `s` agree.
pub open spec fn foundations_eq_except(a: Game, b: Game, s: Suit) -> bool {
    forall|x: Suit| x != s ==> #[trigger] a.foundation(x) == b.foundation(x)
}

pub open spec fn foundations_eq(a: Game, b: Game) -> bool {
    forall|x: Suit| #[trigger] a.foundation(x) == b.foundation(x)
}

/// Every pile, and the deal size, is identical in the two states: the
/// outcome every failed move must leave behind.
pub open spec fn same_piles(a: Game, b: Game) -> bool {
    &&& tabs_eq(a, b)
    &&& foundations_eq(a, b)
    &&& a.waste_cards() == b.waste_cards()
    &&& a.stock_cards() == b.stock_cards()
    &&& a.deal_count() == b.deal_count()
}

/// Only tableau `n` may differ between `pre` and `post`.
pub open spec fn only_tableau_changed(pre: Game, post: Game, n: int) -> bool {
    &&& tabs_eq_except(post, pre, n)
    &&& foundations_eq(post, pre)
    &&& post.waste_cards() == pre.waste_cards()
    &&& post.stock_cards() == pre.stock_cards()
    &&& post.deal_count() == pre.deal_count()
    &&& pre.foundations_bound() ==> post.foundations_bound()
}

/// Only the foundation bound to `s` may differ between `pre` and `post`.
pub open spec fn only_foundation_changed(pre: Game, post: Game, s: Suit) -> bool {
    &&& tabs_eq(post, pre)
    &&& foundations_eq_except(post, pre, s)
    &&& post.waste_cards() == pre.waste_cards()
    &&& post.stock_cards() == pre.stock_cards()
    &&& post.deal_count() == pre.deal_count()
    &&& pre.foundations_bound() ==> post.foundations_bound()
}

/// Only the waste may differ between `pre` and `post`.
pub open spec fn only_waste_changed(pre: Game, post: Game) -> bool {
    &&& tabs_eq(post, pre)
    &&& foundations_eq(post, pre)
    &&& post.stock_cards() == pre.stock_cards()
    &&& post.deal_count() == pre.deal_count()
    &&& pre.foundations_bound() ==> post.foundations_bound()
}

/// Only the stock may differ between `pre` and `post`.
pub open spec fn only_stock_changed(pre: Game, post: Game) -> bool {
    &&& tabs_eq(post, pre)
    &&& foundations_eq(post, pre)
    &&& post.waste_cards() == pre.waste_cards()
    &&& post.deal_count() == pre.deal_count()
    &&& pre.foundations_bound() ==> post.foundations_bound()
}

/// Only waste and stock may differ between `pre` and `post`.
pub open spec fn only_waste_stock_changed(pre: Game, post: Game) -> bool {
    &&& tabs_eq(post, pre)
    &&& foundations_eq(post, pre)
    &&& post.deal_count() == pre.deal_count()
    &&& pre.foundations_bound() ==> post.foundations_bound()
}

/// The first deck position dealt to tableau `n` lies this far from the
/// deck's top: tableau 1 is dealt first, each later tableau one card
/// more.
pub open spec fn tab_offset(n: int) -> int {
    if n == 1 {
        0
    } else if n == 2 {
        1
    } else if n == 3 {
        3
    } else if n == 4 {
        6
    } else if n == 5 {
        10
    } else if n == 6 {
        15
    } else {
        21
    }
}

/// The initial layout of tableau `n`: `n` cards dealt from the deck's
/// top, all face-down but the last.
pub open spec fn initial_tableau(n: int) -> Seq<Card> {
    Seq::new(n as nat, |idx: int| Card { open: idx == n - 1, ..deck_card(51 - tab_offset(n) - idx) })
}

/// The initial stock: the 24 cards the tableaus did not take, in deck
/// order, face-down.
pub open spec fn initial_stock() -> Seq<Card> {
    Seq::new(24, |i: int| deck_card(i))
}

/// Deals the next `n` cards off the top of `deck`, face-down but the
/// last, in the order dealt.
fn deal_pile(deck: &mut Deck, n: usize) -> (v: Vec<Card>)
    requires
        1 <= n <= old(deck).cards@.len(),
        all_down(old(deck).cards@),
    ensures
        final(deck).cards@ == old(deck).cards@.take(old(deck).cards@.len() - n),
        all_down(final(deck).cards@),
        v@.len() == n,
        forall|idx: int|
            0 <= idx < n ==> #[trigger] v@[idx] == (Card {
                open: idx == n - 1,
                ..old(deck).cards@[old(deck).cards@.len() - 1 - idx]
            }),
{
    let ghost cards0 = deck.cards@;
    let mut v: Vec<Card> = Vec::new();
    let mut i: usize = 0;
    while i < n
        invariant
            i <= n,
            n <= cards0.len(),
            all_down(cards0),
            v@.len() == i,
            deck.cards@ == cards0.take(cards0.len() - i),
            forall|idx: int|
                0 <= idx < i ==> #[trigger] v@[idx] == (Card {
                    open: idx == n - 1,
                    ..cards0[cards0.len() - 1 - idx]
                }),
        decreases n - i,
    {
        let c = deck.deal(i + 1 == n);
        proof {
            assert(deck.cards@ =~= cards0.take(cards0.len() - (i + 1)));
            assert(cards0.take(cards0.len() - i).last() == cards0[cards0.len() - 1 - i]);
            assert(!cards0[cards0.len() - 1 - i].open);
        }
        v.push(c);
        i = i + 1;
    }
    proof {
        assert(all_down(deck.cards@));
    }
    v
}

impl Game {
    /// A fresh session: the deterministic deck dealt into seven
    /// tableaus of growing depth, each topped by one face-up card, the
    /// rest face-down in the stock, foundations and waste empty.
    pub fn new(deal_size: DealSize) -> (g: Game)
        ensures
            g.wf(),
            forall|n: int| valid_tab(n) ==> #[trigger] g.tab(n) == initial_tableau(n),
            forall|s: Suit| #[trigger] g.foundation(s) == Seq::<Card>::empty(),
            g.waste_cards() == Seq::<Card>::empty(),
            g.stock_cards() == initial_stock(),
            g.deal_count() == spec_deal_size(deal_size),
    {
        let mut deck = Deck::new();
        let ghost full0 = deck.cards@;
        let t1 = Tableau::new(deal_pile(&mut deck, 1));
        proof {
            assert(deck.cards@ =~= full0.take(51));
            assert(t1@ =~= initial_tableau(1));
        }
        let t2 = Tableau::new(deal_pile(&mut deck, 2));
        proof {
            assert(deck.cards@ =~= full0.take(49));
            assert(t2@ =~= initial_tableau(2));
        }
        let t3 = Tableau::new(deal_pile(&mut deck, 3));
        proof {
            assert(deck.cards@ =~= full0.take(46));
            assert(t3@ =~= initial_tableau(3));
        }
        let t4 = Tableau::new(deal_pile(&mut deck, 4));
        proof {
            assert(deck.cards@ =~= full0.take(42));
            assert(t4@ =~= initial_tableau(4));
        }
        let t5 = Tableau::new(deal_pile(&mut deck, 5));
        proof {
            assert(deck.cards@ =~= full0.take(37));
            assert(t5@ =~= initial_tableau(5));
        }
        let t6 = Tableau::new(deal_pile(&mut deck, 6));
        proof {
            assert(deck.cards@ =~= full0.take(31));
            assert(t6@ =~= initial_tableau(6));
        }
        let t7 = Tableau::new(deal_pile(&mut deck, 7));
        proof {
            assert(deck.cards@ =~= full0.take(24));
            assert(t7@ =~= initial_tableau(7));
            assert(deck.cards@ =~= initial_stock());
        }
        let g = Game {
            tableau_1: t1,
            tableau_2: t2,
            tableau_3: t3,
            tableau_4: t4,
            tableau_5: t5,
            tableau_6: t6,
            tableau_7: t7,
            clubs_foundation: Foundation::new(Suit::Clubs),
            diamonds_foundation: Foundation::new(Suit::Diamonds),
            hearts_foundation: Foundation::new(Suit::Hearts),
            spades_foundation: Foundation::new(Suit::Spades),
            waste: Waste::new(),
            stock: Stock::new(deck.cards),
            deal_size,
        };
        proof {
            assert forall|n: int| valid_tab(n) implies #[trigger] g.tab(n) == initial_tableau(
                n,
            ) by {
                if n == 1 {
                    assert(g.tab(1) == t1@);
                }
            }
            lemma_initial_layout(g);
        }
        g
    }
}

impl Game {
    // pop methods

    fn pop_from_tableau(&mut self, tableau_number: usize) -> (r: Option<Card>)
        ensures
            only_tableau_changed(*old(self), *final(self), tableau_number as int),
            !valid_tab(tableau_number as int) ==> r is None && tabs_eq(*final(self), *old(self)),
            valid_tab(tableau_number as int) && old(self).tab(tableau_number as int).len() == 0
                ==> r is None && final(self).tab(tableau_number as int) == old(self).tab(
                tableau_number as int,
            ),
            valid_tab(tableau_number as int) && old(self).tab(tableau_number as int).len() > 0
                ==> r == Some(old(self).tab(tableau_number as int).last()) && final(self).tab(
                tableau_number as int,
            ) == reveal_top(old(self).tab(tableau_number as int).drop_last()),
    {
        match tableau_number {
            1 => self.tableau_1.pop(),
            2 => self.tableau_2.pop(),
            3 => self.tableau_3.pop(),
            4 => self.tableau_4.pop(),
            5 => self.tableau_5.pop(),
            6 => self.tableau_6.pop(),
            7 => self.tableau_7.pop(),
            _ => None,
        }
    }

    fn pop_from_foundation(&mut self, foundation_suit: Suit) -> (r: Option<Card>)
        ensures
            only_foundation_changed(*old(self), *final(self), foundation_suit),
            old(self).foundation(foundation_suit).len() == 0 ==> r is None && final(self).foundation(foundation_suit) == old(self).foundation(foundation_suit),
            old(self).foundation(foundation_suit).len() > 0 ==> r == Some(
                old(self).foundation(foundation_suit).last(),
            ) && final(self).foundation(foundation_suit) == old(self).foundation(
                foundation_suit,
            ).drop_last(),
    {
        match foundation_suit {
            Suit::Clubs => self.clubs_foundation.pop(),
            Suit::Diamonds => self.diamonds_foundation.pop(),
            Suit::Hearts => self.hearts_foundation.pop(),
            Suit::Spades => self.spades_foundation.pop(),
        }
    }

    fn pop_from_waste(&mut self) -> (r: Option<Card>)
        ensures
            only_waste_changed(*old(self), *final(self)),
            old(self).waste_cards().len() == 0 ==> r is None && final(self).waste_cards() == old(self).waste_cards(),
            old(self).waste_cards().len() > 0 ==> r == Some(old(self).waste_cards().last())
                && final(self).waste_cards() == old(self).waste_cards().drop_last(),
    {
        self.waste.pop()
    }

    /// Pops the stock's top card and turns it face-up on the way out.
    fn pop_from_stock(&mut self) -> (r: Option<Card>)
        ensures
            only_stock_changed(*old(self), *final(self)),
            old(self).stock_cards().len() == 0 ==> r is None && final(self).stock_cards() == old(self).stock_cards(),
            old(self).stock_cards().len() > 0 ==> r == Some(face_up(old(self).stock_cards().last()))
                && final(self).stock_cards() == old(self).stock_cards().drop_last(),
    {
        match self.stock.pop() {
            Some(mut card) => {
                card.open();
                Some(card)
            },
            None => None,
        }
    }

    // get methods

    pub fn get_len_from_tableau(&self, tableau_number: usize) -> (r: Option<usize>)
        ensures
            (match r {
                Some(l) => valid_tab(tableau_number as int) && l == self.tab(
                    tableau_number as int,
                ).len(),
                None => !valid_tab(tableau_number as int),
            }),
    {
        match tableau_number {
            1 => Some(self.tableau_1.len()),
            2 => Some(self.tableau_2.len()),
            3 => Some(self.tableau_3.len()),
            4 => Some(self.tableau_4.len()),
            5 => Some(self.tableau_5.len()),
            6 => Some(self.tableau_6.len()),
            7 => Some(self.tableau_7.len()),
            _ => None,
        }
    }

    pub fn get_from_tableau(&self, tableau_number: usize, i: usize) -> (r: Option<&Card>)
        ensures
            (match r {
                Some(c) => valid_tab(tableau_number as int) && i < self.tab(
                    tableau_number as int,
                ).len() && *c == self.tab(tableau_number as int)[i as int],
                None => !valid_tab(tableau_number as int) || i >= self.tab(
                    tableau_number as int,
                ).len(),
            }),
    {
        match tableau_number {
            1 => self.tableau_1.get(i),
            2 => self.tableau_2.get(i),
            3 => self.tableau_3.get(i),
            4 => self.tableau_4.get(i),
            5 => self.tableau_5.get(i),
            6 => self.tableau_6.get(i),
            7 => self.tableau_7.get(i),
            _ => None,
        }
    }

    pub fn get_deal_size(&self) -> (n: usize)
        ensures
            n == self.deal_count(),
    {
        match self.deal_size {
            DealSize::One => 1,
            DealSize::Three => 3,
        }
    }

    // move methods

    fn move_to_foundation(&mut self, foundation_suit: Suit, card: Card) -> (r: Option<Card>)
        requires
            old(self).foundations_bound(),
        ensures
            only_foundation_changed(*old(self), *final(self), foundation_suit),
            spec_foundation_can_push(old(self).foundation(foundation_suit), foundation_suit, card)
                ==> r is None && final(self).foundation(foundation_suit) == old(self).foundation(
                foundation_suit,
            ).push(card),
            !spec_foundation_can_push(old(self).foundation(foundation_suit), foundation_suit, card)
                ==> r == Some(card) && final(self).foundation(foundation_suit) == old(self).foundation(foundation_suit),
    {
        match foundation_suit {
            Suit::Clubs => self.clubs_foundation.push(card),
            Suit::Diamonds => self.diamonds_foundation.push(card),
            Suit::Hearts => self.hearts_foundation.push(card),
            Suit::Spades => self.spades_foundation.push(card),
        }
    }

    fn move_to_tableau(&mut self, tableau_number: usize, card: Card) -> (r: Option<Card>)
        ensures
            only_tableau_changed(*old(self), *final(self), tableau_number as int),
            !valid_tab(tableau_number as int) ==> r == Some(card) && tabs_eq(
                *final(self),
                *old(self),
            ),
            valid_tab(tableau_number as int) && spec_tableau_can_push(
                old(self).tab(tableau_number as int),
                card,
            ) ==> r is None && final(self).tab(tableau_number as int) == old(self).tab(
                tableau_number as int,
            ).push(card),
            valid_tab(tableau_number as int) && !spec_tableau_can_push(
                old(self).tab(tableau_number as int),
                card,
            ) ==> r == Some(card) && final(self).tab(tableau_number as int) == old(self).tab(
                tableau_number as int,
            ),
    {
        match tableau_number {
            1 => self.tableau_1.push(card),
            2 => self.tableau_2.push(card),
            3 => self.tableau_3.push(card),
            4 => self.tableau_4.push(card),
            5 => self.tableau_5.push(card),
            6 => self.tableau_6.push(card),
            7 => self.tableau_7.push(card),
            _ => Some(card),
        }
    }

    fn move_to_waste(&mut self, card: Card) -> (r: Option<Card>)
        ensures
            only_waste_changed(*old(self), *final(self)),
            spec_waste_can_push(card) ==> r is None && final(self).waste_cards() == old(self).waste_cards().push(card),
            !spec_waste_can_push(card) ==> r == Some(card) && final(self).waste_cards() == old(self).waste_cards(),
    {
        self.waste.push(card)
    }

    fn move_to_stock(&mut self, card: Card) -> (r: Option<Card>)
        ensures
            only_stock_changed(*old(self), *final(self)),
            spec_stock_can_push(card) ==> r is None && final(self).stock_cards() == old(self).stock_cards().push(card),
            !spec_stock_can_push(card) ==> r == Some(card) && final(self).stock_cards() == old(self).stock_cards(),
    {
        self.stock.push(card)
    }

    // helper methods

    fn can_push_to_tableau(&self, tableau_number: usize, card: &Card) -> (r: bool)
        ensures
            r == (valid_tab(tableau_number as int) && spec_tableau_can_push(
                self.tab(tableau_number as int),
                *card,
            )),
    {
        match tableau_number {
            1 => self.tableau_1.can_push(card),
            2 => self.tableau_2.can_push(card),
            3 => self.tableau_3.can_push(card),
            4 => self.tableau_4.can_push(card),
            5 => self.tableau_5.can_push(card),
            6 => self.tableau_6.can_push(card),
            7 => self.tableau_7.can_push(card),
            _ => false,
        }
    }

    fn can_push_to_foundation(&self, foundation_suit: Suit, card: &Card) -> (r: bool)
        requires
            self.foundations_bound(),
        ensures
            r == spec_foundation_can_push(self.foundation(foundation_suit), foundation_suit, *card),
    {
        match foundation_suit {
            Suit::Clubs => self.clubs_foundation.can_push(card),
            Suit::Diamonds => self.diamonds_foundation.can_push(card),
            Suit::Hearts => self.hearts_foundation.can_push(card),
            Suit::Spades => self.spades_foundation.can_push(card),
        }
    }
}

/// How many cards the next deal moves when the stock is not empty:
/// the deal size, or whatever the stock still holds.
pub open spec fn spec_deal_take(g: Game) -> int {
    vstd::math::min(g.deal_count(), g.stock_cards().len() as int)
}

impl Game {
    /// Recycling: drain the waste, closing each card and pushing it
    /// onto the stock, top of waste first, until the waste is empty.
    fn go_back(&mut self)
        requires
            old(self).wf(),
        ensures
            final(self).wf(),
            only_waste_stock_changed(*old(self), *final(self)),
            final(self).waste_cards().len() == 0,
            final(self).stock_cards() == old(self).stock_cards() + close_all(
                old(self).waste_cards().reverse(),
            ),
            final(self).all_cards() == old(self).all_cards(),
    {
        let ghost n0 = old(self).waste_cards().len() as int;
        while self.waste.len() > 0
            invariant
                old(self).wf(),
                only_waste_stock_changed(*old(self), *self),
                self.all_cards() == old(self).all_cards(),
                all_up(self.waste_cards()),
                all_down(self.stock_cards()),
                n0 == old(self).waste_cards().len(),
                self.waste_cards().len() <= n0,
                self.waste_cards() == old(self).waste_cards().take(
                    self.waste_cards().len() as int,
                ),
                self.stock_cards() == old(self).stock_cards() + close_all(
                    old(self).waste_cards().subrange(
                        self.waste_cards().len() as int,
                        n0,
                    ).reverse(),
                ),
            decreases self.waste_cards().len(),
        {
            let ghost k = self.waste_cards().len() as int;
            let ghost waste_pre = self.waste_cards();
            let ghost stock_pre = self.stock_cards();
            if let Some(mut card) = self.pop_from_waste() {
                proof {
                    assert(card == waste_pre.last());
                    assert(waste_pre.last() == old(self).waste_cards()[k - 1]);
                    assert(card.open);
                }
                card.close();
                let back = self.move_to_stock(card);
                proof {
                    assert(back is None);
                    assert(self.waste_cards() =~= old(self).waste_cards().take(k - 1));
                    assert(old(self).waste_cards().subrange(k - 1, n0).reverse() =~= old(self).waste_cards().subrange(k, n0).reverse().push(old(self).waste_cards()[k - 1]));
                    crate::pile::lemma_close_all_push(
                        old(self).waste_cards().subrange(k, n0).reverse(),
                        old(self).waste_cards()[k - 1],
                    );
                    assert(self.stock_cards() =~= old(self).stock_cards() + close_all(
                        old(self).waste_cards().subrange(k - 1, n0).reverse(),
                    ));
                    crate::pile::lemma_pile_ms_drop_last(waste_pre);
                    crate::pile::lemma_pile_ms_push(
                        stock_pre,
                        crate::pile::face_down(waste_pre.last()),
                    );
                    assert(self.all_cards() =~= old(self).all_cards());
                }
            }
        }
        proof {
            assert(old(self).waste_cards().subrange(0, n0) =~= old(self).waste_cards());
            lemma_wf_waste_stock(*old(self), *self);
        }
    }

    /// One deal action. With an empty stock, recycle the whole waste
    /// back into the stock, face-down. Otherwise move up to `deal
    /// size` cards from the stock's top to the waste, turning each
    /// face-up; when fewer remain, move only those.
    pub fn deal(&mut self)
        requires
            old(self).wf(),
        ensures
            final(self).wf(),
            only_waste_stock_changed(*old(self), *final(self)),
            old(self).stock_cards().len() == 0 ==> final(self).waste_cards().len() == 0 && final(self).stock_cards() == old(self).stock_cards() + close_all(
                old(self).waste_cards().reverse(),
            ),
            old(self).stock_cards().len() > 0 ==> final(self).stock_cards() == old(self).stock_cards().take(
                old(self).stock_cards().len() - spec_deal_take(*old(self)),
            ) && final(self).waste_cards() == old(self).waste_cards() + open_all(
                old(self).stock_cards().subrange(
                    old(self).stock_cards().len() - spec_deal_take(*old(self)),
                    old(self).stock_cards().len() as int,
                ).reverse(),
            ),
    {
        if self.stock.len() == 0 {
            self.go_back();
            return ;
        }
        let k = self.get_deal_size();
        let ghost len0 = old(self).stock_cards().len() as int;
        let mut dealt: usize = 0;
        while dealt < k
            invariant
                old(self).wf(),
                only_waste_stock_changed(*old(self), *self),
                self.all_cards() == old(self).all_cards(),
                all_up(self.waste_cards()),
                all_down(self.stock_cards()),
                k == old(self).deal_count(),
                len0 == old(self).stock_cards().len(),
                len0 > 0,
                dealt <= k,
                self.stock_cards() == old(self).stock_cards().take(
                    len0 - vstd::math::min(dealt as int, len0),
                ),
                self.waste_cards() == old(self).waste_cards() + open_all(
                    old(self).stock_cards().subrange(
                        len0 - vstd::math::min(dealt as int, len0),
                        len0,
                    ).reverse(),
                ),
            decreases k - dealt,
        {
            let ghost stock_pre = self.stock_cards();
            let ghost waste_pre = self.waste_cards();
            let ghost b = len0 - vstd::math::min(dealt as int, len0);
            match self.pop_from_stock() {
                Some(card) => {
                    proof {
                        assert(stock_pre.len() > 0);
                        assert(stock_pre.last() == old(self).stock_cards()[b - 1]);
                        assert(card == face_up(old(self).stock_cards()[b - 1]));
                    }
                    let back = self.move_to_waste(card);
                    proof {
                        assert(back is None);
                        assert(self.stock_cards() =~= old(self).stock_cards().take(b - 1));
                        assert(old(self).stock_cards().subrange(b - 1, len0).reverse() =~= old(self).stock_cards().subrange(b, len0).reverse().push(
                            old(self).stock_cards()[b - 1],
                        ));
                        crate::pile::lemma_open_all_push(
                            old(self).stock_cards().subrange(b, len0).reverse(),
                            old(self).stock_cards()[b - 1],
                        );
                        assert(self.waste_cards() =~= old(self).waste_cards() + open_all(
                            old(self).stock_cards().subrange(b - 1, len0).reverse(),
                        ));
                        crate::pile::lemma_pile_ms_drop_last(stock_pre);
                        crate::pile::lemma_pile_ms_push(waste_pre, card);
                        assert(self.all_cards() =~= old(self).all_cards());
                    }
                },
                None => {
                    proof {
                        assert(self.stock_cards() == stock_pre);
                        assert(self.waste_cards() == waste_pre);
                    }
                },
            }
            dealt = dealt + 1;
        }
        proof {
            lemma_wf_waste_stock(*old(self), *self);
        }
    }
}

impl Game {
    /// Move the waste's top card onto the foundation bound to
    /// `foundation_suit`. Succeeds exactly when the waste is not empty
    /// and that foundation accepts its top card; a failed request
    /// changes nothing.
    pub fn waste_to_foundation(&mut self, foundation_suit: Suit) -> (r: bool)
        requires
            old(self).wf(),
        ensures
            final(self).wf(),
            r == (old(self).waste_cards().len() > 0 && spec_foundation_can_push(
                old(self).foundation(foundation_suit),
                foundation_suit,
                old(self).waste_cards().last(),
            )),
            r ==> final(self).foundation(foundation_suit) == old(self).foundation(
                foundation_suit,
            ).push(old(self).waste_cards().last()) && final(self).waste_cards() == old(self).waste_cards().drop_last() && foundations_eq_except(
                *final(self),
                *old(self),
                foundation_suit,
            ) && tabs_eq(*final(self), *old(self)) && final(self).stock_cards() == old(self).stock_cards() && final(self).deal_count() == old(self).deal_count(),
            !r ==> same_piles(*final(self), *old(self)),
    {
        let ghost g0 = *old(self);
        match self.pop_from_waste() {
            Some(waste_card) => {
                proof {
                    assert(waste_card.open);
                }
                match self.move_to_foundation(foundation_suit, waste_card) {
                    Some(card) => {
                        let back = self.move_to_waste(card);
                        proof {
                            assert(back is None);
                            assert(self.waste_cards() =~= g0.waste_cards());
                            lemma_wf_same_piles(g0, *self);
                        }
                        false
                    },
                    None => {
                        proof {
                            let c = g0.waste_cards().last();
                            lemma_foundation_push_wf(
                                g0.foundation(foundation_suit),
                                foundation_suit,
                                c,
                            );
                            assert forall|n: int| valid_tab(n) implies tableau_wf(
                                #[trigger] self.tab(n),
                            ) by {
                                assert(self.tab(n) == g0.tab(n));
                            }
                            assert forall|s: Suit| foundation_wf(
                                #[trigger] self.foundation(s),
                                s,
                            ) by {
                                if s != foundation_suit {
                                    assert(self.foundation(s) == g0.foundation(s));
                                }
                            }
                            crate::pile::lemma_pile_ms_drop_last(g0.waste_cards());
                            crate::pile::lemma_pile_ms_push(g0.foundation(foundation_suit), c);
                            assert(self.all_cards() =~= g0.all_cards());
                        }
                        true
                    },
                }
            },
            None => {
                proof {
                    lemma_wf_same_piles(g0, *self);
                }
                false
            },
        }
    }

    /// Move the waste's top card onto tableau `tableau_number`.
    /// Succeeds exactly when the waste is not empty, the address names
    /// a tableau, and that tableau accepts the card; a failed request
    /// changes nothing.
    pub fn waste_to_tableau(&mut self, tableau_number: usize) -> (r: bool)
        requires
            old(self).wf(),
        ensures
            final(self).wf(),
            r == (old(self).waste_cards().len() > 0 && valid_tab(tableau_number as int)
                && spec_tableau_can_push(
                old(self).tab(tableau_number as int),
                old(self).waste_cards().last(),
            )),
            r ==> final(self).tab(tableau_number as int) == old(self).tab(
                tableau_number as int,
            ).push(old(self).waste_cards().last()) && final(self).waste_cards() == old(self).waste_cards().drop_last() && tabs_eq_except(
                *final(self),
                *old(self),
                tableau_number as int,
            ) && foundations_eq(*final(self), *old(self)) && final(self).stock_cards() == old(self).stock_cards() && final(self).deal_count() == old(self).deal_count(),
            !r ==> same_piles(*final(self), *old(self)),
    {
        let ghost g0 = *old(self);
        match self.pop_from_waste() {
            Some(waste_card) => {
                proof {
                    assert(waste_card.open);
                }
                match self.move_to_tableau(tableau_number, waste_card) {
                    Some(card) => {
                        let back = self.move_to_waste(card);
                        proof {
                            assert(back is None);
                            assert(self.waste_cards() =~= g0.waste_cards());
                            lemma_wf_same_piles(g0, *self);
                        }
                        false
                    },
                    None => {
                        proof {
                            let c = g0.waste_cards().last();
                            let n = tableau_number as int;
                            lemma_tableau_push_wf(g0.tab(n), c);
                            assert forall|m: int| valid_tab(m) implies tableau_wf(
                                #[trigger] self.tab(m),
                            ) by {
                                if m != n {
                                    assert(self.tab(m) == g0.tab(m));
                                }
                            }
                            assert forall|s: Suit| foundation_wf(
                                #[trigger] self.foundation(s),
                                s,
                            ) by {
                                assert(self.foundation(s) == g0.foundation(s));
                            }
                            crate::pile::lemma_pile_ms_drop_last(g0.waste_cards());
                            crate::pile::lemma_pile_ms_push(g0.tab(n), c);
                            assert(self.all_cards() =~= g0.all_cards());
                        }
                        true
                    },
                }
            },
            None => {
                proof {
                    lemma_wf_same_piles(g0, *self);
                }
                false
            },
        }
    }

    /// Move the top card of tableau `tableau_number` onto the
    /// foundation bound to `foundation_suit`. Succeeds exactly when
    /// the address names a non-empty tableau whose top card that
    /// foundation accepts; a failed request changes nothing, and a
    /// successful one reveals the card uncovered in the tableau.
    #[verifier::rlimit(50)]
    pub fn tableau_to_foundation(&mut self, tableau_number: usize, foundation_suit: Suit) -> (r:
        bool)
        requires
            old(self).wf(),
        ensures
            final(self).wf(),
            r == (valid_tab(tableau_number as int) && old(self).tab(tableau_number as int).len()
                > 0 && spec_foundation_can_push(
                old(self).foundation(foundation_suit),
                foundation_suit,
                old(self).tab(tableau_number as int).last(),
            )),
            r ==> final(self).tab(tableau_number as int) == reveal_top(
                old(self).tab(tableau_number as int).drop_last(),
            ) && final(self).foundation(foundation_suit) == old(self).foundation(
                foundation_suit,
            ).push(old(self).tab(tableau_number as int).last()) && tabs_eq_except(
                *final(self),
                *old(self),
                tableau_number as int,
            ) && foundations_eq_except(*final(self), *old(self), foundation_suit) && final(self).waste_cards() == old(self).waste_cards() && final(self).stock_cards() == old(self).stock_cards() && final(self).deal_count() == old(self).deal_count(),
            !r ==> same_piles(*final(self), *old(self)),
    {
        let ghost g0 = *old(self);
        let ok = match self.get_len_from_tableau(tableau_number) {
            None => false,
            Some(len) => if len == 0 {
                false
            } else {
                match self.get_from_tableau(tableau_number, len - 1) {
                    None => false,
                    Some(c) => self.can_push_to_foundation(foundation_suit, c),
                }
            },
        };
        if ok {
            match self.pop_from_tableau(tableau_number) {
                Some(tableau_card) => {
                    let back = self.move_to_foundation(foundation_suit, tableau_card);
                    proof {
                        assert(back is None);
                        let n = tableau_number as int;
                        let c = g0.tab(n).last();
                        lemma_tableau_pop_wf(g0.tab(n));
                        lemma_foundation_push_wf(g0.foundation(foundation_suit), foundation_suit, c);
                        assert forall|m: int| valid_tab(m) implies tableau_wf(
                            #[trigger] self.tab(m),
                        ) by {
                            if m != n {
                                assert(self.tab(m) == g0.tab(m));
                            }
                        }
                        assert forall|s: Suit| foundation_wf(#[trigger] self.foundation(s), s) by {
                            if s != foundation_suit {
                                assert(self.foundation(s) == g0.foundation(s));
                            }
                        }
                        crate::pile::lemma_pile_pairs_flip(
                            reveal_top(g0.tab(n).drop_last()),
                            g0.tab(n).drop_last(),
                        );
                        crate::pile::lemma_pile_ms_drop_last(g0.tab(n));
                        crate::pile::lemma_pile_ms_push(g0.foundation(foundation_suit), c);
                        assert(self.all_cards() =~= g0.all_cards());
                    }
                    true
                },
                None => {
                    proof {
                        assert(false);
                    }
                    false
                },
            }
        } else {
            proof {
                lemma_wf_same_piles(g0, *self);
            }
            false
        }
    }

    /// Move the top card of the foundation bound to `foundation_suit`
    /// onto tableau `tableau_number`. Succeeds exactly when that
    /// foundation is not empty, the address names a tableau, and the
    /// tableau accepts the card; a failed request changes nothing.
    #[verifier::rlimit(50)]
    pub fn foundation_to_tableau(&mut self, foundation_suit: Suit, tableau_number: usize) -> (r:
        bool)
        requires
            old(self).wf(),
        ensures
            final(self).wf(),
            r == (old(self).foundation(foundation_suit).len() > 0 && valid_tab(
                tableau_number as int,
            ) && spec_tableau_can_push(
                old(self).tab(tableau_number as int),
                old(self).foundation(foundation_suit).last(),
            )),
            r ==> final(self).tab(tableau_number as int) == old(self).tab(
                tableau_number as int,
            ).push(old(self).foundation(foundation_suit).last()) && final(self).foundation(
                foundation_suit,
            ) == old(self).foundation(foundation_suit).drop_last() && tabs_eq_except(
                *final(self),
                *old(self),
                tableau_number as int,
            ) && foundations_eq_except(*final(self), *old(self), foundation_suit) && final(self).waste_cards() == old(self).waste_cards() && final(self).stock_cards() == old(self).stock_cards() && final(self).deal_count() == old(self).deal_count(),
            !r ==> same_piles(*final(self), *old(self)),
    {
        let ghost g0 = *old(self);
        match self.pop_from_foundation(foundation_suit) {
            Some(foundation_card) => {
                proof {
                    let f = g0.foundation(foundation_suit);
                    assert(f[f.len() - 1].open);
                    assert(foundation_card.open);
                }
                match self.move_to_tableau(tableau_number, foundation_card) {
                    Some(card) => {
                        let back = self.move_to_foundation(foundation_suit, card);
                        proof {
                            let f = g0.foundation(foundation_suit);
                            assert(rank_num(card.rank) == f.len());
                            if f.len() > 1 {
                                assert(rank_num(f.drop_last().last().rank) == f.len() - 1);
                            } else {
                                assert(rank_num(card.rank) == 1);
                                assert(card.rank == Rank::Ace);
                            }
                            assert(spec_foundation_can_push(
                                f.drop_last(),
                                foundation_suit,
                                card,
                            ));
                            assert(back is None);
                            assert(self.foundation(foundation_suit) =~= f);
                            lemma_wf_same_piles(g0, *self);
                        }
                        false
                    },
                    None => {
                        proof {
                            let c = g0.foundation(foundation_suit).last();
                            let n = tableau_number as int;
                            lemma_tableau_push_wf(g0.tab(n), c);
                            lemma_foundation_pop_wf(
                                g0.foundation(foundation_suit),
                                foundation_suit,
                            );
                            assert forall|m: int| valid_tab(m) implies tableau_wf(
                                #[trigger] self.tab(m),
                            ) by {
                                if m != n {
                                    assert(self.tab(m) == g0.tab(m));
                                }
                            }
                            assert forall|s: Suit| foundation_wf(
                                #[trigger] self.foundation(s),
                                s,
                            ) by {
                                if s != foundation_suit {
                                    assert(self.foundation(s) == g0.foundation(s));
                                }
                            }
                            crate::pile::lemma_pile_ms_drop_last(g0.foundation(foundation_suit));
                            crate::pile::lemma_pile_ms_push(g0.tab(n), c);
                            assert(self.all_cards() =~= g0.all_cards());
                        }
                        true
                    },
                }
            },
            None => {
                proof {
                    lemma_wf_same_piles(g0, *self);
                }
                false
            },
        }
    }
}

/// A run move is legal when both addresses name tableaus, the source
/// holds at least `size >= 1` cards, and the destination accepts the
/// card at the bottom of the run about to move.
pub open spec fn spec_run_move_ok(g: Game, from: int, to: int, size: int) -> bool {
    &&& valid_tab(from)
    &&& valid_tab(to)
    &&& 1 <= size <= g.tab(from).len()
    &&& spec_tableau_can_push(g.tab(to), g.tab(from)[g.tab(from).len() - size])
}

/// All tableaus except possibly `n1` and `n2` agree.
pub open spec fn tabs_eq_except2(a: Game, b: Game, n1: int, n2: int) -> bool {
    forall|m: int| valid_tab(m) && m != n1 && m != n2 ==> #[trigger] a.tab(m) == b.tab(m)
}

/// A tableau never accepts the bottom card of one of its own runs, so
/// a legal run move always joins two distinct tableaus.
proof fn lemma_run_move_distinct(g: Game, from: int, to: int, size: int)
    requires
        g.wf(),
        spec_run_move_ok(g, from, to, size),
    ensures
        from != to,
{
    if from == to {
        let s = g.tab(from);
        let i = s.len() - size;
        assert(s[i].open);
        lemma_tableau_run(s, i, s.len() - 1);
    }
}

impl Game {
    /// Move the top `size` cards of tableau `from_tableau_number` as
    /// one unit onto tableau `to_tableau_number`, preserving their
    /// order. The destination is checked against the bottom card of
    /// the run; a well-formed run then stacks card by card. Succeeds
    /// exactly when the run move is legal; a failed request changes
    /// nothing, and a successful one reveals the card uncovered in
    /// the source.
    pub fn tableau_to_tableau(
        &mut self,
        from_tableau_number: usize,
        to_tableau_number: usize,
        size: usize,
    ) -> (r: bool)
        requires
            old(self).wf(),
        ensures
            final(self).wf(),
            r == spec_run_move_ok(
                *old(self),
                from_tableau_number as int,
                to_tableau_number as int,
                size as int,
            ),
            r ==> from_tableau_number != to_tableau_number && final(self).tab(
                from_tableau_number as int,
            ) == reveal_top(
                old(self).tab(from_tableau_number as int).take(
                    old(self).tab(from_tableau_number as int).len() - size,
                ),
            ) && final(self).tab(to_tableau_number as int) == old(self).tab(
                to_tableau_number as int,
            ) + old(self).tab(from_tableau_number as int).subrange(
                old(self).tab(from_tableau_number as int).len() - size,
                old(self).tab(from_tableau_number as int).len() as int,
            ) && tabs_eq_except2(
                *final(self),
                *old(self),
                from_tableau_number as int,
                to_tableau_number as int,
            ) && foundations_eq(*final(self), *old(self)) && final(self).waste_cards() == old(self).waste_cards() && final(self).stock_cards() == old(self).stock_cards() && final(self).deal_count() == old(self).deal_count(),
            !r ==> same_piles(*final(self), *old(self)),
    {
        let ghost g0 = *old(self);
        let ghost from_i = from_tableau_number as int;
        let ghost to_i = to_tableau_number as int;
        let tableau_size = match self.get_len_from_tableau(from_tableau_number) {
            None => {
                proof {
                    lemma_wf_same_piles(g0, *self);
                }
                return false;
            },
            Some(l) => l,
        };
        if tableau_size < size {
            proof {
                lemma_wf_same_piles(g0, *self);
            }
            return false;
        }
        let i = tableau_size - size;
        let ok = match self.get_from_tableau(from_tableau_number, i) {
            None => false,
            Some(first_card) => self.can_push_to_tableau(to_tableau_number, first_card),
        };
        if !ok {
            proof {
                lemma_wf_same_piles(g0, *self);
            }
            return false;
        }
        let ghost src0 = g0.tab(from_i);
        let ghost len = src0.len() as int;
        let ghost bot = len - size as int;
        proof {
            assert(spec_run_move_ok(g0, from_i, to_i, size as int));
            lemma_run_move_distinct(g0, from_i, to_i, size as int);
            assert(src0[bot].open);
            assert forall|idx: int| bot <= idx < len implies (#[trigger] src0[idx]).open by {
                if idx > bot {
                    assert(src0[bot].open);
                }
            }
        }
        let mut tmp_stack: Vec<Card> = Vec::new();
        let mut j: usize = 0;
        while j < size
            invariant
                g0.wf(),
                spec_run_move_ok(g0, from_i, to_i, size as int),
                from_i != to_i,
                from_i == from_tableau_number as int,
                to_i == to_tableau_number as int,
                src0 == g0.tab(from_i),
                len == src0.len(),
                bot == len - size,
                forall|idx: int| bot <= idx < len ==> (#[trigger] src0[idx]).open,
                j <= size,
                tmp_stack@ == src0.subrange(len - j, len).reverse(),
                j < size ==> self.tab(from_i) == src0.take(len - j),
                j == size ==> self.tab(from_i) == reveal_top(src0.take(bot)),
                only_tableau_changed(g0, *self, from_i),
            decreases size - j,
        {
            let ghost t_pre = self.tab(from_i);
            let card_opt = self.pop_from_tableau(from_tableau_number);
            proof {
                assert(t_pre == src0.take(len - j));
                assert(t_pre.len() == len - j);
                assert(t_pre.last() == src0[len - 1 - j]);
            }
            let card = card_opt.unwrap();
            tmp_stack.push(card);
            proof {
                assert(card == src0[len - 1 - j]);
                assert(tmp_stack@ =~= src0.subrange(len - (j + 1), len).reverse());
                assert(self.tab(from_i) == reveal_top(src0.take(len - j).drop_last()));
                assert(src0.take(len - j).drop_last() =~= src0.take(len - j - 1));
                if j + 1 < size {
                    assert(src0[len - j - 2].open);
                    assert(self.tab(from_i) =~= src0.take(len - (j + 1)));
                }
            }
            j = j + 1;
        }
        proof {
            crate::tableau::lemma_tableau_take_wf(src0, bot);
        }
        while tmp_stack.len() > 0
            invariant
                g0.wf(),
                spec_run_move_ok(g0, from_i, to_i, size as int),
                from_i != to_i,
                from_i == from_tableau_number as int,
                to_i == to_tableau_number as int,
                src0 == g0.tab(from_i),
                len == src0.len(),
                bot == len - size,
                forall|idx: int| bot <= idx < len ==> (#[trigger] src0[idx]).open,
                tmp_stack@.len() <= size,
                tmp_stack@ == src0.subrange(len - tmp_stack@.len(), len).reverse(),
                self.tab(from_i) == reveal_top(src0.take(bot)),
                self.tab(to_i) == g0.tab(to_i) + src0.subrange(bot, len - tmp_stack@.len()),
                tableau_wf(self.tab(to_i)),
                tabs_eq_except2(*self, g0, from_i, to_i),
                foundations_eq(*self, g0),
                self.waste_cards() == g0.waste_cards(),
                self.stock_cards() == g0.stock_cards(),
                self.deal_count() == g0.deal_count(),
                self.foundations_bound(),
            decreases tmp_stack@.len(),
        {
            let ghost t = tmp_stack@.len() as int;
            let ghost to_pre = self.tab(to_i);
            let card = tmp_stack.pop().unwrap();
            proof {
                assert(card == src0[len - t]);
                assert(tmp_stack@ =~= src0.subrange(len - (t - 1), len).reverse());
                if t == size as int {
                    assert(to_pre =~= g0.tab(to_i));
                    assert(spec_tableau_can_push(to_pre, card));
                } else {
                    assert(to_pre.last() == src0[len - t - 1]);
                    assert(src0[len - t - 1].open && src0[len - t].open);
                    assert(rank_num(src0[len - t].rank) == rank_num(src0[len - t - 1].rank) - 1
                        && crate::card::is_red(src0[len - t].suit) != crate::card::is_red(
                        src0[len - t - 1].suit,
                    ));
                    assert(spec_tableau_can_push(to_pre, card));
                }
            }
            let back = self.move_to_tableau(to_tableau_number, card);
            proof {
                assert(back is None);
                lemma_tableau_push_wf(to_pre, card);
                assert(self.tab(to_i) == to_pre.push(card));
                assert(self.tab(to_i) =~= g0.tab(to_i) + src0.subrange(bot, len - (t - 1)));
            }
        }
        proof {
            assert(self.tab(to_i) == g0.tab(to_i) + src0.subrange(bot, len));
            lemma_run_move_wf(g0, *self, from_i, to_i, size as int);
        }
        true
    }
}

/// After a legal run move the invariant holds again: the source keeps
/// a well-formed column, the destination gained a legal run, and the
/// moved cards were neither copied nor lost.
proof fn lemma_run_move_wf(pre: Game, post: Game, from: int, to: int, size: int)
    requires
        pre.wf(),
        spec_run_move_ok(pre, from, to, size),
        from != to,
        post.tab(from) == reveal_top(pre.tab(from).take(pre.tab(from).len() - size)),
        post.tab(to) == pre.tab(to) + pre.tab(from).subrange(
            pre.tab(from).len() - size,
            pre.tab(from).len() as int,
        ),
        tableau_wf(post.tab(to)),
        tabs_eq_except2(post, pre, from, to),
        foundations_eq(post, pre),
        post.waste_cards() == pre.waste_cards(),
        post.stock_cards() == pre.stock_cards(),
        post.deal_count() == pre.deal_count(),
        post.foundations_bound(),
    ensures
        post.wf(),
{
    broadcast use vstd::seq_lib::lemma_multiset_commutative;

    let src0 = pre.tab(from);
    let len = src0.len() as int;
    let bot = len - size;
    crate::tableau::lemma_tableau_take_wf(src0, bot);
    assert forall|m: int| valid_tab(m) implies tableau_wf(#[trigger] post.tab(m)) by {
        if m != from && m != to {
            assert(post.tab(m) == pre.tab(m));
        }
    }
    assert forall|s: Suit| foundation_wf(#[trigger] post.foundation(s), s) by {
        assert(post.foundation(s) == pre.foundation(s));
    }
    // Counting: the source splits as kept + moved; the destination
    // gained exactly the moved cards; revealing flips no identity.
    let kept = src0.take(bot);
    let moved = src0.subrange(bot, len);
    assert(src0 =~= kept + moved);
    assert(crate::pile::pile_pairs(src0) =~= crate::pile::pile_pairs(kept)
        + crate::pile::pile_pairs(moved));
    assert(pile_ms(src0) == crate::pile::pile_pairs(kept).to_multiset().add(
        crate::pile::pile_pairs(moved).to_multiset(),
    ));
    assert(crate::pile::pile_pairs(post.tab(to)) =~= crate::pile::pile_pairs(pre.tab(to))
        + crate::pile::pile_pairs(moved));
    assert(pile_ms(post.tab(to)) == pile_ms(pre.tab(to)).add(pile_ms(moved)));
    crate::pile::lemma_pile_pairs_flip(post.tab(from), kept);
    assert(post.all_cards() =~= pre.all_cards());
}

impl Game {
    // read access for rendering

    pub fn get_len_from_waste(&self) -> (n: usize)
        ensures
            n == self.waste_cards().len(),
    {
        self.waste.len()
    }

    pub fn get_from_waste(&self, i: usize) -> (r: Option<&Card>)
        ensures
            (match r {
                Some(c) => i < self.waste_cards().len() && *c == self.waste_cards()[i as int],
                None => i >= self.waste_cards().len(),
            }),
    {
        self.waste.get(i)
    }

    pub fn get_last_from_stock(&self) -> (r: Option<&Card>)
        ensures
            (match r {
                Some(c) => self.stock_cards().len() > 0 && *c == self.stock_cards().last(),
                None => self.stock_cards().len() == 0,
            }),
    {
        self.stock.last()
    }

    pub fn get_len_from_stock(&self) -> (n: usize)
        ensures
            n == self.stock_cards().len(),
    {
        self.stock.len()
    }

    pub fn get_from_stock(&self, i: usize) -> (r: Option<&Card>)
        ensures
            (match r {
                Some(c) => i < self.stock_cards().len() && *c == self.stock_cards()[i as int],
                None => i >= self.stock_cards().len(),
            }),
    {
        self.stock.get(i)
    }

    pub fn get_len_from_foundation(&self, foundation_suit: Suit) -> (n: usize)
        ensures
            n == self.foundation(foundation_suit).len(),
    {
        match foundation_suit {
            Suit::Clubs => self.clubs_foundation.len(),
            Suit::Diamonds => self.diamonds_foundation.len(),
            Suit::Hearts => self.hearts_foundation.len(),
            Suit::Spades => self.spades_foundation.len(),
        }
    }

    pub fn get_from_foundation(&self, foundation_suit: Suit, i: usize) -> (r: Option<&Card>)
        ensures
            (match r {
                Some(c) => i < self.foundation(foundation_suit).len() && *c == self.foundation(
                    foundation_suit,
                )[i as int],
                None => i >= self.foundation(foundation_suit).len(),
            }),
    {
        match foundation_suit {
            Suit::Clubs => self.clubs_foundation.get(i),
            Suit::Diamonds => self.diamonds_foundation.get(i),
            Suit::Hearts => self.hearts_foundation.get(i),
            Suit::Spades => self.spades_foundation.get(i),
        }
    }

    pub fn get_last_from_foundation(&self, foundation_suit: Suit) -> (r: Option<&Card>)
        ensures
            (match r {
                Some(c) => self.foundation(foundation_suit).len() > 0 && *c == self.foundation(
                    foundation_suit,
                ).last(),
                None => self.foundation(foundation_suit).len() == 0,
            }),
    {
        match foundation_suit {
            Suit::Clubs => self.clubs_foundation.last(),
            Suit::Diamonds => self.diamonds_foundation.last(),
            Suit::Hearts => self.hearts_foundation.last(),
            Suit::Spades => self.spades_foundation.last(),
        }
    }
}

/// Every reachable game state partitions the 52 distinct cards exactly
/// once across the nine piles: `Game::new` establishes the invariant
/// and every operation's contract carries it forward, so any state
/// with `wf` holds each (rank, suit) pair exactly once, 52 in all.
pub proof fn lemma_cards_partitioned(g: Game)
    requires
        g.wf(),
    ensures
        deck_complete(g.all_cards()),
        g.all_cards().len() == 52,
        forall|p: (Rank, Suit)| #[trigger] g.all_cards().count(p) == 1,
{
}

/// The invariant survives any change confined to waste and stock that
/// keeps waste cards face-up, stock cards face-down, and the card
/// count intact.
proof fn lemma_wf_waste_stock(pre: Game, post: Game)
    requires
        pre.wf(),
        only_waste_stock_changed(pre, post),
        all_up(post.waste_cards()),
        all_down(post.stock_cards()),
        post.all_cards() == pre.all_cards(),
    ensures
        post.wf(),
{
    assert forall|n: int| valid_tab(n) implies tableau_wf(#[trigger] post.tab(n)) by {
        assert(post.tab(n) == pre.tab(n));
    }
    assert forall|s: Suit| foundation_wf(#[trigger] post.foundation(s), s) by {
        assert(post.foundation(s) == pre.foundation(s));
    }
}

/// Two states with identical piles satisfy the invariant together.
proof fn lemma_wf_same_piles(pre: Game, post: Game)
    requires
        pre.wf(),
        same_piles(post, pre),
        post.foundations_bound(),
    ensures
        post.wf(),
{
    assert forall|n: int| valid_tab(n) implies tableau_wf(#[trigger] post.tab(n)) by {
        assert(post.tab(n) == pre.tab(n));
    }
    assert forall|s: Suit| foundation_wf(#[trigger] post.foundation(s), s) by {
        assert(post.foundation(s) == pre.foundation(s));
    }
    assert(post.all_cards() =~= pre.all_cards()) by {
        assert(post.tab(1) == pre.tab(1));
        assert(post.tab(2) == pre.tab(2));
        assert(post.tab(3) == pre.tab(3));
        assert(post.tab(4) == pre.tab(4));
        assert(post.tab(5) == pre.tab(5));
        assert(post.tab(6) == pre.tab(6));
        assert(post.tab(7) == pre.tab(7));
        assert(post.foundation(Suit::Clubs) == pre.foundation(Suit::Clubs));
        assert(post.foundation(Suit::Diamonds) == pre.foundation(Suit::Diamonds));
        assert(post.foundation(Suit::Hearts) == pre.foundation(Suit::Hearts));
        assert(post.foundation(Suit::Spades) == pre.foundation(Suit::Spades));
    }
}

/// The freshly dealt layout meets the game invariant.
proof fn lemma_initial_layout(g: Game)
    requires
        forall|n: int| valid_tab(n) ==> #[trigger] g.tab(n) == initial_tableau(n),
        forall|s: Suit| #[trigger] g.foundation(s) == Seq::<Card>::empty(),
        g.waste_cards() == Seq::<Card>::empty(),
        g.stock_cards() == initial_stock(),
        g.foundations_bound(),
    ensures
        g.wf(),
{
    assert forall|n: int| valid_tab(n) implies tableau_wf(#[trigger] g.tab(n)) by {
        let s = initial_tableau(n);
        assert(g.tab(n) == s);
        assert(s.len() == n);
        assert forall|i: int| 0 <= i < s.len() implies ((#[trigger] s[i]).open <==> i == n
            - 1) by {}
        assert(s.last().open);
    }
    assert(all_down(g.stock_cards())) by {
        assert forall|i: int| 0 <= i < initial_stock().len() implies !(#[trigger] initial_stock()[i]).open by {}
    }
    lemma_initial_counts(g);
}

/// Counting the cards of the freshly dealt layout: each of the 52
/// (rank, suit) pairs sits in exactly one pile.
proof fn lemma_initial_counts(g: Game)
    requires
        forall|n: int| valid_tab(n) ==> #[trigger] g.tab(n) == initial_tableau(n),
        forall|s: Suit| #[trigger] g.foundation(s) == Seq::<Card>::empty(),
        g.waste_cards() == Seq::<Card>::empty(),
        g.stock_cards() == initial_stock(),
    ensures
        deck_complete(g.all_cards()),
{
    broadcast use vstd::seq_lib::group_to_multiset_ensures;
    broadcast use vstd::seq_lib::lemma_multiset_commutative;

    let full = Seq::new(52, |i: int| deck_card(i));
    crate::deck::lemma_full_deck_ms(full);

    // The deck splits as the stock's 24 cards followed by the seven
    // deals, tableau 7 taken from position 24 upward, tableau 1 last.
    let stock_part = full.take(24);
    assert(g.stock_cards() =~= stock_part);

    assert forall|n: int| valid_tab(n) implies pile_ms(#[trigger] g.tab(n)) == pile_ms(
        full.subrange(52 - tab_offset(n) - n, 52 - tab_offset(n)),
    ) by {
        let seg = full.subrange(52 - tab_offset(n) - n, 52 - tab_offset(n));
        let t = initial_tableau(n);
        assert(t.len() == seg.reverse().len());
        assert forall|idx: int| 0 <= idx < t.len() implies pair_of(#[trigger] t[idx]) == pair_of(
            seg.reverse()[idx],
        ) by {
            assert(seg.reverse()[idx] == seg[n - 1 - idx]);
            assert(seg[n - 1 - idx] == full[51 - tab_offset(n) - idx]);
        }
        crate::pile::lemma_pile_pairs_flip(t, seg.reverse());
        crate::pile::lemma_pile_ms_reverse(seg);
    }

    // Concatenating the parts back restores the deck, so the pair
    // multisets add back to the complete deck.
    let p = |s: Seq<Card>| crate::pile::pile_pairs(s);
    let s7 = full.subrange(24, 31);
    let s6 = full.subrange(31, 37);
    let s5 = full.subrange(37, 42);
    let s4 = full.subrange(42, 46);
    let s3 = full.subrange(46, 49);
    let s2 = full.subrange(49, 51);
    let s1 = full.subrange(51, 52);
    assert(p(full) =~= p(stock_part) + p(s7) + p(s6) + p(s5) + p(s4) + p(s3) + p(s2) + p(s1));
    assert(pile_ms(full) == pile_ms(stock_part).add(pile_ms(s7)).add(pile_ms(s6)).add(
        pile_ms(s5),
    ).add(pile_ms(s4)).add(pile_ms(s3)).add(pile_ms(s2)).add(pile_ms(s1)));
    assert(pile_ms(Seq::<Card>::empty()).len() == 0);
    assert(g.all_cards() =~= pile_ms(full));
}

} // verus!
