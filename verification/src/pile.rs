//! The mathematical model shared by all piles: predicates and lemmas
//! over sequences of cards, and the multiset of (rank, suit) pairs that
//! a pile holds.

use vstd::prelude::*;
use vstd::multiset::Multiset;
use crate::card::{Card, Rank, Suit, rank_num, is_red};

verus! {

/// Every card in the sequence is face-down (the Stock discipline).
pub open spec fn all_down(s: Seq<Card>) -> bool {
    forall|i: int| 0 <= i < s.len() ==> !(#[trigger] s[i]).open
}

/// Every card in the sequence is face-up (the Waste discipline).
pub open spec fn all_up(s: Seq<Card>) -> bool {
    forall|i: int| 0 <= i < s.len() ==> (#[trigger] s[i]).open
}

/// The card `c`, turned face-up.
pub open spec fn face_up(c: Card) -> Card {
    Card { open: true, ..c }
}

/// The card `c`, turned face-down.
pub open spec fn face_down(c: Card) -> Card {
    Card { open: false, ..c }
}

/// The sequence with its last card (if any) turned face-up: the effect
/// of reveal-on-uncover after a Tableau pop.
pub open spec fn reveal_top(s: Seq<Card>) -> Seq<Card> {
    if s.len() == 0 {
        s
    } else {
        s.update(s.len() - 1, face_up(s.last()))
    }
}

/// Every card of the sequence turned face-up.
pub open spec fn open_all(s: Seq<Card>) -> Seq<Card> {
    s.map_values(|c: Card| face_up(c))
}

/// Every card of the sequence turned face-down.
pub open spec fn close_all(s: Seq<Card>) -> Seq<Card> {
    s.map_values(|c: Card| face_down(c))
}

/// A Tableau is well-formed when its face-up cards form a suffix, its
/// top card (if any) is face-up, and the face-up suffix is a legal run:
/// strictly descending ranks in alternating colors.
pub open spec fn tableau_wf(s: Seq<Card>) -> bool {
    &&& forall|i: int, j: int|
        0 <= i < j < s.len() && (#[trigger] s[i]).open ==> (#[trigger] s[j]).open
    &&& s.len() > 0 ==> s.last().open
    &&& forall|i: int, j: int|
        0 <= i && j == i + 1 && j < s.len() && (#[trigger] s[i]).open ==> rank_num(
            (#[trigger] s[j]).rank,
        ) == rank_num(s[i].rank) - 1 && is_red(s[j].suit) != is_red(s[i].suit)
}

/// A Foundation bound to `suit` is well-formed when it holds exactly the
/// face-up prefix Ace..k of that suit, in order.
pub open spec fn foundation_wf(s: Seq<Card>, suit: Suit) -> bool {
    forall|i: int|
        0 <= i < s.len() ==> (#[trigger] s[i]).suit == suit && rank_num(s[i].rank) == i + 1
            && s[i].open
}

/// The identity of a card: visibility may change, rank and suit never do.
pub open spec fn pair_of(c: Card) -> (Rank, Suit) {
    (c.rank, c.suit)
}

/// The (rank, suit) pairs held by a pile, in order.
pub open spec fn pile_pairs(s: Seq<Card>) -> Seq<(Rank, Suit)> {
    s.map_values(|c: Card| pair_of(c))
}

/// The multiset of (rank, suit) pairs held by a pile.
pub open spec fn pile_ms(s: Seq<Card>) -> Multiset<(Rank, Suit)> {
    pile_pairs(s).to_multiset()
}

/// A multiset holds a complete deck: all 52 distinct (rank, suit) pairs,
/// each exactly once.
pub open spec fn deck_complete(m: Multiset<(Rank, Suit)>) -> bool {
    &&& m.len() == 52
    &&& forall|p: (Rank, Suit)| #[trigger] m.count(p) == 1
}

/// Pushing a card inserts its pair into the pile's multiset.
pub proof fn lemma_pile_ms_push(s: Seq<Card>, c: Card)
    ensures
        pile_ms(s.push(c)) == pile_ms(s).insert(pair_of(c)),
{
    broadcast use vstd::seq_lib::group_to_multiset_ensures;

    assert(pile_pairs(s.push(c)) =~= pile_pairs(s).push(pair_of(c)));
}

/// Popping the top card removes its pair from the pile's multiset.
pub proof fn lemma_pile_ms_drop_last(s: Seq<Card>)
    requires
        s.len() > 0,
    ensures
        pile_ms(s) == pile_ms(s.drop_last()).insert(pair_of(s.last())),
{
    assert(s =~= s.drop_last().push(s.last()));
    lemma_pile_ms_push(s.drop_last(), s.last());
}

/// Turning cards over never changes which pairs a pile holds: any two
/// sequences that agree card-for-card up to visibility have the same
/// pairs.
pub proof fn lemma_pile_pairs_flip(s1: Seq<Card>, s2: Seq<Card>)
    requires
        s1.len() == s2.len(),
        forall|i: int| 0 <= i < s1.len() ==> pair_of(#[trigger] s1[i]) == pair_of(s2[i]),
    ensures
        pile_pairs(s1) == pile_pairs(s2),
{
    assert(pile_pairs(s1) =~= pile_pairs(s2));
}

/// Reversing a pile does not change its multiset of pairs.
pub proof fn lemma_pile_ms_reverse(s: Seq<Card>)
    ensures
        pile_ms(s.reverse()) == pile_ms(s),
{
    assert(pile_pairs(s.reverse()) =~= pile_pairs(s).reverse());
    pile_pairs(s).lemma_reverse_to_multiset();
    assert(pile_pairs(s).reverse().to_multiset() =~= pile_pairs(s).to_multiset());
}

/// Turning every card face-down distributes over appending one card.
pub proof fn lemma_close_all_push(s: Seq<Card>, c: Card)
    ensures
        close_all(s.push(c)) == close_all(s).push(face_down(c)),
{
    assert(close_all(s.push(c)) =~= close_all(s).push(face_down(c)));
}

/// Turning every card face-up distributes over appending one card.
pub proof fn lemma_open_all_push(s: Seq<Card>, c: Card)
    ensures
        open_all(s.push(c)) == open_all(s).push(face_up(c)),
{
    assert(open_all(s.push(c)) =~= open_all(s).push(face_up(c)));
}

/// Consecutive deals compose: turning up the stock's top cards chunk
/// by chunk builds the same waste as turning up the whole range at
/// once, however the deal size splits it.
pub proof fn lemma_deal_chunks_compose(s: Seq<Card>, c: int, b: int)
    requires
        0 <= c <= b <= s.len(),
    ensures
        open_all(s.subrange(b, s.len() as int).reverse()) + open_all(s.subrange(c, b).reverse())
            == open_all(s.subrange(c, s.len() as int).reverse()),
{
    let len = s.len() as int;
    let lhs = open_all(s.subrange(b, len).reverse()) + open_all(s.subrange(c, b).reverse());
    let rhs = open_all(s.subrange(c, len).reverse());
    assert forall|i: int| 0 <= i < len - c implies lhs[i] == rhs[i] by {
        assert(rhs[i] == face_up(s.subrange(c, len)[len - c - 1 - i]));
        if i < len - b {
            assert(lhs[i] == face_up(s.subrange(b, len)[len - b - 1 - i]));
        } else {
            assert(lhs[i] == face_up(s.subrange(c, b)[b - c - 1 - (i - (len - b))]));
        }
    }
    assert(lhs =~= rhs);
}

/// Recycling is a round trip: dealing an all-face-down stock to the
/// waste turns the cards up in reverse order, and recycling that waste
/// (closing each card, top first, back onto the stock) restores the
/// original stock exactly, so a later deal starts over as at first.
pub proof fn lemma_recycle_round_trip(s: Seq<Card>)
    requires
        all_down(s),
    ensures
        close_all(open_all(s.reverse()).reverse()) == s,
{
    let w = open_all(s.reverse());
    assert forall|i: int| 0 <= i < s.len() implies close_all(w.reverse())[i] == s[i] by {
        assert(w.reverse()[i] == w[s.len() - 1 - i]);
        assert(w[s.len() - 1 - i] == face_up(s.reverse()[s.len() - 1 - i]));
        assert(s.reverse()[s.len() - 1 - i] == s[i]);
        assert(!s[i].open);
    }
    assert(close_all(w.reverse()) =~= s);
}

} // verus!
