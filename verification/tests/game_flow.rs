use solitaire::card::{Card, Rank, Suit};
use solitaire::game::{DealSize, Game};

const SUITS: [Suit; 4] = [Suit::Clubs, Suit::Diamonds, Suit::Hearts, Suit::Spades];

fn suit_code(s: Suit) -> u8 {
    match s {
        Suit::Clubs => 0,
        Suit::Diamonds => 1,
        Suit::Hearts => 2,
        Suit::Spades => 3,
    }
}

fn record(out: &mut Vec<(usize, u8, bool)>, c: &Card) {
    out.push((c.get_numbered_rank(), suit_code(c.get_suit()), c.is_open()));
}

/// Every pile's contents in a fixed order, with markers between piles.
fn snapshot(g: &Game) -> Vec<(usize, u8, bool)> {
    let mut out = Vec::new();
    for n in 1..8 {
        let len = g.get_len_from_tableau(n).unwrap();
        for i in 0..len {
            record(&mut out, g.get_from_tableau(n, i).unwrap());
        }
        out.push((99, 9, false));
    }
    for suit in SUITS {
        let len = g.get_len_from_foundation(suit);
        for i in 0..len {
            record(&mut out, g.get_from_foundation(suit, i).unwrap());
        }
        out.push((99, 9, false));
    }
    for i in 0..g.get_len_from_waste() {
        record(&mut out, g.get_from_waste(i).unwrap());
    }
    out.push((99, 9, false));
    for i in 0..g.get_len_from_stock() {
        record(&mut out, g.get_from_stock(i).unwrap());
    }
    out
}

#[test]
fn initial_layout() {
    let g = Game::new(DealSize::One);
    for n in 1..8 {
        assert_eq!(g.get_len_from_tableau(n), Some(n));
        for i in 0..n {
            assert_eq!(g.get_from_tableau(n, i).unwrap().is_open(), i == n - 1);
        }
    }
    assert_eq!(g.get_len_from_stock(), 24);
    assert_eq!(g.get_len_from_waste(), 0);
    for suit in SUITS {
        assert_eq!(g.get_len_from_foundation(suit), 0);
    }
    let first_dealt = g.get_from_tableau(1, 0).unwrap();
    assert_eq!(first_dealt.get_rank(), Rank::King);
    assert_eq!(first_dealt.get_suit(), Suit::Spades);
    assert_eq!(g.get_deal_size(), 1);
    assert_eq!(Game::new(DealSize::Three).get_deal_size(), 3);
    assert_eq!(g.get_len_from_tableau(0), None);
    assert_eq!(g.get_len_from_tableau(8), None);
}

#[test]
fn deal_moves_three_cards_to_waste() {
    let mut g = Game::new(DealSize::Three);
    g.deal();
    assert_eq!(g.get_len_from_stock(), 21);
    assert_eq!(g.get_len_from_waste(), 3);
    let first = g.get_from_waste(0).unwrap();
    assert_eq!(first.get_rank(), Rank::Jack);
    assert_eq!(first.get_suit(), Suit::Diamonds);
    assert!(first.is_open());
    let top = g.get_from_waste(2).unwrap();
    assert_eq!(top.get_rank(), Rank::Nine);
    assert_eq!(top.get_suit(), Suit::Diamonds);
}

#[test]
fn deal_moves_fewer_when_stock_runs_short() {
    let mut g = Game::new(DealSize::Three);
    for _ in 0..8 {
        g.deal();
    }
    assert_eq!(g.get_len_from_stock(), 0);
    for _ in 0..13 {
        assert!(g.waste_to_foundation(Suit::Clubs));
    }
    assert_eq!(g.get_len_from_waste(), 11);
    g.deal(); // recycles 11 cards
    assert_eq!(g.get_len_from_stock(), 11);
    for _ in 0..3 {
        g.deal();
    }
    assert_eq!(g.get_len_from_stock(), 2);
    g.deal(); // only two cards remain: both move, no failure
    assert_eq!(g.get_len_from_stock(), 0);
    assert_eq!(g.get_len_from_waste(), 11);
}

#[test]
fn recycle_round_trip() {
    let mut g = Game::new(DealSize::One);
    for _ in 0..24 {
        g.deal();
    }
    assert_eq!(g.get_len_from_stock(), 0);
    assert_eq!(g.get_len_from_waste(), 24);
    assert!(g.get_last_from_stock().is_none());
    g.deal(); // stock is empty: recycle
    assert_eq!(g.get_len_from_waste(), 0);
    assert_eq!(g.get_len_from_stock(), 24);
    for i in 0..24 {
        assert!(!g.get_from_stock(i).unwrap().is_open());
    }
    // the stock is restored card for card: the next deal turns up the
    // Jack of Diamonds again, exactly as the first deal did
    g.deal();
    let c = g.get_from_waste(0).unwrap();
    assert_eq!(c.get_rank(), Rank::Jack);
    assert_eq!(c.get_suit(), Suit::Diamonds);
    assert!(c.is_open());
}

#[test]
fn clubs_ascend_to_foundation() {
    let mut g = Game::new(DealSize::Three);
    for _ in 0..8 {
        g.deal();
    }
    assert_eq!(g.get_len_from_waste(), 24);
    for _ in 0..13 {
        assert!(g.waste_to_foundation(Suit::Clubs));
    }
    assert_eq!(g.get_len_from_foundation(Suit::Clubs), 13);
    let top = g.get_last_from_foundation(Suit::Clubs).unwrap();
    assert_eq!(top.get_rank(), Rank::King);
    assert!(g.waste_to_foundation(Suit::Diamonds));
    // the next waste card is the Two of Diamonds: wrong suit for
    // Hearts, wrong rank for Clubs
    assert!(!g.waste_to_foundation(Suit::Hearts));
    assert!(!g.waste_to_foundation(Suit::Clubs));
    assert_eq!(g.get_len_from_waste(), 10);
}

#[test]
fn two_card_run_moves_atomically() {
    let mut g = Game::new(DealSize::One);
    // Jack of Spades onto the Queen of Hearts
    assert!(g.tableau_to_tableau(2, 5, 1));
    assert_eq!(g.get_len_from_tableau(2), Some(1));
    assert_eq!(g.get_len_from_tableau(5), Some(6));
    // reveal-on-uncover: the Queen of Spades beneath is now face-up
    let uncovered = g.get_from_tableau(2, 0).unwrap();
    assert!(uncovered.is_open());
    assert_eq!(uncovered.get_rank(), Rank::Queen);
    assert_eq!(uncovered.get_suit(), Suit::Spades);
    // the two-card run Queen of Hearts + Jack of Spades onto the King
    // of Spades: both cards move, in order, and the source is exactly
    // two cards shorter
    assert!(g.tableau_to_tableau(5, 1, 2));
    assert_eq!(g.get_len_from_tableau(5), Some(4));
    assert_eq!(g.get_len_from_tableau(1), Some(3));
    let bottom = g.get_from_tableau(1, 0).unwrap();
    assert_eq!(bottom.get_rank(), Rank::King);
    assert_eq!(bottom.get_suit(), Suit::Spades);
    let middle = g.get_from_tableau(1, 1).unwrap();
    assert_eq!(middle.get_rank(), Rank::Queen);
    assert_eq!(middle.get_suit(), Suit::Hearts);
    let top = g.get_from_tableau(1, 2).unwrap();
    assert_eq!(top.get_rank(), Rank::Jack);
    assert_eq!(top.get_suit(), Suit::Spades);
}

#[test]
fn full_circuit_of_moves() {
    let mut g = Game::new(DealSize::One);
    assert!(g.tableau_to_tableau(2, 5, 1)); // J spades onto Q hearts
    assert!(g.tableau_to_tableau(5, 1, 2)); // Q hearts, J spades onto K spades
    assert!(g.tableau_to_tableau(2, 5, 1)); // Q spades onto revealed K hearts
    assert_eq!(g.get_len_from_tableau(2), Some(0));
    assert!(g.tableau_to_tableau(1, 2, 3)); // K spades run onto the empty column
    assert!(g.tableau_to_tableau(5, 1, 2)); // K hearts, Q spades onto the empty column
    // the Ace of Spades is uncovered; spades start ascending
    assert!(g.tableau_to_foundation(5, Suit::Spades));
    assert!(g.tableau_to_foundation(5, Suit::Spades));
    assert_eq!(g.get_len_from_foundation(Suit::Spades), 2);
    // nine deals turn up the Three of Diamonds
    for _ in 0..9 {
        g.deal();
    }
    let waste_top = g.get_from_waste(g.get_len_from_waste() - 1).unwrap();
    assert_eq!(waste_top.get_rank(), Rank::Three);
    assert_eq!(waste_top.get_suit(), Suit::Diamonds);
    assert!(g.waste_to_tableau(4)); // Three of Diamonds onto Four of Spades
    assert!(g.foundation_to_tableau(Suit::Spades, 4)); // Two of Spades back down
    assert_eq!(g.get_len_from_foundation(Suit::Spades), 1);
    assert!(g.tableau_to_foundation(4, Suit::Spades)); // and up again
    assert_eq!(g.get_len_from_foundation(Suit::Spades), 2);
}

#[test]
fn failed_moves_change_nothing() {
    let mut g = Game::new(DealSize::One);
    let before = snapshot(&g);
    // empty waste
    assert!(!g.waste_to_foundation(Suit::Clubs));
    assert!(!g.waste_to_tableau(3));
    // empty foundation
    assert!(!g.foundation_to_tableau(Suit::Hearts, 1));
    // top of tableau 1 is a King: no foundation takes it
    assert!(!g.tableau_to_foundation(1, Suit::Spades));
    // King of Spades onto Jack of Spades is illegal
    assert!(!g.tableau_to_tableau(1, 2, 1));
    // a tableau never accepts its own run
    assert!(!g.tableau_to_tableau(3, 3, 1));
    // out-of-range addresses and sizes degrade to failure
    assert!(!g.tableau_to_tableau(0, 5, 1));
    assert!(!g.tableau_to_tableau(2, 9, 1));
    assert!(!g.tableau_to_tableau(2, 5, 0));
    assert!(!g.tableau_to_tableau(2, 5, 99));
    assert!(!g.waste_to_tableau(12));
    assert!(!g.tableau_to_foundation(77, Suit::Clubs));
    assert_eq!(snapshot(&g), before);
}

#[test]
fn fifty_two_cards_conserved() {
    let mut g = Game::new(DealSize::Three);
    g.deal();
    let _ = g.tableau_to_tableau(2, 5, 1);
    let _ = g.tableau_to_tableau(5, 1, 2);
    for _ in 0..8 {
        g.deal();
    }
    for _ in 0..13 {
        let _ = g.waste_to_foundation(Suit::Clubs);
    }
    let _ = g.waste_to_foundation(Suit::Diamonds);
    g.deal(); // recycle what remains
    g.deal();
    let mut pairs: Vec<(usize, u8)> = Vec::new();
    for (rank, suit, _) in snapshot(&g) {
        if rank != 99 {
            pairs.push((rank, suit));
        }
    }
    assert_eq!(pairs.len(), 52);
    pairs.sort();
    pairs.dedup();
    assert_eq!(pairs.len(), 52);
}
