use solitaire::card::{Card, Rank, Suit};
use solitaire::foundation::Foundation;
use solitaire::stock::Stock;
use solitaire::tableau::Tableau;
use solitaire::waste::Waste;

fn up(rank: Rank, suit: Suit) -> Card {
    let mut c = Card::new(rank, suit, '?');
    c.open();
    c
}

#[test]
fn empty_tableau_accepts_only_face_up_king() {
    let t = Tableau::new(Vec::new());
    assert!(t.can_push(&up(Rank::King, Suit::Spades)));
    assert!(t.can_push(&up(Rank::King, Suit::Hearts)));
    assert!(!t.can_push(&up(Rank::Queen, Suit::Spades)));
    assert!(!t.can_push(&up(Rank::Ace, Suit::Hearts)));
    assert!(!t.can_push(&up(Rank::Seven, Suit::Diamonds)));
    assert!(!t.can_push(&Card::new(Rank::King, Suit::Spades, '?')));
}

#[test]
fn tableau_descending_alternating_colors() {
    let mut t = Tableau::new(vec![up(Rank::Seven, Suit::Hearts)]);
    assert!(t.can_push(&up(Rank::Six, Suit::Spades)));
    assert!(!t.can_push(&up(Rank::Six, Suit::Hearts)));
    assert!(!t.can_push(&Card::new(Rank::Six, Suit::Spades, '?')));
    assert!(t.push(up(Rank::Six, Suit::Spades)).is_none());
    assert_eq!(t.len(), 2);
}

#[test]
fn tableau_rejected_push_returns_card_unchanged() {
    let mut t = Tableau::new(vec![up(Rank::Seven, Suit::Hearts)]);
    let rejected = t.push(up(Rank::Five, Suit::Spades));
    let back = rejected.expect("an illegal card must come back");
    assert_eq!(back.get_rank(), Rank::Five);
    assert_eq!(back.get_suit(), Suit::Spades);
    assert!(back.is_open());
    assert_eq!(t.len(), 1);
    assert_eq!(t.last().unwrap().get_rank(), Rank::Seven);
}

#[test]
fn tableau_pop_reveals_card_underneath() {
    let hidden = Card::new(Rank::Five, Suit::Spades, '?');
    let mut t = Tableau::new(vec![hidden, up(Rank::King, Suit::Hearts)]);
    assert!(!t.get(0).unwrap().is_open());
    let popped = t.pop().expect("a non-empty tableau pops its top");
    assert_eq!(popped.get_rank(), Rank::King);
    assert_eq!(popped.get_suit(), Suit::Hearts);
    let top = t.last().unwrap();
    assert_eq!(top.get_rank(), Rank::Five);
    assert!(top.is_open());
    assert_eq!(t.len(), 1);
}

#[test]
fn tableau_pop_on_empty_is_none() {
    let mut t = Tableau::new(Vec::new());
    assert!(t.pop().is_none());
    assert_eq!(t.len(), 0);
}

#[test]
fn foundation_sequencing_from_ace() {
    let mut f = Foundation::new(Suit::Spades);
    assert!(!f.can_push(&up(Rank::Two, Suit::Spades)));
    assert!(!f.can_push(&up(Rank::Ace, Suit::Hearts)));
    assert!(!f.can_push(&Card::new(Rank::Ace, Suit::Spades, '?')));
    assert!(f.can_push(&up(Rank::Ace, Suit::Spades)));
    assert!(f.push(up(Rank::Ace, Suit::Spades)).is_none());
    assert!(f.can_push(&up(Rank::Two, Suit::Spades)));
    assert!(!f.can_push(&up(Rank::Two, Suit::Hearts)));
    assert!(!f.can_push(&up(Rank::Two, Suit::Diamonds)));
    assert!(!f.can_push(&up(Rank::Two, Suit::Clubs)));
    assert!(!f.can_push(&up(Rank::Three, Suit::Spades)));
    assert!(f.push(up(Rank::Two, Suit::Spades)).is_none());
    assert_eq!(f.len(), 2);
    assert_eq!(f.last().unwrap().get_rank(), Rank::Two);
    assert_eq!(f.get(0).unwrap().get_rank(), Rank::Ace);
}

#[test]
fn foundation_pop_is_plain() {
    let mut f = Foundation::new(Suit::Hearts);
    assert!(f.pop().is_none());
    assert!(f.push(up(Rank::Ace, Suit::Hearts)).is_none());
    let c = f.pop().unwrap();
    assert_eq!(c.get_rank(), Rank::Ace);
    assert_eq!(f.len(), 0);
}

#[test]
fn waste_accepts_only_face_up() {
    let mut w = Waste::new();
    assert!(!w.can_push(&Card::new(Rank::Nine, Suit::Clubs, '?')));
    assert!(w.can_push(&up(Rank::Nine, Suit::Clubs)));
    assert!(w.push(Card::new(Rank::Nine, Suit::Clubs, '?')).is_some());
    assert_eq!(w.len(), 0);
    assert!(w.push(up(Rank::Nine, Suit::Clubs)).is_none());
    assert_eq!(w.len(), 1);
    assert_eq!(w.get(0).unwrap().get_rank(), Rank::Nine);
}

#[test]
fn stock_accepts_only_face_down() {
    let mut s = Stock::new(Vec::new());
    assert!(s.can_push(&Card::new(Rank::Nine, Suit::Clubs, '?')));
    assert!(!s.can_push(&up(Rank::Nine, Suit::Clubs)));
    assert!(s.push(up(Rank::Nine, Suit::Clubs)).is_some());
    assert_eq!(s.len(), 0);
    assert!(s.push(Card::new(Rank::Nine, Suit::Clubs, '?')).is_none());
    assert_eq!(s.len(), 1);
    assert!(s.last().unwrap().get_rank() == Rank::Nine);
}

#[test]
fn card_visibility_toggles() {
    let mut c = Card::new(Rank::Queen, Suit::Diamonds, '?');
    assert!(!c.is_open());
    assert_eq!(c.get_numbered_rank(), 12);
    c.open();
    assert!(c.is_open());
    c.close();
    assert!(!c.is_open());
    assert_eq!(c.get_rank(), Rank::Queen);
    assert_eq!(c.get_suit(), Suit::Diamonds);
}
