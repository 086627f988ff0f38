//! The interactive move grammar: a source and a destination location
//! name one of the engine's five transfers. Reading lines from the
//! player belongs to the surrounding shell; the parsing rules live
//! here.

use vstd::prelude::*;
use vstd::string::StringExecFns;
use crate::card::Suit;
use crate::parser::str_eq;

verus! {

/// A command of the interactive menu: deal, help, or a move described
/// by a [`MoveSpec`]. The shell assembles `Move` from the locations it
/// reads, through [`Location::parse`] and [`MoveSpec::parse`].
#[derive(Debug, Clone, PartialEq, Eq, Structural)]
pub enum Command {
    Deal,
    Help,
    Move(MoveSpec),
}

/// A place a card can move from or to.
#[derive(Debug, Clone, Copy, PartialEq, Eq, Structural)]
pub enum Location {
    Waste,
    Foundation(Suit),
    Tableau(usize),
}

/// One of the engine's five transfers; the last field of
/// `TableauToTableau` is the run size, filled in by the shell after
/// the locations are known.
#[derive(Debug, Clone, Copy, PartialEq, Eq, Structural)]
pub enum MoveSpec {
    WasteToFoundation(Suit),
    WasteToTableau(usize),
    TableauToFoundation(usize, Suit),
    TableauToTableau(usize, usize, usize),
    FoundationToTableau(Suit, usize),
}

/// The location a token names, if any.
pub open spec fn spec_parse_location(s: Seq<char>) -> Option<Location> {
    if s == "w"@ || s == "waste"@ {
        Some(Location::Waste)
    } else if s == "c"@ || s == "clubs"@ {
        Some(Location::Foundation(Suit::Clubs))
    } else if s == "d"@ || s == "diamonds"@ {
        Some(Location::Foundation(Suit::Diamonds))
    } else if s == "h"@ || s == "hearts"@ {
        Some(Location::Foundation(Suit::Hearts))
    } else if s == "s"@ || s == "spades"@ {
        Some(Location::Foundation(Suit::Spades))
    } else if s == "1"@ || s == "t1"@ {
        Some(Location::Tableau(1))
    } else if s == "2"@ || s == "t2"@ {
        Some(Location::Tableau(2))
    } else if s == "3"@ || s == "t3"@ {
        Some(Location::Tableau(3))
    } else if s == "4"@ || s == "t4"@ {
        Some(Location::Tableau(4))
    } else if s == "5"@ || s == "t5"@ {
        Some(Location::Tableau(5))
    } else if s == "6"@ || s == "t6"@ {
        Some(Location::Tableau(6))
    } else if s == "7"@ || s == "t7"@ {
        Some(Location::Tableau(7))
    } else {
        None
    }
}

impl Location {
    /// Parse one location token; an unknown token is returned in an
    /// error message naming it.
    pub fn parse(input: &str) -> (r: Result<Location, String>)
        ensures
            (match r {
                Ok(l) => spec_parse_location(input@) == Some(l),
                Err(m) => spec_parse_location(input@) is None && m@ == input@
                    + " is not a valid location."@,
            }),
    {
        if str_eq(input, "w") || str_eq(input, "waste") {
            Ok(Location::Waste)
        } else if str_eq(input, "c") || str_eq(input, "clubs") {
            Ok(Location::Foundation(Suit::Clubs))
        } else if str_eq(input, "d") || str_eq(input, "diamonds") {
            Ok(Location::Foundation(Suit::Diamonds))
        } else if str_eq(input, "h") || str_eq(input, "hearts") {
            Ok(Location::Foundation(Suit::Hearts))
        } else if str_eq(input, "s") || str_eq(input, "spades") {
            Ok(Location::Foundation(Suit::Spades))
        } else if str_eq(input, "1") || str_eq(input, "t1") {
            Ok(Location::Tableau(1))
        } else if str_eq(input, "2") || str_eq(input, "t2") {
            Ok(Location::Tableau(2))
        } else if str_eq(input, "3") || str_eq(input, "t3") {
            Ok(Location::Tableau(3))
        } else if str_eq(input, "4") || str_eq(input, "t4") {
            Ok(Location::Tableau(4))
        } else if str_eq(input, "5") || str_eq(input, "t5") {
            Ok(Location::Tableau(5))
        } else if str_eq(input, "6") || str_eq(input, "t6") {
            Ok(Location::Tableau(6))
        } else if str_eq(input, "7") || str_eq(input, "t7") {
            Ok(Location::Tableau(7))
        } else {
            let mut m = input.to_owned();
            m.append(" is not a valid location.");
            Err(m)
        }
    }
}

/// The transfer a pair of locations describes, if any: the waste is
/// never a destination, and foundations do not feed each other. A
/// tableau-to-tableau move starts with run size 0, to be filled in.
pub open spec fn spec_move_spec(from: Location, to: Location) -> Option<MoveSpec> {
    match (from, to) {
        (Location::Waste, Location::Foundation(suit)) => Some(MoveSpec::WasteToFoundation(suit)),
        (Location::Waste, Location::Tableau(n)) => Some(MoveSpec::WasteToTableau(n)),
        (Location::Foundation(suit), Location::Tableau(n)) => Some(
            MoveSpec::FoundationToTableau(suit, n),
        ),
        (Location::Tableau(n), Location::Foundation(suit)) => Some(
            MoveSpec::TableauToFoundation(n, suit),
        ),
        (Location::Tableau(n), Location::Tableau(m)) => Some(MoveSpec::TableauToTableau(n, m, 0)),
        _ => None,
    }
}

/// The complaint for a pair of locations that names no transfer.
pub open spec fn spec_move_error(from: Location, to: Location) -> Seq<char> {
    match to {
        Location::Waste => "Cannot move to waste."@,
        _ => "Cannot move from foundation to foundation."@,
    }
}

impl MoveSpec {
    /// Combine two parsed locations into a transfer, or explain why
    /// they name none.
    pub fn parse(from: Location, to: Location) -> (r: Result<MoveSpec, String>)
        ensures
            (match r {
                Ok(m) => spec_move_spec(from, to) == Some(m),
                Err(e) => spec_move_spec(from, to) is None && e@ == spec_move_error(from, to),
            }),
    {
        match from {
            Location::Waste => match to {
                Location::Waste => Err("Cannot move to waste.".to_owned()),
                Location::Foundation(suit) => Ok(MoveSpec::WasteToFoundation(suit)),
                Location::Tableau(n) => Ok(MoveSpec::WasteToTableau(n)),
            },
            Location::Foundation(suit) => match to {
                Location::Waste => Err("Cannot move to waste.".to_owned()),
                Location::Foundation(_) => Err(
                    "Cannot move from foundation to foundation.".to_owned(),
                ),
                Location::Tableau(n) => Ok(MoveSpec::FoundationToTableau(suit, n)),
            },
            Location::Tableau(n) => match to {
                Location::Waste => Err("Cannot move to waste.".to_owned()),
                Location::Foundation(suit) => Ok(MoveSpec::TableauToFoundation(n, suit)),
                Location::Tableau(m) => Ok(MoveSpec::TableauToTableau(n, m, 0)),
            },
        }
    }
}

} // verus!
