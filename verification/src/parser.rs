//! The single-token command surface: a command name maps to an engine
//! action; anything else is reported back as invalid.

use vstd::prelude::*;
use vstd::string::StrSliceExecFns;
use vstd::string::StringExecFns;
use crate::card::Suit;

verus! {

pub trait Parser<T> {
    fn parse(input: &str) -> Result<T, String>;
}

#[derive(Debug, Clone, PartialEq, Eq, Structural)]
pub enum Command {
    Deal,
    Help,
    WasteToFoundation(Suit),
    WasteToTableau(usize),
    TableauToFoundation(usize, Suit),
    TableauToTableau(usize, usize, usize),
    FoundationToTableau(Suit, usize),
}

/// Characterwise string equality: the exec counterpart of `==` on the
/// views of two string slices.
pub fn str_eq(a: &str, b: &str) -> (r: bool)
    ensures
        r == (a@ == b@),
{
    let a_len = a.unicode_len();
    if a_len != b.unicode_len() {
        return false;
    }
    let mut i: usize = 0;
    while i < a_len
        invariant
            a_len == a@.len(),
            a_len == b@.len(),
            i <= a_len,
            forall|j: int| 0 <= j < i ==> a@[j] == b@[j],
        decreases a_len - i,
    {
        if a.get_char(i) != b.get_char(i) {
            return false;
        }
        i = i + 1;
    }
    proof {
        assert(a@ =~= b@);
    }
    true
}

/// The command a token names, if any.
pub open spec fn spec_parse_command(s: Seq<char>) -> Option<Command> {
    if s == "d"@ || s == "deal"@ {
        Some(Command::Deal)
    } else if s == "h"@ || s == "help"@ {
        Some(Command::Help)
    } else if s == "wc"@ {
        Some(Command::WasteToFoundation(Suit::Clubs))
    } else if s == "wd"@ {
        Some(Command::WasteToFoundation(Suit::Diamonds))
    } else if s == "wh"@ {
        Some(Command::WasteToFoundation(Suit::Hearts))
    } else if s == "ws"@ {
        Some(Command::WasteToFoundation(Suit::Spades))
    } else {
        None
    }
}

impl Command {
    /// Parse one command token; an unknown token is returned in an
    /// error message naming it.
    pub fn parse(input: &str) -> (r: Result<Command, String>)
        ensures
            (match r {
                Ok(c) => spec_parse_command(input@) == Some(c),
                Err(m) => spec_parse_command(input@) is None && m@ == input@
                    + " is not a valid command."@,
            }),
    {
        if str_eq(input, "d") || str_eq(input, "deal") {
            Ok(Command::Deal)
        } else if str_eq(input, "h") || str_eq(input, "help") {
            Ok(Command::Help)
        } else if str_eq(input, "wc") {
            Ok(Command::WasteToFoundation(Suit::Clubs))
        } else if str_eq(input, "wd") {
            Ok(Command::WasteToFoundation(Suit::Diamonds))
        } else if str_eq(input, "wh") {
            Ok(Command::WasteToFoundation(Suit::Hearts))
        } else if str_eq(input, "ws") {
            Ok(Command::WasteToFoundation(Suit::Spades))
        } else {
            let mut m = input.to_owned();
            m.append(" is not a valid command.");
            Err(m)
        }
    }
}

impl Parser<Command> for Command {
    fn parse(input: &str) -> Result<Command, String> {
        Command::parse(input)
    }
}

} // verus!
