use solitaire::card::Suit;
use solitaire::menu::{Location, MoveSpec};
use solitaire::parser::{str_eq, Command, Parser};

#[test]
fn command_tokens() {
    assert_eq!(Command::parse("d"), Ok(Command::Deal));
    assert_eq!(Command::parse("deal"), Ok(Command::Deal));
    assert_eq!(Command::parse("h"), Ok(Command::Help));
    assert_eq!(Command::parse("help"), Ok(Command::Help));
    assert_eq!(
        Command::parse("wc"),
        Ok(Command::WasteToFoundation(Suit::Clubs))
    );
    assert_eq!(
        Command::parse("wd"),
        Ok(Command::WasteToFoundation(Suit::Diamonds))
    );
    assert_eq!(
        Command::parse("wh"),
        Ok(Command::WasteToFoundation(Suit::Hearts))
    );
    assert_eq!(
        Command::parse("ws"),
        Ok(Command::WasteToFoundation(Suit::Spades))
    );
}

#[test]
fn command_parse_through_trait() {
    let parsed: Result<Command, String> = <Command as Parser<Command>>::parse("deal");
    assert_eq!(parsed, Ok(Command::Deal));
}

#[test]
fn unknown_command_names_itself() {
    let err = Command::parse("flip").unwrap_err();
    assert_eq!(err, "flip is not a valid command.");
    assert!(Command::parse("").is_err());
    assert!(Command::parse("DEAL").is_err());
}

#[test]
fn location_tokens() {
    assert_eq!(Location::parse("w"), Ok(Location::Waste));
    assert_eq!(Location::parse("waste"), Ok(Location::Waste));
    assert_eq!(Location::parse("c"), Ok(Location::Foundation(Suit::Clubs)));
    assert_eq!(
        Location::parse("diamonds"),
        Ok(Location::Foundation(Suit::Diamonds))
    );
    assert_eq!(Location::parse("h"), Ok(Location::Foundation(Suit::Hearts)));
    assert_eq!(
        Location::parse("spades"),
        Ok(Location::Foundation(Suit::Spades))
    );
    assert_eq!(Location::parse("1"), Ok(Location::Tableau(1)));
    assert_eq!(Location::parse("t1"), Ok(Location::Tableau(1)));
    assert_eq!(Location::parse("7"), Ok(Location::Tableau(7)));
    assert_eq!(Location::parse("t7"), Ok(Location::Tableau(7)));
    let err = Location::parse("t8").unwrap_err();
    assert_eq!(err, "t8 is not a valid location.");
}

#[test]
fn move_spec_pairs() {
    assert_eq!(
        MoveSpec::parse(Location::Waste, Location::Foundation(Suit::Hearts)),
        Ok(MoveSpec::WasteToFoundation(Suit::Hearts))
    );
    assert_eq!(
        MoveSpec::parse(Location::Waste, Location::Tableau(4)),
        Ok(MoveSpec::WasteToTableau(4))
    );
    assert_eq!(
        MoveSpec::parse(Location::Tableau(2), Location::Foundation(Suit::Clubs)),
        Ok(MoveSpec::TableauToFoundation(2, Suit::Clubs))
    );
    assert_eq!(
        MoveSpec::parse(Location::Tableau(2), Location::Tableau(5)),
        Ok(MoveSpec::TableauToTableau(2, 5, 0))
    );
    assert_eq!(
        MoveSpec::parse(Location::Foundation(Suit::Spades), Location::Tableau(3)),
        Ok(MoveSpec::FoundationToTableau(Suit::Spades, 3))
    );
}

#[test]
fn move_spec_rejections() {
    let err = MoveSpec::parse(Location::Tableau(1), Location::Waste).unwrap_err();
    assert_eq!(err, "Cannot move to waste.");
    let err = MoveSpec::parse(Location::Waste, Location::Waste).unwrap_err();
    assert_eq!(err, "Cannot move to waste.");
    let err = MoveSpec::parse(Location::Foundation(Suit::Clubs), Location::Waste).unwrap_err();
    assert_eq!(err, "Cannot move to waste.");
    let err = MoveSpec::parse(
        Location::Foundation(Suit::Clubs),
        Location::Foundation(Suit::Hearts),
    )
    .unwrap_err();
    assert_eq!(err, "Cannot move from foundation to foundation.");
}

#[test]
fn string_equality_is_exact() {
    assert!(str_eq("deal", "deal"));
    assert!(!str_eq("deal", "dea"));
    assert!(!str_eq("deal", "deals"));
    assert!(!str_eq("deal", "dean"));
    assert!(!str_eq("", "d"));
    assert!(str_eq("", ""));
}
