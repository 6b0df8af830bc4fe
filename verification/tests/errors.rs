use dice_notation::{Dice, ParseError};

#[test]
fn a_malformed_notation_is_kept_in_the_error() {
    let error = Dice::from("notadice").unwrap_err();
    assert!(matches!(error, ParseError::MalformedNotation { .. }));
    assert_eq!(error.input(), "notadice");
}

#[test]
fn a_value_too_large_keeps_notation_and_limit() {
    let error = Dice::from("4000d4000").unwrap_err();
    assert_eq!(
        error,
        ParseError::ValueTooLarge { input: "4000d4000".to_string(), limit: 255 }
    );
    assert_eq!(error.input(), "4000d4000");
}

#[test]
fn the_message_of_a_malformed_notation() {
    let error = Dice::from("2d6d4").unwrap_err();
    assert_eq!(error.message(), "Could not parse the input: 2d6d4 to form a dice");
    assert_eq!(error.debug_message(), "Could not parse the input: '2d6d4' to form a dice");
}

#[test]
fn the_message_of_a_value_too_large() {
    let error = Dice::from("4000d4000").unwrap_err();
    let text = "Input: '4000d4000' too large to form a dice please use numbers <255";
    assert_eq!(error.message(), text);
    assert_eq!(error.debug_message(), text);
}

#[test]
fn the_message_names_the_limit_that_was_chosen() {
    let error = Dice::from_with_limit("70000d2", u16::MAX).unwrap_err();
    assert_eq!(
        error.message(),
        "Input: '70000d2' too large to form a dice please use numbers <65535"
    );
    let error = Dice::from_with_limit("1d1", 0).unwrap_err();
    assert_eq!(error.message(), "Input: '1d1' too large to form a dice please use numbers <0");
}

#[test]
fn the_message_of_an_empty_notation() {
    let error = Dice::from("").unwrap_err();
    assert_eq!(error.input(), "");
    assert_eq!(error.message(), "Could not parse the input:  to form a dice");
    assert_eq!(error.debug_message(), "Could not parse the input: '' to form a dice");
}

#[test]
fn an_error_can_be_cloned() {
    let malformed = Dice::from("x").unwrap_err();
    assert_eq!(malformed.clone(), malformed);
    let too_large = Dice::from("999d1").unwrap_err();
    assert_eq!(too_large.clone(), too_large);
    assert_ne!(malformed, too_large);
}
