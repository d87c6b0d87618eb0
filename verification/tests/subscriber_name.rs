use libnewsletter::domain::new_subscriber::{NewSubscriber, SubscriberParseError};
use libnewsletter::domain::subscriber_email::{EmailParseError, SubscriberEmail};
use libnewsletter::domain::subscriber_name::{
    contains_forbidden_characters, SubscriberName, SubscriberNameParseError,
};

#[test]
fn a_256_grapheme_long_name_is_valid() {
    let name = "a̐".repeat(256);
    assert!(SubscriberName::parse(name).is_ok());
}

#[test]
fn a_name_longer_than_256_graphemes_is_rejected() {
    let name = "a".repeat(257);
    assert!(SubscriberName::parse(name).is_err());
}

#[test]
fn whitespace_only_names_are_rejected() {
    let name = " ".to_string();
    assert!(SubscriberName::parse(name).is_err());
}

#[test]
fn empty_string_is_rejected() {
    let name = "".to_string();
    assert!(SubscriberName::parse(name).is_err());
}

#[test]
fn names_containing_an_invalid_character_are_rejected() {
    for name in vec!['/', '(', ')', '"', '<', '>', '\\', '{', '}'] {
        let name = name.to_string();
        assert!(SubscriberName::parse(name).is_err());
    }
}

#[test]
fn a_valid_name_is_parsed_successfully() {
    let name = "Ursula Le Guin".to_string();
    assert!(SubscriberName::parse(name).is_ok());
}

#[test]
fn a_parsed_name_keeps_its_text() {
    let name = SubscriberName::parse("Ursula Le Guin".to_string()).unwrap();
    assert_eq!(name.as_ref(), "Ursula Le Guin");
}

#[test]
fn a_name_of_257_grapheme_clusters_is_rejected_whatever_its_characters() {
    let name = "a̐".repeat(257);
    assert!(SubscriberName::parse(name).is_err());
}

#[test]
fn a_name_of_tabs_and_line_breaks_is_blank() {
    assert!(SubscriberName::parse("\t\n \r\n".to_string()).is_err());
}

#[test]
fn a_name_may_have_white_space_around_it() {
    let name = SubscriberName::parse("  Ursula  ".to_string()).unwrap();
    assert_eq!(name.as_ref(), "  Ursula  ");
}

#[test]
fn a_forbidden_character_is_found_anywhere_in_a_text() {
    assert!(contains_forbidden_characters("Ursula {Le} Guin"));
    assert!(contains_forbidden_characters("Ursula\\"));
    assert!(!contains_forbidden_characters("Ursula Le Guin"));
    assert!(!contains_forbidden_characters(""));
}

#[test]
fn check_decides_from_what_it_is_given() {
    assert!(SubscriberName::check("Ursula".to_string(), false, 256).is_ok());
    assert_eq!(
        SubscriberName::check("Ursula".to_string(), false, 257),
        Err(SubscriberNameParseError)
    );
    assert_eq!(
        SubscriberName::check("Ursula".to_string(), true, 6),
        Err(SubscriberNameParseError)
    );
    assert_eq!(
        SubscriberName::check("Ursula<".to_string(), false, 7),
        Err(SubscriberNameParseError)
    );
}

#[test]
fn the_name_error_describes_itself() {
    assert_eq!(
        SubscriberNameParseError.message(),
        "Failed to parse provided String as a SubscriberName"
    );
}

#[test]
fn every_text_is_taken_as_an_address() {
    let email = SubscriberEmail::parse("ursula_le_guin@gmail.com".to_string()).unwrap();
    assert_eq!(email.as_ref(), "ursula_le_guin@gmail.com");
    let odd = SubscriberEmail::parse("definitely-not-an-email".to_string()).unwrap();
    assert_eq!(odd.as_ref(), "definitely-not-an-email");
}

#[test]
fn the_address_error_describes_itself() {
    assert_eq!(
        EmailParseError.message(),
        "could not parse provided String as a SubscriberEmail"
    );
}

#[test]
fn a_sign_up_form_with_a_valid_name_gives_a_subscriber() {
    let subscriber =
        NewSubscriber::try_from_form("ursula@example.com".to_string(), "Ursula".to_string())
            .unwrap();
    assert_eq!(subscriber.email.as_ref(), "ursula@example.com");
    assert_eq!(subscriber.name.as_ref(), "Ursula");
}

#[test]
fn a_sign_up_form_with_a_blank_name_is_refused_for_its_name() {
    let result = NewSubscriber::try_from_form("ursula@example.com".to_string(), " ".to_string());
    assert_eq!(
        result,
        Err(SubscriberParseError::Name(SubscriberNameParseError))
    );
}
