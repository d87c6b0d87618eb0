use libnewsletter::idempotency::key::{IdempotencyKey, IdempotencyKeyError};

#[test]
fn an_empty_key_is_rejected() {
    let result = IdempotencyKey::try_from(String::new());
    assert_eq!(result.unwrap_err(), IdempotencyKeyError::Empty);
}

#[test]
fn a_key_of_the_maximum_length_is_rejected() {
    let result = IdempotencyKey::try_from("k".repeat(50));
    assert_eq!(result.unwrap_err(), IdempotencyKeyError::MaxLenght);
}

#[test]
fn a_key_one_below_the_maximum_length_is_accepted() {
    let key = IdempotencyKey::try_from("k".repeat(49)).unwrap();
    assert_eq!(key.as_ref(), "k".repeat(49));
}

#[test]
fn a_key_of_one_character_is_accepted() {
    let key = IdempotencyKey::try_from("k".to_string()).unwrap();
    assert_eq!(key.as_ref(), "k");
    assert_eq!(key.into_string(), "k");
}

#[test]
fn the_length_of_a_key_is_counted_in_code_units() {
    // 25 characters of two code units each: 50 code units.
    assert_eq!(
        IdempotencyKey::try_from("é".repeat(25)).unwrap_err(),
        IdempotencyKeyError::MaxLenght
    );
    // 24 of them and one of a single unit: 49 code units.
    let mut text = "é".repeat(24);
    text.push('e');
    assert!(IdempotencyKey::try_from(text).is_ok());
}

#[test]
fn a_very_long_key_is_rejected() {
    assert_eq!(
        IdempotencyKey::try_from("k".repeat(65_536)).unwrap_err(),
        IdempotencyKeyError::MaxLenght
    );
    assert_eq!(
        IdempotencyKey::try_from("k".repeat(65_537)).unwrap_err(),
        IdempotencyKeyError::MaxLenght
    );
}

#[test]
fn the_maximum_length_is_fifty() {
    assert_eq!(IdempotencyKey::MAX_LENGHT, 50);
}

#[test]
fn the_key_errors_describe_themselves() {
    assert_eq!(
        IdempotencyKeyError::MaxLenght.message(),
        "idempotency key must be shorter than 50"
    );
    assert_eq!(
        IdempotencyKeyError::Empty.message(),
        "idempotency key cannot be empty"
    );
}
