//! The caller-supplied token that names one logical command.

use vstd::prelude::*;

verus! {

/// Number of UTF-8 code units that the text occupies.
pub open spec fn code_units(text: Seq<char>) -> nat {
    vstd::utf8::encode_utf8(text).len()
}

/// Whether a text is acceptable as an idempotency key: not empty, and
/// strictly shorter than [`IdempotencyKey::MAX_LENGHT`] code units.
pub open spec fn is_valid_key(text: Seq<char>) -> bool {
    0 < code_units(text) < IdempotencyKey::MAX_LENGHT
}

/// A validated idempotency key. It cannot be changed once built.
#[derive(Debug, PartialEq, Eq)]
pub struct IdempotencyKey(String);

/// Why a text was refused as an idempotency key.
#[derive(Debug, PartialEq, Eq, Clone, Copy, Structural)]
pub enum IdempotencyKeyError {
    /// The text has [`IdempotencyKey::MAX_LENGHT`] code units or more.
    MaxLenght,
    /// The text is empty.
    Empty,
}

impl View for IdempotencyKey {
    type V = Seq<char>;

    closed spec fn view(&self) -> Seq<char> {
        self.0@
    }
}

impl IdempotencyKey {
    /// Exclusive upper bound on the length of a key, in code units.
    pub const MAX_LENGHT: u16 = 50;

    /// Every key that exists is valid.
    pub closed spec fn wf(&self) -> bool {
        is_valid_key(self.0@)
    }

    /// Validates `s` and wraps it.
    pub fn try_from(s: String) -> (result: Result<IdempotencyKey, IdempotencyKeyError>)
        ensures
            code_units(s@) == 0 <==> result == Err::<IdempotencyKey, _>(IdempotencyKeyError::Empty),
            code_units(s@) >= IdempotencyKey::MAX_LENGHT <==> result == Err::<IdempotencyKey, _>(
                IdempotencyKeyError::MaxLenght,
            ),
            is_valid_key(s@) <==> result is Ok,
            result matches Ok(key) ==> key@ == s@ && key.wf(),
    {
        let length = s.as_str().as_bytes().len();
        if length == 0 {
            Err(IdempotencyKeyError::Empty)
        } else if length >= 50 {
            Err(IdempotencyKeyError::MaxLenght)
        } else {
            Ok(IdempotencyKey(s))
        }
    }

    /// The text of the key.
    pub fn as_ref(&self) -> (text: &str)
        ensures
            text@ == self@,
    {
        self.0.as_str()
    }

    /// The text of the key as an owned string that is borrowed.
    pub fn as_string(&self) -> (text: &String)
        ensures
            text@ == self@,
    {
        &self.0
    }

    /// Gives the text back.
    pub fn into_string(self) -> (text: String)
        ensures
            text@ == self@,
    {
        self.0
    }
}

impl IdempotencyKeyError {
    /// The sentence that describes the error.
    pub fn message(&self) -> (text: String)
        ensures
            *self == IdempotencyKeyError::MaxLenght ==> text@
                == "idempotency key must be shorter than 50"@,
            *self == IdempotencyKeyError::Empty ==> text@ == "idempotency key cannot be empty"@,
    {
        match self {
            IdempotencyKeyError::MaxLenght => String::from_str(
                "idempotency key must be shorter than 50",
            ),
            IdempotencyKeyError::Empty => String::from_str("idempotency key cannot be empty"),
        }
    }
}

} // verus!
