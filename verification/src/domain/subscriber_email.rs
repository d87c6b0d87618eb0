//! The address of a subscriber.

use vstd::prelude::*;

verus! {

/// An address that deliveries can be sent to.
#[derive(Debug, PartialEq, Eq)]
pub struct SubscriberEmail(String);

/// A text was refused as an address.
#[derive(Debug, PartialEq, Eq, Clone, Copy, Structural)]
pub struct EmailParseError;

impl View for SubscriberEmail {
    type V = Seq<char>;

    closed spec fn view(&self) -> Seq<char> {
        self.0@
    }
}

/// Whether a text can be used as an address. No text is refused.
pub open spec fn is_valid_email(text: Seq<char>) -> bool {
    true
}

impl SubscriberEmail {
    /// Takes a text as an address, if it can be used as one.
    pub fn parse(email: String) -> (result: Result<SubscriberEmail, EmailParseError>)
        ensures
            result is Ok <==> is_valid_email(email@),
            result matches Ok(parsed) ==> parsed@ == email@,
    {
        Ok(SubscriberEmail(email))
    }

    /// The text of the address.
    pub fn as_ref(&self) -> (text: &str)
        ensures
            text@ == self@,
    {
        self.0.as_str()
    }
}

impl EmailParseError {
    /// The sentence that describes the error.
    pub fn message(&self) -> (text: String)
        ensures
            text@ == "could not parse provided String as a SubscriberEmail"@,
    {
        String::from_str("could not parse provided String as a SubscriberEmail")
    }
}

} // verus!
