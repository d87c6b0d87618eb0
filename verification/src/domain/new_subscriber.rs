//! A subscriber that has just signed up.

use crate::domain::subscriber_email::{is_valid_email, EmailParseError, SubscriberEmail};
use crate::domain::subscriber_name::{is_valid_name, SubscriberName, SubscriberNameParseError};
use vstd::prelude::*;

verus! {

/// The validated details of a new subscriber.
#[derive(Debug, PartialEq, Eq)]
pub struct NewSubscriber {
    pub email: SubscriberEmail,
    pub name: SubscriberName,
}

/// Which of the details of a new subscriber was refused.
#[derive(Debug, PartialEq, Eq, Clone, Copy, Structural)]
pub enum SubscriberParseError {
    Email(EmailParseError),
    Name(SubscriberNameParseError),
}

impl NewSubscriber {
    /// Validates what a sign-up form holds: the address first, then the name.
    pub fn try_from_form(email: String, name: String) -> (result: Result<
        NewSubscriber,
        SubscriberParseError,
    >)
        ensures
            match result {
                Ok(subscriber) => {
                    &&& is_valid_email(email@)
                    &&& is_valid_name(name@)
                    &&& subscriber.email@ == email@
                    &&& subscriber.name@ == name@
                },
                Err(SubscriberParseError::Email(_)) => !is_valid_email(email@),
                Err(SubscriberParseError::Name(_)) => is_valid_email(email@) && !is_valid_name(
                    name@,
                ),
            },
    {
        let email = match SubscriberEmail::parse(email) {
            Ok(email) => email,
            Err(error) => {
                return Err(SubscriberParseError::Email(error));
            },
        };
        let name = match SubscriberName::parse(name) {
            Ok(name) => name,
            Err(error) => {
                return Err(SubscriberParseError::Name(error));
            },
        };
        Ok(NewSubscriber { email, name })
    }
}

} // verus!
