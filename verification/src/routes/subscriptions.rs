//! Signing up for the newsletter, and confirming the subscription.

use crate::domain::new_subscriber::SubscriberParseError;
use rand::Rng;
use vstd::prelude::*;

verus! {

/// Whether a character is an ASCII letter or an ASCII digit.
pub open spec fn is_ascii_alphanumeric(c: char) -> bool {
    ||| 'a' as u32 <= c as u32 <= 'z' as u32
    ||| 'A' as u32 <= c as u32 <= 'Z' as u32
    ||| '0' as u32 <= c as u32 <= '9' as u32
}

/// The number of characters of a subscription token.
pub const TOKEN_LENGTH: usize = 25;

/// Asks the random generator of the current thread, of the crate rand, for
/// one character of its distribution `Alphanumeric`: an ASCII letter or an
/// ASCII digit. Which one is left to chance.
#[verifier::external_body]
fn sample_alphanumeric() -> (text: String)
    ensures
        text@.len() == 1,
        is_ascii_alphanumeric(text@[0]),
{
    String::from(char::from(rand::thread_rng().sample(rand::distributions::Alphanumeric)))
}

/// Draws a subscription token: 25 random characters, each an ASCII letter
/// or an ASCII digit.
pub fn generate_subscription_token() -> (token: String)
    ensures
        token@.len() == TOKEN_LENGTH,
        forall|i: int| 0 <= i < token@.len() ==> is_ascii_alphanumeric(#[trigger] token@[i]),
{
    let mut token = String::new();
    let mut drawn: usize = 0;
    while drawn < TOKEN_LENGTH
        invariant
            drawn <= TOKEN_LENGTH,
            token@.len() == drawn,
            forall|i: int| 0 <= i < token@.len() ==> is_ascii_alphanumeric(#[trigger] token@[i]),
        decreases TOKEN_LENGTH - drawn,
    {
        let next = sample_alphanumeric();
        token.append(next.as_str());
        drawn += 1;
    }
    token
}

/// The email that asks a new subscriber to confirm.
#[derive(Debug, PartialEq, Eq)]
pub struct ConfirmationEmail {
    pub subject: String,
    pub html_body: String,
    pub plain_body: String,
}

/// The link that confirms the subscription with the given token.
pub open spec fn confirmation_link(base_url: Seq<char>, subscription_token: Seq<char>) -> Seq<char> {
    base_url + "/subscriptions/confirm?subscription_token="@ + subscription_token
}

/// Writes the email that asks a new subscriber to confirm: a welcome, and
/// the link to follow, as plain text and as HTML.
pub fn confirmation_email(base_url: &str, subscription_token: &str) -> (email: ConfirmationEmail)
    ensures
        email.subject@ == "Welcome!"@,
        email.plain_body@ == "Welcome to our newsletter!\nVisit "@ + confirmation_link(
            base_url@,
            subscription_token@,
        ) + " to confirm your subscription."@,
        email.html_body@ == "Welcome to our newsletter!<br />Click <a href=\""@
            + confirmation_link(base_url@, subscription_token@)
            + "\">here</a> to confirm your subscription."@,
{
    let mut confirmation_link = String::from_str(base_url);
    confirmation_link.append("/subscriptions/confirm?subscription_token=");
    confirmation_link.append(subscription_token);
    let mut plain_body = String::from_str("Welcome to our newsletter!\nVisit ");
    plain_body.append(confirmation_link.as_str());
    plain_body.append(" to confirm your subscription.");
    let mut html_body = String::from_str("Welcome to our newsletter!<br />Click <a href=\"");
    html_body.append(confirmation_link.as_str());
    html_body.append("\">here</a> to confirm your subscription.");
    ConfirmationEmail { subject: String::from_str("Welcome!"), html_body, plain_body }
}

/// Why a sign-up failed.
#[derive(Debug, PartialEq, Eq, Clone, Copy, Structural)]
pub enum SubscriberError {
    /// The form was refused.
    ValidationError(SubscriberParseError),
    /// The sign-up itself failed.
    UnexpectedError,
}

impl SubscriberError {
    /// The status code that reports the error: 400 for a form that was
    /// refused, 500 for everything else.
    pub fn status_code(&self) -> (code: u16)
        ensures
            code == (if *self is ValidationError {
                400u16
            } else {
                500u16
            }),
    {
        match self {
            SubscriberError::ValidationError(_) => 400,
            SubscriberError::UnexpectedError => 500,
        }
    }
}

/// Why a subscription was not confirmed.
#[derive(Debug, PartialEq, Eq, Clone, Copy, Structural)]
pub enum SubscriptionConfirmError {
    /// No subscriber has the token.
    TokenNotFound,
    /// The confirmation itself failed.
    UnexpectedError,
}

impl SubscriptionConfirmError {
    /// The status code that reports the error: 401 for an unknown token,
    /// 500 for everything else.
    pub fn status_code(&self) -> (code: u16)
        ensures
            code == match *self {
                SubscriptionConfirmError::TokenNotFound => 401u16,
                SubscriptionConfirmError::UnexpectedError => 500u16,
            },
    {
        match self {
            SubscriptionConfirmError::TokenNotFound => 401,
            SubscriptionConfirmError::UnexpectedError => 500,
        }
    }
}

/// Decides on a confirmation from what the token led to: the subscriber to
/// confirm, or nobody.
pub fn confirm(subscriber_id: Option<u128>) -> (result: Result<u128, SubscriptionConfirmError>)
    ensures
        result == match subscriber_id {
            Some(id) => Ok::<u128, SubscriptionConfirmError>(id),
            None => Err::<u128, _>(SubscriptionConfirmError::TokenNotFound),
        },
{
    match subscriber_id {
        Some(id) => Ok(id),
        None => Err(SubscriptionConfirmError::TokenNotFound),
    }
}

} // verus!
