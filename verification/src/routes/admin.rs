//! The pages of the administrator.

use crate::authentication::AuthError;
use crate::routes::{FlashLevel, FlashMessage, Redirect};
use vstd::prelude::*;

verus! {

/// Told to an author whose issue has been accepted.
pub const SUCCESS_MESSAGE: &'static str =
    "The newsletter issue has been accepted - emails will go out shortly.";

/// The redirection to the password page, with an error to show there.
fn back_to_password_page(content: &str) -> (redirect: Redirect)
    ensures
        redirect.location@ == "/admin/password"@,
        redirect.flash matches Some(flash) && flash.level == FlashLevel::Error && flash.content@
            == content@,
{
    Redirect {
        location: String::from_str("/admin/password"),
        flash: Some(FlashMessage { level: FlashLevel::Error, content: String::from_str(content) }),
    }
}

/// First step of a change of password: the new password must have been
/// entered twice alike. Where it was not, the caller is sent back.
pub fn check_new_password(new_password: &String, new_password_check: &String) -> (stop: Option<
    Redirect,
>)
    ensures
        new_password@ == new_password_check@ <==> stop is None,
        stop matches Some(redirect) ==> redirect.location@ == "/admin/password"@ && (
        redirect.flash matches Some(flash) && flash.level == FlashLevel::Error && flash.content@
            == "You entered two different new passwords - the field values must match."@),
{
    if *new_password != *new_password_check {
        Some(
            back_to_password_page(
                "You entered two different new passwords - the field values must match.",
            ),
        )
    } else {
        None
    }
}

/// Second step of a change of password, once the current password has been
/// validated: a wrong password sends the caller back, a failed validation
/// is an error, and an accepted password lets the change go on.
pub fn after_validation(validated: Result<u128, AuthError>) -> (result: Result<Option<Redirect>, AuthError>)
    ensures
        match validated {
            Ok(_) => result matches Ok(None),
            Err(AuthError::InvalidCredentials) => result matches Ok(Some(redirect))
                && redirect.location@ == "/admin/password"@ && (redirect.flash matches Some(flash)
                && flash.level == FlashLevel::Error && flash.content@
                == "The current password is incorrect."@),
            Err(AuthError::UnexpectedError) => result == Err::<Option<Redirect>, _>(
                AuthError::UnexpectedError,
            ),
        },
{
    match validated {
        Ok(_) => Ok(None),
        Err(AuthError::InvalidCredentials) => Ok(
            Some(back_to_password_page("The current password is incorrect.")),
        ),
        Err(AuthError::UnexpectedError) => Err(AuthError::UnexpectedError),
    }
}

/// Last step of a change of password: the caller is sent back and told
/// that the password has been changed.
pub fn password_changed() -> (redirect: Redirect)
    ensures
        redirect.location@ == "/admin/password"@,
        redirect.flash matches Some(flash) && flash.level == FlashLevel::Error && flash.content@
            == "Your password has been changed."@,
{
    back_to_password_page("Your password has been changed.")
}

/// Logs a caller out: any caller is sent to the login page, and one who was
/// logged in is told so.
pub fn logout(session_user_id: Option<u128>) -> (redirect: Redirect)
    ensures
        redirect.location@ == "/login"@,
        session_user_id is None <==> redirect.flash is None,
        redirect.flash matches Some(flash) ==> flash.level == FlashLevel::Info && flash.content@
            == "You have successfully logged out."@,
{
    match session_user_id {
        None => Redirect { location: String::from_str("/login"), flash: None },
        Some(_) => Redirect {
            location: String::from_str("/login"),
            flash: Some(
                FlashMessage {
                    level: FlashLevel::Info,
                    content: String::from_str("You have successfully logged out."),
                },
            ),
        },
    }
}

} // verus!
