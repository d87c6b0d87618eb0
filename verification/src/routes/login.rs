//! Logging in.

use crate::authentication::AuthError;
use crate::routes::{FlashLevel, FlashMessage, Redirect};
use vstd::prelude::*;

verus! {

/// Why a login failed.
#[derive(Debug, PartialEq, Eq, Clone, Copy, Structural)]
pub enum LoginError {
    /// The credentials were refused.
    AuthError,
    /// The login itself failed.
    UnexpectedError,
}

impl LoginError {
    /// The login error that stands for a failed validation.
    pub fn from(err: AuthError) -> (error: LoginError)
        ensures
            error == match err {
                AuthError::InvalidCredentials => LoginError::AuthError,
                AuthError::UnexpectedError => LoginError::UnexpectedError,
            },
    {
        match err {
            AuthError::InvalidCredentials => LoginError::AuthError,
            AuthError::UnexpectedError => LoginError::UnexpectedError,
        }
    }

    /// The status code that reports the error: 401 for refused
    /// credentials, 500 for everything else.
    pub fn status_code(&self) -> (code: u16)
        ensures
            code == match *self {
                LoginError::UnexpectedError => 500u16,
                LoginError::AuthError => 401u16,
            },
    {
        match self {
            LoginError::UnexpectedError => 500,
            LoginError::AuthError => 401,
        }
    }

    /// The sentence that describes the error.
    pub fn message(&self) -> (text: String)
        ensures
            text@ == match *self {
                LoginError::AuthError => "Authentication failed"@,
                LoginError::UnexpectedError => "Something went wrong"@,
            },
    {
        match self {
            LoginError::AuthError => String::from_str("Authentication failed"),
            LoginError::UnexpectedError => String::from_str("Something went wrong"),
        }
    }
}

/// Sends a caller whose login failed back to the login page, with the
/// error as a flash message.
pub fn login_error_redirect(err: LoginError) -> (redirect: Redirect)
    ensures
        redirect.location@ == "/login"@,
        redirect.flash matches Some(flash) && flash.level == FlashLevel::Error && flash.content@
            == match err {
            LoginError::AuthError => "Authentication failed"@,
            LoginError::UnexpectedError => "Something went wrong"@,
        },
{
    Redirect {
        location: String::from_str("/login"),
        flash: Some(FlashMessage { level: FlashLevel::Error, content: err.message() }),
    }
}

/// Decides where a login ends: on the dashboard for a caller whose
/// credentials were accepted, back on the login page for any other.
pub fn login(validated: Result<u128, AuthError>) -> (result: Result<(u128, Redirect), (
    LoginError,
    Redirect,
)>)
    ensures
        match validated {
            Ok(user_id) => result matches Ok((id, redirect)) && id == user_id
                && redirect.location@ == "/admin/dashboard"@ && redirect.flash is None,
            Err(err) => result matches Err((error, redirect)) && error == (match err {
                AuthError::InvalidCredentials => LoginError::AuthError,
                AuthError::UnexpectedError => LoginError::UnexpectedError,
            }) && redirect.location@ == "/login"@ && redirect.flash is Some,
        },
{
    match validated {
        Ok(user_id) => Ok(
            (user_id, Redirect { location: String::from_str("/admin/dashboard"), flash: None }),
        ),
        Err(err) => {
            let error = LoginError::from(err);
            Err((error, login_error_redirect(error)))
        },
    }
}

} // verus!
