use libnewsletter::authentication::AuthError;
use libnewsletter::domain::new_subscriber::SubscriberParseError;
use libnewsletter::domain::subscriber_name::SubscriberNameParseError;
use libnewsletter::routes::admin::{
    after_validation, check_new_password, logout, password_changed, SUCCESS_MESSAGE,
};
use libnewsletter::routes::login::{login, login_error_redirect, LoginError};
use libnewsletter::routes::subscriptions::{
    confirm, confirmation_email, generate_subscription_token, ConfirmationEmail, SubscriberError,
    SubscriptionConfirmError, TOKEN_LENGTH,
};
use libnewsletter::routes::{flash_messages_html, FlashLevel, FlashMessage, Redirect};

fn redirect(location: &str, level: FlashLevel, content: &str) -> Redirect {
    Redirect {
        location: location.to_string(),
        flash: Some(FlashMessage {
            level,
            content: content.to_string(),
        }),
    }
}

#[test]
fn flash_messages_are_rendered_one_paragraph_each() {
    assert_eq!(flash_messages_html(&vec![]), "");
    assert_eq!(
        flash_messages_html(&vec!["Authentication failed".to_string()]),
        "<p><i>Authentication failed</i></p>\n"
    );
    assert_eq!(
        flash_messages_html(&vec!["one".to_string(), "two".to_string()]),
        "<p><i>one</i></p>\n<p><i>two</i></p>\n"
    );
}

#[test]
fn an_accepted_login_leads_to_the_dashboard() {
    assert_eq!(
        login(Ok(42)),
        Ok((
            42,
            Redirect {
                location: "/admin/dashboard".to_string(),
                flash: None
            }
        ))
    );
}

#[test]
fn a_refused_login_leads_back_to_the_login_page() {
    assert_eq!(
        login(Err(AuthError::InvalidCredentials)),
        Err((
            LoginError::AuthError,
            redirect("/login", FlashLevel::Error, "Authentication failed")
        ))
    );
    assert_eq!(
        login(Err(AuthError::UnexpectedError)),
        Err((
            LoginError::UnexpectedError,
            redirect("/login", FlashLevel::Error, "Something went wrong")
        ))
    );
    assert_eq!(
        login_error_redirect(LoginError::AuthError),
        redirect("/login", FlashLevel::Error, "Authentication failed")
    );
}

#[test]
fn login_errors_map_to_status_codes() {
    assert_eq!(LoginError::AuthError.status_code(), 401);
    assert_eq!(LoginError::UnexpectedError.status_code(), 500);
    assert_eq!(LoginError::from(AuthError::InvalidCredentials), LoginError::AuthError);
    assert_eq!(LoginError::from(AuthError::UnexpectedError), LoginError::UnexpectedError);
}

#[test]
fn the_author_is_told_that_the_issue_was_accepted() {
    assert_eq!(
        SUCCESS_MESSAGE,
        "The newsletter issue has been accepted - emails will go out shortly."
    );
}

#[test]
fn sign_up_errors_map_to_status_codes() {
    assert_eq!(
        SubscriberError::ValidationError(SubscriberParseError::Name(SubscriberNameParseError))
            .status_code(),
        400
    );
    assert_eq!(SubscriberError::UnexpectedError.status_code(), 500);
}

#[test]
fn confirmation_errors_map_to_status_codes() {
    assert_eq!(SubscriptionConfirmError::TokenNotFound.status_code(), 401);
    assert_eq!(SubscriptionConfirmError::UnexpectedError.status_code(), 500);
}

#[test]
fn a_token_that_leads_to_nobody_confirms_nothing() {
    assert_eq!(confirm(Some(9)), Ok(9));
    assert_eq!(confirm(None), Err(SubscriptionConfirmError::TokenNotFound));
}

#[test]
fn a_subscription_token_has_25_letters_and_digits() {
    assert_eq!(TOKEN_LENGTH, 25);
    let mut seen = std::collections::HashSet::new();
    for _ in 0..20 {
        let token = generate_subscription_token();
        assert_eq!(token.chars().count(), 25);
        assert!(token.chars().all(|c| c.is_ascii_alphanumeric()));
        seen.insert(token);
    }
    // Twenty draws of 25 characters out of 62 do not repeat.
    assert_eq!(seen.len(), 20);
}

#[test]
fn a_mismatch_of_the_new_passwords_stops_the_change() {
    assert_eq!(
        check_new_password(&"one".to_string(), &"other".to_string()),
        Some(redirect(
            "/admin/password",
            FlashLevel::Error,
            "You entered two different new passwords - the field values must match."
        ))
    );
    assert_eq!(check_new_password(&"one".to_string(), &"one".to_string()), None);
    assert_eq!(check_new_password(&String::new(), &String::new()), None);
}

#[test]
fn a_wrong_current_password_stops_the_change() {
    assert_eq!(
        after_validation(Err(AuthError::InvalidCredentials)),
        Ok(Some(redirect(
            "/admin/password",
            FlashLevel::Error,
            "The current password is incorrect."
        )))
    );
    assert_eq!(
        after_validation(Err(AuthError::UnexpectedError)),
        Err(AuthError::UnexpectedError)
    );
    assert_eq!(after_validation(Ok(42)), Ok(None));
}

#[test]
fn a_changed_password_is_announced() {
    assert_eq!(
        password_changed(),
        redirect(
            "/admin/password",
            FlashLevel::Error,
            "Your password has been changed."
        )
    );
}

#[test]
fn only_a_caller_who_was_logged_in_is_told_of_the_logout() {
    assert_eq!(
        logout(Some(42)),
        redirect("/login", FlashLevel::Info, "You have successfully logged out.")
    );
    assert_eq!(
        logout(None),
        Redirect {
            location: "/login".to_string(),
            flash: None
        }
    );
}

#[test]
fn the_confirmation_email_is_written_around_the_link() {
    assert_eq!(
        confirmation_email("http://127.0.0.1:8000", "token25"),
        ConfirmationEmail {
            subject: "Welcome!".to_string(),
            html_body: "Welcome to our newsletter!<br />Click <a \
                        href=\"http://127.0.0.1:8000/subscriptions/confirm?subscription_token=token25\">here</a> \
                        to confirm your subscription."
                .to_string(),
            plain_body: "Welcome to our newsletter!\nVisit \
                         http://127.0.0.1:8000/subscriptions/confirm?subscription_token=token25 to \
                         confirm your subscription."
                .to_string(),
        }
    );
}
