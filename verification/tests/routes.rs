//! The route-level pieces: key validation, error mapping, the session check,
//! the login page, and the subscribe route's helpers.

use newsletter::auth::{reject_anonymous_users, Userid};
use newsletter::confirm::{confirm, ConfirmationError};
use newsletter::key::{IdempotencyKey, ValidationError};
use newsletter::login::{login, login_form, FormData as LoginForm, QueryParam};
use newsletter::newsletters::PublishError as DeliveryError;
use newsletter::publish::{success_message, PublishError};
use newsletter::subscriptions::{
    confirmation_email_content, error_chain_fmt, generate_subscription_token, StoreTokenError,
    SubscribeError,
};

#[test]
fn empty_key_fails_validation() {
    match IdempotencyKey::parse(String::new()) {
        Err(ValidationError::EmptyKey) => {}
        _ => panic!("an empty key must be rejected as empty"),
    }
}

#[test]
fn overlong_key_fails_validation() {
    match IdempotencyKey::parse("a".repeat(51)) {
        Err(ValidationError::OverlongKey) => {}
        _ => panic!("a 51-character key must be rejected as overlong"),
    }
}

#[test]
fn valid_key_is_kept_verbatim() {
    let key = IdempotencyKey::parse("abc123".to_string()).expect("six characters are fine");
    assert_eq!(key.as_str(), "abc123");
    let bound = IdempotencyKey::parse("a".repeat(50)).expect("fifty characters are fine");
    assert_eq!(bound.as_str(), "a".repeat(50));
}

#[test]
fn anonymous_users_are_sent_to_login() {
    let redirect = match reject_anonymous_users(None) {
        Err(response) => response,
        Ok(_) => panic!("an anonymous request must be redirected"),
    };
    assert_eq!(redirect.status_code, 303);
    assert_eq!(redirect.headers[0].name, b"Location".to_vec());
    assert_eq!(redirect.headers[0].value, b"/login".to_vec());

    let user = reject_anonymous_users(Some(Userid::new(42))).expect("a session user proceeds");
    assert_eq!(user.value(), 42);
}

#[test]
fn publish_errors_map_to_their_responses() {
    let internal = PublishError::UnexpectedError("boom".to_string()).error_response();
    assert_eq!(internal.status_code, 500);
    assert!(internal.headers.is_empty());
    assert!(internal.body.is_empty());

    let auth = PublishError::AuthError("bad credentials".to_string()).error_response();
    assert_eq!(auth.status_code, 401);
    assert_eq!(auth.headers[0].name, b"WWW-Authenticate".to_vec());
    assert_eq!(auth.headers[0].value, b"Basic realm=\"publish\"".to_vec());

    assert_eq!(DeliveryError::UnexpectedError("boom".to_string()).status_code(), 500);
}

#[test]
fn subscribe_errors_map_to_their_statuses() {
    assert_eq!(SubscribeError::ValidationError("bad name".to_string()).status_code(), 400);
    assert_eq!(SubscribeError::DatabaseError("connection lost".to_string()).status_code(), 500);
    assert_eq!(
        SubscribeError::StoreTokenError(StoreTokenError("insert failed".to_string())).status_code(),
        500
    );
    assert_eq!(SubscribeError::SendEmailError("timeout".to_string()).status_code(), 500);
    assert_eq!(
        StoreTokenError("insert failed".to_string()).message(),
        "A database failure was encountered while trying to store a subscription token."
    );

    match SubscribeError::from("empty name".to_string()) {
        SubscribeError::ValidationError(message) => assert_eq!(message, "empty name"),
        _ => panic!("a raw message converts to a validation error"),
    }
    match SubscribeError::from(StoreTokenError("insert failed".to_string())) {
        SubscribeError::StoreTokenError(_) => {}
        _ => panic!("a token error keeps its variant"),
    }
}

#[test]
fn confirmation_outcomes_follow_the_lookup() {
    match confirm(Ok(Some(7))) {
        Ok((subscriber_id, response)) => {
            assert_eq!(subscriber_id, 7);
            assert_eq!(response.status_code, 200);
            assert!(response.headers.is_empty());
            assert!(response.body.is_empty());
        }
        Err(_) => panic!("a found subscriber confirms"),
    }
    match confirm(Ok(None)) {
        Err(ConfirmationError::UnknownToken) => {}
        _ => panic!("an unknown token is rejected"),
    }
    match confirm(Err("connection lost".to_string())) {
        Err(ConfirmationError::UnexpectedError(message)) => {
            assert_eq!(message, "connection lost")
        }
        _ => panic!("a storage failure surfaces"),
    }
    assert_eq!(ConfirmationError::UnknownToken.status_code(), 401);
    assert_eq!(ConfirmationError::UnexpectedError("x".to_string()).status_code(), 500);
}

#[test]
fn error_chain_renders_outermost_first() {
    let rendered = error_chain_fmt(
        &"Failed to create a new subscriber.".to_string(),
        &vec!["connection reset".to_string(), "broken pipe".to_string()],
    );
    assert_eq!(
        rendered,
        "Failed to create a new subscriber.\n\n\
         Caused by:\n\tconnection reset\n\
         Caused by:\n\tbroken pipe\n"
    );
    assert_eq!(error_chain_fmt(&"top".to_string(), &Vec::new()), "top\n\n");
}

#[test]
fn subscription_tokens_are_25_alphanumeric_characters() {
    let token = generate_subscription_token();
    assert_eq!(token.chars().count(), 25);
    assert!(token.chars().all(|c| c.is_ascii_alphanumeric()));
    // Two draws almost surely differ; equal draws would suggest the sampler
    // ignores the generator entirely.
    assert_ne!(generate_subscription_token(), generate_subscription_token());
}

#[test]
fn confirmation_email_carries_the_link() {
    let email = confirmation_email_content("https://newsletter.example", "mytoken123");
    assert_eq!(email.subject, "Welcome!");
    assert_eq!(
        email.confirmation_link,
        "https://newsletter.example/subscriptions/confirm?subscription_token=mytoken123"
    );
    assert_eq!(
        email.plain_text,
        "Welcome to our newsletter!\nVisit https://newsletter.example/subscriptions/confirm?subscription_token=mytoken123 to confirm your subscription."
    );
    assert_eq!(
        email.html_text,
        "Welcome to our newsletter!<br />Click <a href=\"https://newsletter.example/subscriptions/confirm?subscription_token=mytoken123\"here</a> to confirm your subscription."
    );
}

#[test]
fn login_page_shows_the_error_only_when_given() {
    let plain = login_form(QueryParam { error: None });
    assert!(plain.starts_with("<!DOCTYPE html>"));
    assert!(plain.contains("<title>Login</title>"));
    assert!(!plain.contains("<p><i>"));

    let with_error = login_form(QueryParam { error: Some("Authentication failed".to_string()) });
    assert!(with_error.contains("<p><i>Authentication failed</i></p>"));
    assert!(with_error.ends_with("</html>"));
}

#[test]
fn login_submission_redirects_home() {
    let response = login(LoginForm {
        username: "admin".to_string(),
        password: "everythinghastostartsomewhere".to_string(),
    });
    assert_eq!(response.status_code, 303);
    assert_eq!(response.headers[0].name, b"Location".to_vec());
    assert_eq!(response.headers[0].value, b"/".to_vec());
}

#[test]
fn success_message_matches_the_flash_text() {
    assert_eq!(success_message(), "The newsletter issue has been published!");
}
