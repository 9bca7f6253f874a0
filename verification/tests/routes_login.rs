//! The login handler.

use auth_service::AppState;
use auth_service::domain::AuthAPIError;
use auth_service::domain::data_stores::TwoFACodeStore;
use auth_service::routes::login::{LoginParams, LoginResponse, login};
use auth_service::routes::signup::{SignUpParams, signup};
use auth_service::services::hashmap_2fa_token_store::HashMap2FaTokenStore;
use auth_service::services::hashmap_user_store::HashMapUserStore;
use auth_service::services::hashset_banned_token_store::HashSetBannedTokenStore;
use auth_service::services::mock_email_client::MockEmailClient;
use uuid::Uuid;

type App = AppState<HashMapUserStore, HashSetBannedTokenStore, HashMap2FaTokenStore, MockEmailClient>;

const NOW: u64 = 1700000000;

fn new_app() -> App {
    AppState::new(
        HashMapUserStore::new(),
        HashSetBannedTokenStore::new(),
        HashMap2FaTokenStore::new(),
        MockEmailClient::new(),
        "test signing secret".as_bytes().to_vec(),
    )
}

fn get_random_email() -> String {
    format!("{}@example.com", Uuid::new_v4())
}

fn do_signup(app: &mut App, email: &str, password: &str, requires_2fa: bool) {
    let params = SignUpParams {
        email: email.to_string(),
        password: password.to_string(),
        requires_2fa,
    };
    signup(app, &params).expect("signup succeeds");
}

fn do_login(app: &mut App, email: &str, password: &str) -> Result<LoginResponse, AuthAPIError> {
    let params = LoginParams {
        email: email.to_string(),
        password: password.to_string(),
    };
    login(app, &params, NOW)
}

#[test]
fn should_return_200_if_valid_credentials_and_2fa_disabled() {
    let mut app = new_app();

    let random_email = get_random_email();
    do_signup(&mut app, &random_email, "password123", false);

    match do_login(&mut app, &random_email, "password123") {
        Ok(LoginResponse::RegularAuth { auth_cookie }) => {
            assert!(!auth_cookie.is_empty());
        }
        other => panic!("expected a session cookie, got {:?}", other),
    }
}

#[test]
fn should_return_400_if_invalid_credentials() {
    let mut app = new_app();

    let test_cases = [("user", "password"), ("user@example.com", "")];

    for (email, password) in test_cases.iter() {
        let err = do_login(&mut app, email, password).expect_err("login must fail");
        assert_eq!(err, AuthAPIError::InvalidCredentials);
        assert_eq!(err.status_code(), 400);
    }
}

#[test]
fn should_return_401_if_incorrect_credentials() {
    let mut app = new_app();

    do_signup(&mut app, "user@example.com", "password", true);

    let test_cases = [
        // wrong password
        ("user@example.com", "wrong_password"),
        // user does not exist
        ("other_user@example.com", "password"),
    ];

    for (email, password) in test_cases.iter() {
        let err = do_login(&mut app, email, password).expect_err("login must fail");
        assert_eq!(err, AuthAPIError::IncorrectCredentials);
        assert_eq!(err.status_code(), 401);
    }
}

#[test]
fn incorrect_credentials_are_indistinguishable() {
    let mut app = new_app();

    do_signup(&mut app, "known@example.com", "password", false);

    let unknown = do_login(&mut app, "ghost@example.com", "password")
        .expect_err("unknown email must fail");
    let wrong = do_login(&mut app, "known@example.com", "wrong_password")
        .expect_err("wrong password must fail");

    assert_eq!(unknown, wrong);
    assert_eq!(unknown.status_code(), wrong.status_code());
    assert_eq!(unknown.error_message(), wrong.error_message());
}

#[test]
fn login_with_2fa_issues_challenge_and_sends_code() {
    let mut app = new_app();

    let email_str = get_random_email();
    do_signup(&mut app, &email_str, "password123", true);

    let attempt_id = match do_login(&mut app, &email_str, "password123") {
        Ok(LoginResponse::TwoFactorAuth(resp)) => {
            assert_eq!(resp.message, "2FA required");
            resp.login_attempt_id
        }
        other => panic!("expected a two-factor challenge, got {:?}", other),
    };

    let email = auth_service::domain::Email::parse(&email_str).unwrap();
    let (stored_id, stored_code) = app
        .two_fa_code_store
        .get_code(&email)
        .expect("one challenge is stored");
    assert_eq!(stored_id.as_str(), attempt_id);

    assert_eq!(app.email_client.sent_count(), 1);
    let body = app.email_client.last_body().expect("one mail went out");
    assert_eq!(body, &format!("The 2FA code is : {}", stored_code.as_str()));
}

#[test]
fn second_login_overwrites_challenge() {
    let mut app = new_app();

    let email_str = get_random_email();
    do_signup(&mut app, &email_str, "password123", true);
    let email = auth_service::domain::Email::parse(&email_str).unwrap();

    do_login(&mut app, &email_str, "password123").expect("first login succeeds");
    let first = app.two_fa_code_store.get_code(&email).expect("first challenge");

    do_login(&mut app, &email_str, "password123").expect("second login succeeds");
    let second = app.two_fa_code_store.get_code(&email).expect("second challenge");

    assert_ne!(first.0, second.0, "a fresh attempt identifier is drawn");
    assert_eq!(
        app.two_fa_code_store.get_code(&email).expect("only one challenge"),
        second
    );
}
