//! The token-verification handler.

use auth_service::AppState;
use auth_service::domain::AuthAPIError;
use auth_service::routes::login::{LoginParams, LoginResponse, login};
use auth_service::routes::signup::{SignUpParams, signup};
use auth_service::routes::verify_token::{VerifyTokenParams, verify_token};
use auth_service::services::hashmap_2fa_token_store::HashMap2FaTokenStore;
use auth_service::services::hashmap_user_store::HashMapUserStore;
use auth_service::services::hashset_banned_token_store::HashSetBannedTokenStore;
use auth_service::services::mock_email_client::MockEmailClient;

type App = AppState<HashMapUserStore, HashSetBannedTokenStore, HashMap2FaTokenStore, MockEmailClient>;

const NOW: u64 = 1700000000;

fn new_app() -> App {
    AppState::new(
        HashMapUserStore::new(),
        HashSetBannedTokenStore::new(),
        HashMap2FaTokenStore::new(),
        MockEmailClient::new(),
        "test signing secret".as_bytes().to_vec(),
    )
}

fn signed_in_cookie(app: &mut App, email: &str, password: &str) -> String {
    let signup_params = SignUpParams {
        email: email.to_string(),
        password: password.to_string(),
        requires_2fa: false,
    };
    signup(app, &signup_params).expect("signup succeeds");
    let login_params = LoginParams {
        email: email.to_string(),
        password: password.to_string(),
    };
    match login(app, &login_params, NOW) {
        Ok(LoginResponse::RegularAuth { auth_cookie }) => auth_cookie,
        other => panic!("expected a session cookie, got {:?}", other),
    }
}

#[test]
fn verify_token_is_invalid() {
    let app = new_app();

    let params = VerifyTokenParams { token: "invalid".to_string() };
    let err = verify_token(&app, &params, NOW).expect_err("an invalid token must fail");
    assert_eq!(err, AuthAPIError::InvalidToken);
    assert_eq!(err.status_code(), 401);
}

#[test]
fn verify_token_is_valid() {
    let mut app = new_app();

    let cookie = signed_in_cookie(&mut app, "user@example.com", "password");

    let params = VerifyTokenParams { token: cookie };
    assert!(verify_token(&app, &params, NOW).is_ok());
}

#[test]
fn verify_token_rejects_an_expired_token() {
    let mut app = new_app();

    let cookie = signed_in_cookie(&mut app, "user@example.com", "password");
    let params = VerifyTokenParams { token: cookie };

    // the validity window is 600 seconds from issuance
    assert!(verify_token(&app, &params, NOW + 599).is_ok());
    let err = verify_token(&app, &params, NOW + 600).expect_err("expired token must fail");
    assert_eq!(err, AuthAPIError::InvalidToken);
}

#[test]
fn verify_token_rejects_a_tampered_token() {
    let mut app = new_app();

    let cookie = signed_in_cookie(&mut app, "user@example.com", "password");

    // flip one character of the payload segment
    let mut bytes = cookie.clone().into_bytes();
    let first_dot = bytes.iter().position(|&b| b == b'.').unwrap();
    let target = first_dot + 1;
    bytes[target] = if bytes[target] == b'A' { b'B' } else { b'A' };
    let tampered = String::from_utf8(bytes).unwrap();
    assert_ne!(tampered, cookie);

    let params = VerifyTokenParams { token: tampered };
    let err = verify_token(&app, &params, NOW).expect_err("a tampered token must fail");
    assert_eq!(err, AuthAPIError::InvalidToken);
}

#[test]
fn verify_token_rejects_a_token_under_another_secret() {
    let mut app = new_app();
    let mut other = AppState::new(
        HashMapUserStore::new(),
        HashSetBannedTokenStore::new(),
        HashMap2FaTokenStore::new(),
        MockEmailClient::new(),
        "a different secret".as_bytes().to_vec(),
    );

    let cookie = signed_in_cookie(&mut other, "user@example.com", "password");
    signed_in_cookie(&mut app, "user@example.com", "password");

    let params = VerifyTokenParams { token: cookie };
    let err = verify_token(&app, &params, NOW).expect_err("foreign signature must fail");
    assert_eq!(err, AuthAPIError::InvalidToken);
}
