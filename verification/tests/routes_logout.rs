//! The logout handler.

use auth_service::AppState;
use auth_service::domain::AuthAPIError;
use auth_service::routes::login::{LoginParams, LoginResponse, login};
use auth_service::routes::logout::logout;
use auth_service::routes::signup::{SignUpParams, signup};
use auth_service::routes::verify_token::{VerifyTokenParams, verify_token};
use auth_service::services::hashmap_2fa_token_store::HashMap2FaTokenStore;
use auth_service::services::hashmap_user_store::HashMapUserStore;
use auth_service::services::hashset_banned_token_store::HashSetBannedTokenStore;
use auth_service::services::mock_email_client::MockEmailClient;

type App = AppState<HashMapUserStore, HashSetBannedTokenStore, HashMap2FaTokenStore, MockEmailClient>;

const NOW: u64 = 1700000000;

fn new_app() -> App {
    AppState::new(
        HashMapUserStore::new(),
        HashSetBannedTokenStore::new(),
        HashMap2FaTokenStore::new(),
        MockEmailClient::new(),
        "test signing secret".as_bytes().to_vec(),
    )
}

/// Creates an account without a second factor and logs in, handing back the
/// session cookie value.
fn signed_in_cookie(app: &mut App, email: &str, password: &str) -> String {
    let signup_params = SignUpParams {
        email: email.to_string(),
        password: password.to_string(),
        requires_2fa: false,
    };
    signup(app, &signup_params).expect("signup succeeds");
    let login_params = LoginParams {
        email: email.to_string(),
        password: password.to_string(),
    };
    match login(app, &login_params, NOW) {
        Ok(LoginResponse::RegularAuth { auth_cookie }) => auth_cookie,
        other => panic!("expected a session cookie, got {:?}", other),
    }
}

#[test]
fn should_return_400_if_jwt_cookie_missing() {
    let mut app = new_app();

    let err = logout(&mut app, None, NOW).expect_err("logout without a cookie must fail");
    assert_eq!(err, AuthAPIError::MissingToken);
    assert_eq!(err.status_code(), 400);
}

#[test]
fn should_return_401_if_invalid_token() {
    let mut app = new_app();

    let err = logout(&mut app, Some("invalid"), NOW).expect_err("an invalid token must fail");
    assert_eq!(err, AuthAPIError::InvalidToken);
    assert_eq!(err.status_code(), 401);
}

#[test]
fn should_return_200_if_valid_jwt_cookie() {
    let mut app = new_app();

    let cookie = signed_in_cookie(&mut app, "user@example.com", "password");

    assert!(logout(&mut app, Some(&cookie), NOW).is_ok());
}

#[test]
fn should_return_400_if_logout_called_twice_in_a_row() {
    let mut app = new_app();

    let cookie = signed_in_cookie(&mut app, "user@example.com", "password");

    // logout; the client-side cookie is cleared with it
    assert!(logout(&mut app, Some(&cookie), NOW).is_ok());

    // logout again, now without a cookie
    let err = logout(&mut app, None, NOW).expect_err("second logout must fail");
    assert_eq!(err, AuthAPIError::MissingToken);
    assert_eq!(err.status_code(), 400);
}

#[test]
fn logout_does_not_consult_the_revocation_set() {
    let mut app = new_app();

    let cookie = signed_in_cookie(&mut app, "user@example.com", "password");

    assert!(logout(&mut app, Some(&cookie), NOW).is_ok());
    // a client that kept the still-unexpired token can present it again
    assert!(logout(&mut app, Some(&cookie), NOW).is_ok());
}

#[test]
fn logout_revokes_the_token_for_verification() {
    let mut app = new_app();

    let cookie = signed_in_cookie(&mut app, "user@example.com", "password");
    let params = VerifyTokenParams { token: cookie.clone() };

    assert!(verify_token(&app, &params, NOW).is_ok());

    assert!(logout(&mut app, Some(&cookie), NOW).is_ok());

    // rejected although its expiry window is still open
    let err = verify_token(&app, &params, NOW).expect_err("revoked token must fail");
    assert_eq!(err, AuthAPIError::InvalidToken);
    assert_eq!(err.status_code(), 401);
}
