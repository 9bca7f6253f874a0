//! The challenge-verification handler.

use auth_service::AppState;
use auth_service::domain::AuthAPIError;
use auth_service::domain::Email;
use auth_service::domain::data_stores::{LoginAttemptId, TwoFACode, TwoFACodeStore};
use auth_service::routes::verify_2fa::{Verify2FAParams, verify_2fa};
use auth_service::services::hashmap_2fa_token_store::HashMap2FaTokenStore;
use auth_service::services::hashmap_user_store::HashMapUserStore;
use auth_service::services::hashset_banned_token_store::HashSetBannedTokenStore;
use auth_service::services::mock_email_client::MockEmailClient;

type App = AppState<HashMapUserStore, HashSetBannedTokenStore, HashMap2FaTokenStore, MockEmailClient>;

const NOW: u64 = 1700000000;

fn new_app() -> App {
    AppState::new(
        HashMapUserStore::new(),
        HashSetBannedTokenStore::new(),
        HashMap2FaTokenStore::new(),
        MockEmailClient::new(),
        "test signing secret".as_bytes().to_vec(),
    )
}

fn params(email: &str, login_attempt_id: &str, code: &str) -> Verify2FAParams {
    Verify2FAParams {
        email: email.to_string(),
        login_attempt_id: login_attempt_id.to_string(),
        code: code.to_string(),
    }
}

#[test]
fn should_return_400_for_invalid_inputs() {
    let mut app = new_app();

    let test_cases = [
        params("user@example.com", "12311", "111111"),
        params("example.com", "12311", "111111"),
        params("example.com", "", "111111"),
    ];

    for test_case in test_cases.iter() {
        let err = verify_2fa(&mut app, test_case, NOW).expect_err("must fail");
        assert_eq!(err, AuthAPIError::InvalidCredentials);
        assert_eq!(err.status_code(), 400);
    }
}

#[test]
fn should_return_401_for_incorrect_credentials() {
    let mut app = new_app();

    let login_attempt = LoginAttemptId::default();
    let code = TwoFACode::default();
    let email = Email::parse("user@example.com").expect("setup email");

    app.two_fa_code_store
        .add_code(email.clone(), login_attempt.clone(), code.clone())
        .expect("to insert 2FA Code");

    let test_cases = [
        params("other_user@example.com", login_attempt.as_str(), code.as_str()),
        params(
            email.as_str(),
            LoginAttemptId::default().as_str(),
            code.as_str(),
        ),
    ];

    for test_case in test_cases.iter() {
        let err = verify_2fa(&mut app, test_case, NOW).expect_err("must fail");
        assert_eq!(err, AuthAPIError::IncorrectCredentials);
        assert_eq!(err.status_code(), 401);
    }
}

#[test]
fn should_return_200_for_correct_credentials() {
    let mut app = new_app();

    let login_attempt = LoginAttemptId::default();
    let code = TwoFACode::default();
    let email = Email::parse("user@example.com").expect("setup email");

    app.two_fa_code_store
        .add_code(email.clone(), login_attempt.clone(), code.clone())
        .expect("to insert 2FA Code");

    let test_case = params(email.as_str(), login_attempt.as_str(), code.as_str());

    let auth_cookie = verify_2fa(&mut app, &test_case, NOW).expect("verification succeeds");
    assert!(!auth_cookie.is_empty());
}

#[test]
fn should_return_401_for_calling_twice() {
    let mut app = new_app();

    let login_attempt = LoginAttemptId::default();
    let code = TwoFACode::default();
    let email = Email::parse("user@example.com").expect("setup email");

    app.two_fa_code_store
        .add_code(email.clone(), login_attempt.clone(), code.clone())
        .expect("to insert 2FA Code");

    let test_case = params(email.as_str(), login_attempt.as_str(), code.as_str());

    assert!(verify_2fa(&mut app, &test_case, NOW).is_ok());

    // 2nd call
    let err = verify_2fa(&mut app, &test_case, NOW).expect_err("challenge is single use");
    assert_eq!(err, AuthAPIError::IncorrectCredentials);
    assert_eq!(err.status_code(), 401);
}

#[test]
fn mismatched_code_leaves_challenge_intact() {
    let mut app = new_app();

    let login_attempt = LoginAttemptId::default();
    let code = TwoFACode::parse("123456".to_string()).unwrap();
    let wrong_code = TwoFACode::parse("654321".to_string()).unwrap();
    let email = Email::parse("user@example.com").expect("setup email");

    app.two_fa_code_store
        .add_code(email.clone(), login_attempt.clone(), code.clone())
        .expect("to insert 2FA Code");

    let wrong = params(email.as_str(), login_attempt.as_str(), wrong_code.as_str());
    assert!(verify_2fa(&mut app, &wrong, NOW).is_err());

    // the challenge is still there and the right pair still works
    let right = params(email.as_str(), login_attempt.as_str(), code.as_str());
    assert!(verify_2fa(&mut app, &right, NOW).is_ok());
}
