//! The in-memory two-factor challenge store.

use auth_service::domain::Email;
use auth_service::domain::data_stores::{
    LoginAttemptId, TwoFACode, TwoFACodeStore, TwoFACodeStoreError,
};
use auth_service::services::hashmap_2fa_token_store::HashMap2FaTokenStore;

#[test]
fn test_add_code() {
    let email = Email::parse("user@example.com").unwrap();
    let mut store = HashMap2FaTokenStore::default();
    store
        .add_code(email.clone(), LoginAttemptId::default(), TwoFACode::default())
        .unwrap();

    assert_eq!(store.get_code(&email).is_ok(), true);
}

#[test]
fn test_remove_code() {
    let email = Email::parse("user@example.com").unwrap();
    let mut store = HashMap2FaTokenStore::default();

    assert!(store
        .add_code(email.clone(), LoginAttemptId::default(), TwoFACode::default())
        .is_ok());

    assert!(store.remove_code(&email).is_ok());

    assert_eq!(store.get_code(&email).is_ok(), false);
}

#[test]
fn test_get_code_missing() {
    let email = Email::parse("user@example.com").unwrap();
    let store = HashMap2FaTokenStore::default();

    assert!(matches!(
        store.get_code(&email),
        Err(TwoFACodeStoreError::LoginAttemptIdNotFound)
    ));
}

#[test]
fn test_get_code_return_login_details() {
    let email = Email::parse("user@example.com").unwrap();
    let mut store = HashMap2FaTokenStore::default();

    let login_attempt = LoginAttemptId::default();
    let two_fa_code = TwoFACode::default();

    assert!(store
        .add_code(email.clone(), login_attempt.clone(), two_fa_code.clone())
        .is_ok());

    assert_eq!(store.get_code(&email), Ok((login_attempt, two_fa_code)));
}

#[test]
fn test_add_code_overwrites_previous_challenge() {
    let email = Email::parse("user@example.com").unwrap();
    let mut store = HashMap2FaTokenStore::new();

    let first_attempt = LoginAttemptId::default();
    let first_code = TwoFACode::default();
    let second_attempt = LoginAttemptId::default();
    let second_code = TwoFACode::default();

    store
        .add_code(email.clone(), first_attempt, first_code)
        .unwrap();
    store
        .add_code(email.clone(), second_attempt.clone(), second_code.clone())
        .unwrap();

    assert_eq!(store.get_code(&email), Ok((second_attempt, second_code)));
}
