//! The signup handler.

use auth_service::AppState;
use auth_service::domain::AuthAPIError;
use auth_service::routes::signup::{SignUpParams, SignUpResponse, signup};
use auth_service::services::hashmap_2fa_token_store::HashMap2FaTokenStore;
use auth_service::services::hashmap_user_store::HashMapUserStore;
use auth_service::services::hashset_banned_token_store::HashSetBannedTokenStore;
use auth_service::services::mock_email_client::MockEmailClient;
use uuid::Uuid;

type App = AppState<HashMapUserStore, HashSetBannedTokenStore, HashMap2FaTokenStore, MockEmailClient>;

fn new_app() -> App {
    AppState::new(
        HashMapUserStore::new(),
        HashSetBannedTokenStore::new(),
        HashMap2FaTokenStore::new(),
        MockEmailClient::new(),
        "test signing secret".as_bytes().to_vec(),
    )
}

fn get_random_email() -> String {
    format!("{}@example.com", Uuid::new_v4())
}

fn params(email: &str, password: &str, requires_2fa: bool) -> SignUpParams {
    SignUpParams {
        email: email.to_string(),
        password: password.to_string(),
        requires_2fa,
    }
}

#[test]
fn should_return_201_if_successful() {
    let mut app = new_app();

    let response = signup(&mut app, &params(&get_random_email(), "a_password", true));

    let expected_response = SignUpResponse {
        message: "User created successfully!".to_owned(),
    };
    assert_eq!(response.expect("signup succeeds"), expected_response);
}

#[test]
fn should_return_400_if_invalid_input() {
    let mut app = new_app();

    let random_email = get_random_email();

    let test_cases = [
        // blank email
        params("", "some_password", true),
        // missing @
        params("aaaa", "some_password", true),
        // password too short
        params(&random_email, "1234567", true),
    ];

    for test_case in test_cases.iter() {
        let response = signup(&mut app, test_case);
        let err = response.expect_err("signup must fail");
        assert_eq!(err, AuthAPIError::InvalidCredentials);
        assert_eq!(err.status_code(), 400);
        assert_eq!(err.error_message(), "Invalid credentials");
    }
}

#[test]
fn should_return_409_if_email_already_exists() {
    let mut app = new_app();

    let p = params(&get_random_email(), "a_password", true);

    assert!(signup(&mut app, &p).is_ok());

    let err = signup(&mut app, &p).expect_err("second signup must fail");
    assert_eq!(err, AuthAPIError::UserAlreadyExists);
    assert_eq!(err.status_code(), 409);
    assert_eq!(err.error_message(), "User already exists");
}

#[test]
fn signup_rejects_duplicate_even_with_other_password() {
    let mut app = new_app();

    let email = get_random_email();
    assert!(signup(&mut app, &params(&email, "first_password", false)).is_ok());

    let err = signup(&mut app, &params(&email, "another_password", true))
        .expect_err("duplicate email must be rejected");
    assert_eq!(err, AuthAPIError::UserAlreadyExists);
}
