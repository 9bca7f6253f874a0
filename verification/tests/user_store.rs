//! The in-memory user store.

use auth_service::domain::data_stores::{
    UserStore,
    UserStoreError::{self, UserAlreadyExists, UserNotFound},
};
use auth_service::domain::{Email, Password, User};
use auth_service::services::hashmap_user_store::HashMapUserStore;

#[test]
fn test_add_user() {
    let mut store = HashMapUserStore::new();

    let user = User {
        email: Email::parse("a@abc.com").unwrap(),
        password: Password::parse("password").unwrap(),
        requires_2fa: true,
    };

    assert_eq!(store.add_user(user), Ok(()))
}

#[test]
fn test_add_user_already_exists() {
    let mut store = HashMapUserStore::new();

    let user = User::new(
        Email::parse("a@abc.com").unwrap(),
        Password::parse("password_a").unwrap(),
        true,
    );
    let user_two = User::new(
        Email::parse("a@abc.com").unwrap(),
        Password::parse("password").unwrap(),
        true,
    );

    assert_eq!(store.add_user(user), Ok(()));
    assert_eq!(store.add_user(user_two), Err(UserAlreadyExists))
}

#[test]
fn test_get_user() {
    let mut store = HashMapUserStore::new();

    let email = Email::parse("user@example.com").unwrap();
    let password = Password::parse("password").unwrap();

    store
        .add_user(User::new(email.clone(), password.clone(), true))
        .expect("insert user failed");

    let user = store.get_user(&email).expect("Failed to find user");

    assert_eq!(user.email, email);
    assert_eq!(user.password, password);
    assert_eq!(user.requires_2fa, true);
}

#[test]
fn test_user_not_found() {
    let store = HashMapUserStore::new();
    let email = Email::parse("user@example.com").unwrap();

    let result = store.get_user(&email);
    assert!(matches!(result, Err(UserNotFound)));
}

#[test]
fn test_validate_user_not_found() {
    let store = HashMapUserStore::new();

    let email = Email::parse("user@example.com").unwrap();
    let password = Password::parse("password").unwrap();

    let result = store.validate_user(&email, &password);
    assert!(matches!(result, Err(UserNotFound)));
}

#[test]
fn test_validate_incorrect_password() {
    let mut store = HashMapUserStore::new();

    let email = Email::parse("user@example.com").unwrap();
    let password = Password::parse("password").unwrap();

    store
        .add_user(User::new(email.clone(), password, true))
        .expect("Failed to insert user");

    let result = store.validate_user(&email, &Password::parse("password111").unwrap());
    assert!(matches!(result, Err(_)));
    assert!(matches!(result, Err(UserStoreError::IncorrectCredentials)));
}

#[test]
fn test_validate_password() {
    let mut store = HashMapUserStore::new();

    let email = Email::parse("user@example.com").unwrap();
    let password = Password::parse("password").unwrap();

    store
        .add_user(User::new(email.clone(), password.clone(), true))
        .expect("Failed to insert user");

    let result = store.validate_user(&email, &password);
    assert!(matches!(result, Ok(_)));
    let user = result.unwrap();
    assert_eq!(user.email, email);
    assert_eq!(user.password, password);
}
