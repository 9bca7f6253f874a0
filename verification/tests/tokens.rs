//! The token service itself.

use auth_service::domain::Email;
use auth_service::utils::auth::{generate_token, validate_token};
use auth_service::utils::constants::{JWT_COOKIE_NAME, TOKEN_TTL_SECONDS};

const NOW: u64 = 1700000000;

#[test]
fn token_has_three_segments_and_the_fixed_header() {
    let email = Email::parse("user@example.com").unwrap();
    let token = generate_token(b"secret".as_slice(), &email, NOW);

    let segments: Vec<&str> = token.split('.').collect();
    assert_eq!(segments.len(), 3);
    assert_eq!(segments[0], "eyJhbGciOiJIUzI1NiIsInR5cCI6IkpXVCJ9");
    assert!(!segments[1].is_empty());
    assert!(!segments[2].is_empty());
}

#[test]
fn token_round_trip_returns_the_claims() {
    let email = Email::parse("user@example.com").unwrap();
    let secret = b"secret".as_slice();
    let token = generate_token(secret, &email, NOW);

    let claims = validate_token(secret, &token, NOW).expect("token validates");
    assert_eq!(claims.sub, "user@example.com");
    assert_eq!(claims.exp, NOW + TOKEN_TTL_SECONDS);
}

#[test]
fn token_is_deterministic_in_its_inputs() {
    let email = Email::parse("user@example.com").unwrap();
    let secret = b"secret".as_slice();
    assert_eq!(generate_token(secret, &email, NOW), generate_token(secret, &email, NOW));
    assert_ne!(
        generate_token(secret, &email, NOW),
        generate_token(secret, &email, NOW + 1)
    );
}

#[test]
fn token_with_quote_in_subject_round_trips() {
    let email = Email::parse("odd\"quote\\back@example.com").unwrap();
    let secret = b"secret".as_slice();
    let token = generate_token(secret, &email, NOW);

    let claims = validate_token(secret, &token, NOW).expect("token validates");
    assert_eq!(claims.sub, "odd\"quote\\back@example.com");
}

#[test]
fn cookie_name_is_fixed() {
    assert_eq!(JWT_COOKIE_NAME, "token");
}
