//! The credential value types.

use auth_service::domain::data_stores::{LoginAttemptId, TwoFACode};
use auth_service::domain::{Email, Password};

#[test]
fn test_email_is_blank() {
    assert!(matches!(Email::parse(""), Err(())))
}

#[test]
fn test_email_is_missing_at_symbol() {
    assert!(matches!(Email::parse("aaaa.com"), Err(())))
}

#[test]
fn test_email_parses() {
    let email = "aaa@aa.com";
    assert!(matches!(Email::parse(email), Ok(_)))
}

#[test]
fn test_password_is_blank() {
    assert!(matches!(Password::parse(""), Err(())))
}

#[test]
fn test_password_parses() {
    assert!(matches!(Password::parse("password"), Ok(_)))
}

#[test]
fn test_email_all_spaces_is_rejected() {
    assert!(matches!(Email::parse("   \t  "), Err(())));
}

#[test]
fn test_email_keeps_its_text() {
    let email = Email::parse("  padded@example.com  ").expect("parses");
    assert_eq!(email.to_string(), "  padded@example.com  ");
}

#[test]
fn test_password_seven_after_trim_is_rejected() {
    assert!(matches!(Password::parse("  1234567  "), Err(())));
    assert!(matches!(Password::parse("12345678"), Ok(_)));
}

#[test]
fn test_two_fa_code_parses_when_six_after_trim() {
    assert!(matches!(TwoFACode::parse(" 123456 ".to_string()), Ok(_)));
    assert!(matches!(TwoFACode::parse("123456".to_string()), Ok(_)));
    assert_eq!(
        TwoFACode::parse("12345".to_string()),
        Err("Invalid length".to_string())
    );
    assert!(matches!(TwoFACode::parse("1234567".to_string()), Err(_)));
}

#[test]
fn test_two_fa_code_default_is_six_alphanumerics() {
    let code = TwoFACode::default();
    assert_eq!(code.as_str().len(), 6);
    assert!(code.as_str().chars().all(|c| c.is_ascii_alphanumeric()));
}

#[test]
fn test_login_attempt_id_rejects_non_uuid() {
    assert!(matches!(LoginAttemptId::parse("12311".to_string()), Err(_)));
    assert!(matches!(LoginAttemptId::parse("".to_string()), Err(_)));
}

#[test]
fn test_login_attempt_id_accepts_uuid_forms() {
    assert!(matches!(
        LoginAttemptId::parse("550e8400-e29b-41d4-a716-446655440000".to_string()),
        Ok(_)
    ));
    assert!(matches!(
        LoginAttemptId::parse("550e8400e29b41d4a716446655440000".to_string()),
        Ok(_)
    ));
    assert!(matches!(
        LoginAttemptId::parse("urn:uuid:550e8400-e29b-41d4-a716-446655440000".to_string()),
        Ok(_)
    ));
}

#[test]
fn test_login_attempt_id_default_parses() {
    let id = LoginAttemptId::default();
    assert!(matches!(LoginAttemptId::parse(id.as_str().to_string()), Ok(_)));
}
