//! A notification sender that is down: the login attempt aborts before the
//! challenge is persisted.

use auth_service::AppState;
use auth_service::domain::AuthAPIError;
use auth_service::domain::Email;
use auth_service::domain::data_stores::TwoFACodeStore;
use auth_service::domain::email_client::EmailClient;
use auth_service::routes::login::{LoginParams, login};
use auth_service::routes::signup::{SignUpParams, signup};
use auth_service::services::hashmap_2fa_token_store::HashMap2FaTokenStore;
use auth_service::services::hashmap_user_store::HashMapUserStore;
use auth_service::services::hashset_banned_token_store::HashSetBannedTokenStore;

const NOW: u64 = 1700000000;

struct DownEmailClient;

impl EmailClient for DownEmailClient {
    // the ghost delivery history is never consulted at run time
    fn sent(&self) -> vstd::prelude::Seq<auth_service::domain::email_client::SentMail> {
        unreachable!()
    }

    fn send_email(
        &mut self,
        _recipient: &Email,
        _subject: &str,
        _content: &str,
    ) -> Result<(), String> {
        Err("the mail system is unreachable".to_string())
    }
}

#[test]
fn notification_failure_aborts_login_without_a_challenge() {
    let mut app = AppState::new(
        HashMapUserStore::new(),
        HashSetBannedTokenStore::new(),
        HashMap2FaTokenStore::new(),
        DownEmailClient,
        "test signing secret".as_bytes().to_vec(),
    );

    let signup_params = SignUpParams {
        email: "user@example.com".to_string(),
        password: "password".to_string(),
        requires_2fa: true,
    };
    signup(&mut app, &signup_params).expect("signup succeeds");

    let login_params = LoginParams {
        email: "user@example.com".to_string(),
        password: "password".to_string(),
    };
    let err = login(&mut app, &login_params, NOW).expect_err("login must abort");
    assert_eq!(err, AuthAPIError::UnexpectedError);
    assert_eq!(err.status_code(), 500);

    let email = Email::parse("user@example.com").unwrap();
    assert!(app.two_fa_code_store.get_code(&email).is_err());
}
