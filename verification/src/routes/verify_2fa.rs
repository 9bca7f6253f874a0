//! Answering an outstanding two-factor challenge.

use vstd::prelude::*;

verus! {

use vstd::utf8::encode_utf8;
use crate::AppState;
use crate::AuthModel;
use crate::domain::{AuthAPIError, Email, valid_email};
use crate::domain::data_stores::{
    BannedTokenStore, LoginAttemptId, TwoFACode, TwoFACodeStore, TwoFACodeStoreError, UserStore,
    valid_2fa_code, valid_login_attempt_id,
};
use crate::domain::email_client::EmailClient;
use crate::utils::auth::{generate_token, spec_token_chars};
use crate::utils::constants::TOKEN_TTL_SECONDS;

/// The wire fields of a challenge-verification request.
pub struct Verify2FAParams {
    pub email: String,
    pub login_attempt_id: String,
    pub code: String,
}

/// What challenge verification does to the state: reject malformed input;
/// reject, without saying which, an email with no outstanding challenge and
/// a mismatched attempt identifier or code, leaving the challenge intact;
/// on a full match issue a token and delete the challenge, so that the same
/// pair cannot be used twice.
pub open spec fn spec_verify_2fa(
    m: AuthModel,
    email: Seq<char>,
    attempt_id: Seq<char>,
    code: Seq<char>,
    now: u64,
) -> (Result<Seq<char>, AuthAPIError>, AuthModel) {
    if !(valid_email(email) && valid_login_attempt_id(attempt_id) && valid_2fa_code(code)) {
        (Err(AuthAPIError::InvalidCredentials), m)
    } else if !m.challenges.contains_key(email) {
        (Err(AuthAPIError::IncorrectCredentials), m)
    } else if m.challenges[email].attempt_id != attempt_id || m.challenges[email].code != code {
        (Err(AuthAPIError::IncorrectCredentials), m)
    } else {
        (
            Ok(spec_token_chars(m.secret, encode_utf8(email), (now + TOKEN_TTL_SECONDS) as u64)),
            AuthModel { challenges: m.challenges.remove(email), ..m },
        )
    }
}

/// Handles a challenge-verification request; the returned string is the
/// session cookie value.
pub fn verify_2fa<U: UserStore, B: BannedTokenStore, T: TwoFACodeStore, E: EmailClient>(
    state: &mut AppState<U, B, T, E>,
    params: &Verify2FAParams,
    now: u64,
) -> (r: Result<String, AuthAPIError>)
    requires
        old(state).wf(),
        now <= u64::MAX - TOKEN_TTL_SECONDS,
    ensures
        final(state).wf(),
        ({
            let (sr, sm) = spec_verify_2fa(
                old(state).model(),
                params.email@,
                params.login_attempt_id@,
                params.code@,
                now,
            );
            &&& final(state).model() == sm
            &&& (match (r, sr) {
                (Ok(t), Ok(ts)) => t@ == ts,
                (Err(e), Err(e2)) => e == e2,
                _ => false,
            })
        }),
{
    let email = match Email::parse(params.email.as_str()) {
        Ok(e) => e,
        Err(_) => {
            return Err(AuthAPIError::InvalidCredentials);
        },
    };
    let attempt_id = match LoginAttemptId::parse(params.login_attempt_id.clone()) {
        Ok(a) => a,
        Err(_) => {
            return Err(AuthAPIError::InvalidCredentials);
        },
    };
    let code = match TwoFACode::parse(params.code.clone()) {
        Ok(c) => c,
        Err(_) => {
            return Err(AuthAPIError::InvalidCredentials);
        },
    };
    let (stored_id, stored_code) = match state.two_fa_code_store.get_code(&email) {
        Ok(pair) => pair,
        Err(TwoFACodeStoreError::LoginAttemptIdNotFound) => {
            return Err(AuthAPIError::IncorrectCredentials);
        },
        Err(_) => {
            return Err(AuthAPIError::UnexpectedError);
        },
    };
    if attempt_id.eq(&stored_id) && stored_code.eq(&code) {
        let auth_cookie = generate_token(state.secret.as_slice(), &email, now);
        match state.two_fa_code_store.remove_code(&email) {
            Ok(()) => Ok(auth_cookie),
            Err(_) => Err(AuthAPIError::UnexpectedError),
        }
    } else {
        Err(AuthAPIError::IncorrectCredentials)
    }
}

} // verus!
