//! Checking credentials and opening a session, directly or through a
//! two-factor challenge.

use vstd::prelude::*;

verus! {

use vstd::string::StringExecFns;
use vstd::utf8::encode_utf8;
use crate::AppState;
use crate::AuthModel;
use crate::domain::{AuthAPIError, Email, Password, valid_email, valid_password};
use crate::domain::data_stores::{
    BannedTokenStore, ChallengeModel, LoginAttemptId, TwoFACode, TwoFACodeStore, UserStore,
    UserStoreError, valid_2fa_code, valid_login_attempt_id,
};
use crate::domain::email_client::{EmailClient, SentMail};
use crate::utils::auth::{generate_token, spec_token_chars};
use crate::utils::constants::TOKEN_TTL_SECONDS;

/// The wire fields of a login request.
pub struct LoginParams {
    pub email: String,
    pub password: String,
}

/// The wire body of a login that awaits a second factor; the one-time code
/// itself travels by mail, never here.
#[derive(Debug)]
pub struct TwoFactorAuthResponse {
    pub message: String,
    pub login_attempt_id: String,
}

/// A successful login: either a session cookie value, or the identifier of
/// a freshly issued challenge.
#[derive(Debug)]
pub enum LoginResponse {
    RegularAuth { auth_cookie: String },
    TwoFactorAuth(TwoFactorAuthResponse),
}

/// The spec-level outcome of a login.
pub ghost enum LoginSpecOutcome {
    Regular { token: Seq<char> },
    TwoFactor { attempt_id: Seq<char> },
    Fail { error: AuthAPIError },
}

/// What login does to the state, given the freshly drawn challenge
/// credentials `id` and `code` and whether the notification went out:
/// reject malformed input; reject, without saying which, an unknown email
/// and a wrong password; without a second factor, issue a token and touch
/// nothing; with one, abort if the notification failed, else record the
/// challenge (replacing any outstanding one) and answer with the attempt
/// identifier.
pub open spec fn spec_login(
    m: AuthModel,
    email: Seq<char>,
    password: Seq<char>,
    now: u64,
    id: Seq<char>,
    code: Seq<char>,
    send_ok: bool,
) -> (LoginSpecOutcome, AuthModel) {
    if !(valid_email(email) && valid_password(password)) {
        (LoginSpecOutcome::Fail { error: AuthAPIError::InvalidCredentials }, m)
    } else if !m.users.contains_key(email) || m.users[email].password != password {
        (LoginSpecOutcome::Fail { error: AuthAPIError::IncorrectCredentials }, m)
    } else if !m.users[email].requires_2fa {
        (
            LoginSpecOutcome::Regular {
                token: spec_token_chars(
                    m.secret,
                    encode_utf8(email),
                    (now + TOKEN_TTL_SECONDS) as u64,
                ),
            },
            m,
        )
    } else if !send_ok {
        (LoginSpecOutcome::Fail { error: AuthAPIError::UnexpectedError }, m)
    } else {
        (
            LoginSpecOutcome::TwoFactor { attempt_id: id },
            AuthModel {
                challenges: m.challenges.insert(
                    email,
                    ChallengeModel { attempt_id: id, code: code },
                ),
                sent: m.sent.push(
                    SentMail {
                        recipient: email,
                        subject: "Login 2FA Code"@,
                        body: "The 2FA code is : "@ + code,
                    },
                ),
                ..m
            },
        )
    }
}

/// Handles a login request.
pub fn login<U: UserStore, B: BannedTokenStore, T: TwoFACodeStore, E: EmailClient>(
    state: &mut AppState<U, B, T, E>,
    params: &LoginParams,
    now: u64,
) -> (r: Result<LoginResponse, AuthAPIError>)
    requires
        old(state).wf(),
        now <= u64::MAX - TOKEN_TTL_SECONDS,
    ensures
        final(state).wf(),
        exists|id: Seq<char>, code: Seq<char>, send_ok: bool|
            {
                let (sr, sm) = #[trigger] spec_login(
                    old(state).model(),
                    params.email@,
                    params.password@,
                    now,
                    id,
                    code,
                    send_ok,
                );
                &&& final(state).model() == sm
                &&& (match (r, sr) {
                    (
                        Ok(LoginResponse::RegularAuth { auth_cookie }),
                        LoginSpecOutcome::Regular { token },
                    ) => auth_cookie@ == token,
                    (
                        Ok(LoginResponse::TwoFactorAuth(resp)),
                        LoginSpecOutcome::TwoFactor { attempt_id },
                    ) => resp.login_attempt_id@ == attempt_id && resp.message@ == "2FA required"@
                        && valid_login_attempt_id(attempt_id) && valid_2fa_code(code),
                    (Err(e), LoginSpecOutcome::Fail { error }) => e == error,
                    _ => false,
                })
            },
{
    let ghost m0 = old(state).model();
    let email = match Email::parse(params.email.as_str()) {
        Ok(e) => e,
        Err(_) => {
            proof {
                let (sr, sm) = spec_login(
                    m0,
                    params.email@,
                    params.password@,
                    now,
                    Seq::empty(),
                    Seq::empty(),
                    true,
                );
            }
            return Err(AuthAPIError::InvalidCredentials);
        },
    };
    let password = match Password::parse(params.password.as_str()) {
        Ok(p) => p,
        Err(_) => {
            proof {
                let (sr, sm) = spec_login(
                    m0,
                    params.email@,
                    params.password@,
                    now,
                    Seq::empty(),
                    Seq::empty(),
                    true,
                );
            }
            return Err(AuthAPIError::InvalidCredentials);
        },
    };
    let user = match state.user_store.validate_user(&email, &password) {
        Ok(u) => u,
        Err(UserStoreError::UserNotFound) | Err(UserStoreError::IncorrectCredentials) => {
            proof {
                let (sr, sm) = spec_login(
                    m0,
                    params.email@,
                    params.password@,
                    now,
                    Seq::empty(),
                    Seq::empty(),
                    true,
                );
            }
            return Err(AuthAPIError::IncorrectCredentials);
        },
        Err(_) => {
            return Err(AuthAPIError::UnexpectedError);
        },
    };
    if !user.requires_2fa {
        let auth_cookie = generate_token(state.secret.as_slice(), &email, now);
        proof {
            let (sr, sm) = spec_login(
                m0,
                params.email@,
                params.password@,
                now,
                Seq::empty(),
                Seq::empty(),
                true,
            );
        }
        return Ok(LoginResponse::RegularAuth { auth_cookie });
    }
    let login_attempt_id = LoginAttemptId::default();
    let two_fa_code = TwoFACode::default();
    let subject = "Login 2FA Code";
    let mut body = "The 2FA code is : ".to_owned();
    body.append(two_fa_code.as_str());
    match state.email_client.send_email(&email, subject, body.as_str()) {
        Ok(()) => {},
        Err(_) => {
            proof {
                let (sr, sm) = spec_login(
                    m0,
                    params.email@,
                    params.password@,
                    now,
                    login_attempt_id@,
                    two_fa_code@,
                    false,
                );
            }
            return Err(AuthAPIError::UnexpectedError);
        },
    }
    let attempt_for_response = login_attempt_id.as_str().to_owned();
    let ghost idv = login_attempt_id@;
    let ghost codev = two_fa_code@;
    match state.two_fa_code_store.add_code(email, login_attempt_id, two_fa_code) {
        Ok(()) => {
            proof {
                let (sr, sm) = spec_login(
                    m0,
                    params.email@,
                    params.password@,
                    now,
                    idv,
                    codev,
                    true,
                );
            }
            Ok(
                LoginResponse::TwoFactorAuth(
                    TwoFactorAuthResponse {
                        message: "2FA required".to_owned(),
                        login_attempt_id: attempt_for_response,
                    },
                ),
            )
        },
        Err(_) => Err(AuthAPIError::UnexpectedError),
    }
}

} // verus!
