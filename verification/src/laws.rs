//! Properties of the authentication flow, proved once and for all over the
//! spec-level transitions of the request handlers.

use vstd::prelude::*;

verus! {

use vstd::utf8::encode_utf8;
use crate::AuthModel;
use crate::domain::{AuthAPIError, valid_email, valid_password};
use crate::domain::data_stores::{ChallengeModel, valid_2fa_code, valid_login_attempt_id};
use crate::routes::login::{LoginSpecOutcome, spec_login};
use crate::routes::logout::spec_logout;
use crate::routes::signup::spec_signup;
use crate::routes::verify_2fa::spec_verify_2fa;
use crate::routes::verify_token::spec_verify_token;
use crate::utils::auth::{lemma_token_chars, spec_token_chars, token_ok};
use crate::utils::constants::TOKEN_TTL_SECONDS;

/// Once an account exists, a second signup under the same email always
/// answers `UserAlreadyExists`, whatever the new password or flag, and
/// changes nothing.
pub proof fn lemma_signup_idempotent_rejecting(
    m: AuthModel,
    email: Seq<char>,
    pw1: Seq<char>,
    r2fa1: bool,
    pw2: Seq<char>,
    r2fa2: bool,
)
    requires
        spec_signup(m, email, pw1, r2fa1).0 is Ok,
        valid_email(email),
        valid_password(pw2),
    ensures
        spec_signup(spec_signup(m, email, pw1, r2fa1).1, email, pw2, r2fa2).0 == Err::<
            (),
            AuthAPIError,
        >(AuthAPIError::UserAlreadyExists),
        spec_signup(spec_signup(m, email, pw1, r2fa1).1, email, pw2, r2fa2).1 == spec_signup(
            m,
            email,
            pw1,
            r2fa1,
        ).1,
{
}

/// Signing up without a second factor and logging in yields a non-empty
/// session token that then passes verification, as long as it has not been
/// revoked and its window has not passed.
pub proof fn lemma_login_round_trip(
    m: AuthModel,
    email: Seq<char>,
    pw: Seq<char>,
    now: u64,
    now2: u64,
)
    requires
        valid_email(email),
        valid_password(pw),
        !m.users.contains_key(email),
        now <= u64::MAX - TOKEN_TTL_SECONDS,
        now2 < now + TOKEN_TTL_SECONDS,
        !m.banned.contains(
            spec_token_chars(m.secret, encode_utf8(email), (now + TOKEN_TTL_SECONDS) as u64),
        ),
    ensures
        ({
            let (r1, m1) = spec_signup(m, email, pw, false);
            let (r2, m2) = spec_login(m1, email, pw, now, Seq::empty(), Seq::empty(), true);
            &&& r1 is Ok
            &&& r2 == (LoginSpecOutcome::Regular {
                token: spec_token_chars(m.secret, encode_utf8(email), (now + TOKEN_TTL_SECONDS) as u64),
            })
            &&& (r2 matches LoginSpecOutcome::Regular { token } ==> token.len() > 0
                && spec_verify_token(m2, token, now2) is Ok)
        }),
{
    let exp = (now + TOKEN_TTL_SECONDS) as u64;
    let sub = encode_utf8(email);
    let token = spec_token_chars(m.secret, sub, exp);
    lemma_token_chars(m.secret, sub, exp);
    vstd::utf8::encode_utf8_valid_utf8(email);
    assert(token_ok(m.secret, encode_utf8(token), now2)) by {
        assert(encode_utf8(token) == crate::utils::auth::spec_token(m.secret, sub, exp));
        assert(vstd::utf8::valid_utf8(sub));
        assert(now2 < exp);
    }
}

/// A two-factor login records exactly one challenge for the email; the
/// matching pair then passes verification once, issues a token, and a
/// second attempt with the same pair is rejected.
pub proof fn lemma_two_factor_round_trip(
    m: AuthModel,
    email: Seq<char>,
    pw: Seq<char>,
    now: u64,
    now2: u64,
    id: Seq<char>,
    code: Seq<char>,
)
    requires
        valid_email(email),
        valid_password(pw),
        m.users.contains_key(email),
        m.users[email].password == pw,
        m.users[email].requires_2fa,
        valid_login_attempt_id(id),
        valid_2fa_code(code),
    ensures
        ({
            let (r1, m1) = spec_login(m, email, pw, now, id, code, true);
            let (r2, m2) = spec_verify_2fa(m1, email, id, code, now2);
            let (r3, _) = spec_verify_2fa(m2, email, id, code, now2);
            &&& r1 == (LoginSpecOutcome::TwoFactor { attempt_id: id })
            &&& m1.challenges == m.challenges.insert(
                email,
                (ChallengeModel { attempt_id: id, code: code }),
            )
            &&& m1.sent == m.sent.push(
                (crate::domain::email_client::SentMail {
                    recipient: email,
                    subject: "Login 2FA Code"@,
                    body: "The 2FA code is : "@ + code,
                }),
            )
            &&& r2 == Ok::<Seq<char>, AuthAPIError>(
                spec_token_chars(m.secret, encode_utf8(email), (now2 + TOKEN_TTL_SECONDS) as u64),
            )
            &&& m2.challenges == m1.challenges.remove(email)
            &&& r3 == Err::<Seq<char>, AuthAPIError>(AuthAPIError::IncorrectCredentials)
        }),
{
}

/// A token accepted at logout is afterwards rejected by verification, even
/// while its own expiry window is still open.
pub proof fn lemma_logout_revokes(m: AuthModel, token: Seq<char>, now: u64, now2: u64)
    requires
        spec_logout(m, Some(token), now).0 is Ok,
    ensures
        spec_verify_token(spec_logout(m, Some(token), now).1, token, now2) == Err::<
            (),
            AuthAPIError,
        >(AuthAPIError::InvalidToken),
{
}

/// A login with an unknown email and a login with a known email but a
/// wrong password fail with the same error, and so with the same status
/// and the same body; neither touches the state.
pub proof fn lemma_incorrect_credentials_indistinguishable(
    m: AuthModel,
    e1: Seq<char>,
    p1: Seq<char>,
    e2: Seq<char>,
    p2: Seq<char>,
    now: u64,
)
    requires
        valid_email(e1),
        valid_password(p1),
        !m.users.contains_key(e1),
        valid_email(e2),
        valid_password(p2),
        m.users.contains_key(e2),
        m.users[e2].password != p2,
    ensures
        ({
            let (r1, m1) = spec_login(m, e1, p1, now, Seq::empty(), Seq::empty(), true);
            let (r2, m2) = spec_login(m, e2, p2, now, Seq::empty(), Seq::empty(), true);
            &&& r1 == (LoginSpecOutcome::Fail { error: AuthAPIError::IncorrectCredentials })
            &&& r1 == r2
            &&& m1 == m
            &&& m2 == m
        }),
{
}

/// Two successive two-factor logins for one email leave only the second
/// challenge: the second pair verifies, the first is rejected whenever the
/// pairs differ at all.
pub proof fn lemma_challenge_overwrite(
    m: AuthModel,
    email: Seq<char>,
    pw: Seq<char>,
    now1: u64,
    now2: u64,
    now3: u64,
    id1: Seq<char>,
    code1: Seq<char>,
    id2: Seq<char>,
    code2: Seq<char>,
)
    requires
        valid_email(email),
        valid_password(pw),
        m.users.contains_key(email),
        m.users[email].password == pw,
        m.users[email].requires_2fa,
        valid_login_attempt_id(id1),
        valid_2fa_code(code1),
        valid_login_attempt_id(id2),
        valid_2fa_code(code2),
        id1 != id2 || code1 != code2,
    ensures
        ({
            let (r1, m1) = spec_login(m, email, pw, now1, id1, code1, true);
            let (r2, m2) = spec_login(m1, email, pw, now2, id2, code2, true);
            &&& m2.challenges[email] == (ChallengeModel { attempt_id: id2, code: code2 })
            &&& spec_verify_2fa(m2, email, id1, code1, now3).0 == Err::<Seq<char>, AuthAPIError>(
                AuthAPIError::IncorrectCredentials,
            )
            &&& spec_verify_2fa(m2, email, id2, code2, now3).0 is Ok
        }),
{
}

} // verus!
