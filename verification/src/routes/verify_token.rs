//! Checking a presented session token.

use vstd::prelude::*;

verus! {

use vstd::utf8::encode_utf8;
use crate::AppState;
use crate::AuthModel;
use crate::domain::AuthAPIError;
use crate::domain::data_stores::{BannedTokenStore, TwoFACodeStore, UserStore};
use crate::domain::email_client::EmailClient;
use crate::utils::auth::{token_ok, validate_token};

/// The wire fields of a token-verification request.
pub struct VerifyTokenParams {
    pub token: String,
}

/// Whether a token string is acceptable at time `now` against the state's
/// secret.
pub open spec fn spec_token_valid(m: AuthModel, token: Seq<char>, now: u64) -> bool {
    token_ok(m.secret, encode_utf8(token), now)
}

/// What token verification answers: reject a token that does not check out
/// or that has been revoked, accept the rest. The state is untouched.
pub open spec fn spec_verify_token(m: AuthModel, token: Seq<char>, now: u64) -> Result<
    (),
    AuthAPIError,
> {
    if !spec_token_valid(m, token, now) {
        Err(AuthAPIError::InvalidToken)
    } else if m.banned.contains(token) {
        Err(AuthAPIError::InvalidToken)
    } else {
        Ok(())
    }
}

/// Handles a token-verification request.
pub fn verify_token<U: UserStore, B: BannedTokenStore, T: TwoFACodeStore, E: EmailClient>(
    state: &AppState<U, B, T, E>,
    params: &VerifyTokenParams,
    now: u64,
) -> (r: Result<(), AuthAPIError>)
    ensures
        r == spec_verify_token(state.model(), params.token@, now),
{
    if validate_token(state.secret.as_slice(), params.token.as_str(), now).is_err() {
        return Err(AuthAPIError::InvalidToken);
    }
    if state.banned_token_store.contains(params.token.as_str()) {
        return Err(AuthAPIError::InvalidToken);
    }
    Ok(())
}

} // verus!
