//! Revoking the session token a client presents.

use vstd::prelude::*;

verus! {

use crate::AppState;
use crate::AuthModel;
use crate::domain::AuthAPIError;
use crate::domain::data_stores::{BannedTokenStore, TwoFACodeStore, UserStore};
use crate::domain::email_client::EmailClient;
use crate::routes::verify_token::spec_token_valid;
use crate::utils::auth::validate_token;

/// What logout does to the state: reject a missing or unacceptable token,
/// otherwise put the token into the revocation set. The revocation set is
/// not consulted, so a still-unexpired token can be banned again.
pub open spec fn spec_logout(m: AuthModel, token: Option<Seq<char>>, now: u64) -> (Result<
    (),
    AuthAPIError,
>, AuthModel) {
    match token {
        None => (Err(AuthAPIError::MissingToken), m),
        Some(t) => if !spec_token_valid(m, t, now) {
            (Err(AuthAPIError::InvalidToken), m)
        } else {
            (Ok(()), AuthModel { banned: m.banned.insert(t), ..m })
        },
    }
}

/// Handles a logout request; `cookie` is the value of the session cookie,
/// if the client sent one.
pub fn logout<U: UserStore, B: BannedTokenStore, T: TwoFACodeStore, E: EmailClient>(
    state: &mut AppState<U, B, T, E>,
    cookie: Option<&str>,
    now: u64,
) -> (r: Result<(), AuthAPIError>)
    requires
        old(state).wf(),
    ensures
        final(state).wf(),
        ({
            let token_view = match cookie {
                Some(t) => Some(t@),
                None => None,
            };
            let (sr, sm) = spec_logout(old(state).model(), token_view, now);
            &&& final(state).model() == sm
            &&& r == sr
        }),
{
    let token = match cookie {
        Some(t) => t,
        None => {
            return Err(AuthAPIError::MissingToken);
        },
    };
    if validate_token(state.secret.as_slice(), token, now).is_err() {
        return Err(AuthAPIError::InvalidToken);
    }
    state.banned_token_store.add(token.to_owned());
    Ok(())
}

} // verus!
