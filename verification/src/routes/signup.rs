//! Creating an account.

use vstd::prelude::*;

verus! {

use crate::AppState;
use crate::AuthModel;
use crate::domain::{AuthAPIError, Email, Password, User, valid_email, valid_password};
use crate::domain::data_stores::{BannedTokenStore, TwoFACodeStore, UserModel, UserStore, UserStoreError};
use crate::domain::email_client::EmailClient;

/// The wire fields of a signup request.
pub struct SignUpParams {
    pub email: String,
    pub password: String,
    pub requires_2fa: bool,
}

/// The wire body of a successful signup.
#[derive(Debug, PartialEq)]
pub struct SignUpResponse {
    pub message: String,
}

impl SignUpParams {
    /// The validated account the request describes, if both fields parse.
    fn to_user(&self) -> (r: Option<User>)
        ensures
            r is Some <==> valid_email(self.email@) && valid_password(self.password@),
            r matches Some(u) ==> u.email@ == self.email@ && u.password@ == self.password@
                && u.requires_2fa == self.requires_2fa,
    {
        match (Email::parse(self.email.as_str()), Password::parse(self.password.as_str())) {
            (Ok(email), Ok(password)) => Some(
                User { email, password, requires_2fa: self.requires_2fa },
            ),
            _ => None,
        }
    }
}

/// What signup does to the state: reject malformed credentials, reject a
/// taken email, otherwise insert the account.
pub open spec fn spec_signup(
    m: AuthModel,
    email: Seq<char>,
    password: Seq<char>,
    requires_2fa: bool,
) -> (Result<(), AuthAPIError>, AuthModel) {
    if !(valid_email(email) && valid_password(password)) {
        (Err(AuthAPIError::InvalidCredentials), m)
    } else if m.users.contains_key(email) {
        (Err(AuthAPIError::UserAlreadyExists), m)
    } else {
        (
            Ok(()),
            AuthModel {
                users: m.users.insert(
                    email,
                    UserModel { password: password, requires_2fa: requires_2fa },
                ),
                ..m
            },
        )
    }
}

/// Handles a signup request.
pub fn signup<U: UserStore, B: BannedTokenStore, T: TwoFACodeStore, E: EmailClient>(
    state: &mut AppState<U, B, T, E>,
    params: &SignUpParams,
) -> (r: Result<SignUpResponse, AuthAPIError>)
    requires
        old(state).wf(),
    ensures
        final(state).wf(),
        ({
            let (sr, sm) = spec_signup(
                old(state).model(),
                params.email@,
                params.password@,
                params.requires_2fa,
            );
            &&& final(state).model() == sm
            &&& (r is Ok <==> sr is Ok)
            &&& (r matches Ok(resp) ==> resp.message@ == "User created successfully!"@)
            &&& (r matches Err(e) ==> sr matches Err(e2) && e == e2)
        }),
{
    let user = match params.to_user() {
        Some(u) => u,
        None => {
            return Err(AuthAPIError::InvalidCredentials);
        },
    };
    match state.user_store.add_user(user) {
        Ok(()) => Ok(SignUpResponse { message: "User created successfully!".to_owned() }),
        Err(UserStoreError::UserAlreadyExists) => Err(AuthAPIError::UserAlreadyExists),
        Err(_) => Err(AuthAPIError::UnexpectedError),
    }
}

} // verus!
