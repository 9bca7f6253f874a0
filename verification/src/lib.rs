//! An authentication service: credential checking, an optional second
//! factor, signed session tokens, token validation and revocation.
//!
//! The stores and collaborators are capability interfaces (`domain`), with
//! in-memory implementations (`services`); the request handlers (`routes`)
//! drive them and are specified against the ghost `AuthModel` of the whole
//! state.

use vstd::prelude::*;

pub mod domain;
pub mod laws;
pub mod routes;
pub mod services;
pub mod utils;

verus! {

use crate::domain::AuthAPIError;
use crate::domain::data_stores::{
    BannedTokenStore, ChallengeModel, TwoFACodeStore, UserModel, UserStore,
};
use crate::domain::email_client::{EmailClient, SentMail};

/// What an application expects of a user store it can share across
/// handlers.
pub trait AppUserStore: UserStore + Clone + Send + Sync {

}

impl<S: UserStore + Clone + Send + Sync> AppUserStore for S {

}

/// Ghost image of the whole service state.
pub ghost struct AuthModel {
    pub users: Map<Seq<char>, UserModel>,
    pub banned: Set<Seq<char>>,
    pub challenges: Map<Seq<char>, ChallengeModel>,
    pub sent: Seq<SentMail>,
    pub secret: Seq<u8>,
}

/// The stores and collaborators behind the authentication operations, each
/// injected at construction.
pub struct AppState<U: UserStore, B: BannedTokenStore, T: TwoFACodeStore, E: EmailClient> {
    pub user_store: U,
    pub banned_token_store: B,
    pub two_fa_code_store: T,
    pub email_client: E,
    pub secret: Vec<u8>,
}

impl<U: UserStore, B: BannedTokenStore, T: TwoFACodeStore, E: EmailClient> AppState<U, B, T, E> {
    /// The stores that carry an internal invariant are well formed.
    pub open spec fn wf(&self) -> bool {
        self.user_store.wf() && self.two_fa_code_store.wf()
    }

    /// Ghost image of the state.
    pub open spec fn model(&self) -> AuthModel {
        AuthModel {
            users: self.user_store.users(),
            banned: self.banned_token_store.tokens(),
            challenges: self.two_fa_code_store.codes(),
            sent: self.email_client.sent(),
            secret: self.secret@,
        }
    }

    pub fn new(
        user_store: U,
        banned_token_store: B,
        two_fa_code_store: T,
        email_client: E,
        secret: Vec<u8>,
    ) -> (r: Self)
        ensures
            r.user_store == user_store,
            r.banned_token_store == banned_token_store,
            r.two_fa_code_store == two_fa_code_store,
            r.email_client == email_client,
            r.model().secret == secret@,
    {
        AppState { user_store, banned_token_store, two_fa_code_store, email_client, secret }
    }
}

/// The wire body of a failed request.
#[derive(Debug, PartialEq)]
pub struct ErrorResponse {
    pub error: String,
}

impl AuthAPIError {
    /// The HTTP status each error maps to.
    pub fn status_code(&self) -> (r: u16)
        ensures
            r == self.status_code_spec(),
    {
        match *self {
            AuthAPIError::UserAlreadyExists => 409,
            AuthAPIError::InvalidCredentials => 400,
            AuthAPIError::MissingToken => 400,
            AuthAPIError::InvalidToken => 401,
            AuthAPIError::IncorrectCredentials => 401,
            AuthAPIError::UnexpectedError => 500,
        }
    }

    /// The message each error maps to; deliberately the same for an unknown
    /// user and a wrong secret.
    pub fn error_message(&self) -> (r: &'static str)
        ensures
            r@ == self.error_message_spec(),
    {
        match *self {
            AuthAPIError::UserAlreadyExists => "User already exists",
            AuthAPIError::InvalidCredentials => "Invalid credentials",
            AuthAPIError::MissingToken => "Missing token",
            AuthAPIError::InvalidToken => "Invalid token",
            AuthAPIError::IncorrectCredentials => "Incorrect credentials",
            AuthAPIError::UnexpectedError => "Unexpected error",
        }
    }

    /// Status and body, as the boundary sends them.
    pub fn to_response(&self) -> (r: (u16, ErrorResponse))
        ensures
            r.0 == self.status_code_spec(),
            r.1.error@ == self.error_message_spec(),
    {
        let status = self.status_code();
        let message = self.error_message();
        (status, ErrorResponse { error: message.to_owned() })
    }

    /// The status mapping as a spec function.
    pub open spec fn status_code_spec(&self) -> u16 {
        match *self {
            AuthAPIError::UserAlreadyExists => 409u16,
            AuthAPIError::InvalidCredentials => 400u16,
            AuthAPIError::MissingToken => 400u16,
            AuthAPIError::InvalidToken => 401u16,
            AuthAPIError::IncorrectCredentials => 401u16,
            AuthAPIError::UnexpectedError => 500u16,
        }
    }

    /// The message mapping as a spec function.
    pub open spec fn error_message_spec(&self) -> Seq<char> {
        match *self {
            AuthAPIError::UserAlreadyExists => "User already exists"@,
            AuthAPIError::InvalidCredentials => "Invalid credentials"@,
            AuthAPIError::MissingToken => "Missing token"@,
            AuthAPIError::InvalidToken => "Invalid token"@,
            AuthAPIError::IncorrectCredentials => "Incorrect credentials"@,
            AuthAPIError::UnexpectedError => "Unexpected error"@,
        }
    }
}

} // verus!
