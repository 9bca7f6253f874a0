//! The request handlers: each one drives the stores and collaborators and
//! is specified against a spec-level transition on the ghost `AuthModel`.

pub mod login;
pub mod logout;
pub mod signup;
pub mod verify_2fa;
pub mod verify_token;
