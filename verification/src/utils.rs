//! The token service and its wire-format helpers.

pub mod auth;
pub mod claims;
pub mod base64url;
pub mod constants;
