//! Fixed names and windows of the token service.

use vstd::prelude::*;

verus! {

/// The cookie under which the session token travels.
pub const JWT_COOKIE_NAME: &'static str = "token";

/// How many seconds an issued token stays valid.
pub const TOKEN_TTL_SECONDS: u64 = 600;

} // verus!
