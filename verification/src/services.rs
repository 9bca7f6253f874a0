//! In-memory implementations of the store interfaces and of the
//! notification sender.

pub mod hashmap_2fa_token_store;
pub mod hashmap_user_store;
pub mod hashset_banned_token_store;
pub mod mock_email_client;
