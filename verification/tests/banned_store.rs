//! The in-memory revocation set.

use auth_service::domain::data_stores::BannedTokenStore;
use auth_service::services::hashset_banned_token_store::HashSetBannedTokenStore;

#[test]
fn test_add() {
    let mut store = HashSetBannedTokenStore::default();
    store.add("some_token".to_string())
}

#[test]
fn test_contains_after_add() {
    let mut store = HashSetBannedTokenStore::new();
    assert!(!store.contains("some_token"));
    store.add("some_token".to_string());
    assert!(store.contains("some_token"));
    assert!(!store.contains("another_token"));
    store.add("some_token".to_string());
    assert!(store.contains("some_token"));
}
