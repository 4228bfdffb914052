use kerosene_node::ledger::error::LedgerError;
use kerosene_node::ledger::nonce::{nonce_marked, InMemoryNonceChecker, NonceChecker};
use kerosene_node::ledger::settlement::NonceChecker as SyncNonceChecker;

#[test]
fn fresh_nonce_is_not_consumed() {
    let mut nc = InMemoryNonceChecker::new();
    assert!(!nc.is_consumed("nonce-1").unwrap());
}

#[test]
fn mark_consumed_works() {
    let mut nc = InMemoryNonceChecker::new();
    nc.mark_consumed("nonce-1").unwrap();
    assert!(nc.is_consumed("nonce-1").unwrap());
}

#[test]
fn double_consumption_returns_error() {
    let mut nc = InMemoryNonceChecker::new();
    nc.mark_consumed("nonce-1").unwrap();
    let err = nc.mark_consumed("nonce-1").unwrap_err();
    assert!(matches!(err, LedgerError::AuthorizationInvalid(_)));
}

#[test]
fn different_nonces_are_independent() {
    let mut nc = InMemoryNonceChecker::new();
    nc.mark_consumed("nonce-1").unwrap();
    assert!(!nc.is_consumed("nonce-2").unwrap());
    assert!(nc.is_consumed("nonce-1").unwrap());
}

#[test]
fn sync_check_matches_async() {
    let mut nc = InMemoryNonceChecker::new();
    nc.mark_consumed("nonce-1").unwrap();
    assert!(nc.is_consumed_sync("nonce-1"));
    assert!(!nc.is_consumed_sync("nonce-2"));
}

#[test]
fn what_was_seen_is_consumed() {
    let mut nc = InMemoryNonceChecker::default();
    assert!(!nc.is_consumed_sync("nonce-1"));
    nc.mark_consumed_sync("nonce-1");
    assert!(nc.is_consumed("nonce-1").unwrap());
    assert!(nc.mark_consumed("nonce-1").is_err());
}

#[test]
fn recording_a_nonce_again_is_refused() {
    assert!(nonce_marked(false, "n").is_ok());
    assert_eq!(
        nonce_marked(true, "n"),
        Err(LedgerError::AuthorizationInvalid("nonce already consumed: n".to_string()))
    );
}
