use kerosene_node::ledger::account_state::AccountState;
use kerosene_node::ledger::error::LedgerError;

#[test]
fn starts_at_version_zero() {
    let acc = AccountState::new("test");
    assert_eq!(acc.version, 0);
    assert_eq!(acc.available_sats, 0);
    assert_eq!(acc.reserved_sats, 0);
    assert_eq!(acc.spendable(), 0);
}

#[test]
fn credit_increases_available_and_version() {
    let mut acc = AccountState::new("test");
    acc.apply_credit(100).unwrap();
    assert_eq!(acc.available_sats, 100);
    assert_eq!(acc.version, 1);
}

#[test]
fn debit_reduces_available() {
    let mut acc = AccountState::new("test");
    acc.apply_credit(100).unwrap();
    acc.apply_debit(40).unwrap();
    assert_eq!(acc.available_sats, 60);
    assert_eq!(acc.version, 2);
}

#[test]
fn debit_fails_on_insufficient_funds() {
    let mut acc = AccountState::new("test");
    acc.apply_credit(50).unwrap();
    let err = acc.apply_debit(100).unwrap_err();
    assert!(matches!(err, LedgerError::InsufficientFunds { .. }));
    assert_eq!(acc.available_sats, 50); // unchanged
}

#[test]
fn debit_fails_when_reserved_consumes_available() {
    let mut acc = AccountState::new("test");
    acc.apply_credit(100).unwrap();
    acc.apply_reserve(80).unwrap();
    // spendable = 20, so debit 30 should fail
    let err = acc.apply_debit(30).unwrap_err();
    assert!(matches!(err, LedgerError::InsufficientFunds { .. }));
    assert_eq!(acc.available_sats, 20); // 100 - 80 reserved
    assert_eq!(acc.reserved_sats, 80);
}

#[test]
fn reserve_moves_to_reserved() {
    let mut acc = AccountState::new("test");
    acc.apply_credit(100).unwrap();
    acc.apply_reserve(60).unwrap();
    assert_eq!(acc.available_sats, 40);
    assert_eq!(acc.reserved_sats, 60);
    assert_eq!(acc.spendable(), 40); // reserved funds excluded from available
    assert_eq!(acc.version, 2);
}

#[test]
fn reserve_fails_when_insufficient() {
    let mut acc = AccountState::new("test");
    acc.apply_credit(30).unwrap();
    let err = acc.apply_reserve(50).unwrap_err();
    assert!(matches!(err, LedgerError::InsufficientFunds { .. }));
    assert_eq!(acc.available_sats, 30);
}

#[test]
fn release_restores_available() {
    let mut acc = AccountState::new("test");
    acc.apply_credit(100).unwrap();
    acc.apply_reserve(60).unwrap();
    acc.apply_release_reservation(30).unwrap();
    assert_eq!(acc.available_sats, 70); // 40 + 30
    assert_eq!(acc.reserved_sats, 30);
    assert_eq!(acc.version, 3);
}

#[test]
fn release_fails_on_excessive_amount() {
    let mut acc = AccountState::new("test");
    acc.apply_credit(100).unwrap();
    acc.apply_reserve(30).unwrap();
    let err = acc.apply_release_reservation(50).unwrap_err();
    assert!(matches!(err, LedgerError::InvariantViolation(_)));
}

#[test]
fn consume_removes_from_reserved() {
    let mut acc = AccountState::new("test");
    acc.apply_credit(100).unwrap();
    acc.apply_reserve(60).unwrap();
    acc.apply_consume_reservation(60).unwrap();
    assert_eq!(acc.available_sats, 40);
    assert_eq!(acc.reserved_sats, 0);
    assert_eq!(acc.version, 3);
}

#[test]
fn consume_fails_on_excessive_amount() {
    let mut acc = AccountState::new("test");
    acc.apply_credit(100).unwrap();
    acc.apply_reserve(30).unwrap();
    let err = acc.apply_consume_reservation(50).unwrap_err();
    assert!(matches!(err, LedgerError::InvariantViolation(_)));
}

#[test]
fn version_conflict_on_mismatch() {
    let mut acc = AccountState::new("test");
    acc.apply_credit(50).unwrap(); // version = 1
    let err = acc.check_version(0).unwrap_err();
    assert!(matches!(err, LedgerError::VersionConflict { .. }));
}

#[test]
fn spendable_saturates_correctly() {
    let mut acc = AccountState::new("test");
    // With no balance, spendable is 0
    assert_eq!(acc.spendable(), 0);
    // With only reserved, spendable is 0 (no available)
    acc.reserved_sats = 100;
    assert_eq!(acc.spendable(), 0);
    // With available > 0 (reserved is excluded from available_sats)
    acc.available_sats = 200;
    assert_eq!(acc.spendable(), 200); // spendable = available_sats
}

#[test]
fn set_last_committed_sequence_increments_version() {
    let mut acc = AccountState::new("test");
    assert_eq!(acc.version, 0);
    acc.set_last_committed_sequence(42);
    assert_eq!(acc.last_committed_sequence, 42);
    assert_eq!(acc.version, 1);
}

#[test]
fn release_undoes_reserve_and_keeps_the_total() {
    let mut acc = AccountState::new("test");
    acc.apply_credit(100).unwrap();
    acc.apply_reserve(60).unwrap();
    assert_eq!(acc.available_sats + acc.reserved_sats, 100);
    acc.apply_release_reservation(60).unwrap();
    assert_eq!(acc.available_sats, 100);
    assert_eq!(acc.reserved_sats, 0);
}

#[test]
fn a_credit_that_does_not_fit_is_refused() {
    let mut acc = AccountState::new("test");
    acc.apply_credit(u64::MAX).unwrap();
    assert!(acc.apply_credit(1).is_err());
    assert_eq!(acc.available_sats, u64::MAX);
    assert_eq!(acc.version, 1);
    assert_eq!(
        acc.check_version(0),
        Err(LedgerError::VersionConflict { account: "test".to_string(), expected: 0, current: 1 })
    );
}

#[test]
fn a_refused_operation_changes_nothing() {
    let mut acc = AccountState::new("test");
    acc.available_sats = 10;
    acc.reserved_sats = u64::MAX;
    let before = acc.clone();
    assert!(acc.apply_reserve(5).is_err());
    assert_eq!(acc, before);
    acc.available_sats = u64::MAX;
    let before = acc.clone();
    assert!(acc.apply_release_reservation(5).is_err());
    assert_eq!(acc, before);
}
