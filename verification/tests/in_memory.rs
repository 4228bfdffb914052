use kerosene_node::ledger::account_state::AccountState;
use kerosene_node::ledger::command::{BalanceCommand, BalanceOperation, InternalTransferCommand};
use kerosene_node::ledger::error::LedgerError;
use kerosene_node::ledger::idempotency::IdempotencyRecord;
use kerosene_node::ledger::in_memory::{InMemoryIdempotencyStore, InMemoryReservationStore, InMemoryVersionedAccountStore};
use kerosene_node::ledger::reservation::{Reservation, ReservationState};

// VersionedAccountStore tests

#[test]
fn get_account_returns_none_for_unknown() {
    let mut store = InMemoryVersionedAccountStore::new();
    let result = store.get_account("unknown").unwrap();
    assert!(result.is_none());
}

#[test]
fn apply_credit_creates_account() {
    let mut store = InMemoryVersionedAccountStore::new();
    let cmd = BalanceCommand::new("c1", "alice", 0, BalanceOperation::Credit, 100, 1);
    let state = store.apply_command(&cmd).unwrap();
    assert_eq!(state.available_sats, 100);
    assert_eq!(state.version, 1);
}

#[test]
fn apply_command_checks_version() {
    let mut store = InMemoryVersionedAccountStore::new();
    // Create account with version 0
    let cmd1 = BalanceCommand::new("c1", "alice", 0, BalanceOperation::Credit, 100, 1);
    store.apply_command(&cmd1).unwrap();

    // Try with wrong version
    let cmd2 = BalanceCommand::new("c2", "alice", 0, BalanceOperation::Credit, 50, 1);
    let err = store.apply_command(&cmd2).unwrap_err();
    assert!(matches!(err, LedgerError::VersionConflict { .. }));
}

#[test]
fn apply_debit_reduces_balance() {
    let mut store = InMemoryVersionedAccountStore::new();
    let credit = BalanceCommand::new("c1", "bob", 0, BalanceOperation::Credit, 200, 1);
    store.apply_command(&credit).unwrap();

    let debit = BalanceCommand::new("c2", "bob", 1, BalanceOperation::Debit, 80, 1);
    let state = store.apply_command(&debit).unwrap();
    assert_eq!(state.available_sats, 120);
    assert_eq!(state.version, 2);
}

#[test]
fn apply_debit_fails_insufficient_funds() {
    let mut store = InMemoryVersionedAccountStore::new();
    let credit = BalanceCommand::new("c1", "bob", 0, BalanceOperation::Credit, 50, 1);
    store.apply_command(&credit).unwrap();

    let debit = BalanceCommand::new("c2", "bob", 1, BalanceOperation::Debit, 100, 1);
    let err = store.apply_command(&debit).unwrap_err();
    assert!(matches!(err, LedgerError::InsufficientFunds { .. }));
}

#[test]
fn apply_reserve_moves_funds() {
    let mut store = InMemoryVersionedAccountStore::new();
    let credit = BalanceCommand::new("c1", "carol", 0, BalanceOperation::Credit, 500, 1);
    store.apply_command(&credit).unwrap();

    let reserve = BalanceCommand::new("c2", "carol", 1, BalanceOperation::Reserve, 200, 1);
    let state = store.apply_command(&reserve).unwrap();
    assert_eq!(state.available_sats, 300);
    assert_eq!(state.reserved_sats, 200);
}

#[test]
fn apply_release_restores_balance() {
    let mut store = InMemoryVersionedAccountStore::new();
    store
        .apply_command(&BalanceCommand::new(
            "c1",
            "carol",
            0,
            BalanceOperation::Credit,
            500,
            1,
        ))
        .unwrap();
    store
        .apply_command(&BalanceCommand::new(
            "c2",
            "carol",
            1,
            BalanceOperation::Reserve,
            200,
            1,
        ))
        .unwrap();

    let release = BalanceCommand::new(
        "c3",
        "carol",
        2,
        BalanceOperation::ReleaseReservation,
        100,
        1,
    );
    let state = store.apply_command(&release).unwrap();
    assert_eq!(state.available_sats, 400);
    assert_eq!(state.reserved_sats, 100);
}

#[test]
fn concurrent_debits_dont_overflow() {
    let mut store = InMemoryVersionedAccountStore::new();
    store
        .apply_command(&BalanceCommand::new(
            "c1",
            "dave",
            0,
            BalanceOperation::Credit,
            1000,
            1,
        ))
        .unwrap();

    // Simulate two concurrent debits both seeing version 1
    let debit1 = BalanceCommand::new("c2", "dave", 1, BalanceOperation::Debit, 600, 1);
    let debit2 = BalanceCommand::new("c3", "dave", 1, BalanceOperation::Debit, 500, 1);

    // One should succeed, one should fail with VersionConflict
    let r1 = store.apply_command(&debit1);
    let r2 = store.apply_command(&debit2);

    // Exactly one should succeed
    let successes = [r1.as_ref().ok(), r2.as_ref().ok()]
        .iter()
        .filter(|r| r.is_some())
        .count();
    assert_eq!(successes, 1);

    // The other should be a version conflict
    let conflicts = [&r1, &r2]
        .iter()
        .filter(|r| matches!(r, Err(LedgerError::VersionConflict { .. })))
        .count();
    assert_eq!(conflicts, 1);
}

// Transfer tests

#[test]
fn valid_transfer_updates_both_accounts() {
    let mut store = InMemoryVersionedAccountStore::new();
    store
        .apply_command(&BalanceCommand::new(
            "c1",
            "alice",
            0,
            BalanceOperation::Credit,
            1000,
            1,
        ))
        .unwrap();
    store
        .apply_command(&BalanceCommand::new(
            "c2",
            "bob",
            0,
            BalanceOperation::Credit,
            500,
            1,
        ))
        .unwrap();

    let transfer = InternalTransferCommand::new("tx1", "alice", 1, "bob", 1, 300, "auth-1");
    let (src, dst) = store.apply_transfer(&transfer).unwrap();

    assert_eq!(src.available_sats, 700);
    assert_eq!(src.version, 2);
    assert_eq!(dst.available_sats, 800);
    assert_eq!(dst.version, 2);
}

#[test]
fn transfer_insufficient_source_balance_rejected() {
    let mut store = InMemoryVersionedAccountStore::new();
    store
        .apply_command(&BalanceCommand::new(
            "c1",
            "alice",
            0,
            BalanceOperation::Credit,
            100,
            1,
        ))
        .unwrap();
    store
        .apply_command(&BalanceCommand::new(
            "c2",
            "bob",
            0,
            BalanceOperation::Credit,
            500,
            1,
        ))
        .unwrap();

    let transfer = InternalTransferCommand::new("tx1", "alice", 1, "bob", 1, 300, "auth-1");
    let err = store.apply_transfer(&transfer).unwrap_err();
    assert!(matches!(err, LedgerError::InsufficientFunds { .. }));

    // Verify neither account changed
    let alice = store.get_account("alice").unwrap().unwrap();
    let bob = store.get_account("bob").unwrap().unwrap();
    assert_eq!(alice.available_sats, 100);
    assert_eq!(bob.available_sats, 500);
}

#[test]
fn transfer_version_mismatch_on_source_rejected() {
    let mut store = InMemoryVersionedAccountStore::new();
    store
        .apply_command(&BalanceCommand::new(
            "c1",
            "alice",
            0,
            BalanceOperation::Credit,
            1000,
            1,
        ))
        .unwrap();
    store
        .apply_command(&BalanceCommand::new(
            "c2",
            "bob",
            0,
            BalanceOperation::Credit,
            500,
            1,
        ))
        .unwrap();

    let transfer = InternalTransferCommand::new("tx1", "alice", 0, "bob", 1, 300, "auth-1");
    let err = store.apply_transfer(&transfer).unwrap_err();
    assert!(matches!(err, LedgerError::VersionConflict { .. }));
}

#[test]
fn transfer_version_mismatch_on_dest_rejected() {
    let mut store = InMemoryVersionedAccountStore::new();
    store
        .apply_command(&BalanceCommand::new(
            "c1",
            "alice",
            0,
            BalanceOperation::Credit,
            1000,
            1,
        ))
        .unwrap();
    store
        .apply_command(&BalanceCommand::new(
            "c2",
            "bob",
            0,
            BalanceOperation::Credit,
            500,
            1,
        ))
        .unwrap();

    let transfer = InternalTransferCommand::new("tx1", "alice", 1, "bob", 0, 300, "auth-1");
    let err = store.apply_transfer(&transfer).unwrap_err();
    assert!(matches!(err, LedgerError::VersionConflict { .. }));
}

#[test]
fn transfer_source_not_found_rejected() {
    let mut store = InMemoryVersionedAccountStore::new();
    store
        .apply_command(&BalanceCommand::new(
            "c1",
            "bob",
            0,
            BalanceOperation::Credit,
            500,
            1,
        ))
        .unwrap();

    let transfer =
        InternalTransferCommand::new("tx1", "nonexistent", 0, "bob", 1, 100, "auth-1");
    let err = store.apply_transfer(&transfer).unwrap_err();
    assert!(matches!(err, LedgerError::AtomicTransferFailed(_)));
}

#[test]
fn transfer_dest_not_found_rejected() {
    let mut store = InMemoryVersionedAccountStore::new();
    store
        .apply_command(&BalanceCommand::new(
            "c1",
            "alice",
            0,
            BalanceOperation::Credit,
            1000,
            1,
        ))
        .unwrap();

    let transfer =
        InternalTransferCommand::new("tx1", "alice", 1, "nonexistent", 0, 100, "auth-1");
    let err = store.apply_transfer(&transfer).unwrap_err();
    assert!(matches!(err, LedgerError::AtomicTransferFailed(_)));
}

// ReservationStore tests

#[test]
fn create_and_get_reservation() {
    let mut store = InMemoryReservationStore::new();
    let r = Reservation::new("res-1", "alice", 500, 10, 100, "auth-1");
    store.create_reservation(r.clone()).unwrap();

    let fetched = store.get_reservation("res-1").unwrap();
    assert_eq!(fetched, Some(r));
}

#[test]
fn double_reservation_rejected() {
    let mut store = InMemoryReservationStore::new();
    let r = Reservation::new("res-1", "alice", 500, 10, 100, "auth-1");
    store.create_reservation(r.clone()).unwrap();
    let err = store.create_reservation(r).unwrap_err();
    assert!(matches!(err, LedgerError::InvariantViolation(_)));
}

#[test]
fn transition_works() {
    let mut store = InMemoryReservationStore::new();
    let r = Reservation::new("res-1", "alice", 500, 10, 100, "auth-1");
    store.create_reservation(r).unwrap();

    store
        .transition(
            "res-1",
            ReservationState::Prepared,
            ReservationState::Committed,
        )
        .unwrap();
    let fetched = store.get_reservation("res-1").unwrap().unwrap();
    assert_eq!(fetched.state, ReservationState::Committed);

    store
        .transition(
            "res-1",
            ReservationState::Committed,
            ReservationState::Consumed,
        )
        .unwrap();
    let fetched = store.get_reservation("res-1").unwrap().unwrap();
    assert_eq!(fetched.state, ReservationState::Consumed);
}

#[test]
fn transition_wrong_from_state_rejected() {
    let mut store = InMemoryReservationStore::new();
    let r = Reservation::new("res-1", "alice", 500, 10, 100, "auth-1");
    store.create_reservation(r).unwrap();

    let err = store
        .transition(
            "res-1",
            ReservationState::Committed,
            ReservationState::Consumed,
        )
        .unwrap_err();
    assert!(matches!(err, LedgerError::InvariantViolation(_)));
}

#[test]
fn reservation_not_found() {
    let mut store = InMemoryReservationStore::new();
    let result = store.get_reservation("nonexistent").unwrap();
    assert!(result.is_none());
}

#[test]
fn expire_stale_expires_unconsumed_reservations() {
    let mut store = InMemoryReservationStore::new();
    let r1 = Reservation::new("res-1", "a", 100, 0, 10, "auth");
    let r2 = Reservation::new("res-2", "b", 200, 0, 20, "auth");
    let r3 = Reservation::new("res-3", "c", 300, 0, 30, "auth");

    store.create_reservation(r1).unwrap();
    store.create_reservation(r2).unwrap();
    store.create_reservation(r3).unwrap();

    // Manually transition r3 to consumed
    store
        .transition(
            "res-3",
            ReservationState::Prepared,
            ReservationState::Committed,
        )
        .unwrap();
    store
        .transition(
            "res-3",
            ReservationState::Committed,
            ReservationState::Consumed,
        )
        .unwrap();

    let count = store.expire_stale(25).unwrap();
    assert_eq!(count, 2); // res-1 and res-2 should expire

    let f1 = store.get_reservation("res-1").unwrap().unwrap();
    assert_eq!(f1.state, ReservationState::Expired);

    let f2 = store.get_reservation("res-2").unwrap().unwrap();
    assert_eq!(f2.state, ReservationState::Expired);

    // Consumed reservation should not be expired
    let f3 = store.get_reservation("res-3").unwrap().unwrap();
    assert_eq!(f3.state, ReservationState::Consumed);
}

// IdempotencyStore tests

#[test]
fn idempotency_same_hash_returns_existing() {
    let mut store = InMemoryIdempotencyStore::new();
    let rec = IdempotencyRecord::new("cmd-1", "hash-abc", "result-xyz", 42, "root-123");
    store.record(rec.clone()).unwrap();

    let result = store.check("cmd-1", "hash-abc").unwrap();
    assert_eq!(result, Some(rec));
}

#[test]
fn idempotency_different_hash_returns_conflict() {
    let mut store = InMemoryIdempotencyStore::new();
    let rec = IdempotencyRecord::new("cmd-1", "hash-abc", "result-xyz", 42, "root-123");
    store.record(rec).unwrap();

    let err = store.check("cmd-1", "hash-def").unwrap_err();
    assert!(matches!(err, LedgerError::IdempotencyConflict { .. }));
}

#[test]
fn idempotency_no_record_returns_none() {
    let mut store = InMemoryIdempotencyStore::new();
    let result = store.check("unknown", "hash").unwrap();
    assert!(result.is_none());
}

#[test]
fn idempotency_record_stored_and_retrievable() {
    let mut store = InMemoryIdempotencyStore::new();
    let rec = IdempotencyRecord::new("cmd-1", "hash-abc", "result-xyz", 42, "root-123");
    store.record(rec.clone()).unwrap();

    let result = store.check("cmd-1", "hash-abc").unwrap();
    assert_eq!(result, Some(rec));
}

#[test]
fn expiring_twice_expires_nothing_more() {
    let mut store = InMemoryReservationStore::new();
    store.create_reservation(Reservation::new("res-1", "a", 100, 0, 10, "auth")).unwrap();
    assert_eq!(store.expire_stale(25).unwrap(), 1);
    assert_eq!(store.expire_stale(25).unwrap(), 0);
}

#[test]
fn a_transition_of_an_unknown_reservation_is_refused() {
    let mut store = InMemoryReservationStore::new();
    assert_eq!(
        store
            .transition("res-9", ReservationState::Prepared, ReservationState::Committed)
            .unwrap_err(),
        LedgerError::ReservationNotFound("res-9".to_string())
    );
}

#[test]
fn a_store_starts_with_its_accounts() {
    let mut alice = AccountState::new("alice");
    alice.apply_credit(7).unwrap();
    let mut store = InMemoryVersionedAccountStore::with_accounts(vec![alice]);
    assert_eq!(store.get_account("alice").unwrap().unwrap().available_sats, 7);
    store.insert(AccountState::new("alice"));
    assert_eq!(store.get_account("alice").unwrap().unwrap().available_sats, 0);
}

#[test]
fn a_transfer_to_oneself_leaves_the_balance() {
    let mut alice = AccountState::new("alice");
    alice.apply_credit(500).unwrap();
    let mut store = InMemoryVersionedAccountStore::with_accounts(vec![alice]);
    let transfer = InternalTransferCommand::new("tx1", "alice", 1, "alice", 1, 300, "auth-1");
    let (src, dst) = store.apply_transfer(&transfer).unwrap();
    assert_eq!(src.available_sats, 200);
    assert_eq!(dst.available_sats, 500);
    let stored = store.get_account("alice").unwrap().unwrap();
    assert_eq!(stored.available_sats, 500);
    assert_eq!(stored.version, 3);
    let again = InternalTransferCommand::new("tx2", "alice", 3, "alice", 3, 501, "auth-1");
    assert!(store.apply_transfer(&again).is_err());
}
