use kerosene_node::ledger::account_state::AccountState;
use kerosene_node::ledger::certificate::{CertifiedSnapshot, QuorumCertificate};
use kerosene_node::ledger::chain::{OnchainState, OutPoint, UtxoEntry};
use kerosene_node::ledger::command::{BalanceCommand, BalanceOperation, InternalTransferCommand};
use kerosene_node::ledger::error::LedgerError;
use kerosene_node::ledger::idempotency::IdempotencyRecord;
use kerosene_node::ledger::membership::{NodeMembership, NodeRole};
use kerosene_node::ledger::persistent::{
    add_node_write, add_utxo_write, batch_error, command_write, create_reservation_write,
    create_withdrawal_write, deserialization_error, expiry_writes, heartbeat_write,
    idempotency_write, latest_sequence, latest_snapshot_key, list_nodes_by_role, list_utxos,
    list_utxos_by_state, open_error, output_key, promote_write, release_utxo_write,
    reserve_utxo_write, serialization_error, snapshot_key, snapshot_writes, store_error,
    stored_utxo_root, transfer_writes, transition_write, update_utxo_write, Namespace, Write,
};
use kerosene_node::ledger::reservation::{Reservation, ReservationState};
use kerosene_node::ledger::withdrawal::{
    set_broadcast_txid, set_psbt, update_status, WithdrawalRecord, WithdrawalStatus,
};
use kerosene_node::ledger::chain::compute_utxo_root;
use kerosene_node::ledger::settlement::PsbtCommitment;

fn output(txid: &str) -> UtxoEntry {
    UtxoEntry::new_seen(OutPoint::new(txid, 0), 1000, "addr", 1)
}

fn node(id: &str, role: NodeRole) -> NodeMembership {
    NodeMembership {
        node_id: id.to_string(),
        role,
        onion_endpoint: None,
        identity_pubkey: "pubkey".to_string(),
        attested_at_bucket: 100,
        joined_epoch: 1,
        last_heartbeat_bucket: 100,
        admission_signature: None,
    }
}

#[test]
fn keys_of_different_kinds_never_meet() {
    let kinds = [
        Namespace::Nonce,
        Namespace::Account,
        Namespace::Reservation,
        Namespace::Idempotency,
        Namespace::Utxo,
        Namespace::Withdrawal,
        Namespace::Snapshot,
        Namespace::Membership,
    ];
    for a in kinds {
        for b in kinds {
            if a != b {
                assert!(!a.key("x").starts_with(b.prefix().as_bytes()));
            }
        }
    }
    assert_ne!(snapshot_key(1), snapshot_key(256));
    assert_ne!(snapshot_key(1), latest_snapshot_key());
}

#[test]
fn a_command_is_written_under_its_account() {
    let cmd = BalanceCommand::new("c1", "alice", 0, BalanceOperation::Credit, 100, 1);
    let write = command_write(None, &cmd).unwrap();
    assert_eq!(write.key, Namespace::Account.key("alice"));
    assert_eq!(write.value.available_sats, 100);
    assert_eq!(write.value.version, 1);
    let stale = BalanceCommand::new("c2", "alice", 0, BalanceOperation::Credit, 50, 1);
    assert!(matches!(
        command_write(Some(&write.value), &stale),
        Err(LedgerError::VersionConflict { .. })
    ));
}

#[test]
fn a_transfer_writes_both_accounts() {
    let mut alice = AccountState::new("alice");
    alice.apply_credit(100).unwrap();
    let bob = AccountState::new("bob");
    let cmd = InternalTransferCommand::new("t1", "alice", 1, "bob", 0, 30, "auth");
    let (from, to) = transfer_writes(Some(&alice), Some(&bob), &cmd).unwrap();
    assert_eq!(from.key, Namespace::Account.key("alice"));
    assert_eq!(from.value.available_sats, 70);
    assert_eq!(to.key, Namespace::Account.key("bob"));
    assert_eq!(to.value.available_sats, 30);
    assert!(transfer_writes(None, Some(&bob), &cmd).is_err());
}

#[test]
fn reservations_are_written_moved_and_expired() {
    let fresh = Reservation::new("res-1", "alice", 500, 10, 20, "auth");
    assert!(create_reservation_write(true, fresh.clone()).is_err());
    let write = create_reservation_write(false, fresh.clone()).unwrap();
    assert_eq!(write.key, Namespace::Reservation.key("res-1"));
    let moved = transition_write(
        Some(&fresh),
        "res-1",
        ReservationState::Prepared,
        ReservationState::Committed,
    )
    .unwrap();
    assert_eq!(moved.value.state, ReservationState::Committed);
    assert_eq!(
        transition_write(None, "res-9", ReservationState::Prepared, ReservationState::Released)
            .unwrap_err(),
        LedgerError::ReservationNotFound("res-9".to_string())
    );
    let later = Reservation::new("res-2", "bob", 5, 10, 90, "auth");
    let due = expiry_writes(
        vec![
            Write { key: Namespace::Reservation.key("res-1"), value: fresh },
            Write { key: Namespace::Reservation.key("res-2"), value: later },
        ],
        30,
    );
    assert_eq!(due.len(), 1);
    assert_eq!(due[0].key, Namespace::Reservation.key("res-1"));
    assert_eq!(due[0].value.state, ReservationState::Expired);
}

#[test]
fn records_are_written_under_their_command() {
    let record = IdempotencyRecord::new("cmd-1", "hash", "result", 1, "root");
    let write = idempotency_write(record.clone());
    assert_eq!(write.key, Namespace::Idempotency.key("cmd-1"));
    assert_eq!(write.value, record);
}

#[test]
fn an_output_is_added_once_and_reserved_by_one() {
    let outpoint = OutPoint::new("tx1", 0);
    assert!(add_utxo_write(true, output("tx1")).is_none());
    let write = add_utxo_write(false, output("tx1")).unwrap();
    assert_eq!(write.key, output_key(&outpoint));
    assert_eq!(write.key, Namespace::Utxo.key("tx1:0"));

    let mut spendable = output("tx1");
    spendable.state = OnchainState::Spendable;
    let reserved = reserve_utxo_write(Some(spendable), &outpoint, "res-1", 5).unwrap();
    assert_eq!(reserved.value.reserved_by, Some("res-1".to_string()));
    assert_eq!(
        reserve_utxo_write(Some(reserved.value.clone()), &outpoint, "res-2", 6).unwrap_err(),
        LedgerError::UtxoAlreadyReserved { reserved_by: "res-1".to_string() }
    );
    let released = release_utxo_write(Some(reserved.value), &outpoint).unwrap();
    assert_eq!(released.value.reserved_by, None);
    assert_eq!(
        release_utxo_write(Some(released.value), &outpoint).unwrap_err(),
        LedgerError::UtxoNotReserved
    );
    assert_eq!(
        update_utxo_write(None, &outpoint, OnchainState::Spent).unwrap_err(),
        LedgerError::UtxoNotFound { txid: "tx1".to_string(), vout: 0 }
    );
    let seen = update_utxo_write(Some(output("tx1")), &outpoint, OnchainState::InMempool).unwrap();
    assert_eq!(seen.value.state, OnchainState::InMempool);
}

#[test]
fn outputs_are_listed_by_key() {
    let mut spent = output("tx2");
    spent.state = OnchainState::Spent;
    let all = list_utxos(vec![output("tx3"), spent.clone(), output("tx1")]);
    let ids: Vec<&str> = all.iter().map(|u| u.outpoint.txid.as_str()).collect();
    assert_eq!(ids, vec!["tx1", "tx2", "tx3"]);
    let gone = list_utxos_by_state(all.clone(), OnchainState::Spent);
    assert_eq!(gone, vec![spent]);
    assert_eq!(stored_utxo_root(all.clone()), compute_utxo_root(&all));
}

#[test]
fn a_withdrawal_goes_through_its_steps() {
    let wd = WithdrawalRecord::new("wd-1", "intent-1", "account-1", 100_000, "bc1qxyz", 100);
    assert_eq!(wd.status, WithdrawalStatus::Reserved);
    let write = create_withdrawal_write(false, wd).unwrap();
    assert_eq!(write.key, Namespace::Withdrawal.key("wd-1"));
    assert_eq!(write.value.withdrawal_id, "wd-1");
    let other = WithdrawalRecord::new("wd-1", "intent-1", "account-1", 100_000, "bc1qxyz", 100);
    assert!(create_withdrawal_write(true, other).is_err());

    let wd = set_psbt(Some(write.value), "wd-1", PsbtCommitment::new(b"psbt", 1, 1, 9)).unwrap();
    assert!(wd.psbt_commitment.is_some());
    let wd = set_broadcast_txid(Some(wd), "wd-1", "tx\"1").unwrap();
    let err = set_broadcast_txid(Some(wd), "wd-1", "tx2").unwrap_err();
    assert_eq!(
        err,
        LedgerError::InvalidStateTransition(
            "withdrawal wd-1 already has broadcast txid Some(\"tx\\\"1\")".to_string()
        )
    );
    let wd = WithdrawalRecord::new("wd-2", "intent-1", "account-1", 1, "bc1q", 100);
    let wd = update_status(Some(wd), "wd-2", WithdrawalStatus::Confirmed, true, 120).unwrap();
    assert_eq!(wd.status, WithdrawalStatus::Confirmed);
    assert_eq!(wd.updated_at_bucket, 120);
    let err = update_status(Some(wd), "wd-2", WithdrawalStatus::Failed, false, 130).unwrap_err();
    assert_eq!(
        err,
        LedgerError::InvalidStateTransition(
            "cannot transition withdrawal wd-2 from Confirmed to Failed".to_string()
        )
    );
    assert_eq!(
        update_status(None, "wd-3", WithdrawalStatus::Failed, true, 1).unwrap_err(),
        LedgerError::WithdrawalNotFound("wd-3".to_string())
    );
}

#[test]
fn snapshots_are_written_with_their_sequence() {
    let snapshot = CertifiedSnapshot {
        cluster_id: "cluster-1".into(),
        epoch: 1,
        sequence: 42,
        state_bytes: vec![1, 2, 3],
        state_root: "root".into(),
        membership_hash: "mem-hash".into(),
        constitution_hash: "const-hash".into(),
        policy_hash: "policy-hash".into(),
        ledger_totals_hash: "totals-hash".into(),
        utxo_set_root: "utxo-root".into(),
        consumed_intents_root: "intents-root".into(),
        quorum_certificate: QuorumCertificate::single_node(
            "cluster-1", 1, 0, 42, "hash", "prev", "result", "node-1", "sig",
        ),
    };
    let writes = snapshot_writes(&snapshot).unwrap();
    assert_eq!(writes.snapshot.key, snapshot_key(42));
    assert_eq!(writes.snapshot.value, snapshot);
    assert_eq!(writes.latest.key, latest_snapshot_key());
    assert_eq!(latest_sequence(&writes.latest.value).unwrap(), 42);
    assert!(latest_sequence(&[1, 2, 3]).is_err());
}

#[test]
fn nodes_are_written_and_listed() {
    let write = add_node_write(false, node("node-1", NodeRole::Learner)).unwrap();
    assert_eq!(write.key, Namespace::Membership.key("node-1"));
    assert!(add_node_write(true, node("node-1", NodeRole::Learner)).is_err());
    let promoted = promote_write(Some(&write.value), "node-1", NodeRole::Voter).unwrap();
    assert_eq!(promoted.value.role, NodeRole::Voter);
    assert_eq!(
        promote_write(None, "node-9", NodeRole::Voter).unwrap_err(),
        LedgerError::NodeNotFound("node-9".to_string())
    );
    let beat = heartbeat_write(Some(&write.value), "node-1", 300).unwrap();
    assert_eq!(beat.value.last_heartbeat_bucket, 300);
    let voters = list_nodes_by_role(
        vec![
            node("b", NodeRole::Voter),
            node("c", NodeRole::Observer),
            node("a", NodeRole::Voter),
        ],
        NodeRole::Voter,
    );
    let ids: Vec<&str> = voters.iter().map(|n| n.node_id.as_str()).collect();
    assert_eq!(ids, vec!["a", "b"]);
}

#[test]
fn failures_of_the_database_keep_their_text() {
    for error in [
        store_error("boom"),
        batch_error("boom"),
        open_error("boom"),
        serialization_error("boom"),
        deserialization_error("boom"),
    ] {
        assert!(error.message().contains("boom"));
    }
}
