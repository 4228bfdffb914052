use kerosene_node::ledger::certificate::{CertifiedSnapshot, QuorumCertificate};
use kerosene_node::ledger::error::LedgerError;
use kerosene_node::ledger::snapshot::{restore, InMemorySnapshotStore, SnapshotStore};
use kerosene_node::ledger::state_machine::{LedgerState, MembershipView};
use kerosene_node::ledger::state_root::{compute_membership_hash, compute_state_root};

fn empty_state() -> LedgerState {
    LedgerState::empty(MembershipView::single_node("cluster-1", "node-1"))
}

fn create_test_snapshot(sequence: u64) -> CertifiedSnapshot {
    let qc = QuorumCertificate::single_node(
        "cluster-1",
        1,
        0,
        sequence,
        "cmd-hash",
        "prev-root",
        "result-root",
        "node-1",
        "sig",
    );

    let state = empty_state();
    let state_root = compute_state_root(&state);
    let state_bytes = b"empty state".to_vec();

    CertifiedSnapshot {
        cluster_id: "cluster-1".into(),
        epoch: 1,
        sequence,
        state_bytes,
        state_root,
        membership_hash: compute_membership_hash(&state.membership),
        constitution_hash: "const-hash".into(),
        policy_hash: "policy-hash".into(),
        ledger_totals_hash: "totals-hash".into(),
        utxo_set_root: "utxo-root".into(),
        consumed_intents_root: "intents-root".into(),
        quorum_certificate: qc,
    }
}

#[test]
fn save_and_retrieve_latest() {
    let mut store = InMemorySnapshotStore::new();
    let snap = create_test_snapshot(42);
    store.save_snapshot(&snap).unwrap();

    let latest = store.latest_snapshot().unwrap().unwrap();
    assert_eq!(latest.sequence, 42);
}

#[test]
fn save_and_retrieve_by_sequence() {
    let mut store = InMemorySnapshotStore::new();
    let snap1 = create_test_snapshot(10);
    let snap2 = create_test_snapshot(20);
    let snap3 = create_test_snapshot(30);

    store.save_snapshot(&snap1).unwrap();
    store.save_snapshot(&snap2).unwrap();
    store.save_snapshot(&snap3).unwrap();

    let got = store.get_snapshot(20).unwrap().unwrap();
    assert_eq!(got.sequence, 20);
}

#[test]
fn latest_is_highest_sequence() {
    let mut store = InMemorySnapshotStore::new();
    store
        .save_snapshot(&create_test_snapshot(10))
        .unwrap();
    store
        .save_snapshot(&create_test_snapshot(30))
        .unwrap();
    store
        .save_snapshot(&create_test_snapshot(20))
        .unwrap();

    let latest = store.latest_snapshot().unwrap().unwrap();
    assert_eq!(latest.sequence, 30);
}

#[test]
fn install_snapshot_returns_state() {
    let mut store = InMemorySnapshotStore::new();
    let snap = create_test_snapshot(42);
    store.save_snapshot(&snap).unwrap();

    let retrieved = store.get_snapshot(42).unwrap().unwrap();
    let state = store.install_snapshot(&retrieved, Ok(empty_state())).unwrap();
    assert_eq!(state.membership.cluster_id, "cluster-1");
}

#[test]
fn install_invalid_snapshot_fails() {
    let mut store = InMemorySnapshotStore::new();
    let mut snap = create_test_snapshot(42);
    snap.state_root = "tampered-root".into();

    let err = store.install_snapshot(&snap, Ok(empty_state())).unwrap_err();
    assert!(matches!(err, LedgerError::StateRootMismatch { .. }));
}

#[test]
fn empty_store_returns_none() {
    let mut store = InMemorySnapshotStore::new();
    assert!(store.latest_snapshot().unwrap().is_none());
    assert!(store.get_snapshot(1).unwrap().is_none());
}

#[test]
fn saving_again_replaces_a_snapshot() {
    let mut store = InMemorySnapshotStore::new();
    store.save_snapshot(&create_test_snapshot(7)).unwrap();
    let mut newer = create_test_snapshot(7);
    newer.policy_hash = "policy-hash-2".into();
    store.save_snapshot(&newer).unwrap();
    assert_eq!(store.get_snapshot(7).unwrap(), Some(newer));
}

#[test]
fn an_unusable_snapshot_is_not_saved() {
    let mut store = InMemorySnapshotStore::new();
    let mut snap = create_test_snapshot(7);
    snap.state_bytes = Vec::new();
    assert!(store.save_snapshot(&snap).is_err());
    assert!(store.latest_snapshot().unwrap().is_none());
}

#[test]
fn a_restored_state_has_the_certified_root() {
    let snap = create_test_snapshot(42);
    let state = restore(&snap, Ok(empty_state())).unwrap();
    assert_eq!(compute_state_root(&state), snap.state_root);
    let err = restore(&snap, Err("truncated".to_string())).unwrap_err();
    assert_eq!(
        err,
        LedgerError::InvalidSignature("failed to deserialize snapshot state: truncated".to_string())
    );
}
