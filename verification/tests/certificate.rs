use kerosene_node::ledger::account_state::AccountState;
use kerosene_node::ledger::certificate::{CertifiedSnapshot, Checkpoint, NodeSignature, QuorumCertificate};
use kerosene_node::ledger::state_machine::{LedgerState, MembershipView};
use kerosene_node::ledger::state_root::compute_state_root;

fn test_membership() -> MembershipView {
    MembershipView::single_node("cluster-1", "node-1")
}

#[test]
fn quorum_certificate_single_mode_creation() {
    let qc = QuorumCertificate::single_node(
        "cluster-1",
        1,
        0,
        42,
        "cmd-hash-abc",
        "prev-root",
        "result-root",
        "node-1",
        "sig-hex-123",
    );

    assert_eq!(qc.cluster_id, "cluster-1");
    assert_eq!(qc.epoch, 1);
    assert_eq!(qc.sequence, 42);
    assert_eq!(qc.command_hash, "cmd-hash-abc");
    assert_eq!(qc.signer_count(), 1);
    assert_eq!(qc.signatures[0].node_id, "node-1");
    assert_eq!(qc.signatures[0].signature_hex, "sig-hex-123");
    assert_eq!(qc.signer_bitmap, vec![0b0000_0001]);
}

#[test]
fn quorum_certificate_basic_verification_passes() {
    let qc = QuorumCertificate::single_node(
        "cluster-1", 1, 0, 42, "hash", "prev-root", "result-root", "node-1", "sig",
    );
    assert!(qc.verify_basic().is_ok());
}

#[test]
fn quorum_certificate_empty_state_root_fails() {
    let qc = QuorumCertificate {
        previous_state_root: String::new(),
        ..QuorumCertificate::single_node(
            "cluster-1", 1, 0, 42, "hash", "prev-root", "result-root", "node-1", "sig",
        )
    };
    assert!(qc.verify_basic().is_err());
}

#[test]
fn quorum_certificate_no_signatures_fails() {
    let qc = QuorumCertificate {
        signatures: vec![],
        ..QuorumCertificate::single_node(
            "cluster-1", 1, 0, 42, "hash", "prev-root", "result-root", "node-1", "sig",
        )
    };
    assert!(qc.verify_basic().is_err());
}

#[test]
fn checkpoint_creation_from_empty_state() {
    let state = LedgerState::empty(test_membership());
    let cp = Checkpoint::from_state(&state, 100, None);

    assert_eq!(cp.sequence, state.version.saturating_sub(1));
    assert_eq!(cp.state_root, compute_state_root(&state));
    assert!(cp.quorum_certificate.is_none());
}

#[test]
fn checkpoint_state_root_matches_compute_state_root() {
    let state = LedgerState::empty(test_membership());
    let cp = Checkpoint::from_state(&state, 100, None);

    assert_eq!(cp.state_root, compute_state_root(&state));
}

#[test]
fn checkpoint_verification_passes() {
    let state = LedgerState::empty(test_membership());
    let cp = Checkpoint::from_state(&state, 100, None);
    assert!(cp.verify(&state).is_ok());
}

#[test]
fn checkpoint_verification_fails_on_modified_state() {
    let mut state = LedgerState::empty(test_membership());
    let cp = Checkpoint::from_state(&state, 100, None);

    // Modify the state
    state.accounts.push(AccountState::new("alice"));
    assert!(cp.verify(&state).is_err());
}

#[test]
fn certified_snapshot_basic_verification_passes() {
    let qc = QuorumCertificate::single_node(
        "cluster-1", 1, 0, 42, "hash", "prev", "result", "node-1", "sig",
    );

    let snapshot = CertifiedSnapshot {
        cluster_id: "cluster-1".into(),
        epoch: 1,
        sequence: 42,
        state_bytes: vec![1, 2, 3],
        state_root: "root".into(),
        membership_hash: "mem-hash".into(),
        constitution_hash: "const-hash".into(),
        policy_hash: "policy-hash".into(),
        ledger_totals_hash: "totals-hash".into(),
        utxo_set_root: "utxo-root".into(),
        consumed_intents_root: "intents-root".into(),
        quorum_certificate: qc,
    };

    assert!(snapshot.verify_basic().is_ok());
}

#[test]
fn certified_snapshot_empty_state_bytes_fails() {
    let qc = QuorumCertificate::single_node(
        "cluster-1", 1, 0, 42, "hash", "prev", "result", "node-1", "sig",
    );

    let snapshot = CertifiedSnapshot {
        cluster_id: "cluster-1".into(),
        epoch: 1,
        sequence: 42,
        state_bytes: vec![],
        state_root: "root".into(),
        membership_hash: "mem-hash".into(),
        constitution_hash: "const-hash".into(),
        policy_hash: "policy-hash".into(),
        ledger_totals_hash: "totals-hash".into(),
        utxo_set_root: "utxo-root".into(),
        consumed_intents_root: "intents-root".into(),
        quorum_certificate: qc,
    };

    assert!(snapshot.verify_basic().is_err());
}

#[test]
fn the_bitmap_counts_the_signatures() {
    let mut qc = QuorumCertificate::single_node(
        "cluster-1", 1, 0, 42, "hash", "prev-root", "result-root", "node-1", "sig",
    );
    qc.signer_bitmap = vec![0b0000_0011];
    assert!(qc.verify_basic().is_err());
    qc.signer_bitmap = vec![0, 0b1000_0000];
    assert!(qc.verify_basic().is_ok());
}

#[test]
fn a_node_that_signed_twice_counts_once() {
    let signature = |node: &str, hex: &str| NodeSignature {
        node_id: node.to_string(),
        signature_hex: hex.to_string(),
    };
    let mut qc = QuorumCertificate::single_node(
        "cluster-1", 1, 0, 42, "hash", "prev-root", "result-root", "node-1", "sig",
    );
    qc.signatures.push(signature("node-2", "aa"));
    assert_eq!(qc.signer_count(), 2);
    qc.signatures.push(signature("node-1", "bb"));
    assert_eq!(qc.signer_count(), 2);
    qc.signatures.clear();
    assert_eq!(qc.signer_count(), 0);
}
