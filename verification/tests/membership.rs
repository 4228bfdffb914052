use kerosene_node::ledger::error::LedgerError;
use kerosene_node::ledger::membership::{AdmissionFlow, InMemoryMembershipStore, MembershipGate, MembershipStore, NodeMembership, NodeRole, VotingGate, validate_role_transition};
use kerosene_node::ledger::replication::{ReplicationStatus, SyncStatus};

// NodeRole transition tests

#[test]
fn untrusted_to_observer_allowed() {
    assert!(validate_role_transition(NodeRole::Untrusted, NodeRole::Observer).is_ok());
}

#[test]
fn observer_to_learner_allowed() {
    assert!(validate_role_transition(NodeRole::Observer, NodeRole::Learner).is_ok());
}

#[test]
fn learner_to_voter_allowed() {
    assert!(validate_role_transition(NodeRole::Learner, NodeRole::Voter).is_ok());
}

#[test]
fn voter_to_observer_demotion_allowed() {
    assert!(validate_role_transition(NodeRole::Voter, NodeRole::Observer).is_ok());
}

#[test]
fn any_to_untrusted_removal_allowed() {
    assert!(validate_role_transition(NodeRole::Untrusted, NodeRole::Untrusted).is_ok());
    assert!(validate_role_transition(NodeRole::Observer, NodeRole::Untrusted).is_ok());
    assert!(validate_role_transition(NodeRole::Learner, NodeRole::Untrusted).is_ok());
    assert!(validate_role_transition(NodeRole::Voter, NodeRole::Untrusted).is_ok());
}

#[test]
fn untrusted_to_voter_direct_rejected() {
    let err = validate_role_transition(NodeRole::Untrusted, NodeRole::Voter).unwrap_err();
    assert!(matches!(err, LedgerError::InvalidRoleTransition { .. }));
}

#[test]
fn untrusted_to_learner_direct_rejected() {
    let err = validate_role_transition(NodeRole::Untrusted, NodeRole::Learner).unwrap_err();
    assert!(matches!(err, LedgerError::InvalidRoleTransition { .. }));
}

#[test]
fn observer_to_voter_direct_rejected() {
    let err = validate_role_transition(NodeRole::Observer, NodeRole::Voter).unwrap_err();
    assert!(matches!(err, LedgerError::InvalidRoleTransition { .. }));
}

#[test]
fn voter_to_learner_direct_rejected() {
    let err = validate_role_transition(NodeRole::Voter, NodeRole::Learner).unwrap_err();
    assert!(matches!(err, LedgerError::InvalidRoleTransition { .. }));
}

// VotingGate tests

fn make_voter_status() -> ReplicationStatus {
    ReplicationStatus {
        epoch: 1,
        committed_sequence: 42,
        applied_sequence: 42,
        state_root: "root".into(),
        leader_view: 0,
        sync_status: SyncStatus::Healthy,
    }
}

fn make_voter_membership() -> NodeMembership {
    NodeMembership {
        node_id: "node-1".into(),
        role: NodeRole::Voter,
        onion_endpoint: None,
        identity_pubkey: "pubkey".into(),
        attested_at_bucket: 100,
        joined_epoch: 1,
        last_heartbeat_bucket: 100,
        admission_signature: None,
    }
}

#[test]
fn voting_gate_allows_voter() {
    let gate = VotingGate {
        sync_status: make_voter_status(),
        membership: make_voter_membership(),
    };
    assert!(gate.can_vote());
    assert!(gate.can_propose());
    assert!(gate.reason_blocked().is_empty());
}

#[test]
fn voting_gate_blocks_non_voter() {
    let mut membership = make_voter_membership();
    membership.role = NodeRole::Observer;

    let gate = VotingGate {
        sync_status: make_voter_status(),
        membership,
    };
    assert!(!gate.can_vote());
    assert!(!gate.can_propose());
    let reasons = gate.reason_blocked();
    assert!(!reasons.is_empty());
    assert!(reasons[0].contains("not a voter"));
}

#[test]
fn voting_gate_blocks_out_of_sync() {
    let status = ReplicationStatus {
        applied_sequence: 40,
        ..make_voter_status()
    };

    let gate = VotingGate {
        sync_status: status,
        membership: make_voter_membership(),
    };
    assert!(!gate.can_vote());
    let reasons = gate.reason_blocked();
    assert!(reasons.iter().any(|r| r.contains("applied sequence")));
}

#[test]
fn voting_gate_blocks_unhealthy_sync() {
    let status = ReplicationStatus {
        sync_status: SyncStatus::Diverged,
        ..make_voter_status()
    };

    let gate = VotingGate {
        sync_status: status,
        membership: make_voter_membership(),
    };
    assert!(!gate.can_vote());
    let reasons = gate.reason_blocked();
    assert!(reasons.iter().any(|r| r.contains("sync status")));
}

#[test]
fn voting_gate_reasons_are_informative_multiple_blockers() {
    let mut membership = make_voter_membership();
    membership.role = NodeRole::Learner;

    let status = ReplicationStatus {
        applied_sequence: 30,
        sync_status: SyncStatus::CatchingUp,
        ..make_voter_status()
    };

    let gate = VotingGate {
        sync_status: status,
        membership,
    };
    let reasons = gate.reason_blocked();
    assert!(reasons.len() >= 2);
    assert!(reasons.iter().any(|r| r.contains("not a voter")));
    assert!(reasons.iter().any(|r| r.contains("applied sequence")));
}

// InMemoryMembershipStore tests

fn sample_node(node_id: &str, role: NodeRole) -> NodeMembership {
    NodeMembership {
        node_id: node_id.into(),
        role,
        onion_endpoint: None,
        identity_pubkey: format!("pubkey-{}", node_id),
        attested_at_bucket: 100,
        joined_epoch: 1,
        last_heartbeat_bucket: 100,
        admission_signature: None,
    }
}

#[test]
fn new_node_starts_as_untrusted() {
    let mut store = InMemoryMembershipStore::new();
    let node = sample_node("node-1", NodeRole::Untrusted);
    store.add_node(node.clone()).unwrap();

    let fetched = store.get_node("node-1").unwrap().unwrap();
    assert_eq!(fetched.role, NodeRole::Untrusted);
    assert_eq!(fetched.node_id, "node-1");
}

#[test]
fn can_add_as_observer() {
    let mut store = InMemoryMembershipStore::new();
    let node = sample_node("node-1", NodeRole::Observer);
    store.add_node(node.clone()).unwrap();

    let fetched = store.get_node("node-1").unwrap().unwrap();
    assert_eq!(fetched.role, NodeRole::Observer);
}

#[test]
fn observer_promoted_to_learner() {
    let mut store = InMemoryMembershipStore::new();
    store
        .add_node(sample_node("node-1", NodeRole::Observer))
        .unwrap();

    store.promote("node-1", NodeRole::Learner).unwrap();
    let fetched = store.get_node("node-1").unwrap().unwrap();
    assert_eq!(fetched.role, NodeRole::Learner);
}

#[test]
fn learner_promoted_to_voter() {
    let mut store = InMemoryMembershipStore::new();
    store
        .add_node(sample_node("node-1", NodeRole::Learner))
        .unwrap();

    store.promote("node-1", NodeRole::Voter).unwrap();
    let fetched = store.get_node("node-1").unwrap().unwrap();
    assert_eq!(fetched.role, NodeRole::Voter);
}

#[test]
fn voter_demoted_to_observer() {
    let mut store = InMemoryMembershipStore::new();
    store
        .add_node(sample_node("node-1", NodeRole::Voter))
        .unwrap();

    store.promote("node-1", NodeRole::Observer).unwrap();
    let fetched = store.get_node("node-1").unwrap().unwrap();
    assert_eq!(fetched.role, NodeRole::Observer);
}

#[test]
fn invalid_role_transition_rejected() {
    let mut store = InMemoryMembershipStore::new();
    store
        .add_node(sample_node("node-1", NodeRole::Untrusted))
        .unwrap();

    let err = store.promote("node-1", NodeRole::Voter).unwrap_err();
    assert!(matches!(err, LedgerError::InvalidRoleTransition { .. }));
}

#[test]
fn remove_node_works() {
    let mut store = InMemoryMembershipStore::new();
    store
        .add_node(sample_node("node-1", NodeRole::Voter))
        .unwrap();

    store.remove_node("node-1").unwrap();
    let fetched = store.get_node("node-1").unwrap();
    assert!(fetched.is_none());
}

#[test]
fn list_by_role_returns_matching_nodes() {
    let mut store = InMemoryMembershipStore::new();
    store
        .add_node(sample_node("voter-1", NodeRole::Voter))
        .unwrap();
    store
        .add_node(sample_node("voter-2", NodeRole::Voter))
        .unwrap();
    store
        .add_node(sample_node("observer-1", NodeRole::Observer))
        .unwrap();

    let voters = store.list_by_role(NodeRole::Voter).unwrap();
    assert_eq!(voters.len(), 2);
    assert!(voters.iter().all(|n| n.role == NodeRole::Voter));
}

#[test]
fn update_heartbeat_works() {
    let mut store = InMemoryMembershipStore::new();
    store
        .add_node(sample_node("node-1", NodeRole::Voter))
        .unwrap();

    store.update_heartbeat("node-1", 200).unwrap();
    let fetched = store.get_node("node-1").unwrap().unwrap();
    assert_eq!(fetched.last_heartbeat_bucket, 200);
}

#[test]
fn get_nonexistent_node_returns_none() {
    let mut store = InMemoryMembershipStore::new();
    let fetched = store.get_node("nonexistent").unwrap();
    assert!(fetched.is_none());
}

#[test]
fn promote_nonexistent_node_fails() {
    let mut store = InMemoryMembershipStore::new();
    let err = store
        .promote("nonexistent", NodeRole::Voter)
        .unwrap_err();
    assert!(matches!(err, LedgerError::NodeNotFound(_)));
}

#[test]
fn admission_flow_defaults() {
    let flow = AdmissionFlow::default();
    assert_eq!(flow.required_stability_window_buckets, 10);
}

#[test]
fn membership_gate_defaults() {
    let gate = MembershipGate::default();
    assert_eq!(gate.min_voter_count, 1);
    assert!(gate.allow_observer_read);
}
