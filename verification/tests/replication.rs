use kerosene_node::ledger::certificate::{CertifiedSnapshot, QuorumCertificate};
use kerosene_node::ledger::error::LedgerError;
use kerosene_node::ledger::replication::{
    can_vote, execute_catch_up, has_room, recover_divergence, replay_steps, CatchUpPlan,
    CatchUpStrategy, DivergenceReport, DivergenceResult, ReplayStep, ReplicationStatus, SyncStatus,
    MAX_REPLAY_COMMANDS,
};
use kerosene_node::ledger::state_machine::{
    DecodedPayload, LedgerCommand, LedgerCommandType, LedgerState, MembershipView, StateMachine,
};
use kerosene_node::ledger::state_root::compute_state_root;

// ReplicationStatus tests

#[test]
fn new_node_starts_with_empty_style_status() {
    let status = ReplicationStatus {
        epoch: 1,
        committed_sequence: 0,
        applied_sequence: 0,
        state_root: "root".into(),
        leader_view: 0,
        sync_status: SyncStatus::Healthy,
    };
    assert_eq!(status.applied_sequence, 0);
    assert_eq!(status.committed_sequence, 0);
    assert_eq!(status.sync_status, SyncStatus::Healthy);
}

#[test]
fn applying_commands_advances_applied_sequence() {
    let mut status = ReplicationStatus {
        epoch: 1,
        committed_sequence: 10,
        applied_sequence: 5,
        state_root: "root".into(),
        leader_view: 0,
        sync_status: SyncStatus::CatchingUp,
    };
    status.applied_sequence = 10;
    assert_eq!(status.applied_sequence, status.committed_sequence);
}

// can_vote tests

#[test]
fn can_vote_true_when_healthy_and_caught_up() {
    let status = ReplicationStatus {
        epoch: 1,
        committed_sequence: 42,
        applied_sequence: 42,
        state_root: "root".into(),
        leader_view: 0,
        sync_status: SyncStatus::Healthy,
    };
    assert!(can_vote(&status));
}

#[test]
fn can_vote_false_when_catching_up() {
    let status = ReplicationStatus {
        epoch: 1,
        committed_sequence: 42,
        applied_sequence: 40,
        state_root: "root".into(),
        leader_view: 0,
        sync_status: SyncStatus::CatchingUp,
    };
    assert!(!can_vote(&status));
}

#[test]
fn can_vote_false_when_not_caught_up_even_if_healthy() {
    let status = ReplicationStatus {
        epoch: 1,
        committed_sequence: 42,
        applied_sequence: 41,
        state_root: "root".into(),
        leader_view: 0,
        sync_status: SyncStatus::Healthy,
    };
    assert!(!can_vote(&status));
}

#[test]
fn can_vote_false_when_diverged() {
    let status = ReplicationStatus {
        epoch: 1,
        committed_sequence: 42,
        applied_sequence: 42,
        state_root: "root".into(),
        leader_view: 0,
        sync_status: SyncStatus::Diverged,
    };
    assert!(!can_vote(&status));
}

#[test]
fn can_vote_false_when_quarantined() {
    let status = ReplicationStatus {
        epoch: 1,
        committed_sequence: 42,
        applied_sequence: 42,
        state_root: "root".into(),
        leader_view: 0,
        sync_status: SyncStatus::Quarantined,
    };
    assert!(!can_vote(&status));
}

// Divergence detection tests

#[test]
fn divergence_detection_catches_state_root_mismatch() {
    let local = ReplicationStatus {
        epoch: 1,
        committed_sequence: 42,
        applied_sequence: 42,
        state_root: "root-a".into(),
        leader_view: 0,
        sync_status: SyncStatus::Healthy,
    };
    let peer = ReplicationStatus {
        epoch: 1,
        committed_sequence: 42,
        applied_sequence: 42,
        state_root: "root-b".into(),
        leader_view: 0,
        sync_status: SyncStatus::Healthy,
    };

    // If local and peer have same sequence but different roots, it's a divergence
    if local.applied_sequence == peer.applied_sequence && local.state_root != peer.state_root {
        // This is a divergence scenario
        let result = DivergenceResult::StateRootMismatch {
            local_root: local.state_root.clone(),
            peer_root: peer.state_root.clone(),
        };
        assert!(matches!(result, DivergenceResult::StateRootMismatch { .. }));
    }
}

#[test]
fn divergence_result_in_sync_when_equal() {
    let result = DivergenceResult::InSync;
    assert!(matches!(result, DivergenceResult::InSync));
}

// CatchUpPlan tests

#[test]
fn catch_up_plan_chooses_replay_for_small_gaps() {
    let plan = CatchUpPlan::new(100, 200);
    assert_eq!(plan.from_sequence, 100);
    assert_eq!(plan.to_sequence, 200);
    assert_eq!(plan.missing_count, 100);
    assert_eq!(plan.strategy, CatchUpStrategy::ReplayCommands);
}

#[test]
fn catch_up_plan_chooses_snapshot_for_large_gaps() {
    let plan = CatchUpPlan::new(0, MAX_REPLAY_COMMANDS + 1);
    assert_eq!(plan.missing_count, MAX_REPLAY_COMMANDS + 1);
    assert_eq!(plan.strategy, CatchUpStrategy::InstallSnapshot);
}

#[test]
fn catch_up_plan_exactly_at_threshold_uses_replay() {
    let plan = CatchUpPlan::new(0, MAX_REPLAY_COMMANDS);
    assert_eq!(plan.strategy, CatchUpStrategy::ReplayCommands);
}

// SyncStatus transitions

#[test]
fn sync_status_transitions_are_consistent() {
    // A node can move from Healthy -> CatchingUp -> Healthy
    let mut status = SyncStatus::Healthy;
    assert_eq!(status, SyncStatus::Healthy);

    status = SyncStatus::CatchingUp;
    assert_eq!(status, SyncStatus::CatchingUp);

    status = SyncStatus::Healthy;
    assert_eq!(status, SyncStatus::Healthy);

    // A node can move from Healthy -> Diverged -> Quarantined
    status = SyncStatus::Diverged;
    assert_eq!(status, SyncStatus::Diverged);

    status = SyncStatus::Quarantined;
    assert_eq!(status, SyncStatus::Quarantined);

    // A node that needs a snapshot
    status = SyncStatus::SnapshotRequired;
    assert_eq!(status, SyncStatus::SnapshotRequired);
}

// DivergenceReport tests

#[test]
fn divergence_report_detects_diverged_state() {
    let report = DivergenceReport {
        checkpoint_sequence: 100,
        local_state_root: "root-a".into(),
        peer_state_root: Some("root-b".into()),
        local_ledger_totals_hash: "totals-a".into(),
        peer_ledger_totals_hash: Some("totals-b".into()),
        is_diverged: true,
    };
    assert!(report.is_diverged);
}

#[test]
fn divergence_report_in_sync() {
    let report = DivergenceReport {
        checkpoint_sequence: 100,
        local_state_root: "root-a".into(),
        peer_state_root: Some("root-a".into()),
        local_ledger_totals_hash: "totals-a".into(),
        peer_ledger_totals_hash: Some("totals-a".into()),
        is_diverged: false,
    };
    assert!(!report.is_diverged);
}

#[test]
fn divergence_report_missing_peer_data() {
    let report = DivergenceReport {
        checkpoint_sequence: 50,
        local_state_root: "root".into(),
        peer_state_root: None,
        local_ledger_totals_hash: "totals".into(),
        peer_ledger_totals_hash: None,
        is_diverged: false,
    };
    assert!(report.peer_state_root.is_none());
    assert!(report.peer_ledger_totals_hash.is_none());
}

fn credit(sequence: u64, id: &str, account: &str, version: u64, amount: &str) -> ReplayStep {
    ReplayStep {
        sequence,
        command: LedgerCommand::new(
            id,
            LedgerCommandType::CreditInternalBalance,
            account,
            Some(version),
            amount,
            1,
            100,
        ),
        payload: DecodedPayload::absent(),
    }
}

fn empty_state() -> LedgerState {
    LedgerState::empty(MembershipView::single_node("cluster-1", "node-1"))
}

fn snapshot(state: &LedgerState) -> CertifiedSnapshot {
    CertifiedSnapshot {
        cluster_id: "cluster-1".into(),
        epoch: 1,
        sequence: 42,
        state_bytes: vec![1, 2, 3],
        state_root: compute_state_root(state),
        membership_hash: "mem-hash".into(),
        constitution_hash: "const-hash".into(),
        policy_hash: "policy-hash".into(),
        ledger_totals_hash: "totals-hash".into(),
        utxo_set_root: "utxo-root".into(),
        consumed_intents_root: "intents-root".into(),
        quorum_certificate: QuorumCertificate::single_node(
            "cluster-1", 1, 0, 42, "hash", "prev", "result", "node-1", "sig",
        ),
    }
}

#[test]
fn recovery_replays_from_the_snapshot() {
    let base = empty_state();
    let mut state = empty_state();
    state.consumed_intents.push("diverged".to_string());
    let steps = vec![credit(43, "c1", "alice", 0, "100"), credit(44, "c2", "alice", 1, "50")];
    assert!(has_room(&state, steps.len()));
    recover_divergence(
        Ok(()),
        Ok(Some(snapshot(&base))),
        Ok(empty_state()),
        &StateMachine,
        &mut state,
        &steps,
    )
    .unwrap();
    let mut expected = empty_state();
    replay_steps(&StateMachine, &mut expected, &steps, None).unwrap();
    assert_eq!(compute_state_root(&state), compute_state_root(&expected));
    assert_eq!(state.find_account("alice").unwrap().available_sats, 150);
}

#[test]
fn recovery_needs_a_snapshot() {
    let mut state = empty_state();
    let result = recover_divergence(
        Ok(()),
        Ok(None),
        Ok(empty_state()),
        &StateMachine,
        &mut state,
        &Vec::new(),
    );
    assert!(matches!(result, Err(LedgerError::SnapshotNotFound(_))));
}

#[test]
fn catching_up_replays_what_is_missing() {
    let mut state = empty_state();
    let steps = vec![credit(0, "c1", "alice", 0, "100")];
    execute_catch_up(Ok(None), Ok(empty_state()), Ok(()), &StateMachine, &mut state, 0, &steps)
        .unwrap();
    assert_eq!(state.find_account("alice").unwrap().available_sats, 100);
}

#[test]
fn recovery_replays_no_command_twice() {
    let log = vec![
        credit(41, "c1", "alice", 0, "100"),
        credit(42, "c2", "alice", 1, "50"),
        credit(43, "c3", "alice", 2, "7"),
    ];
    let mut whole = empty_state();
    replay_steps(&StateMachine, &mut whole, &log, None).unwrap();

    let mut base = empty_state();
    replay_steps(&StateMachine, &mut base, &log[..2].iter().map(copy).collect(), None).unwrap();
    let certified = snapshot(&base);
    let mut state = empty_state();
    recover_divergence(Ok(()), Ok(Some(certified)), Ok(base), &StateMachine, &mut state, &log)
        .unwrap();
    assert_eq!(state.find_account("alice").unwrap().available_sats, 157);
    assert_eq!(compute_state_root(&state), compute_state_root(&whole));
}

fn copy(step: &ReplayStep) -> ReplayStep {
    ReplayStep {
        sequence: step.sequence,
        command: step.command.clone(),
        payload: DecodedPayload::absent(),
    }
}

#[test]
fn catching_up_from_a_snapshot_replays_what_remains() {
    let mut log: Vec<ReplayStep> = (0..=MAX_REPLAY_COMMANDS)
        .map(|_| credit(42, "covered", "alice", 0, "100"))
        .collect();
    log.push(credit(43, "c", "alice", 0, "7"));
    let certified = snapshot(&empty_state());
    let mut state = empty_state();
    execute_catch_up(
        Ok(Some(certified)),
        Ok(empty_state()),
        Ok(()),
        &StateMachine,
        &mut state,
        0,
        &log,
    )
    .unwrap();
    assert_eq!(state.find_account("alice").unwrap().available_sats, 7);

    let result =
        execute_catch_up(Ok(None), Ok(empty_state()), Ok(()), &StateMachine, &mut state, 9, &log);
    assert_eq!(result, Err(LedgerError::SnapshotNotFound(9)));
}
