use kerosene_node::ledger::account_state::AccountState;
use kerosene_node::ledger::gates::{DegradedMode, GateResult, ProductionGates};
use kerosene_node::ledger::metrics::LedgerMetrics;
use kerosene_node::ledger::reconciliation::{ReconciliationEngine, ReconciliationReport};
use kerosene_node::ledger::replication::{ReplicationStatus, SyncStatus};
use kerosene_node::ledger::state_machine::{ConsensusProfile, LedgerState, MembershipView};

fn healthy_status() -> ReplicationStatus {
    ReplicationStatus {
        epoch: 1,
        committed_sequence: 42,
        applied_sequence: 42,
        state_root: "root".into(),
        leader_view: 0,
        sync_status: SyncStatus::Healthy,
    }
}

fn balanced_report() -> ReconciliationReport {
    let state = LedgerState::empty(test_membership());
    ReconciliationEngine::reconcile(&state, "tip", true)
}

fn test_membership() -> MembershipView {
    MembershipView {
        cluster_id: "test-cluster".into(),
        nodes: vec!["node-1".into()],
        active_profile: ConsensusProfile::Single,
    }
}

fn default_metrics() -> LedgerMetrics {
    LedgerMetrics::new()
}

// Withdrawal gate tests

#[test]
fn withdrawals_allowed_when_healthy_and_balanced() {
    let metrics = default_metrics();
    let report = balanced_report();
    let status = healthy_status();

    let result = ProductionGates::can_authorize_withdrawals(&metrics, &report, &status);
    assert!(
        result.allowed,
        "expected allowed, got reasons: {:?}",
        result.reasons
    );
}

#[test]
fn withdrawals_blocked_on_deficit() {
    let metrics = default_metrics();
    let mut state = LedgerState::empty(test_membership());
    let mut acc = AccountState::new("user-1");
    acc.available_sats = 100_000;
    state.accounts.push(acc);
    let report = ReconciliationEngine::reconcile(&state, "tip", true);
    let status = healthy_status();

    let result = ProductionGates::can_authorize_withdrawals(&metrics, &report, &status);
    assert!(!result.allowed);
    assert!(result.reasons.iter().any(|r| r.contains("deficit")));
}

#[test]
fn withdrawals_blocked_on_unhealthy_sync() {
    let metrics = default_metrics();
    let report = balanced_report();
    let mut status = healthy_status();
    status.sync_status = SyncStatus::Diverged;

    let result = ProductionGates::can_authorize_withdrawals(&metrics, &report, &status);
    assert!(!result.allowed);
}

#[test]
fn withdrawals_blocked_with_sequence_lag() {
    let metrics = LedgerMetrics {
        sequence_lag: 5,
        ..Default::default()
    };
    let report = balanced_report();
    let status = healthy_status();

    let result = ProductionGates::can_authorize_withdrawals(&metrics, &report, &status);
    assert!(!result.allowed);
    assert!(result.reasons.iter().any(|r| r.contains("lag")));
}

#[test]
fn withdrawals_blocked_on_incomplete_chain_data() {
    let metrics = default_metrics();
    let state = LedgerState::empty(test_membership());
    let report = ReconciliationEngine::reconcile(&state, "tip", false);
    let status = healthy_status();

    let result = ProductionGates::can_authorize_withdrawals(&metrics, &report, &status);
    assert!(!result.allowed);
    assert!(result.reasons.iter().any(|r| r.contains("incomplete")));
}

// Deposit gate tests

#[test]
fn deposits_allowed_when_healthy() {
    let metrics = default_metrics();
    let status = healthy_status();

    let result = ProductionGates::can_accept_deposits(&metrics, &status);
    assert!(result.allowed);
}

#[test]
fn deposits_blocked_when_diverged() {
    let metrics = default_metrics();
    let mut status = healthy_status();
    status.sync_status = SyncStatus::Diverged;

    let result = ProductionGates::can_accept_deposits(&metrics, &status);
    assert!(!result.allowed);
}

#[test]
fn deposits_blocked_when_quarantined() {
    let metrics = default_metrics();
    let mut status = healthy_status();
    status.sync_status = SyncStatus::Quarantined;

    let result = ProductionGates::can_accept_deposits(&metrics, &status);
    assert!(!result.allowed);
}

#[test]
fn deposits_blocked_with_large_lag() {
    let metrics = LedgerMetrics {
        sequence_lag: 200,
        ..Default::default()
    };
    let status = healthy_status();

    let result = ProductionGates::can_accept_deposits(&metrics, &status);
    assert!(!result.allowed);
}

// Add nodes gate tests

#[test]
fn add_nodes_allowed_when_healthy() {
    let metrics = default_metrics();
    let status = healthy_status();
    let membership = test_membership();

    let result = ProductionGates::can_add_nodes(&metrics, &status, &membership);
    assert!(result.allowed);
}

#[test]
fn add_nodes_blocked_when_not_healthy() {
    let metrics = default_metrics();
    let mut status = healthy_status();
    status.sync_status = SyncStatus::CatchingUp;
    let membership = test_membership();

    let result = ProductionGates::can_add_nodes(&metrics, &status, &membership);
    assert!(!result.allowed);
}

#[test]
fn add_nodes_blocked_when_membership_full() {
    let metrics = default_metrics();
    let status = healthy_status();
    let membership = MembershipView {
        nodes: (0..100).map(|i| format!("node-{}", i)).collect(),
        ..test_membership()
    };

    let result = ProductionGates::can_add_nodes(&metrics, &status, &membership);
    assert!(!result.allowed);
}

// Membership change gate tests

#[test]
fn membership_change_allowed_when_synced() {
    let status = healthy_status();
    let result = ProductionGates::can_change_membership(&status);
    assert!(result.allowed);
}

#[test]
fn membership_change_blocked_when_not_healthy() {
    let mut status = healthy_status();
    status.sync_status = SyncStatus::CatchingUp;
    let result = ProductionGates::can_change_membership(&status);
    assert!(!result.allowed);
}

#[test]
fn membership_change_blocked_when_behind() {
    let mut status = healthy_status();
    status.applied_sequence = 40;
    let result = ProductionGates::can_change_membership(&status);
    assert!(!result.allowed);
}

// Key rotation gate tests

#[test]
fn key_rotation_allowed_when_synced() {
    let status = healthy_status();
    let result = ProductionGates::can_rotate_keys(&status);
    assert!(result.allowed);
}

#[test]
fn key_rotation_blocked_when_not_healthy() {
    let mut status = healthy_status();
    status.sync_status = SyncStatus::Diverged;
    let result = ProductionGates::can_rotate_keys(&status);
    assert!(!result.allowed);
}

#[test]
fn key_rotation_blocked_when_behind() {
    let mut status = healthy_status();
    status.applied_sequence = 30;
    let result = ProductionGates::can_rotate_keys(&status);
    assert!(!result.allowed);
}

// DegradedMode tests

#[test]
fn normal_mode_when_all_gates_pass() {
    let metrics = default_metrics();
    let report = balanced_report();
    let status = healthy_status();
    let membership = test_membership();

    let mode = ProductionGates::evaluate_degraded_mode(&metrics, &report, &status, &membership);
    assert_eq!(mode, DegradedMode::Normal);
}

#[test]
fn degraded_mode_when_withdrawals_blocked() {
    let metrics = default_metrics();
    let mut state = LedgerState::empty(test_membership());
    let mut acc = AccountState::new("user-1");
    acc.available_sats = 100_000;
    state.accounts.push(acc);
    let report = ReconciliationEngine::reconcile(&state, "tip", true);
    let status = healthy_status();
    let membership = test_membership();

    let mode = ProductionGates::evaluate_degraded_mode(&metrics, &report, &status, &membership);
    assert!(matches!(mode, DegradedMode::Degraded { .. }));
}

#[test]
fn degraded_mode_read_only_not_auto_selected() {
    // ReadOnly must be explicitly set by operators.
    let mode = DegradedMode::ReadOnly;
    assert!(!mode.withdrawals_allowed());
    assert!(!mode.internal_transfers_allowed());
    assert!(!mode.credits_allowed());
}

#[test]
fn degraded_mode_withdrawals_blocked_flag() {
    let mode = DegradedMode::Degraded {
        withdrawals_blocked: true,
        membership_changes_blocked: false,
        key_rotation_blocked: false,
        internal_transfers_allowed: true,
        credits_allowed: true,
    };
    assert!(!mode.withdrawals_allowed());
    assert!(mode.internal_transfers_allowed());
    assert!(mode.credits_allowed());
}

// GateResult tests

#[test]
fn gate_result_allowed_has_empty_reasons() {
    let result = GateResult::allowed();
    assert!(result.allowed);
    assert!(result.reasons.is_empty());
}

#[test]
fn gate_result_blocked_reports_reasons() {
    let result = GateResult::blocked(vec!["reason-1".into(), "reason-2".into()]);
    assert!(!result.allowed);
    assert_eq!(result.reasons.len(), 2);
    assert_eq!(result.reasons[0], "reason-1");
}
