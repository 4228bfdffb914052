use kerosene_node::ledger::account_state::AccountState;
use kerosene_node::ledger::chain::{OnchainState, OutPoint, UtxoEntry};
use kerosene_node::ledger::reconciliation::{is_pending_liability, ReconciliationEngine, ReconciliationInputs, ReconciliationReport, ReconciliationStatus};
use kerosene_node::ledger::state_machine::{ConsensusProfile, LedgerState, MembershipView};
use kerosene_node::ledger::withdrawal::WithdrawalStatus;

fn test_membership() -> MembershipView {
    MembershipView {
        cluster_id: "test-cluster".into(),
        nodes: vec!["node-1".into()],
        active_profile: ConsensusProfile::Single,
    }
}

// ReconciliationEngine tests

#[test]
fn empty_state_is_balanced() {
    let state = LedgerState::empty(test_membership());
    let report = ReconciliationEngine::reconcile(&state, "tip-hash", true);
    assert_eq!(report.status, ReconciliationStatus::Balanced);
    assert_eq!(report.total_assets_sats, 0);
    assert_eq!(report.total_liabilities_sats, 0);
    assert_eq!(report.difference_sats, 0);
}

#[test]
fn incomplete_chain_data_reported() {
    let state = LedgerState::empty(test_membership());
    let report = ReconciliationEngine::reconcile(&state, "tip-hash", false);
    assert_eq!(report.status, ReconciliationStatus::IncompleteChainData);
}

#[test]
fn deficit_detected_when_liabilities_exceed_assets() {
    let mut state = LedgerState::empty(test_membership());
    let mut acc = AccountState::new("user-1");
    acc.available_sats = 100_000;
    state.accounts.push(acc);

    let report = ReconciliationEngine::reconcile(&state, "tip-hash", true);
    assert_eq!(report.status, ReconciliationStatus::Deficit);
    assert_eq!(report.total_liabilities_sats, 100_000);
    assert_eq!(report.total_assets_sats, 0);
    assert_eq!(report.difference_sats, -100_000);
}

#[test]
fn surplus_detected_when_assets_exceed_liabilities() {
    let mut state = LedgerState::empty(test_membership());
    state.utxos.push(UtxoEntry::new_seen(
        OutPoint::new("tx1", 0),
        200_000,
        "addr1",
        100,
    ));

    let report = ReconciliationEngine::reconcile(&state, "tip-hash", true);
    assert_eq!(report.status, ReconciliationStatus::Surplus);
    assert_eq!(report.total_assets_sats, 200_000);
    assert_eq!(report.total_liabilities_sats, 0);
}

#[test]
fn balanced_with_realistic_state() {
    let mut state = LedgerState::empty(test_membership());

    // Add UTXOs representing on-chain assets
    state.utxos.push(UtxoEntry::new_seen(
        OutPoint::new("tx1", 0),
        500_000,
        "addr1",
        100,
    ));

    // Add user account with matching balance
    let mut acc = AccountState::new("user-1");
    acc.available_sats = 500_000;
    state.accounts.push(acc);

    let report = ReconciliationEngine::reconcile(&state, "tip-hash", true);
    assert_eq!(report.status, ReconciliationStatus::Balanced);
    assert_eq!(report.difference_sats, 0);
}

#[test]
fn warning_within_tolerance() {
    let mut state = LedgerState::empty(test_membership());

    // Assets slightly less than liabilities (within tolerance for miner fees)
    state.utxos.push(UtxoEntry::new_seen(
        OutPoint::new("tx1", 0),
        1_000_000,
        "addr1",
        100,
    ));

    let mut acc = AccountState::new("user-1");
    acc.available_sats = 1_000_500; // 500 sats more than assets
    state.accounts.push(acc);

    let report = ReconciliationEngine::reconcile(&state, "tip-hash", true);
    assert_eq!(report.status, ReconciliationStatus::Warning);
}

#[test]
fn compute_total_reserved_returns_sum() {
    let mut state = LedgerState::empty(test_membership());

    let mut acc1 = AccountState::new("user-1");
    acc1.reserved_sats = 10_000;
    state.accounts.push(acc1);

    let mut acc2 = AccountState::new("user-2");
    acc2.reserved_sats = 20_000;
    state.accounts.push(acc2);

    assert_eq!(
        ReconciliationEngine::compute_total_reserved(&state),
        30_000
    );
}

#[test]
fn compute_total_assets_ignores_spent_utxos() {
    let mut state = LedgerState::empty(test_membership());

    // Active UTXO
    state.utxos.push(UtxoEntry::new_seen(
        OutPoint::new("tx1", 0),
        50_000,
        "addr1",
        100,
    ));

    // Spent UTXO — should NOT count
    let mut spent = UtxoEntry::new_seen(
        OutPoint::new("tx2", 0),
        200_000,
        "addr2",
        100,
    );
    spent.state = OnchainState::Spent;
    state.utxos.push(spent);

    assert_eq!(
        ReconciliationEngine::compute_total_assets(&state),
        50_000
    );
}

#[test]
fn compute_total_liabilities_includes_reserved_and_pending() {
    let mut state = LedgerState::empty(test_membership());

    let mut acc = AccountState::new("user-1");
    acc.available_sats = 100_000;
    acc.reserved_sats = 50_000;
    acc.pending_outgoing_sats = 10_000;
    state.accounts.push(acc);

    assert_eq!(
        ReconciliationEngine::compute_total_liabilities(&state),
        160_000
    );
}

#[test]
fn reconciliation_report_includes_state_root_and_chain_tip() {
    let state = LedgerState::empty(test_membership());
    let report = ReconciliationEngine::reconcile(&state, "abc123def456", true);
    assert!(!report.state_root.is_empty());
    assert_eq!(report.chain_tip_hash, "abc123def456");
}

// Legacy ReconciliationInputs tests

#[test]
fn legacy_calculate_balanced() {
    let inputs = ReconciliationInputs {
        hot_sats: 1000,
        cold_sats: 0,
        custodied_sats: 0,
        lightning_sats: 0,
        available_sats: 1000,
        reserved_sats: 0,
        pending_sats: 0,
        credits_sats: 0,
    };
    let report = ReconciliationReport::calculate(inputs, true);
    assert_eq!(report.status, ReconciliationStatus::Balanced);
    assert_eq!(report.difference_sats, 0);
}

#[test]
fn legacy_calculate_deficit() {
    let inputs = ReconciliationInputs {
        hot_sats: 500,
        cold_sats: 0,
        custodied_sats: 0,
        lightning_sats: 0,
        available_sats: 1000,
        reserved_sats: 0,
        pending_sats: 0,
        credits_sats: 0,
    };
    let report = ReconciliationReport::calculate(inputs, true);
    assert_eq!(report.status, ReconciliationStatus::Deficit);
}

#[test]
fn legacy_calculate_surplus() {
    let inputs = ReconciliationInputs {
        hot_sats: 2000,
        cold_sats: 0,
        custodied_sats: 0,
        lightning_sats: 0,
        available_sats: 1000,
        reserved_sats: 0,
        pending_sats: 0,
        credits_sats: 0,
    };
    let report = ReconciliationReport::calculate(inputs, true);
    assert_eq!(report.status, ReconciliationStatus::Surplus);
}

#[test]
fn legacy_calculate_incomplete_data() {
    let inputs = ReconciliationInputs {
        hot_sats: 1000,
        cold_sats: 0,
        custodied_sats: 0,
        lightning_sats: 0,
        available_sats: 1000,
        reserved_sats: 0,
        pending_sats: 0,
        credits_sats: 0,
    };
    let report = ReconciliationReport::calculate(inputs, false);
    assert_eq!(report.status, ReconciliationStatus::IncompleteChainData);
}

#[test]
fn warning_tolerance_minimum() {
    assert_eq!(ReconciliationEngine::warning_tolerance(0), 1000);
    assert_eq!(ReconciliationEngine::warning_tolerance(500), 1000);
}

#[test]
fn warning_tolerance_scales_with_assets() {
    assert_eq!(ReconciliationEngine::warning_tolerance(1_000_000), 1000);
    assert_eq!(ReconciliationEngine::warning_tolerance(10_000_000), 10_000);
}

#[test]
fn a_small_surplus_is_only_a_warning() {
    let mut state = LedgerState::empty(test_membership());
    state.utxos.push(UtxoEntry::new_seen(OutPoint::new("tx1", 0), 1_000_500, "addr1", 100));
    let mut acc = AccountState::new("user-1");
    acc.available_sats = 1_000_000;
    state.accounts.push(acc);
    let report = ReconciliationEngine::reconcile(&state, "tip-hash", true);
    assert_eq!(report.status, ReconciliationStatus::Warning);
    assert_eq!(report.difference_sats, 500);
}

#[test]
fn sums_stop_at_the_largest_number() {
    let mut state = LedgerState::empty(test_membership());
    for id in ["a", "b"] {
        let mut acc = AccountState::new(id);
        acc.available_sats = u64::MAX;
        state.accounts.push(acc);
    }
    assert_eq!(ReconciliationEngine::compute_total_liabilities(&state), u64::MAX);
}

#[test]
fn withdrawals_weigh_until_they_are_over() {
    assert!(is_pending_liability(WithdrawalStatus::Reserved));
    assert!(!is_pending_liability(WithdrawalStatus::Confirmed));
}
