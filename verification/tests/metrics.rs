use kerosene_node::ledger::metrics::{BasicMetricsCollector, LedgerMetrics, MetricsCollector};

#[test]
fn empty_snapshot_returns_zeros() {
    let mut collector = BasicMetricsCollector::new();
    let snapshot = collector.snapshot().unwrap();
    assert_eq!(snapshot.committed_sequence, 0);
    assert_eq!(snapshot.applied_sequence, 0);
    assert_eq!(snapshot.sequence_lag, 0);
    assert_eq!(snapshot.state_root_mismatch_total, 0);
    assert_eq!(snapshot.node_sync_status, "");
}

#[test]
fn increment_counter_accumulates() {
    let mut collector = BasicMetricsCollector::new();
    collector
        .increment_counter("state_root_mismatch", 3);
    collector
        .increment_counter("state_root_mismatch", 2);

    let snapshot = collector.snapshot().unwrap();
    assert_eq!(snapshot.state_root_mismatch_total, 5);
}

#[test]
fn set_gauge_works() {
    let mut collector = BasicMetricsCollector::new();
    collector.set_gauge("my_gauge", 42);

    assert_eq!(collector.gauge("my_gauge"), Some(42));
}

#[test]
fn sequence_lag_computed_correctly() {
    let mut collector = BasicMetricsCollector::new();
    collector.set_committed_sequence(100);
    collector.set_applied_sequence(95);

    let snapshot = collector.snapshot().unwrap();
    assert_eq!(snapshot.committed_sequence, 100);
    assert_eq!(snapshot.applied_sequence, 95);
    assert_eq!(snapshot.sequence_lag, 5);
}

#[test]
fn set_totals_reflect_in_snapshot() {
    let mut collector = BasicMetricsCollector::new();
    collector.set_total_accounts(10);
    collector.set_total_utxos(25);
    collector.set_total_reservations(5);
    collector.set_total_withdrawals_pending(3);
    collector.set_node_sync_status("Healthy");

    let snapshot = collector.snapshot().unwrap();
    assert_eq!(snapshot.total_accounts, 10);
    assert_eq!(snapshot.total_utxos, 25);
    assert_eq!(snapshot.total_reservations, 5);
    assert_eq!(snapshot.total_withdrawals_pending, 3);
    assert_eq!(snapshot.node_sync_status, "Healthy");
}

#[test]
fn multiple_counters_independent() {
    let mut collector = BasicMetricsCollector::new();
    collector.increment_counter("version_conflict", 7);
    collector.increment_counter("insufficient_funds", 3);

    let snapshot = collector.snapshot().unwrap();
    assert_eq!(snapshot.version_conflict_total, 7);
    assert_eq!(snapshot.insufficient_funds_total, 3);
}

#[test]
fn snapshot_is_deterministic() {
    let mut collector = BasicMetricsCollector::new();
    collector.set_committed_sequence(50);
    collector.set_applied_sequence(50);
    collector.increment_counter("state_root_mismatch", 1);
    collector.set_node_sync_status("Healthy");

    let s1 = collector.snapshot().unwrap();
    let s2 = collector.snapshot().unwrap();
    assert_eq!(s1, s2);
}

#[test]
fn default_metrics_no_sensitive_data() {
    // Verify the struct has no account_id, address, value, or intent ID fields.
    let m = LedgerMetrics::new();
    // The struct should only contain aggregate counters and operational gauges.
    assert_eq!(m.committed_sequence, 0);
    assert_eq!(m.node_sync_status, "");
}
