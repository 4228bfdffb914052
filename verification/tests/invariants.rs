use kerosene_node::ledger::invariants::{check_available_non_negative, check_pending_outgoing_not_exceed_available, check_reserved_not_exceed_available, check_spendable_consistency};
use kerosene_node::ledger::wallet::BalanceView;

fn valid_view() -> BalanceView {
    BalanceView {
        internal_available_sats: 100_000,
        internal_reserved_sats: 10_000,
        onchain_confirmed_sats: 200_000,
        onchain_unconfirmed_sats: 5_000,
        onchain_reserved_sats: 20_000,
        pending_incoming_sats: 1_000,
        pending_outgoing_sats: 500,
        externally_controlled_sats: 0,
        spendable_by_kerosene_sats: 90_000,
        state_version: 1,
        state_root: "abc".into(),
    }
}

#[test]
fn available_non_negative_passes() {
    assert!(check_available_non_negative(&valid_view()).is_ok());
}

#[test]
fn available_at_max_fails() {
    let v = BalanceView {
        internal_available_sats: u64::MAX,
        ..valid_view()
    };
    assert!(check_available_non_negative(&v).is_err());
}

#[test]
fn reserved_not_exceed_available_passes() {
    assert!(check_reserved_not_exceed_available(&valid_view()).is_ok());
}

#[test]
fn reserved_exceeds_available_fails() {
    let v = BalanceView {
        internal_available_sats: 100,
        internal_reserved_sats: 200,
        ..valid_view()
    };
    assert!(check_reserved_not_exceed_available(&v).is_err());
}

#[test]
fn onchain_reserved_exceeds_confirmed_fails() {
    let v = BalanceView {
        onchain_confirmed_sats: 100,
        onchain_reserved_sats: 200,
        ..valid_view()
    };
    assert!(check_reserved_not_exceed_available(&v).is_err());
}

#[test]
fn pending_outgoing_not_exceed_available_passes() {
    assert!(
        check_pending_outgoing_not_exceed_available(&valid_view()).is_ok()
    );
}

#[test]
fn pending_outgoing_exceeds_available_fails() {
    let v = BalanceView {
        internal_available_sats: 100,
        pending_outgoing_sats: 200,
        ..valid_view()
    };
    assert!(
        check_pending_outgoing_not_exceed_available(&v).is_err()
    );
}

#[test]
fn spendable_consistency_passes_for_non_watch_only() {
    assert!(check_spendable_consistency(&valid_view()).is_ok());
}

#[test]
fn spendable_consistency_fails_when_watch_only_has_balances() {
    let v = BalanceView {
        spendable_by_kerosene_sats: 0,
        internal_available_sats: 50,
        ..valid_view()
    };
    assert!(check_spendable_consistency(&v).is_err());
}

#[test]
fn spendable_consistency_passes_for_consistent_watch_only() {
    let v = BalanceView {
        spendable_by_kerosene_sats: 0,
        internal_available_sats: 0,
        onchain_confirmed_sats: 0,
        onchain_unconfirmed_sats: 0,
        ..valid_view()
    };
    assert!(check_spendable_consistency(&v).is_ok());
}
