use kerosene_node::ledger::chain::{OnchainState, OutPoint, ReorgHandler, UtxoEntry, UtxoSet, UtxoTransitionGate, apply_rbf_replacement, compute_utxo_root};
use kerosene_node::ledger::error::LedgerError;

// Transition gate tests

#[test]
fn valid_transition_seen_to_in_mempool() {
    UtxoTransitionGate::validate_transition(OnchainState::Seen, OnchainState::InMempool)
        .unwrap();
}

#[test]
fn valid_transition_in_mempool_to_seen() {
    UtxoTransitionGate::validate_transition(OnchainState::InMempool, OnchainState::Seen)
        .unwrap();
}

#[test]
fn valid_transition_seen_to_replaced() {
    UtxoTransitionGate::validate_transition(OnchainState::Seen, OnchainState::Replaced)
        .unwrap();
}

#[test]
fn valid_transition_in_mempool_to_confirming() {
    UtxoTransitionGate::validate_transition(OnchainState::InMempool, OnchainState::Confirming)
        .unwrap();
}

#[test]
fn valid_transition_in_mempool_to_replaced() {
    UtxoTransitionGate::validate_transition(OnchainState::InMempool, OnchainState::Replaced)
        .unwrap();
}

#[test]
fn valid_transition_confirming_to_spendable() {
    UtxoTransitionGate::validate_transition(OnchainState::Confirming, OnchainState::Spendable)
        .unwrap();
}

#[test]
fn valid_transition_confirming_to_reorged() {
    UtxoTransitionGate::validate_transition(OnchainState::Confirming, OnchainState::Reorged)
        .unwrap();
}

#[test]
fn valid_transition_spendable_to_finalized() {
    UtxoTransitionGate::validate_transition(
        OnchainState::Spendable,
        OnchainState::FinalizedByPolicy,
    )
    .unwrap();
}

#[test]
fn valid_transition_spendable_to_spent() {
    UtxoTransitionGate::validate_transition(OnchainState::Spendable, OnchainState::Spent)
        .unwrap();
}

#[test]
fn valid_transition_reorged_to_seen() {
    UtxoTransitionGate::validate_transition(OnchainState::Reorged, OnchainState::Seen).unwrap();
}

#[test]
fn invalid_transition_seen_to_spent() {
    let err = UtxoTransitionGate::validate_transition(OnchainState::Seen, OnchainState::Spent)
        .unwrap_err();
    assert!(matches!(err, LedgerError::InvalidUtxoTransition { .. }));
}

#[test]
fn invalid_transition_seen_to_confirming() {
    let err =
        UtxoTransitionGate::validate_transition(OnchainState::Seen, OnchainState::Confirming)
            .unwrap_err();
    assert!(matches!(err, LedgerError::InvalidUtxoTransition { .. }));
}

#[test]
fn invalid_transition_reorged_to_spent() {
    let err =
        UtxoTransitionGate::validate_transition(OnchainState::Reorged, OnchainState::Spent)
            .unwrap_err();
    assert!(matches!(err, LedgerError::InvalidUtxoTransition { .. }));
}

#[test]
fn invalid_transition_replaced_to_anything() {
    let err =
        UtxoTransitionGate::validate_transition(OnchainState::Replaced, OnchainState::Seen)
            .unwrap_err();
    assert!(matches!(err, LedgerError::InvalidUtxoTransition { .. }));
}

#[test]
fn invalid_transition_spent_to_anything() {
    let err = UtxoTransitionGate::validate_transition(OnchainState::Spent, OnchainState::Seen)
        .unwrap_err();
    assert!(matches!(err, LedgerError::InvalidUtxoTransition { .. }));
}

// OutPoint tests

#[test]
fn outpoint_roundtrip() {
    let op = OutPoint::new("abc123", 0);
    assert_eq!(op.txid, "abc123");
    assert_eq!(op.vout, 0);
    let s = op.to_canonical_string();
    assert_eq!(s, "abc123:0");
    let parsed = OutPoint::from_canonical_string(&s).unwrap();
    assert_eq!(parsed, op);
}

#[test]
fn outpoint_from_canonical_invalid_no_colon() {
    let err = OutPoint::from_canonical_string("notxid").unwrap_err();
    assert!(matches!(err, LedgerError::InvalidUtxoData(_)));
}

#[test]
fn outpoint_from_canonical_invalid_vout() {
    let err = OutPoint::from_canonical_string("txid:abc").unwrap_err();
    assert!(matches!(err, LedgerError::InvalidUtxoData(_)));
}

// UtxoEntry tests

#[test]
fn new_utxo_entry_is_seen() {
    let op = OutPoint::new("tx1", 0);
    let utxo = UtxoEntry::new_seen(op.clone(), 50000, "addr1", 100);
    assert_eq!(utxo.state, OnchainState::Seen);
    assert_eq!(utxo.outpoint, op);
    assert_eq!(utxo.value_sats, 50000);
    assert_eq!(utxo.address, "addr1");
    assert_eq!(utxo.detected_at_bucket, 100);
    assert!(utxo.block_height.is_none());
    assert!(utxo.reserved_by.is_none());
}

#[test]
fn utxo_terminal_states() {
    let op = OutPoint::new("tx1", 0);
    let mut utxo = UtxoEntry::new_seen(op, 1000, "addr", 1);
    assert!(!utxo.is_terminal());
    utxo.state = OnchainState::Replaced;
    assert!(utxo.is_terminal());
    utxo.state = OnchainState::Spent;
    assert!(utxo.is_terminal());
}

#[test]
fn utxo_available_check() {
    let op = OutPoint::new("tx1", 0);
    let mut utxo = UtxoEntry::new_seen(op, 1000, "addr", 1);
    assert!(!utxo.is_available());

    utxo.state = OnchainState::Spendable;
    assert!(utxo.is_available());

    utxo.reserved_by = Some("res-1".to_string());
    assert!(!utxo.is_available());
}

// ReorgHandler tests

#[test]
fn reorg_disconnects_confirming_utxos() {
    let op = OutPoint::new("tx1", 0);
    let mut utxos = vec![UtxoEntry {
        state: OnchainState::Confirming,
        block_height: Some(100),
        confirmed_at_bucket: Some(50),
        ..UtxoEntry::new_seen(op, 1000, "addr", 10)
    }];

    let affected =
        ReorgHandler::apply_reorg(&mut utxos, &["tx1".to_string()], &[], 60).unwrap();

    assert_eq!(affected.len(), 1);
    assert_eq!(utxos[0].state, OnchainState::Reorged);
    assert!(utxos[0].block_height.is_none());
}

#[test]
fn reorg_adds_new_utxos() {
    let mut utxos: Vec<UtxoEntry> = Vec::new();
    let new_op = OutPoint::new("tx2", 0);
    let new_utxo = UtxoEntry::new_seen(new_op, 2000, "addr2", 0);

    let affected =
        ReorgHandler::apply_reorg(&mut utxos, &["tx1".to_string()], &[new_utxo], 70).unwrap();

    assert_eq!(utxos.len(), 1);
    assert_eq!(utxos[0].state, OnchainState::Seen);
    assert_eq!(utxos[0].detected_at_bucket, 70);
    assert_eq!(affected.len(), 1);
}

#[test]
fn reorg_does_not_affect_unrelated_utxos() {
    let op = OutPoint::new("tx3", 0);
    let mut utxos = vec![UtxoEntry {
        state: OnchainState::Spendable,
        ..UtxoEntry::new_seen(op, 1000, "addr", 10)
    }];

    let affected =
        ReorgHandler::apply_reorg(&mut utxos, &["tx1".to_string(), "tx2".to_string()], &[], 60)
            .unwrap();

    assert_eq!(affected.len(), 0);
    assert_eq!(utxos[0].state, OnchainState::Spendable);
}

#[test]
fn reorg_re_detect_after_reorg() {
    let op = OutPoint::new("tx1", 0);
    let mut utxos = vec![UtxoEntry {
        state: OnchainState::Reorged,
        ..UtxoEntry::new_seen(op, 1000, "addr", 10)
    }];

    // Re-detect: transition Reorged → Seen
    UtxoTransitionGate::validate_transition(utxos[0].state, OnchainState::Seen).unwrap();
    utxos[0].state = OnchainState::Seen;

    assert_eq!(utxos[0].state, OnchainState::Seen);
}

// RBF tests

#[test]
fn rbf_replaces_utxos() {
    let op1 = OutPoint::new("tx1", 0);
    let op2 = OutPoint::new("tx1", 1);
    let mut utxos = vec![
        UtxoEntry::new_seen(op1, 1000, "addr1", 10),
        UtxoEntry::new_seen(op2, 2000, "addr2", 10),
    ];

    let replacement = UtxoEntry::new_seen(OutPoint::new("tx2", 0), 3000, "addr3", 10);

    let released = apply_rbf_replacement(&mut utxos, "tx1", &[replacement]).unwrap();
    assert!(released.is_empty());

    assert_eq!(utxos[0].state, OnchainState::Replaced);
    assert_eq!(utxos[1].state, OnchainState::Replaced);
    assert_eq!(utxos.len(), 3);
    assert_eq!(utxos[2].outpoint.txid, "tx2");
    assert_eq!(utxos[2].state, OnchainState::Seen);
}

#[test]
fn rbf_releases_reservations() {
    let op = OutPoint::new("tx1", 0);
    let mut utxos = vec![UtxoEntry {
        reserved_by: Some("res-1".to_string()),
        reserved_at_bucket: Some(50),
        ..UtxoEntry::new_seen(op, 1000, "addr1", 10)
    }];

    let replacement = UtxoEntry::new_seen(OutPoint::new("tx2", 0), 1000, "addr1", 10);

    let released = apply_rbf_replacement(&mut utxos, "tx1", &[replacement]).unwrap();
    assert_eq!(released, vec!["res-1".to_string()]);
    assert_eq!(utxos[0].reserved_by, None);
    assert_eq!(utxos[0].state, OnchainState::Replaced);
}

#[test]
fn rbf_already_replaced_is_idempotent() {
    let op = OutPoint::new("tx1", 0);
    let mut utxos = vec![UtxoEntry {
        state: OnchainState::Replaced,
        ..UtxoEntry::new_seen(op, 1000, "addr1", 10)
    }];

    let released = apply_rbf_replacement(&mut utxos, "tx1", &[]).unwrap();
    assert!(released.is_empty());
    assert_eq!(utxos[0].state, OnchainState::Replaced);
}

// compute_utxo_root tests

#[test]
fn empty_utxo_root_is_deterministic() {
    let root1 = compute_utxo_root(&[]);
    let root2 = compute_utxo_root(&[]);
    assert_eq!(root1, root2);
    assert_eq!(root1.len(), 64);
}

#[test]
fn same_utxos_produce_same_root() {
    let utxos = vec![
        UtxoEntry::new_seen(OutPoint::new("tx1", 0), 100, "addr1", 1),
        UtxoEntry::new_seen(OutPoint::new("tx2", 0), 200, "addr2", 2),
    ];
    let root1 = compute_utxo_root(&utxos);
    let root2 = compute_utxo_root(&utxos);
    assert_eq!(root1, root2);
}

#[test]
fn different_utxos_produce_different_root() {
    let utxos1 = vec![UtxoEntry::new_seen(
        OutPoint::new("tx1", 0),
        100,
        "addr1",
        1,
    )];
    let utxos2 = vec![UtxoEntry::new_seen(
        OutPoint::new("tx1", 0),
        200,
        "addr1",
        1,
    )];
    assert_ne!(compute_utxo_root(&utxos1), compute_utxo_root(&utxos2));
}

#[test]
fn utxo_root_is_order_independent() {
    let utxo_a = UtxoEntry::new_seen(OutPoint::new("tx_a", 0), 100, "addr1", 1);
    let utxo_b = UtxoEntry::new_seen(OutPoint::new("tx_b", 0), 200, "addr2", 2);

    let utxos1 = vec![utxo_a.clone(), utxo_b.clone()];
    let utxos2 = vec![utxo_b, utxo_a];

    let root1 = compute_utxo_root(&utxos1);
    let root2 = compute_utxo_root(&utxos2);
    assert_eq!(root1, root2, "UTXO root must be order-independent");
}

#[test]
fn utxo_set_from_entries() {
    let entries = vec![
        UtxoEntry::new_seen(OutPoint::new("tx1", 0), 100, "addr", 1),
        UtxoEntry::new_seen(OutPoint::new("tx2", 0), 200, "addr2", 2),
    ];
    let set = UtxoSet::from_entries(entries.clone());
    assert_eq!(set.entries.len(), 2);
    assert_eq!(set.root_hash.len(), 64);
    // Same entries produce same root
    let set2 = UtxoSet::from_entries(entries);
    assert_eq!(set.root_hash, set2.root_hash);
}

#[test]
fn root_of_known_outputs() {
    assert_eq!(
        compute_utxo_root(&[]),
        "f597066acb0afec9713469d0c8bec53abd0f83af74e9afd19c8887a0333cbd60"
    );
    let one = vec![UtxoEntry::new_seen(OutPoint::new("tx1", 0), 100, "addr1", 1)];
    assert_eq!(
        compute_utxo_root(&one),
        "174d10b0558a199a5eab484635665d431bbd97da542983912899b13abc282375"
    );
}

#[test]
fn outpoints_read_back_what_they_write() {
    for (txid, vout) in [("abc", 0), ("", 7), ("abc", u32::MAX)] {
        let op = OutPoint::new(txid, vout);
        assert_eq!(OutPoint::from_canonical_string(&op.to_canonical_string()).unwrap(), op);
    }
    for text in ["tx:", "tx:-1", "tx:4294967296", "tx:1x"] {
        assert!(OutPoint::from_canonical_string(text).is_err());
    }
}

#[test]
fn terminal_states_have_no_way_out() {
    let states = [
        OnchainState::Seen,
        OnchainState::InMempool,
        OnchainState::Confirming,
        OnchainState::Spendable,
        OnchainState::FinalizedByPolicy,
        OnchainState::Replaced,
        OnchainState::Reorged,
        OnchainState::Spent,
    ];
    for from in [OnchainState::Replaced, OnchainState::Spent] {
        for to in states {
            assert_eq!(
                UtxoTransitionGate::validate_transition(from, to),
                Err(LedgerError::InvalidUtxoTransition { from, to })
            );
        }
    }
}

#[test]
fn outputs_that_differ_have_different_roots() {
    let one = vec![UtxoEntry::new_seen(OutPoint::new("tx1", 0), 100, "addr1", 1)];
    let other = vec![UtxoEntry::new_seen(OutPoint::new("tx1", 1), 100, "addr1", 1)];
    assert_ne!(compute_utxo_root(&one), compute_utxo_root(&other));
}
