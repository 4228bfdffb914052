use kerosene_node::ledger::chain::{DetectUtxoPayload, OnchainState, OutPoint, ReorgPayload, UtxoEntry};
use kerosene_node::ledger::error::LedgerError;
use kerosene_node::ledger::state_machine::{
    DecodedPayload, DeterministicStateMachine, LedgerCommand, LedgerCommandType, LedgerState,
    MembershipView, StateMachine, StateTransitionReceipt,
};
use kerosene_node::ledger::state_root::compute_state_root;

/// The payload that a command carries in its commitment, read from JSON.
fn decoded(command: &LedgerCommand) -> DecodedPayload {
    let mut payload = DecodedPayload::absent();
    if command.command_type == LedgerCommandType::DetectUtxo {
        let text = &command.authorization_commitment;
        payload.detect_utxo = match serde_json::from_str::<serde_json::Value>(text) {
            Ok(value) => Ok(DetectUtxoPayload {
                value_sats: value["value_sats"].as_u64().unwrap(),
                address: value["address"].as_str().unwrap().to_string(),
            }),
            Err(e) => Err(e.to_string()),
        };
    }
    payload
}

fn apply(
    state: &mut LedgerState,
    command: &LedgerCommand,
) -> Result<StateTransitionReceipt, LedgerError> {
    StateMachine.apply(state, command, &decoded(command))
}

fn test_membership() -> MembershipView {
    MembershipView::single_node("cluster-1", "node-1")
}

fn credit_cmd(account_id: &str, amount: u64, expected_version: u64) -> LedgerCommand {
    LedgerCommand::new(
        &format!("credit-{}-{}", account_id, amount),
        LedgerCommandType::CreditInternalBalance,
        account_id,
        Some(expected_version),
        &amount.to_string(),
        1,
        100,
    )
}

fn debit_cmd(account_id: &str, amount: u64, expected_version: u64) -> LedgerCommand {
    LedgerCommand::new(
        &format!("debit-{}-{}", account_id, amount),
        LedgerCommandType::DebitInternalBalance,
        account_id,
        Some(expected_version),
        &amount.to_string(),
        1,
        100,
    )
}

fn reserve_cmd(account_id: &str, amount: u64, expected_version: u64) -> LedgerCommand {
    LedgerCommand::new(
        &format!("reserve-{}-{}", account_id, amount),
        LedgerCommandType::ReserveBalance,
        account_id,
        Some(expected_version),
        &amount.to_string(),
        1,
        100,
    )
}

fn release_cmd(account_id: &str, amount: u64, expected_version: u64) -> LedgerCommand {
    LedgerCommand::new(
        &format!("release-{}-{}", account_id, amount),
        LedgerCommandType::ReleaseReservation,
        account_id,
        Some(expected_version),
        &amount.to_string(),
        1,
        100,
    )
}

fn transfer_cmd(source: &str, dest: &str, amount: u64) -> LedgerCommand {
    LedgerCommand::new(
        &format!("transfer-{}-{}-{}", source, dest, amount),
        LedgerCommandType::CommitInternalTransfer,
        &format!("{}|{}", source, dest),
        None,
        &amount.to_string(),
        1,
        100,
    )
}

#[test]
fn credit_to_nonexistent_account_creates_at_version_zero() {
    let mut state = LedgerState::empty(test_membership());
    let cmd = credit_cmd("alice", 100, 0);
    let receipt = apply(&mut state, &cmd).unwrap();

    assert_eq!(receipt.sequence, 0);
    assert_eq!(state.version, 1);
    let alice = state.find_account("alice").unwrap();
    assert_eq!(alice.available_sats, 100);
    assert_eq!(alice.version, 1);
}

#[test]
fn debit_with_sufficient_funds_succeeds() {
    let mut state = LedgerState::empty(test_membership());

    apply(&mut state, &credit_cmd("bob", 200, 0)).unwrap();
    let receipt = apply(&mut state, &debit_cmd("bob", 80, 1)).unwrap();

    assert_eq!(receipt.sequence, 1);
    let bob = state.find_account("bob").unwrap();
    assert_eq!(bob.available_sats, 120);
    assert_eq!(bob.version, 2);
}

#[test]
fn debit_with_insufficient_funds_returns_error() {
    let mut state = LedgerState::empty(test_membership());

    apply(&mut state, &credit_cmd("carol", 50, 0)).unwrap();
    let err = apply(&mut state, &debit_cmd("carol", 100, 1)).unwrap_err();
    assert!(matches!(err, LedgerError::InsufficientFunds { .. }));
    // State unchanged
    assert_eq!(state.version, 1);
}

#[test]
fn reserve_then_release_works() {
    let mut state = LedgerState::empty(test_membership());

    apply(&mut state, &credit_cmd("dave", 500, 0)).unwrap();
    apply(&mut state, &reserve_cmd("dave", 200, 1)).unwrap();

    let dave = state.find_account("dave").unwrap();
    assert_eq!(dave.available_sats, 300);
    assert_eq!(dave.reserved_sats, 200);

    apply(&mut state, &release_cmd("dave", 100, 2)).unwrap();

    let dave = state.find_account("dave").unwrap();
    assert_eq!(dave.available_sats, 400);
    assert_eq!(dave.reserved_sats, 100);
    assert_eq!(state.version, 3);
}

#[test]
fn atomic_transfer_succeeds_with_valid_versions() {
    let mut state = LedgerState::empty(test_membership());

    apply(&mut state, &credit_cmd("alice", 1000, 0)).unwrap();
    apply(&mut state, &credit_cmd("bob", 500, 0)).unwrap();

    let receipt = apply(&mut state, &transfer_cmd("alice", "bob", 300)).unwrap();

    assert_eq!(receipt.sequence, 2);
    let alice = state.find_account("alice").unwrap();
    let bob = state.find_account("bob").unwrap();
    assert_eq!(alice.available_sats, 700);
    assert_eq!(alice.version, 2);
    assert_eq!(bob.available_sats, 800);
    assert_eq!(bob.version, 2);
}

#[test]
fn atomic_transfer_fails_on_insufficient_source_balance() {
    let mut state = LedgerState::empty(test_membership());

    apply(&mut state, &credit_cmd("alice", 100, 0)).unwrap();
    apply(&mut state, &credit_cmd("bob", 500, 0)).unwrap();

    let err = apply(&mut state, &transfer_cmd("alice", "bob", 300)).unwrap_err();
    assert!(matches!(err, LedgerError::InsufficientFunds { .. }));
    // State unchanged
    assert_eq!(state.version, 2);
}

#[test]
fn unknown_command_type_not_applicable() {
    // All command types are handled in the match; this test verifies
    // that the state machine doesn't panic on any variant.
    let sm = StateMachine;
    let mut state = LedgerState::empty(test_membership());
    let cmd = LedgerCommand::new(
        "unknown",
        LedgerCommandType::DetectUtxo,
        "tx1:0",
        None,
        r#"{"value_sats": 100, "address": "addr1"}"#,
        1,
        100,
    );
    // All commands should validate and apply without error.
    assert!(sm.validate(&state, &cmd, &decoded(&cmd)).is_ok());
    assert!(sm.apply(&mut state, &cmd, &decoded(&cmd)).is_ok());
    assert_eq!(state.version, 1);
}

#[test]
fn state_root_is_deterministic() {
    let mut state1 = LedgerState::empty(test_membership());
    let mut state2 = LedgerState::empty(test_membership());

    let commands = vec![
        credit_cmd("alice", 100, 0),
        credit_cmd("bob", 200, 0),
        debit_cmd("alice", 30, 1),
        transfer_cmd("bob", "alice", 50),
    ];

    for cmd in &commands {
        apply(&mut state1, cmd).unwrap();
    }
    for cmd in &commands {
        apply(&mut state2, cmd).unwrap();
    }

    let root1 = compute_state_root(&state1);
    let root2 = compute_state_root(&state2);
    assert_eq!(root1, root2, "same commands must produce same state root");
}

#[test]
fn state_root_changes_after_applying_command() {
    let mut state = LedgerState::empty(test_membership());

    let root_before = compute_state_root(&state);
    apply(&mut state, &credit_cmd("alice", 100, 0)).unwrap();
    let root_after = compute_state_root(&state);

    assert_ne!(
        root_before, root_after,
        "state root must change after mutation"
    );
}

#[test]
fn credit_on_existing_account_checks_version() {
    let mut state = LedgerState::empty(test_membership());

    apply(&mut state, &credit_cmd("alice", 100, 0)).unwrap();
    // Try with wrong version
    let err = apply(&mut state, &credit_cmd("alice", 50, 0)).unwrap_err();
    assert!(matches!(err, LedgerError::VersionConflict { .. }));

    // Correct version works
    apply(&mut state, &credit_cmd("alice", 50, 1)).unwrap();
    let alice = state.find_account("alice").unwrap();
    assert_eq!(alice.available_sats, 150);
}

#[test]
fn reserve_on_nonexistent_account_creates_it() {
    let mut state = LedgerState::empty(test_membership());

    // First credit to create the account
    apply(&mut state, &credit_cmd("eve", 500, 0)).unwrap();
    apply(&mut state, &reserve_cmd("eve", 200, 1)).unwrap();

    let eve = state.find_account("eve").unwrap();
    assert_eq!(eve.reserved_sats, 200);
    assert_eq!(eve.available_sats, 300);
}

#[test]
fn consume_intent_anti_replay() {
    let mut state = LedgerState::empty(test_membership());

    let cmd = LedgerCommand::new(
        "intent-1",
        LedgerCommandType::ConsumeIntent,
        "intent-id-123",
        None,
        "",
        1,
        100,
    );

    apply(&mut state, &cmd).unwrap();
    assert_eq!(state.consumed_intents.len(), 1);
    assert!(state
        .consumed_intents
        .contains(&"intent-id-123".to_string()));

    // Applying same intent again (idempotent)
    apply(&mut state, &cmd).unwrap();
    assert_eq!(
        state.consumed_intents.len(),
        1,
        "duplicate consume should be idempotent"
    );
}

#[test]
fn membership_add_and_remove_node() {
    let mut state = LedgerState::empty(test_membership());

    // Add observer
    let add_cmd = LedgerCommand::new(
        "add-node-1",
        LedgerCommandType::AddObserverNode,
        "observer-node-1",
        None,
        "",
        1,
        100,
    );
    apply(&mut state, &add_cmd).unwrap();
    assert!(state
        .membership
        .nodes
        .contains(&"observer-node-1".to_string()));

    // Remove node
    let remove_cmd = LedgerCommand::new(
        "rm-node-1",
        LedgerCommandType::RemoveNode,
        "observer-node-1",
        None,
        "",
        1,
        100,
    );
    apply(&mut state, &remove_cmd).unwrap();
    assert!(!state
        .membership
        .nodes
        .contains(&"observer-node-1".to_string()));
}

#[test]
fn ledger_command_payload_hash_computation() {
    let cmd = LedgerCommand::new(
        "cmd-1",
        LedgerCommandType::CreditInternalBalance,
        "alice",
        Some(0),
        "100",
        1,
        100,
    );
    let hash = cmd.compute_payload_hash();
    // Hash should be a 64-char hex string
    assert_eq!(hash.len(), 64);
    assert!(hash.chars().all(|c| c.is_ascii_hexdigit()));

    // Same fields should produce same hash
    let cmd2 = LedgerCommand::new(
        "cmd-2", // different command_id
        LedgerCommandType::CreditInternalBalance,
        "alice",
        Some(0),
        "100",
        1,
        100,
    );
    assert_eq!(
        cmd.compute_payload_hash(),
        cmd2.compute_payload_hash(),
        "payload_hash should not depend on command_id"
    );

    // Different type should produce different hash
    let cmd3 = LedgerCommand::new(
        "cmd-3",
        LedgerCommandType::DebitInternalBalance,
        "alice",
        Some(0),
        "100",
        1,
        100,
    );
    assert_ne!(cmd.compute_payload_hash(), cmd3.compute_payload_hash());
}

fn command(kind: LedgerCommandType, key: &str, commitment: &str) -> LedgerCommand {
    LedgerCommand::new("cmd", kind, key, None, commitment, 1, 100)
}

fn detected(key: &str) -> LedgerState {
    let mut state = LedgerState::empty(test_membership());
    let detect = command(
        LedgerCommandType::DetectUtxo,
        key,
        r#"{"value_sats": 700, "address": "addr-7"}"#,
    );
    apply(&mut state, &detect).unwrap();
    state
}

#[test]
fn payload_hash_of_a_known_command() {
    let cmd = credit_cmd("alice", 100, 0);
    assert_eq!(
        cmd.compute_payload_hash(),
        "63a2f502422cbbfef5f93c1b1d330e42c008f7533a09025a13840cb3c2acf3ed"
    );
    assert_eq!(cmd.payload_hash, cmd.compute_payload_hash());
}

#[test]
fn receipts_name_the_roots_around_a_command() {
    let mut state = LedgerState::empty(test_membership());
    let before = compute_state_root(&state);
    let cmd = credit_cmd("alice", 100, 0);
    let receipt = apply(&mut state, &cmd).unwrap();
    assert_eq!(receipt.previous_state_root, before);
    assert_eq!(receipt.resulting_state_root, compute_state_root(&state));
    assert_eq!(receipt.command_hash, cmd.payload_hash);
    assert_eq!(receipt.affected_accounts, vec!["alice".to_string()]);
}

#[test]
fn a_refused_command_changes_nothing() {
    let mut state = LedgerState::empty(test_membership());
    apply(&mut state, &credit_cmd("alice", 100, 0)).unwrap();
    let before = compute_state_root(&state);
    assert!(apply(&mut state, &debit_cmd("alice", 500, 1)).is_err());
    assert!(apply(&mut state, &reserve_cmd("nobody", 1, 0)).is_err());
    assert_eq!(compute_state_root(&state), before);
}

#[test]
fn transfers_conserve_what_the_accounts_hold() {
    let mut state = LedgerState::empty(test_membership());
    apply(&mut state, &credit_cmd("alice", 1000, 0)).unwrap();
    apply(&mut state, &credit_cmd("bob", 1, 0)).unwrap();
    apply(&mut state, &transfer_cmd("alice", "bob", 999)).unwrap();
    assert_eq!(state.find_account("alice").unwrap().available_sats, 1);
    assert_eq!(state.find_account("bob").unwrap().available_sats, 1000);
}

#[test]
fn an_output_lives_from_detection_to_spending() {
    let mut state = detected("tx1:0");
    assert_eq!(state.utxos.len(), 1);
    assert_eq!(state.utxos[0].value_sats, 700);
    assert_eq!(state.utxos[0].address, "addr-7");
    assert_eq!(state.utxos[0].state, OnchainState::Seen);
    state.utxos[0].state = OnchainState::InMempool;
    apply(&mut state, &command(LedgerCommandType::ConfirmUtxo, "tx1:0", "120")).unwrap();
    assert_eq!(state.utxos[0].state, OnchainState::Confirming);
    apply(&mut state, &command(LedgerCommandType::MarkUtxoSpendable, "tx1:0", "")).unwrap();
    assert_eq!(state.utxos[0].state, OnchainState::Spendable);
    apply(&mut state, &command(LedgerCommandType::ReserveUtxo, "tx1:0", "res-1")).unwrap();
    assert_eq!(state.utxos[0].reserved_by, Some("res-1".to_string()));
    let err = apply(&mut state, &command(LedgerCommandType::ReserveUtxo, "tx1:0", "res-2"))
        .unwrap_err();
    assert_eq!(err, LedgerError::UtxoAlreadyReserved { reserved_by: "res-1".to_string() });
    apply(&mut state, &command(LedgerCommandType::ReleaseUtxo, "tx1:0", "")).unwrap();
    assert_eq!(state.utxos[0].reserved_by, None);
    let err = apply(&mut state, &command(LedgerCommandType::ReleaseUtxo, "tx1:0", ""))
        .unwrap_err();
    assert_eq!(err, LedgerError::UtxoNotReserved);
    apply(&mut state, &command(LedgerCommandType::MarkUtxoSpent, "tx1:0", "tx-spend")).unwrap();
    assert_eq!(state.utxos[0].state, OnchainState::Spent);
}

#[test]
fn unknown_outputs_are_refused() {
    let mut state = detected("tx1:0");
    let err = apply(&mut state, &command(LedgerCommandType::ConfirmUtxo, "tx9:3", "5")).unwrap_err();
    assert_eq!(err, LedgerError::UtxoNotFound { txid: "tx9".to_string(), vout: 3 });
    let err = apply(&mut state, &command(LedgerCommandType::ConfirmUtxo, "tx9", "5")).unwrap_err();
    assert!(matches!(err, LedgerError::InvalidUtxoData(_)));
}

#[test]
fn a_reorganisation_disconnects_and_adds_outputs() {
    let mut state = detected("tx1:0");
    state.utxos[0].state = OnchainState::Confirming;
    let reorg = command(LedgerCommandType::ApplyChainReorganization, "reorg-1", "");
    let mut payload = DecodedPayload::absent();
    payload.reorg = Ok(ReorgPayload {
        disconnected_txids: vec!["tx1".to_string()],
        new_utxos: vec![UtxoEntry::new_seen(OutPoint::new("tx2", 1), 5, "addr-8", 3)],
    });
    StateMachine.apply(&mut state, &reorg, &payload).unwrap();
    assert_eq!(state.utxos[0].state, OnchainState::Reorged);
    assert_eq!(state.utxos[1].outpoint, OutPoint::new("tx2", 1));
}

#[test]
fn a_refused_transfer_changes_nothing() {
    let mut state = LedgerState::empty(MembershipView::single_node("cluster-1", "node-1"));
    let machine = StateMachine;
    for command in [credit_cmd("alice", 100, 0), credit_cmd("bob", u64::MAX, 0)] {
        let payload = decoded(&command);
        machine.apply(&mut state, &command, &payload).unwrap();
    }
    let root = compute_state_root(&state);
    // The credit overflows; the debit is not kept.
    let overflowing = transfer_cmd("alice", "bob", 50);
    assert!(machine.apply(&mut state, &overflowing, &decoded(&overflowing)).is_err());
    assert_eq!(compute_state_root(&state), root);
    // An account that does not exist is not created.
    let unknown = transfer_cmd("carol", "alice", 1);
    assert!(machine.apply(&mut state, &unknown, &decoded(&unknown)).is_err());
    assert_eq!(compute_state_root(&state), root);
    assert!(state.find_account("carol").is_none());
    // From an account to itself nothing moves.
    let round = transfer_cmd("alice", "alice", 30);
    machine.apply(&mut state, &round, &decoded(&round)).unwrap();
    assert_eq!(state.find_account("alice").unwrap().available_sats, 100);
    assert_eq!(state.find_account("alice").unwrap().version, 3);
}
