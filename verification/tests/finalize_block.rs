use ed25519_dalek::{Signer, SigningKey};
use kerosene_node::cometbft_adapter::abci::{AbciApp, AbciRequest, AbciResponse, KfeVerdict};
use kerosene_node::cometbft_adapter::check_tx::{AuthorizedKeys, SenderSequences, Transaction};
use kerosene_node::cometbft_adapter::config::{CometBftConfig, CometBftTransport};
use kerosene_node::cometbft_adapter::finalize_block::finalize_block;
use kerosene_node::cometbft_adapter::state::AppState;
use rand::rngs::OsRng;

fn signed_tx(
    command: &str,
    key: &str,
    value: &str,
    sequence_number: u64,
    signing_key: &SigningKey,
) -> Result<Transaction, String> {
    let public_key = hex::encode(signing_key.verifying_key().as_bytes());
    let mut tx = Transaction {
        command: command.into(),
        key: key.into(),
        value: value.into(),
        network_id: "testnet".into(),
        sequence_number,
        public_key,
        signature: String::new(),
    };
    let msg = tx.signing_bytes();
    let sig = signing_key.sign(&msg);
    tx.signature = hex::encode(sig.to_bytes());
    Ok(tx)
}

fn anyone() -> AuthorizedKeys {
    AuthorizedKeys::from_keys(&Vec::new())
}

#[test]
fn finalize_block_applies_transactions() {
    let mut state = AppState::new();
    let mut sequences = SenderSequences::new();
    let signing_key = SigningKey::generate(&mut OsRng);

    let txs = vec![
        signed_tx("set", "alice", "100", 1, &signing_key),
        signed_tx("set", "bob", "200", 2, &signing_key),
    ];

    let resp = finalize_block(&mut state, &mut sequences, "testnet", &anyone(), 1, &txs);

    assert_eq!(resp.tx_results.len(), 2);
    assert!(resp.tx_results[0].is_ok());
    assert!(resp.tx_results[1].is_ok());

    assert_eq!(state.get("alice"), Some(b"100" as &[u8]));
    assert_eq!(state.get("bob"), Some(b"200" as &[u8]));
    assert_eq!(state.height(), 1);
}

#[test]
fn finalize_block_rejects_invalid_tx() {
    let mut state = AppState::new();
    let mut sequences = SenderSequences::new();

    let parsed = serde_json::from_slice::<serde_json::Value>(b"invalid json");
    let txs = vec![Err(parsed.unwrap_err().to_string())];

    let resp = finalize_block(&mut state, &mut sequences, "testnet", &anyone(), 1, &txs);
    assert_eq!(resp.tx_results.len(), 1);
    assert!(resp.tx_results[0].is_err());
}

#[test]
fn finalize_block_app_hash_is_deterministic() {
    let signing_key = SigningKey::generate(&mut OsRng);
    let txs = vec![
        signed_tx("set", "x", "1", 1, &signing_key),
        signed_tx("set", "y", "2", 2, &signing_key),
    ];

    // First execution
    let mut state1 = AppState::new();
    let mut sequences1 = SenderSequences::new();
    let resp1 = finalize_block(&mut state1, &mut sequences1, "testnet", &anyone(), 1, &txs);

    // Second execution (same input should produce same app hash)
    let mut state2 = AppState::new();
    let mut sequences2 = SenderSequences::new();
    let resp2 = finalize_block(&mut state2, &mut sequences2, "testnet", &anyone(), 1, &txs);

    assert_eq!(resp1.app_hash, resp2.app_hash);
}

#[test]
fn deletions_remove_what_was_set() {
    let mut state = AppState::new();
    let mut sequences = SenderSequences::new();
    let signing_key = SigningKey::generate(&mut OsRng);
    let txs = vec![
        signed_tx("set", "alice", "100", 1, &signing_key),
        signed_tx("delete", "alice", "", 2, &signing_key),
    ];
    let resp = finalize_block(&mut state, &mut sequences, "testnet", &anyone(), 4, &txs);
    assert!(resp.tx_results.iter().all(|r| r.is_ok()));
    assert!(!state.has("alice"));
    assert_eq!(resp.app_hash, AppState::new().root_hash());
    assert_eq!(state.height(), 4);
}

#[test]
fn a_block_does_not_replay_a_transaction() {
    let mut state = AppState::new();
    let mut sequences = SenderSequences::new();
    let signing_key = SigningKey::generate(&mut OsRng);
    let txs = vec![
        signed_tx("set", "alice", "100", 1, &signing_key),
        signed_tx("set", "alice", "999", 1, &signing_key),
    ];
    let resp = finalize_block(&mut state, &mut sequences, "testnet", &anyone(), 1, &txs);
    assert!(resp.tx_results[0].is_ok());
    assert!(resp.tx_results[1].is_err());
    assert_eq!(state.get("alice"), Some(b"100" as &[u8]));
}

fn app() -> AbciApp {
    let config = CometBftConfig {
        listen_addr: "/tmp/abci.sock".into(),
        transport: CometBftTransport::Unix,
        state_path: "/tmp/abci-state".into(),
        network_id: "testnet".into(),
        max_tx_per_block: 100,
        kfe_socket_path: None,
        authorized_keys: Vec::new(),
    };
    AbciApp::new(config, Ok(AppState::new()))
}

#[test]
fn what_was_checked_is_executed_in_the_block() {
    let mut app = app();
    let signing_key = SigningKey::generate(&mut OsRng);
    let tx = || signed_tx("set", "alice", "100", 1, &signing_key);

    assert!(app.handle_check_tx(KfeVerdict::NotAsked, tx()).is_ok());
    // The number is spoken for, so that the same one is not accepted twice.
    assert_eq!(app.handle_check_tx(KfeVerdict::NotAsked, tx()).code, 2);
    assert!(app.sender_sequences().is_empty());

    match app.call(AbciRequest::FinalizeBlock { height: 1, txs: vec![tx(), tx()] }) {
        AbciResponse::FinalizeBlock(block) => {
            assert!(block.tx_results[0].is_ok());
            assert_eq!(block.tx_results[1].code, 2);
        },
        other => panic!("unexpected answer {:?}", other),
    }
    assert_eq!(app.state().get("alice"), Some(b"100" as &[u8]));
    assert_eq!(app.handle_check_tx(KfeVerdict::NotAsked, tx()).code, 2);
}

#[test]
fn what_a_block_executed_unchecked_is_not_accepted_later() {
    let mut app = app();
    let signing_key = SigningKey::generate(&mut OsRng);
    let public_key = hex::encode(signing_key.verifying_key().as_bytes());
    let txs = vec![signed_tx("set", "alice", "100", 5, &signing_key)];
    app.call(AbciRequest::FinalizeBlock { height: 1, txs });
    assert_eq!(app.sender_sequences().get(&public_key), Some(5));
    let late = signed_tx("set", "alice", "1", 4, &signing_key);
    assert_eq!(app.handle_check_tx(KfeVerdict::NotAsked, late).code, 2);
    let next = signed_tx("set", "alice", "1", 6, &signing_key);
    assert!(app.handle_check_tx(KfeVerdict::NotAsked, next).is_ok());
}
