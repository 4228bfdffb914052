use kerosene_node::cometbft_adapter::abci::{AbciApp, AbciRequest, AbciResponse, KfeVerdict};
use kerosene_node::cometbft_adapter::commit::commit_state;
use kerosene_node::cometbft_adapter::config::{CometBftConfig, CometBftTransport};
use kerosene_node::cometbft_adapter::error::{AppError, Code};
use kerosene_node::cometbft_adapter::state::AppState;

fn test_config() -> CometBftConfig {
    CometBftConfig {
        listen_addr: "/tmp/test-abci.sock".into(),
        transport: CometBftTransport::Unix,
        state_path: "/tmp/test-abci-state".into(),
        network_id: "testnet".into(),
        max_tx_per_block: 100,
        kfe_socket_path: None,
        authorized_keys: Vec::new(),
    }
}

fn fresh_app() -> AbciApp {
    AbciApp::new(test_config(), Ok(AppState::new()))
}

#[test]
fn app_initializes_with_default_state() {
    let app = AbciApp::new(test_config(), Err("no snapshot".to_string()));
    let state = app.state();
    assert!(state.is_empty());
    assert_eq!(state.height(), 0);
}

#[test]
fn app_recovery_from_sled() {
    let mut state = AppState::new();
    state.apply("recovery_key", b"recovery_val");
    state.set_height(10);
    commit_state(&mut state);

    let recovered = AbciApp::new(test_config(), Ok(state));
    let state = recovered.state();
    assert_eq!(state.get("recovery_key"), Some(b"recovery_val" as &[u8]));
    assert_eq!(state.height(), 10);
}

#[test]
fn info_response_contains_metadata() {
    let app = fresh_app();
    let resp = app.handle_info();
    assert_eq!(resp.data, "kerosene-cometbft-adapter");
    assert!(!resp.version.is_empty());
}

#[test]
fn init_chain_returns_app_hash() {
    let app = fresh_app();
    let app_hash_before = app.app_hash();
    assert!(!app_hash_before.iter().all(|&b| b == 0));
}

#[test]
fn query_existing_key() {
    let mut state = AppState::new();
    state.apply("mykey", b"myvalue");
    let app = AbciApp::with_state(test_config(), state);
    let resp = app.handle_query(&b"mykey".to_vec());
    assert_eq!(resp.code, 0);
    assert_eq!(&resp.value[..], b"myvalue");
}

#[test]
fn query_missing_key() {
    let app = fresh_app();
    let resp = app.handle_query(&b"nonexistent".to_vec());
    assert_ne!(resp.code, 0);
}

#[test]
fn sequence_tracking() {
    let mut app = fresh_app();

    // Initially no sequences
    assert!(app.sender_sequences().is_empty());

    // Record a sequence
    app.record_sender_sequence("sender1", 5);
    assert_eq!(app.sender_sequences().get("sender1"), Some(5));
}

#[test]
fn authorized_keys_update() {
    let mut app = fresh_app();
    app.set_authorized_keys(&vec!["key1".into(), "key2".into()]);

    let result = app.authorized_keys();
    assert!(result.contains("key1"));
    assert!(result.contains("key2"));
    assert_eq!(result.len(), 2);
}

#[test]
fn a_key_that_is_not_text_is_still_answered() {
    let app = fresh_app();
    let resp = app.handle_query(&vec![0xff, 0x41]);
    assert_ne!(resp.code, 0);
    let mut state = AppState::new();
    state.apply("\u{fffd}A", b"found");
    let app = AbciApp::with_state(test_config(), state);
    let resp = app.handle_query(&vec![0xff, 0x41]);
    assert_eq!(resp.value, b"found".to_vec());
}

#[test]
fn the_kernel_can_refuse_a_transaction() {
    let mut app = fresh_app();
    let resp = app.handle_check_tx(
        KfeVerdict::Answered { allowed: false, reason: "insufficient funds".to_string() },
        Err("never read".to_string()),
    );
    assert!(resp.is_err());
    assert!(resp.log.contains("insufficient funds"));
}

#[test]
fn requests_are_answered_in_kind() {
    let mut app = fresh_app();
    assert!(matches!(
        app.call(AbciRequest::Echo("hi".to_string())),
        AbciResponse::Echo(text) if text == "hi"
    ));
    assert!(matches!(app.call(AbciRequest::Flush), AbciResponse::Flush));
    let txs = vec![b"a".to_vec(), b"b".to_vec()];
    match app.call(AbciRequest::PrepareProposal(txs.clone())) {
        AbciResponse::PrepareProposal(out) => assert_eq!(out, txs),
        other => panic!("unexpected answer {:?}", other),
    }
    let hash = match app.call(AbciRequest::FinalizeBlock { height: 3, txs: Vec::new() }) {
        AbciResponse::FinalizeBlock(block) => block.app_hash,
        other => panic!("unexpected answer {:?}", other),
    };
    match app.call(AbciRequest::Commit) {
        AbciResponse::Commit(committed) => assert_eq!(committed, hash),
        other => panic!("unexpected answer {:?}", other),
    }
    match app.call(AbciRequest::Info) {
        AbciResponse::Info(info) => {
            assert_eq!(info.last_block_height, 3);
            assert_eq!(info.last_block_app_hash, hash);
        },
        other => panic!("unexpected answer {:?}", other),
    }
}

#[test]
fn every_error_has_a_code_and_a_text() {
    let errors = vec![
        AppError::InvalidTxFormat("x".to_string()),
        AppError::InvalidSignature,
        AppError::DuplicateSequence("s".to_string(), 4),
        AppError::UnknownCommand("c".to_string()),
        AppError::UnauthorizedKey("k".to_string()),
        AppError::NetworkMismatch("a".to_string(), "b".to_string()),
        AppError::State("s".to_string()),
        AppError::Config("c".to_string()),
        AppError::KfeBridge("k".to_string()),
    ];
    for error in &errors {
        assert_ne!(Code::from(error).as_u32(), Code::Success.as_u32());
        assert!(!error.message().is_empty());
    }
    assert_eq!(Code::Success.as_u32(), 0);
}
