use kerosene_node::cometbft_adapter::config::{AdapterEnv, CometBftConfig, CometBftTransport};

fn env(vars: &[(&str, &str)]) -> AdapterEnv {
    let read = |name: &str| {
        vars.iter()
            .find(|(key, _)| *key == name)
            .map(|(_, value)| value.to_string())
    };
    AdapterEnv {
        listen_addr: read("KEROSENE_ABCI_LISTEN_ADDR"),
        transport: read("KEROSENE_ABCI_TRANSPORT"),
        state_path: read("KEROSENE_ABCI_STATE_PATH"),
        network_id: read("KEROSENE_NETWORK_ID"),
        max_tx_per_block: read("KEROSENE_ABCI_MAX_TX_PER_BLOCK"),
    }
}

#[test]
fn config_defaults() {
    let result = CometBftConfig::from_env(env(&[]));
    assert!(result.is_err(), "should fail without NETWORK_ID");
}

#[test]
fn config_with_network_id() {
    let config = CometBftConfig::from_env(env(&[
        ("KEROSENE_NETWORK_ID", "testnet-1"),
        ("KEROSENE_ABCI_LISTEN_ADDR", "/tmp/test.sock"),
        ("KEROSENE_ABCI_TRANSPORT", "unix"),
    ]))
    .unwrap();
    assert_eq!(config.network_id, "testnet-1");
    assert_eq!(config.listen_addr, "/tmp/test.sock");
    assert_eq!(config.transport, CometBftTransport::Unix);
    assert_eq!(config.max_tx_per_block, 1000);
}

#[test]
fn config_tcp_transport() {
    let config = CometBftConfig::from_env(env(&[
        ("KEROSENE_NETWORK_ID", "testnet-1"),
        ("KEROSENE_ABCI_TRANSPORT", "tcp"),
        ("KEROSENE_ABCI_LISTEN_ADDR", "127.0.0.1:26658"),
    ]))
    .unwrap();
    assert_eq!(config.transport, CometBftTransport::Tcp);
    assert_eq!(config.listen_addr, "127.0.0.1:26658");
}

#[test]
fn config_invalid_transport() {
    let err = CometBftConfig::from_env(env(&[
        ("KEROSENE_NETWORK_ID", "testnet-1"),
        ("KEROSENE_ABCI_TRANSPORT", "quic"),
    ]))
    .unwrap_err();
    assert!(err.message().contains("unknown"));
}

#[test]
fn the_block_limit_must_be_a_number() {
    let config = CometBftConfig::from_env(env(&[
        ("KEROSENE_NETWORK_ID", "testnet-1"),
        ("KEROSENE_ABCI_MAX_TX_PER_BLOCK", "250"),
    ]))
    .unwrap();
    assert_eq!(config.max_tx_per_block, 250);
    assert!(CometBftConfig::from_env(env(&[
        ("KEROSENE_NETWORK_ID", "testnet-1"),
        ("KEROSENE_ABCI_MAX_TX_PER_BLOCK", "many"),
    ]))
    .is_err());
}
