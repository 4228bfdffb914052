use ed25519_dalek::{Signer, SigningKey};
use kerosene_node::cometbft_adapter::check_tx::{
    check_tx, AuthorizedKeys, SenderSequences, Transaction, TxResult,
};
use rand::rngs::OsRng;

fn create_signed_tx(
    command: &str,
    key: &str,
    value: &str,
    network_id: &str,
    sequence_number: u64,
    signing_key: &SigningKey,
) -> Transaction {
    let public_key = hex::encode(signing_key.verifying_key().as_bytes());
    let mut tx = Transaction {
        command: command.into(),
        key: key.into(),
        value: value.into(),
        network_id: network_id.into(),
        sequence_number,
        public_key,
        signature: String::new(),
    };
    let msg = tx.signing_bytes();
    let sig = signing_key.sign(&msg);
    tx.signature = hex::encode(sig.to_bytes());
    tx
}

/// Reads a transaction from JSON, as a node receives it.
fn decode(bytes: &[u8]) -> Result<Transaction, String> {
    let value: serde_json::Value = match serde_json::from_slice(bytes) {
        Ok(value) => value,
        Err(e) => return Err(e.to_string()),
    };
    let text = |name: &str| match value[name].as_str() {
        Some(s) => Ok(s.to_string()),
        None => Err(format!("missing field `{}`", name)),
    };
    Ok(Transaction {
        command: text("command")?,
        key: text("key")?,
        value: text("value")?,
        network_id: text("network_id")?,
        sequence_number: value["sequence_number"].as_u64().unwrap(),
        public_key: text("public_key")?,
        signature: text("signature")?,
    })
}

/// The JSON text of a transaction.
fn encode(tx: &Transaction) -> Vec<u8> {
    let mut map = serde_json::Map::new();
    for (name, text) in [
        ("command", &tx.command),
        ("key", &tx.key),
        ("value", &tx.value),
        ("network_id", &tx.network_id),
        ("public_key", &tx.public_key),
        ("signature", &tx.signature),
    ] {
        map.insert(name.to_string(), serde_json::Value::String(text.clone()));
    }
    map.insert("sequence_number".to_string(), serde_json::Value::from(tx.sequence_number));
    serde_json::to_vec(&serde_json::Value::Object(map)).unwrap()
}

fn checked(
    tx_bytes: &[u8],
    sequences: &mut SenderSequences,
    authorized: &[String],
) -> TxResult {
    let keys = AuthorizedKeys::from_keys(&authorized.to_vec());
    check_tx("testnet", sequences, &keys, &decode(tx_bytes))
}

#[test]
fn valid_transaction_passes_check_tx() {
    let signing_key = SigningKey::generate(&mut OsRng);
    let pub_hex = hex::encode(signing_key.verifying_key().as_bytes());
    let tx = create_signed_tx("set", "alice", "100", "testnet", 1, &signing_key);
    let mut sequences = SenderSequences::new();
    let resp = checked(&encode(&tx), &mut sequences, &[pub_hex]);
    assert!(resp.is_ok(), "expected Ok, got log: {}", resp.log);
}

#[test]
fn network_mismatch_rejected() {
    let signing_key = SigningKey::generate(&mut OsRng);
    let pub_hex = hex::encode(signing_key.verifying_key().as_bytes());
    let tx = create_signed_tx("set", "alice", "100", "othernet", 1, &signing_key);
    let mut sequences = SenderSequences::new();
    let resp = checked(&encode(&tx), &mut sequences, &[pub_hex]);
    assert!(resp.is_err(), "should reject network mismatch");
    assert!(resp.log.contains("network mismatch"));
}

#[test]
fn duplicate_sequence_rejected() {
    let signing_key = SigningKey::generate(&mut OsRng);
    let pub_hex = hex::encode(signing_key.verifying_key().as_bytes());
    let tx = create_signed_tx("set", "alice", "100", "testnet", 1, &signing_key);
    let mut sequences = SenderSequences::new();
    sequences.record(&pub_hex, 1);
    let resp = checked(&encode(&tx), &mut sequences, &[pub_hex]);
    assert!(resp.is_err(), "should reject duplicate sequence");
    assert!(resp.log.contains("expected seq > 1"));
}

#[test]
fn out_of_order_sequence_rejected() {
    let signing_key = SigningKey::generate(&mut OsRng);
    let pub_hex = hex::encode(signing_key.verifying_key().as_bytes());

    // seq=5 passes when last seq=0
    let tx5 = create_signed_tx("set", "k", "v", "testnet", 5, &signing_key);
    let mut sequences = SenderSequences::new();
    let resp5 = checked(&encode(&tx5), &mut sequences, &[pub_hex.clone()]);
    assert!(resp5.is_ok());

    // seq=3 is now out of order (last is 5)
    let tx3 = create_signed_tx("set", "k", "v", "testnet", 3, &signing_key);
    let mut sequences = SenderSequences::new();
    sequences.record(&pub_hex, 5);
    let resp3 = checked(&encode(&tx3), &mut sequences, &[pub_hex]);
    assert!(resp3.is_err(), "should reject out-of-order seq");
}

#[test]
fn unauthorized_key_rejected() {
    let signing_key = SigningKey::generate(&mut OsRng);
    let tx = create_signed_tx("set", "alice", "100", "testnet", 1, &signing_key);

    // Authorized keys does NOT include this key
    let other_key = SigningKey::generate(&mut OsRng);
    let other_pub_hex = hex::encode(other_key.verifying_key().as_bytes());
    let mut sequences = SenderSequences::new();
    let resp = checked(&encode(&tx), &mut sequences, &[other_pub_hex]);
    assert!(resp.is_err(), "should reject unauthorized key");
    assert!(resp.log.contains("unauthorized key"));
}

#[test]
fn empty_authorized_set_accepts_all() {
    let signing_key = SigningKey::generate(&mut OsRng);
    let tx = create_signed_tx("set", "alice", "100", "testnet", 1, &signing_key);
    let mut sequences = SenderSequences::new();
    let resp = checked(&encode(&tx), &mut sequences, &[]);
    assert!(resp.is_ok(), "empty set should allow all keys");
}

#[test]
fn invalid_signature_rejected() {
    let signing_key1 = SigningKey::generate(&mut OsRng);
    let pub_hex = hex::encode(signing_key1.verifying_key().as_bytes());
    let mut tx = create_signed_tx("set", "alice", "100", "testnet", 1, &signing_key1);
    // Tamper with the signature
    tx.signature = hex::encode([0u8; 64]);

    let mut sequences = SenderSequences::new();
    let resp = checked(&encode(&tx), &mut sequences, &[pub_hex]);
    assert!(resp.is_err(), "should reject invalid signature");
}

#[test]
fn unknown_command_rejected() {
    let signing_key = SigningKey::generate(&mut OsRng);
    let pub_hex = hex::encode(signing_key.verifying_key().as_bytes());
    let tx = create_signed_tx("unknown_cmd", "key", "value", "testnet", 1, &signing_key);
    let mut sequences = SenderSequences::new();
    let resp = checked(&encode(&tx), &mut sequences, &[pub_hex]);
    assert!(resp.is_err(), "should reject unknown command");
    assert!(resp.log.contains("unknown command"));
}

#[test]
fn malformed_json_rejected() {
    let mut sequences = SenderSequences::new();
    let resp = checked(b"not valid json", &mut sequences, &[]);
    assert!(resp.is_err(), "should reject malformed tx");
}

fn unsigned(network_id: &str, sequence_number: u64) -> Transaction {
    Transaction {
        command: "set".into(),
        key: "foo".into(),
        value: "bar".into(),
        network_id: network_id.into(),
        sequence_number,
        public_key: "abcd".into(),
        signature: "sig".into(),
    }
}

#[test]
fn signing_bytes_are_deterministic() {
    let tx1 = unsigned("testnet", 42);
    let tx2 = unsigned("testnet", 42);
    assert_eq!(tx1.signing_bytes(), tx2.signing_bytes());
}

#[test]
fn signing_bytes_differ_by_network_id() {
    let tx_a = unsigned("net-a", 42);
    let tx_b = unsigned("net-b", 42);
    assert_ne!(tx_a.signing_bytes(), tx_b.signing_bytes());
}

#[test]
fn signing_bytes_differ_by_sequence_number() {
    let tx1 = unsigned("testnet", 1);
    let tx2 = unsigned("testnet", 2);
    assert_ne!(tx1.signing_bytes(), tx2.signing_bytes());
}

#[test]
fn an_accepted_transaction_is_refused_the_second_time() {
    let signing_key = SigningKey::generate(&mut OsRng);
    let pub_hex = hex::encode(signing_key.verifying_key().as_bytes());
    let tx = encode(&create_signed_tx("set", "alice", "100", "testnet", 3, &signing_key));
    let mut sequences = SenderSequences::new();
    assert!(checked(&tx, &mut sequences, &[]).is_ok());
    assert_eq!(sequences.get(&pub_hex), Some(3));
    assert!(checked(&tx, &mut sequences, &[]).is_err());
    assert_eq!(sequences.get(&pub_hex), Some(3));
}

#[test]
fn changing_a_signed_field_breaks_the_signature() {
    let signing_key = SigningKey::generate(&mut OsRng);
    let tx = create_signed_tx("set", "alice", "100", "testnet", 1, &signing_key);
    assert!(tx.verify().is_ok());
    let mut other = tx.clone();
    other.value = "900".into();
    assert!(other.verify().is_err());
    let mut other = tx.clone();
    other.key = "bob".into();
    assert!(other.verify().is_err());
}

#[test]
fn keys_and_signatures_must_be_well_formed() {
    let signing_key = SigningKey::generate(&mut OsRng);
    let tx = create_signed_tx("set", "alice", "100", "testnet", 1, &signing_key);
    for key in ["", "zz", "abcd"] {
        let mut other = tx.clone();
        other.public_key = key.into();
        assert!(other.verify().is_err());
    }
    for signature in ["", "zz", "abcd"] {
        let mut other = tx.clone();
        other.signature = signature.into();
        assert!(other.verify().is_err());
    }
}
