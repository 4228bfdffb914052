use kerosene_node::cometbft_adapter::commit::commit_state;
use kerosene_node::cometbft_adapter::state::AppState;

#[test]
fn empty_state_root_hash_is_deterministic() {
    let state = AppState::new();
    let hash1 = state.root_hash();
    let hash2 = AppState::new().root_hash();
    assert_eq!(hash1, hash2);
    // Empty hash should not be all zeros
    assert!(hash1.iter().any(|&b| b != 0));
}

#[test]
fn apply_and_retrieve() {
    let mut state = AppState::new();
    assert!(state.is_empty());
    state.apply("alice", b"100");
    assert_eq!(state.get("alice"), Some(b"100" as &[u8]));
    assert_eq!(state.len(), 1);
}

#[test]
fn overwrite_returns_previous() {
    let mut state = AppState::new();
    state.apply("key1", b"v1");
    let prev = state.apply("key1", b"v2");
    assert_eq!(prev, Some(b"v1".to_vec()));
    assert_eq!(state.get("key1"), Some(b"v2" as &[u8]));
}

#[test]
fn delete_removes_key() {
    let mut state = AppState::new();
    state.apply("key1", b"value");
    assert!(state.has("key1"));
    let deleted = state.delete("key1");
    assert_eq!(deleted, Some(b"value".to_vec()));
    assert!(!state.has("key1"));
}

#[test]
fn root_hash_changes_after_mutation() {
    let mut state = AppState::new();
    let hash_before = state.root_hash();
    state.apply("key", b"value");
    let hash_after = state.root_hash();
    assert_ne!(hash_before, hash_after);
}

#[test]
fn deterministic_root_hash() {
    let mut s1 = AppState::new();
    s1.apply("a", b"1");
    s1.apply("b", b"2");

    let mut s2 = AppState::new();
    s2.apply("a", b"1");
    s2.apply("b", b"2");

    assert_eq!(s1.root_hash(), s2.root_hash());
}

/// The parts of a state, as they are stored and loaded.
fn parts(state: &AppState) -> Vec<(String, Vec<u8>, u64)> {
    state
        .entries()
        .iter()
        .map(|(key, value, version)| (key.to_string(), value.to_vec(), *version))
        .collect()
}

#[test]
fn snapshot_and_restore_roundtrip() {
    let mut state = AppState::new();
    state.apply("alice", b"100");
    state.apply("bob", b"200");
    state.set_height(42);
    state.increment_version();

    let snapshot = parts(&state);
    let restored = AppState::from_parts(snapshot, state.height(), state.app_version());

    assert_eq!(restored.get("alice"), Some(b"100" as &[u8]));
    assert_eq!(restored.get("bob"), Some(b"200" as &[u8]));
    assert_eq!(restored.height(), 42);
    assert_eq!(restored.app_version(), 1);
    assert_eq!(restored.root_hash(), state.root_hash());
}

#[test]
fn apply_batch_atomic() {
    let mut state = AppState::new();
    state.apply_batch(vec![
        ("x".into(), b"10".to_vec()),
        ("y".into(), b"20".to_vec()),
    ]);
    assert_eq!(state.len(), 2);
    assert_eq!(state.get("x"), Some(b"10" as &[u8]));
    assert_eq!(state.get("y"), Some(b"20" as &[u8]));
}

#[test]
fn ordered_entries() {
    let mut state = AppState::new();
    state.apply("z", b"3");
    state.apply("a", b"1");
    state.apply("m", b"2");

    let entries = state.entries();
    let keys: Vec<&str> = entries.iter().map(|(k, _, _)| *k).collect();
    assert_eq!(keys, vec!["a", "m", "z"]);
}

#[test]
fn commit_increments_version() {
    let mut state = AppState::new();
    assert_eq!(state.app_version(), 0);

    let _resp = commit_state(&mut state);
    assert_eq!(state.app_version(), 1);

    let _resp = commit_state(&mut state);
    assert_eq!(state.app_version(), 2);
}

#[test]
fn commit_after_mutations_produces_app_hash() {
    let mut state = AppState::new();
    state.apply("key1", b"value1");

    let hash = commit_state(&mut state);

    // Check that the state changed by verifying version incremented
    assert_eq!(state.app_version(), 1);
    assert_eq!(state.len(), 1);
    assert_eq!(hash, state.root_hash());
}

#[test]
fn commit_with_empty_state() {
    let mut state = AppState::new();
    let _resp = commit_state(&mut state);
    assert_eq!(state.app_version(), 1);
}

#[test]
fn root_hash_of_known_states() {
    let mut state = AppState::new();
    assert_eq!(
        hex::encode(state.root_hash()),
        "e3b0c44298fc1c149afbf4c8996fb92427ae41e4649b934ca495991b7852b855"
    );
    state.apply("b", b"22");
    state.apply("a", b"1");
    assert_eq!(
        hex::encode(state.root_hash()),
        "7662ab8007605fa2a99bf3f4de9d253c90f99af2a8bcd180778f31cd15f9fa45"
    );
}

#[test]
fn root_hash_ignores_the_order_of_writes_and_the_height() {
    let mut s1 = AppState::new();
    s1.apply("a", b"1");
    s1.apply("b", b"2");
    s1.set_height(9);
    let mut s2 = AppState::new();
    s2.apply("b", b"2");
    s2.apply("a", b"1");
    assert_eq!(s1.root_hash(), s2.root_hash());
}

#[test]
fn values_carry_the_version_that_wrote_them() {
    let mut state = AppState::new();
    state.apply("a", b"1");
    state.increment_version();
    state.apply("b", b"2");
    let versions: Vec<u64> = state.entries().iter().map(|(_, _, v)| *v).collect();
    assert_eq!(versions, vec![0, 1]);
    let copy = state.duplicate();
    assert_eq!(parts(&copy), parts(&state));
}

#[test]
fn deleting_an_absent_key_changes_nothing() {
    let mut state = AppState::new();
    state.apply("a", b"1");
    let before = state.root_hash();
    assert_eq!(state.delete("b"), None);
    assert_eq!(state.root_hash(), before);
}
