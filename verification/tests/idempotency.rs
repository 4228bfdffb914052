use kerosene_node::ledger::idempotency::IdempotencyRecord;

#[test]
fn create_idempotency_record() {
    let rec = IdempotencyRecord::new(
        "cmd-1",
        "hash-abc",
        "result-xyz",
        42,
        "root-123",
    );
    assert_eq!(rec.command_id, "cmd-1");
    assert_eq!(rec.command_hash, "hash-abc");
    assert_eq!(rec.result_hash, "result-xyz");
    assert_eq!(rec.committed_sequence, 42);
    assert_eq!(rec.resulting_state_root, "root-123");
}
