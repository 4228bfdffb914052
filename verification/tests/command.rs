use kerosene_node::ledger::command::{BalanceCommand, BalanceOperation, InternalTransferCommand};

#[test]
fn create_balance_command() {
    let cmd = BalanceCommand::new("cmd-1", "account-1", 0, BalanceOperation::Credit, 1000, 1);
    assert_eq!(cmd.command_id, "cmd-1");
    assert_eq!(cmd.account_id, "account-1");
    assert_eq!(cmd.expected_version, 0);
    assert_eq!(cmd.operation, BalanceOperation::Credit);
    assert_eq!(cmd.amount_sats, 1000);
}

#[test]
fn create_internal_transfer() {
    let cmd = InternalTransferCommand::new(
        "tx-1",
        "source-1",
        5,
        "dest-1",
        3,
        500,
        "auth-commit-123",
    );
    assert_eq!(cmd.command_id, "tx-1");
    assert_eq!(cmd.source_account_id, "source-1");
    assert_eq!(cmd.source_expected_version, 5);
    assert_eq!(cmd.destination_account_id, "dest-1");
    assert_eq!(cmd.destination_expected_version, 3);
    assert_eq!(cmd.amount_sats, 500);
    assert_eq!(cmd.authorization_commitment, "auth-commit-123");
}

#[test]
fn payload_hash_of_a_known_balance_command() {
    let cmd = BalanceCommand::new("cmd-1", "account-1", 0, BalanceOperation::Credit, 1000, 1);
    assert_eq!(
        cmd.payload_hash,
        "dde59afbbf9531d180053b13141ac51d1e12608787d9fdf3b3a08e76ffacf8f0"
    );
    let other = BalanceCommand::new("cmd-2", "account-1", 0, BalanceOperation::Credit, 1000, 1);
    assert_eq!(cmd.payload_hash, other.payload_hash);
    let debit = BalanceCommand::new("cmd-1", "account-1", 0, BalanceOperation::Debit, 1000, 1);
    assert_ne!(cmd.payload_hash, debit.payload_hash);
}

#[test]
fn payload_hashes_tell_amounts_apart_but_not_identifiers() {
    let hash = |id: &str, amount: u64| {
        BalanceCommand::new(id, "account-1", 0, BalanceOperation::Credit, amount, 1).payload_hash
    };
    assert_eq!(hash("a", 1000).len(), 64);
    assert_eq!(hash("a", 1000), hash("b", 1000));
    assert_ne!(hash("a", 1000), hash("a", 1001));
}
