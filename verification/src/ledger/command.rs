//! Commands on single accounts and transfers between two.

use crate::codec::{encodable, lemma_regrouped, lemma_same_split, lemma_string_bytes_delimited,
    lemma_u64_bytes, lemma_u64_bytes_delimited, put_string, put_text, put_u64, put_u8, string_bytes, u64_bytes, utf8};
use crate::digest::{is_digest_text, lemma_hex_injective, sha256_digest, sha256_hex, sha256_text};
use vstd::prelude::*;

verus! {

/// Operations on an account balance.
#[derive(Debug, Clone, Copy, PartialEq, Eq, Hash, Structural)]
pub enum BalanceOperation {
    /// Increase the available balance.
    Credit,
    /// Decrease the available balance.
    Debit,
    /// Move funds from available to reserved.
    Reserve,
    /// Move funds from reserved back to available.
    ReleaseReservation,
}

/// The stable code of an operation.
pub open spec fn operation_code(op: BalanceOperation) -> u8 {
    match op {
        BalanceOperation::Credit => 0,
        BalanceOperation::Debit => 1,
        BalanceOperation::Reserve => 2,
        BalanceOperation::ReleaseReservation => 3,
    }
}

/// A versioned command on a single account.
///
/// It carries the version that the caller observed, and is refused when the
/// account has moved on.
#[derive(Debug, PartialEq, Eq)]
pub struct BalanceCommand {
    /// Globally unique command identifier (used for idempotency).
    pub command_id: String,
    /// The account to operate on.
    pub account_id: String,
    /// The version the caller observed.
    pub expected_version: u64,
    /// The operation to perform.
    pub operation: BalanceOperation,
    /// Amount in satoshis.
    pub amount_sats: u64,
    /// Epoch bucket for ordering.
    pub epoch: u64,
    /// Hash of the payload for integrity verification.
    pub payload_hash: String,
}

/// The bytes under the payload hash of a balance command. The identifier has
/// no part in them.
pub open spec fn balance_payload(
    account_id: Seq<char>,
    expected_version: u64,
    operation: BalanceOperation,
    amount_sats: u64,
    epoch: u64,
) -> Seq<u8> {
    utf8("KROOTv1:BalanceCommand"@) + seq![operation_code(operation)] + string_bytes(account_id)
        + u64_bytes(expected_version) + u64_bytes(amount_sats) + u64_bytes(epoch)
}

/// Commands that differ in account, version, operation, amount or epoch are
/// hashed from different bytes.
pub proof fn lemma_balance_payload_injective(
    account_a: Seq<char>,
    version_a: u64,
    operation_a: BalanceOperation,
    amount_a: u64,
    epoch_a: u64,
    account_b: Seq<char>,
    version_b: u64,
    operation_b: BalanceOperation,
    amount_b: u64,
    epoch_b: u64,
)
    requires
        encodable(account_a),
        encodable(account_b),
        balance_payload(account_a, version_a, operation_a, amount_a, epoch_a) == balance_payload(
            account_b,
            version_b,
            operation_b,
            amount_b,
            epoch_b,
        ),
    ensures
        account_a == account_b,
        version_a == version_b,
        operation_a == operation_b,
        amount_a == amount_b,
        epoch_a == epoch_b,
{
    let tag = utf8("KROOTv1:BalanceCommand"@);
    let ca = seq![operation_code(operation_a)];
    let cb = seq![operation_code(operation_b)];
    let a2 = u64_bytes(epoch_a);
    let b2 = u64_bytes(epoch_b);
    let a1 = u64_bytes(amount_a) + a2;
    let b1 = u64_bytes(amount_b) + b2;
    let a0 = u64_bytes(version_a) + a1;
    let b0 = u64_bytes(version_b) + b1;
    let ra = string_bytes(account_a) + a0;
    let rb = string_bytes(account_b) + b0;
    lemma_regrouped(
        tag,
        ca,
        string_bytes(account_a),
        u64_bytes(version_a),
        u64_bytes(amount_a),
        u64_bytes(epoch_a),
    );
    lemma_regrouped(
        tag,
        cb,
        string_bytes(account_b),
        u64_bytes(version_b),
        u64_bytes(amount_b),
        u64_bytes(epoch_b),
    );
    lemma_same_split(tag, ca + ra, tag, cb + rb);
    lemma_same_split(ca, ra, cb, rb);
    assert(ca[0] == cb[0]);
    lemma_string_bytes_delimited(account_a, a0, account_b, b0);
    lemma_u64_bytes_delimited(version_a, a1, version_b, b1);
    lemma_u64_bytes_delimited(amount_a, a2, amount_b, b2);
    lemma_u64_bytes(epoch_a, epoch_b);
}

/// An atomic transfer between two accounts, each at its expected version.
///
/// Both sides are updated or none. Where both are one account, it is debited
/// first and credited then.
#[derive(Debug, PartialEq, Eq)]
pub struct InternalTransferCommand {
    /// Globally unique command identifier (used for idempotency).
    pub command_id: String,
    /// Account to be debited.
    pub source_account_id: String,
    /// Expected version of the source account.
    pub source_expected_version: u64,
    /// Account to be credited.
    pub destination_account_id: String,
    /// Expected version of the destination account.
    pub destination_expected_version: u64,
    /// Amount in satoshis to transfer.
    pub amount_sats: u64,
    /// Authorization commitment (e.g. multi-signature approval hash).
    pub authorization_commitment: String,
}

/// The bytes under the payload hash of a command.
pub open spec fn payload_of(c: BalanceCommand) -> Seq<u8> {
    balance_payload(c.account_id@, c.expected_version, c.operation, c.amount_sats, c.epoch)
}

/// Payload hashes tell commands apart by account, version, operation, amount
/// and epoch, and by nothing else, unless SHA-256 collides on their payloads.
pub proof fn lemma_payload_hashes_tell_apart(a: BalanceCommand, b: BalanceCommand)
    requires
        a.payload_hash@ == sha256_hex(payload_of(a)),
        b.payload_hash@ == sha256_hex(payload_of(b)),
        encodable(a.account_id@),
        encodable(b.account_id@),
        sha256_digest(payload_of(a)) == sha256_digest(payload_of(b)) ==> payload_of(a)
            == payload_of(b),
    ensures
        a.payload_hash@ == b.payload_hash@ <==> {
            &&& a.account_id@ == b.account_id@
            &&& a.expected_version == b.expected_version
            &&& a.operation == b.operation
            &&& a.amount_sats == b.amount_sats
            &&& a.epoch == b.epoch
        },
{
    if a.payload_hash@ == b.payload_hash@ {
        lemma_hex_injective(sha256_digest(payload_of(a)), sha256_digest(payload_of(b)));
        lemma_balance_payload_injective(
            a.account_id@,
            a.expected_version,
            a.operation,
            a.amount_sats,
            a.epoch,
            b.account_id@,
            b.expected_version,
            b.operation,
            b.amount_sats,
            b.epoch,
        );
    }
}

impl BalanceCommand {
    /// A balance command with the hash of its payload.
    pub fn new(
        command_id: &str,
        account_id: &str,
        expected_version: u64,
        operation: BalanceOperation,
        amount_sats: u64,
        epoch: u64,
    ) -> (r: Self)
        ensures
            r.command_id@ == command_id@,
            r.account_id@ == account_id@,
            r.expected_version == expected_version,
            r.operation == operation,
            r.amount_sats == amount_sats,
            r.epoch == epoch,
            r.payload_hash@ == sha256_hex(
                balance_payload(account_id@, expected_version, operation, amount_sats, epoch),
            ),
            is_digest_text(r.payload_hash@),
    {
        let mut buf: Vec<u8> = Vec::new();
        put_text(&mut buf, "KROOTv1:BalanceCommand");
        let code: u8 = match operation {
            BalanceOperation::Credit => 0,
            BalanceOperation::Debit => 1,
            BalanceOperation::Reserve => 2,
            BalanceOperation::ReleaseReservation => 3,
        };
        put_u8(&mut buf, code);
        put_string(&mut buf, account_id);
        put_u64(&mut buf, expected_version);
        put_u64(&mut buf, amount_sats);
        put_u64(&mut buf, epoch);
        assert(buf@ =~= balance_payload(
            account_id@,
            expected_version,
            operation,
            amount_sats,
            epoch,
        ));
        BalanceCommand {
            command_id: command_id.to_owned(),
            account_id: account_id.to_owned(),
            expected_version,
            operation,
            amount_sats,
            epoch,
            payload_hash: sha256_text(buf.as_slice()),
        }
    }
}

impl InternalTransferCommand {
    /// A transfer command.
    pub fn new(
        command_id: &str,
        source_account_id: &str,
        source_expected_version: u64,
        destination_account_id: &str,
        destination_expected_version: u64,
        amount_sats: u64,
        authorization_commitment: &str,
    ) -> (r: Self)
        ensures
            r.command_id@ == command_id@,
            r.source_account_id@ == source_account_id@,
            r.source_expected_version == source_expected_version,
            r.destination_account_id@ == destination_account_id@,
            r.destination_expected_version == destination_expected_version,
            r.amount_sats == amount_sats,
            r.authorization_commitment@ == authorization_commitment@,
    {
        InternalTransferCommand {
            command_id: command_id.to_owned(),
            source_account_id: source_account_id.to_owned(),
            source_expected_version,
            destination_account_id: destination_account_id.to_owned(),
            destination_expected_version,
            amount_sats,
            authorization_commitment: authorization_commitment.to_owned(),
        }
    }
}

} // verus!
