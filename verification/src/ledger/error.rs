//! What can go wrong in the ledger.

use crate::ledger::account::{account_name, StandardAccount};
use crate::ledger::chain::{onchain_name, OnchainState};
use crate::ledger::membership::{role_name, NodeRole};
use crate::text::{decimal, decimal_int, i128_text, join, joined, texts, u128_text, u64_text};
use vstd::prelude::*;

verus! {

/// Every way in which a ledger operation is refused.
#[derive(Debug, Clone, PartialEq, Eq)]
#[allow(inconsistent_fields)]
pub enum LedgerError {
    UnbalancedEntry { debits_sum: u128, credits_sum: u128 },
    EmptyEntry,
    NegativeBalance { account: StandardAccount, balance: i128 },
    DuplicateSequence(u64),
    SequenceGap { expected: u64, got: u64 },
    AccountNotFound(StandardAccount),
    InvalidHash(String),
    InvariantViolation(String),
    ReservedExceedsAvailable { reserved: u64, available: u64 },
    PendingOutgoingExceedsAvailable { outgoing: u64, available: u64 },
    StateVersionRegression { prev: u64, current: u64 },
    BalanceOverflow { account: StandardAccount },
    DuplicateEntryId(String),
    VersionConflict { account: String, expected: u64, current: u64 },
    InsufficientFunds { account: String, available: u64, needed: u64 },
    IdempotencyConflict { command_id: String },
    ReservationNotFound(String),
    ReservationAlreadyConsumed(String),
    ReservationExpired(String),
    AtomicTransferFailed(String),
    UnknownCommand(String),
    InvalidStateTransition(String),
    SnapshotNotFound(u64),
    InvalidSignature(String),
    StateRootMismatch { expected: String, got: String },
    SyncNotHealthy(String),
    NotAVoter { node_id: String, role: NodeRole },
    CannotVote { reasons: Vec<String> },
    NodeNotFound(String),
    InvalidRoleTransition { from: NodeRole, to: NodeRole },
    UtxoNotFound { txid: String, vout: u32 },
    InvalidUtxoTransition { from: OnchainState, to: OnchainState },
    UtxoAlreadyReserved { reserved_by: String },
    UtxoNotReserved,
    InvalidUtxoData(String),
    AuthorizationExpired { expires_at: u64, now: u64 },
    AuthorizationInvalid(String),
    PsbtMismatch { expected: String, got: String },
    PolicyViolation(String),
    WithdrawalNotFound(String),
    GateBlocked { reason: String },
}

/// A ledger error with its texts as sequences of characters.
#[allow(inconsistent_fields)]
pub enum ErrorModel {
    UnbalancedEntry { debits_sum: u128, credits_sum: u128 },
    EmptyEntry,
    NegativeBalance { account: StandardAccount, balance: i128 },
    DuplicateSequence(u64),
    SequenceGap { expected: u64, got: u64 },
    AccountNotFound(StandardAccount),
    InvalidHash(Seq<char>),
    InvariantViolation(Seq<char>),
    ReservedExceedsAvailable { reserved: u64, available: u64 },
    PendingOutgoingExceedsAvailable { outgoing: u64, available: u64 },
    StateVersionRegression { prev: u64, current: u64 },
    BalanceOverflow { account: StandardAccount },
    DuplicateEntryId(Seq<char>),
    VersionConflict { account: Seq<char>, expected: u64, current: u64 },
    InsufficientFunds { account: Seq<char>, available: u64, needed: u64 },
    IdempotencyConflict { command_id: Seq<char> },
    ReservationNotFound(Seq<char>),
    ReservationAlreadyConsumed(Seq<char>),
    ReservationExpired(Seq<char>),
    AtomicTransferFailed(Seq<char>),
    UnknownCommand(Seq<char>),
    InvalidStateTransition(Seq<char>),
    SnapshotNotFound(u64),
    InvalidSignature(Seq<char>),
    StateRootMismatch { expected: Seq<char>, got: Seq<char> },
    SyncNotHealthy(Seq<char>),
    NotAVoter { node_id: Seq<char>, role: NodeRole },
    CannotVote { reasons: Seq<Seq<char>> },
    NodeNotFound(Seq<char>),
    InvalidRoleTransition { from: NodeRole, to: NodeRole },
    UtxoNotFound { txid: Seq<char>, vout: u32 },
    InvalidUtxoTransition { from: OnchainState, to: OnchainState },
    UtxoAlreadyReserved { reserved_by: Seq<char> },
    UtxoNotReserved,
    InvalidUtxoData(Seq<char>),
    AuthorizationExpired { expires_at: u64, now: u64 },
    AuthorizationInvalid(Seq<char>),
    PsbtMismatch { expected: Seq<char>, got: Seq<char> },
    PolicyViolation(Seq<char>),
    WithdrawalNotFound(Seq<char>),
    GateBlocked { reason: Seq<char> },
}

impl View for LedgerError {
    type V = ErrorModel;

    open spec fn view(&self) -> ErrorModel {
        match *self {
            LedgerError::UnbalancedEntry { debits_sum, credits_sum } => ErrorModel::UnbalancedEntry { debits_sum: debits_sum, credits_sum: credits_sum },
            LedgerError::EmptyEntry => ErrorModel::EmptyEntry,
            LedgerError::NegativeBalance { account, balance } => ErrorModel::NegativeBalance { account: account, balance: balance },
            LedgerError::DuplicateSequence(sequence) => ErrorModel::DuplicateSequence(sequence),
            LedgerError::SequenceGap { expected, got } => ErrorModel::SequenceGap { expected: expected, got: got },
            LedgerError::AccountNotFound(account) => ErrorModel::AccountNotFound(account),
            LedgerError::InvalidHash(detail) => ErrorModel::InvalidHash(detail@),
            LedgerError::InvariantViolation(detail) => ErrorModel::InvariantViolation(detail@),
            LedgerError::ReservedExceedsAvailable { reserved, available } => ErrorModel::ReservedExceedsAvailable { reserved: reserved, available: available },
            LedgerError::PendingOutgoingExceedsAvailable { outgoing, available } => ErrorModel::PendingOutgoingExceedsAvailable { outgoing: outgoing, available: available },
            LedgerError::StateVersionRegression { prev, current } => ErrorModel::StateVersionRegression { prev: prev, current: current },
            LedgerError::BalanceOverflow { account } => ErrorModel::BalanceOverflow { account: account },
            LedgerError::DuplicateEntryId(id) => ErrorModel::DuplicateEntryId(id@),
            LedgerError::VersionConflict { account, expected, current } => ErrorModel::VersionConflict { account: account@, expected: expected, current: current },
            LedgerError::InsufficientFunds { account, available, needed } => ErrorModel::InsufficientFunds { account: account@, available: available, needed: needed },
            LedgerError::IdempotencyConflict { command_id } => ErrorModel::IdempotencyConflict { command_id: command_id@ },
            LedgerError::ReservationNotFound(id) => ErrorModel::ReservationNotFound(id@),
            LedgerError::ReservationAlreadyConsumed(id) => ErrorModel::ReservationAlreadyConsumed(id@),
            LedgerError::ReservationExpired(id) => ErrorModel::ReservationExpired(id@),
            LedgerError::AtomicTransferFailed(detail) => ErrorModel::AtomicTransferFailed(detail@),
            LedgerError::UnknownCommand(detail) => ErrorModel::UnknownCommand(detail@),
            LedgerError::InvalidStateTransition(detail) => ErrorModel::InvalidStateTransition(detail@),
            LedgerError::SnapshotNotFound(sequence) => ErrorModel::SnapshotNotFound(sequence),
            LedgerError::InvalidSignature(detail) => ErrorModel::InvalidSignature(detail@),
            LedgerError::StateRootMismatch { expected, got } => ErrorModel::StateRootMismatch { expected: expected@, got: got@ },
            LedgerError::SyncNotHealthy(detail) => ErrorModel::SyncNotHealthy(detail@),
            LedgerError::NotAVoter { node_id, role } => ErrorModel::NotAVoter { node_id: node_id@, role: role },
            LedgerError::CannotVote { reasons } => ErrorModel::CannotVote { reasons: texts(reasons@) },
            LedgerError::NodeNotFound(id) => ErrorModel::NodeNotFound(id@),
            LedgerError::InvalidRoleTransition { from, to } => ErrorModel::InvalidRoleTransition { from: from, to: to },
            LedgerError::UtxoNotFound { txid, vout } => ErrorModel::UtxoNotFound { txid: txid@, vout: vout },
            LedgerError::InvalidUtxoTransition { from, to } => ErrorModel::InvalidUtxoTransition { from: from, to: to },
            LedgerError::UtxoAlreadyReserved { reserved_by } => ErrorModel::UtxoAlreadyReserved { reserved_by: reserved_by@ },
            LedgerError::UtxoNotReserved => ErrorModel::UtxoNotReserved,
            LedgerError::InvalidUtxoData(detail) => ErrorModel::InvalidUtxoData(detail@),
            LedgerError::AuthorizationExpired { expires_at, now } => ErrorModel::AuthorizationExpired { expires_at: expires_at, now: now },
            LedgerError::AuthorizationInvalid(detail) => ErrorModel::AuthorizationInvalid(detail@),
            LedgerError::PsbtMismatch { expected, got } => ErrorModel::PsbtMismatch { expected: expected@, got: got@ },
            LedgerError::PolicyViolation(detail) => ErrorModel::PolicyViolation(detail@),
            LedgerError::WithdrawalNotFound(id) => ErrorModel::WithdrawalNotFound(id@),
            LedgerError::GateBlocked { reason } => ErrorModel::GateBlocked { reason: reason@ },
        }
    }
}

/// The result of an operation with its error as a model.
pub open spec fn outcome<T>(r: Result<T, LedgerError>) -> Result<T, ErrorModel> {
    match r {
        Ok(v) => Ok(v),
        Err(e) => Err(e@),
    }
}

/// The message of an error.
pub open spec fn error_text(e: ErrorModel) -> Seq<char> {
    match e {
        ErrorModel::UnbalancedEntry { debits_sum, credits_sum } => "unbalanced entry: debits "@ + decimal(debits_sum as nat) + " != credits "@ + decimal(credits_sum as nat),
        ErrorModel::EmptyEntry => "entry must have at least one debit and one credit"@,
        ErrorModel::NegativeBalance { account, balance } => "negative balance for "@ + account_name(account) + ": "@ + decimal_int(balance as int),
        ErrorModel::DuplicateSequence(sequence) => "duplicate sequence: "@ + decimal(sequence as nat),
        ErrorModel::SequenceGap { expected, got } => "sequence gap: expected "@ + decimal(expected as nat) + ", got "@ + decimal(got as nat),
        ErrorModel::AccountNotFound(account) => "account not found: "@ + account_name(account),
        ErrorModel::InvalidHash(detail) => "invalid hash: "@ + detail,
        ErrorModel::InvariantViolation(detail) => "invariant violation: "@ + detail,
        ErrorModel::ReservedExceedsAvailable { reserved, available } => "reserved "@ + decimal(reserved as nat) + " exceeds available "@ + decimal(available as nat),
        ErrorModel::PendingOutgoingExceedsAvailable { outgoing, available } => "pending outgoing "@ + decimal(outgoing as nat) + " exceeds internal available "@ + decimal(available as nat),
        ErrorModel::StateVersionRegression { prev, current } => "state version regression: previous "@ + decimal(prev as nat) + ", current "@ + decimal(current as nat),
        ErrorModel::BalanceOverflow { account } => "balance overflow for account "@ + account_name(account),
        ErrorModel::DuplicateEntryId(id) => "duplicate entry id: "@ + id,
        ErrorModel::VersionConflict { account, expected, current } => "version conflict: account "@ + account + " expected version "@ + decimal(expected as nat) + ", current "@ + decimal(current as nat),
        ErrorModel::InsufficientFunds { account, available, needed } => "insufficient funds: account "@ + account + " has "@ + decimal(available as nat) + ", needs "@ + decimal(needed as nat),
        ErrorModel::IdempotencyConflict { command_id } => "idempotency conflict: command "@ + command_id + " with different hash"@,
        ErrorModel::ReservationNotFound(id) => "reservation not found: "@ + id,
        ErrorModel::ReservationAlreadyConsumed(id) => "reservation already consumed: "@ + id,
        ErrorModel::ReservationExpired(id) => "reservation expired: "@ + id,
        ErrorModel::AtomicTransferFailed(detail) => "atomic transfer failed: "@ + detail,
        ErrorModel::UnknownCommand(detail) => "unknown command type: "@ + detail,
        ErrorModel::InvalidStateTransition(detail) => "invalid state transition: "@ + detail,
        ErrorModel::SnapshotNotFound(sequence) => "snapshot not found at sequence "@ + decimal(sequence as nat),
        ErrorModel::InvalidSignature(detail) => "invalid signature: "@ + detail,
        ErrorModel::StateRootMismatch { expected, got } => "state root mismatch: expected "@ + expected + ", got "@ + got,
        ErrorModel::SyncNotHealthy(detail) => "sync not healthy: "@ + detail,
        ErrorModel::NotAVoter { node_id, role } => "node "@ + node_id + " is not a voter (role: "@ + role_name(role) + ")"@,
        ErrorModel::CannotVote { reasons } => "cannot vote: "@ + joined(reasons, ", "@),
        ErrorModel::NodeNotFound(id) => "node not found: "@ + id,
        ErrorModel::InvalidRoleTransition { from, to } => "invalid role transition: from "@ + role_name(from) + " to "@ + role_name(to),
        ErrorModel::UtxoNotFound { txid, vout } => "utxo not found: "@ + txid + ":"@ + decimal(vout as nat),
        ErrorModel::InvalidUtxoTransition { from, to } => "invalid utxo transition: from "@ + onchain_name(from) + " to "@ + onchain_name(to),
        ErrorModel::UtxoAlreadyReserved { reserved_by } => "utxo already reserved by "@ + reserved_by,
        ErrorModel::UtxoNotReserved => "utxo not reserved"@,
        ErrorModel::InvalidUtxoData(detail) => "invalid utxo data: "@ + detail,
        ErrorModel::AuthorizationExpired { expires_at, now } => "authorization expired at "@ + decimal(expires_at as nat) + ", current time "@ + decimal(now as nat),
        ErrorModel::AuthorizationInvalid(detail) => "authorization invalid: "@ + detail,
        ErrorModel::PsbtMismatch { expected, got } => "PSBT hash mismatch: expected "@ + expected + ", got "@ + got,
        ErrorModel::PolicyViolation(detail) => "policy violation: "@ + detail,
        ErrorModel::WithdrawalNotFound(id) => "withdrawal not found: "@ + id,
        ErrorModel::GateBlocked { reason } => "gate blocked: "@ + reason,
    }
}

impl LedgerError {
    /// Describes the error.
    pub fn message(&self) -> (r: String)
        ensures
            r@ == error_text(self@),
    {
        match self {
            LedgerError::UnbalancedEntry { debits_sum, credits_sum } => {
                let mut m = "unbalanced entry: debits ".to_owned();
                let debits_sum_text = u128_text(*debits_sum);
                m.append(debits_sum_text.as_str());
                m.append(" != credits ");
                let credits_sum_text = u128_text(*credits_sum);
                m.append(credits_sum_text.as_str());
                m
            },
            LedgerError::EmptyEntry => {
                "entry must have at least one debit and one credit".to_owned()
            },
            LedgerError::NegativeBalance { account, balance } => {
                let mut m = "negative balance for ".to_owned();
                m.append(account.name());
                m.append(": ");
                let balance_text = i128_text(*balance);
                m.append(balance_text.as_str());
                m
            },
            LedgerError::DuplicateSequence(sequence) => {
                let mut m = "duplicate sequence: ".to_owned();
                let sequence_text = u64_text(*sequence);
                m.append(sequence_text.as_str());
                m
            },
            LedgerError::SequenceGap { expected, got } => {
                let mut m = "sequence gap: expected ".to_owned();
                let expected_text = u64_text(*expected);
                m.append(expected_text.as_str());
                m.append(", got ");
                let got_text = u64_text(*got);
                m.append(got_text.as_str());
                m
            },
            LedgerError::AccountNotFound(account) => {
                let mut m = "account not found: ".to_owned();
                m.append(account.name());
                m
            },
            LedgerError::InvalidHash(detail) => {
                let mut m = "invalid hash: ".to_owned();
                m.append(detail.as_str());
                m
            },
            LedgerError::InvariantViolation(detail) => {
                let mut m = "invariant violation: ".to_owned();
                m.append(detail.as_str());
                m
            },
            LedgerError::ReservedExceedsAvailable { reserved, available } => {
                let mut m = "reserved ".to_owned();
                let reserved_text = u64_text(*reserved);
                m.append(reserved_text.as_str());
                m.append(" exceeds available ");
                let available_text = u64_text(*available);
                m.append(available_text.as_str());
                m
            },
            LedgerError::PendingOutgoingExceedsAvailable { outgoing, available } => {
                let mut m = "pending outgoing ".to_owned();
                let outgoing_text = u64_text(*outgoing);
                m.append(outgoing_text.as_str());
                m.append(" exceeds internal available ");
                let available_text = u64_text(*available);
                m.append(available_text.as_str());
                m
            },
            LedgerError::StateVersionRegression { prev, current } => {
                let mut m = "state version regression: previous ".to_owned();
                let prev_text = u64_text(*prev);
                m.append(prev_text.as_str());
                m.append(", current ");
                let current_text = u64_text(*current);
                m.append(current_text.as_str());
                m
            },
            LedgerError::BalanceOverflow { account } => {
                let mut m = "balance overflow for account ".to_owned();
                m.append(account.name());
                m
            },
            LedgerError::DuplicateEntryId(id) => {
                let mut m = "duplicate entry id: ".to_owned();
                m.append(id.as_str());
                m
            },
            LedgerError::VersionConflict { account, expected, current } => {
                let mut m = "version conflict: account ".to_owned();
                m.append(account.as_str());
                m.append(" expected version ");
                let expected_text = u64_text(*expected);
                m.append(expected_text.as_str());
                m.append(", current ");
                let current_text = u64_text(*current);
                m.append(current_text.as_str());
                m
            },
            LedgerError::InsufficientFunds { account, available, needed } => {
                let mut m = "insufficient funds: account ".to_owned();
                m.append(account.as_str());
                m.append(" has ");
                let available_text = u64_text(*available);
                m.append(available_text.as_str());
                m.append(", needs ");
                let needed_text = u64_text(*needed);
                m.append(needed_text.as_str());
                m
            },
            LedgerError::IdempotencyConflict { command_id } => {
                let mut m = "idempotency conflict: command ".to_owned();
                m.append(command_id.as_str());
                m.append(" with different hash");
                m
            },
            LedgerError::ReservationNotFound(id) => {
                let mut m = "reservation not found: ".to_owned();
                m.append(id.as_str());
                m
            },
            LedgerError::ReservationAlreadyConsumed(id) => {
                let mut m = "reservation already consumed: ".to_owned();
                m.append(id.as_str());
                m
            },
            LedgerError::ReservationExpired(id) => {
                let mut m = "reservation expired: ".to_owned();
                m.append(id.as_str());
                m
            },
            LedgerError::AtomicTransferFailed(detail) => {
                let mut m = "atomic transfer failed: ".to_owned();
                m.append(detail.as_str());
                m
            },
            LedgerError::UnknownCommand(detail) => {
                let mut m = "unknown command type: ".to_owned();
                m.append(detail.as_str());
                m
            },
            LedgerError::InvalidStateTransition(detail) => {
                let mut m = "invalid state transition: ".to_owned();
                m.append(detail.as_str());
                m
            },
            LedgerError::SnapshotNotFound(sequence) => {
                let mut m = "snapshot not found at sequence ".to_owned();
                let sequence_text = u64_text(*sequence);
                m.append(sequence_text.as_str());
                m
            },
            LedgerError::InvalidSignature(detail) => {
                let mut m = "invalid signature: ".to_owned();
                m.append(detail.as_str());
                m
            },
            LedgerError::StateRootMismatch { expected, got } => {
                let mut m = "state root mismatch: expected ".to_owned();
                m.append(expected.as_str());
                m.append(", got ");
                m.append(got.as_str());
                m
            },
            LedgerError::SyncNotHealthy(detail) => {
                let mut m = "sync not healthy: ".to_owned();
                m.append(detail.as_str());
                m
            },
            LedgerError::NotAVoter { node_id, role } => {
                let mut m = "node ".to_owned();
                m.append(node_id.as_str());
                m.append(" is not a voter (role: ");
                m.append(role.name());
                m.append(")");
                m
            },
            LedgerError::CannotVote { reasons } => {
                let mut m = "cannot vote: ".to_owned();
                let reasons_text = join(reasons, ", ");
                m.append(reasons_text.as_str());
                m
            },
            LedgerError::NodeNotFound(id) => {
                let mut m = "node not found: ".to_owned();
                m.append(id.as_str());
                m
            },
            LedgerError::InvalidRoleTransition { from, to } => {
                let mut m = "invalid role transition: from ".to_owned();
                m.append(from.name());
                m.append(" to ");
                m.append(to.name());
                m
            },
            LedgerError::UtxoNotFound { txid, vout } => {
                let mut m = "utxo not found: ".to_owned();
                m.append(txid.as_str());
                m.append(":");
                let vout_text = u64_text(*vout as u64);
                m.append(vout_text.as_str());
                m
            },
            LedgerError::InvalidUtxoTransition { from, to } => {
                let mut m = "invalid utxo transition: from ".to_owned();
                m.append(from.name());
                m.append(" to ");
                m.append(to.name());
                m
            },
            LedgerError::UtxoAlreadyReserved { reserved_by } => {
                let mut m = "utxo already reserved by ".to_owned();
                m.append(reserved_by.as_str());
                m
            },
            LedgerError::UtxoNotReserved => {
                "utxo not reserved".to_owned()
            },
            LedgerError::InvalidUtxoData(detail) => {
                let mut m = "invalid utxo data: ".to_owned();
                m.append(detail.as_str());
                m
            },
            LedgerError::AuthorizationExpired { expires_at, now } => {
                let mut m = "authorization expired at ".to_owned();
                let expires_at_text = u64_text(*expires_at);
                m.append(expires_at_text.as_str());
                m.append(", current time ");
                let now_text = u64_text(*now);
                m.append(now_text.as_str());
                m
            },
            LedgerError::AuthorizationInvalid(detail) => {
                let mut m = "authorization invalid: ".to_owned();
                m.append(detail.as_str());
                m
            },
            LedgerError::PsbtMismatch { expected, got } => {
                let mut m = "PSBT hash mismatch: expected ".to_owned();
                m.append(expected.as_str());
                m.append(", got ");
                m.append(got.as_str());
                m
            },
            LedgerError::PolicyViolation(detail) => {
                let mut m = "policy violation: ".to_owned();
                m.append(detail.as_str());
                m
            },
            LedgerError::WithdrawalNotFound(id) => {
                let mut m = "withdrawal not found: ".to_owned();
                m.append(id.as_str());
                m
            },
            LedgerError::GateBlocked { reason } => {
                let mut m = "gate blocked: ".to_owned();
                m.append(reason.as_str());
                m
            },
        }
    }
}

/// What a message tells, in this order: of sums and balances, of versions and
/// funds, of roots and hashes, of roles and states, each value that the error
/// carries.
pub proof fn lemma_messages_tell_the_values(
    standard: StandardAccount,
    balance: i128,
    a: u64,
    b: u64,
    x: u128,
    y: u128,
    s: Seq<char>,
    t: Seq<char>,
    vout: u32,
    from: NodeRole,
    to: NodeRole,
)
    ensures
        error_text(ErrorModel::UnbalancedEntry { debits_sum: x, credits_sum: y })
            == "unbalanced entry: debits "@ + decimal(x as nat) + " != credits "@ + decimal(
            y as nat,
        ),
        error_text(ErrorModel::NegativeBalance { account: standard, balance })
            == "negative balance for "@ + account_name(standard) + ": "@ + decimal_int(
            balance as int,
        ),
        error_text(ErrorModel::SequenceGap { expected: a, got: b }) == "sequence gap: expected "@
            + decimal(a as nat) + ", got "@ + decimal(b as nat),
        error_text(ErrorModel::ReservedExceedsAvailable { reserved: a, available: b })
            == "reserved "@ + decimal(a as nat) + " exceeds available "@ + decimal(b as nat),
        error_text(ErrorModel::PendingOutgoingExceedsAvailable { outgoing: a, available: b })
            == "pending outgoing "@ + decimal(a as nat) + " exceeds internal available "@ + decimal(
            b as nat,
        ),
        error_text(ErrorModel::VersionConflict { account: s, expected: a, current: b })
            == "version conflict: account "@ + s + " expected version "@ + decimal(a as nat)
            + ", current "@ + decimal(b as nat),
        error_text(ErrorModel::InsufficientFunds { account: s, available: a, needed: b })
            == "insufficient funds: account "@ + s + " has "@ + decimal(a as nat) + ", needs "@
            + decimal(b as nat),
        error_text(ErrorModel::StateRootMismatch { expected: s, got: t })
            == "state root mismatch: expected "@ + s + ", got "@ + t,
        error_text(ErrorModel::PsbtMismatch { expected: s, got: t })
            == "PSBT hash mismatch: expected "@ + s + ", got "@ + t,
        error_text(ErrorModel::UtxoNotFound { txid: s, vout }) == "utxo not found: "@ + s + ":"@
            + decimal(vout as nat),
        error_text(ErrorModel::AuthorizationExpired { expires_at: a, now: b })
            == "authorization expired at "@ + decimal(a as nat) + ", current time "@ + decimal(
            b as nat,
        ),
        error_text(ErrorModel::InvalidRoleTransition { from, to })
            == "invalid role transition: from "@ + role_name(from) + " to "@ + role_name(to),
{
}

} // verus!
