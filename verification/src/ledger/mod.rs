//! The financial ledger.

pub mod account;
pub mod account_state;
pub mod balance;
pub mod certificate;
pub mod chain;
pub mod command;
pub mod double_entry;
pub mod error;
pub mod gates;
pub mod idempotency;
pub mod in_memory;
pub mod invariants;
pub mod laws;
pub mod membership;
pub mod metrics;
pub mod nonce;
pub mod observer;
pub mod persistent;
pub mod reconciliation;
pub mod replication;
pub mod reservation;
pub mod settlement;
pub mod snapshot;
pub mod state_machine;
pub mod state_root;
pub mod wallet;
pub mod withdrawal;
