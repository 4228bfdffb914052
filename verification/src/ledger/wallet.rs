//! The balances of a wallet as they are shown.

use vstd::prelude::*;

verus! {

/// A snapshot of everything a wallet holds.
#[derive(Debug, PartialEq, Eq)]
pub struct BalanceView {
    /// Available balance in the ledger.
    pub internal_available_sats: u64,
    /// Reserved balance in the ledger.
    pub internal_reserved_sats: u64,
    /// Confirmed balance on the chain.
    pub onchain_confirmed_sats: u64,
    /// Unconfirmed balance on the chain.
    pub onchain_unconfirmed_sats: u64,
    /// Reserved balance on the chain.
    pub onchain_reserved_sats: u64,
    /// Incoming transfers not yet settled.
    pub pending_incoming_sats: u64,
    /// Outgoing transfers not yet settled.
    pub pending_outgoing_sats: u64,
    /// Balance under the control of others.
    pub externally_controlled_sats: u64,
    /// Balance that the platform can spend.
    pub spendable_by_kerosene_sats: u64,
    /// Version of the state that the snapshot was taken from.
    pub state_version: u64,
    /// Root of the state that the snapshot was taken from.
    pub state_root: String,
}

} // verus!
