//! Versioned balances of all accounts.

use crate::ledger::double_entry::AccountBalance;
use vstd::prelude::*;

verus! {

/// All account balances at a version.
#[derive(Debug, PartialEq, Eq)]
pub struct AccountBalanceState {
    /// Grows with every change.
    pub version: u64,
    /// All account balances at this version.
    pub balances: Vec<AccountBalance>,
}

} // verus!
