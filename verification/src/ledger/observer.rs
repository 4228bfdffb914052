//! Observation of the Bitcoin chain.

use crate::ledger::chain::Observation;
use crate::ledger::error::LedgerError;
use vstd::prelude::*;

verus! {

/// A component that watches the chain and reports what it sees.
///
/// It never writes to the ledger: its observations have to go through
/// consensus.
pub trait ChainObserverPort {
    /// Asks for new blocks and transactions.
    fn observe(&mut self) -> Result<Vec<Observation>, LedgerError>;
}

} // verus!
