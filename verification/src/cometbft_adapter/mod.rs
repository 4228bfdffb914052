//! The application behind the consensus engine: transactions on a versioned
//! key-value state.

pub mod error;
pub mod config;
pub mod state;
pub mod check_tx;
pub mod abci;
pub mod commit;
pub mod finalize_block;
