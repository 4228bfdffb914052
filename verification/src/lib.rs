//! Kerosene node: the verified core of the financial ledger, the CometBFT
//! application, peer discovery, node identity and the KFE bridge protocol.

pub mod codec;
pub mod cometbft_adapter;
pub mod digest;
pub mod discovery;
pub mod identity_core;
pub mod kfe_bridge;
pub mod ledger;
pub mod order;
pub mod table;
pub mod text;
