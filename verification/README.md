# kerosene_node

The verified core of a Kerosene node: a versioned, double-entry Bitcoin ledger
with deterministic state roots, the rules by which a CometBFT application
accepts and executes transactions on it, and the checks by which nodes
authenticate each other.

- `src/ledger` holds accounts, reservations, outputs, settlement, membership,
  snapshots and the state machine that applies commands. `laws.rs` states what
  holds of every transition.
- `src/cometbft_adapter` holds transaction checks, block execution, commits and
  the application state.
- `src/discovery.rs`, `src/identity_core.rs` and `src/kfe_bridge.rs` hold peer
  authentication, node identity and the exchange with the external engine.
- `src/codec.rs`, `src/digest.rs`, `src/order.rs`, `src/table.rs` and
  `src/text.rs` are what the others rest on: canonical bytes, hashes and
  signatures, sorting, keyed tables and text.

Contracts are stated over models: each type has a view with texts as sequences
of characters and collections as sequences. Hash and signature functions are
called through small wrappers whose results have names in the contracts.

`app/` is the ordinary Rust around it: sockets, files, the database and the
wire formats.
