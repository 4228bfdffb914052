//! Commits.

use crate::cometbft_adapter::state::{store_hash, AppState, StateModel};
use vstd::prelude::*;

verus! {

/// Commits the state: its version grows by one, and its hash goes into the
/// next block header.
pub fn commit_state(state: &mut AppState) -> (r: [u8; 32])
    requires
        old(state).valid(),
        old(state)@.app_version < u64::MAX,
    ensures
        final(state).valid(),
        final(state)@ == (StateModel {
            app_version: (old(state)@.app_version + 1) as u64,
            ..old(state)@
        }),
        r@ == store_hash(old(state)@.store),
{
    state.increment_version();
    state.root_hash()
}

} // verus!
