//! Stores of certified snapshots.

use crate::ledger::certificate::{snapshot_checked, CertifiedSnapshot, SnapshotModel};
use crate::ledger::error::{outcome, ErrorModel, LedgerError};
use crate::ledger::state_machine::{LedgerModel, LedgerState};
use crate::ledger::state_root::{compute_state_root, state_root};
use std::collections::BTreeMap;
use vstd::prelude::*;

verus! {

/// Snapshots by sequence number.
pub type Snapshots = Map<u64, SnapshotModel>;

/// The models of stored snapshots.
pub open spec fn snapshot_map(m: Map<u64, CertifiedSnapshot>) -> Snapshots {
    Map::new(|k: u64| m.contains_key(k), |k: u64| m[k]@)
}

/// What is stored at a sequence number.
pub open spec fn snapshot_at(m: Snapshots, sequence: u64) -> Option<SnapshotModel> {
    if m.contains_key(sequence) {
        Some(m[sequence])
    } else {
        None
    }
}

/// A snapshot that was found, as a model.
pub open spec fn found(r: Result<Option<CertifiedSnapshot>, LedgerError>) -> Option<SnapshotModel> {
    match r {
        Ok(Some(s)) => Some(s@),
        _ => None,
    }
}

/// The state that a snapshot restores, given what its bytes decode to.
pub open spec fn restored_state(
    snapshot: SnapshotModel,
    decoded: Result<LedgerModel, Seq<char>>,
) -> Result<LedgerModel, ErrorModel> {
    match snapshot_checked(snapshot) {
        Err(e) => Err(e),
        Ok(_) => match decoded {
            Err(m) => Err(
                ErrorModel::InvalidSignature("failed to deserialize snapshot state: "@ + m),
            ),
            Ok(s) => if state_root(s) != snapshot.state_root {
                Err(
                    ErrorModel::StateRootMismatch {
                        expected: state_root(s),
                        got: snapshot.state_root,
                    },
                )
            } else {
                Ok(s)
            },
        },
    }
}

/// What a decoder gave, as a model.
pub open spec fn decoded_state(r: Result<LedgerState, String>) -> Result<LedgerModel, Seq<char>> {
    match r {
        Ok(s) => Ok(s@),
        Err(m) => Err(m@),
    }
}

/// A restored state, as a model.
pub open spec fn restore_outcome(r: Result<LedgerState, LedgerError>) -> Result<
    LedgerModel,
    ErrorModel,
> {
    match r {
        Ok(s) => Ok(s@),
        Err(e) => Err(e@),
    }
}

/// Restores the state of a snapshot: the snapshot passes its structural
/// check, its bytes decode, and the state has the certified root.
pub fn restore(snapshot: &CertifiedSnapshot, decoded: Result<LedgerState, String>) -> (r: Result<
    LedgerState,
    LedgerError,
>)
    ensures
        restore_outcome(r) == restored_state(snapshot@, decoded_state(decoded)),
{
    match snapshot.verify_basic() {
        Ok(_) => {},
        Err(e) => {
            return Err(e);
        },
    }
    match decoded {
        Err(m) => {
            let mut t = "failed to deserialize snapshot state: ".to_owned();
            t.append(m.as_str());
            Err(LedgerError::InvalidSignature(t))
        },
        Ok(state) => {
            let computed_root = compute_state_root(&state);
            if computed_root != snapshot.state_root {
                return Err(
                    LedgerError::StateRootMismatch {
                        expected: computed_root,
                        got: snapshot.state_root.clone(),
                    },
                );
            }
            Ok(state)
        },
    }
}

/// Stores certified snapshots, for state sync, recovery and new nodes.
pub trait SnapshotStore {
    /// The stored snapshots.
    spec fn snapshots(&self) -> Snapshots;

    /// The snapshot that counts as the most recent.
    spec fn most_recent(&self) -> Option<SnapshotModel>;

    /// Whether the store is consistent.
    spec fn valid(&self) -> bool;

    /// Stores a snapshot that passes its structural check.
    fn save_snapshot(&mut self, snapshot: &CertifiedSnapshot) -> (r: Result<(), LedgerError>)
        requires
            old(self).valid(),
        ensures
            final(self).valid(),
            outcome(r) == snapshot_checked(snapshot@),
            final(self).snapshots() == (if r is Ok {
                old(self).snapshots().insert(snapshot.sequence, snapshot@)
            } else {
                old(self).snapshots()
            }),
            r is Err ==> final(self).most_recent() == old(self).most_recent(),
    ;

    /// The most recent snapshot.
    fn latest_snapshot(&self) -> (r: Result<Option<CertifiedSnapshot>, LedgerError>)
        requires
            self.valid(),
        ensures
            r is Ok,
            found(r) == self.most_recent(),
    ;

    /// The snapshot at a sequence number.
    fn get_snapshot(&self, sequence: u64) -> (r: Result<Option<CertifiedSnapshot>, LedgerError>)
        requires
            self.valid(),
        ensures
            r is Ok,
            found(r) == snapshot_at(self.snapshots(), sequence),
    ;

    /// Installs a snapshot, whose bytes were decoded, and returns its state.
    fn install_snapshot(
        &self,
        snapshot: &CertifiedSnapshot,
        decoded: Result<LedgerState, String>,
    ) -> (r: Result<LedgerState, LedgerError>)
        ensures
            restore_outcome(r) == restored_state(snapshot@, decoded_state(decoded)),
    ;
}

/// Snapshots in memory, by sequence number.
pub struct InMemorySnapshotStore {
    by_sequence: BTreeMap<u64, CertifiedSnapshot>,
    latest_sequence: u64,
}

/// Whether a sequence number is the highest of those stored.
pub open spec fn is_highest(m: Snapshots, sequence: u64) -> bool {
    m.contains_key(sequence) && forall|k: u64| #[trigger] m.contains_key(k) ==> k <= sequence
}

impl InMemorySnapshotStore {
    /// An empty store.
    pub fn new() -> (r: Self)
        ensures
            r.valid(),
            r.snapshots() == Map::<u64, SnapshotModel>::empty(),
            r.most_recent() is None,
    {
        let r = InMemorySnapshotStore { by_sequence: BTreeMap::new(), latest_sequence: 0 };
        assert(r.snapshots() =~= Map::<u64, SnapshotModel>::empty());
        r
    }

    /// The most recent snapshot is the one with the highest sequence number.
    pub proof fn lemma_most_recent_is_highest(&self)
        requires
            self.valid(),
        ensures
            self.most_recent() is None <==> self.snapshots() == Map::<u64, SnapshotModel>::empty(),
            forall|k: u64|
                is_highest(self.snapshots(), k) ==> self.most_recent() == Some(
                    #[trigger] self.snapshots()[k],
                ),
    {
        if self.most_recent() is None {
            assert(self.snapshots() =~= Map::<u64, SnapshotModel>::empty());
        }
        assert forall|k: u64| is_highest(self.snapshots(), k) implies self.most_recent() == Some(
            #[trigger] self.snapshots()[k],
        ) by {
            assert(self.snapshots().contains_key(k));
        }
    }
}

impl Default for InMemorySnapshotStore {
    fn default() -> (r: Self)
        ensures
            r.valid(),
            r.snapshots() == Map::<u64, SnapshotModel>::empty(),
            r.most_recent() is None,
    {
        InMemorySnapshotStore::new()
    }
}

impl SnapshotStore for InMemorySnapshotStore {
    closed spec fn snapshots(&self) -> Snapshots {
        snapshot_map(self.by_sequence@)
    }

    closed spec fn most_recent(&self) -> Option<SnapshotModel> {
        snapshot_at(self.snapshots(), self.latest_sequence)
    }

    closed spec fn valid(&self) -> bool {
        let m = self.by_sequence@;
        &&& forall|k: u64| #[trigger] m.contains_key(k) ==> k <= self.latest_sequence
        &&& m.contains_key(self.latest_sequence) || (self.latest_sequence == 0 && m == Map::<
            u64,
            CertifiedSnapshot,
        >::empty())
    }

    fn save_snapshot(&mut self, snapshot: &CertifiedSnapshot) -> (r: Result<(), LedgerError>) {
        match snapshot.verify_basic() {
            Ok(_) => {},
            Err(e) => {
                return Err(e);
            },
        }
        let ghost before = self.by_sequence@;
        let copy = snapshot.clone();
        self.by_sequence.insert(snapshot.sequence, copy);
        if snapshot.sequence > self.latest_sequence {
            self.latest_sequence = snapshot.sequence;
        }
        proof {
            let m = self.by_sequence@;
            assert(m == before.insert(snapshot.sequence, copy));
            assert(snapshot_map(m) =~= snapshot_map(before).insert(snapshot.sequence, snapshot@));
            if before == Map::<u64, CertifiedSnapshot>::empty() {
                assert(m.contains_key(snapshot.sequence));
            }
        }
        Ok(())
    }

    fn latest_snapshot(&self) -> (r: Result<Option<CertifiedSnapshot>, LedgerError>) {
        match self.by_sequence.get(&self.latest_sequence) {
            Some(s) => Ok(Some(s.clone())),
            None => Ok(None),
        }
    }

    fn get_snapshot(&self, sequence: u64) -> (r: Result<Option<CertifiedSnapshot>, LedgerError>) {
        match self.by_sequence.get(&sequence) {
            Some(s) => Ok(Some(s.clone())),
            None => Ok(None),
        }
    }

    fn install_snapshot(
        &self,
        snapshot: &CertifiedSnapshot,
        decoded: Result<LedgerState, String>,
    ) -> (r: Result<LedgerState, LedgerError>) {
        restore(snapshot, decoded)
    }
}

/// A restored state has the root that was certified, so a tampered root or a
/// tampered state is never installed.
pub proof fn lemma_restored_state_has_the_certified_root(
    snapshot: SnapshotModel,
    decoded: Result<LedgerModel, Seq<char>>,
)
    ensures
        restored_state(snapshot, decoded) is Ok ==> state_root(
            restored_state(snapshot, decoded)->Ok_0,
        ) == snapshot.state_root && decoded == Ok::<LedgerModel, Seq<char>>(
            restored_state(snapshot, decoded)->Ok_0,
        ),
{
}

/// A snapshot is restored exactly when it passes, its state can be read and has
/// the root that it names; then that state comes back.
pub proof fn lemma_snapshots_restore_exactly(
    snapshot: SnapshotModel,
    decoded: Result<LedgerModel, Seq<char>>,
)
    ensures
        ({
            let r = restored_state(snapshot, decoded);
            &&& r is Ok <==> snapshot_checked(snapshot) is Ok && decoded is Ok && state_root(
                decoded->Ok_0,
            ) == snapshot.state_root
            &&& r is Ok ==> r->Ok_0 == decoded->Ok_0
            &&& snapshot_checked(snapshot) is Ok && decoded is Ok && state_root(decoded->Ok_0)
                != snapshot.state_root ==> r->Err_0 is StateRootMismatch
        }),
{
}

/// A snapshot is found exactly at the sequence number that it was stored under.
pub proof fn lemma_snapshots_are_found(m: Snapshots, sequence: u64, s: SnapshotModel)
    ensures
        snapshot_at(m, sequence) is Some <==> m.contains_key(sequence),
        snapshot_at(m.insert(sequence, s), sequence) == Some(s),
{
}

} // verus!
