//! Operational metrics, without account, address or amount labels.

use crate::ledger::error::LedgerError;
use crate::table::Table;
use vstd::prelude::*;

verus! {

/// A snapshot of all metrics.
#[derive(Debug, PartialEq, Eq)]
pub struct LedgerMetrics {
    /// Highest sequence number committed by the cluster.
    pub committed_sequence: u64,
    /// Highest sequence number applied by this node.
    pub applied_sequence: u64,
    /// Lag between committed and applied sequences.
    pub sequence_lag: u64,
    /// State root mismatches observed.
    pub state_root_mismatch_total: u64,
    /// Version conflicts.
    pub version_conflict_total: u64,
    /// Commands answered from their record.
    pub idempotency_replay_total: u64,
    /// Rejections for insufficient funds.
    pub insufficient_funds_total: u64,
    /// Reservation conflicts.
    pub reservation_conflict_total: u64,
    /// Times quorum was unavailable.
    pub quorum_unavailable_total: u64,
    /// Snapshot installations.
    pub snapshot_install_total: u64,
    /// Divergence recovery attempts.
    pub divergence_recovery_total: u64,
    /// Current sync status of this node.
    pub node_sync_status: String,
    /// Accounts in the ledger.
    pub total_accounts: u64,
    /// Outputs tracked.
    pub total_utxos: u64,
    /// Active reservations.
    pub total_reservations: u64,
    /// Pending withdrawals.
    pub total_withdrawals_pending: u64,
}

/// A metrics snapshot with its text as a sequence of characters.
pub struct MetricsModel {
    pub committed_sequence: u64,
    pub applied_sequence: u64,
    pub sequence_lag: u64,
    pub state_root_mismatch_total: u64,
    pub version_conflict_total: u64,
    pub idempotency_replay_total: u64,
    pub insufficient_funds_total: u64,
    pub reservation_conflict_total: u64,
    pub quorum_unavailable_total: u64,
    pub snapshot_install_total: u64,
    pub divergence_recovery_total: u64,
    pub node_sync_status: Seq<char>,
    pub total_accounts: u64,
    pub total_utxos: u64,
    pub total_reservations: u64,
    pub total_withdrawals_pending: u64,
}

impl View for LedgerMetrics {
    type V = MetricsModel;

    open spec fn view(&self) -> MetricsModel {
        MetricsModel {
            committed_sequence: self.committed_sequence,
            applied_sequence: self.applied_sequence,
            sequence_lag: self.sequence_lag,
            state_root_mismatch_total: self.state_root_mismatch_total,
            version_conflict_total: self.version_conflict_total,
            idempotency_replay_total: self.idempotency_replay_total,
            insufficient_funds_total: self.insufficient_funds_total,
            reservation_conflict_total: self.reservation_conflict_total,
            quorum_unavailable_total: self.quorum_unavailable_total,
            snapshot_install_total: self.snapshot_install_total,
            divergence_recovery_total: self.divergence_recovery_total,
            node_sync_status: self.node_sync_status@,
            total_accounts: self.total_accounts,
            total_utxos: self.total_utxos,
            total_reservations: self.total_reservations,
            total_withdrawals_pending: self.total_withdrawals_pending,
        }
    }
}

/// What a collector has gathered.
pub struct Gathered {
    pub counters: Map<Seq<char>, u64>,
    pub gauges: Map<Seq<char>, u64>,
    pub committed_sequence: u64,
    pub applied_sequence: u64,
    pub node_sync_status: Seq<char>,
    pub total_accounts: u64,
    pub total_utxos: u64,
    pub total_reservations: u64,
    pub total_withdrawals_pending: u64,
}

/// The value of a counter; zero if it was never counted.
pub open spec fn counter(m: Map<Seq<char>, u64>, name: Seq<char>) -> u64 {
    if m.contains_key(name) {
        m[name]
    } else {
        0
    }
}

/// A sum that stays at the maximum instead of overflowing.
pub open spec fn saturated(a: int) -> u64 {
    if a > u64::MAX {
        u64::MAX
    } else {
        a as u64
    }
}

/// The distance by which one number lies behind another; zero if it does not.
pub open spec fn lag(ahead: u64, behind: u64) -> u64 {
    if ahead > behind {
        (ahead - behind) as u64
    } else {
        0
    }
}

/// The snapshot of what was gathered.
pub open spec fn metrics_of(g: Gathered) -> MetricsModel {
    MetricsModel {
        committed_sequence: g.committed_sequence,
        applied_sequence: g.applied_sequence,
        sequence_lag: lag(g.committed_sequence, g.applied_sequence),
        state_root_mismatch_total: counter(g.counters, "state_root_mismatch"@),
        version_conflict_total: counter(g.counters, "version_conflict"@),
        idempotency_replay_total: counter(g.counters, "idempotency_replay"@),
        insufficient_funds_total: counter(g.counters, "insufficient_funds"@),
        reservation_conflict_total: counter(g.counters, "reservation_conflict"@),
        quorum_unavailable_total: counter(g.counters, "quorum_unavailable"@),
        snapshot_install_total: counter(g.counters, "snapshot_install"@),
        divergence_recovery_total: counter(g.counters, "divergence_recovery"@),
        node_sync_status: g.node_sync_status,
        total_accounts: g.total_accounts,
        total_utxos: g.total_utxos,
        total_reservations: g.total_reservations,
        total_withdrawals_pending: g.total_withdrawals_pending,
    }
}

/// Nothing gathered.
pub open spec fn nothing_gathered() -> Gathered {
    Gathered {
        counters: Map::empty(),
        gauges: Map::empty(),
        committed_sequence: 0,
        applied_sequence: 0,
        node_sync_status: Seq::empty(),
        total_accounts: 0,
        total_utxos: 0,
        total_reservations: 0,
        total_withdrawals_pending: 0,
    }
}

impl LedgerMetrics {
    /// All metrics at zero.
    pub fn new() -> (r: Self)
        ensures
            r@ == metrics_of(nothing_gathered()),
    {
        LedgerMetrics {
            committed_sequence: 0,
            applied_sequence: 0,
            sequence_lag: 0,
            state_root_mismatch_total: 0,
            version_conflict_total: 0,
            idempotency_replay_total: 0,
            insufficient_funds_total: 0,
            reservation_conflict_total: 0,
            quorum_unavailable_total: 0,
            snapshot_install_total: 0,
            divergence_recovery_total: 0,
            node_sync_status: String::new(),
            total_accounts: 0,
            total_utxos: 0,
            total_reservations: 0,
            total_withdrawals_pending: 0,
        }
    }
}

impl Default for LedgerMetrics {
    fn default() -> (r: Self)
        ensures
            r@ == metrics_of(nothing_gathered()),
    {
        LedgerMetrics::new()
    }
}

/// Collects metrics.
pub trait MetricsCollector {
    /// What has been gathered.
    spec fn gathered(&self) -> Gathered;

    /// Whether the collector is consistent.
    spec fn valid(&self) -> bool;

    /// Takes a snapshot of all metrics.
    fn snapshot(&self) -> (r: Result<LedgerMetrics, LedgerError>)
        requires
            self.valid(),
        ensures
            r is Ok,
            r->Ok_0@ == metrics_of(self.gathered()),
    ;

    /// Adds to a counter, which stays at the maximum once it gets there.
    fn increment_counter(&mut self, name: &str, value: u64)
        requires
            old(self).valid(),
        ensures
            final(self).valid(),
            final(self).gathered() == (Gathered {
                counters: old(self).gathered().counters.insert(
                    name@,
                    saturated(counter(old(self).gathered().counters, name@) + value),
                ),
                ..old(self).gathered()
            }),
    ;

    /// Sets a gauge.
    fn set_gauge(&mut self, name: &str, value: u64)
        requires
            old(self).valid(),
        ensures
            final(self).valid(),
            final(self).gathered() == (Gathered {
                gauges: old(self).gathered().gauges.insert(name@, value),
                ..old(self).gathered()
            }),
    ;
}

/// A collector in memory.
pub struct BasicMetricsCollector {
    counters: Table<u64>,
    gauges: Table<u64>,
    committed_sequence: u64,
    applied_sequence: u64,
    node_sync_status: String,
    total_accounts: u64,
    total_utxos: u64,
    total_reservations: u64,
    total_withdrawals_pending: u64,
}

impl BasicMetricsCollector {
    /// A collector that has gathered nothing.
    pub fn new() -> (r: Self)
        ensures
            r.valid(),
            r.gathered() == nothing_gathered(),
    {
        BasicMetricsCollector {
            counters: Table::new(),
            gauges: Table::new(),
            committed_sequence: 0,
            applied_sequence: 0,
            node_sync_status: String::new(),
            total_accounts: 0,
            total_utxos: 0,
            total_reservations: 0,
            total_withdrawals_pending: 0,
        }
    }

    /// The value of a counter.
    fn count(&self, name: &str) -> (r: u64)
        requires
            self.valid(),
        ensures
            r == counter(self.gathered().counters, name@),
    {
        match self.counters.get(name) {
            Some(v) => *v,
            None => 0,
        }
    }

    /// The value of a gauge, if it was set.
    pub fn gauge(&self, name: &str) -> (r: Option<u64>)
        requires
            self.valid(),
        ensures
            r == (if self.gathered().gauges.contains_key(name@) {
                Some(self.gathered().gauges[name@])
            } else {
                None
            }),
    {
        match self.gauges.get(name) {
            Some(v) => Some(*v),
            None => None,
        }
    }

    /// Sets the committed sequence number.
    pub fn set_committed_sequence(&mut self, seq: u64)
        requires
            old(self).valid(),
        ensures
            final(self).valid(),
            final(self).gathered() == (Gathered { committed_sequence: seq, ..old(self).gathered() }),
    {
        self.committed_sequence = seq;
    }

    /// Sets the applied sequence number.
    pub fn set_applied_sequence(&mut self, seq: u64)
        requires
            old(self).valid(),
        ensures
            final(self).valid(),
            final(self).gathered() == (Gathered { applied_sequence: seq, ..old(self).gathered() }),
    {
        self.applied_sequence = seq;
    }

    /// Sets the sync status of the node.
    pub fn set_node_sync_status(&mut self, status: &str)
        requires
            old(self).valid(),
        ensures
            final(self).valid(),
            final(self).gathered() == (Gathered {
                node_sync_status: status@,
                ..old(self).gathered()
            }),
    {
        self.node_sync_status = status.to_owned();
    }

    /// Sets the number of accounts.
    pub fn set_total_accounts(&mut self, count: u64)
        requires
            old(self).valid(),
        ensures
            final(self).valid(),
            final(self).gathered() == (Gathered { total_accounts: count, ..old(self).gathered() }),
    {
        self.total_accounts = count;
    }

    /// Sets the number of outputs.
    pub fn set_total_utxos(&mut self, count: u64)
        requires
            old(self).valid(),
        ensures
            final(self).valid(),
            final(self).gathered() == (Gathered { total_utxos: count, ..old(self).gathered() }),
    {
        self.total_utxos = count;
    }

    /// Sets the number of reservations.
    pub fn set_total_reservations(&mut self, count: u64)
        requires
            old(self).valid(),
        ensures
            final(self).valid(),
            final(self).gathered() == (Gathered {
                total_reservations: count,
                ..old(self).gathered()
            }),
    {
        self.total_reservations = count;
    }

    /// Sets the number of pending withdrawals.
    pub fn set_total_withdrawals_pending(&mut self, count: u64)
        requires
            old(self).valid(),
        ensures
            final(self).valid(),
            final(self).gathered() == (Gathered {
                total_withdrawals_pending: count,
                ..old(self).gathered()
            }),
    {
        self.total_withdrawals_pending = count;
    }
}

impl Default for BasicMetricsCollector {
    fn default() -> (r: Self)
        ensures
            r.valid(),
            r.gathered() == nothing_gathered(),
    {
        BasicMetricsCollector::new()
    }
}

impl MetricsCollector for BasicMetricsCollector {
    closed spec fn gathered(&self) -> Gathered {
        Gathered {
            counters: self.counters@,
            gauges: self.gauges@,
            committed_sequence: self.committed_sequence,
            applied_sequence: self.applied_sequence,
            node_sync_status: self.node_sync_status@,
            total_accounts: self.total_accounts,
            total_utxos: self.total_utxos,
            total_reservations: self.total_reservations,
            total_withdrawals_pending: self.total_withdrawals_pending,
        }
    }

    closed spec fn valid(&self) -> bool {
        self.counters.wf() && self.gauges.wf()
    }

    fn snapshot(&self) -> (r: Result<LedgerMetrics, LedgerError>) {
        Ok(
            LedgerMetrics {
                committed_sequence: self.committed_sequence,
                applied_sequence: self.applied_sequence,
                sequence_lag: self.committed_sequence.saturating_sub(self.applied_sequence),
                state_root_mismatch_total: self.count("state_root_mismatch"),
                version_conflict_total: self.count("version_conflict"),
                idempotency_replay_total: self.count("idempotency_replay"),
                insufficient_funds_total: self.count("insufficient_funds"),
                reservation_conflict_total: self.count("reservation_conflict"),
                quorum_unavailable_total: self.count("quorum_unavailable"),
                snapshot_install_total: self.count("snapshot_install"),
                divergence_recovery_total: self.count("divergence_recovery"),
                node_sync_status: self.node_sync_status.clone(),
                total_accounts: self.total_accounts,
                total_utxos: self.total_utxos,
                total_reservations: self.total_reservations,
                total_withdrawals_pending: self.total_withdrawals_pending,
            },
        )
    }

    fn increment_counter(&mut self, name: &str, value: u64) {
        let sum: u64 = self.count(name).saturating_add(value);
        self.counters.insert(name.to_owned(), sum);
    }

    fn set_gauge(&mut self, name: &str, value: u64) {
        self.gauges.insert(name.to_owned(), value);
    }
}

/// A counter that was counted is what the snapshot tells under its name, and
/// nothing else moves with it.
pub proof fn lemma_snapshots_tell_the_counters(g: Gathered, n: u64)
    ensures
        ({
            let told = |name: Seq<char>|
                metrics_of(Gathered { counters: g.counters.insert(name, n), ..g });
            &&& told("state_root_mismatch"@).state_root_mismatch_total == n
            &&& told("version_conflict"@).version_conflict_total == n
            &&& told("idempotency_replay"@).idempotency_replay_total == n
            &&& told("insufficient_funds"@).insufficient_funds_total == n
            &&& told("reservation_conflict"@).reservation_conflict_total == n
            &&& told("quorum_unavailable"@).quorum_unavailable_total == n
            &&& told("snapshot_install"@).snapshot_install_total == n
            &&& told("divergence_recovery"@).divergence_recovery_total == n
        }),
        g.counters == Map::<Seq<char>, u64>::empty() ==> {
            let t = metrics_of(g);
            &&& t.state_root_mismatch_total == 0 && t.version_conflict_total == 0
            &&& t.idempotency_replay_total == 0 && t.insufficient_funds_total == 0
            &&& t.reservation_conflict_total == 0 && t.quorum_unavailable_total == 0
            &&& t.snapshot_install_total == 0 && t.divergence_recovery_total == 0
        },
{
}

/// The snapshot tells what was set, and the lag is how far the applied sequence
/// is behind the committed one.
pub proof fn lemma_snapshots_tell_the_gauges(g: Gathered)
    ensures
        ({
            let t = metrics_of(g);
            &&& t.committed_sequence == g.committed_sequence
            &&& t.applied_sequence == g.applied_sequence
            &&& g.committed_sequence >= g.applied_sequence ==> t.applied_sequence + t.sequence_lag
                == t.committed_sequence
            &&& g.committed_sequence < g.applied_sequence ==> t.sequence_lag == 0
            &&& t.node_sync_status == g.node_sync_status
            &&& t.total_accounts == g.total_accounts && t.total_utxos == g.total_utxos
            &&& t.total_reservations == g.total_reservations
            &&& t.total_withdrawals_pending == g.total_withdrawals_pending
        }),
{
}

/// A counter adds up until it is full, and then stays full.
pub proof fn lemma_counters_add_up(a: u64, b: u64)
    ensures
        a + b <= u64::MAX ==> saturated(a + b) == a + b,
        a + b > u64::MAX ==> saturated(a + b) == u64::MAX,
{
}

/// Before anything is counted every metric is zero.
pub proof fn lemma_metrics_start_at_zero(name: Seq<char>)
    ensures
        ({
            let g = nothing_gathered();
            let t = metrics_of(g);
            &&& counter(g.counters, name) == 0
            &&& !g.gauges.contains_key(name)
            &&& t.committed_sequence == 0 && t.applied_sequence == 0 && t.sequence_lag == 0
            &&& t.total_accounts == 0 && t.total_utxos == 0 && t.total_reservations == 0
            &&& t.total_withdrawals_pending == 0
            &&& t.node_sync_status.len() == 0
        }),
{
}

} // verus!
