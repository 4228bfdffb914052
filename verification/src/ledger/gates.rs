//! Gates before critical operations.

use crate::ledger::metrics::LedgerMetrics;
use crate::ledger::reconciliation::{ReconciliationReport, ReconciliationStatus};
use crate::ledger::replication::{may_vote, sync_name, ReplicationStatus, SyncStatus};
use crate::ledger::state_machine::{MembershipModel, MembershipView};
use crate::text::{decimal, decimal_int, i128_text, texts, u64_text};
use vstd::prelude::*;

verus! {

/// What a gate decided.
#[derive(Debug, PartialEq, Eq)]
pub struct GateResult {
    /// Whether the operation is allowed.
    pub allowed: bool,
    /// Why not (empty if allowed).
    pub reasons: Vec<String>,
}

impl GateResult {
    /// The operation is allowed.
    pub fn allowed() -> (r: Self)
        ensures
            r.allowed,
            texts(r.reasons@) == Seq::<Seq<char>>::empty(),
    {
        let r = GateResult { allowed: true, reasons: Vec::new() };
        assert(texts(r.reasons@) =~= Seq::<Seq<char>>::empty());
        r
    }

    /// The operation is blocked for the given reasons.
    pub fn blocked(reasons: Vec<String>) -> (r: Self)
        ensures
            !r.allowed,
            r.reasons == reasons,
    {
        GateResult { allowed: false, reasons }
    }
}

/// What a gate decides on the reasons that it found: it lets through only
/// where there is none.
pub open spec fn decided(r: GateResult, reasons: Seq<Seq<char>>) -> bool {
    r.allowed == (reasons.len() == 0) && texts(r.reasons@) == reasons
}

/// Decides on the reasons that were found.
fn decide(reasons: Vec<String>) -> (r: GateResult)
    ensures
        decided(r, texts(reasons@)),
{
    assert(texts(reasons@).len() == reasons@.len());
    if reasons.len() == 0 {
        assert(texts(reasons@) =~= Seq::<Seq<char>>::empty());
        GateResult::allowed()
    } else {
        GateResult::blocked(reasons)
    }
}

/// How the cluster operates.
#[derive(Debug, Clone, Copy, PartialEq, Eq, Hash, Structural)]
pub enum DegradedMode {
    /// Everything is open.
    Normal,
    /// Some operations are blocked.
    Degraded {
        /// Whether withdrawals are blocked.
        withdrawals_blocked: bool,
        /// Whether membership changes are blocked.
        membership_changes_blocked: bool,
        /// Whether key rotation is blocked.
        key_rotation_blocked: bool,
        /// Whether internal transfers are still allowed.
        internal_transfers_allowed: bool,
        /// Whether credits are still allowed.
        credits_allowed: bool,
    },
    /// Only reads are allowed.
    ReadOnly,
}

/// Whether a mode allows withdrawals.
pub open spec fn mode_allows_withdrawals(m: DegradedMode) -> bool {
    match m {
        DegradedMode::Normal => true,
        DegradedMode::Degraded { withdrawals_blocked, .. } => !withdrawals_blocked,
        DegradedMode::ReadOnly => false,
    }
}

/// Whether a mode allows internal transfers.
pub open spec fn mode_allows_transfers(m: DegradedMode) -> bool {
    match m {
        DegradedMode::Normal => true,
        DegradedMode::Degraded { internal_transfers_allowed, .. } => internal_transfers_allowed,
        DegradedMode::ReadOnly => false,
    }
}

/// Whether a mode allows credits.
pub open spec fn mode_allows_credits(m: DegradedMode) -> bool {
    match m {
        DegradedMode::Normal => true,
        DegradedMode::Degraded { credits_allowed, .. } => credits_allowed,
        DegradedMode::ReadOnly => false,
    }
}

impl DegradedMode {
    /// Whether withdrawals are allowed.
    pub fn withdrawals_allowed(&self) -> (r: bool)
        ensures
            r == mode_allows_withdrawals(*self),
    {
        match self {
            DegradedMode::Normal => true,
            DegradedMode::Degraded { withdrawals_blocked, .. } => !*withdrawals_blocked,
            DegradedMode::ReadOnly => false,
        }
    }

    /// Whether internal transfers are allowed.
    pub fn internal_transfers_allowed(&self) -> (r: bool)
        ensures
            r == mode_allows_transfers(*self),
    {
        match self {
            DegradedMode::Normal => true,
            DegradedMode::Degraded { internal_transfers_allowed, .. } => {
                *internal_transfers_allowed
            },
            DegradedMode::ReadOnly => false,
        }
    }

    /// Whether credits are allowed.
    pub fn credits_allowed(&self) -> (r: bool)
        ensures
            r == mode_allows_credits(*self),
    {
        match self {
            DegradedMode::Normal => true,
            DegradedMode::Degraded { credits_allowed, .. } => *credits_allowed,
            DegradedMode::ReadOnly => false,
        }
    }
}

/// A reason that holds under a condition.
pub open spec fn reason_if(condition: bool, reason: Seq<char>) -> Seq<Seq<char>> {
    if condition {
        seq![reason]
    } else {
        Seq::empty()
    }
}

/// Adds a reason where its condition holds.
fn add_reason(reasons: &mut Vec<String>, condition: bool, reason: String)
    ensures
        texts(final(reasons)@) == texts(old(reasons)@) + reason_if(condition, reason@),
{
    let ghost before = texts(reasons@);
    if condition {
        reasons.push(reason);
        assert(texts(reasons@) =~= before + seq![reason@]);
    } else {
        assert(before =~= before + Seq::<Seq<char>>::empty());
    }
}

/// Why the health of a node is in the way.
pub open spec fn health_reason(s: SyncStatus, demand: Seq<char>) -> Seq<char> {
    "sync status is "@ + sync_name(s) + demand
}

/// Says why the health of a node is in the way.
fn health_text(s: SyncStatus, demand: &str) -> (r: String)
    ensures
        r@ == health_reason(s, demand@),
{
    let mut m = "sync status is ".to_owned();
    m.append(s.name());
    m.append(demand);
    m
}

/// Why the lag between applied and committed commands is in the way.
pub open spec fn lag_reason(s: ReplicationStatus) -> Seq<char> {
    "applied sequence "@ + decimal(s.applied_sequence as nat) + " != committed sequence "@
        + decimal(s.committed_sequence as nat)
}

/// Says why the lag between applied and committed commands is in the way.
fn lag_text(s: &ReplicationStatus) -> (r: String)
    ensures
        r@ == lag_reason(*s),
{
    let mut m = "applied sequence ".to_owned();
    m.append(u64_text(s.applied_sequence).as_str());
    m.append(" != committed sequence ");
    m.append(u64_text(s.committed_sequence).as_str());
    m
}

/// What speaks against withdrawals.
pub open spec fn against_withdrawals(
    m: LedgerMetrics,
    report: ReconciliationReport,
    s: ReplicationStatus,
) -> Seq<Seq<char>> {
    reason_if(
        s.sync_status != SyncStatus::Healthy,
        health_reason(s.sync_status, ", must be Healthy"@),
    ) + reason_if(
        m.sequence_lag > 0,
        "sequence lag is "@ + decimal(m.sequence_lag as nat) + ", must be 0"@,
    ) + reason_if(
        report.status == ReconciliationStatus::Deficit,
        "reconciliation deficit: "@ + decimal_int(report.difference_sats as int) + " sats"@,
    ) + reason_if(
        report.status == ReconciliationStatus::IncompleteChainData,
        "reconciliation data is incomplete"@,
    ) + reason_if(
        s.committed_sequence == 0 && s.applied_sequence == 0 && m.quorum_unavailable_total > 0,
        "quorum appears unavailable"@,
    )
}

/// What speaks against deposits.
pub open spec fn against_deposits(m: LedgerMetrics, s: ReplicationStatus) -> Seq<Seq<char>> {
    reason_if(
        s.sync_status == SyncStatus::Diverged || s.sync_status == SyncStatus::Quarantined,
        health_reason(s.sync_status, ", cannot accept deposits"@),
    ) + reason_if(
        m.sequence_lag > 100,
        "sequence lag "@ + decimal(m.sequence_lag as nat) + " exceeds threshold for deposits"@,
    )
}

/// What speaks against new nodes.
pub open spec fn against_nodes(s: ReplicationStatus, membership: MembershipModel) -> Seq<
    Seq<char>,
> {
    reason_if(
        s.sync_status != SyncStatus::Healthy,
        health_reason(s.sync_status, ", must be Healthy to add nodes"@),
    ) + reason_if(
        membership.nodes.len() >= 100,
        "membership size "@ + decimal(membership.nodes.len()) + " exceeds safety limit"@,
    )
}

/// What speaks against membership changes.
pub open spec fn against_membership(s: ReplicationStatus) -> Seq<Seq<char>> {
    reason_if(
        s.sync_status != SyncStatus::Healthy,
        health_reason(s.sync_status, ", must be Healthy to change membership"@),
    ) + reason_if(s.applied_sequence != s.committed_sequence, lag_reason(s))
}

/// What speaks against key rotation.
pub open spec fn against_rotation(s: ReplicationStatus) -> Seq<Seq<char>> {
    reason_if(
        s.sync_status != SyncStatus::Healthy,
        health_reason(s.sync_status, ", must be Healthy to rotate keys"@),
    ) + reason_if(s.applied_sequence != s.committed_sequence, lag_reason(s))
}

/// The mode that the gates add up to.
pub open spec fn mode_of(
    m: LedgerMetrics,
    report: ReconciliationReport,
    s: ReplicationStatus,
    membership: MembershipModel,
) -> DegradedMode {
    let withdrawals_blocked = against_withdrawals(m, report, s).len() > 0;
    let membership_changes_blocked = against_membership(s).len() > 0;
    let key_rotation_blocked = against_rotation(s).len() > 0;
    if withdrawals_blocked || against_deposits(m, s).len() > 0 || membership_changes_blocked
        || against_nodes(s, membership).len() > 0 {
        DegradedMode::Degraded {
            withdrawals_blocked,
            membership_changes_blocked,
            key_rotation_blocked,
            internal_transfers_allowed: true,
            credits_allowed: true,
        }
    } else {
        DegradedMode::Normal
    }
}

/// The last line of defence before critical operations. Every gate is closed
/// as soon as anything speaks against the operation.
pub struct ProductionGates;

impl ProductionGates {
    /// Whether withdrawals may be authorized: the node is healthy and not
    /// behind, the books show no deficit on complete data, and quorum does not
    /// appear unavailable.
    pub fn can_authorize_withdrawals(
        metrics: &LedgerMetrics,
        report: &ReconciliationReport,
        status: &ReplicationStatus,
    ) -> (r: GateResult)
        ensures
            decided(r, against_withdrawals(*metrics, *report, *status)),
    {
        let mut reasons: Vec<String> = Vec::new();
        assert(texts(reasons@) =~= Seq::<Seq<char>>::empty());
        add_reason(
            &mut reasons,
            status.sync_status != SyncStatus::Healthy,
            health_text(status.sync_status, ", must be Healthy"),
        );
        let mut lag = "sequence lag is ".to_owned();
        lag.append(u64_text(metrics.sequence_lag).as_str());
        lag.append(", must be 0");
        add_reason(&mut reasons, metrics.sequence_lag > 0, lag);
        let mut deficit = "reconciliation deficit: ".to_owned();
        deficit.append(i128_text(report.difference_sats).as_str());
        deficit.append(" sats");
        add_reason(&mut reasons, report.status == ReconciliationStatus::Deficit, deficit);
        add_reason(
            &mut reasons,
            report.status == ReconciliationStatus::IncompleteChainData,
            "reconciliation data is incomplete".to_owned(),
        );
        add_reason(
            &mut reasons,
            status.committed_sequence == 0 && status.applied_sequence == 0
                && metrics.quorum_unavailable_total > 0,
            "quorum appears unavailable".to_owned(),
        );
        assert(texts(reasons@) =~= against_withdrawals(*metrics, *report, *status));
        decide(reasons)
    }

    /// Whether deposits may be accepted: the node has not diverged, is not
    /// shut out, and is not far behind.
    pub fn can_accept_deposits(metrics: &LedgerMetrics, status: &ReplicationStatus) -> (r:
        GateResult)
        ensures
            decided(r, against_deposits(*metrics, *status)),
    {
        let mut reasons: Vec<String> = Vec::new();
        assert(texts(reasons@) =~= Seq::<Seq<char>>::empty());
        add_reason(
            &mut reasons,
            status.sync_status == SyncStatus::Diverged || status.sync_status
                == SyncStatus::Quarantined,
            health_text(status.sync_status, ", cannot accept deposits"),
        );
        let mut lag = "sequence lag ".to_owned();
        lag.append(u64_text(metrics.sequence_lag).as_str());
        lag.append(" exceeds threshold for deposits");
        add_reason(&mut reasons, metrics.sequence_lag > 100, lag);
        assert(texts(reasons@) =~= against_deposits(*metrics, *status));
        decide(reasons)
    }

    /// Whether nodes may join: the node is healthy and the membership is below
    /// its safety limit.
    pub fn can_add_nodes(
        _metrics: &LedgerMetrics,
        status: &ReplicationStatus,
        membership: &MembershipView,
    ) -> (r: GateResult)
        ensures
            decided(r, against_nodes(*status, membership@)),
    {
        let mut reasons: Vec<String> = Vec::new();
        assert(texts(reasons@) =~= Seq::<Seq<char>>::empty());
        add_reason(
            &mut reasons,
            status.sync_status != SyncStatus::Healthy,
            health_text(status.sync_status, ", must be Healthy to add nodes"),
        );
        let size: usize = membership.nodes.len();
        assert(membership@.nodes.len() == size);
        let mut full = "membership size ".to_owned();
        full.append(u64_text(size as u64).as_str());
        full.append(" exceeds safety limit");
        add_reason(&mut reasons, size >= 100, full);
        assert(texts(reasons@) =~= against_nodes(*status, membership@));
        decide(reasons)
    }

    /// Whether the membership may change: the node is healthy and has applied
    /// all that was committed.
    pub fn can_change_membership(status: &ReplicationStatus) -> (r: GateResult)
        ensures
            decided(r, against_membership(*status)),
    {
        let mut reasons: Vec<String> = Vec::new();
        assert(texts(reasons@) =~= Seq::<Seq<char>>::empty());
        add_reason(
            &mut reasons,
            status.sync_status != SyncStatus::Healthy,
            health_text(status.sync_status, ", must be Healthy to change membership"),
        );
        add_reason(
            &mut reasons,
            status.applied_sequence != status.committed_sequence,
            lag_text(status),
        );
        assert(texts(reasons@) =~= against_membership(*status));
        decide(reasons)
    }

    /// Whether keys may be rotated: the node is healthy and has applied all
    /// that was committed.
    pub fn can_rotate_keys(status: &ReplicationStatus) -> (r: GateResult)
        ensures
            decided(r, against_rotation(*status)),
    {
        let mut reasons: Vec<String> = Vec::new();
        assert(texts(reasons@) =~= Seq::<Seq<char>>::empty());
        add_reason(
            &mut reasons,
            status.sync_status != SyncStatus::Healthy,
            health_text(status.sync_status, ", must be Healthy to rotate keys"),
        );
        add_reason(
            &mut reasons,
            status.applied_sequence != status.committed_sequence,
            lag_text(status),
        );
        assert(texts(reasons@) =~= against_rotation(*status));
        decide(reasons)
    }

    /// The mode that all gates add up to.
    pub fn evaluate_degraded_mode(
        metrics: &LedgerMetrics,
        report: &ReconciliationReport,
        status: &ReplicationStatus,
        membership: &MembershipView,
    ) -> (r: DegradedMode)
        ensures
            r == mode_of(*metrics, *report, *status, membership@),
    {
        let withdrawals_gate = ProductionGates::can_authorize_withdrawals(metrics, report, status);
        let deposits_gate = ProductionGates::can_accept_deposits(metrics, status);
        let membership_gate = ProductionGates::can_change_membership(status);
        let key_rotation_gate = ProductionGates::can_rotate_keys(status);
        let add_nodes_gate = ProductionGates::can_add_nodes(metrics, status, membership);
        if !withdrawals_gate.allowed || !deposits_gate.allowed || !membership_gate.allowed
            || !add_nodes_gate.allowed {
            DegradedMode::Degraded {
                withdrawals_blocked: !withdrawals_gate.allowed,
                membership_changes_blocked: !membership_gate.allowed,
                key_rotation_blocked: !key_rotation_gate.allowed,
                internal_transfers_allowed: true,
                credits_allowed: true,
            }
        } else {
            DegradedMode::Normal
        }
    }
}

/// The gates are closed by default: withdrawals pass only on a healthy node
/// without lag and without a deficit on complete data.
pub proof fn lemma_withdrawals_fail_closed(
    m: LedgerMetrics,
    report: ReconciliationReport,
    s: ReplicationStatus,
)
    requires
        against_withdrawals(m, report, s).len() == 0,
    ensures
        s.sync_status == SyncStatus::Healthy,
        m.sequence_lag == 0,
        report.status != ReconciliationStatus::Deficit,
        report.status != ReconciliationStatus::IncompleteChainData,
{
}

/// Membership changes and key rotation are open exactly to nodes that may
/// vote.
pub proof fn lemma_only_voters_change_the_cluster(s: ReplicationStatus)
    ensures
        against_membership(s).len() == 0 <==> may_vote(s),
        against_rotation(s).len() == 0 <==> may_vote(s),
{
}

/// The mode agrees with the gates: it allows withdrawals exactly when their
/// gate is open, and it is normal only when nothing is blocked.
pub proof fn lemma_mode_follows_gates(
    m: LedgerMetrics,
    report: ReconciliationReport,
    s: ReplicationStatus,
    membership: MembershipModel,
)
    ensures
        mode_allows_withdrawals(mode_of(m, report, s, membership)) <==> against_withdrawals(
            m,
            report,
            s,
        ).len() == 0,
        mode_of(m, report, s, membership) == DegradedMode::Normal ==> against_withdrawals(
            m,
            report,
            s,
        ).len() == 0 && against_deposits(m, s).len() == 0 && against_membership(s).len() == 0
            && against_rotation(s).len() == 0 && against_nodes(s, membership).len() == 0,
{
}

/// Withdrawals may be authorized exactly when the node is healthy and has
/// nothing to catch up with, the books show neither a deficit nor a gap in the
/// chain data, and a quorum has been seen or was not missed.
pub proof fn lemma_withdrawals_open_exactly(
    m: LedgerMetrics,
    report: ReconciliationReport,
    s: ReplicationStatus,
)
    ensures
        against_withdrawals(m, report, s).len() == 0 <==> {
            &&& s.sync_status is Healthy
            &&& m.sequence_lag == 0
            &&& !(report.status is Deficit)
            &&& !(report.status is IncompleteChainData)
            &&& s.committed_sequence > 0 || s.applied_sequence > 0 || m.quorum_unavailable_total
                == 0
        },
{
}

/// The other gates open exactly so: deposits unless the node has diverged or is
/// shut out or lags by more than a hundred; new nodes while it is healthy and
/// the cluster has fewer than a hundred; a change of membership or of keys
/// while it is healthy and has applied all that was committed.
pub proof fn lemma_gates_open_exactly(
    m: LedgerMetrics,
    s: ReplicationStatus,
    membership: MembershipModel,
)
    ensures
        against_deposits(m, s).len() == 0 <==> !(s.sync_status is Diverged) && !(
        s.sync_status is Quarantined) && m.sequence_lag <= 100,
        against_nodes(s, membership).len() == 0 <==> s.sync_status is Healthy
            && membership.nodes.len() < 100,
        against_membership(s).len() == 0 <==> s.sync_status is Healthy && s.applied_sequence
            == s.committed_sequence,
        against_rotation(s).len() == 0 <==> s.sync_status is Healthy && s.applied_sequence
            == s.committed_sequence,
{
}

/// One reason is given for each condition that is not met.
pub proof fn lemma_each_condition_has_its_reason(
    m: LedgerMetrics,
    report: ReconciliationReport,
    s: ReplicationStatus,
)
    ensures
        against_withdrawals(m, report, s).len() == (if s.sync_status is Healthy {
            0int
        } else {
            1
        }) + (if m.sequence_lag == 0 {
            0int
        } else {
            1
        }) + (if report.status is Deficit || report.status is IncompleteChainData {
            1int
        } else {
            0
        }) + (if s.committed_sequence == 0 && s.applied_sequence == 0 && m.quorum_unavailable_total
            > 0 {
            1int
        } else {
            0
        }),
{
}

/// The mode in terms of the node itself: normal exactly when every gate is
/// open; otherwise it blocks what has its gate closed, and lets transfers and
/// credits through.
pub proof fn lemma_mode_is_exact(
    m: LedgerMetrics,
    report: ReconciliationReport,
    s: ReplicationStatus,
    membership: MembershipModel,
)
    ensures
        ({
            let mode = mode_of(m, report, s, membership);
            let settled = s.sync_status is Healthy && s.applied_sequence == s.committed_sequence;
            &&& mode is Normal <==> settled && m.sequence_lag == 0 && !(report.status is Deficit)
                && !(report.status is IncompleteChainData) && membership.nodes.len() < 100 && (
            s.committed_sequence > 0 || m.quorum_unavailable_total == 0)
            &&& !(mode is ReadOnly)
            &&& mode_allows_transfers(mode)
            &&& mode_allows_credits(mode)
            &&& mode matches DegradedMode::Degraded {
                membership_changes_blocked,
                key_rotation_blocked,
                ..
            } ==> membership_changes_blocked == !settled && key_rotation_blocked == !settled
        }),
{
}

/// What a mode allows: everything when normal, what it says when degraded, and
/// nothing when read-only.
pub proof fn lemma_modes_allow_what_they_say(
    withdrawals_blocked: bool,
    membership_changes_blocked: bool,
    key_rotation_blocked: bool,
    internal_transfers_allowed: bool,
    credits_allowed: bool,
)
    ensures
        ({
            let d = DegradedMode::Degraded {
                withdrawals_blocked,
                membership_changes_blocked,
                key_rotation_blocked,
                internal_transfers_allowed,
                credits_allowed,
            };
            &&& mode_allows_withdrawals(d) == !withdrawals_blocked
            &&& mode_allows_transfers(d) == internal_transfers_allowed
            &&& mode_allows_credits(d) == credits_allowed
        }),
        mode_allows_withdrawals(DegradedMode::Normal),
        mode_allows_transfers(DegradedMode::Normal),
        mode_allows_credits(DegradedMode::Normal),
        !mode_allows_withdrawals(DegradedMode::ReadOnly),
        !mode_allows_transfers(DegradedMode::ReadOnly),
        !mode_allows_credits(DegradedMode::ReadOnly),
{
}

/// Degraded mode blocks withdrawals exactly when their gate is closed.
pub proof fn lemma_degraded_mode_blocks_withdrawals(
    m: LedgerMetrics,
    report: ReconciliationReport,
    s: ReplicationStatus,
    membership: MembershipModel,
)
    ensures
        mode_allows_withdrawals(mode_of(m, report, s, membership)) <==> {
            &&& s.sync_status is Healthy
            &&& m.sequence_lag == 0
            &&& !(report.status is Deficit)
            &&& !(report.status is IncompleteChainData)
            &&& s.committed_sequence > 0 || s.applied_sequence > 0 || m.quorum_unavailable_total
                == 0
        },
{
}

/// A gate lets through exactly when it names no reason.
pub proof fn lemma_gates_name_their_reasons(r: GateResult, reasons: Seq<Seq<char>>)
    requires
        decided(r, reasons),
    ensures
        r.allowed <==> reasons.len() == 0,
        r.reasons@.len() == reasons.len(),
        forall|i: int| 0 <= i < reasons.len() ==> (#[trigger] r.reasons@[i])@ == reasons[i],
{
    assert(texts(r.reasons@).len() == reasons.len());
    assert forall|i: int| 0 <= i < reasons.len() implies (#[trigger] r.reasons@[i])@
        == reasons[i] by {
        assert(texts(r.reasons@)[i] == reasons[i]);
    }
}

/// The reasons tell what is in the way: the lag, the deficit, how far the node
/// has come and how far it should.
pub proof fn lemma_reasons_tell_the_values(
    m: LedgerMetrics,
    report: ReconciliationReport,
    s: ReplicationStatus,
)
    ensures
        m.sequence_lag > 0 ==> against_withdrawals(m, report, s).contains(
            "sequence lag is "@ + decimal(m.sequence_lag as nat) + ", must be 0"@,
        ),
        report.status is Deficit ==> against_withdrawals(m, report, s).contains(
            "reconciliation deficit: "@ + decimal_int(report.difference_sats as int) + " sats"@,
        ),
        !(s.sync_status is Healthy) ==> against_withdrawals(m, report, s)[0]
            == "sync status is "@ + sync_name(s.sync_status) + ", must be Healthy"@,
        s.applied_sequence != s.committed_sequence ==> against_membership(s).last()
            == "applied sequence "@ + decimal(s.applied_sequence as nat)
            + " != committed sequence "@ + decimal(s.committed_sequence as nat),
        against_rotation(s).len() == against_membership(s).len(),
{
    let all = against_withdrawals(m, report, s);
    let first = if s.sync_status is Healthy {
        0int
    } else {
        1
    };
    let lagging = if m.sequence_lag > 0 {
        1int
    } else {
        0
    };
    if m.sequence_lag > 0 {
        assert(all[first] == "sequence lag is "@ + decimal(m.sequence_lag as nat)
            + ", must be 0"@);
    }
    if report.status is Deficit {
        assert(all[first + lagging] == "reconciliation deficit: "@ + decimal_int(
            report.difference_sats as int,
        ) + " sats"@);
    }
}

} // verus!
