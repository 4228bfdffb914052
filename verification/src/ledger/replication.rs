//! Replication: how a node follows the cluster.

use crate::ledger::account_state::{credit, debit, new_account, release, reserve, AccountModel};
use crate::ledger::certificate::CertifiedSnapshot;
use crate::ledger::error::{outcome, ErrorModel, LedgerError};
use crate::ledger::state_machine::{account_effect, account_or_new, account_set, amount_of,
    counters_fit, credit_amount, lemma_account_pos, lemma_other_commands_keep_accounts, transfer_effect, transition, with_account,
    CommandModel, DecodedPayload, DeterministicStateMachine, LedgerCommand, LedgerCommandType, LedgerModel,
    LedgerState, PayloadModel, StateMachine};
use crate::text::split_once;
use vstd::prelude::*;

verus! {

/// Most commands that are replayed before a snapshot is installed instead.
pub const MAX_REPLAY_COMMANDS: u64 = 10000;

/// How many committed commands lie between two checks for divergence.
pub const DIVERGENCE_CHECK_INTERVAL: u64 = 100;

/// The health of a node relative to the cluster.
#[derive(Debug, Clone, Copy, PartialEq, Eq, Hash, Structural)]
pub enum SyncStatus {
    /// Fully caught up and participating.
    Healthy,
    /// Replaying commands to catch up.
    CatchingUp,
    /// The gap is too large to replay.
    SnapshotRequired,
    /// The state root differs from that of the cluster.
    Diverged,
    /// Shut out after persistent divergence.
    Quarantined,
}

/// The name of a status.
pub open spec fn sync_name(s: SyncStatus) -> Seq<char> {
    match s {
        SyncStatus::Healthy => "Healthy"@,
        SyncStatus::CatchingUp => "CatchingUp"@,
        SyncStatus::SnapshotRequired => "SnapshotRequired"@,
        SyncStatus::Diverged => "Diverged"@,
        SyncStatus::Quarantined => "Quarantined"@,
    }
}

impl SyncStatus {
    /// The name of this status.
    pub fn name(&self) -> (r: &'static str)
        ensures
            r@ == sync_name(*self),
    {
        match self {
            SyncStatus::Healthy => "Healthy",
            SyncStatus::CatchingUp => "CatchingUp",
            SyncStatus::SnapshotRequired => "SnapshotRequired",
            SyncStatus::Diverged => "Diverged",
            SyncStatus::Quarantined => "Quarantined",
        }
    }
}

/// How far a node has come.
#[derive(Debug, PartialEq, Eq)]
pub struct ReplicationStatus {
    /// Epoch in which the node operates.
    pub epoch: u64,
    /// Highest sequence committed by the cluster.
    pub committed_sequence: u64,
    /// Highest sequence applied by this node.
    pub applied_sequence: u64,
    /// Root of the applied state.
    pub state_root: String,
    /// Current leader view.
    pub leader_view: u64,
    /// Health of this node.
    pub sync_status: SyncStatus,
}

impl Clone for ReplicationStatus {
    fn clone(&self) -> (r: Self)
        ensures
            r == *self,
    {
        ReplicationStatus {
            epoch: self.epoch,
            committed_sequence: self.committed_sequence,
            applied_sequence: self.applied_sequence,
            state_root: self.state_root.clone(),
            leader_view: self.leader_view,
            sync_status: self.sync_status,
        }
    }
}

/// What comparing two nodes gives.
#[derive(Debug, PartialEq, Eq)]
#[allow(inconsistent_fields)]
pub enum DivergenceResult {
    /// In sync with the peer.
    InSync,
    /// Ahead of the peer.
    Ahead { local_sequence: u64, peer_sequence: u64 },
    /// Behind the peer.
    Behind { local_sequence: u64, peer_sequence: u64 },
    /// The state roots differ.
    StateRootMismatch { local_root: String, peer_root: String },
}

/// A comparison of local and peer state at a checkpoint.
#[derive(Debug, PartialEq, Eq)]
pub struct DivergenceReport {
    /// Sequence number of the checkpoint.
    pub checkpoint_sequence: u64,
    /// Local state root at this checkpoint.
    pub local_state_root: String,
    /// Peer state root, if the peer has the checkpoint.
    pub peer_state_root: Option<String>,
    /// Local hash of the ledger totals.
    pub local_ledger_totals_hash: String,
    /// Peer hash of the ledger totals.
    pub peer_ledger_totals_hash: Option<String>,
    /// Whether the local node has diverged from the peer.
    pub is_diverged: bool,
}

/// How a node catches up.
#[derive(Debug, Clone, Copy, PartialEq, Eq, Hash, Structural)]
pub enum CatchUpStrategy {
    /// Replay commands one by one.
    ReplayCommands,
    /// Install a certified snapshot and replay the remaining commands.
    InstallSnapshot,
}

/// A plan for a node to catch up.
#[derive(Debug, Clone, Copy, PartialEq, Eq, Structural)]
pub struct CatchUpPlan {
    /// Where the node is.
    pub from_sequence: u64,
    /// Where it needs to be.
    pub to_sequence: u64,
    /// How many commands are missing.
    pub missing_count: u64,
    /// How to catch up.
    pub strategy: CatchUpStrategy,
}

/// How many commands lie between two sequence numbers.
pub open spec fn gap(from: u64, to: u64) -> nat {
    if to > from {
        (to - from) as nat
    } else {
        0
    }
}

/// Whether so many missing commands call for a snapshot.
pub open spec fn gap_needs_snapshot(missing: nat) -> bool {
    missing > MAX_REPLAY_COMMANDS
}

impl CatchUpPlan {
    /// The plan for a gap: commands are replayed up to `MAX_REPLAY_COMMANDS`,
    /// and a snapshot is installed beyond that.
    pub fn new(from_sequence: u64, to_sequence: u64) -> (r: Self)
        ensures
            r.from_sequence == from_sequence,
            r.to_sequence == to_sequence,
            r.missing_count == gap(from_sequence, to_sequence),
            r.strategy == (if gap_needs_snapshot(gap(from_sequence, to_sequence)) {
                CatchUpStrategy::InstallSnapshot
            } else {
                CatchUpStrategy::ReplayCommands
            }),
    {
        let missing_count: u64 = if to_sequence > from_sequence {
            to_sequence - from_sequence
        } else {
            0
        };
        let strategy = if missing_count > MAX_REPLAY_COMMANDS {
            CatchUpStrategy::InstallSnapshot
        } else {
            CatchUpStrategy::ReplayCommands
        };
        CatchUpPlan { from_sequence, to_sequence, missing_count, strategy }
    }
}

/// Keeps a node in step with the cluster. What comes back depends on the
/// network, so nothing is promised of it.
pub trait SyncManager {
    /// The replication status of this node.
    fn status(&self) -> (r: Result<ReplicationStatus, LedgerError>);

    /// Compares this node with a peer.
    fn check_divergence(&self, peer: &ReplicationStatus) -> (r: Result<
        DivergenceResult,
        LedgerError,
    >);

    /// Begins to catch up to a sequence number.
    fn start_catch_up(&mut self, target_sequence: u64) -> (r: Result<(), LedgerError>);

    /// Requests a certified snapshot from a peer.
    fn request_snapshot(&mut self, sequence: u64) -> (r: Result<CertifiedSnapshot, LedgerError>);

    /// Shuts this node out, for a reason.
    fn mark_quarantined(&mut self, reason: &str) -> (r: Result<(), LedgerError>);

    /// Tries to recover from a divergence.
    fn recover_from_divergence(&mut self) -> (r: Result<(), LedgerError>);
}

/// Whether a node may vote by its replication status.
pub open spec fn may_vote(s: ReplicationStatus) -> bool {
    s.sync_status == SyncStatus::Healthy && s.applied_sequence == s.committed_sequence
}

/// Whether a node may vote: it is healthy and has applied all that was
/// committed.
pub fn can_vote(status: &ReplicationStatus) -> (r: bool)
    ensures
        r == may_vote(*status),
{
    status.sync_status == SyncStatus::Healthy && status.applied_sequence
        == status.committed_sequence
}

/// A command to replay, with its payload decoded.
#[derive(Debug)]
pub struct ReplayStep {
    /// Sequence number under which the command was committed.
    pub sequence: u64,
    pub command: LedgerCommand,
    pub payload: DecodedPayload,
}

/// A step with its texts as sequences of characters.
pub struct StepModel {
    pub sequence: u64,
    pub command: CommandModel,
    pub payload: PayloadModel,
}

impl View for ReplayStep {
    type V = StepModel;

    open spec fn view(&self) -> StepModel {
        StepModel { sequence: self.sequence, command: self.command@, payload: self.payload@ }
    }
}

/// What a sequence of steps stands for.
pub open spec fn step_models(s: Seq<ReplayStep>) -> Seq<StepModel> {
    Seq::new(s.len(), |i: int| s[i]@)
}

/// Whether a step comes after a sequence number; every step does where there
/// is none.
pub open spec fn comes_after(step: StepModel, after: Option<u64>) -> bool {
    match after {
        Some(sequence) => step.sequence > sequence,
        None => true,
    }
}

/// Replaying the commands after a sequence number, in order: the state
/// afterwards, and the first error, at which the replay stops.
pub open spec fn replay<M: DeterministicStateMachine>(
    machine: M,
    s: LedgerModel,
    steps: Seq<StepModel>,
    after: Option<u64>,
) -> (LedgerModel, Result<(), ErrorModel>)
    decreases steps.len(),
{
    if steps.len() == 0 {
        (s, Ok(()))
    } else if !comes_after(steps[0], after) {
        replay(machine, s, steps.drop_first(), after)
    } else {
        let (t, r) = machine.next(s, steps[0].command, steps[0].payload);
        match r {
            Err(e) => (t, Err(e)),
            Ok(_) => replay(machine, t, steps.drop_first(), after),
        }
    }
}

/// Whether the machine is defined on every command of a replay.
pub open spec fn replay_defined<M: DeterministicStateMachine>(
    machine: M,
    s: LedgerModel,
    steps: Seq<StepModel>,
    after: Option<u64>,
) -> bool
    decreases steps.len(),
{
    if steps.len() == 0 {
        true
    } else if !comes_after(steps[0], after) {
        replay_defined(machine, s, steps.drop_first(), after)
    } else {
        let (t, r) = machine.next(s, steps[0].command, steps[0].payload);
        &&& machine.defined(s, steps[0].command, steps[0].payload)
        &&& r is Ok ==> replay_defined(machine, t, steps.drop_first(), after)
    }
}

/// Replays the commands after a sequence number, in order; all of them where
/// there is none.
pub fn replay_steps<M: DeterministicStateMachine>(
    machine: &M,
    state: &mut LedgerState,
    steps: &Vec<ReplayStep>,
    after: Option<u64>,
) -> (r: Result<(), LedgerError>)
    requires
        replay_defined(*machine, old(state)@, step_models(steps@), after),
    ensures
        (final(state)@, outcome(r)) == replay(*machine, old(state)@, step_models(steps@), after),
{
    let ghost all = step_models(steps@);
    let ghost start = state@;
    let mut i: usize = 0;
    assert(all.skip(0) =~= all);
    while i < steps.len()
        invariant
            all == step_models(steps@),
            start == old(state)@,
            i <= steps@.len(),
            replay(*machine, start, all, after) == replay(
                *machine,
                state@,
                all.skip(i as int),
                after,
            ),
            replay_defined(*machine, state@, all.skip(i as int), after),
        decreases steps.len() - i,
    {
        assert(all.skip(i as int)[0] == steps@[i as int]@);
        assert(all.skip(i as int).drop_first() =~= all.skip(i + 1));
        let replayed = match after {
            Some(sequence) => steps[i].sequence > sequence,
            None => true,
        };
        if replayed {
            match machine.apply(state, &steps[i].command, &steps[i].payload) {
                Ok(_) => {},
                Err(e) => {
                    return Err(e);
                },
            }
        }
        i += 1;
    }
    assert(all.skip(i as int) =~= Seq::<StepModel>::empty());
    Ok(())
}

/// What comes back of installing the latest snapshot: it is there and was
/// restored, or why not.
pub open spec fn installed_latest(
    latest: Result<Option<CertifiedSnapshot>, LedgerError>,
    restored: Result<LedgerState, LedgerError>,
    missing: u64,
) -> Result<(u64, LedgerModel), ErrorModel> {
    match latest {
        Err(e) => Err(e@),
        Ok(None) => Err(ErrorModel::SnapshotNotFound(missing)),
        Ok(Some(snapshot)) => match restored {
            Err(e) => Err(e@),
            Ok(s) => Ok((snapshot.sequence, s@)),
        },
    }
}

/// Takes the restored state of the latest snapshot, and its sequence number.
fn install_latest(
    latest: Result<Option<CertifiedSnapshot>, LedgerError>,
    restored: Result<LedgerState, LedgerError>,
    missing: u64,
) -> (r: Result<(u64, LedgerState), LedgerError>)
    ensures
        match r {
            Ok(p) => installed_latest(latest, restored, missing) == Ok::<
                (u64, LedgerModel),
                ErrorModel,
            >((p.0, p.1@)),
            Err(e) => installed_latest(latest, restored, missing) == Err::<
                (u64, LedgerModel),
                ErrorModel,
            >(e@),
        },
{
    match latest {
        Err(e) => Err(e),
        Ok(None) => Err(LedgerError::SnapshotNotFound(missing)),
        Ok(Some(snapshot)) => match restored {
            Err(e) => Err(e),
            Ok(s) => Ok((snapshot.sequence, s)),
        },
    }
}

/// Recovering from a divergence: the state afterwards, and the outcome.
pub open spec fn recovered<M: DeterministicStateMachine>(
    marked: Result<(), LedgerError>,
    latest: Result<Option<CertifiedSnapshot>, LedgerError>,
    restored: Result<LedgerState, LedgerError>,
    machine: M,
    s: LedgerModel,
    steps: Seq<StepModel>,
) -> (LedgerModel, Result<(), ErrorModel>) {
    match marked {
        Err(e) => (s, Err(e@)),
        Ok(_) => match installed_latest(latest, restored, 0) {
            Err(e) => (s, Err(e)),
            Ok((sequence, t)) => replay(machine, t, steps, Some(sequence)),
        },
    }
}

/// Recovers from a divergence: the node has been shut out, the latest
/// certified snapshot replaces the state, and the commands after its sequence
/// number are replayed. The caller holds the state root against the cluster
/// afterwards.
///
/// `marked`, `latest` and `restored` are what came of shutting the node out,
/// of asking for the latest snapshot and of installing it.
pub fn recover_divergence<M: DeterministicStateMachine>(
    marked: Result<(), LedgerError>,
    latest: Result<Option<CertifiedSnapshot>, LedgerError>,
    restored: Result<LedgerState, LedgerError>,
    machine: &M,
    state: &mut LedgerState,
    steps: &Vec<ReplayStep>,
) -> (r: Result<(), LedgerError>)
    requires
        marked is Ok && installed_latest(latest, restored, 0) is Ok ==> replay_defined(
            *machine,
            installed_latest(latest, restored, 0)->Ok_0.1,
            step_models(steps@),
            Some(installed_latest(latest, restored, 0)->Ok_0.0),
        ),
    ensures
        (final(state)@, outcome(r)) == recovered(
            marked,
            latest,
            restored,
            *machine,
            old(state)@,
            step_models(steps@),
        ),
{
    match marked {
        Err(e) => {
            return Err(e);
        },
        Ok(_) => {},
    }
    match install_latest(latest, restored, 0) {
        Err(e) => Err(e),
        Ok((sequence, restored_state)) => {
            *state = restored_state;
            replay_steps(machine, state, steps, Some(sequence))
        },
    }
}

/// Catching up: the state afterwards, and the outcome.
pub open spec fn caught_up<M: DeterministicStateMachine>(
    latest: Result<Option<CertifiedSnapshot>, LedgerError>,
    restored: Result<LedgerState, LedgerError>,
    started: Result<(), LedgerError>,
    machine: M,
    s: LedgerModel,
    from_sequence: u64,
    steps: Seq<StepModel>,
) -> (LedgerModel, Result<(), ErrorModel>) {
    let base = if gap_needs_snapshot(steps.len()) {
        match installed_latest(latest, restored, from_sequence) {
            Err(e) => Err(e),
            Ok((sequence, t)) => Ok((Some(sequence), t)),
        }
    } else {
        Ok((None, s))
    };
    match base {
        Err(e) => (s, Err(e)),
        Ok((after, t)) => match started {
            Err(e) => (t, Err(e@)),
            Ok(_) => replay(machine, t, steps, after),
        },
    }
}

/// The state that is caught up from, and the sequence number that it stands
/// at where it comes from a snapshot.
pub open spec fn catch_up_base(
    latest: Result<Option<CertifiedSnapshot>, LedgerError>,
    restored: Result<LedgerState, LedgerError>,
    s: LedgerModel,
    from_sequence: u64,
    steps: Seq<StepModel>,
) -> (Option<u64>, LedgerModel) {
    if gap_needs_snapshot(steps.len()) && installed_latest(latest, restored, from_sequence) is Ok {
        let (sequence, t) = installed_latest(latest, restored, from_sequence)->Ok_0;
        (Some(sequence), t)
    } else {
        (None, s)
    }
}

/// Catches up: with more than `MAX_REPLAY_COMMANDS` missing commands the
/// latest snapshot replaces the state, and the commands that remain after its
/// sequence number are replayed in order; otherwise all missing commands are.
/// The caller holds the state root against the cluster afterwards.
///
/// `latest`, `restored` and `started` are what came of asking for the latest
/// snapshot, of installing it and of announcing the catch-up.
pub fn execute_catch_up<M: DeterministicStateMachine>(
    latest: Result<Option<CertifiedSnapshot>, LedgerError>,
    restored: Result<LedgerState, LedgerError>,
    started: Result<(), LedgerError>,
    machine: &M,
    state: &mut LedgerState,
    from_sequence: u64,
    steps: &Vec<ReplayStep>,
) -> (r: Result<(), LedgerError>)
    requires
        replay_defined(
            *machine,
            catch_up_base(latest, restored, old(state)@, from_sequence, step_models(steps@)).1,
            step_models(steps@),
            catch_up_base(latest, restored, old(state)@, from_sequence, step_models(steps@)).0,
        ),
    ensures
        (final(state)@, outcome(r)) == caught_up(
            latest,
            restored,
            started,
            *machine,
            old(state)@,
            from_sequence,
            step_models(steps@),
        ),
{
    let missing_count: u64 = steps.len() as u64;
    assert(step_models(steps@).len() == steps@.len());
    let mut after: Option<u64> = None;
    if missing_count > MAX_REPLAY_COMMANDS {
        match install_latest(latest, restored, from_sequence) {
            Err(e) => {
                return Err(e);
            },
            Ok((sequence, restored_state)) => {
                *state = restored_state;
                after = Some(sequence);
            },
        }
    }
    match started {
        Err(e) => {
            return Err(e);
        },
        Ok(_) => {},
    }
    replay_steps(machine, state, steps, after)
}

/// Replaying a log in two parts gives the same as replaying it at once.
pub proof fn lemma_replay_splits<M: DeterministicStateMachine>(
    machine: M,
    s: LedgerModel,
    first: Seq<StepModel>,
    second: Seq<StepModel>,
    after: Option<u64>,
)
    ensures
        replay(machine, s, first + second, after) == (match replay(machine, s, first, after) {
            (t, Ok(_)) => replay(machine, t, second, after),
            (t, Err(e)) => (t, Err(e)),
        }),
    decreases first.len(),
{
    if first.len() == 0 {
        assert(first + second =~= second);
    } else {
        assert((first + second).drop_first() =~= first.drop_first() + second);
        assert((first + second)[0] == first[0]);
        if !comes_after(first[0], after) {
            lemma_replay_splits(machine, s, first.drop_first(), second, after);
        } else {
            let t = machine.next(s, first[0].command, first[0].payload).0;
            lemma_replay_splits(machine, t, first.drop_first(), second, after);
        }
    }
}

/// Steps that all come after a sequence number are all replayed.
proof fn lemma_replay_takes_later<M: DeterministicStateMachine>(
    machine: M,
    s: LedgerModel,
    steps: Seq<StepModel>,
    sequence: u64,
)
    requires
        forall|i: int| 0 <= i < steps.len() ==> (#[trigger] steps[i]).sequence > sequence,
    ensures
        replay(machine, s, steps, Some(sequence)) == replay(machine, s, steps, None),
    decreases steps.len(),
{
    if steps.len() > 0 {
        let rest = steps.drop_first();
        assert forall|i: int| 0 <= i < rest.len() implies (#[trigger] rest[i]).sequence
            > sequence by {
            assert(rest[i] == steps[i + 1]);
        }
        lemma_replay_takes_later(
            machine,
            machine.next(s, steps[0].command, steps[0].payload).0,
            rest,
            sequence,
        );
    }
}

/// Steps none of which comes after a sequence number change nothing.
proof fn lemma_replay_skips_earlier<M: DeterministicStateMachine>(
    machine: M,
    s: LedgerModel,
    steps: Seq<StepModel>,
    sequence: u64,
)
    requires
        forall|i: int| 0 <= i < steps.len() ==> (#[trigger] steps[i]).sequence <= sequence,
    ensures
        replay(machine, s, steps, Some(sequence)) == (s, Ok::<(), ErrorModel>(())),
    decreases steps.len(),
{
    if steps.len() > 0 {
        let rest = steps.drop_first();
        assert forall|i: int| 0 <= i < rest.len() implies (#[trigger] rest[i]).sequence
            <= sequence by {
            assert(rest[i] == steps[i + 1]);
        }
        lemma_replay_skips_earlier(machine, s, rest, sequence);
    }
}

/// Recovering applies no command twice and leaves none out: from a snapshot
/// that holds what the first part of a log led to, a node ends where replaying
/// the whole log would have led it.
pub proof fn lemma_recovery_replays_the_log<M: DeterministicStateMachine>(
    snapshot: CertifiedSnapshot,
    restored: LedgerState,
    machine: M,
    s: LedgerModel,
    genesis: LedgerModel,
    covered: Seq<StepModel>,
    later: Seq<StepModel>,
)
    requires
        forall|i: int|
            0 <= i < covered.len() ==> (#[trigger] covered[i]).sequence <= snapshot.sequence,
        forall|i: int| 0 <= i < later.len() ==> (#[trigger] later[i]).sequence > snapshot.sequence,
        replay(machine, genesis, covered, None) == (restored@, Ok::<(), ErrorModel>(())),
    ensures
        recovered(Ok(()), Ok(Some(snapshot)), Ok(restored), machine, s, covered + later) == replay(
            machine,
            genesis,
            covered + later,
            None,
        ),
{
    lemma_replay_splits(machine, genesis, covered, later, None);
    lemma_replay_splits(machine, restored@, covered, later, Some(snapshot.sequence));
    lemma_replay_skips_earlier(machine, restored@, covered, snapshot.sequence);
    lemma_replay_takes_later(machine, restored@, later, snapshot.sequence);
}

/// Two nodes that restore the same state and replay the same commands end in
/// the same state, whatever state they were in before.
pub proof fn lemma_recovery_converges<M: DeterministicStateMachine>(
    latest: Result<Option<CertifiedSnapshot>, LedgerError>,
    restored: Result<LedgerState, LedgerError>,
    machine: M,
    s: LedgerModel,
    t: LedgerModel,
    steps: Seq<StepModel>,
)
    requires
        installed_latest(latest, restored, 0) is Ok,
    ensures
        recovered(Ok(()), latest, restored, machine, s, steps) == recovered(
            Ok(()),
            latest,
            restored,
            machine,
            t,
            steps,
        ),
{
}

/// Whether no account has a version above a bound.
pub open spec fn versions_at_most(s: LedgerModel, bound: int) -> bool {
    forall|i: int| 0 <= i < s.accounts.len() ==> (#[trigger] s.accounts[i]).version <= bound
}

/// Whether so many more commands cannot exhaust a version counter.
pub open spec fn room_for(s: LedgerModel, commands: nat) -> bool {
    &&& s.version + commands <= u64::MAX
    &&& versions_at_most(s, u64::MAX - 2 * commands)
    &&& 2 * commands <= u64::MAX
}

proof fn lemma_set_account_versions(s: LedgerModel, id: Seq<char>, a: AccountModel, bound: int)
    requires
        versions_at_most(s, bound),
        a.version <= bound,
        bound >= 0,
    ensures
        versions_at_most(LedgerModel { accounts: account_set(s.accounts, id, a), ..s }, bound),
        account_or_new(s.accounts, id).version <= bound,
{
    lemma_account_pos(s.accounts, id);
    let w = with_account(s.accounts, id);
    assert forall|i: int| 0 <= i < w.len() implies (#[trigger] w[i]).version <= bound by {
        if i < s.accounts.len() {
            assert(w[i] == s.accounts[i]);
        }
    }
}

proof fn lemma_transfer_versions(
    s: LedgerModel,
    source: Seq<char>,
    dest: Seq<char>,
    amount: u64,
    bound: int,
)
    requires
        versions_at_most(s, bound),
        0 <= bound <= u64::MAX - 2,
    ensures
        versions_at_most(transfer_effect(s, source, dest, amount).0, bound + 2),
        ({
            let x = account_or_new(s.accounts, source);
            let t = account_effect(s, source, debit(x, amount)).0;
            &&& x.version < u64::MAX
            &&& account_or_new(t.accounts, dest).version < u64::MAX
        }),
{
    let x = account_or_new(s.accounts, source);
    lemma_set_account_versions(s, source, new_account(source), bound);
    lemma_set_account_versions(s, source, debit(x, amount).0, bound + 1);
    let t = account_effect(s, source, debit(x, amount)).0;
    let y = account_or_new(t.accounts, dest);
    lemma_set_account_versions(t, dest, new_account(dest), bound + 1);
    lemma_set_account_versions(t, dest, credit(y, amount).0, bound + 2);
}

#[verifier::spinoff_prover]
proof fn lemma_command_versions(s: LedgerModel, c: CommandModel, p: PayloadModel, bound: int)
    requires
        versions_at_most(s, bound),
        0 <= bound <= u64::MAX - 2,
        s.version < u64::MAX,
    ensures
        counters_fit(s, c, p),
        versions_at_most(transition(s, c, p).0, bound + 2),
        transition(s, c, p).0.version <= s.version + 1,
{
    let key = c.partition_key;
    let a = account_or_new(s.accounts, key);
    let amount = amount_of(c.authorization_commitment);
    lemma_set_account_versions(s, key, new_account(key), bound);
    match c.command_type {
        LedgerCommandType::CreditInternalBalance => {
            lemma_set_account_versions(s, key, credit(a, credit_amount(c)).0, bound + 1);
        },
        LedgerCommandType::DebitInternalBalance => {
            lemma_set_account_versions(s, key, debit(a, amount).0, bound + 1);
        },
        LedgerCommandType::ReserveBalance => {
            lemma_set_account_versions(s, key, reserve(a, amount).0, bound + 1);
        },
        LedgerCommandType::ReleaseReservation => {
            lemma_set_account_versions(s, key, release(a, amount).0, bound + 1);
        },
        LedgerCommandType::CommitInternalTransfer => {
            match split_once(key, '|') {
                None => {},
                Some((source, dest)) => {
                    lemma_transfer_versions(s, source, dest, amount, bound);
                },
            }
        },
        _ => {
            lemma_other_commands_keep_accounts(s, c, p);
        },
    }
}

/// With room for as many commands as a log holds, the ledger's machine is
/// defined on the whole replay.
pub proof fn lemma_room_defines_replay(
    machine: StateMachine,
    s: LedgerModel,
    steps: Seq<StepModel>,
    after: Option<u64>,
)
    requires
        room_for(s, steps.len()),
    ensures
        replay_defined(machine, s, steps, after),
    decreases steps.len(),
{
    if steps.len() > 0 {
        let n = steps.len();
        let rest = steps.drop_first();
        if !comes_after(steps[0], after) {
            assert(versions_at_most(s, u64::MAX - 2 * rest.len()));
            lemma_room_defines_replay(machine, s, rest, after);
        } else {
            let c = steps[0].command;
            let p = steps[0].payload;
            lemma_command_versions(s, c, p, u64::MAX - 2 * n);
            lemma_room_defines_replay(machine, transition(s, c, p).0, rest, after);
        }
    }
}

/// Whether so many more commands can be applied to a state without
/// exhausting a version counter.
pub fn has_room(state: &LedgerState, commands: usize) -> (r: bool)
    ensures
        r == room_for(state@, commands as nat),
{
    let n: u128 = commands as u128;
    let max: u128 = u64::MAX as u128;
    if n + n > max || state.version as u128 + n > max {
        return false;
    }
    let mut i: usize = 0;
    while i < state.accounts.len()
        invariant
            i <= state.accounts@.len(),
            n == commands,
            max == u64::MAX,
            forall|j: int|
                0 <= j < i ==> (#[trigger] state@.accounts[j]).version <= u64::MAX - 2 * commands,
        decreases state.accounts.len() - i,
    {
        if state.accounts[i].version as u128 + n + n > max {
            assert(state@.accounts[i as int].version > u64::MAX - 2 * commands);
            return false;
        }
        i += 1;
    }
    true
}

/// A plan in terms of the two numbers: what is missing takes a node from one to
/// the other, and a snapshot is installed when more than ten thousand commands
/// are missing.
pub proof fn lemma_plans_are_exact(from: u64, to: u64)
    ensures
        from <= to ==> from + gap(from, to) == to,
        from >= to ==> gap(from, to) == 0,
        gap_needs_snapshot(gap(from, to)) <==> to - from > 10000,
{
}

/// A node may vote exactly when it is healthy and nothing committed is left to
/// apply.
pub proof fn lemma_voters_are_current(s: ReplicationStatus)
    ensures
        may_vote(s) <==> s.sync_status is Healthy && s.applied_sequence == s.committed_sequence,
{
}

/// Replay takes the commands in their order: each that is newer than the
/// snapshot is applied to what those before it led to, the others are passed
/// over, and the first that is refused ends it.
pub proof fn lemma_replay_takes_commands_in_order<M: DeterministicStateMachine>(
    machine: M,
    s: LedgerModel,
    step: StepModel,
    steps: Seq<StepModel>,
    snapshot: u64,
)
    ensures
        replay(machine, s, Seq::empty(), Some(snapshot)) == (s, Ok::<(), ErrorModel>(())),
        step.sequence <= snapshot ==> replay(machine, s, seq![step] + steps, Some(snapshot))
            == replay(machine, s, steps, Some(snapshot)),
        step.sequence > snapshot ==> {
            let (t, r) = machine.next(s, step.command, step.payload);
            &&& r is Ok ==> replay(machine, s, seq![step] + steps, Some(snapshot)) == replay(
                machine,
                t,
                steps,
                Some(snapshot),
            )
            &&& r is Err ==> replay(machine, s, seq![step] + steps, Some(snapshot)) == (
                t,
                Err::<(), ErrorModel>(r->Err_0),
            )
        },
        ({
            let (t, r) = machine.next(s, step.command, step.payload);
            &&& r is Ok ==> replay(machine, s, seq![step] + steps, None) == replay(
                machine,
                t,
                steps,
                None,
            )
            &&& r is Err ==> replay(machine, s, seq![step] + steps, None) == (
                t,
                Err::<(), ErrorModel>(r->Err_0),
            )
        }),
{
    assert((seq![step] + steps).drop_first() =~= steps);
    assert((seq![step] + steps)[0] == step);
}

/// A log that the snapshot holds already changes nothing.
pub proof fn lemma_replay_passes_over_the_old<M: DeterministicStateMachine>(
    machine: M,
    s: LedgerModel,
    steps: Seq<StepModel>,
    snapshot: u64,
)
    requires
        forall|i: int| 0 <= i < steps.len() ==> (#[trigger] steps[i]).sequence <= snapshot,
    ensures
        replay(machine, s, steps, Some(snapshot)) == (s, Ok::<(), ErrorModel>(())),
    decreases steps.len(),
{
    if steps.len() > 0 {
        let rest = steps.drop_first();
        assert(steps[0].sequence <= snapshot);
        assert forall|i: int| 0 <= i < rest.len() implies (#[trigger] rest[i]).sequence
            <= snapshot by {
            assert(rest[i] == steps[i + 1]);
        }
        lemma_replay_passes_over_the_old(machine, s, rest, snapshot);
    }
}

/// Recovery starts from the latest snapshot's state and replays what came after
/// it; where the mark, the snapshot or its state is not to be had, the state
/// stays and the fault is told.
pub proof fn lemma_recovery_is_exact<M: DeterministicStateMachine>(
    latest: Result<Option<CertifiedSnapshot>, LedgerError>,
    restored: Result<LedgerState, LedgerError>,
    fault: LedgerError,
    machine: M,
    s: LedgerModel,
    steps: Seq<StepModel>,
)
    ensures
        recovered(Err(fault), latest, restored, machine, s, steps) == (
            s,
            Err::<(), ErrorModel>(fault@),
        ),
        recovered(Ok(()), Err(fault), restored, machine, s, steps) == (
            s,
            Err::<(), ErrorModel>(fault@),
        ),
        recovered(Ok(()), Ok(None), restored, machine, s, steps) == (
            s,
            Err::<(), ErrorModel>(ErrorModel::SnapshotNotFound(0)),
        ),
        latest is Ok && latest->Ok_0 is Some ==> recovered(
            Ok(()),
            latest,
            Err(fault),
            machine,
            s,
            steps,
        ) == (s, Err::<(), ErrorModel>(fault@)),
        latest is Ok && latest->Ok_0 is Some && restored is Ok ==> recovered(
            Ok(()),
            latest,
            restored,
            machine,
            s,
            steps,
        ) == replay(machine, restored->Ok_0@, steps, Some(latest->Ok_0->0.sequence)),
{
}

/// Catching up with at most ten thousand commands replays them all on the
/// node's own state; with more it starts from the latest snapshot's state, and
/// without one it is refused and the state stays.
pub proof fn lemma_catching_up_is_exact<M: DeterministicStateMachine>(
    latest: Result<Option<CertifiedSnapshot>, LedgerError>,
    restored: Result<LedgerState, LedgerError>,
    fault: LedgerError,
    machine: M,
    s: LedgerModel,
    from_sequence: u64,
    steps: Seq<StepModel>,
)
    ensures
        steps.len() <= 10000 ==> caught_up(
            latest,
            restored,
            Ok(()),
            machine,
            s,
            from_sequence,
            steps,
        ) == replay(machine, s, steps, None),
        steps.len() <= 10000 ==> caught_up(
            latest,
            restored,
            Err(fault),
            machine,
            s,
            from_sequence,
            steps,
        ) == (s, Err::<(), ErrorModel>(fault@)),
        steps.len() > 10000 ==> caught_up(
            Ok(None),
            restored,
            Ok(()),
            machine,
            s,
            from_sequence,
            steps,
        ) == (s, Err::<(), ErrorModel>(ErrorModel::SnapshotNotFound(from_sequence))),
        steps.len() > 10000 && latest is Ok && latest->Ok_0 is Some && restored is Ok
            ==> caught_up(latest, restored, Ok(()), machine, s, from_sequence, steps) == replay(
            machine,
            restored->Ok_0@,
            steps,
            Some(latest->Ok_0->0.sequence),
        ),
{
}

/// There is room for so many commands exactly when the state's version and, two
/// for each command, the version of every account can be counted on.
pub proof fn lemma_room_is_exact(s: LedgerModel, commands: nat)
    ensures
        room_for(s, commands) <==> {
            &&& s.version + commands <= u64::MAX
            &&& 2 * commands <= u64::MAX
            &&& forall|i: int|
                0 <= i < s.accounts.len() ==> (#[trigger] s.accounts[i]).version + 2 * commands
                    <= u64::MAX
        },
{
    if versions_at_most(s, u64::MAX - 2 * commands) {
        assert forall|i: int| 0 <= i < s.accounts.len() implies (#[trigger] s.accounts[i]).version
            + 2 * commands <= u64::MAX by {}
    }
}

} // verus!
