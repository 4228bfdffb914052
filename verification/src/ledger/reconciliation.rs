//! Reconciliation of assets on the chain with liabilities in the ledger.

use crate::ledger::account_state::{release, reserve, AccountModel};
use crate::ledger::chain::{OnchainState, UtxoModel};
use crate::ledger::state_machine::LedgerState;
use crate::ledger::state_root::{compute_state_root, state_root};
use crate::ledger::withdrawal::WithdrawalStatus;
use vstd::prelude::*;

verus! {

/// What a reconciliation found.
#[derive(Debug, Clone, Copy, PartialEq, Eq, Hash, Structural)]
pub enum ReconciliationStatus {
    Balanced,
    Warning,
    Deficit,
    Surplus,
    IncompleteChainData,
}

/// A report on assets and liabilities.
#[derive(Debug, PartialEq, Eq)]
pub struct ReconciliationReport {
    /// State root at the time of the report.
    pub state_root: String,
    /// Hash of the chain tip known to the cluster.
    pub chain_tip_hash: String,
    /// Value of all outputs that can still be spent.
    pub total_assets_sats: u64,
    /// What is owed to users.
    pub total_liabilities_sats: u64,
    /// What is reserved over all accounts.
    pub total_reserved_sats: u64,
    /// What is unsettled over all accounts.
    pub total_pending_sats: u64,
    /// Assets minus liabilities.
    pub difference_sats: i128,
    /// The verdict.
    pub status: ReconciliationStatus,
}

/// Totals given by hand.
#[derive(Debug, Clone, Copy, PartialEq, Eq)]
pub struct ReconciliationInputs {
    pub hot_sats: u64,
    pub cold_sats: u64,
    pub custodied_sats: u64,
    pub lightning_sats: u64,
    pub available_sats: u64,
    pub reserved_sats: u64,
    pub pending_sats: u64,
    pub credits_sats: u64,
}

/// A total, cut off at the largest number there is.
pub open spec fn capped(n: int) -> u64 {
    if n > u64::MAX {
        u64::MAX
    } else {
        n as u64
    }
}

/// Adds to a total that is cut off.
fn capped_add(a: u64, b: u64) -> (r: u64)
    ensures
        r == capped(a + b),
{
    if b > u64::MAX - a {
        u64::MAX
    } else {
        a + b
    }
}

/// The verdict on totals given by hand.
pub open spec fn plain_status(difference: int, complete: bool) -> ReconciliationStatus {
    if !complete {
        ReconciliationStatus::IncompleteChainData
    } else if difference == 0 {
        ReconciliationStatus::Balanced
    } else if difference > 0 {
        ReconciliationStatus::Surplus
    } else {
        ReconciliationStatus::Deficit
    }
}

impl ReconciliationReport {
    /// A report on totals given by hand.
    pub fn calculate(inputs: ReconciliationInputs, complete_data: bool) -> (r: Self)
        ensures
            r.state_root@ == ""@,
            r.chain_tip_hash@ == ""@,
            r.total_assets_sats == capped(
                inputs.hot_sats + inputs.cold_sats + inputs.custodied_sats + inputs.lightning_sats,
            ),
            r.total_liabilities_sats == capped(
                inputs.available_sats + inputs.reserved_sats + inputs.pending_sats
                    + inputs.credits_sats,
            ),
            r.total_reserved_sats == inputs.reserved_sats,
            r.total_pending_sats == inputs.pending_sats,
            r.difference_sats == r.total_assets_sats - r.total_liabilities_sats,
            r.status == plain_status(r.difference_sats as int, complete_data),
    {
        let assets: u64 = capped_add(
            capped_add(capped_add(inputs.hot_sats, inputs.cold_sats), inputs.custodied_sats),
            inputs.lightning_sats,
        );
        let liabilities: u64 = capped_add(
            capped_add(
                capped_add(inputs.available_sats, inputs.reserved_sats),
                inputs.pending_sats,
            ),
            inputs.credits_sats,
        );
        let difference_sats: i128 = assets as i128 - liabilities as i128;
        let status = if !complete_data {
            ReconciliationStatus::IncompleteChainData
        } else if difference_sats == 0 {
            ReconciliationStatus::Balanced
        } else if difference_sats > 0 {
            ReconciliationStatus::Surplus
        } else {
            ReconciliationStatus::Deficit
        };
        ReconciliationReport {
            state_root: "".to_owned(),
            chain_tip_hash: "".to_owned(),
            total_assets_sats: assets,
            total_liabilities_sats: liabilities,
            total_reserved_sats: inputs.reserved_sats,
            total_pending_sats: inputs.pending_sats,
            difference_sats,
            status,
        }
    }
}

/// The value of outputs that were neither spent nor replaced.
pub open spec fn unspent_value(s: Seq<UtxoModel>) -> nat
    decreases s.len(),
{
    if s.len() == 0 {
        0
    } else {
        let u = s.last();
        unspent_value(s.drop_last()) + (if u.state == OnchainState::Spent || u.state
            == OnchainState::Replaced {
            0
        } else {
            u.value_sats as nat
        })
    }
}

/// What is owed to the holders of accounts.
pub open spec fn owed(s: Seq<AccountModel>) -> nat
    decreases s.len(),
{
    if s.len() == 0 {
        0
    } else {
        let a = s.last();
        owed(s.drop_last()) + capped(
            a.available_sats + a.reserved_sats + a.pending_outgoing_sats,
        ) as nat
    }
}

/// What is reserved over accounts.
pub open spec fn reserved_value(s: Seq<AccountModel>) -> nat
    decreases s.len(),
{
    if s.len() == 0 {
        0
    } else {
        reserved_value(s.drop_last()) + s.last().reserved_sats as nat
    }
}

/// What is unsettled over accounts.
pub open spec fn pending_value(s: Seq<AccountModel>) -> nat
    decreases s.len(),
{
    if s.len() == 0 {
        0
    } else {
        pending_value(s.drop_last()) + s.last().pending_outgoing_sats as nat
    }
}

/// How large a difference is tolerated: a thousandth of the assets, and no
/// less than a thousand satoshis.
pub open spec fn tolerance(assets: u64) -> u64 {
    if assets / 1000 < 1000 {
        1000
    } else {
        assets / 1000
    }
}

/// The verdict of a reconciliation.
pub open spec fn reconciled_status(difference: int, tolerated: u64, complete: bool) ->
    ReconciliationStatus {
    if !complete {
        ReconciliationStatus::IncompleteChainData
    } else if difference == 0 {
        ReconciliationStatus::Balanced
    } else if -tolerated <= difference <= tolerated {
        ReconciliationStatus::Warning
    } else if difference > 0 {
        ReconciliationStatus::Surplus
    } else {
        ReconciliationStatus::Deficit
    }
}

/// Reconciles the ledger with the chain. It only reports: balances are never
/// changed to close a difference.
pub struct ReconciliationEngine;

impl ReconciliationEngine {
    /// The value of all outputs that were neither spent nor replaced.
    pub fn compute_total_assets(state: &LedgerState) -> (r: u64)
        ensures
            r == capped(unspent_value(state@.utxos) as int),
    {
        let ghost all = state@.utxos;
        let mut total: u64 = 0;
        let mut i: usize = 0;
        assert(all.take(0) =~= Seq::<UtxoModel>::empty());
        while i < state.utxos.len()
            invariant
                i <= state.utxos@.len(),
                all == state@.utxos,
                total == capped(unspent_value(all.take(i as int)) as int),
            decreases state.utxos.len() - i,
        {
            proof {
                assert(all.take(i + 1).drop_last() =~= all.take(i as int));
                assert(all.take(i + 1).last() == state.utxos@[i as int]@);
            }
            let u = &state.utxos[i];
            if !(u.state == OnchainState::Spent || u.state == OnchainState::Replaced) {
                total = capped_add(total, u.value_sats);
            }
            i += 1;
        }
        assert(all.take(i as int) =~= all);
        total
    }

    /// What is owed to users: what is available, reserved and on its way out.
    pub fn compute_total_liabilities(state: &LedgerState) -> (r: u64)
        ensures
            r == capped(owed(state@.accounts) as int),
    {
        let ghost all = state@.accounts;
        let mut total: u64 = 0;
        let mut i: usize = 0;
        assert(all.take(0) =~= Seq::<AccountModel>::empty());
        while i < state.accounts.len()
            invariant
                i <= state.accounts@.len(),
                all == state@.accounts,
                total == capped(owed(all.take(i as int)) as int),
            decreases state.accounts.len() - i,
        {
            proof {
                assert(all.take(i + 1).drop_last() =~= all.take(i as int));
                assert(all.take(i + 1).last() == state.accounts@[i as int]@);
            }
            let a = &state.accounts[i];
            let held: u64 = capped_add(
                capped_add(a.available_sats, a.reserved_sats),
                a.pending_outgoing_sats,
            );
            total = capped_add(total, held);
            i += 1;
        }
        assert(all.take(i as int) =~= all);
        total
    }

    /// What is reserved over all accounts.
    pub fn compute_total_reserved(state: &LedgerState) -> (r: u64)
        ensures
            r == capped(reserved_value(state@.accounts) as int),
    {
        let ghost all = state@.accounts;
        let mut total: u64 = 0;
        let mut i: usize = 0;
        assert(all.take(0) =~= Seq::<AccountModel>::empty());
        while i < state.accounts.len()
            invariant
                i <= state.accounts@.len(),
                all == state@.accounts,
                total == capped(reserved_value(all.take(i as int)) as int),
            decreases state.accounts.len() - i,
        {
            proof {
                assert(all.take(i + 1).drop_last() =~= all.take(i as int));
                assert(all.take(i + 1).last() == state.accounts@[i as int]@);
            }
            total = capped_add(total, state.accounts[i].reserved_sats);
            i += 1;
        }
        assert(all.take(i as int) =~= all);
        total
    }

    /// What is unsettled over all accounts.
    pub fn compute_total_pending(state: &LedgerState) -> (r: u64)
        ensures
            r == capped(pending_value(state@.accounts) as int),
    {
        let ghost all = state@.accounts;
        let mut total: u64 = 0;
        let mut i: usize = 0;
        assert(all.take(0) =~= Seq::<AccountModel>::empty());
        while i < state.accounts.len()
            invariant
                i <= state.accounts@.len(),
                all == state@.accounts,
                total == capped(pending_value(all.take(i as int)) as int),
            decreases state.accounts.len() - i,
        {
            proof {
                assert(all.take(i + 1).drop_last() =~= all.take(i as int));
                assert(all.take(i + 1).last() == state.accounts@[i as int]@);
            }
            total = capped_add(total, state.accounts[i].pending_outgoing_sats);
            i += 1;
        }
        assert(all.take(i as int) =~= all);
        total
    }

    /// How large a difference is a warning only.
    pub fn warning_tolerance(total_assets: u64) -> (r: u64)
        ensures
            r == tolerance(total_assets),
    {
        let pct: u64 = total_assets / 1000;
        if pct < 1000 {
            1000
        } else {
            pct
        }
    }

    /// Reconciles the ledger with the chain.
    pub fn reconcile(state: &LedgerState, chain_tip_hash: &str, chain_data_complete: bool) -> (r:
        ReconciliationReport)
        ensures
            r.state_root@ == state_root(state@),
            r.chain_tip_hash@ == chain_tip_hash@,
            r.total_assets_sats == capped(unspent_value(state@.utxos) as int),
            r.total_liabilities_sats == capped(owed(state@.accounts) as int),
            r.total_reserved_sats == capped(reserved_value(state@.accounts) as int),
            r.total_pending_sats == capped(pending_value(state@.accounts) as int),
            r.difference_sats == r.total_assets_sats - r.total_liabilities_sats,
            r.status == reconciled_status(
                r.difference_sats as int,
                tolerance(r.total_assets_sats),
                chain_data_complete,
            ),
    {
        let total_assets: u64 = ReconciliationEngine::compute_total_assets(state);
        let total_liabilities: u64 = ReconciliationEngine::compute_total_liabilities(state);
        let total_reserved: u64 = ReconciliationEngine::compute_total_reserved(state);
        let total_pending: u64 = ReconciliationEngine::compute_total_pending(state);
        let diff: i128 = total_assets as i128 - total_liabilities as i128;
        let tolerated: i128 = ReconciliationEngine::warning_tolerance(total_assets) as i128;
        let status = if !chain_data_complete {
            ReconciliationStatus::IncompleteChainData
        } else if diff == 0 {
            ReconciliationStatus::Balanced
        } else if -tolerated <= diff && diff <= tolerated {
            ReconciliationStatus::Warning
        } else if diff > 0 {
            ReconciliationStatus::Surplus
        } else {
            ReconciliationStatus::Deficit
        };
        ReconciliationReport {
            state_root: compute_state_root(state),
            chain_tip_hash: chain_tip_hash.to_owned(),
            total_assets_sats: total_assets,
            total_liabilities_sats: total_liabilities,
            total_reserved_sats: total_reserved,
            total_pending_sats: total_pending,
            difference_sats: diff,
            status,
        }
    }
}

/// Whether a withdrawal is still owed.
pub open spec fn withdrawal_owed(status: WithdrawalStatus) -> bool {
    status != WithdrawalStatus::Confirmed && status != WithdrawalStatus::Failed && status
        != WithdrawalStatus::Replaced
}

/// Whether a withdrawal of this status is an unsettled liability.
pub fn is_pending_liability(status: WithdrawalStatus) -> (r: bool)
    ensures
        r == withdrawal_owed(status),
{
    match status {
        WithdrawalStatus::Confirmed => false,
        WithdrawalStatus::Failed => false,
        WithdrawalStatus::Replaced => false,
        _ => true,
    }
}

/// With complete data the status tells the sign of a difference beyond the
/// tolerance: a deficit means that more is owed than is there, a surplus the
/// opposite, and a balance that both are equal.
pub proof fn lemma_status_tells_the_difference(difference: int, tolerated: u64)
    ensures
        reconciled_status(difference, tolerated, true) == ReconciliationStatus::Deficit
            <==> difference < -tolerated,
        reconciled_status(difference, tolerated, true) == ReconciliationStatus::Surplus
            <==> difference > tolerated,
        reconciled_status(difference, tolerated, true) == ReconciliationStatus::Balanced
            <==> difference == 0,
{
}

proof fn lemma_owed_set(s: Seq<AccountModel>, i: int, a: AccountModel)
    requires
        0 <= i < s.len(),
    ensures
        owed(s.update(i, a)) == owed(s) - capped(
            s[i].available_sats + s[i].reserved_sats + s[i].pending_outgoing_sats,
        ) + capped(a.available_sats + a.reserved_sats + a.pending_outgoing_sats),
    decreases s.len(),
{
    let t = s.update(i, a);
    if i == s.len() - 1 {
        assert(t.drop_last() =~= s.drop_last());
    } else {
        assert(t.drop_last() =~= s.drop_last().update(i, a));
        lemma_owed_set(s.drop_last(), i, a);
    }
}

/// Reserving funds, and releasing them, does not change what is owed.
pub proof fn lemma_reservations_keep_what_is_owed(s: Seq<AccountModel>, i: int, amount: u64)
    requires
        0 <= i < s.len(),
    ensures
        reserve(s[i], amount).1 is Ok ==> owed(s.update(i, reserve(s[i], amount).0)) == owed(s),
        release(s[i], amount).1 is Ok ==> owed(s.update(i, release(s[i], amount).0)) == owed(s),
{
    lemma_owed_set(s, i, reserve(s[i], amount).0);
    lemma_owed_set(s, i, release(s[i], amount).0);
}

/// A sum that is capped is the sum where it fits, and the highest number where
/// it does not.
pub proof fn lemma_capped(n: nat)
    ensures
        n <= u64::MAX ==> capped(n as int) == n,
        n > u64::MAX ==> capped(n as int) == u64::MAX,
{
}

/// One more output adds its value to the assets in every state but spent and
/// replaced; no outputs are no assets.
pub proof fn lemma_assets_count_every_output(s: Seq<UtxoModel>, u: UtxoModel)
    ensures
        unspent_value(Seq::empty()) == 0,
        match u.state {
            OnchainState::Seen
            | OnchainState::InMempool
            | OnchainState::Confirming
            | OnchainState::Spendable
            | OnchainState::FinalizedByPolicy
            | OnchainState::Reorged => unspent_value(s.push(u)) == unspent_value(s) + u.value_sats,
            OnchainState::Spent | OnchainState::Replaced => unspent_value(s.push(u))
                == unspent_value(s),
        },
{
    assert(s.push(u).drop_last() =~= s);
}

proof fn lemma_assets_update(s: Seq<UtxoModel>, i: int, u: UtxoModel)
    requires
        0 <= i < s.len(),
    ensures
        unspent_value(s.update(i, u)) == unspent_value(s) - unspent_value(seq![s[i]])
            + unspent_value(seq![u]),
    decreases s.len(),
{
    lemma_assets_count_every_output(Seq::empty(), s[i]);
    lemma_assets_count_every_output(Seq::empty(), u);
    assert(Seq::<UtxoModel>::empty().push(s[i]) =~= seq![s[i]]);
    assert(Seq::<UtxoModel>::empty().push(u) =~= seq![u]);
    let t = s.update(i, u);
    if i == s.len() - 1 {
        assert(t.drop_last() =~= s.drop_last());
    } else {
        assert(t.drop_last() =~= s.drop_last().update(i, u));
        lemma_assets_update(s.drop_last(), i, u);
    }
}

/// An output that moves on in its life keeps its place in the assets until it
/// is spent or replaced; then exactly its value leaves them.
pub proof fn lemma_assets_follow_the_life_cycle(s: Seq<UtxoModel>, i: int, to: OnchainState)
    requires
        0 <= i < s.len(),
        !(s[i].state is Spent) && !(s[i].state is Replaced),
    ensures
        unspent_value(s.update(i, UtxoModel { state: to, ..s[i] })) == if to is Spent
            || to is Replaced {
            unspent_value(s) - s[i].value_sats
        } else {
            unspent_value(s) as int
        },
{
    let u = UtxoModel { state: to, ..s[i] };
    lemma_assets_update(s, i, u);
    lemma_assets_count_every_output(Seq::empty(), s[i]);
    lemma_assets_count_every_output(Seq::empty(), u);
    assert(Seq::<UtxoModel>::empty().push(s[i]) =~= seq![s[i]]);
    assert(Seq::<UtxoModel>::empty().push(u) =~= seq![u]);
}

/// One more account adds to the liabilities what it has available, reserved and
/// on its way out, to the reserved total what it has reserved, and to the
/// pending total what is on its way out.
pub proof fn lemma_liabilities_count_every_account(s: Seq<AccountModel>, a: AccountModel)
    ensures
        owed(Seq::empty()) == 0,
        reserved_value(Seq::empty()) == 0,
        pending_value(Seq::empty()) == 0,
        a.available_sats + a.reserved_sats + a.pending_outgoing_sats <= u64::MAX ==> owed(s.push(a))
            == owed(s) + a.available_sats + a.reserved_sats + a.pending_outgoing_sats,
        a.available_sats + a.reserved_sats + a.pending_outgoing_sats > u64::MAX ==> owed(s.push(a))
            == owed(s) + u64::MAX,
        reserved_value(s.push(a)) == reserved_value(s) + a.reserved_sats,
        pending_value(s.push(a)) == pending_value(s) + a.pending_outgoing_sats,
{
    assert(s.push(a).drop_last() =~= s);
}

/// A difference is tolerated up to a thousandth of the assets, and up to a
/// thousand satoshis in any case.
pub proof fn lemma_tolerance(assets: u64)
    ensures
        tolerance(assets) >= 1000,
        assets <= 1_000_999 ==> tolerance(assets) == 1000,
        assets > 1_000_999 ==> tolerance(assets) * 1000 <= assets < (tolerance(assets) + 1) * 1000,
{
}

/// Each status comes for exactly the differences that it tells; without
/// complete chain data nothing else is told.
pub proof fn lemma_each_status(difference: int, tolerated: u64)
    ensures
        reconciled_status(difference, tolerated, false) is IncompleteChainData,
        plain_status(difference, false) is IncompleteChainData,
        reconciled_status(difference, tolerated, true) is Balanced <==> difference == 0,
        reconciled_status(difference, tolerated, true) is Warning <==> difference != 0
            && difference <= tolerated && -difference <= tolerated,
        reconciled_status(difference, tolerated, true) is Surplus <==> difference > tolerated,
        reconciled_status(difference, tolerated, true) is Deficit <==> -difference > tolerated,
        plain_status(difference, true) is Balanced <==> difference == 0,
        plain_status(difference, true) is Surplus <==> difference > 0,
        plain_status(difference, true) is Deficit <==> difference < 0,
{
}

/// A withdrawal is owed until it is confirmed, failed or replaced: while it is
/// reserved or authorized.
pub proof fn lemma_open_withdrawals_are_owed(status: WithdrawalStatus)
    ensures
        withdrawal_owed(status) <==> status is Reserved || status is Authorized,
{
}

} // verus!
