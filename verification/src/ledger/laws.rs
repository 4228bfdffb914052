//! Laws of the state machine: what every transition keeps and what operations
//! undo.

use crate::ledger::account_state::{credit, debit, holdings, new_account, release, reserve,
    AccountModel};
use crate::ledger::chain::{all_reorged, keys_distinct, lemma_outpoint_round_trip,
    lemma_outpoint_text_injective, lemma_outputs_enter, lemma_reorg_disconnects, lemma_reorg_keeps_keys_distinct,
    outpoint_text, state_terminal, utxo_key, with_new, OnchainState, OutPointModel, UtxoModel};
use crate::ledger::error::ErrorModel;
use crate::ledger::state_machine::{account_effect, account_or_new, account_pos, account_set,
    amount_of, credit_amount, effect, has_account, including, lemma_account_after_set, lemma_account_pos, lemma_other_commands_keep_accounts, transfer_effect, transition, utxo_pos, utxo_target,
    validated, with_account, without, CommandModel, LedgerCommandType, LedgerModel, LedgerState,
    PayloadModel, TransitionModel};
use crate::ledger::state_root::state_root;
use crate::text::{decimal, first_index, lemma_first_index, lemma_parse_decimal, lemma_split_at,
    parse_unsigned, split_once};
use vstd::prelude::*;

verus! {

/// The same state and the same command give the same next state, the same
/// receipt and the same state root: nothing but what the state holds counts.
pub proof fn lemma_transitions_are_deterministic(
    a: LedgerState,
    b: LedgerState,
    c: CommandModel,
    p: PayloadModel,
)
    requires
        a@ == b@,
    ensures
        transition(a@, c, p) == transition(b@, c, p),
        state_root(transition(a@, c, p).0) == state_root(transition(b@, c, p).0),
{
}

/// An accepted command takes the version exactly one further; a refused one
/// keeps it.
pub proof fn lemma_version_counts_transitions(s: LedgerModel, c: CommandModel, p: PayloadModel)
    requires
        s.version < u64::MAX,
    ensures
        transition(s, c, p).1 is Ok ==> transition(s, c, p).0.version == s.version + 1,
        transition(s, c, p).1 is Err ==> transition(s, c, p).0.version == s.version,
{
}

/// A command that is not valid changes nothing.
pub proof fn lemma_invalid_commands_change_nothing(s: LedgerModel, c: CommandModel, p: PayloadModel)
    requires
        validated(s, c, p) is Err,
    ensures
        transition(s, c, p).0 == s,
        transition(s, c, p).1 is Err,
{
}

/// A refused command changes nothing, whether it was not valid or failed
/// later: a transfer moves its amount or leaves both accounts alone.
pub proof fn lemma_refused_commands_change_nothing(s: LedgerModel, c: CommandModel, p: PayloadModel)
    requires
        transition(s, c, p).1 is Err,
    ensures
        transition(s, c, p).0 == s,
{
}

/// Receipts form a chain: the root before a transition is that of the state
/// it started from, and the root after it that of the state it led to.
pub proof fn lemma_receipts_form_a_chain(
    s: LedgerModel,
    c: CommandModel,
    p: PayloadModel,
    d: CommandModel,
    q: PayloadModel,
)
    requires
        transition(s, c, p).1 is Ok,
        transition(transition(s, c, p).0, d, q).1 is Ok,
    ensures
        transition(s, c, p).1->Ok_0.previous_state_root == state_root(s),
        transition(s, c, p).1->Ok_0.resulting_state_root == transition(
            transition(s, c, p).0,
            d,
            q,
        ).1->Ok_0.previous_state_root,
        transition(transition(s, c, p).0, d, q).1->Ok_0.sequence == (transition(
            s,
            c,
            p,
        ).1->Ok_0.sequence + 1) as u64,
{
}

/// What all accounts hold together.
pub open spec fn total_holdings(s: Seq<AccountModel>) -> int
    decreases s.len(),
{
    if s.len() == 0 {
        0
    } else {
        total_holdings(s.drop_last()) + holdings(s.last())
    }
}

proof fn lemma_total_update(s: Seq<AccountModel>, i: int, a: AccountModel)
    requires
        0 <= i < s.len(),
    ensures
        total_holdings(s.update(i, a)) == total_holdings(s) - holdings(s[i]) + holdings(a),
    decreases s.len(),
{
    let t = s.update(i, a);
    if i == s.len() - 1 {
        assert(t.drop_last() =~= s.drop_last());
    } else {
        assert(t.drop_last() =~= s.drop_last().update(i, a));
        lemma_total_update(s.drop_last(), i, a);
    }
}

proof fn lemma_total_set(s: Seq<AccountModel>, id: Seq<char>, a: AccountModel)
    ensures
        total_holdings(account_set(s, id, a)) == total_holdings(s) - holdings(
            account_or_new(s, id),
        ) + holdings(a),
{
    lemma_account_pos(s, id);
    let w = with_account(s, id);
    if !has_account(s, id) {
        assert(w.drop_last() =~= s);
    }
    lemma_total_update(w, account_pos(s, id) as int, a);
}

/// A transfer that is accepted conserves what all accounts hold together.
pub proof fn lemma_transfers_conserve(s: LedgerModel, c: CommandModel, p: PayloadModel)
    requires
        c.command_type == LedgerCommandType::CommitInternalTransfer,
        transition(s, c, p).1 is Ok,
    ensures
        total_holdings(transition(s, c, p).0.accounts) == total_holdings(s.accounts),
{
    let amount = amount_of(c.authorization_commitment);
    let (source, dest) = split_once(c.partition_key, '|')->0;
    let x = account_or_new(s.accounts, source);
    lemma_total_set(s.accounts, source, debit(x, amount).0);
    let t = account_effect(s, source, debit(x, amount)).0;
    let y = account_or_new(t.accounts, dest);
    lemma_total_set(t.accounts, dest, credit(y, amount).0);
}

/// Reserving and releasing funds conserve what all accounts hold together; an
/// accepted credit adds its amount and an accepted debit takes it away.
pub proof fn lemma_account_commands_conserve(s: LedgerModel, c: CommandModel, p: PayloadModel)
    requires
        transition(s, c, p).1 is Ok,
    ensures
        ({
            let before = total_holdings(s.accounts);
            let after = total_holdings(transition(s, c, p).0.accounts);
            let amount = amount_of(c.authorization_commitment);
            match c.command_type {
                LedgerCommandType::ReserveBalance
                | LedgerCommandType::ReleaseReservation => after == before,
                LedgerCommandType::CreditInternalBalance => after == before + (
                if c.expected_version is Some {
                    amount
                } else {
                    0
                }),
                LedgerCommandType::DebitInternalBalance => after == before - amount,
                LedgerCommandType::CommitInternalTransfer => after == before,
                _ => after == before,
            }
        }),
{
    let a = account_or_new(s.accounts, c.partition_key);
    if c.command_type == LedgerCommandType::CommitInternalTransfer {
        lemma_transfers_conserve(s, c, p);
    } else {
        let after = transition(s, c, p).0.accounts;
        if after != s.accounts {
            let i = account_pos(s.accounts, c.partition_key) as int;
            lemma_account_pos(s.accounts, c.partition_key);
            lemma_total_set(s.accounts, c.partition_key, after[i]);
        } else if c.command_type == LedgerCommandType::CreditInternalBalance || c.command_type
            == LedgerCommandType::DebitInternalBalance || c.command_type
            == LedgerCommandType::ReserveBalance || c.command_type
            == LedgerCommandType::ReleaseReservation {
            let i = account_pos(s.accounts, c.partition_key) as int;
            lemma_account_pos(s.accounts, c.partition_key);
            lemma_total_set(s.accounts, c.partition_key, after[i]);
        }
    }
}

/// Whether no two accounts share an identifier.
pub open spec fn ids_distinct(s: Seq<AccountModel>) -> bool {
    forall|i: int, j: int|
        0 <= i < s.len() && 0 <= j < s.len() && i != j ==> (#[trigger] s[i]).account_id != (
        #[trigger] s[j]).account_id
}

proof fn lemma_set_keeps_ids_distinct(s: Seq<AccountModel>, id: Seq<char>, a: AccountModel)
    requires
        ids_distinct(s),
        a.account_id == id,
    ensures
        ids_distinct(account_set(s, id, a)),
{
    lemma_account_pos(s, id);
    let t = account_set(s, id, a);
    let k = account_pos(s, id) as int;
    assert forall|i: int, j: int|
        0 <= i < t.len() && 0 <= j < t.len() && i != j implies (#[trigger] t[i]).account_id != (
    #[trigger] t[j]).account_id by {
        if i != k && j != k {
            assert(s[i].account_id != s[j].account_id);
        } else if has_account(s, id) {
            assert(s[i].account_id != s[j].account_id);
        } else if i == k {
            assert(s[j].account_id != id);
        } else {
            assert(s[i].account_id != id);
        }
    }
}

proof fn lemma_account_or_new_id(s: Seq<AccountModel>, id: Seq<char>)
    ensures
        account_or_new(s, id).account_id == id,
{
    lemma_account_pos(s, id);
}

proof fn lemma_account_effect_keeps_ids_distinct(
    s: LedgerModel,
    id: Seq<char>,
    after: (AccountModel, Result<(), ErrorModel>),
)
    requires
        ids_distinct(s.accounts),
        after.0.account_id == id,
    ensures
        ids_distinct(account_effect(s, id, after).0.accounts),
{
    lemma_set_keeps_ids_distinct(s.accounts, id, after.0);
}

proof fn lemma_transfer_keeps_ids_distinct(
    s: LedgerModel,
    source: Seq<char>,
    dest: Seq<char>,
    amount: u64,
)
    requires
        ids_distinct(s.accounts),
    ensures
        ids_distinct(transfer_effect(s, source, dest, amount).0.accounts),
{
    lemma_account_or_new_id(s.accounts, source);
    let first = debit(account_or_new(s.accounts, source), amount);
    lemma_account_effect_keeps_ids_distinct(s, source, first);
    let t = account_effect(s, source, first).0;
    lemma_account_or_new_id(t.accounts, dest);
    lemma_account_effect_keeps_ids_distinct(
        t,
        dest,
        credit(account_or_new(t.accounts, dest), amount),
    );
}

/// Accounts stay distinct under every command, accepted or not.
pub proof fn lemma_accounts_stay_distinct(s: LedgerModel, c: CommandModel, p: PayloadModel)
    requires
        ids_distinct(s.accounts),
    ensures
        ids_distinct(transition(s, c, p).0.accounts),
{
    let key = c.partition_key;
    let amount = amount_of(c.authorization_commitment);
    let a = account_or_new(s.accounts, key);
    lemma_account_or_new_id(s.accounts, key);
    if transition(s, c, p).1 is Ok {
        match c.command_type {
            LedgerCommandType::CommitInternalTransfer => {
                let (source, dest) = split_once(key, '|')->0;
                lemma_transfer_keeps_ids_distinct(s, source, dest, amount);
            },
            LedgerCommandType::CreditInternalBalance => {
                lemma_account_effect_keeps_ids_distinct(s, key, credit(a, credit_amount(c)));
            },
            LedgerCommandType::DebitInternalBalance => {
                lemma_account_effect_keeps_ids_distinct(s, key, debit(a, amount));
            },
            LedgerCommandType::ReserveBalance => {
                lemma_account_effect_keeps_ids_distinct(s, key, reserve(a, amount));
            },
            LedgerCommandType::ReleaseReservation => {
                lemma_account_effect_keeps_ids_distinct(s, key, release(a, amount));
            },
            _ => {
                lemma_other_commands_keep_accounts(s, c, p);
            },
        }
    }
}

proof fn lemma_utxo_pos(s: Seq<UtxoModel>, o: crate::ledger::chain::OutPointModel)
    ensures
        utxo_pos(s, o) <= s.len(),
        utxo_pos(s, o) < s.len() ==> s[utxo_pos(s, o) as int].outpoint == o,
        forall|j: int| 0 <= j < utxo_pos(s, o) ==> (#[trigger] s[j]).outpoint != o,
    decreases s.len(),
{
    if s.len() > 0 && s[0].outpoint != o {
        let t = s.drop_first();
        lemma_utxo_pos(t, o);
        assert forall|j: int| 0 <= j < utxo_pos(s, o) implies (#[trigger] s[j]).outpoint != o by {
            if j > 0 {
                assert(s[j] == t[j - 1]);
            }
        }
    }
}

/// How a command can change the outputs: not at all, by changing one output
/// within its life cycle, by adding one that was not there, or by a
/// reorganisation.
spec fn outputs_step(s: LedgerModel, t: Seq<UtxoModel>, c: CommandModel, p: PayloadModel) -> bool {
    ||| t == s.utxos
    ||| one_changed(s.utxos, t)
    ||| one_added(s.utxos, t)
    ||| p.reorg is Ok && t == with_new(
        all_reorged(s.utxos, p.reorg->Ok_0.disconnected_txids),
        p.reorg->Ok_0.new_utxos,
        Some(c.created_at_bucket),
    ).0
}

/// Whether one output changed within its life cycle.
spec fn one_changed(s: Seq<UtxoModel>, t: Seq<UtxoModel>) -> bool {
    exists|i: int|
        #![trigger s[i]]
        {
            &&& 0 <= i < s.len()
            &&& t == s.update(i, t[i])
            &&& t[i].outpoint == s[i].outpoint
            &&& t[i].value_sats == s[i].value_sats
            &&& t[i].address == s[i].address
            &&& state_terminal(s[i].state) ==> t[i].state == s[i].state
        }
}

/// Whether one output was added under an outpoint that was not there.
spec fn one_added(s: Seq<UtxoModel>, t: Seq<UtxoModel>) -> bool {
    &&& t.len() == s.len() + 1
    &&& t == s.push(t.last())
    &&& forall|i: int| 0 <= i < s.len() ==> (#[trigger] s[i]).outpoint != t.last().outpoint
}

#[verifier::rlimit(60)]
#[verifier::spinoff_prover]
proof fn lemma_outputs_step(s: LedgerModel, c: CommandModel, p: PayloadModel)
    ensures
        outputs_step(s, transition(s, c, p).0.utxos, c, p),
{
    let t = transition(s, c, p).0.utxos;
    if validated(s, c, p) is Ok {
        match c.command_type {
            LedgerCommandType::DetectUtxo => {
                let o = crate::ledger::chain::outpoint_parsed(c.partition_key)->Ok_0;
                lemma_utxo_pos(s.utxos, o);
                let k = utxo_pos(s.utxos, o) as int;
                if k < s.utxos.len() {
                    if s.utxos[k].state == OnchainState::Reorged {
                        assert(t =~= s.utxos.update(k, t[k]));
                        assert(one_changed(s.utxos, t));
                    }
                } else {
                    assert(t =~= s.utxos.push(t.last()));
                    assert(one_added(s.utxos, t));
                }
            },
            LedgerCommandType::ConfirmUtxo
            | LedgerCommandType::MarkUtxoSpendable
            | LedgerCommandType::ReserveUtxo
            | LedgerCommandType::ReleaseUtxo
            | LedgerCommandType::MarkUtxoSpent => {
                let i = utxo_target(s, c.partition_key)->Ok_0 as int;
                assert(t =~= s.utxos.update(i, t[i]));
                assert(one_changed(s.utxos, t)) by {
                    assert(s.utxos[i] == s.utxos[i]);
                }
            },
            _ => {},
        }
    }
}

/// Outputs stay distinct under every command, accepted or not.
pub proof fn lemma_outputs_stay_distinct(s: LedgerModel, c: CommandModel, p: PayloadModel)
    requires
        keys_distinct(s.utxos),
    ensures
        keys_distinct(transition(s, c, p).0.utxos),
{
    lemma_outputs_step(s, c, p);
    lemma_step_keeps_keys_distinct(s, transition(s, c, p).0.utxos, c, p);
}

proof fn lemma_step_keeps_keys_distinct(
    s: LedgerModel,
    t: Seq<UtxoModel>,
    c: CommandModel,
    p: PayloadModel,
)
    requires
        keys_distinct(s.utxos),
        outputs_step(s, t, c, p),
    ensures
        keys_distinct(t),
{
    if t == s.utxos {
    } else if one_changed(s.utxos, t) {
        assert forall|i: int, j: int|
            0 <= i < t.len() && 0 <= j < t.len() && i != j implies utxo_key(#[trigger] t[i])
            != utxo_key(#[trigger] t[j]) by {
            assert(utxo_key(s.utxos[i]) != utxo_key(s.utxos[j]));
        }
    } else if one_added(s.utxos, t) {
        let n = s.utxos.len() as int;
        assert forall|i: int, j: int|
            0 <= i < t.len() && 0 <= j < t.len() && i != j implies utxo_key(#[trigger] t[i])
            != utxo_key(#[trigger] t[j]) by {
            if i < n && j < n {
                assert(utxo_key(s.utxos[i]) != utxo_key(s.utxos[j]));
            } else if utxo_key(t[i]) == utxo_key(t[j]) {
                lemma_outpoint_text_injective(t[i].outpoint, t[j].outpoint);
                if i < n {
                    assert(s.utxos[i].outpoint != t.last().outpoint);
                } else {
                    assert(s.utxos[j].outpoint != t.last().outpoint);
                }
            }
        }
    } else {
        let r = p.reorg->Ok_0;
        lemma_reorg_keeps_keys_distinct(
            s.utxos,
            r.disconnected_txids,
            r.new_utxos,
            c.created_at_bucket,
        );
    }
}

proof fn lemma_with_new_keeps(
    s: Seq<UtxoModel>,
    fresh: Seq<UtxoModel>,
    bucket: Option<u64>,
    i: int,
)
    requires
        0 <= i < s.len(),
    ensures
        i < with_new(s, fresh, bucket).0.len(),
        with_new(s, fresh, bucket).0[i] == s[i],
    decreases fresh.len(),
{
    if fresh.len() > 0 {
        lemma_with_new_keeps(s, fresh.drop_last(), bucket, i);
    }
}

/// No command moves an output out of a terminal state, and none forgets an
/// output or changes its value or owner.
pub proof fn lemma_terminal_outputs_stay(s: LedgerModel, c: CommandModel, p: PayloadModel, i: int)
    requires
        0 <= i < s.utxos.len(),
    ensures
        i < transition(s, c, p).0.utxos.len(),
        state_terminal(s.utxos[i].state) ==> transition(s, c, p).0.utxos[i].state
            == s.utxos[i].state,
        transition(s, c, p).0.utxos[i].outpoint == s.utxos[i].outpoint,
        transition(s, c, p).0.utxos[i].value_sats == s.utxos[i].value_sats,
        transition(s, c, p).0.utxos[i].address == s.utxos[i].address,
{
    lemma_outputs_step(s, c, p);
    lemma_step_keeps_output(s, transition(s, c, p).0.utxos, c, p, i);
}

proof fn lemma_step_keeps_output(
    s: LedgerModel,
    t: Seq<UtxoModel>,
    c: CommandModel,
    p: PayloadModel,
    i: int,
)
    requires
        0 <= i < s.utxos.len(),
        outputs_step(s, t, c, p),
    ensures
        i < t.len(),
        state_terminal(s.utxos[i].state) ==> t[i].state == s.utxos[i].state,
        t[i].outpoint == s.utxos[i].outpoint,
        t[i].value_sats == s.utxos[i].value_sats,
        t[i].address == s.utxos[i].address,
{
    if t == s.utxos || one_changed(s.utxos, t) || one_added(s.utxos, t) {
    } else {
        let r = p.reorg->Ok_0;
        lemma_with_new_keeps(
            all_reorged(s.utxos, r.disconnected_txids),
            r.new_utxos,
            Some(c.created_at_bucket),
            i,
        );
    }
}

/// An output that is reserved cannot be reserved again.
pub proof fn lemma_reserved_outputs_are_refused(s: LedgerModel, c: CommandModel, p: PayloadModel)
    requires
        c.command_type == LedgerCommandType::ReserveUtxo,
        transition(s, c, p).1 is Ok,
    ensures
        transition(transition(s, c, p).0, c, p).1 == Err::<
            crate::ledger::state_machine::TransitionModel,
            ErrorModel,
        >(ErrorModel::UtxoAlreadyReserved { reserved_by: c.authorization_commitment }),
{
    let t = transition(s, c, p).0;
    let o = crate::ledger::chain::outpoint_parsed(c.partition_key)->Ok_0;
    let i = utxo_pos(s.utxos, o) as int;
    lemma_utxo_pos(s.utxos, o);
    lemma_pos_after_update(s.utxos, i, t.utxos[i], o);
    assert(t.utxos =~= s.utxos.update(i, t.utxos[i]));
}

proof fn lemma_pos_after_update(
    s: Seq<UtxoModel>,
    i: int,
    u: UtxoModel,
    o: crate::ledger::chain::OutPointModel,
)
    requires
        0 <= i < s.len(),
        u.outpoint == s[i].outpoint,
    ensures
        utxo_pos(s.update(i, u), o) == utxo_pos(s, o),
    decreases s.len(),
{
    let t = s.update(i, u);
    if s[0].outpoint != o {
        if i == 0 {
            assert(t.drop_first() =~= s.drop_first());
        } else {
            assert(t.drop_first() =~= s.drop_first().update(i - 1, u));
            lemma_pos_after_update(s.drop_first(), i - 1, u, o);
        }
    }
}

/// Releasing an output that was just reserved restores all outputs.
pub proof fn lemma_release_undoes_reservation(
    s: LedgerModel,
    c: CommandModel,
    d: CommandModel,
    p: PayloadModel,
)
    requires
        c.command_type == LedgerCommandType::ReserveUtxo,
        d.command_type == LedgerCommandType::ReleaseUtxo,
        d.partition_key == c.partition_key,
        transition(s, c, p).1 is Ok,
        utxo_target(s, c.partition_key) is Ok,
        s.utxos[utxo_target(s, c.partition_key)->Ok_0 as int].reserved_at_bucket is None,
    ensures
        transition(transition(s, c, p).0, d, p).1 is Ok,
        transition(transition(s, c, p).0, d, p).0.utxos == s.utxos,
{
    let t = transition(s, c, p).0;
    let o = crate::ledger::chain::outpoint_parsed(c.partition_key)->Ok_0;
    let i = utxo_pos(s.utxos, o) as int;
    lemma_utxo_pos(s.utxos, o);
    lemma_pos_after_update(s.utxos, i, t.utxos[i], o);
    assert(t.utxos =~= s.utxos.update(i, t.utxos[i]));
    assert(transition(t, d, p).0.utxos =~= s.utxos);
}

/// An intent is recorded once: consuming it again changes no intent, and
/// intents that were distinct stay distinct.
pub proof fn lemma_intents_are_consumed_once(s: LedgerModel, c: CommandModel, p: PayloadModel)
    requires
        c.command_type == LedgerCommandType::ConsumeIntent || c.command_type
            == LedgerCommandType::ExpireIntent,
    ensures
        transition(s, c, p).1 is Ok,
        transition(s, c, p).0.consumed_intents.contains(c.partition_key),
        transition(transition(s, c, p).0, c, p).0.consumed_intents == transition(
            s,
            c,
            p,
        ).0.consumed_intents,
        s.consumed_intents.no_duplicates() ==> transition(
            s,
            c,
            p,
        ).0.consumed_intents.no_duplicates(),
{
    let before = s.consumed_intents;
    let after = including(before, c.partition_key);
    if !before.contains(c.partition_key) {
        assert(after[before.len() as int] == c.partition_key);
        if before.no_duplicates() {
            assert forall|i: int, j: int|
                0 <= i < after.len() && 0 <= j < after.len() && i != j implies after[i]
                != after[j] by {
                if i < before.len() && j < before.len() {
                    assert(before[i] != before[j]);
                } else if i < before.len() {
                    assert(before.contains(before[i]));
                } else {
                    assert(before.contains(before[j]));
                }
            }
        }
    }
}

/// No command takes back a consumed intent.
pub proof fn lemma_consumed_intents_stay(
    s: LedgerModel,
    c: CommandModel,
    p: PayloadModel,
    intent: Seq<char>,
)
    requires
        s.consumed_intents.contains(intent),
    ensures
        transition(s, c, p).0.consumed_intents.contains(intent),
{
    let i = choose|i: int| 0 <= i < s.consumed_intents.len() && s.consumed_intents[i] == intent;
    assert(transition(s, c, p).0.consumed_intents[i] == intent);
}

proof fn lemma_without(s: Seq<Seq<char>>, x: Seq<char>)
    ensures
        !without(s, x).contains(x),
        forall|y: Seq<char>| y != x ==> (without(s, x).contains(y) <==> s.contains(y)),
        !s.contains(x) ==> without(s, x) == s,
    decreases s.len(),
{
    if s.len() > 0 {
        let t = s.drop_last();
        lemma_without(t, x);
        let r = without(s, x);
        assert(s =~= t.push(s.last()));
        assert forall|y: Seq<char>| s.contains(y) <==> t.contains(y) || y == s.last() by {
            if s.contains(y) {
                let i = choose|i: int| 0 <= i < s.len() && s[i] == y;
                if i < t.len() {
                    assert(t[i] == y);
                }
            }
            if t.contains(y) {
                let i = choose|i: int| 0 <= i < t.len() && t[i] == y;
                assert(s[i] == y);
            }
            assert(s[s.len() - 1] == s.last());
        }
        if s.last() != x {
            let w = without(t, x);
            assert(r == w.push(s.last()));
            assert forall|y: Seq<char>| r.contains(y) <==> w.contains(y) || y == s.last() by {
                if r.contains(y) {
                    let i = choose|i: int| 0 <= i < r.len() && r[i] == y;
                    if i < w.len() {
                        assert(w[i] == y);
                    }
                }
                if w.contains(y) {
                    let i = choose|i: int| 0 <= i < w.len() && w[i] == y;
                    assert(r[i] == y);
                }
                assert(r[r.len() - 1] == s.last());
            }
            if !s.contains(x) {
                assert(!t.contains(x));
                assert(r =~= s);
            }
        } else {
            assert(s.contains(x));
        }
    }
}

/// A node that was removed is no member, and no other node is touched.
pub proof fn lemma_removed_nodes_are_gone(
    s: LedgerModel,
    c: CommandModel,
    p: PayloadModel,
    other: Seq<char>,
)
    requires
        c.command_type == LedgerCommandType::RemoveNode,
        other != c.partition_key,
    ensures
        transition(s, c, p).1 is Ok,
        !transition(s, c, p).0.membership.nodes.contains(c.partition_key),
        transition(s, c, p).0.membership.nodes.contains(other) <==> s.membership.nodes.contains(
            other,
        ),
{
    lemma_without(s.membership.nodes, c.partition_key);
}

/// Removing a node that was just added restores the membership.
pub proof fn lemma_removal_undoes_addition(
    s: LedgerModel,
    c: CommandModel,
    d: CommandModel,
    p: PayloadModel,
)
    requires
        c.command_type == LedgerCommandType::AddObserverNode,
        d.command_type == LedgerCommandType::RemoveNode,
        d.partition_key == c.partition_key,
        !s.membership.nodes.contains(c.partition_key),
    ensures
        transition(s, c, p).0.membership.nodes.contains(c.partition_key),
        transition(transition(s, c, p).0, d, p).0.membership == s.membership,
{
    let key = c.partition_key;
    let t = transition(s, c, p).0.membership.nodes;
    assert(t == s.membership.nodes.push(key));
    assert(t[s.membership.nodes.len() as int] == key);
    assert(t.drop_last() =~= s.membership.nodes);
    lemma_without(s.membership.nodes, key);
}

proof fn lemma_account_at(s: Seq<AccountModel>, id: Seq<char>, i: int)
    requires
        ids_distinct(s),
        0 <= i < s.len(),
        s[i].account_id == id,
    ensures
        has_account(s, id),
        account_pos(s, id) == i,
        account_or_new(s, id) == s[i],
        forall|a: AccountModel| #[trigger] account_set(s, id, a) == s.update(i, a),
{
    lemma_account_pos(s, id);
    let k = account_pos(s, id) as int;
    if k < s.len() && k != i {
        assert(s[k].account_id != s[i].account_id);
    }
}

proof fn lemma_no_account(s: Seq<AccountModel>, id: Seq<char>)
    requires
        forall|j: int| 0 <= j < s.len() ==> (#[trigger] s[j]).account_id != id,
    ensures
        !has_account(s, id),
        account_pos(s, id) == s.len(),
        account_or_new(s, id) == new_account(id),
        forall|a: AccountModel| #[trigger] account_set(s, id, a) == s.push(a),
{
    lemma_account_pos(s, id);
    if has_account(s, id) {
        assert(s[account_pos(s, id) as int].account_id != id);
    }
    assert forall|a: AccountModel| #[trigger] account_set(s, id, a) == s.push(a) by {
        assert(account_set(s, id, a) =~= s.push(a));
    }
}

/// What an operation on an existing account does: it is accepted exactly when
/// the expected version, if any, is the current one and the balances allow it;
/// then exactly that account changes, by the amount, and nothing else does but
/// the version. A credit without an expected version adds nothing.
pub proof fn lemma_account_commands_are_exact(
    s: LedgerModel,
    c: CommandModel,
    p: PayloadModel,
    i: int,
    amount: u64,
)
    requires
        ids_distinct(s.accounts),
        0 <= i < s.accounts.len(),
        s.accounts[i].account_id == c.partition_key,
        s.accounts[i].version < u64::MAX,
        s.version < u64::MAX,
        c.authorization_commitment == decimal(amount as nat),
        c.command_type is CreditInternalBalance || c.command_type is DebitInternalBalance
            || c.command_type is ReserveBalance || c.command_type is ReleaseReservation,
    ensures
        ({
            let a = s.accounts[i];
            let t = transition(s, c, p);
            let b = t.0.accounts[i];
            let moved = if c.command_type is CreditInternalBalance && c.expected_version is None {
                0
            } else {
                amount as int
            };
            let current = c.expected_version is None || c.expected_version == Some(a.version);
            let allowed = match c.command_type {
                LedgerCommandType::CreditInternalBalance => a.available_sats + moved <= u64::MAX,
                LedgerCommandType::DebitInternalBalance => amount <= a.available_sats,
                LedgerCommandType::ReserveBalance => amount <= a.available_sats && a.reserved_sats
                    + amount <= u64::MAX,
                _ => amount <= a.reserved_sats && a.available_sats + amount <= u64::MAX,
            };
            &&& t.1 is Ok <==> current && allowed
            &&& !current ==> t.1->Err_0 == (ErrorModel::VersionConflict {
                account: c.partition_key,
                expected: c.expected_version->0,
                current: a.version,
            })
            &&& current && amount > a.available_sats && (c.command_type is DebitInternalBalance
                || c.command_type is ReserveBalance) ==> t.1->Err_0 == (
            ErrorModel::InsufficientFunds {
                account: c.partition_key,
                available: a.available_sats,
                needed: amount,
            })
            &&& t.1 is Ok ==> {
                &&& b.version == a.version + 1
                &&& b.available_sats == match c.command_type {
                    LedgerCommandType::CreditInternalBalance => a.available_sats + moved,
                    LedgerCommandType::ReleaseReservation => a.available_sats + amount,
                    _ => a.available_sats - amount,
                }
                &&& b.reserved_sats == match c.command_type {
                    LedgerCommandType::ReserveBalance => a.reserved_sats + amount,
                    LedgerCommandType::ReleaseReservation => a.reserved_sats - amount,
                    _ => a.reserved_sats as int,
                }
                &&& b.account_id == a.account_id
                &&& b.pending_incoming_sats == a.pending_incoming_sats
                &&& b.pending_outgoing_sats == a.pending_outgoing_sats
                &&& b.last_committed_sequence == a.last_committed_sequence
                &&& t.0.accounts == s.accounts.update(i, b)
                &&& t.0.version == s.version + 1
                &&& t.0.journal == s.journal && t.0.reservations == s.reservations
                &&& t.0.consumed_intents == s.consumed_intents
                &&& t.0.membership == s.membership && t.0.utxos == s.utxos
                &&& t.1->Ok_0.affected_accounts == seq![c.partition_key]
            }
            &&& t.1 is Err ==> t.0 == s
        }),
{
    lemma_account_at(s.accounts, c.partition_key, i);
    lemma_parse_decimal(amount as nat, u64::MAX as nat);
}

/// What an operation on an account that does not exist does: a credit that
/// expects version zero opens it with the amount, a debit or a reservation is a
/// conflict with version zero, and so is a release that expects a version.
pub proof fn lemma_account_commands_on_missing_accounts(
    s: LedgerModel,
    c: CommandModel,
    p: PayloadModel,
    amount: u64,
)
    requires
        forall|j: int|
            0 <= j < s.accounts.len() ==> (#[trigger] s.accounts[j]).account_id != c.partition_key,
        s.version < u64::MAX,
        c.authorization_commitment == decimal(amount as nat),
    ensures
        ({
            let t = transition(s, c, p);
            let conflict = ErrorModel::VersionConflict {
                account: c.partition_key,
                expected: match c.expected_version {
                    Some(v) => v,
                    None => 0,
                },
                current: 0,
            };
            &&& c.command_type is CreditInternalBalance && c.expected_version == Some(0u64) ==> {
                &&& t.1 is Ok
                &&& t.0.accounts.len() == s.accounts.len() + 1
                &&& t.0.accounts.drop_last() == s.accounts
                &&& t.0.accounts.last().account_id == c.partition_key
                &&& t.0.accounts.last().available_sats == amount
                &&& t.0.accounts.last().reserved_sats == 0
                &&& t.0.accounts.last().version == 1
                &&& t.0.utxos == s.utxos && t.0.consumed_intents == s.consumed_intents
                &&& t.0.membership == s.membership
            }
            &&& c.command_type is CreditInternalBalance && c.expected_version is Some
                && c.expected_version->0 != 0 ==> t.1->Err_0 == conflict && t.0 == s && t.1 is Err
            &&& c.command_type is DebitInternalBalance || c.command_type is ReserveBalance || (
            c.command_type is ReleaseReservation && c.expected_version is Some) ==> t.1->Err_0
                == conflict && t.0 == s && t.1 is Err
        }),
{
    lemma_no_account(s.accounts, c.partition_key);
    lemma_parse_decimal(amount as nat, u64::MAX as nat);
    let t = transition(s, c, p);
    if c.command_type is CreditInternalBalance && c.expected_version == Some(0u64) {
        assert(t.0.accounts.drop_last() =~= s.accounts);
    }
}

/// What a transfer between two existing accounts does: it is accepted exactly
/// when the source covers the amount and the destination can take it; then
/// exactly those two change, by the amount.
pub proof fn lemma_transfers_are_exact(
    s: LedgerModel,
    c: CommandModel,
    p: PayloadModel,
    i: int,
    j: int,
    amount: u64,
)
    requires
        ids_distinct(s.accounts),
        0 <= i < s.accounts.len(),
        0 <= j < s.accounts.len(),
        i != j,
        !s.accounts[i].account_id.contains('|'),
        c.partition_key == s.accounts[i].account_id + seq!['|'] + s.accounts[j].account_id,
        c.command_type is CommitInternalTransfer,
        c.authorization_commitment == decimal(amount as nat),
        s.accounts[i].version < u64::MAX,
        s.accounts[j].version < u64::MAX,
        s.version < u64::MAX,
    ensures
        ({
            let a = s.accounts[i];
            let b = s.accounts[j];
            let t = transition(s, c, p);
            &&& t.1 is Ok <==> amount <= a.available_sats && b.available_sats + amount <= u64::MAX
            &&& amount > a.available_sats ==> t.1->Err_0 == (ErrorModel::InsufficientFunds {
                account: a.account_id,
                available: a.available_sats,
                needed: amount,
            })
            &&& t.1 is Err ==> t.0 == s
            &&& t.1 is Ok ==> {
                let x = t.0.accounts[i];
                let y = t.0.accounts[j];
                &&& x.available_sats == a.available_sats - amount
                &&& y.available_sats == b.available_sats + amount
                &&& x.version == a.version + 1 && y.version == b.version + 1
                &&& x.account_id == a.account_id && y.account_id == b.account_id
                &&& x.reserved_sats == a.reserved_sats && y.reserved_sats == b.reserved_sats
                &&& x.pending_incoming_sats == a.pending_incoming_sats
                &&& y.pending_incoming_sats == b.pending_incoming_sats
                &&& x.pending_outgoing_sats == a.pending_outgoing_sats
                &&& y.pending_outgoing_sats == b.pending_outgoing_sats
                &&& t.0.accounts == s.accounts.update(i, x).update(j, y)
                &&& t.0.version == s.version + 1
                &&& t.0.journal == s.journal && t.0.reservations == s.reservations
                &&& t.0.consumed_intents == s.consumed_intents
                &&& t.0.membership == s.membership && t.0.utxos == s.utxos
                &&& t.1->Ok_0.affected_accounts == seq![a.account_id, b.account_id]
            }
        }),
{
    let source = s.accounts[i].account_id;
    let dest = s.accounts[j].account_id;
    let key = c.partition_key;
    lemma_split_at(source, '|', dest);
    lemma_parse_decimal(amount as nat, u64::MAX as nat);
    lemma_account_at(s.accounts, source, i);
    lemma_account_at(s.accounts, dest, j);
    let first = debit(s.accounts[i], amount).0;
    lemma_account_after_set(s.accounts, source, first, dest);
    let mid = s.accounts.update(i, first);
    assert(ids_distinct(mid)) by {
        assert forall|x: int, y: int|
            0 <= x < mid.len() && 0 <= y < mid.len() && x != y implies (#[trigger] mid[x]).account_id
            != (#[trigger] mid[y]).account_id by {
            assert(s.accounts[x].account_id != s.accounts[y].account_id);
        }
    }
    lemma_account_at(mid, dest, j);
}

/// A transfer whose key does not name two accounts is refused.
pub proof fn lemma_transfers_name_two_accounts(s: LedgerModel, c: CommandModel, p: PayloadModel)
    requires
        c.command_type is CommitInternalTransfer,
        !c.partition_key.contains('|'),
    ensures
        transition(s, c, p).1 is Err,
        transition(s, c, p).1->Err_0 is AtomicTransferFailed,
{
    lemma_first_index(c.partition_key, '|');
    match first_index(c.partition_key, '|') {
        Some(i) => {
            assert(c.partition_key.contains(c.partition_key[i as int]));
        },
        None => {},
    }
}

/// Whether no two outputs share an outpoint.
pub open spec fn outpoints_distinct(s: Seq<UtxoModel>) -> bool {
    forall|i: int, j: int|
        0 <= i < s.len() && 0 <= j < s.len() && i != j ==> (#[trigger] s[i]).outpoint != (
        #[trigger] s[j]).outpoint
}

proof fn lemma_utxo_at(s: Seq<UtxoModel>, i: int)
    requires
        outpoints_distinct(s),
        0 <= i < s.len(),
    ensures
        utxo_pos(s, s[i].outpoint) == i,
{
    lemma_utxo_pos(s, s[i].outpoint);
    let k = utxo_pos(s, s[i].outpoint) as int;
    if k < s.len() && k != i {
        assert(s[k].outpoint != s[i].outpoint);
    }
}

/// What a command on an output does, in terms of that output: when it is
/// accepted, and what it then becomes. Nothing else changes but the version.
pub proof fn lemma_output_commands_are_exact(
    s: LedgerModel,
    c: CommandModel,
    p: PayloadModel,
    i: int,
    height: u64,
)
    requires
        outpoints_distinct(s.utxos),
        0 <= i < s.utxos.len(),
        !s.utxos[i].outpoint.txid.contains(':'),
        c.partition_key == outpoint_text(s.utxos[i].outpoint),
        c.command_type is ConfirmUtxo ==> c.authorization_commitment == decimal(height as nat),
        c.command_type is ConfirmUtxo || c.command_type is MarkUtxoSpendable
            || c.command_type is ReserveUtxo || c.command_type is ReleaseUtxo
            || c.command_type is MarkUtxoSpent,
        s.version < u64::MAX,
    ensures
        ({
            let u = s.utxos[i];
            let t = transition(s, c, p);
            let v = t.0.utxos[i];
            &&& t.1 is Ok <==> match c.command_type {
                LedgerCommandType::ConfirmUtxo => u.state is InMempool,
                LedgerCommandType::MarkUtxoSpendable => u.state is Confirming,
                LedgerCommandType::ReserveUtxo => (u.state is Spendable
                    || u.state is FinalizedByPolicy) && u.reserved_by is None
                    && c.authorization_commitment.len() > 0,
                LedgerCommandType::ReleaseUtxo => u.reserved_by is Some,
                _ => u.state is Spendable,
            }
            &&& t.1 is Err ==> t.0 == s
            &&& c.command_type is ReserveUtxo && c.authorization_commitment.len() > 0 && (
            u.state is Spendable || u.state is FinalizedByPolicy) && u.reserved_by is Some
                ==> t.1->Err_0 == (ErrorModel::UtxoAlreadyReserved {
                reserved_by: u.reserved_by->0,
            })
            &&& t.1 is Ok ==> {
                &&& v.state == match c.command_type {
                    LedgerCommandType::ConfirmUtxo => OnchainState::Confirming,
                    LedgerCommandType::MarkUtxoSpendable => OnchainState::Spendable,
                    LedgerCommandType::MarkUtxoSpent => OnchainState::Spent,
                    _ => u.state,
                }
                &&& v.block_height == if c.command_type is ConfirmUtxo {
                    Some(height)
                } else {
                    u.block_height
                }
                &&& v.confirmed_at_bucket == if c.command_type is ConfirmUtxo {
                    Some(c.created_at_bucket)
                } else {
                    u.confirmed_at_bucket
                }
                &&& v.reserved_by == match c.command_type {
                    LedgerCommandType::ReserveUtxo => Some(c.authorization_commitment),
                    LedgerCommandType::ReleaseUtxo | LedgerCommandType::MarkUtxoSpent => None,
                    _ => u.reserved_by,
                }
                &&& v.reserved_at_bucket == match c.command_type {
                    LedgerCommandType::ReserveUtxo => Some(c.created_at_bucket),
                    LedgerCommandType::ReleaseUtxo | LedgerCommandType::MarkUtxoSpent => None,
                    _ => u.reserved_at_bucket,
                }
                &&& v.spent_at_bucket == if c.command_type is MarkUtxoSpent {
                    Some(c.created_at_bucket)
                } else {
                    u.spent_at_bucket
                }
                &&& v.spent_by_txid == if c.command_type is MarkUtxoSpent {
                    if c.authorization_commitment.len() == 0 {
                        None
                    } else {
                        Some(c.authorization_commitment)
                    }
                } else {
                    u.spent_by_txid
                }
                &&& v.outpoint == u.outpoint && v.value_sats == u.value_sats && v.address
                    == u.address && v.detected_at_bucket == u.detected_at_bucket
                &&& t.0.utxos == s.utxos.update(i, v)
                &&& t.0.version == s.version + 1
                &&& t.0.accounts == s.accounts && t.0.journal == s.journal && t.0.reservations
                    == s.reservations
                &&& t.0.consumed_intents == s.consumed_intents && t.0.membership == s.membership
                &&& t.1->Ok_0.affected_accounts == seq!["utxo"@]
            }
        }),
{
    let u = s.utxos[i];
    lemma_outpoint_round_trip(u.outpoint);
    lemma_utxo_at(s.utxos, i);
    lemma_parse_decimal(height as nat, u64::MAX as nat);
    let t = transition(s, c, p);
    if t.1 is Ok {
        assert(t.0.utxos =~= s.utxos.update(i, t.0.utxos[i]));
    }
}

/// A command on an output that is not there is refused as such.
pub proof fn lemma_missing_outputs_are_refused(
    s: LedgerModel,
    c: CommandModel,
    p: PayloadModel,
    o: OutPointModel,
)
    requires
        forall|j: int| 0 <= j < s.utxos.len() ==> (#[trigger] s.utxos[j]).outpoint != o,
        !o.txid.contains(':'),
        c.partition_key == outpoint_text(o),
        c.command_type is MarkUtxoSpendable || c.command_type is ReleaseUtxo
            || c.command_type is MarkUtxoSpent,
    ensures
        transition(s, c, p).1 is Err,
        transition(s, c, p).1->Err_0 == (ErrorModel::UtxoNotFound { txid: o.txid, vout: o.vout }),
        transition(s, c, p).0 == s,
{
    lemma_outpoint_round_trip(o);
    lemma_utxo_pos(s.utxos, o);
    let k = utxo_pos(s.utxos, o) as int;
    if k < s.utxos.len() {
        assert(s.utxos[k].outpoint != o);
    }
}

/// What the detection of an output does: it is accepted exactly when it has a
/// value and an address; an output that is new enters as seen, one that was
/// reorged is seen again, and any other stays as it is.
pub proof fn lemma_detection_is_exact(
    s: LedgerModel,
    c: CommandModel,
    p: PayloadModel,
    o: OutPointModel,
)
    requires
        !o.txid.contains(':'),
        c.partition_key == outpoint_text(o),
        c.command_type is DetectUtxo,
        s.version < u64::MAX,
    ensures
        ({
            let t = transition(s, c, p);
            let absent = forall|j: int|
                0 <= j < s.utxos.len() ==> (#[trigger] s.utxos[j]).outpoint != o;
            &&& t.1 is Ok <==> p.detect_utxo is Ok && p.detect_utxo->Ok_0.value_sats > 0
                && p.detect_utxo->Ok_0.address.len() > 0
            &&& t.1 is Err ==> t.0 == s
            &&& t.1 is Ok ==> {
                &&& t.0.accounts == s.accounts && t.0.consumed_intents == s.consumed_intents
                &&& t.0.membership == s.membership && t.0.reservations == s.reservations
                &&& t.0.journal == s.journal && t.0.version == s.version + 1
                &&& absent ==> {
                    let v = t.0.utxos.last();
                    &&& t.0.utxos == s.utxos.push(v)
                    &&& v.outpoint == o && v.state is Seen
                    &&& v.value_sats == p.detect_utxo->Ok_0.value_sats
                    &&& v.address == p.detect_utxo->Ok_0.address
                    &&& v.detected_at_bucket == c.created_at_bucket
                    &&& v.block_height is None && v.confirmed_at_bucket is None
                    &&& v.reserved_by is None && v.spent_at_bucket is None
                }
                &&& forall|i: int| #![trigger s.utxos[i]]
                    0 <= i < s.utxos.len() && s.utxos[i].outpoint == o && outpoints_distinct(s.utxos)
                        ==> {
                        let u = s.utxos[i];
                        &&& !(u.state is Reorged) ==> t.0.utxos == s.utxos
                        &&& u.state is Reorged ==> {
                            &&& t.0.utxos == s.utxos.update(i, t.0.utxos[i])
                            &&& t.0.utxos[i].state is Seen
                            &&& t.0.utxos[i].detected_at_bucket == c.created_at_bucket
                            &&& t.0.utxos[i].outpoint == o
                            &&& t.0.utxos[i].value_sats == u.value_sats
                            &&& t.0.utxos[i].address == u.address
                            &&& t.0.utxos[i].reserved_by == u.reserved_by
                        }
                    }
            }
        }),
{
    lemma_outpoint_round_trip(o);
    lemma_utxo_pos(s.utxos, o);
    let k = utxo_pos(s.utxos, o) as int;
    let t = transition(s, c, p);
    if t.1 is Ok {
        if k == s.utxos.len() {
            assert(t.0.utxos =~= s.utxos.push(t.0.utxos.last()));
        }
        assert forall|i: int| #![trigger s.utxos[i]]
            0 <= i < s.utxos.len() && s.utxos[i].outpoint == o && outpoints_distinct(s.utxos)
            implies k == i by {
            lemma_utxo_at(s.utxos, i);
        }
        if k < s.utxos.len() && s.utxos[k].state is Reorged {
            assert(t.0.utxos =~= s.utxos.update(k, t.0.utxos[k]));
        }
    }
}

/// A reorganisation that can be read is accepted: no output of a disconnected
/// transaction counts as being in a block afterwards, and the accounts are
/// untouched.
pub proof fn lemma_reorganizations_take_effect(
    s: LedgerModel,
    c: CommandModel,
    p: PayloadModel,
    j: int,
)
    requires
        c.command_type is ApplyChainReorganization,
    ensures
        ({
            let t = transition(s, c, p);
            let gone = p.reorg->Ok_0.disconnected_txids;
            &&& t.1 is Ok <==> p.reorg is Ok
            &&& t.1 is Ok ==> {
                &&& t.0.utxos.len() >= s.utxos.len()
                &&& t.0.accounts == s.accounts && t.0.consumed_intents == s.consumed_intents
                &&& t.0.membership == s.membership && t.0.reservations == s.reservations
                &&& 0 <= j < t.0.utxos.len() && gone.contains(t.0.utxos[j].outpoint.txid) ==> !(
                t.0.utxos[j].state is Confirming || t.0.utxos[j].state is Spendable
                    || t.0.utxos[j].state is FinalizedByPolicy)
                &&& 0 <= j < s.utxos.len() && !gone.contains(s.utxos[j].outpoint.txid)
                    ==> t.0.utxos[j] == s.utxos[j]
            }
        }),
{
    if p.reorg is Ok {
        let r = p.reorg->Ok_0;
        lemma_reorg_disconnects(s.utxos, r.disconnected_txids, r.new_utxos, c.created_at_bucket);
        assert(transition(s, c, p).0.utxos == with_new(
            all_reorged(s.utxos, r.disconnected_txids),
            r.new_utxos,
            Some(c.created_at_bucket),
        ).0);
        if 0 <= j < s.utxos.len() {
            assert(s.utxos[j] == s.utxos[j]);
        }
    }
}

/// Commands on intents, members, withdrawals and snapshots are always
/// accepted, and change what they are about and the version alone.
pub proof fn lemma_other_commands_are_exact(s: LedgerModel, c: CommandModel, p: PayloadModel)
    requires
        s.version < u64::MAX,
        c.command_type is PrepareWithdrawal || c.command_type is AuthorizeWithdrawal
            || c.command_type is BroadcastWithdrawal || c.command_type is ConfirmWithdrawal
            || c.command_type is FailWithdrawal || c.command_type is ConsumeIntent
            || c.command_type is ExpireIntent || c.command_type is AddObserverNode
            || c.command_type is PromoteVotingNode || c.command_type is RemoveNode
            || c.command_type is InstallSnapshot,
    ensures
        ({
            let t = transition(s, c, p);
            let intent = c.command_type is ConsumeIntent || c.command_type is ExpireIntent;
            let node = c.command_type is AddObserverNode || c.command_type is RemoveNode;
            &&& t.1 is Ok
            &&& t.0.version == s.version + 1
            &&& t.0.accounts == s.accounts && t.0.utxos == s.utxos && t.0.journal == s.journal
                && t.0.reservations == s.reservations
            &&& !intent ==> t.0.consumed_intents == s.consumed_intents
            &&& intent ==> t.0.consumed_intents == if s.consumed_intents.contains(
                c.partition_key,
            ) {
                s.consumed_intents
            } else {
                s.consumed_intents.push(c.partition_key)
            }
            &&& !node ==> t.0.membership == s.membership
            &&& t.0.membership.cluster_id == s.membership.cluster_id
            &&& t.0.membership.active_profile == s.membership.active_profile
            &&& c.command_type is AddObserverNode ==> t.0.membership.nodes
                == if s.membership.nodes.contains(c.partition_key) {
                s.membership.nodes
            } else {
                s.membership.nodes.push(c.partition_key)
            }
            &&& c.command_type is RemoveNode ==> !t.0.membership.nodes.contains(c.partition_key)
            &&& c.command_type is RemoveNode && !s.membership.nodes.contains(c.partition_key)
                ==> t.0.membership.nodes == s.membership.nodes
        }),
{
    lemma_without(s.membership.nodes, c.partition_key);
}

/// What a receipt tells: where in the order the command stands, which command
/// it was, and the roots before and after.
pub proof fn lemma_receipts_tell_the_transition(s: LedgerModel, c: CommandModel, p: PayloadModel)
    requires
        transition(s, c, p).1 is Ok,
    ensures
        transition(s, c, p).1->Ok_0.sequence == s.version,
        transition(s, c, p).1->Ok_0.command_hash == c.payload_hash,
        transition(s, c, p).1->Ok_0.previous_state_root == state_root(s),
        transition(s, c, p).1->Ok_0.resulting_state_root == state_root(transition(s, c, p).0),
{
}

/// A transfer to an account that does not exist opens it with the amount; it is
/// accepted exactly when the source covers the amount.
pub proof fn lemma_transfers_open_the_destination(
    s: LedgerModel,
    c: CommandModel,
    p: PayloadModel,
    i: int,
    dest: Seq<char>,
    amount: u64,
)
    requires
        ids_distinct(s.accounts),
        0 <= i < s.accounts.len(),
        forall|j: int| 0 <= j < s.accounts.len() ==> (#[trigger] s.accounts[j]).account_id != dest,
        !s.accounts[i].account_id.contains('|'),
        c.partition_key == s.accounts[i].account_id + seq!['|'] + dest,
        c.command_type is CommitInternalTransfer,
        c.authorization_commitment == decimal(amount as nat),
        s.accounts[i].version < u64::MAX,
        s.version < u64::MAX,
    ensures
        ({
            let a = s.accounts[i];
            let t = transition(s, c, p);
            &&& t.1 is Ok <==> amount <= a.available_sats
            &&& t.1 is Err ==> t.0 == s && t.1->Err_0 == (ErrorModel::InsufficientFunds {
                account: a.account_id,
                available: a.available_sats,
                needed: amount,
            })
            &&& t.1 is Ok ==> {
                let x = t.0.accounts[i];
                let y = t.0.accounts.last();
                &&& t.0.accounts == s.accounts.update(i, x).push(y)
                &&& x.available_sats == a.available_sats - amount
                &&& x.version == a.version + 1 && x.account_id == a.account_id
                &&& x.reserved_sats == a.reserved_sats
                &&& y.account_id == dest && y.available_sats == amount && y.reserved_sats == 0
                &&& y.version == 1
                &&& t.0.utxos == s.utxos && t.0.consumed_intents == s.consumed_intents
                &&& t.0.membership == s.membership
                &&& t.1->Ok_0.affected_accounts == seq![a.account_id, dest]
            }
        }),
{
    let source = s.accounts[i].account_id;
    lemma_split_at(source, '|', dest);
    lemma_parse_decimal(amount as nat, u64::MAX as nat);
    lemma_account_at(s.accounts, source, i);
    let first = debit(s.accounts[i], amount).0;
    let mid = s.accounts.update(i, first);
    assert forall|j: int| 0 <= j < mid.len() implies (#[trigger] mid[j]).account_id != dest by {
        assert(s.accounts[j].account_id != dest);
    }
    lemma_no_account(mid, dest);
    let t = transition(s, c, p);
    if t.1 is Ok {
        assert(account_set(s.accounts, source, first) == mid);
        let opened = credit(new_account(dest), amount).0;
        assert(account_set(mid, dest, opened) == mid.push(opened));
        assert(t.0.accounts == mid.push(opened));
        assert(t.0.accounts[i] == first);
    }
}

/// A transfer of something from an account that does not exist is refused for
/// want of funds.
pub proof fn lemma_transfers_need_the_source(
    s: LedgerModel,
    c: CommandModel,
    p: PayloadModel,
    source: Seq<char>,
    dest: Seq<char>,
    amount: u64,
)
    requires
        forall|j: int|
            0 <= j < s.accounts.len() ==> (#[trigger] s.accounts[j]).account_id != source,
        !source.contains('|'),
        c.partition_key == source + seq!['|'] + dest,
        c.command_type is CommitInternalTransfer,
        c.authorization_commitment == decimal(amount as nat),
        amount > 0,
    ensures
        transition(s, c, p) == (
            s,
            Err::<TransitionModel, ErrorModel>(
                ErrorModel::InsufficientFunds { account: source, available: 0, needed: amount },
            ),
        ),
{
    lemma_split_at(source, '|', dest);
    lemma_parse_decimal(amount as nat, u64::MAX as nat);
    lemma_no_account(s.accounts, source);
    assert(validated(s, c, p) is Ok);
    assert(split_once(c.partition_key, '|') == Some((source, dest)));
    assert(effect(s, c, p) == transfer_effect(s, source, dest, amount));
    assert(account_or_new(s.accounts, source) == new_account(source));
    assert(debit(new_account(source), amount).1 is Err);
}

/// A transfer from an account to itself is accepted exactly when it covers the
/// amount; its balances stay, and its version counts both sides.
pub proof fn lemma_transfers_to_self(
    s: LedgerModel,
    c: CommandModel,
    p: PayloadModel,
    i: int,
    amount: u64,
)
    requires
        ids_distinct(s.accounts),
        0 <= i < s.accounts.len(),
        !s.accounts[i].account_id.contains('|'),
        c.partition_key == s.accounts[i].account_id + seq!['|'] + s.accounts[i].account_id,
        c.command_type is CommitInternalTransfer,
        c.authorization_commitment == decimal(amount as nat),
        s.accounts[i].version < u64::MAX - 1,
        s.version < u64::MAX,
    ensures
        ({
            let a = s.accounts[i];
            let t = transition(s, c, p);
            &&& t.1 is Ok <==> amount <= a.available_sats
            &&& t.1 is Err ==> t.0 == s
            &&& t.1 is Ok ==> {
                let x = t.0.accounts[i];
                &&& t.0.accounts == s.accounts.update(i, x)
                &&& x.version == a.version + 2
                &&& (AccountModel { version: a.version, ..x }) == a
            }
        }),
{
    let id = s.accounts[i].account_id;
    lemma_split_at(id, '|', id);
    lemma_parse_decimal(amount as nat, u64::MAX as nat);
    lemma_account_at(s.accounts, id, i);
    let first = debit(s.accounts[i], amount).0;
    let mid = s.accounts.update(i, first);
    assert(ids_distinct(mid)) by {
        assert forall|x: int, y: int|
            0 <= x < mid.len() && 0 <= y < mid.len() && x != y implies (#[trigger] mid[x]).account_id
            != (#[trigger] mid[y]).account_id by {
            assert(s.accounts[x].account_id != s.accounts[y].account_id);
        }
    }
    lemma_account_at(mid, id, i);
    let t = transition(s, c, p);
    if t.1 is Ok {
        let second = credit(first, amount).0;
        assert(t.0.accounts == mid.update(i, second));
        assert(t.0.accounts =~= s.accounts.update(i, t.0.accounts[i]));
    }
}

/// An amount that spells no number counts as zero.
pub proof fn lemma_unreadable_amounts_are_zero(s: LedgerModel, c: CommandModel, p: PayloadModel)
    requires
        parse_unsigned(c.authorization_commitment, u64::MAX as nat) is None,
        c.command_type is CreditInternalBalance || c.command_type is DebitInternalBalance
            || c.command_type is ReserveBalance || c.command_type is ReleaseReservation
            || c.command_type is CommitInternalTransfer,
    ensures
        transition(s, c, p) == transition(
            s,
            CommandModel { authorization_commitment: decimal(0), ..c },
            p,
        ),
{
    lemma_parse_decimal(0, u64::MAX as nat);
    let d = CommandModel { authorization_commitment: decimal(0), ..c };
    assert(amount_of(c.authorization_commitment) == 0);
    assert(amount_of(d.authorization_commitment) == 0);
    assert(credit_amount(c) == credit_amount(d));
    assert(validated(s, c, p) == validated(s, d, p));
    assert(effect(s, c, p) == effect(s, d, p));
}

/// A release that expects no version finds nothing to release in an account
/// that does not exist, and a credit that expects none opens an empty one.
pub proof fn lemma_unversioned_commands_on_missing_accounts(
    s: LedgerModel,
    c: CommandModel,
    p: PayloadModel,
    amount: u64,
)
    requires
        forall|j: int|
            0 <= j < s.accounts.len() ==> (#[trigger] s.accounts[j]).account_id != c.partition_key,
        s.version < u64::MAX,
        c.authorization_commitment == decimal(amount as nat),
        c.expected_version is None,
    ensures
        ({
            let t = transition(s, c, p);
            &&& c.command_type is ReleaseReservation && amount > 0 ==> t.1 is Err && t.0 == s
            &&& c.command_type is CreditInternalBalance ==> {
                &&& t.1 is Ok
                &&& t.0.accounts.len() == s.accounts.len() + 1
                &&& t.0.accounts.drop_last() == s.accounts
                &&& t.0.accounts.last().account_id == c.partition_key
                &&& t.0.accounts.last().available_sats == 0
                &&& t.0.accounts.last().version == 1
            }
        }),
{
    lemma_no_account(s.accounts, c.partition_key);
    lemma_parse_decimal(amount as nat, u64::MAX as nat);
    let t = transition(s, c, p);
    if c.command_type is CreditInternalBalance {
        assert(t.0.accounts.drop_last() =~= s.accounts);
    }
}

/// A confirmation needs a block height: text that spells none is refused.
pub proof fn lemma_confirmations_need_a_height(s: LedgerModel, c: CommandModel, p: PayloadModel)
    requires
        c.command_type is ConfirmUtxo,
        parse_unsigned(c.authorization_commitment, u64::MAX as nat) is None,
    ensures
        transition(s, c, p).1 is Err,
        transition(s, c, p).0 == s,
        transition(s, c, p).1->Err_0 is InvalidUtxoData,
{
}

/// What a reorganisation brings: every new output is there afterwards, and each
/// that was not there enters as seen, at the time of the command, with the
/// value and the address that it was given; each that was disconnected is
/// reorged and out of its block.
pub proof fn lemma_reorganizations_bring_outputs(
    s: LedgerModel,
    c: CommandModel,
    p: PayloadModel,
    j: int,
    f: int,
)
    requires
        c.command_type is ApplyChainReorganization,
        p.reorg is Ok,
        s.version < u64::MAX,
    ensures
        ({
            let t = transition(s, c, p).0;
            let gone = p.reorg->Ok_0.disconnected_txids;
            let fresh = p.reorg->Ok_0.new_utxos;
            &&& 0 <= f < fresh.len() ==> exists|k: int|
                0 <= k < t.utxos.len() && outpoint_text((#[trigger] t.utxos[k]).outpoint)
                    == outpoint_text(fresh[f].outpoint)
            &&& s.utxos.len() <= j < t.utxos.len() ==> {
                &&& t.utxos[j].state is Seen
                &&& t.utxos[j].detected_at_bucket == c.created_at_bucket
                &&& exists|k: int| #![trigger fresh[k]]
                    0 <= k < fresh.len() && t.utxos[j].outpoint == fresh[k].outpoint
                        && t.utxos[j].value_sats == fresh[k].value_sats && t.utxos[j].address
                        == fresh[k].address
            }
            &&& 0 <= j < s.utxos.len() && gone.contains(s.utxos[j].outpoint.txid) && (
            s.utxos[j].state is Confirming || s.utxos[j].state is Spendable
                || s.utxos[j].state is FinalizedByPolicy) ==> {
                &&& t.utxos[j].state is Reorged
                &&& t.utxos[j].block_height is None
                &&& t.utxos[j].confirmed_at_bucket is None
                &&& t.utxos[j].value_sats == s.utxos[j].value_sats
                &&& t.utxos[j].outpoint == s.utxos[j].outpoint
            }
            &&& t.version == s.version + 1 && t.journal == s.journal
        }),
{
    let r = p.reorg->Ok_0;
    let t = transition(s, c, p).0;
    let start = all_reorged(s.utxos, r.disconnected_txids);
    lemma_outputs_enter(start, r.new_utxos, Some(c.created_at_bucket));
    lemma_reorg_disconnects(s.utxos, r.disconnected_txids, r.new_utxos, c.created_at_bucket);
    assert(t.utxos == with_new(start, r.new_utxos, Some(c.created_at_bucket)).0);
    assert(start.len() == s.utxos.len());
    if 0 <= f < r.new_utxos.len() {
        let key = utxo_key(r.new_utxos[f]);
        let k = choose|k: int| 0 <= k < t.utxos.len() && utxo_key(#[trigger] t.utxos[k]) == key;
        assert(outpoint_text(t.utxos[k].outpoint) == outpoint_text(r.new_utxos[f].outpoint));
    }
    if s.utxos.len() <= j < t.utxos.len() {
        let x = t.utxos[j];
        assert(x == t.utxos[j]);
    }
    if 0 <= j < s.utxos.len() {
        assert(s.utxos[j] == s.utxos[j]);
    }
}

/// A receipt names what was touched: the account or intent of the command, or
/// the outputs, the membership or the snapshot.
pub proof fn lemma_receipts_name_what_was_touched(s: LedgerModel, c: CommandModel, p: PayloadModel)
    requires
        transition(s, c, p).1 is Ok,
    ensures
        ({
            let touched = transition(s, c, p).1->Ok_0.affected_accounts;
            match c.command_type {
                LedgerCommandType::CommitInternalTransfer => touched.len() == 2
                    && c.partition_key == touched[0] + seq!['|'] + touched[1]
                    && !touched[0].contains('|'),
                LedgerCommandType::DetectUtxo
                | LedgerCommandType::ConfirmUtxo
                | LedgerCommandType::MarkUtxoSpendable
                | LedgerCommandType::ReserveUtxo
                | LedgerCommandType::ReleaseUtxo
                | LedgerCommandType::MarkUtxoSpent
                | LedgerCommandType::ApplyChainReorganization => touched == seq!["utxo"@],
                LedgerCommandType::AddObserverNode
                | LedgerCommandType::PromoteVotingNode
                | LedgerCommandType::RemoveNode => touched == seq!["membership"@],
                LedgerCommandType::InstallSnapshot => touched == seq!["snapshot"@],
                _ => touched == seq![c.partition_key],
            }
        }),
{
    let key = c.partition_key;
    if c.command_type is CommitInternalTransfer {
        lemma_first_index(key, '|');
        let i = first_index(key, '|')->0 as int;
        let (source, dest) = split_once(key, '|')->0;
        assert(key =~= source + seq!['|'] + dest);
        assert(!source.contains('|'));
    }
}

} // verus!
