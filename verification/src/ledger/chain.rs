//! Unspent transaction outputs and their life on the chain.

use crate::codec::{encodable, flat, lemma_option_string_bytes_delimited, lemma_option_u64_bytes_delimited,
    lemma_regrouped, lemma_same_split, lemma_sorted_bytes_forget_order, lemma_string_bytes_delimited,
    lemma_u64_bytes_delimited, option_encodable, option_string_bytes, option_u64_bytes, put_option_string, put_option_u64, put_sorted, put_string, put_text, put_u64, put_u8,
    sorted_bytes, string_bytes, u64_bytes, utf8};
use crate::digest::{is_digest_text, sha256, sha256_digest, sha256_hex, sha256_text};
use crate::ledger::error::{outcome, ErrorModel, LedgerError};
use crate::order::{byte_ranking, bytes_rank, lemma_stable_sorted, lex_le, models, stable_sorted};
use crate::text::{clone_option, decimal, fault_text, lemma_decimal_injective, lemma_decimal_round_trip, lemma_first_index_is, lemma_parse_decimal,
    numeral_fault, option_text, parse_u32, parse_unsigned, split_at_first, split_once, str_eq, texts,
    u64_text};
use vstd::prelude::*;

verus! {

/// States in the on-chain life of an output.
#[derive(Debug, Clone, Copy, PartialEq, Eq, Hash, Structural)]
pub enum OnchainState {
    /// Transaction first seen (mempool or block notification).
    Seen,
    /// In mempool, not yet in a block.
    InMempool,
    /// In a block, awaiting sufficient confirmations.
    Confirming,
    /// Sufficient confirmations: can be spent.
    Spendable,
    /// Reached policy-final depth.
    FinalizedByPolicy,
    /// Transaction was replaced (replace-by-fee).
    Replaced,
    /// Block was disconnected by a chain reorganisation.
    Reorged,
    /// Output has been spent.
    Spent,
}

/// The name of a variant.
pub open spec fn onchain_name(v: OnchainState) -> Seq<char> {
    match v {
        OnchainState::Seen => "Seen"@,
        OnchainState::InMempool => "InMempool"@,
        OnchainState::Confirming => "Confirming"@,
        OnchainState::Spendable => "Spendable"@,
        OnchainState::FinalizedByPolicy => "FinalizedByPolicy"@,
        OnchainState::Replaced => "Replaced"@,
        OnchainState::Reorged => "Reorged"@,
        OnchainState::Spent => "Spent"@,
    }
}

impl OnchainState {
    /// The name of this variant.
    pub fn name(&self) -> (r: &'static str)
        ensures
            r@ == onchain_name(*self),
    {
        match self {
            OnchainState::Seen => "Seen",
            OnchainState::InMempool => "InMempool",
            OnchainState::Confirming => "Confirming",
            OnchainState::Spendable => "Spendable",
            OnchainState::FinalizedByPolicy => "FinalizedByPolicy",
            OnchainState::Replaced => "Replaced",
            OnchainState::Reorged => "Reorged",
            OnchainState::Spent => "Spent",
        }
    }
}

/// The transitions that an output may take.
pub open spec fn transition_allowed(current: OnchainState, target: OnchainState) -> bool {
    match (current, target) {
        (OnchainState::Seen, OnchainState::InMempool) => true,
        (OnchainState::InMempool, OnchainState::Seen) => true,
        (OnchainState::Seen, OnchainState::Replaced) => true,
        (OnchainState::InMempool, OnchainState::Confirming) => true,
        (OnchainState::InMempool, OnchainState::Replaced) => true,
        (OnchainState::Confirming, OnchainState::Spendable) => true,
        (OnchainState::Confirming, OnchainState::Reorged) => true,
        (OnchainState::Spendable, OnchainState::FinalizedByPolicy) => true,
        (OnchainState::Spendable, OnchainState::Spent) => true,
        (OnchainState::Reorged, OnchainState::Seen) => true,
        _ => false,
    }
}

/// The outcome of asking for a transition.
pub open spec fn transition_checked(current: OnchainState, target: OnchainState) -> Result<
    (),
    ErrorModel,
> {
    if transition_allowed(current, target) {
        Ok(())
    } else {
        Err(ErrorModel::InvalidUtxoTransition { from: current, to: target })
    }
}

/// Whether an output in this state can no longer change.
pub open spec fn state_terminal(s: OnchainState) -> bool {
    s == OnchainState::Replaced || s == OnchainState::Spent
}

/// Whether an output in this state may be reserved and spent.
pub open spec fn state_spendable(s: OnchainState) -> bool {
    s == OnchainState::Spendable || s == OnchainState::FinalizedByPolicy
}

/// Validates transitions of outputs.
pub struct UtxoTransitionGate;

impl UtxoTransitionGate {
    /// Refuses every transition that is not allowed.
    pub fn validate_transition(current: OnchainState, target: OnchainState) -> (r: Result<
        (),
        LedgerError,
    >)
        ensures
            outcome(r) == transition_checked(current, target),
    {
        let allowed = match (current, target) {
            (OnchainState::Seen, OnchainState::InMempool) => true,
            (OnchainState::InMempool, OnchainState::Seen) => true,
            (OnchainState::Seen, OnchainState::Replaced) => true,
            (OnchainState::InMempool, OnchainState::Confirming) => true,
            (OnchainState::InMempool, OnchainState::Replaced) => true,
            (OnchainState::Confirming, OnchainState::Spendable) => true,
            (OnchainState::Confirming, OnchainState::Reorged) => true,
            (OnchainState::Spendable, OnchainState::FinalizedByPolicy) => true,
            (OnchainState::Spendable, OnchainState::Spent) => true,
            (OnchainState::Reorged, OnchainState::Seen) => true,
            _ => false,
        };
        if !allowed {
            return Err(LedgerError::InvalidUtxoTransition { from: current, to: target });
        }
        Ok(())
    }
}

/// No transition leaves a terminal state, and none keeps the state.
pub proof fn lemma_terminal_states_are_final(current: OnchainState, target: OnchainState)
    ensures
        state_terminal(current) ==> !transition_allowed(current, target),
        !transition_allowed(current, current),
{
}

/// An output is spent only out of the spendable state.
pub proof fn lemma_spent_only_from_spendable(current: OnchainState)
    requires
        transition_allowed(current, OnchainState::Spent),
    ensures
        current == OnchainState::Spendable,
{
}

/// Identifies an output by transaction and index.
#[derive(Debug, PartialEq, Eq, Hash)]
pub struct OutPoint {
    pub txid: String,
    pub vout: u32,
}

/// An outpoint with its transaction identifier as a sequence of characters.
pub struct OutPointModel {
    pub txid: Seq<char>,
    pub vout: u32,
}

impl View for OutPoint {
    type V = OutPointModel;

    open spec fn view(&self) -> OutPointModel {
        OutPointModel { txid: self.txid@, vout: self.vout }
    }
}

impl Clone for OutPoint {
    fn clone(&self) -> (r: Self)
        ensures
            r == *self,
    {
        OutPoint { txid: self.txid.clone(), vout: self.vout }
    }
}

/// The canonical key of an outpoint: `txid:vout`.
pub open spec fn outpoint_text(o: OutPointModel) -> Seq<char> {
    o.txid + ":"@ + decimal(o.vout as nat)
}

/// What the canonical key of an outpoint reads as: the first colon divides
/// transaction and index.
pub open spec fn outpoint_parsed(s: Seq<char>) -> Result<OutPointModel, ErrorModel> {
    match split_once(s, ':') {
        None => Err(
            ErrorModel::InvalidUtxoData(
                "cannot parse outpoint from \'"@ + s + "\': expected txid:vout"@,
            ),
        ),
        Some((txid, index)) => match parse_unsigned(index, u32::MAX as nat) {
            Some(vout) => Ok(OutPointModel { txid, vout: vout as u32 }),
            None => Err(
                ErrorModel::InvalidUtxoData(
                    "invalid vout \'"@ + index + "\': "@ + fault_text(
                        numeral_fault(index, u32::MAX as nat),
                    ),
                ),
            ),
        },
    }
}

impl OutPoint {
    /// An outpoint.
    pub fn new(txid: &str, vout: u32) -> (r: Self)
        ensures
            r@ == (OutPointModel { txid: txid@, vout }),
    {
        OutPoint { txid: txid.to_owned(), vout }
    }

    /// The canonical key: `txid:vout`.
    pub fn to_canonical_string(&self) -> (r: String)
        ensures
            r@ == outpoint_text(self@),
    {
        let mut s = self.txid.clone();
        s.append(":");
        let index = u64_text(self.vout as u64);
        s.append(index.as_str());
        s
    }

    /// Reads an outpoint from its canonical key.
    pub fn from_canonical_string(s: &str) -> (r: Result<Self, LedgerError>)
        ensures
            match r {
                Ok(o) => outpoint_parsed(s@) == Ok::<OutPointModel, ErrorModel>(o@),
                Err(e) => outpoint_parsed(s@) == Err::<OutPointModel, ErrorModel>(e@),
            },
    {
        match split_at_first(s, ':') {
            None => {
                let mut m = "cannot parse outpoint from '".to_owned();
                m.append(s);
                m.append("': expected txid:vout");
                Err(LedgerError::InvalidUtxoData(m))
            },
            Some((txid, index)) => match parse_u32(index) {
                Ok(vout) => Ok(OutPoint::new(txid, vout)),
                Err(fault) => {
                    let mut m = "invalid vout '".to_owned();
                    m.append(index);
                    m.append("': ");
                    let detail = fault.describe();
                    m.append(detail.as_str());
                    Err(LedgerError::InvalidUtxoData(m))
                },
            },
        }
    }

    /// Whether two outpoints are the same.
    pub fn same(&self, other: &OutPoint) -> (r: bool)
        ensures
            r == (self@ == other@),
    {
        self.vout == other.vout && str_eq(self.txid.as_str(), other.txid.as_str())
    }
}

/// An outpoint whose transaction identifier holds no colon is read back from
/// its canonical key.
pub proof fn lemma_outpoint_round_trip(o: OutPointModel)
    requires
        !o.txid.contains(':'),
    ensures
        outpoint_parsed(outpoint_text(o)) == Ok::<OutPointModel, ErrorModel>(o),
{
    reveal_strlit(":");
    let s = outpoint_text(o);
    let n = o.txid.len();
    assert(s[n as int] == ':');
    assert forall|j: int| 0 <= j < n implies s[j] != ':' by {
        assert(s[j] == o.txid[j]);
        assert(o.txid.contains(o.txid[j]));
    }
    lemma_first_index_is(s, ':', n);
    assert(s.take(n as int) =~= o.txid);
    assert(s.skip(n as int + 1) =~= decimal(o.vout as nat));
    lemma_parse_decimal(o.vout as nat, u32::MAX as nat);
}

/// Different outpoints have different canonical keys.
pub proof fn lemma_outpoint_text_injective(a: OutPointModel, b: OutPointModel)
    requires
        outpoint_text(a) == outpoint_text(b),
    ensures
        a == b,
{
    reveal_strlit(":");
    let s = outpoint_text(a);
    let t = outpoint_text(b);
    let da = decimal(a.vout as nat);
    let db = decimal(b.vout as nat);
    lemma_decimal_round_trip(a.vout as nat);
    lemma_decimal_round_trip(b.vout as nat);
    let i = a.txid.len() as int;
    let j = b.txid.len() as int;
    assert(s[i] == ':' && t[j] == ':');
    assert(s.len() == i + 1 + da.len());
    assert(t.len() == j + 1 + db.len());
    if i < j {
        assert(s[j] == da[j - i - 1]);
        assert(crate::text::is_digit(da[j - i - 1]));
    } else if j < i {
        assert(t[i] == db[i - j - 1]);
        assert(crate::text::is_digit(db[i - j - 1]));
    }
    assert(a.txid =~= s.take(i));
    assert(b.txid =~= t.take(j));
    assert(da =~= s.skip(i + 1));
    assert(db =~= t.skip(j + 1));
    lemma_decimal_injective(a.vout as nat, b.vout as nat);
}

/// A single output tracked by the ledger.
#[derive(Debug, PartialEq, Eq)]
pub struct UtxoEntry {
    /// The outpoint identifying this output.
    pub outpoint: OutPoint,
    /// Value in satoshis.
    pub value_sats: u64,
    /// The address (or script) that owns this output.
    pub address: String,
    /// Current on-chain state.
    pub state: OnchainState,
    /// Block height where this output was confirmed.
    pub block_height: Option<u64>,
    /// Time bucket when this output was first detected.
    pub detected_at_bucket: u64,
    /// Time bucket when this output reached the confirming state.
    pub confirmed_at_bucket: Option<u64>,
    /// Intent or command that reserved this output.
    pub reserved_by: Option<String>,
    /// Time bucket when this output was reserved.
    pub reserved_at_bucket: Option<u64>,
    /// Time bucket when this output was spent.
    pub spent_at_bucket: Option<u64>,
    /// Transaction that spent this output.
    pub spent_by_txid: Option<String>,
}

/// An output with its texts as sequences of characters.
pub struct UtxoModel {
    pub outpoint: OutPointModel,
    pub value_sats: u64,
    pub address: Seq<char>,
    pub state: OnchainState,
    pub block_height: Option<u64>,
    pub detected_at_bucket: u64,
    pub confirmed_at_bucket: Option<u64>,
    pub reserved_by: Option<Seq<char>>,
    pub reserved_at_bucket: Option<u64>,
    pub spent_at_bucket: Option<u64>,
    pub spent_by_txid: Option<Seq<char>>,
}

impl View for UtxoEntry {
    type V = UtxoModel;

    open spec fn view(&self) -> UtxoModel {
        UtxoModel {
            outpoint: self.outpoint@,
            value_sats: self.value_sats,
            address: self.address@,
            state: self.state,
            block_height: self.block_height,
            detected_at_bucket: self.detected_at_bucket,
            confirmed_at_bucket: self.confirmed_at_bucket,
            reserved_by: option_text(self.reserved_by),
            reserved_at_bucket: self.reserved_at_bucket,
            spent_at_bucket: self.spent_at_bucket,
            spent_by_txid: option_text(self.spent_by_txid),
        }
    }
}

/// What a sequence of outputs stands for.
pub open spec fn utxo_models(s: Seq<UtxoEntry>) -> Seq<UtxoModel> {
    Seq::new(s.len(), |i: int| s[i]@)
}

impl Clone for UtxoEntry {
    fn clone(&self) -> (r: Self)
        ensures
            r == *self,
    {
        UtxoEntry {
            outpoint: self.outpoint.clone(),
            value_sats: self.value_sats,
            address: self.address.clone(),
            state: self.state,
            block_height: self.block_height,
            detected_at_bucket: self.detected_at_bucket,
            confirmed_at_bucket: self.confirmed_at_bucket,
            reserved_by: clone_option(&self.reserved_by),
            reserved_at_bucket: self.reserved_at_bucket,
            spent_at_bucket: self.spent_at_bucket,
            spent_by_txid: clone_option(&self.spent_by_txid),
        }
    }
}

/// A newly seen output.
pub open spec fn seen_utxo(
    outpoint: OutPointModel,
    value_sats: u64,
    address: Seq<char>,
    bucket: u64,
) -> UtxoModel {
    UtxoModel {
        outpoint,
        value_sats,
        address,
        state: OnchainState::Seen,
        block_height: None,
        detected_at_bucket: bucket,
        confirmed_at_bucket: None,
        reserved_by: None,
        reserved_at_bucket: None,
        spent_at_bucket: None,
        spent_by_txid: None,
    }
}

/// The canonical key of an output.
pub open spec fn utxo_key(u: UtxoModel) -> Seq<char> {
    outpoint_text(u.outpoint)
}

impl UtxoEntry {
    /// A new entry in the `Seen` state.
    pub fn new_seen(
        outpoint: OutPoint,
        value_sats: u64,
        address: &str,
        detected_at_bucket: u64,
    ) -> (r: Self)
        ensures
            r@ == seen_utxo(outpoint@, value_sats, address@, detected_at_bucket),
    {
        UtxoEntry {
            outpoint,
            value_sats,
            address: address.to_owned(),
            state: OnchainState::Seen,
            block_height: None,
            detected_at_bucket,
            confirmed_at_bucket: None,
            reserved_by: None,
            reserved_at_bucket: None,
            spent_at_bucket: None,
            spent_by_txid: None,
        }
    }

    /// The canonical outpoint key.
    pub fn canonical_key(&self) -> (r: String)
        ensures
            r@ == utxo_key(self@),
    {
        self.outpoint.to_canonical_string()
    }

    /// Whether the output is replaced or spent.
    pub fn is_terminal(&self) -> (r: bool)
        ensures
            r == state_terminal(self.state),
    {
        self.state == OnchainState::Replaced || self.state == OnchainState::Spent
    }

    /// Whether the output can be reserved.
    pub fn is_available(&self) -> (r: bool)
        ensures
            r == (state_spendable(self.state) && self.reserved_by is None),
    {
        (self.state == OnchainState::Spendable || self.state == OnchainState::FinalizedByPolicy)
            && self.reserved_by.is_none()
    }
}

/// Types of observations a chain observer can make.
#[derive(Debug, Clone, Copy, PartialEq, Eq, Hash, Structural)]
pub enum ChainObservationType {
    TransactionSeen,
    TransactionReplaced,
    UtxoDetected,
    UtxoConfirmed,
    UtxoSpent,
    BlockDisconnected,
    ChainReorganization,
}

/// A single observation of the chain.
#[derive(Debug, PartialEq, Eq)]
pub struct Observation {
    pub observation_id: String,
    pub observation_type: ChainObservationType,
    pub outpoint: OutPoint,
    pub value_sats: u64,
    pub address: String,
    pub block_height: Option<u64>,
    pub detected_at_bucket: u64,
}

/// Payload of a command that detects an output.
#[derive(Debug)]
pub struct DetectUtxoPayload {
    pub value_sats: u64,
    pub address: String,
}

/// Payload of a command that applies a chain reorganisation.
#[derive(Debug)]
pub struct ReorgPayload {
    pub disconnected_txids: Vec<String>,
    pub new_utxos: Vec<UtxoEntry>,
}

/// Whether some output has the given canonical key.
pub open spec fn has_key(s: Seq<UtxoModel>, key: Seq<char>) -> bool {
    exists|i: int| 0 <= i < s.len() && utxo_key(#[trigger] s[i]) == key
}

/// Whether an output loses its place in the chain with its transaction.
pub open spec fn disconnected(u: UtxoModel, gone: Seq<Seq<char>>) -> bool {
    gone.contains(u.outpoint.txid) && (u.state == OnchainState::Confirming || u.state
        == OnchainState::Spendable || u.state == OnchainState::FinalizedByPolicy)
}

/// An output after its transaction was disconnected, or unchanged.
pub open spec fn reorged(u: UtxoModel, gone: Seq<Seq<char>>) -> UtxoModel {
    if disconnected(u, gone) {
        UtxoModel {
            state: OnchainState::Reorged,
            block_height: None,
            confirmed_at_bucket: None,
            ..u
        }
    } else {
        u
    }
}

/// All outputs after transactions were disconnected.
pub open spec fn all_reorged(s: Seq<UtxoModel>, gone: Seq<Seq<char>>) -> Seq<UtxoModel> {
    Seq::new(s.len(), |i: int| reorged(s[i], gone))
}

/// The keys of the outputs that were disconnected, in their order.
pub open spec fn disconnected_keys(s: Seq<UtxoModel>, gone: Seq<Seq<char>>) -> Seq<Seq<char>>
    decreases s.len(),
{
    if s.len() == 0 {
        Seq::empty()
    } else {
        let before = disconnected_keys(s.drop_last(), gone);
        if disconnected(s.last(), gone) {
            before.push(utxo_key(s.last()))
        } else {
            before
        }
    }
}

/// A new output as it enters the ledger: seen, and detected at the bucket
/// where one is given.
pub open spec fn entering(u: UtxoModel, bucket: Option<u64>) -> UtxoModel {
    UtxoModel {
        state: OnchainState::Seen,
        detected_at_bucket: match bucket {
            Some(b) => b,
            None => u.detected_at_bucket,
        },
        ..u
    }
}

/// The outputs after new ones have entered, each unless its key is already
/// present; and the keys that entered.
pub open spec fn with_new(
    s: Seq<UtxoModel>,
    fresh: Seq<UtxoModel>,
    bucket: Option<u64>,
) -> (Seq<UtxoModel>, Seq<Seq<char>>)
    decreases fresh.len(),
{
    if fresh.len() == 0 {
        (s, Seq::empty())
    } else {
        let (t, keys) = with_new(s, fresh.drop_last(), bucket);
        let key = utxo_key(fresh.last());
        if has_key(t, key) {
            (t, keys)
        } else {
            (t.push(entering(fresh.last(), bucket)), keys.push(key))
        }
    }
}

/// Whether an output has the given canonical key.
fn any_key(utxos: &Vec<UtxoEntry>, key: &String) -> (r: bool)
    ensures
        r == has_key(utxo_models(utxos@), key@),
{
    let ghost all = utxo_models(utxos@);
    let mut i: usize = 0;
    while i < utxos.len()
        invariant
            all == utxo_models(utxos@),
            i <= utxos@.len(),
            forall|j: int| 0 <= j < i ==> utxo_key(#[trigger] all[j]) != key@,
        decreases utxos.len() - i,
    {
        let k = utxos[i].canonical_key();
        assert(all[i as int] == utxos@[i as int]@);
        if k == *key {
            return true;
        }
        i += 1;
    }
    false
}

/// Lets new outputs enter, each unless its key is already present.
fn add_new(utxos: &mut Vec<UtxoEntry>, fresh: &[UtxoEntry], bucket: Option<u64>) -> (r: Vec<String>)
    ensures
        (utxo_models(final(utxos)@), texts(r@)) == with_new(
            utxo_models(old(utxos)@),
            utxo_models(fresh@),
            bucket,
        ),
{
    let ghost start = utxo_models(utxos@);
    let ghost all = utxo_models(fresh@);
    let mut keys: Vec<String> = Vec::new();
    let mut i: usize = 0;
    assert(texts(keys@) =~= Seq::<Seq<char>>::empty());
    assert(all.take(0) =~= Seq::<UtxoModel>::empty());
    while i < fresh.len()
        invariant
            i <= fresh@.len(),
            all == utxo_models(fresh@),
            (utxo_models(utxos@), texts(keys@)) == with_new(start, all.take(i as int), bucket),
        decreases fresh.len() - i,
    {
        proof {
            assert(all.take(i + 1).drop_last() =~= all.take(i as int));
            assert(all.take(i + 1).last() == fresh@[i as int]@);
        }
        let key = fresh[i].canonical_key();
        if !any_key(utxos, &key) {
            let mut entry = fresh[i].clone();
            entry.state = OnchainState::Seen;
            match bucket {
                Some(b) => {
                    entry.detected_at_bucket = b;
                },
                None => {},
            }
            let ghost before = utxos@;
            let ghost old_keys = keys@;
            utxos.push(entry);
            keys.push(key);
            proof {
                assert(utxo_models(utxos@) =~= utxo_models(before).push(
                    entering(fresh@[i as int]@, bucket),
                ));
                assert(texts(keys@) =~= texts(old_keys).push(key@));
            }
        }
        i += 1;
    }
    assert(all.take(i as int) =~= all);
    keys
}

/// Handles chain reorganisations.
pub struct ReorgHandler;

impl ReorgHandler {
    /// Disconnects transactions and lets the new chain's outputs enter.
    /// Returns the keys of the outputs that changed or entered.
    pub fn apply_reorg(
        utxos: &mut Vec<UtxoEntry>,
        disconnected_txids: &[String],
        new_utxos: &[UtxoEntry],
        current_bucket: u64,
    ) -> (r: Result<Vec<String>, LedgerError>)
        ensures
            r is Ok,
            ({
                let start = utxo_models(old(utxos)@);
                let gone = texts(disconnected_txids@);
                let (after, entered) = with_new(
                    all_reorged(start, gone),
                    utxo_models(new_utxos@),
                    Some(current_bucket),
                );
                &&& utxo_models(final(utxos)@) == after
                &&& texts(r->Ok_0@) == disconnected_keys(start, gone) + entered
            }),
    {
        let ghost start = utxo_models(utxos@);
        let ghost gone = texts(disconnected_txids@);
        let mut affected: Vec<String> = Vec::new();
        let mut i: usize = 0;
        assert(start.take(0) =~= Seq::<UtxoModel>::empty());
        assert(texts(affected@) =~= Seq::<Seq<char>>::empty());
        while i < utxos.len()
            invariant
                i <= utxos@.len(),
                start.len() == utxos@.len(),
                gone == texts(disconnected_txids@),
                forall|j: int| 0 <= j < i ==> #[trigger] utxos@[j]@ == reorged(start[j], gone),
                forall|j: int| i <= j < utxos@.len() ==> #[trigger] utxos@[j]@ == start[j],
                texts(affected@) == disconnected_keys(start.take(i as int), gone),
            decreases utxos.len() - i,
        {
            proof {
                assert(start.take(i + 1).drop_last() =~= start.take(i as int));
                assert(start.take(i + 1).last() == start[i as int]);
            }
            let ghost u = utxos@[i as int]@;
            assert(u == start[i as int]);
            let state = utxos[i].state;
            let moved = state == OnchainState::Confirming || state == OnchainState::Spendable
                || state == OnchainState::FinalizedByPolicy;
            if moved && slice_contains(disconnected_txids, utxos[i].outpoint.txid.as_str()) {
                let ghost old_keys = affected@;
                utxos[i].state = OnchainState::Reorged;
                utxos[i].block_height = None;
                utxos[i].confirmed_at_bucket = None;
                let key = utxos[i].canonical_key();
                affected.push(key);
                assert(texts(affected@) =~= texts(old_keys).push(key@));
            }
            assert(utxos@[i as int]@ == reorged(u, gone));
            i += 1;
        }
        assert(start.take(i as int) =~= start);
        assert(utxo_models(utxos@) =~= all_reorged(start, gone));
        let ghost marked = affected@;
        let mut entered = add_new(utxos, new_utxos, Some(current_bucket));
        let ghost fresh_keys = entered@;
        affected.append(&mut entered);
        assert(texts(affected@) =~= texts(marked) + texts(fresh_keys));
        Ok(affected)
    }
}

/// Whether a slice of strings holds a given one.
fn slice_contains(v: &[String], s: &str) -> (r: bool)
    ensures
        r == texts(v@).contains(s@),
{
    let mut i: usize = 0;
    while i < v.len()
        invariant
            i <= v@.len(),
            forall|j: int| 0 <= j < i ==> v@[j]@ != s@,
        decreases v.len() - i,
    {
        if str_eq(v[i].as_str(), s) {
            assert(texts(v@)[i as int] == s@);
            return true;
        }
        i += 1;
    }
    proof {
        if texts(v@).contains(s@) {
            let j = choose|j: int| 0 <= j < texts(v@).len() && texts(v@)[j] == s@;
            assert(v@[j]@ == s@);
        }
    }
    false
}

/// The stable code of a state.
pub open spec fn onchain_code(s: OnchainState) -> u8 {
    match s {
        OnchainState::Seen => 0,
        OnchainState::InMempool => 1,
        OnchainState::Confirming => 2,
        OnchainState::Spendable => 3,
        OnchainState::FinalizedByPolicy => 4,
        OnchainState::Replaced => 5,
        OnchainState::Reorged => 6,
        OnchainState::Spent => 7,
    }
}

/// The canonical binary encoding of an output.
pub open spec fn utxo_bytes(u: UtxoModel) -> Seq<u8> {
    utf8("KROOTv1:utxo_entry"@) + seq![onchain_code(u.state)] + u64_bytes(u.value_sats) + u64_bytes(
        u.outpoint.vout as u64,
    ) + u64_bytes(u.detected_at_bucket) + option_u64_bytes(u.block_height) + option_u64_bytes(u.confirmed_at_bucket)
        + option_u64_bytes(u.reserved_at_bucket) + option_u64_bytes(u.spent_at_bucket)
        + option_string_bytes(u.reserved_by) + option_string_bytes(u.spent_by_txid) + string_bytes(
        u.outpoint.txid,
    ) + string_bytes(u.address) + string_bytes(utxo_key(u))
}

/// The hash of one output.
pub open spec fn utxo_hash() -> spec_fn(UtxoModel) -> Seq<u8> {
    |u: UtxoModel| sha256_digest(utxo_bytes(u))
}

/// The bytes under the root of all outputs.
pub open spec fn utxo_root_bytes(s: Seq<UtxoModel>) -> Seq<u8> {
    utf8("KROOTv1:utxos"@) + sorted_bytes(s.map_values(utxo_hash()))
}

/// The root of all outputs.
pub open spec fn utxo_root(s: Seq<UtxoModel>) -> Seq<char> {
    sha256_hex(utxo_root_bytes(s))
}

/// Hashes one output.
fn hash_utxo(u: &UtxoEntry) -> (r: [u8; 32])
    ensures
        r@ == utxo_hash()(u@),
{
    let mut buf: Vec<u8> = Vec::new();
    put_text(&mut buf, "KROOTv1:utxo_entry");
    let code: u8 = match u.state {
        OnchainState::Seen => 0,
        OnchainState::InMempool => 1,
        OnchainState::Confirming => 2,
        OnchainState::Spendable => 3,
        OnchainState::FinalizedByPolicy => 4,
        OnchainState::Replaced => 5,
        OnchainState::Reorged => 6,
        OnchainState::Spent => 7,
    };
    put_u8(&mut buf, code);
    put_u64(&mut buf, u.value_sats);
    put_u64(&mut buf, u.outpoint.vout as u64);
    put_u64(&mut buf, u.detected_at_bucket);
    put_option_u64(&mut buf, u.block_height);
    put_option_u64(&mut buf, u.confirmed_at_bucket);
    put_option_u64(&mut buf, u.reserved_at_bucket);
    put_option_u64(&mut buf, u.spent_at_bucket);
    put_option_string(&mut buf, &u.reserved_by);
    put_option_string(&mut buf, &u.spent_by_txid);
    put_string(&mut buf, u.outpoint.txid.as_str());
    put_string(&mut buf, u.address.as_str());
    let key = u.canonical_key();
    put_string(&mut buf, key.as_str());
    assert(buf@ =~= utxo_bytes(u@));
    sha256(buf.as_slice())
}

/// Computes the root of all outputs: a hash over the sorted hashes of their
/// canonical encodings.
pub fn compute_utxo_root(utxos: &[UtxoEntry]) -> (r: String)
    ensures
        r@ == utxo_root(utxo_models(utxos@)),
        is_digest_text(r@),
{
    let mut hashes: Vec<[u8; 32]> = Vec::new();
    let mut i: usize = 0;
    while i < utxos.len()
        invariant
            i <= utxos@.len(),
            hashes@.len() == i,
            forall|j: int| 0 <= j < i ==> (#[trigger] hashes@[j])@ == utxo_hash()(utxos@[j]@),
        decreases utxos.len() - i,
    {
        let h = hash_utxo(&utxos[i]);
        hashes.push(h);
        i += 1;
    }
    let mut buf: Vec<u8> = Vec::new();
    put_text(&mut buf, "KROOTv1:utxos");
    assert(models(hashes@) =~= utxo_models(utxos@).map_values(utxo_hash()));
    put_sorted(&mut buf, hashes);
    assert(buf@ =~= utxo_root_bytes(utxo_models(utxos@)));
    sha256_text(buf.as_slice())
}

/// The root does not depend on the order in which outputs were added.
pub proof fn lemma_utxo_root_forgets_order(s: Seq<UtxoModel>, t: Seq<UtxoModel>)
    requires
        s.to_multiset() == t.to_multiset(),
    ensures
        utxo_root(s) == utxo_root(t),
{
    lemma_sorted_bytes_forget_order(s, t, utxo_hash());
}

/// Whether the texts of an output fit into their length prefixes.
pub open spec fn utxo_encodable(u: UtxoModel) -> bool {
    &&& option_encodable(u.reserved_by)
    &&& option_encodable(u.spent_by_txid)
    &&& encodable(u.outpoint.txid)
    &&& encodable(u.address)
}

/// The texts at the end of an output's encoding.
spec fn utxo_texts_bytes(u: UtxoModel) -> Seq<u8> {
    option_string_bytes(u.reserved_by) + (option_string_bytes(u.spent_by_txid) + (string_bytes(
        u.outpoint.txid,
    ) + (string_bytes(u.address) + string_bytes(utxo_key(u)))))
}

/// The optional numbers of an output's encoding, and what follows.
spec fn utxo_options_bytes(u: UtxoModel) -> Seq<u8> {
    option_u64_bytes(u.block_height) + (option_u64_bytes(u.confirmed_at_bucket) + (
    option_u64_bytes(u.reserved_at_bucket) + (option_u64_bytes(u.spent_at_bucket)
        + utxo_texts_bytes(u))))
}

/// What follows the tag and the code in an output's encoding.
spec fn utxo_numbers_bytes(u: UtxoModel) -> Seq<u8> {
    u64_bytes(u.value_sats) + (u64_bytes(u.outpoint.vout as u64) + (u64_bytes(u.detected_at_bucket)
        + utxo_options_bytes(u)))
}

proof fn lemma_utxo_bytes_parts(u: UtxoModel)
    ensures
        utxo_bytes(u) == utf8("KROOTv1:utxo_entry"@) + (seq![onchain_code(u.state)]
            + utxo_numbers_bytes(u)),
{
    let t = utf8("KROOTv1:utxo_entry"@);
    let c = seq![onchain_code(u.state)];
    let v = u64_bytes(u.value_sats);
    let o = u64_bytes(u.outpoint.vout as u64);
    let d = u64_bytes(u.detected_at_bucket);
    let h = option_u64_bytes(u.block_height);
    let f = option_u64_bytes(u.confirmed_at_bucket);
    let r = option_u64_bytes(u.reserved_at_bucket);
    let s = option_u64_bytes(u.spent_at_bucket);
    let x = option_string_bytes(u.reserved_by);
    let y = option_string_bytes(u.spent_by_txid);
    let i = string_bytes(u.outpoint.txid);
    let a = string_bytes(u.address);
    let k = string_bytes(utxo_key(u));
    lemma_regrouped(t + c + v + o + d + h + f + r + s, x, y, i, a, k);
    lemma_regrouped(t + c + v + o + d, h, f, r, s, utxo_texts_bytes(u));
    lemma_regrouped(t, c, v, o, d, utxo_options_bytes(u));
}

proof fn lemma_utxo_texts_injective(a: UtxoModel, b: UtxoModel)
    requires
        utxo_encodable(a),
        utxo_encodable(b),
        utxo_texts_bytes(a) == utxo_texts_bytes(b),
    ensures
        a.reserved_by == b.reserved_by,
        a.spent_by_txid == b.spent_by_txid,
        a.outpoint.txid == b.outpoint.txid,
        a.address == b.address,
{
    let a3 = string_bytes(utxo_key(a));
    let b3 = string_bytes(utxo_key(b));
    let a2 = string_bytes(a.address) + a3;
    let b2 = string_bytes(b.address) + b3;
    let a1 = string_bytes(a.outpoint.txid) + a2;
    let b1 = string_bytes(b.outpoint.txid) + b2;
    let a0 = option_string_bytes(a.spent_by_txid) + a1;
    let b0 = option_string_bytes(b.spent_by_txid) + b1;
    lemma_option_string_bytes_delimited(a.reserved_by, a0, b.reserved_by, b0);
    lemma_option_string_bytes_delimited(a.spent_by_txid, a1, b.spent_by_txid, b1);
    lemma_string_bytes_delimited(a.outpoint.txid, a2, b.outpoint.txid, b2);
    lemma_string_bytes_delimited(a.address, a3, b.address, b3);
}

proof fn lemma_utxo_options_injective(a: UtxoModel, b: UtxoModel)
    requires
        utxo_options_bytes(a) == utxo_options_bytes(b),
    ensures
        a.block_height == b.block_height,
        a.confirmed_at_bucket == b.confirmed_at_bucket,
        a.reserved_at_bucket == b.reserved_at_bucket,
        a.spent_at_bucket == b.spent_at_bucket,
        utxo_texts_bytes(a) == utxo_texts_bytes(b),
{
    let a2 = option_u64_bytes(a.spent_at_bucket) + utxo_texts_bytes(a);
    let b2 = option_u64_bytes(b.spent_at_bucket) + utxo_texts_bytes(b);
    let a1 = option_u64_bytes(a.reserved_at_bucket) + a2;
    let b1 = option_u64_bytes(b.reserved_at_bucket) + b2;
    let a0 = option_u64_bytes(a.confirmed_at_bucket) + a1;
    let b0 = option_u64_bytes(b.confirmed_at_bucket) + b1;
    lemma_option_u64_bytes_delimited(a.block_height, a0, b.block_height, b0);
    lemma_option_u64_bytes_delimited(a.confirmed_at_bucket, a1, b.confirmed_at_bucket, b1);
    lemma_option_u64_bytes_delimited(a.reserved_at_bucket, a2, b.reserved_at_bucket, b2);
    lemma_option_u64_bytes_delimited(
        a.spent_at_bucket,
        utxo_texts_bytes(a),
        b.spent_at_bucket,
        utxo_texts_bytes(b),
    );
}

proof fn lemma_utxo_numbers_injective(a: UtxoModel, b: UtxoModel)
    requires
        utxo_numbers_bytes(a) == utxo_numbers_bytes(b),
    ensures
        a.value_sats == b.value_sats,
        a.outpoint.vout == b.outpoint.vout,
        a.detected_at_bucket == b.detected_at_bucket,
        utxo_options_bytes(a) == utxo_options_bytes(b),
{
    let a1 = u64_bytes(a.detected_at_bucket) + utxo_options_bytes(a);
    let b1 = u64_bytes(b.detected_at_bucket) + utxo_options_bytes(b);
    let a0 = u64_bytes(a.outpoint.vout as u64) + a1;
    let b0 = u64_bytes(b.outpoint.vout as u64) + b1;
    lemma_u64_bytes_delimited(a.value_sats, a0, b.value_sats, b0);
    lemma_u64_bytes_delimited(a.outpoint.vout as u64, a1, b.outpoint.vout as u64, b1);
    lemma_u64_bytes_delimited(
        a.detected_at_bucket,
        utxo_options_bytes(a),
        b.detected_at_bucket,
        utxo_options_bytes(b),
    );
}

/// Different outputs are hashed from different bytes.
pub proof fn lemma_utxo_bytes_injective(a: UtxoModel, b: UtxoModel)
    requires
        utxo_encodable(a),
        utxo_encodable(b),
        utxo_bytes(a) == utxo_bytes(b),
    ensures
        a == b,
{
    let tag = utf8("KROOTv1:utxo_entry"@);
    let ca = seq![onchain_code(a.state)];
    let cb = seq![onchain_code(b.state)];
    let na = utxo_numbers_bytes(a);
    let nb = utxo_numbers_bytes(b);
    lemma_utxo_bytes_parts(a);
    lemma_utxo_bytes_parts(b);
    lemma_same_split(tag, ca + na, tag, cb + nb);
    lemma_same_split(ca, na, cb, nb);
    assert(ca[0] == cb[0]);
    lemma_utxo_numbers_injective(a, b);
    lemma_utxo_options_injective(a, b);
    lemma_utxo_texts_injective(a, b);
}

/// All outputs with their root.
#[derive(Debug, PartialEq, Eq)]
pub struct UtxoSet {
    pub entries: Vec<UtxoEntry>,
    /// Root of all entries.
    pub root_hash: String,
}

impl UtxoSet {
    /// Computes the root of the given entries and keeps both.
    pub fn from_entries(entries: Vec<UtxoEntry>) -> (r: Self)
        ensures
            r.entries@ == entries@,
            r.root_hash@ == utxo_root(utxo_models(entries@)),
            is_digest_text(r.root_hash@),
    {
        let root_hash = compute_utxo_root(entries.as_slice());
        UtxoSet { entries, root_hash }
    }
}

/// Whether no two outputs share a key.
pub open spec fn keys_distinct(s: Seq<UtxoModel>) -> bool {
    forall|i: int, j: int|
        0 <= i < s.len() && 0 <= j < s.len() && i != j ==> utxo_key(#[trigger] s[i]) != utxo_key(
            #[trigger] s[j],
        )
}

/// New outputs enter only under keys that are not yet present, so that
/// outputs stay distinct; and what was present stays.
pub proof fn lemma_entering_keeps_keys_distinct(
    s: Seq<UtxoModel>,
    fresh: Seq<UtxoModel>,
    bucket: Option<u64>,
)
    requires
        keys_distinct(s),
    ensures
        keys_distinct(with_new(s, fresh, bucket).0),
        with_new(s, fresh, bucket).0.len() >= s.len(),
        with_new(s, fresh, bucket).0.take(s.len() as int) == s,
    decreases fresh.len(),
{
    if fresh.len() > 0 {
        lemma_entering_keeps_keys_distinct(s, fresh.drop_last(), bucket);
        let t = with_new(s, fresh.drop_last(), bucket).0;
        let u = with_new(s, fresh, bucket).0;
        if u != t {
            assert(u.take(s.len() as int) =~= t.take(s.len() as int));
            assert forall|i: int, j: int|
                0 <= i < u.len() && 0 <= j < u.len() && i != j implies utxo_key(#[trigger] u[i])
                != utxo_key(#[trigger] u[j]) by {
                if i < t.len() && j < t.len() {
                    assert(utxo_key(t[i]) != utxo_key(t[j]));
                } else if i < t.len() {
                    assert(u[i] == t[i]);
                    assert(utxo_key(u[j]) == utxo_key(fresh.last()));
                } else if j < t.len() {
                    assert(u[j] == t[j]);
                    assert(utxo_key(u[i]) == utxo_key(fresh.last()));
                }
            }
        }
    } else {
        assert(s.take(s.len() as int) =~= s);
    }
}

/// A reorganisation keeps outputs distinct, and a disconnected output is
/// reorged.
pub proof fn lemma_reorg_keeps_keys_distinct(
    s: Seq<UtxoModel>,
    gone: Seq<Seq<char>>,
    fresh: Seq<UtxoModel>,
    bucket: u64,
)
    requires
        keys_distinct(s),
    ensures
        keys_distinct(with_new(all_reorged(s, gone), fresh, Some(bucket)).0),
        forall|i: int|
            0 <= i < s.len() && disconnected(s[i], gone) ==> (#[trigger] all_reorged(
                s,
                gone,
            )[i]).state == OnchainState::Reorged,
{
    let t = all_reorged(s, gone);
    assert forall|i: int, j: int|
        0 <= i < t.len() && 0 <= j < t.len() && i != j implies utxo_key(#[trigger] t[i])
        != utxo_key(#[trigger] t[j]) by {
        assert(utxo_key(s[i]) != utxo_key(s[j]));
    }
    lemma_entering_keeps_keys_distinct(t, fresh, Some(bucket));
}

/// After a replacement, no output of the replaced transaction that was present
/// is reserved or in any state but replaced, unless it was already replaced.
pub proof fn lemma_replacement_releases(s: Seq<UtxoModel>, txid: Seq<char>, i: int)
    requires
        0 <= i < s.len(),
        s[i].outpoint.txid == txid,
    ensures
        all_replaced(s, txid)[i].state == OnchainState::Replaced,
        s[i].state != OnchainState::Replaced ==> all_replaced(s, txid)[i].reserved_by is None,
{
}

/// Whether an output falls to the replacement of a transaction.
pub open spec fn falls(u: UtxoModel, txid: Seq<char>) -> bool {
    u.outpoint.txid == txid && u.state != OnchainState::Replaced
}

/// An output after a transaction was replaced: its outputs are replaced and
/// no longer reserved.
pub open spec fn replaced(u: UtxoModel, txid: Seq<char>) -> UtxoModel {
    if falls(u, txid) {
        UtxoModel {
            state: OnchainState::Replaced,
            reserved_by: None,
            reserved_at_bucket: if u.reserved_by is Some {
                None
            } else {
                u.reserved_at_bucket
            },
            ..u
        }
    } else {
        u
    }
}

/// All outputs after a transaction was replaced.
pub open spec fn all_replaced(s: Seq<UtxoModel>, txid: Seq<char>) -> Seq<UtxoModel> {
    Seq::new(s.len(), |i: int| replaced(s[i], txid))
}

/// The reservations that a replacement releases, in their order.
pub open spec fn released(s: Seq<UtxoModel>, txid: Seq<char>) -> Seq<Seq<char>>
    decreases s.len(),
{
    if s.len() == 0 {
        Seq::empty()
    } else {
        let before = released(s.drop_last(), txid);
        match s.last().reserved_by {
            Some(id) => if falls(s.last(), txid) {
                before.push(id)
            } else {
                before
            },
            None => before,
        }
    }
}

/// Replaces a transaction by another (replace-by-fee): marks its outputs as
/// replaced, releases their reservations and lets the outputs of the
/// replacement enter. Returns the released reservations.
pub fn apply_rbf_replacement(
    utxos: &mut Vec<UtxoEntry>,
    replaced_txid: &str,
    replacement_utxos: &[UtxoEntry],
) -> (r: Result<Vec<String>, LedgerError>)
    ensures
        r is Ok,
        utxo_models(final(utxos)@) == with_new(
            all_replaced(utxo_models(old(utxos)@), replaced_txid@),
            utxo_models(replacement_utxos@),
            None,
        ).0,
        texts(r->Ok_0@) == released(utxo_models(old(utxos)@), replaced_txid@),
{
    let ghost start = utxo_models(utxos@);
    let ghost txid = replaced_txid@;
    let mut freed: Vec<String> = Vec::new();
    let mut i: usize = 0;
    assert(start.take(0) =~= Seq::<UtxoModel>::empty());
    assert(texts(freed@) =~= Seq::<Seq<char>>::empty());
    while i < utxos.len()
        invariant
            i <= utxos@.len(),
            start.len() == utxos@.len(),
            txid == replaced_txid@,
            forall|j: int| 0 <= j < i ==> #[trigger] utxos@[j]@ == replaced(start[j], txid),
            forall|j: int| i <= j < utxos@.len() ==> #[trigger] utxos@[j]@ == start[j],
            texts(freed@) == released(start.take(i as int), txid),
        decreases utxos.len() - i,
    {
        proof {
            assert(start.take(i + 1).drop_last() =~= start.take(i as int));
            assert(start.take(i + 1).last() == start[i as int]);
        }
        let ghost u = utxos@[i as int]@;
        assert(u == start[i as int]);
        if utxos[i].state != OnchainState::Replaced && str_eq(
            utxos[i].outpoint.txid.as_str(),
            replaced_txid,
        ) {
            let holder = clone_option(&utxos[i].reserved_by);
            match holder {
                Some(id) => {
                    let ghost before = freed@;
                    let ghost shown = id@;
                    freed.push(id);
                    assert(texts(freed@) =~= texts(before).push(shown));
                    utxos[i].reserved_by = None;
                    utxos[i].reserved_at_bucket = None;
                },
                None => {},
            }
            utxos[i].state = OnchainState::Replaced;
        }
        assert(utxos@[i as int]@ == replaced(u, txid));
        i += 1;
    }
    assert(start.take(i as int) =~= start);
    assert(utxo_models(utxos@) =~= all_replaced(start, txid));
    let _entered = add_new(utxos, replacement_utxos, None);
    Ok(freed)
}

/// The life of an output: from each state, exactly the states that may follow.
pub proof fn lemma_life_cycle(from: OnchainState, to: OnchainState)
    ensures
        transition_checked(from, to) is Ok <==> match from {
            OnchainState::Seen => to == OnchainState::InMempool || to == OnchainState::Replaced,
            OnchainState::InMempool => to == OnchainState::Seen || to == OnchainState::Confirming
                || to == OnchainState::Replaced,
            OnchainState::Confirming => to == OnchainState::Spendable || to
                == OnchainState::Reorged,
            OnchainState::Spendable => to == OnchainState::FinalizedByPolicy || to
                == OnchainState::Spent,
            OnchainState::Reorged => to == OnchainState::Seen,
            OnchainState::FinalizedByPolicy | OnchainState::Replaced | OnchainState::Spent => false,
        },
        transition_checked(from, to) is Err ==> transition_checked(from, to)->Err_0 == (
        ErrorModel::InvalidUtxoTransition { from, to }),
        transition_allowed(from, to) <==> transition_checked(from, to) is Ok,
{
}

/// Nothing leads out of a replaced or a spent output, and those are the
/// terminal states; an output can be spent while it is spendable or final.
pub proof fn lemma_state_classes(s: OnchainState)
    ensures
        state_terminal(s) <==> s is Replaced || s is Spent,
        state_spendable(s) <==> s is Spendable || s is FinalizedByPolicy,
{
}

/// A newly seen output carries what it was seen with and nothing else.
pub proof fn lemma_seen_outputs_are_fresh(
    outpoint: OutPointModel,
    value_sats: u64,
    address: Seq<char>,
    bucket: u64,
)
    ensures
        ({
            let u = seen_utxo(outpoint, value_sats, address, bucket);
            &&& u.outpoint == outpoint && u.value_sats == value_sats && u.address == address
            &&& u.state is Seen && u.detected_at_bucket == bucket
            &&& u.block_height is None && u.confirmed_at_bucket is None
            &&& u.reserved_by is None && u.reserved_at_bucket is None
            &&& u.spent_at_bucket is None && u.spent_by_txid is None
        }),
{
}

proof fn lemma_has_key_grows(s: Seq<UtxoModel>, u: UtxoModel, key: Seq<char>)
    ensures
        has_key(s.push(u), key) <==> has_key(s, key) || utxo_key(u) == key,
{
    let t = s.push(u);
    if has_key(s, key) {
        let i = choose|i: int| 0 <= i < s.len() && utxo_key(#[trigger] s[i]) == key;
        assert(utxo_key(t[i]) == key);
    }
    if utxo_key(u) == key {
        assert(utxo_key(t[s.len() as int]) == key);
    }
    if has_key(t, key) {
        let i = choose|i: int| 0 <= i < t.len() && utxo_key(#[trigger] t[i]) == key;
        if i < s.len() {
            assert(utxo_key(s[i]) == key);
        }
    }
}

/// What enters: every given output is there afterwards, those that were not
/// there before enter as seen under their keys, and what was there stays.
pub proof fn lemma_outputs_enter(s: Seq<UtxoModel>, fresh: Seq<UtxoModel>, bucket: Option<u64>)
    ensures
        ({
            let (t, keys) = with_new(s, fresh, bucket);
            &&& t.len() == s.len() + keys.len()
            &&& t.take(s.len() as int) == s
            &&& forall|f: int|
                0 <= f < fresh.len() ==> has_key(t, utxo_key(#[trigger] fresh[f]))
            &&& forall|j: int| #![trigger t[j]]
                s.len() <= j < t.len() ==> {
                    &&& keys[j - s.len()] == utxo_key(t[j])
                    &&& !has_key(s, utxo_key(t[j]))
                    &&& exists|f: int| #![trigger fresh[f]]
                        {
                            &&& 0 <= f < fresh.len()
                            &&& t[j].outpoint == fresh[f].outpoint
                            &&& t[j].value_sats == fresh[f].value_sats
                            &&& t[j].address == fresh[f].address
                            &&& t[j].state is Seen
                            &&& t[j].detected_at_bucket == (match bucket {
                                Some(b) => b,
                                None => fresh[f].detected_at_bucket,
                            })
                            &&& t[j].block_height == fresh[f].block_height
                            &&& t[j].confirmed_at_bucket == fresh[f].confirmed_at_bucket
                            &&& t[j].reserved_by == fresh[f].reserved_by
                            &&& t[j].reserved_at_bucket == fresh[f].reserved_at_bucket
                            &&& t[j].spent_at_bucket == fresh[f].spent_at_bucket
                            &&& t[j].spent_by_txid == fresh[f].spent_by_txid
                        }
                }
        }),
    decreases fresh.len(),
{
    let (t, keys) = with_new(s, fresh, bucket);
    if fresh.len() == 0 {
        assert(t.take(s.len() as int) =~= s);
    } else {
        let less = fresh.drop_last();
        lemma_outputs_enter(s, less, bucket);
        let (before, known) = with_new(s, less, bucket);
        let last = fresh.last();
        let key = utxo_key(last);
        assert forall|f: int| 0 <= f < fresh.len() implies has_key(
            t,
            utxo_key(#[trigger] fresh[f]),
        ) by {
            if f < less.len() {
                assert(less[f] == fresh[f]);
            }
            if !has_key(before, key) {
                lemma_has_key_grows(before, entering(last, bucket), utxo_key(fresh[f]));
            }
        }
        if !has_key(before, key) {
            let n = s.len() as int;
            assert(t.take(n) =~= before.take(n));
            if has_key(s, key) {
                let i = choose|i: int| 0 <= i < s.len() && utxo_key(#[trigger] s[i]) == key;
                assert(before.take(n)[i] == before[i]);
            }
        }
        assert forall|j: int| #![trigger t[j]] s.len() <= j < t.len() implies {
            &&& keys[j - s.len()] == utxo_key(t[j])
            &&& !has_key(s, utxo_key(t[j]))
            &&& exists|f: int| #![trigger fresh[f]]
                {
                    &&& 0 <= f < fresh.len()
                    &&& t[j].outpoint == fresh[f].outpoint
                    &&& t[j].value_sats == fresh[f].value_sats
                    &&& t[j].address == fresh[f].address
                    &&& t[j].state is Seen
                    &&& t[j].detected_at_bucket == (match bucket {
                        Some(b) => b,
                        None => fresh[f].detected_at_bucket,
                    })
                    &&& t[j].block_height == fresh[f].block_height
                    &&& t[j].confirmed_at_bucket == fresh[f].confirmed_at_bucket
                    &&& t[j].reserved_by == fresh[f].reserved_by
                    &&& t[j].reserved_at_bucket == fresh[f].reserved_at_bucket
                    &&& t[j].spent_at_bucket == fresh[f].spent_at_bucket
                    &&& t[j].spent_by_txid == fresh[f].spent_by_txid
                }
        } by {
            if j < before.len() {
                assert(t[j] == before[j]);
                let f = choose|f: int| #![trigger less[f]]
                    {
                        &&& 0 <= f < less.len()
                        &&& before[j].outpoint == less[f].outpoint
                        &&& before[j].value_sats == less[f].value_sats
                        &&& before[j].address == less[f].address
                        &&& before[j].state is Seen
                        &&& before[j].detected_at_bucket == (match bucket {
                            Some(b) => b,
                            None => less[f].detected_at_bucket,
                        })
                        &&& before[j].block_height == less[f].block_height
                        &&& before[j].confirmed_at_bucket == less[f].confirmed_at_bucket
                        &&& before[j].reserved_by == less[f].reserved_by
                        &&& before[j].reserved_at_bucket == less[f].reserved_at_bucket
                        &&& before[j].spent_at_bucket == less[f].spent_at_bucket
                        &&& before[j].spent_by_txid == less[f].spent_by_txid
                    };
                assert(fresh[f] == less[f]);
            } else {
                assert(fresh[fresh.len() - 1] == last);
            }
        }
    }
}

/// The keys that a disconnection names are those of the outputs that it
/// disconnects, and no others.
pub proof fn lemma_disconnected_keys(s: Seq<UtxoModel>, gone: Seq<Seq<char>>)
    ensures
        forall|i: int|
            0 <= i < s.len() && gone.contains((#[trigger] s[i]).outpoint.txid) && (
            s[i].state is Confirming || s[i].state is Spendable || s[i].state is FinalizedByPolicy)
                ==> disconnected_keys(s, gone).contains(outpoint_text(s[i].outpoint)),
        forall|k: Seq<char>| #[trigger]
            disconnected_keys(s, gone).contains(k) ==> exists|i: int|
                #![trigger s[i]]
                {
                    &&& 0 <= i < s.len()
                    &&& k == outpoint_text(s[i].outpoint)
                    &&& gone.contains(s[i].outpoint.txid)
                    &&& s[i].state is Confirming || s[i].state is Spendable
                        || s[i].state is FinalizedByPolicy
                },
    decreases s.len(),
{
    let keys = disconnected_keys(s, gone);
    if s.len() > 0 {
        let less = s.drop_last();
        let known = disconnected_keys(less, gone);
        lemma_disconnected_keys(less, gone);
        assert forall|i: int|
            0 <= i < s.len() && gone.contains((#[trigger] s[i]).outpoint.txid) && (
            s[i].state is Confirming || s[i].state is Spendable || s[i].state is FinalizedByPolicy)
            implies keys.contains(outpoint_text(s[i].outpoint)) by {
            let k = outpoint_text(s[i].outpoint);
            if i < less.len() {
                assert(less[i] == s[i]);
                let j = choose|j: int| 0 <= j < known.len() && known[j] == k;
                assert(keys[j] == k);
            } else {
                assert(keys[known.len() as int] == k);
            }
        }
        assert forall|k: Seq<char>| #[trigger] keys.contains(k) implies exists|i: int|
            #![trigger s[i]]
            {
                &&& 0 <= i < s.len()
                &&& k == outpoint_text(s[i].outpoint)
                &&& gone.contains(s[i].outpoint.txid)
                &&& s[i].state is Confirming || s[i].state is Spendable
                    || s[i].state is FinalizedByPolicy
            } by {
            let j = choose|j: int| 0 <= j < keys.len() && keys[j] == k;
            if j < known.len() {
                assert(known[j] == k);
                assert(known.contains(k));
                let i = choose|i: int|
                    #![trigger less[i]]
                    {
                        &&& 0 <= i < less.len()
                        &&& k == outpoint_text(less[i].outpoint)
                        &&& gone.contains(less[i].outpoint.txid)
                        &&& less[i].state is Confirming || less[i].state is Spendable
                            || less[i].state is FinalizedByPolicy
                    };
                assert(s[i] == less[i]);
            } else {
                assert(s[s.len() - 1] == s.last());
            }
        }
    }
}

/// After a reorganisation no output of a disconnected transaction counts as
/// being in a block: each that did is reorged, without height or time of
/// confirmation, and its key is named. Every other output is as it was.
pub proof fn lemma_reorg_disconnects(
    s: Seq<UtxoModel>,
    gone: Seq<Seq<char>>,
    fresh: Seq<UtxoModel>,
    bucket: u64,
)
    ensures
        ({
            let (after, entered) = with_new(all_reorged(s, gone), fresh, Some(bucket));
            let named = disconnected_keys(s, gone) + entered;
            &&& after.len() >= s.len()
            &&& forall|j: int|
                0 <= j < after.len() && gone.contains((#[trigger] after[j]).outpoint.txid)
                    ==> !(after[j].state is Confirming || after[j].state is Spendable
                    || after[j].state is FinalizedByPolicy)
            &&& forall|i: int| #![trigger s[i]] #![trigger after[i]]
                0 <= i < s.len() ==> if gone.contains(s[i].outpoint.txid) && (
                s[i].state is Confirming || s[i].state is Spendable
                    || s[i].state is FinalizedByPolicy) {
                    &&& after[i].state is Reorged
                    &&& after[i].block_height is None
                    &&& after[i].confirmed_at_bucket is None
                    &&& after[i].outpoint == s[i].outpoint
                    &&& after[i].value_sats == s[i].value_sats
                    &&& after[i].address == s[i].address
                    &&& after[i].detected_at_bucket == s[i].detected_at_bucket
                    &&& after[i].reserved_by == s[i].reserved_by
                    &&& after[i].reserved_at_bucket == s[i].reserved_at_bucket
                    &&& after[i].spent_at_bucket == s[i].spent_at_bucket
                    &&& after[i].spent_by_txid == s[i].spent_by_txid
                    &&& named.contains(outpoint_text(s[i].outpoint))
                } else {
                    after[i] == s[i]
                }
        }),
{
    let t = all_reorged(s, gone);
    let (after, entered) = with_new(t, fresh, Some(bucket));
    let keys = disconnected_keys(s, gone);
    let named = keys + entered;
    lemma_outputs_enter(t, fresh, Some(bucket));
    lemma_disconnected_keys(s, gone);
    assert forall|i: int| 0 <= i < s.len() implies #[trigger] after[i] == t[i] by {
        assert(after.take(s.len() as int)[i] == after[i]);
    }
    assert forall|i: int| #![trigger s[i]] #![trigger after[i]]
        0 <= i < s.len() && keys.contains(outpoint_text(s[i].outpoint)) implies named.contains(
        outpoint_text(s[i].outpoint),
    ) by {
        let k = outpoint_text(s[i].outpoint);
        let j = choose|j: int| 0 <= j < keys.len() && keys[j] == k;
        assert(named[j] == k);
    }
    assert forall|j: int|
        0 <= j < after.len() && gone.contains((#[trigger] after[j]).outpoint.txid) implies !(
    after[j].state is Confirming || after[j].state is Spendable
        || after[j].state is FinalizedByPolicy) by {
        if j < s.len() {
            assert(after[j] == t[j]);
        }
    }
}

/// After a replacement every output of the replaced transaction is replaced and
/// reserved by nobody, unless it was replaced before, and every other output is
/// as it was. Exactly the holders of what fell are told.
pub proof fn lemma_replacement_is_exact(s: Seq<UtxoModel>, txid: Seq<char>)
    ensures
        all_replaced(s, txid).len() == s.len(),
        forall|i: int| #![trigger s[i]] #![trigger all_replaced(s, txid)[i]]
            0 <= i < s.len() ==> {
                let u = s[i];
                let v = all_replaced(s, txid)[i];
                if u.outpoint.txid == txid && !(u.state is Replaced) {
                    &&& v.state is Replaced
                    &&& v.reserved_by is None
                    &&& u.reserved_by is Some ==> v.reserved_at_bucket is None
                    &&& u.reserved_by is None ==> v.reserved_at_bucket == u.reserved_at_bucket
                    &&& v.outpoint == u.outpoint && v.value_sats == u.value_sats && v.address
                        == u.address
                    &&& v.block_height == u.block_height && v.detected_at_bucket
                        == u.detected_at_bucket
                    &&& v.confirmed_at_bucket == u.confirmed_at_bucket
                    &&& v.spent_at_bucket == u.spent_at_bucket && v.spent_by_txid
                        == u.spent_by_txid
                } else {
                    v == u
                }
            },
        forall|i: int|
            0 <= i < s.len() && (#[trigger] s[i]).outpoint.txid == txid && !(s[i].state is Replaced)
                && s[i].reserved_by is Some ==> released(s, txid).contains(s[i].reserved_by->0),
        forall|k: Seq<char>| #[trigger]
            released(s, txid).contains(k) ==> exists|i: int|
                #![trigger s[i]]
                0 <= i < s.len() && s[i].outpoint.txid == txid && !(s[i].state is Replaced)
                    && s[i].reserved_by == Some(k),
    decreases s.len(),
{
    let told = released(s, txid);
    if s.len() > 0 {
        let less = s.drop_last();
        let known = released(less, txid);
        lemma_replacement_is_exact(less, txid);
        assert forall|i: int|
            0 <= i < s.len() && (#[trigger] s[i]).outpoint.txid == txid && !(s[i].state is Replaced)
                && s[i].reserved_by is Some implies told.contains(s[i].reserved_by->0) by {
            let k = s[i].reserved_by->0;
            if i < less.len() {
                assert(less[i] == s[i]);
                let j = choose|j: int| 0 <= j < known.len() && known[j] == k;
                assert(told[j] == k);
            } else {
                assert(told[known.len() as int] == k);
            }
        }
        assert forall|k: Seq<char>| #[trigger] told.contains(k) implies exists|i: int|
            #![trigger s[i]]
            0 <= i < s.len() && s[i].outpoint.txid == txid && !(s[i].state is Replaced)
                && s[i].reserved_by == Some(k) by {
            let j = choose|j: int| 0 <= j < told.len() && told[j] == k;
            if j < known.len() {
                assert(known[j] == k);
                assert(known.contains(k));
                let i = choose|i: int|
                    #![trigger less[i]]
                    0 <= i < less.len() && less[i].outpoint.txid == txid && !(
                    less[i].state is Replaced) && less[i].reserved_by == Some(k);
                assert(s[i] == less[i]);
            } else {
                assert(s[s.len() - 1] == s.last());
            }
        }
    }
}

/// An output whose hash ranks last adds it behind those of all others.
pub proof fn lemma_outputs_are_all_hashed(s: Seq<UtxoModel>, u: UtxoModel)
    requires
        forall|i: int|
            0 <= i < s.len() ==> lex_le(
                bytes_rank(sha256_digest(utxo_bytes(#[trigger] s[i]))),
                bytes_rank(sha256_digest(utxo_bytes(u))),
            ),
    ensures
        utxo_root_bytes(Seq::empty()) == utf8("KROOTv1:utxos"@),
        utxo_root_bytes(s.push(u)) == utxo_root_bytes(s) + sha256_digest(utxo_bytes(u)),
        utxo_root(s) == sha256_hex(utxo_root_bytes(s)),
{
    broadcast use vstd::seq_lib::group_to_multiset_ensures;

    let hashes = s.map_values(utxo_hash());
    let h = sha256_digest(utxo_bytes(u));
    let sorted = stable_sorted(hashes, byte_ranking());
    lemma_stable_sorted(hashes, byte_ranking());
    assert(s.push(u).map_values(utxo_hash()) =~= hashes.push(h));
    assert(hashes.push(h).drop_last() =~= hashes);
    if sorted.len() > 0 {
        let y = sorted.last();
        assert(sorted.contains(y));
        assert(sorted.to_multiset().count(y) > 0);
        assert(hashes.contains(y));
        let i = choose|i: int| 0 <= i < hashes.len() && hashes[i] == y;
        assert(y == sha256_digest(utxo_bytes(s[i])));
        assert(lex_le(byte_ranking()(y), byte_ranking()(h)));
        assert(stable_sorted(hashes.push(h), byte_ranking()) == sorted.push(h));
    } else {
        assert(sorted =~= Seq::<Seq<u8>>::empty());
        assert(stable_sorted(hashes.push(h), byte_ranking()) =~= sorted.push(h));
    }
    assert(sorted.push(h).drop_last() =~= sorted);
    assert(utxo_root_bytes(s.push(u)) =~= utxo_root_bytes(s) + h);
    assert(Seq::<UtxoModel>::empty().map_values(utxo_hash()) =~= Seq::<Seq<u8>>::empty());
    assert(flat(stable_sorted(Seq::<Seq<u8>>::empty(), byte_ranking())) =~= Seq::<u8>::empty());
    assert(utxo_root_bytes(Seq::empty()) =~= utf8("KROOTv1:utxos"@));
}

} // verus!
