//! What a persistent key-value store holds for the ledger: the keys under
//! which records stand, and what every operation writes given what it read.

use crate::codec::{lemma_same_split, lemma_u64_bytes, lemma_utf8_injective, put_text, put_u64,
    u64_bytes, utf8};
use crate::digest::is_digest_text;
use crate::ledger::account_state::{AccountModel, AccountState};
use crate::ledger::certificate::{snapshot_checked, CertifiedSnapshot};
use crate::ledger::chain::{compute_utxo_root, lemma_utxo_root_forgets_order, outpoint_text,
    transition_checked, utxo_key, utxo_models, utxo_root, OnchainState, OutPoint, OutPointModel,
    UtxoEntry, UtxoModel, UtxoTransitionGate};
use crate::ledger::command::{BalanceCommand, BalanceOperation, InternalTransferCommand};
use crate::ledger::error::{outcome, ErrorModel, LedgerError};
use crate::ledger::idempotency::IdempotencyRecord;
use crate::ledger::in_memory::{change_state, expire_if_stale, expired_if_stale, open_account, opened,
    operate, operated, reservation_exists_error, stale, state_changed, stored_account,
    stored_reservation, transfer_between, transfer_fits, transferred};
use crate::ledger::membership::{heartbeat, node_exists_error, promote_node, promoted,
    record_heartbeat, stored_node, NodeMembership, NodeRole};
use crate::ledger::reservation::{Reservation, ReservationModel, ReservationState};
use crate::ledger::withdrawal::WithdrawalRecord;
use crate::order::{lemma_stable_sorted, models, sort_ranked, stable_sorted, text_le, text_rank,
    Ranked};
use vstd::bytes::*;
use vstd::prelude::*;

verus! {

/// What kind of record stands under a key.
#[derive(Debug, Clone, Copy, PartialEq, Eq, Structural)]
pub enum Namespace {
    Nonce,
    Account,
    Reservation,
    Idempotency,
    Utxo,
    Withdrawal,
    Snapshot,
    Membership,
}

/// What the keys of a kind of record begin with.
pub open spec fn prefix_of(n: Namespace) -> Seq<char> {
    match n {
        Namespace::Nonce => "nonce:"@,
        Namespace::Account => "account:"@,
        Namespace::Reservation => "resv:"@,
        Namespace::Idempotency => "idemp:"@,
        Namespace::Utxo => "utxo:"@,
        Namespace::Withdrawal => "wd:"@,
        Namespace::Snapshot => "snap:"@,
        Namespace::Membership => "member:"@,
    }
}

/// The key of a record.
pub open spec fn key_bytes(n: Namespace, id: Seq<char>) -> Seq<u8> {
    utf8(prefix_of(n)) + utf8(id)
}

/// The key of a snapshot.
pub open spec fn snapshot_key_bytes(sequence: u64) -> Seq<u8> {
    utf8(prefix_of(Namespace::Snapshot)) + u64_bytes(sequence)
}

/// The key under which the sequence number of the latest snapshot stands.
pub open spec fn latest_key_bytes() -> Seq<u8> {
    key_bytes(Namespace::Snapshot, "latest_seq"@)
}

impl Namespace {
    /// What the keys of this kind of record begin with.
    pub fn prefix(&self) -> (r: &'static str)
        ensures
            r@ == prefix_of(*self),
    {
        match self {
            Namespace::Nonce => "nonce:",
            Namespace::Account => "account:",
            Namespace::Reservation => "resv:",
            Namespace::Idempotency => "idemp:",
            Namespace::Utxo => "utxo:",
            Namespace::Withdrawal => "wd:",
            Namespace::Snapshot => "snap:",
            Namespace::Membership => "member:",
        }
    }

    /// The key of a record.
    pub fn key(&self, id: &str) -> (r: Vec<u8>)
        ensures
            r@ == key_bytes(*self, id@),
    {
        let mut key: Vec<u8> = Vec::new();
        put_text(&mut key, self.prefix());
        put_text(&mut key, id);
        assert(key@ =~= key_bytes(*self, id@));
        key
    }
}

/// The key of a snapshot.
pub fn snapshot_key(sequence: u64) -> (r: Vec<u8>)
    ensures
        r@ == snapshot_key_bytes(sequence),
{
    let mut key: Vec<u8> = Vec::new();
    put_text(&mut key, Namespace::Snapshot.prefix());
    put_u64(&mut key, sequence);
    assert(key@ =~= snapshot_key_bytes(sequence));
    key
}

/// The key under which the sequence number of the latest snapshot stands.
pub fn latest_snapshot_key() -> (r: Vec<u8>)
    ensures
        r@ == latest_key_bytes(),
{
    Namespace::Snapshot.key("latest_seq")
}

proof fn lemma_prefix_bytes(n: Namespace)
    ensures
        utf8(prefix_of(n)).len() == prefix_of(n).len(),
        prefix_of(n).len() > 0,
        utf8(prefix_of(n))[0] == (match n {
            Namespace::Nonce => 110u8,
            Namespace::Account => 97u8,
            Namespace::Reservation => 114u8,
            Namespace::Idempotency => 105u8,
            Namespace::Utxo => 117u8,
            Namespace::Withdrawal => 119u8,
            Namespace::Snapshot => 115u8,
            Namespace::Membership => 109u8,
        }),
{
    reveal_strlit("nonce:");
    reveal_strlit("account:");
    reveal_strlit("resv:");
    reveal_strlit("idemp:");
    reveal_strlit("utxo:");
    reveal_strlit("wd:");
    reveal_strlit("snap:");
    reveal_strlit("member:");
    let p = prefix_of(n);
    assert(vstd::utf8::is_ascii_chars(p));
    vstd::utf8::is_ascii_chars_encode_utf8(p);
    assert(p[0] as u8 == utf8(p)[0]);
}

/// Records are isolated: two records stand under the same key only if they
/// are of the same kind and have the same identifier, and no key of one kind
/// begins with the prefix of another.
pub proof fn lemma_namespaces_are_isolated(
    m: Namespace,
    a: Seq<char>,
    n: Namespace,
    b: Seq<char>,
)
    ensures
        key_bytes(m, a) == key_bytes(n, b) ==> m == n && a == b,
        utf8(prefix_of(n)).is_prefix_of(key_bytes(m, a)) <==> m == n,
{
    lemma_prefix_bytes(m);
    lemma_prefix_bytes(n);
    let x = utf8(prefix_of(m));
    let y = utf8(prefix_of(n));
    assert(key_bytes(m, a)[0] == x[0]);
    assert(key_bytes(n, b)[0] == y[0]);
    if key_bytes(m, a) == key_bytes(n, b) {
        lemma_same_split(x, utf8(a), y, utf8(b));
        lemma_utf8_injective(a, b);
    }
    if y.is_prefix_of(key_bytes(m, a)) {
        assert(key_bytes(m, a)[0] == y[0]);
    }
    if m == n {
        assert(key_bytes(m, a).subrange(0, x.len() as int) =~= x);
    }
}

/// Snapshots of different sequence numbers stand under different keys, none
/// of which is that of the latest sequence number.
pub proof fn lemma_snapshot_keys_are_distinct(a: u64, b: u64)
    ensures
        snapshot_key_bytes(a) == snapshot_key_bytes(b) ==> a == b,
        snapshot_key_bytes(a) != latest_key_bytes(),
{
    lemma_prefix_bytes(Namespace::Snapshot);
    lemma_u64_bytes(a, b);
    lemma_u64_bytes(b, a);
    let p = utf8(prefix_of(Namespace::Snapshot));
    if snapshot_key_bytes(a) == snapshot_key_bytes(b) {
        lemma_same_split(p, u64_bytes(a), p, u64_bytes(b));
    }
    reveal_strlit("latest_seq");
    assert(vstd::utf8::is_ascii_chars("latest_seq"@));
    vstd::utf8::is_ascii_chars_encode_utf8("latest_seq"@);
    assert(snapshot_key_bytes(a).len() == p.len() + 8);
    assert(latest_key_bytes().len() == p.len() + 10);
}

/// The error for a store that failed, with the message of the store.
pub fn store_error(message: &str) -> (r: LedgerError)
    ensures
        r@ == ErrorModel::InvariantViolation("sled error: "@ + message@),
{
    let mut m = "sled error: ".to_owned();
    m.append(message);
    LedgerError::InvariantViolation(m)
}

/// The error for a batch that failed, with the message of the store.
pub fn batch_error(message: &str) -> (r: LedgerError)
    ensures
        r@ == ErrorModel::InvariantViolation("sled batch error: "@ + message@),
{
    let mut m = "sled batch error: ".to_owned();
    m.append(message);
    LedgerError::InvariantViolation(m)
}

/// The error for a store that could not be opened, with its message.
pub fn open_error(message: &str) -> (r: LedgerError)
    ensures
        r@ == ErrorModel::InvariantViolation("failed to open sled db: "@ + message@),
{
    let mut m = "failed to open sled db: ".to_owned();
    m.append(message);
    LedgerError::InvariantViolation(m)
}

/// The error for a record that could not be written, with its message.
pub fn serialization_error(message: &str) -> (r: LedgerError)
    ensures
        r@ == ErrorModel::InvariantViolation("serialization error: "@ + message@),
{
    let mut m = "serialization error: ".to_owned();
    m.append(message);
    LedgerError::InvariantViolation(m)
}

/// The error for a record that could not be read, with its message.
pub fn deserialization_error(message: &str) -> (r: LedgerError)
    ensures
        r@ == ErrorModel::InvariantViolation("deserialization error: "@ + message@),
{
    let mut m = "deserialization error: ".to_owned();
    m.append(message);
    LedgerError::InvariantViolation(m)
}

/// A record to write under a key.
#[derive(Debug)]
pub struct Write<T> {
    pub key: Vec<u8>,
    pub value: T,
}

/// The account after a command, given what is stored, or the error. Nothing
/// is written on an error.
pub open spec fn account_commanded(stored: Option<AccountModel>, cmd: BalanceCommand) -> Result<
    AccountModel,
    ErrorModel,
> {
    let id = cmd.account_id@;
    match stored {
        Some(a) if a.version != cmd.expected_version => Err(
            ErrorModel::VersionConflict {
                account: id,
                expected: cmd.expected_version,
                current: a.version,
            },
        ),
        _ => match opened(stored, id, cmd.expected_version) {
            Err(e) => Err(e),
            Ok(a) => match operated(a, cmd.operation, cmd.amount_sats) {
                (after, Ok(_)) => Ok(after),
                (_, Err(e)) => Err(e),
            },
        },
    }
}

/// A command on a single account: the record to write, given what is stored.
pub fn command_write(stored: Option<&AccountState>, cmd: &BalanceCommand) -> (r: Result<
    Write<AccountState>,
    LedgerError,
>)
    requires
        account_commanded(stored_account(stored), *cmd) is Ok ==> cmd.expected_version < u64::MAX,
    ensures
        match r {
            Ok(w) => account_commanded(stored_account(stored), *cmd) == Ok::<
                AccountModel,
                ErrorModel,
            >(w.value@) && w.key@ == key_bytes(Namespace::Account, cmd.account_id@),
            Err(e) => account_commanded(stored_account(stored), *cmd) == Err::<
                AccountModel,
                ErrorModel,
            >(e@),
        },
{
    match stored {
        Some(a) => {
            if a.version != cmd.expected_version {
                return Err(
                    LedgerError::VersionConflict {
                        account: cmd.account_id.clone(),
                        expected: cmd.expected_version,
                        current: a.version,
                    },
                );
            }
        },
        None => {},
    }
    let mut account = match open_account(stored, cmd.account_id.as_str(), cmd.expected_version) {
        Ok(a) => a,
        Err(e) => {
            return Err(e);
        },
    };
    match operate(&mut account, cmd.operation, cmd.amount_sats) {
        Ok(_) => Ok(
            Write { key: Namespace::Account.key(cmd.account_id.as_str()), value: account },
        ),
        Err(e) => Err(e),
    }
}

/// A transfer: the two records to write together, given what is stored.
pub fn transfer_writes(
    source: Option<&AccountState>,
    dest: Option<&AccountState>,
    cmd: &InternalTransferCommand,
) -> (r: Result<(Write<AccountState>, Write<AccountState>), LedgerError>)
    requires
        transfer_fits(stored_account(source), stored_account(dest), *cmd),
    ensures
        match r {
            Ok((s, d)) => {
                &&& transferred(stored_account(source), stored_account(dest), *cmd) == Ok::<
                    (AccountModel, AccountModel),
                    ErrorModel,
                >((s.value@, d.value@))
                &&& s.key@ == key_bytes(Namespace::Account, cmd.source_account_id@)
                &&& d.key@ == key_bytes(Namespace::Account, cmd.destination_account_id@)
            },
            Err(e) => transferred(stored_account(source), stored_account(dest), *cmd) == Err::<
                (AccountModel, AccountModel),
                ErrorModel,
            >(e@),
        },
{
    match transfer_between(source, dest, cmd) {
        Err(e) => Err(e),
        Ok((s, d)) => Ok(
            (
                Write { key: Namespace::Account.key(cmd.source_account_id.as_str()), value: s },
                Write { key: Namespace::Account.key(cmd.destination_account_id.as_str()), value: d },
            ),
        ),
    }
}

/// A new reservation: the record to write, unless there is one.
pub fn create_reservation_write(exists: bool, reservation: Reservation) -> (r: Result<
    Write<Reservation>,
    LedgerError,
>)
    ensures
        match r {
            Ok(w) => !exists && w.value == reservation && w.key@ == key_bytes(
                Namespace::Reservation,
                reservation.reservation_id@,
            ),
            Err(e) => exists && e@ == ErrorModel::InvariantViolation(
                "reservation \'"@ + reservation.reservation_id@ + "\' already exists"@,
            ),
        },
{
    if exists {
        return Err(reservation_exists_error(reservation.reservation_id.as_str()));
    }
    let key = Namespace::Reservation.key(reservation.reservation_id.as_str());
    Ok(Write { key, value: reservation })
}

/// A change of a reservation's state: the record to write, given what is
/// stored.
pub fn transition_write(
    stored: Option<&Reservation>,
    id: &str,
    from: ReservationState,
    to: ReservationState,
) -> (r: Result<Write<Reservation>, LedgerError>)
    ensures
        match r {
            Ok(w) => state_changed(stored_reservation(stored), id@, from, to) == Ok::<
                ReservationModel,
                ErrorModel,
            >(w.value@) && w.key@ == key_bytes(Namespace::Reservation, id@),
            Err(e) => state_changed(stored_reservation(stored), id@, from, to) == Err::<
                ReservationModel,
                ErrorModel,
            >(e@),
        },
{
    match change_state(stored, id, from, to) {
        Ok(changed) => Ok(Write { key: Namespace::Reservation.key(id), value: changed }),
        Err(e) => Err(e),
    }
}

/// A stored reservation as a model, with its key.
pub open spec fn keyed(w: Write<Reservation>) -> (Seq<u8>, ReservationModel) {
    (w.key@, w.value@)
}

/// Stored reservations as models, with their keys.
pub open spec fn all_keyed(s: Seq<Write<Reservation>>) -> Seq<(Seq<u8>, ReservationModel)> {
    Seq::new(s.len(), |i: int| keyed(s[i]))
}

/// The reservations among those stored that expire, as they are written.
pub open spec fn expirations(s: Seq<(Seq<u8>, ReservationModel)>, bucket: u64) -> Seq<
    (Seq<u8>, ReservationModel),
>
    decreases s.len(),
{
    if s.len() == 0 {
        Seq::empty()
    } else {
        let rest = expirations(s.drop_last(), bucket);
        let (key, r) = s.last();
        if stale(r, bucket) {
            rest.push((key, expired_if_stale(r, bucket)))
        } else {
            rest
        }
    }
}

/// Expiry of stale reservations: the records to write, given all that are
/// stored. As many expire as are written.
pub fn expiry_writes(stored: Vec<Write<Reservation>>, current_bucket: u64) -> (r: Vec<
    Write<Reservation>,
>)
    ensures
        all_keyed(r@) == expirations(all_keyed(stored@), current_bucket),
{
    let ghost all = all_keyed(stored@);
    let mut writes: Vec<Write<Reservation>> = Vec::new();
    assert(all_keyed(writes@) =~= expirations(all.take(0), current_bucket));
    for w in it: stored.into_iter()
        invariant
            it.seq() == stored@,
            all == all_keyed(stored@),
            all_keyed(writes@) == expirations(all.take(it.index() as int), current_bucket),
    {
        let ghost before = w;
        proof {
            let k = it.index() as int;
            assert(all.take(k + 1).drop_last() =~= all.take(k));
            assert(all.take(k + 1).last() == keyed(w));
        }
        let mut changed = w.value;
        if expire_if_stale(&mut changed, current_bucket) {
            let ghost done = writes@;
            let next = Write { key: w.key, value: changed };
            writes.push(next);
            assert(all_keyed(writes@) =~= all_keyed(done).push(keyed(next)));
        }
    }
    assert(all.take(all.len() as int) =~= all);
    writes
}

/// The record of an executed command to write.
pub fn idempotency_write(record: IdempotencyRecord) -> (r: Write<IdempotencyRecord>)
    ensures
        r.key@ == key_bytes(Namespace::Idempotency, record.command_id@),
        r.value == record,
{
    let key = Namespace::Idempotency.key(record.command_id.as_str());
    Write { key, value: record }
}

/// The key of an output.
pub fn output_key(outpoint: &OutPoint) -> (r: Vec<u8>)
    ensures
        r@ == key_bytes(Namespace::Utxo, outpoint_text(outpoint@)),
{
    let text = outpoint.to_canonical_string();
    Namespace::Utxo.key(text.as_str())
}

/// A new output: the record to write, or nothing if there is one.
pub fn add_utxo_write(exists: bool, utxo: UtxoEntry) -> (r: Option<Write<UtxoEntry>>)
    ensures
        match r {
            Some(w) => !exists && w.value == utxo && w.key@ == key_bytes(
                Namespace::Utxo,
                utxo_key(utxo@),
            ),
            None => exists,
        },
{
    if exists {
        return None;
    }
    let key = output_key(&utxo.outpoint);
    Some(Write { key, value: utxo })
}

/// What is stored, as a model.
pub open spec fn stored_utxo(u: Option<UtxoEntry>) -> Option<UtxoModel> {
    match u {
        Some(x) => Some(x@),
        None => None,
    }
}

/// The error for an output that is not stored.
pub open spec fn utxo_missing(o: OutPointModel) -> ErrorModel {
    ErrorModel::UtxoNotFound { txid: o.txid, vout: o.vout }
}

/// A change of an output's state.
pub open spec fn utxo_moved(stored: Option<UtxoModel>, o: OutPointModel, target: OnchainState) ->
    Result<UtxoModel, ErrorModel> {
    match stored {
        None => Err(utxo_missing(o)),
        Some(u) => match transition_checked(u.state, target) {
            Err(e) => Err(e),
            Ok(_) => Ok(UtxoModel { state: target, ..u }),
        },
    }
}

/// A reservation of an output.
pub open spec fn utxo_reserved(
    stored: Option<UtxoModel>,
    o: OutPointModel,
    by: Seq<char>,
    bucket: u64,
) -> Result<UtxoModel, ErrorModel> {
    match stored {
        None => Err(utxo_missing(o)),
        Some(u) => if u.state != OnchainState::Spendable && u.state
            != OnchainState::FinalizedByPolicy {
            Err(ErrorModel::InvalidUtxoTransition { from: u.state, to: u.state })
        } else {
            match u.reserved_by {
                Some(other) => Err(ErrorModel::UtxoAlreadyReserved { reserved_by: other }),
                None => Ok(
                    UtxoModel { reserved_by: Some(by), reserved_at_bucket: Some(bucket), ..u },
                ),
            }
        },
    }
}

/// A release of an output.
pub open spec fn utxo_released(stored: Option<UtxoModel>, o: OutPointModel) -> Result<
    UtxoModel,
    ErrorModel,
> {
    match stored {
        None => Err(utxo_missing(o)),
        Some(u) => if u.reserved_by is None {
            Err(ErrorModel::UtxoNotReserved)
        } else {
            Ok(UtxoModel { reserved_by: None, reserved_at_bucket: None, ..u })
        },
    }
}

/// Whether a write is what a change of an output calls for.
pub open spec fn utxo_written(
    r: Result<Write<UtxoEntry>, LedgerError>,
    o: OutPointModel,
    change: Result<UtxoModel, ErrorModel>,
) -> bool {
    match r {
        Ok(w) => change == Ok::<UtxoModel, ErrorModel>(w.value@) && w.key@ == key_bytes(
            Namespace::Utxo,
            outpoint_text(o),
        ),
        Err(e) => change == Err::<UtxoModel, ErrorModel>(e@),
    }
}

/// Makes the error for an output that is not stored.
fn utxo_not_found(outpoint: &OutPoint) -> (r: LedgerError)
    ensures
        r@ == utxo_missing(outpoint@),
{
    LedgerError::UtxoNotFound { txid: outpoint.txid.clone(), vout: outpoint.vout }
}

/// A change of an output's state: the record to write, given what is stored.
pub fn update_utxo_write(
    stored: Option<UtxoEntry>,
    outpoint: &OutPoint,
    new_state: OnchainState,
) -> (r: Result<Write<UtxoEntry>, LedgerError>)
    ensures
        utxo_written(r, outpoint@, utxo_moved(stored_utxo(stored), outpoint@, new_state)),
{
    match stored {
        None => Err(utxo_not_found(outpoint)),
        Some(entry) => match UtxoTransitionGate::validate_transition(entry.state, new_state) {
            Err(e) => Err(e),
            Ok(_) => {
                let mut changed = entry;
                changed.state = new_state;
                Ok(Write { key: output_key(outpoint), value: changed })
            },
        },
    }
}

/// A reservation of an output: the record to write, given what is stored.
pub fn reserve_utxo_write(
    stored: Option<UtxoEntry>,
    outpoint: &OutPoint,
    reserved_by: &str,
    bucket: u64,
) -> (r: Result<Write<UtxoEntry>, LedgerError>)
    ensures
        utxo_written(
            r,
            outpoint@,
            utxo_reserved(stored_utxo(stored), outpoint@, reserved_by@, bucket),
        ),
{
    match stored {
        None => Err(utxo_not_found(outpoint)),
        Some(entry) => {
            if !(entry.state == OnchainState::Spendable || entry.state
                == OnchainState::FinalizedByPolicy) {
                return Err(
                    LedgerError::InvalidUtxoTransition { from: entry.state, to: entry.state },
                );
            }
            match &entry.reserved_by {
                Some(other) => {
                    return Err(LedgerError::UtxoAlreadyReserved { reserved_by: other.clone() });
                },
                None => {},
            }
            let mut changed = entry;
            changed.reserved_by = Some(reserved_by.to_owned());
            changed.reserved_at_bucket = Some(bucket);
            Ok(Write { key: output_key(outpoint), value: changed })
        },
    }
}

/// A release of an output: the record to write, given what is stored.
pub fn release_utxo_write(stored: Option<UtxoEntry>, outpoint: &OutPoint) -> (r: Result<
    Write<UtxoEntry>,
    LedgerError,
>)
    ensures
        utxo_written(r, outpoint@, utxo_released(stored_utxo(stored), outpoint@)),
{
    match stored {
        None => Err(utxo_not_found(outpoint)),
        Some(entry) => {
            if entry.reserved_by.is_none() {
                return Err(LedgerError::UtxoNotReserved);
            }
            let mut changed = entry;
            changed.reserved_by = None;
            changed.reserved_at_bucket = None;
            Ok(Write { key: output_key(outpoint), value: changed })
        },
    }
}

/// An output is reserved by one at a time: while it is reserved every other
/// reservation is refused, and after a release it can be reserved again as
/// before.
pub proof fn lemma_outputs_are_reserved_by_one(
    u: UtxoModel,
    o: OutPointModel,
    by: Seq<char>,
    other: Seq<char>,
    bucket: u64,
    later: u64,
)
    requires
        utxo_reserved(Some(u), o, by, bucket) is Ok,
        u.reserved_at_bucket is None,
    ensures
        utxo_reserved(Some(utxo_reserved(Some(u), o, by, bucket)->Ok_0), o, other, later) == Err::<
            UtxoModel,
            ErrorModel,
        >(ErrorModel::UtxoAlreadyReserved { reserved_by: by }),
        utxo_released(Some(utxo_reserved(Some(u), o, by, bucket)->Ok_0), o) == Ok::<
            UtxoModel,
            ErrorModel,
        >(u),
{
}

/// The order in which outputs are listed.
pub open spec fn utxo_ranking() -> spec_fn(UtxoModel) -> Seq<int> {
    |u: UtxoModel| text_rank(utxo_key(u))
}

impl Ranked for UtxoEntry {
    type Model = UtxoModel;

    open spec fn model(&self) -> UtxoModel {
        self@
    }

    open spec fn ranking() -> spec_fn(UtxoModel) -> Seq<int> {
        utxo_ranking()
    }

    fn ranks_le(&self, other: &Self) -> (r: bool) {
        let a = self.canonical_key();
        let b = other.canonical_key();
        text_le(a.as_str(), b.as_str())
    }
}

/// The outputs in a state, in their order.
pub open spec fn in_state(s: Seq<UtxoModel>, state: OnchainState) -> Seq<UtxoModel>
    decreases s.len(),
{
    if s.len() == 0 {
        Seq::empty()
    } else {
        let rest = in_state(s.drop_last(), state);
        if s.last().state == state {
            rest.push(s.last())
        } else {
            rest
        }
    }
}

/// All stored outputs by ascending key.
pub fn list_utxos(stored: Vec<UtxoEntry>) -> (r: Vec<UtxoEntry>)
    ensures
        utxo_models(r@) == stable_sorted(utxo_models(stored@), utxo_ranking()),
{
    assert(models(stored@) =~= utxo_models(stored@));
    let r = sort_ranked(stored);
    assert(models(r@) =~= utxo_models(r@));
    r
}

/// The stored outputs in a state by ascending key.
pub fn list_utxos_by_state(stored: Vec<UtxoEntry>, state: OnchainState) -> (r: Vec<UtxoEntry>)
    ensures
        utxo_models(r@) == in_state(
            stable_sorted(utxo_models(stored@), utxo_ranking()),
            state,
        ),
{
    let sorted = list_utxos(stored);
    let ghost all = utxo_models(sorted@);
    let mut r: Vec<UtxoEntry> = Vec::new();
    assert(utxo_models(r@) =~= in_state(all.take(0), state));
    for u in it: sorted.into_iter()
        invariant
            it.seq() == sorted@,
            all == utxo_models(sorted@),
            utxo_models(r@) == in_state(all.take(it.index() as int), state),
    {
        let ghost done = r@;
        proof {
            let k = it.index() as int;
            assert(all.take(k + 1).drop_last() =~= all.take(k));
            assert(all.take(k + 1).last() == u@);
        }
        if u.state == state {
            r.push(u);
            assert(utxo_models(r@) =~= utxo_models(done).push(u@));
        }
    }
    assert(all.take(all.len() as int) =~= all);
    r
}

/// The root of all stored outputs.
pub fn stored_utxo_root(stored: Vec<UtxoEntry>) -> (r: String)
    ensures
        r@ == utxo_root(utxo_models(stored@)),
        is_digest_text(r@),
{
    let ghost all = utxo_models(stored@);
    let sorted = list_utxos(stored);
    proof {
        lemma_stable_sorted(all, utxo_ranking());
        lemma_utxo_root_forgets_order(utxo_models(sorted@), all);
    }
    compute_utxo_root(sorted.as_slice())
}

/// A new withdrawal: the record to write, unless there is one.
pub fn create_withdrawal_write(exists: bool, withdrawal: WithdrawalRecord) -> (r: Result<
    Write<WithdrawalRecord>,
    LedgerError,
>)
    ensures
        match r {
            Ok(w) => !exists && w.value == withdrawal && w.key@ == key_bytes(
                Namespace::Withdrawal,
                withdrawal.withdrawal_id@,
            ),
            Err(e) => exists && e@ == ErrorModel::DuplicateEntryId(withdrawal.withdrawal_id@),
        },
{
    if exists {
        return Err(LedgerError::DuplicateEntryId(withdrawal.withdrawal_id));
    }
    let key = Namespace::Withdrawal.key(withdrawal.withdrawal_id.as_str());
    Ok(Write { key, value: withdrawal })
}

/// What is written to save a snapshot: the snapshot under its sequence
/// number, and that number as the latest.
#[derive(Debug)]
pub struct SnapshotWrites {
    pub snapshot: Write<CertifiedSnapshot>,
    pub latest: Write<Vec<u8>>,
}

/// A snapshot to save: what to write, if it passes its structural check.
pub fn snapshot_writes(snapshot: &CertifiedSnapshot) -> (r: Result<SnapshotWrites, LedgerError>)
    ensures
        match r {
            Ok(w) => {
                &&& snapshot_checked(snapshot@) is Ok
                &&& w.snapshot.key@ == snapshot_key_bytes(snapshot.sequence)
                &&& w.snapshot.value@ == snapshot@
                &&& w.latest.key@ == latest_key_bytes()
                &&& w.latest.value@ == u64_bytes(snapshot.sequence)
            },
            Err(e) => snapshot_checked(snapshot@) == Err::<(), ErrorModel>(e@),
        },
{
    match snapshot.verify_basic() {
        Ok(_) => {},
        Err(e) => {
            return Err(e);
        },
    }
    let mut number: Vec<u8> = Vec::new();
    put_u64(&mut number, snapshot.sequence);
    assert(number@ =~= u64_bytes(snapshot.sequence));
    Ok(
        SnapshotWrites {
            snapshot: Write { key: snapshot_key(snapshot.sequence), value: snapshot.clone() },
            latest: Write { key: latest_snapshot_key(), value: number },
        },
    )
}

/// The sequence number that eight little-endian bytes stand for.
pub open spec fn sequence_of(bytes: Seq<u8>) -> Result<u64, ErrorModel> {
    if bytes.len() == 8 {
        Ok(spec_u64_from_le_bytes(bytes))
    } else {
        Err(ErrorModel::InvariantViolation("invalid latest sequence"@))
    }
}

/// Reads the sequence number of the latest snapshot.
pub fn latest_sequence(bytes: &[u8]) -> (r: Result<u64, LedgerError>)
    ensures
        outcome(r) == sequence_of(bytes@),
{
    if bytes.len() != 8 {
        return Err(LedgerError::InvariantViolation("invalid latest sequence".to_owned()));
    }
    Ok(u64_from_le_bytes(bytes))
}

/// The latest sequence number is read back as it was written.
pub proof fn lemma_latest_sequence_round_trip(sequence: u64)
    ensures
        sequence_of(u64_bytes(sequence)) == Ok::<u64, ErrorModel>(sequence),
{
    lemma_auto_spec_u64_to_from_le_bytes();
    assert(spec_u64_to_le_bytes(sequence).len() == 8);
}

/// A new node: the record to write, unless there is one.
pub fn add_node_write(exists: bool, node: NodeMembership) -> (r: Result<
    Write<NodeMembership>,
    LedgerError,
>)
    ensures
        match r {
            Ok(w) => !exists && w.value == node && w.key@ == key_bytes(
                Namespace::Membership,
                node.node_id@,
            ),
            Err(e) => exists && e@ == ErrorModel::InvariantViolation(
                "node \'"@ + node.node_id@ + "\' already exists in membership"@,
            ),
        },
{
    if exists {
        return Err(node_exists_error(node.node_id.as_str()));
    }
    let key = Namespace::Membership.key(node.node_id.as_str());
    Ok(Write { key, value: node })
}

/// Whether a write is what a change of a node calls for.
pub open spec fn node_written(
    r: Result<Write<NodeMembership>, LedgerError>,
    id: Seq<char>,
    change: Result<NodeMembership, ErrorModel>,
) -> bool {
    match r {
        Ok(w) => change == Ok::<NodeMembership, ErrorModel>(w.value) && w.key@ == key_bytes(
            Namespace::Membership,
            id,
        ),
        Err(e) => change == Err::<NodeMembership, ErrorModel>(e@),
    }
}

/// A change of a node's role: the record to write, given what is stored.
pub fn promote_write(stored: Option<&NodeMembership>, node_id: &str, target: NodeRole) -> (r: Result<
    Write<NodeMembership>,
    LedgerError,
>)
    ensures
        node_written(r, node_id@, promoted(stored_node(stored), node_id@, target)),
{
    match promote_node(stored, node_id, target) {
        Ok(n) => Ok(Write { key: Namespace::Membership.key(node_id), value: n }),
        Err(e) => Err(e),
    }
}

/// A heartbeat of a node: the record to write, given what is stored.
pub fn heartbeat_write(stored: Option<&NodeMembership>, node_id: &str, bucket: u64) -> (r: Result<
    Write<NodeMembership>,
    LedgerError,
>)
    ensures
        node_written(r, node_id@, heartbeat(stored_node(stored), node_id@, bucket)),
{
    match record_heartbeat(stored, node_id, bucket) {
        Ok(n) => Ok(Write { key: Namespace::Membership.key(node_id), value: n }),
        Err(e) => Err(e),
    }
}

/// The order in which nodes are listed.
pub open spec fn node_ranking() -> spec_fn(NodeMembership) -> Seq<int> {
    |n: NodeMembership| text_rank(n.node_id@)
}

impl Ranked for NodeMembership {
    type Model = NodeMembership;

    open spec fn model(&self) -> NodeMembership {
        *self
    }

    open spec fn ranking() -> spec_fn(NodeMembership) -> Seq<int> {
        node_ranking()
    }

    fn ranks_le(&self, other: &Self) -> (r: bool) {
        text_le(self.node_id.as_str(), other.node_id.as_str())
    }
}

/// The nodes of a role, in their order.
pub open spec fn with_role(s: Seq<NodeMembership>, role: NodeRole) -> Seq<NodeMembership>
    decreases s.len(),
{
    if s.len() == 0 {
        Seq::empty()
    } else {
        let rest = with_role(s.drop_last(), role);
        if s.last().role == role {
            rest.push(s.last())
        } else {
            rest
        }
    }
}

/// The stored nodes of a role by ascending identifier.
pub fn list_nodes_by_role(stored: Vec<NodeMembership>, role: NodeRole) -> (r: Vec<NodeMembership>)
    ensures
        r@ == with_role(stable_sorted(stored@, node_ranking()), role),
{
    assert(models(stored@) =~= stored@);
    let sorted = sort_ranked(stored);
    assert(models(sorted@) =~= sorted@);
    let ghost all = sorted@;
    let mut r: Vec<NodeMembership> = Vec::new();
    for n in it: sorted.into_iter()
        invariant
            it.seq() == all,
            r@ == with_role(all.take(it.index() as int), role),
    {
        proof {
            let k = it.index() as int;
            assert(all.take(k + 1).drop_last() =~= all.take(k));
            assert(all.take(k + 1).last() == n);
        }
        if n.role == role {
            r.push(n);
        }
    }
    assert(all.take(all.len() as int) =~= all);
    r
}

/// What is written for a command on an account is what the command does: it is
/// accepted exactly at the account's version and within the operation's bounds,
/// and moves exactly its amount.
pub proof fn lemma_account_writes_are_exact(a: AccountModel, cmd: BalanceCommand)
    requires
        a.version < u64::MAX,
    ensures
        ({
            let n = cmd.amount_sats;
            let r = account_commanded(Some(a), cmd);
            let b = r->Ok_0;
            &&& a.version != cmd.expected_version ==> r is Err && r->Err_0 is VersionConflict
            &&& r is Ok <==> a.version == cmd.expected_version && match cmd.operation {
                BalanceOperation::Credit => a.available_sats + n <= u64::MAX,
                BalanceOperation::Debit => n <= a.available_sats,
                BalanceOperation::Reserve => n <= a.available_sats && a.reserved_sats + n
                    <= u64::MAX,
                BalanceOperation::ReleaseReservation => n <= a.reserved_sats && a.available_sats
                    + n <= u64::MAX,
            }
            &&& r is Ok ==> b.version == a.version + 1 && b.account_id == a.account_id
                && match cmd.operation {
                BalanceOperation::Credit => b.available_sats == a.available_sats + n
                    && b.reserved_sats == a.reserved_sats,
                BalanceOperation::Debit => b.available_sats == a.available_sats - n
                    && b.reserved_sats == a.reserved_sats,
                BalanceOperation::Reserve => b.available_sats == a.available_sats - n
                    && b.reserved_sats == a.reserved_sats + n,
                BalanceOperation::ReleaseReservation => b.available_sats == a.available_sats + n
                    && b.reserved_sats == a.reserved_sats - n,
            }
        }),
        account_commanded(None, cmd) is Ok <==> cmd.expected_version == 0 && (cmd.operation
            is Credit || cmd.amount_sats == 0),
        account_commanded(None, cmd) is Ok ==> {
            let b = account_commanded(None, cmd)->Ok_0;
            b.account_id == cmd.account_id@ && b.version == 1 && b.available_sats
                == cmd.amount_sats && b.reserved_sats == 0
        },
        cmd.expected_version != 0 ==> account_commanded(None, cmd)->Err_0 is VersionConflict,
{
}

/// What is written for an output: it moves along its life cycle, is reserved
/// exactly when it can be spent and nobody has reserved it, and is released
/// exactly when somebody has. Nothing but the named parts changes, and nothing is
/// written for one that is not there.
pub proof fn lemma_output_writes_are_exact(
    u: UtxoModel,
    o: OutPointModel,
    target: OnchainState,
    by: Seq<char>,
    bucket: u64,
)
    ensures
        utxo_moved(Some(u), o, target) is Ok <==> transition_checked(u.state, target) is Ok,
        utxo_moved(Some(u), o, target) is Ok ==> {
            let x = utxo_moved(Some(u), o, target)->Ok_0;
            x.state == target && (UtxoModel { state: u.state, ..x }) == u
        },
        utxo_reserved(Some(u), o, by, bucket) is Ok <==> (u.state is Spendable || u.state
            is FinalizedByPolicy) && u.reserved_by is None,
        utxo_reserved(Some(u), o, by, bucket) is Ok ==> {
            let x = utxo_reserved(Some(u), o, by, bucket)->Ok_0;
            &&& x.reserved_by == Some(by) && x.reserved_at_bucket == Some(bucket)
            &&& (UtxoModel {
                reserved_by: u.reserved_by,
                reserved_at_bucket: u.reserved_at_bucket,
                ..x
            }) == u
        },
        utxo_released(Some(u), o) is Ok <==> u.reserved_by is Some,
        utxo_released(Some(u), o) is Ok ==> {
            let x = utxo_released(Some(u), o)->Ok_0;
            &&& x.reserved_by is None && x.reserved_at_bucket is None
            &&& (UtxoModel {
                reserved_by: u.reserved_by,
                reserved_at_bucket: u.reserved_at_bucket,
                ..x
            }) == u
        },
        utxo_moved(None, o, target) is Err && utxo_reserved(None, o, by, bucket) is Err
            && utxo_released(None, o) is Err,
        utxo_moved(None, o, target)->Err_0 == (ErrorModel::UtxoNotFound {
            txid: o.txid,
            vout: o.vout,
        }),
{
}

/// Of the stored reservations exactly those are written whose time has come
/// while they are prepared or committed, each under its own key, expired.
pub proof fn lemma_expirations_are_exact(
    s: Seq<(Seq<u8>, ReservationModel)>,
    key: Seq<u8>,
    r: ReservationModel,
    bucket: u64,
)
    ensures
        expirations(Seq::empty(), bucket).len() == 0,
        ({
            let due = r.expires_at_bucket <= bucket && (r.state is Prepared || r.state
                is Committed);
            &&& !due ==> expirations(s.push((key, r)), bucket) == expirations(s, bucket)
            &&& due ==> expirations(s.push((key, r)), bucket) == expirations(s, bucket).push(
                (key, ReservationModel { state: ReservationState::Expired, ..r }),
            )
        }),
{
    assert(s.push((key, r)).drop_last() =~= s);
}

/// Listing by state or by role gives those that have it, in their order.
pub proof fn lemma_listings_are_exact(
    s: Seq<UtxoModel>,
    u: UtxoModel,
    state: OnchainState,
    nodes: Seq<NodeMembership>,
    n: NodeMembership,
    role: NodeRole,
)
    ensures
        in_state(Seq::empty(), state).len() == 0,
        in_state(s.push(u), state) == (if u.state == state {
            in_state(s, state).push(u)
        } else {
            in_state(s, state)
        }),
        with_role(Seq::empty(), role).len() == 0,
        with_role(nodes.push(n), role) == (if n.role == role {
            with_role(nodes, role).push(n)
        } else {
            with_role(nodes, role)
        }),
{
    assert(s.push(u).drop_last() =~= s);
    assert(nodes.push(n).drop_last() =~= nodes);
}

/// A sequence number is read exactly from eight bytes.
pub proof fn lemma_sequences_are_eight_bytes(bytes: Seq<u8>)
    ensures
        sequence_of(bytes) is Ok <==> bytes.len() == 8,
        sequence_of(bytes) is Ok ==> u64_bytes(sequence_of(bytes)->Ok_0) == bytes,
{
    if bytes.len() == 8 {
        lemma_auto_spec_u64_to_from_le_bytes();
    }
}

} // verus!
