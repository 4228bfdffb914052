//! Stores in memory: versioned accounts, reservations and executed commands.

use crate::ledger::account_state::{credit, debit, new_account, release, reserve, version_checked,
    AccountModel, AccountState};
use crate::ledger::command::{BalanceCommand, BalanceOperation, InternalTransferCommand};
use crate::ledger::error::{outcome, ErrorModel, LedgerError};
use crate::ledger::idempotency::{check_record, replayed, IdempotencyRecord};
use crate::ledger::reservation::{reservation_state_name, reservation_terminal, Reservation,
    ReservationModel, ReservationState};
use crate::table::Table;
use crate::text::str_eq;
use vstd::prelude::*;

verus! {

/// The result of an operation on an account, with texts as sequences.
pub open spec fn account_outcome(r: Result<AccountState, LedgerError>) -> Result<
    AccountModel,
    ErrorModel,
> {
    match r {
        Ok(a) => Ok(a@),
        Err(e) => Err(e@),
    }
}

/// The result of a transfer, with texts as sequences.
pub open spec fn transfer_outcome(r: Result<(AccountState, AccountState), LedgerError>) -> Result<
    (AccountModel, AccountModel),
    ErrorModel,
> {
    match r {
        Ok(p) => Ok((p.0@, p.1@)),
        Err(e) => Err(e@),
    }
}

/// An operation on an account: the account afterwards, and the outcome.
pub open spec fn operated(a: AccountModel, op: BalanceOperation, amount: u64) -> (
    AccountModel,
    Result<(), ErrorModel>,
) {
    match op {
        BalanceOperation::Credit => credit(a, amount),
        BalanceOperation::Debit => debit(a, amount),
        BalanceOperation::Reserve => reserve(a, amount),
        BalanceOperation::ReleaseReservation => release(a, amount),
    }
}

/// Performs an operation on an account.
pub fn operate(a: &mut AccountState, op: BalanceOperation, amount: u64) -> (r: Result<
    (),
    LedgerError,
>)
    requires
        operated(old(a)@, op, amount).1 is Ok ==> old(a).version < u64::MAX,
    ensures
        (final(a)@, outcome(r)) == operated(old(a)@, op, amount),
{
    match op {
        BalanceOperation::Credit => a.apply_credit(amount),
        BalanceOperation::Debit => a.apply_debit(amount),
        BalanceOperation::Reserve => a.apply_reserve(amount),
        BalanceOperation::ReleaseReservation => a.apply_release_reservation(amount),
    }
}

/// The account that a command works on, given what is stored: refused when
/// the version is not the expected one, new when nothing is stored.
pub open spec fn opened(stored: Option<AccountModel>, id: Seq<char>, expected: u64) -> Result<
    AccountModel,
    ErrorModel,
> {
    match stored {
        Some(a) => match version_checked(a, expected) {
            Ok(_) => Ok(a),
            Err(e) => Err(e),
        },
        None => if expected != 0 {
            Err(ErrorModel::VersionConflict { account: id, expected, current: 0 })
        } else {
            Ok(new_account(id))
        },
    }
}

/// What is stored, as a model.
pub open spec fn stored_account(a: Option<&AccountState>) -> Option<AccountModel> {
    match a {
        Some(x) => Some(x@),
        None => None,
    }
}

/// Opens the account that a command works on.
pub fn open_account(stored: Option<&AccountState>, id: &str, expected: u64) -> (r: Result<
    AccountState,
    LedgerError,
>)
    ensures
        account_outcome(r) == opened(stored_account(stored), id@, expected),
{
    match stored {
        Some(a) => match a.check_version(expected) {
            Ok(_) => Ok(a.clone()),
            Err(e) => Err(e),
        },
        None => {
            if expected != 0 {
                return Err(
                    LedgerError::VersionConflict { account: id.to_owned(), expected, current: 0 },
                );
            }
            Ok(AccountState::new(id))
        },
    }
}

/// The account that a transfer credits: the destination, which has been
/// debited already where it is the source too.
pub open spec fn credited_side(
    source: AccountModel,
    dest: AccountModel,
    cmd: InternalTransferCommand,
) -> AccountModel {
    if cmd.source_account_id@ == cmd.destination_account_id@ {
        debit(source, cmd.amount_sats).0
    } else {
        dest
    }
}

/// A transfer between two accounts, given what is stored for each: both
/// afterwards, or the error.
pub open spec fn transferred(
    source: Option<AccountModel>,
    dest: Option<AccountModel>,
    cmd: InternalTransferCommand,
) -> Result<(AccountModel, AccountModel), ErrorModel> {
    match (source, dest) {
        (None, _) => Err(
            ErrorModel::AtomicTransferFailed(
                "source account \'"@ + cmd.source_account_id@ + "\' not found"@,
            ),
        ),
        (Some(_), None) => Err(
            ErrorModel::AtomicTransferFailed(
                "destination account \'"@ + cmd.destination_account_id@ + "\' not found"@,
            ),
        ),
        (Some(s), Some(d)) => match version_checked(s, cmd.source_expected_version) {
            Err(e) => Err(e),
            Ok(_) => match version_checked(d, cmd.destination_expected_version) {
                Err(e) => Err(e),
                Ok(_) => match debit(s, cmd.amount_sats).1 {
                    Err(e) => Err(e),
                    Ok(_) => {
                        let side = credited_side(s, d, cmd);
                        match credit(side, cmd.amount_sats).1 {
                            Err(e) => Err(e),
                            Ok(_) => Ok(
                                (debit(s, cmd.amount_sats).0, credit(side, cmd.amount_sats).0),
                            ),
                        }
                    },
                },
            },
        },
    }
}

/// Whether a transfer keeps the versions of both accounts in range.
pub open spec fn transfer_fits(
    source: Option<AccountModel>,
    dest: Option<AccountModel>,
    cmd: InternalTransferCommand,
) -> bool {
    source is Some && dest is Some && source->0.version == cmd.source_expected_version
        && dest->0.version == cmd.destination_expected_version && debit(
        source->0,
        cmd.amount_sats,
    ).1 is Ok ==> source->0.version < u64::MAX && (credit(
        credited_side(source->0, dest->0, cmd),
        cmd.amount_sats,
    ).1 is Ok ==> credited_side(source->0, dest->0, cmd).version < u64::MAX)
}

/// Transfers between two stored accounts.
pub fn transfer_between(
    source: Option<&AccountState>,
    dest: Option<&AccountState>,
    cmd: &InternalTransferCommand,
) -> (r: Result<(AccountState, AccountState), LedgerError>)
    requires
        transfer_fits(stored_account(source), stored_account(dest), *cmd),
    ensures
        transfer_outcome(r) == transferred(stored_account(source), stored_account(dest), *cmd),
{
    let mut updated_source = match source {
        Some(a) => a.clone(),
        None => {
            let mut m = "source account '".to_owned();
            m.append(cmd.source_account_id.as_str());
            m.append("' not found");
            return Err(LedgerError::AtomicTransferFailed(m));
        },
    };
    let mut updated_dest = match dest {
        Some(a) => a.clone(),
        None => {
            let mut m = "destination account '".to_owned();
            m.append(cmd.destination_account_id.as_str());
            m.append("' not found");
            return Err(LedgerError::AtomicTransferFailed(m));
        },
    };
    match updated_source.check_version(cmd.source_expected_version) {
        Ok(_) => {},
        Err(e) => {
            return Err(e);
        },
    }
    match updated_dest.check_version(cmd.destination_expected_version) {
        Ok(_) => {},
        Err(e) => {
            return Err(e);
        },
    }
    match updated_source.apply_debit(cmd.amount_sats) {
        Ok(_) => {},
        Err(e) => {
            return Err(e);
        },
    }
    if str_eq(cmd.source_account_id.as_str(), cmd.destination_account_id.as_str()) {
        updated_dest = updated_source.clone();
    }
    match updated_dest.apply_credit(cmd.amount_sats) {
        Ok(_) => {},
        Err(e) => {
            return Err(e);
        },
    }
    Ok((updated_source, updated_dest))
}

/// Accounts by identifier.
pub type Accounts = Map<Seq<char>, AccountModel>;

/// What is stored under an identifier.
pub open spec fn lookup(m: Accounts, id: Seq<char>) -> Option<AccountModel> {
    if m.contains_key(id) {
        Some(m[id])
    } else {
        None
    }
}

/// A command on a single account: the accounts afterwards, and the outcome.
/// An account that is opened stays, also when the operation fails.
pub open spec fn commanded(m: Accounts, cmd: BalanceCommand) -> (
    Accounts,
    Result<AccountModel, ErrorModel>,
) {
    match opened(lookup(m, cmd.account_id@), cmd.account_id@, cmd.expected_version) {
        Err(e) => (m, Err(e)),
        Ok(a) => {
            let (after, r) = operated(a, cmd.operation, cmd.amount_sats);
            (
                m.insert(cmd.account_id@, after),
                match r {
                    Ok(_) => Ok(after),
                    Err(e) => Err(e),
                },
            )
        },
    }
}

/// A transfer: the accounts afterwards, and the outcome. Either both sides
/// are written, the source first, or none.
pub open spec fn transfer_applied(m: Accounts, cmd: InternalTransferCommand) -> (
    Accounts,
    Result<(AccountModel, AccountModel), ErrorModel>,
) {
    let r = transferred(
        lookup(m, cmd.source_account_id@),
        lookup(m, cmd.destination_account_id@),
        cmd,
    );
    match r {
        Err(e) => (m, Err(e)),
        Ok((s, d)) => (m.insert(s.account_id, s).insert(d.account_id, d), Ok((s, d))),
    }
}

/// Versioned accounts in memory.
pub struct InMemoryVersionedAccountStore {
    table: Table<AccountState>,
}

/// The models of stored accounts.
pub open spec fn account_map(m: Map<Seq<char>, AccountState>) -> Accounts {
    Map::new(|k: Seq<char>| m.contains_key(k), |k: Seq<char>| m[k]@)
}

/// The accounts of a list by identifier; a later one wins over an earlier.
pub open spec fn accounts_by_id(s: Seq<AccountState>) -> Accounts
    decreases s.len(),
{
    if s.len() == 0 {
        Map::empty()
    } else {
        accounts_by_id(s.drop_last()).insert(s.last().account_id@, s.last()@)
    }
}

impl InMemoryVersionedAccountStore {
    /// The stored accounts.
    pub closed spec fn accounts(&self) -> Accounts {
        account_map(self.table@)
    }

    /// Whether the store is consistent.
    pub closed spec fn valid(&self) -> bool {
        self.table.wf()
    }

    /// An empty store.
    pub fn new() -> (r: Self)
        ensures
            r.valid(),
            r.accounts() == Map::<Seq<char>, AccountModel>::empty(),
    {
        let r = InMemoryVersionedAccountStore { table: Table::new() };
        assert(r.accounts() =~= Map::<Seq<char>, AccountModel>::empty());
        r
    }

    /// A store with the given accounts.
    pub fn with_accounts(accounts: Vec<AccountState>) -> (r: Self)
        ensures
            r.valid(),
            r.accounts() == accounts_by_id(accounts@),
    {
        let mut r = InMemoryVersionedAccountStore::new();
        let ghost all = accounts@;
        assert(all.take(0) =~= Seq::<AccountState>::empty());
        for a in it: accounts.into_iter()
            invariant
                it.seq() == all,
                r.valid(),
                r.accounts() == accounts_by_id(all.take(it.index() as int)),
        {
            proof {
                let k = it.index() as int;
                assert(all.take(k + 1).drop_last() =~= all.take(k));
                assert(all.take(k + 1).last() == a);
            }
            r.insert(a);
        }
        assert(all.take(all.len() as int) =~= all);
        r
    }

    /// Inserts or replaces an account.
    pub fn insert(&mut self, state: AccountState)
        requires
            old(self).valid(),
        ensures
            final(self).valid(),
            final(self).accounts() == old(self).accounts().insert(state.account_id@, state@),
    {
        let ghost before = self.table@;
        let id = state.account_id.clone();
        self.table.insert(id, state);
        assert(account_map(self.table@) =~= account_map(before).insert(id@, state@));
    }

    /// The account of an identifier.
    pub fn get_account(&self, account_id: &str) -> (r: Result<Option<AccountState>, LedgerError>)
        requires
            self.valid(),
        ensures
            match r {
                Ok(Some(a)) => lookup(self.accounts(), account_id@) == Some(a@),
                Ok(None) => lookup(self.accounts(), account_id@) is None,
                Err(_) => false,
            },
    {
        match self.table.get(account_id) {
            Some(a) => Ok(Some(a.clone())),
            None => Ok(None),
        }
    }

    /// Applies a command on a single account.
    pub fn apply_command(&mut self, cmd: &BalanceCommand) -> (r: Result<AccountState, LedgerError>)
        requires
            old(self).valid(),
            ({
                let a = opened(
                    lookup(old(self).accounts(), cmd.account_id@),
                    cmd.account_id@,
                    cmd.expected_version,
                );
                a is Ok && operated(a->Ok_0, cmd.operation, cmd.amount_sats).1 is Ok
                    ==> a->Ok_0.version < u64::MAX
            }),
        ensures
            final(self).valid(),
            (final(self).accounts(), account_outcome(r)) == commanded(old(self).accounts(), *cmd),
    {
        let ghost before = self.table@;
        let mut account = match open_account(
            self.table.get(cmd.account_id.as_str()),
            cmd.account_id.as_str(),
            cmd.expected_version,
        ) {
            Ok(a) => a,
            Err(e) => {
                return Err(e);
            },
        };
        let result = operate(&mut account, cmd.operation, cmd.amount_sats);
        let answer = account.clone();
        let ghost after = account@;
        self.table.insert(cmd.account_id.clone(), account);
        assert(account_map(self.table@) =~= account_map(before).insert(cmd.account_id@, after));
        match result {
            Ok(_) => Ok(answer),
            Err(e) => Err(e),
        }
    }

    /// Applies a transfer between two existing accounts.
    pub fn apply_transfer(&mut self, cmd: &InternalTransferCommand) -> (r: Result<
        (AccountState, AccountState),
        LedgerError,
    >)
        requires
            old(self).valid(),
            transfer_fits(
                lookup(old(self).accounts(), cmd.source_account_id@),
                lookup(old(self).accounts(), cmd.destination_account_id@),
                *cmd,
            ),
        ensures
            final(self).valid(),
            (final(self).accounts(), transfer_outcome(r)) == transfer_applied(
                old(self).accounts(),
                *cmd,
            ),
    {
        match transfer_between(
            self.table.get(cmd.source_account_id.as_str()),
            self.table.get(cmd.destination_account_id.as_str()),
            cmd,
        ) {
            Err(e) => Err(e),
            Ok((source, dest)) => {
                self.insert(source.clone());
                self.insert(dest.clone());
                Ok((source, dest))
            },
        }
    }
}

impl Default for InMemoryVersionedAccountStore {
    fn default() -> (r: Self)
        ensures
            r.valid(),
            r.accounts() == Map::<Seq<char>, AccountModel>::empty(),
    {
        InMemoryVersionedAccountStore::new()
    }
}

/// A refused transfer changes nothing. An accepted one between different
/// accounts moves exactly its amount and takes both versions one further; one
/// from an account to itself leaves its balance and takes its version two
/// further. No other account is touched.
pub proof fn lemma_transfers_are_atomic(m: Accounts, cmd: InternalTransferCommand)
    requires
        forall|k: Seq<char>| #[trigger] m.contains_key(k) ==> m[k].account_id == k,
        transfer_fits(
            lookup(m, cmd.source_account_id@),
            lookup(m, cmd.destination_account_id@),
            cmd,
        ),
    ensures
        transfer_applied(m, cmd).1 is Err ==> transfer_applied(m, cmd).0 == m,
        transfer_applied(m, cmd).1 is Ok ==> {
            let t = transfer_applied(m, cmd).0;
            let s = cmd.source_account_id@;
            let d = cmd.destination_account_id@;
            &&& s != d ==> {
                &&& t[s].available_sats == m[s].available_sats - cmd.amount_sats
                &&& t[d].available_sats == m[d].available_sats + cmd.amount_sats
                &&& t[s].version == m[s].version + 1
                &&& t[d].version == m[d].version + 1
            }
            &&& s == d ==> {
                &&& t[s].available_sats == m[s].available_sats
                &&& t[s].version == m[s].version + 2
            }
            &&& forall|k: Seq<char>| k != s && k != d && #[trigger] m.contains_key(k) ==> t[k] == m[k]
        },
{
}

/// A command at the wrong version changes nothing, so that no update is lost.
pub proof fn lemma_stale_commands_change_nothing(m: Accounts, cmd: BalanceCommand)
    requires
        m.contains_key(cmd.account_id@),
        m[cmd.account_id@].version != cmd.expected_version,
    ensures
        commanded(m, cmd).0 == m,
        commanded(m, cmd).1 is Err,
{
}

/// Reservations by identifier.
pub type Reservations = Map<Seq<char>, ReservationModel>;

/// The models of stored reservations.
pub open spec fn reservation_map(m: Map<Seq<char>, Reservation>) -> Reservations {
    Map::new(|k: Seq<char>| m.contains_key(k), |k: Seq<char>| m[k]@)
}

/// A change of a reservation's state, given what is stored.
pub open spec fn state_changed(
    stored: Option<ReservationModel>,
    id: Seq<char>,
    from: ReservationState,
    to: ReservationState,
) -> Result<ReservationModel, ErrorModel> {
    match stored {
        None => Err(ErrorModel::ReservationNotFound(id)),
        Some(r) => if r.state != from {
            Err(
                ErrorModel::InvariantViolation(
                    "reservation \'"@ + id + "\' expected state "@ + reservation_state_name(from)
                        + ", found "@ + reservation_state_name(r.state),
                ),
            )
        } else {
            Ok(ReservationModel { state: to, ..r })
        },
    }
}

/// What is stored, as a model.
pub open spec fn stored_reservation(a: Option<&Reservation>) -> Option<ReservationModel> {
    match a {
        Some(x) => Some(x@),
        None => None,
    }
}

/// Changes the state of a stored reservation.
pub fn change_state(
    stored: Option<&Reservation>,
    id: &str,
    from: ReservationState,
    to: ReservationState,
) -> (r: Result<Reservation, LedgerError>)
    ensures
        match r {
            Ok(x) => state_changed(stored_reservation(stored), id@, from, to) == Ok::<
                ReservationModel,
                ErrorModel,
            >(x@),
            Err(e) => state_changed(stored_reservation(stored), id@, from, to) == Err::<
                ReservationModel,
                ErrorModel,
            >(e@),
        },
{
    match stored {
        None => Err(LedgerError::ReservationNotFound(id.to_owned())),
        Some(x) => {
            if x.state != from {
                let mut m = "reservation '".to_owned();
                m.append(id);
                m.append("' expected state ");
                m.append(from.name());
                m.append(", found ");
                m.append(x.state.name());
                return Err(LedgerError::InvariantViolation(m));
            }
            let mut changed = x.clone();
            changed.state = to;
            Ok(changed)
        },
    }
}

/// Whether a reservation is due to expire.
pub open spec fn stale(r: ReservationModel, bucket: u64) -> bool {
    r.expires_at_bucket <= bucket && !reservation_terminal(r.state)
}

/// A reservation after stale ones were expired.
pub open spec fn expired_if_stale(r: ReservationModel, bucket: u64) -> ReservationModel {
    if stale(r, bucket) {
        ReservationModel { state: ReservationState::Expired, ..r }
    } else {
        r
    }
}

/// Expires a reservation if it is due; tells whether it was.
pub fn expire_if_stale(r: &mut Reservation, bucket: u64) -> (due: bool)
    ensures
        due == stale(old(r)@, bucket),
        final(r)@ == expired_if_stale(old(r)@, bucket),
{
    if r.expires_at_bucket <= bucket && !r.is_terminal() {
        r.state = ReservationState::Expired;
        true
    } else {
        false
    }
}

/// All reservations after stale ones were expired.
pub open spec fn all_expired(m: Reservations, bucket: u64) -> Reservations {
    Map::new(|k: Seq<char>| m.contains_key(k), |k: Seq<char>| expired_if_stale(m[k], bucket))
}

/// How many of the given keys hold a stale reservation.
pub open spec fn stale_count(m: Reservations, keys: Seq<Seq<char>>, bucket: u64) -> nat
    decreases keys.len(),
{
    if keys.len() == 0 {
        0
    } else {
        stale_count(m, keys.drop_last(), bucket) + (if stale(m[keys.last()], bucket) {
            1nat
        } else {
            0
        })
    }
}

/// Reservations in memory.
pub struct InMemoryReservationStore {
    table: Table<Reservation>,
}

/// The error for a reservation that exists.
pub fn reservation_exists_error(id: &str) -> (r: LedgerError)
    ensures
        r@ == ErrorModel::InvariantViolation("reservation \'"@ + id@ + "\' already exists"@),
{
    let mut m = "reservation '".to_owned();
    m.append(id);
    m.append("' already exists");
    LedgerError::InvariantViolation(m)
}

impl InMemoryReservationStore {
    /// The stored reservations.
    pub closed spec fn reservations(&self) -> Reservations {
        reservation_map(self.table@)
    }

    /// Whether the store is consistent.
    pub closed spec fn valid(&self) -> bool {
        self.table.wf()
    }

    /// An empty store.
    pub fn new() -> (r: Self)
        ensures
            r.valid(),
            r.reservations() == Map::<Seq<char>, ReservationModel>::empty(),
    {
        let r = InMemoryReservationStore { table: Table::new() };
        assert(r.reservations() =~= Map::<Seq<char>, ReservationModel>::empty());
        r
    }

    /// Stores a new reservation.
    pub fn create_reservation(&mut self, reservation: Reservation) -> (r: Result<(), LedgerError>)
        requires
            old(self).valid(),
        ensures
            final(self).valid(),
            ({
                let id = reservation.reservation_id@;
                if old(self).reservations().contains_key(id) {
                    &&& outcome(r) == Err::<(), ErrorModel>(
                        ErrorModel::InvariantViolation(
                            "reservation \'"@ + id + "\' already exists"@,
                        ),
                    )
                    &&& final(self).reservations() == old(self).reservations()
                } else {
                    &&& r is Ok
                    &&& final(self).reservations() == old(self).reservations().insert(
                        id,
                        reservation@,
                    )
                }
            }),
    {
        let ghost before = self.table@;
        if self.table.contains(reservation.reservation_id.as_str()) {
            return Err(reservation_exists_error(reservation.reservation_id.as_str()));
        }
        let id = reservation.reservation_id.clone();
        self.table.insert(id, reservation);
        assert(reservation_map(self.table@) =~= reservation_map(before).insert(
            id@,
            reservation@,
        ));
        Ok(())
    }

    /// The reservation of an identifier.
    pub fn get_reservation(&self, id: &str) -> (r: Result<Option<Reservation>, LedgerError>)
        requires
            self.valid(),
        ensures
            match r {
                Ok(Some(x)) => self.reservations().contains_key(id@) && x@
                    == self.reservations()[id@],
                Ok(None) => !self.reservations().contains_key(id@),
                Err(_) => false,
            },
    {
        match self.table.get(id) {
            Some(x) => Ok(Some(x.clone())),
            None => Ok(None),
        }
    }

    /// Changes the state of a reservation, which must be in the given one.
    pub fn transition(&mut self, id: &str, from: ReservationState, to: ReservationState) -> (r: Result<
        (),
        LedgerError,
    >)
        requires
            old(self).valid(),
        ensures
            final(self).valid(),
            ({
                let m = old(self).reservations();
                let stored = if m.contains_key(id@) {
                    Some(m[id@])
                } else {
                    None
                };
                match state_changed(stored, id@, from, to) {
                    Ok(x) => r is Ok && final(self).reservations() == m.insert(id@, x),
                    Err(e) => outcome(r) == Err::<(), ErrorModel>(e) && final(self).reservations()
                        == m,
                }
            }),
    {
        let ghost before = self.table@;
        match change_state(self.table.get(id), id, from, to) {
            Err(e) => Err(e),
            Ok(changed) => {
                let ghost x = changed@;
                self.table.insert(id.to_owned(), changed);
                assert(reservation_map(self.table@) =~= reservation_map(before).insert(id@, x));
                Ok(())
            },
        }
    }

    /// Expires every reservation that is due, and says how many.
    pub fn expire_stale(&mut self, current_bucket: u64) -> (r: Result<u64, LedgerError>)
        requires
            old(self).valid(),
        ensures
            final(self).valid(),
            r is Ok,
            r->Ok_0 == stale_count(
                old(self).reservations(),
                crate::table::sorted_keys(old(self).reservations().dom()),
                current_bucket,
            ),
            final(self).reservations() == all_expired(old(self).reservations(), current_bucket),
    {
        let ghost start = self.reservations();
        let ghost keys = self.table.ordered();
        let mut count: u64 = 0;
        let mut i: usize = 0;
        proof {
            self.table.lemma_ordered();
            assert(start.dom() =~= self.table@.dom());
            assert(keys.take(0) =~= Seq::<Seq<char>>::empty());
        }
        let n: usize = self.table.len();
        while i < n
            invariant
                self.table.wf(),
                n == keys.len(),
                i <= n,
                keys == self.table.ordered(),
                keys == crate::table::sorted_keys(start.dom()),
                crate::table::keys_ascend(keys),
                keys.to_set() == start.dom(),
                self.table@.dom() == start.dom(),
                count == stale_count(start, keys.take(i as int), current_bucket),
                count <= i,
                forall|j: int|
                    0 <= j < i ==> self.table@[#[trigger] keys[j]]@ == expired_if_stale(
                        start[keys[j]],
                        current_bucket,
                    ),
                forall|j: int| i <= j < n ==> self.table@[#[trigger] keys[j]]@ == start[keys[j]],
            decreases n - i,
        {
            let ghost before = self.table@;
            let ghost k = keys[i as int];
            proof {
                assert(keys.take(i + 1).drop_last() =~= keys.take(i as int));
                assert(keys.to_set().contains(k));
            }
            let mut reservation = self.table.value_at(i).clone();
            if expire_if_stale(&mut reservation, current_bucket) {
                count = count + 1;
            }
            let key = self.table.key_at(i).clone();
            let ghost x = reservation;
            self.table.insert(key, reservation);
            proof {
                assert(self.table@.dom() =~= before.dom());
                self.table.lemma_ordered();
                assert forall|j: int| 0 <= j < i + 1 implies self.table@[#[trigger] keys[j]]@
                    == expired_if_stale(start[keys[j]], current_bucket) by {
                    if j < i {
                        assert(crate::table::text_before(keys[j], keys[i as int]));
                    }
                }
                assert forall|j: int| i + 1 <= j < n implies self.table@[#[trigger] keys[j]]@
                    == start[keys[j]] by {
                    assert(crate::table::text_before(keys[i as int], keys[j]));
                }
            }
            i += 1;
        }
        proof {
            assert(keys.take(i as int) =~= keys);
            assert forall|k: Seq<char>| self.table@.contains_key(k) implies self.table@[k]@
                == expired_if_stale(start[k], current_bucket) by {
                assert(keys.to_set().contains(k));
                let j = choose|j: int| 0 <= j < keys.len() && keys[j] == k;
                assert(keys[j] == k);
            }
            assert(reservation_map(self.table@) =~= all_expired(start, current_bucket));
        }
        Ok(count)
    }
}

impl Default for InMemoryReservationStore {
    fn default() -> (r: Self)
        ensures
            r.valid(),
            r.reservations() == Map::<Seq<char>, ReservationModel>::empty(),
    {
        InMemoryReservationStore::new()
    }
}

/// After stale reservations were expired none is stale, and a second pass at
/// the same bucket changes nothing.
pub proof fn lemma_expiring_is_idempotent(m: Reservations, bucket: u64)
    ensures
        forall|k: Seq<char>| #[trigger] m.contains_key(k) ==> !stale(
            all_expired(m, bucket)[k],
            bucket,
        ),
        all_expired(all_expired(m, bucket), bucket) == all_expired(m, bucket),
{
    assert(all_expired(all_expired(m, bucket), bucket) =~= all_expired(m, bucket));
}

/// Records of executed commands in memory.
pub struct InMemoryIdempotencyStore {
    table: Table<IdempotencyRecord>,
}

impl InMemoryIdempotencyStore {
    /// The stored records.
    pub closed spec fn records(&self) -> Map<Seq<char>, IdempotencyRecord> {
        self.table@
    }

    /// Whether the store is consistent.
    pub closed spec fn valid(&self) -> bool {
        self.table.wf()
    }

    /// An empty store.
    pub fn new() -> (r: Self)
        ensures
            r.valid(),
            r.records() == Map::<Seq<char>, IdempotencyRecord>::empty(),
    {
        InMemoryIdempotencyStore { table: Table::new() }
    }

    /// Answers a command from its record.
    pub fn check(&self, command_id: &str, command_hash: &str) -> (r: Result<
        Option<IdempotencyRecord>,
        LedgerError,
    >)
        requires
            self.valid(),
        ensures
            outcome(r) == replayed(
                (if self.records().contains_key(command_id@) {
                    Some(self.records()[command_id@])
                } else {
                    None
                }),
                command_id@,
                command_hash@,
            ),
    {
        check_record(self.table.get(command_id), command_id, command_hash)
    }

    /// Stores a record.
    pub fn record(&mut self, record: IdempotencyRecord) -> (r: Result<(), LedgerError>)
        requires
            old(self).valid(),
        ensures
            final(self).valid(),
            r is Ok,
            final(self).records() == old(self).records().insert(record.command_id@, record),
    {
        self.table.insert(record.command_id.clone(), record);
        Ok(())
    }
}

impl Default for InMemoryIdempotencyStore {
    fn default() -> (r: Self)
        ensures
            r.valid(),
            r.records() == Map::<Seq<char>, IdempotencyRecord>::empty(),
    {
        InMemoryIdempotencyStore::new()
    }
}

/// Once a command is recorded, the same command is answered with its record
/// and another command under the same identifier is refused.
pub proof fn lemma_recorded_commands_are_not_executed_again(
    records: Map<Seq<char>, IdempotencyRecord>,
    rec: IdempotencyRecord,
    hash: Seq<char>,
)
    ensures
        ({
            let after = records.insert(rec.command_id@, rec);
            let answer = replayed(Some(after[rec.command_id@]), rec.command_id@, hash);
            &&& hash == rec.command_hash@ ==> answer == Ok::<
                Option<IdempotencyRecord>,
                ErrorModel,
            >(Some(rec))
            &&& hash != rec.command_hash@ ==> answer is Err
        }),
{
}

/// What a command does to a stored account: it is accepted exactly when it is at
/// the account's version and the operation's own bounds hold, moves exactly its
/// amount, and leaves every other account alone; when refused it leaves all.
pub proof fn lemma_commands_are_exact(m: Accounts, cmd: BalanceCommand)
    requires
        m.contains_key(cmd.account_id@),
        m[cmd.account_id@].version < u64::MAX,
    ensures
        ({
            let a = m[cmd.account_id@];
            let n = cmd.amount_sats;
            let (after, r) = commanded(m, cmd);
            let b = after[cmd.account_id@];
            &&& a.version != cmd.expected_version ==> r == Err::<AccountModel, ErrorModel>(
                ErrorModel::VersionConflict {
                    account: a.account_id,
                    expected: cmd.expected_version,
                    current: a.version,
                },
            )
            &&& r is Ok <==> a.version == cmd.expected_version && match cmd.operation {
                BalanceOperation::Credit => a.available_sats + n <= u64::MAX,
                BalanceOperation::Debit => n <= a.available_sats,
                BalanceOperation::Reserve => n <= a.available_sats && a.reserved_sats + n
                    <= u64::MAX,
                BalanceOperation::ReleaseReservation => n <= a.reserved_sats && a.available_sats
                    + n <= u64::MAX,
            }
            &&& r is Ok ==> {
                &&& r->Ok_0 == b
                &&& b.version == a.version + 1
                &&& match cmd.operation {
                    BalanceOperation::Credit => b.available_sats == a.available_sats + n
                        && b.reserved_sats == a.reserved_sats,
                    BalanceOperation::Debit => b.available_sats == a.available_sats - n
                        && b.reserved_sats == a.reserved_sats,
                    BalanceOperation::Reserve => b.available_sats == a.available_sats - n
                        && b.reserved_sats == a.reserved_sats + n,
                    BalanceOperation::ReleaseReservation => b.available_sats == a.available_sats
                        + n && b.reserved_sats == a.reserved_sats - n,
                }
                &&& b.account_id == a.account_id
                &&& b.pending_incoming_sats == a.pending_incoming_sats
                &&& b.pending_outgoing_sats == a.pending_outgoing_sats
                &&& b.last_committed_sequence == a.last_committed_sequence
            }
            &&& r is Err ==> after == m
            &&& after.dom() == m.dom()
            &&& forall|k: Seq<char>|
                k != cmd.account_id@ && m.contains_key(k) ==> #[trigger] after[k] == m[k]
        }),
{
    let (after, r) = commanded(m, cmd);
    assert(after.dom() =~= m.dom());
    if r is Err {
        assert(after =~= m);
    }
}

/// A command for an account that is not there is accepted exactly at version
/// zero, as on an account that holds nothing: a credit, or an amount of zero.
pub proof fn lemma_commands_open_accounts(m: Accounts, cmd: BalanceCommand)
    requires
        !m.contains_key(cmd.account_id@),
    ensures
        ({
            let (after, r) = commanded(m, cmd);
            &&& r is Ok <==> cmd.expected_version == 0 && (cmd.operation is Credit
                || cmd.amount_sats == 0)
            &&& cmd.expected_version != 0 ==> after == m && r == Err::<AccountModel, ErrorModel>(
                ErrorModel::VersionConflict {
                    account: cmd.account_id@,
                    expected: cmd.expected_version,
                    current: 0,
                },
            )
            &&& r is Ok ==> {
                &&& r->Ok_0.account_id == cmd.account_id@
                &&& r->Ok_0.version == 1
                &&& r->Ok_0.available_sats == cmd.amount_sats
                &&& r->Ok_0.reserved_sats == 0
                &&& r->Ok_0.pending_incoming_sats == 0
                &&& r->Ok_0.pending_outgoing_sats == 0
                &&& after == m.insert(cmd.account_id@, r->Ok_0)
            }
        }),
{
}

/// A transfer between two stored accounts is accepted exactly when both are at
/// their versions, the source covers the amount and the destination can take
/// it.
pub proof fn lemma_transfers_accepted_exactly(m: Accounts, cmd: InternalTransferCommand)
    requires
        cmd.source_account_id@ != cmd.destination_account_id@,
    ensures
        ({
            let s = m[cmd.source_account_id@];
            let d = m[cmd.destination_account_id@];
            transfer_applied(m, cmd).1 is Ok <==> {
                &&& m.contains_key(cmd.source_account_id@)
                &&& m.contains_key(cmd.destination_account_id@)
                &&& s.version == cmd.source_expected_version
                &&& d.version == cmd.destination_expected_version
                &&& cmd.amount_sats <= s.available_sats
                &&& d.available_sats + cmd.amount_sats <= u64::MAX
            }
        }),
{
}

/// What an accepted transfer between two accounts leaves in each.
pub proof fn lemma_transfers_move_the_amount(m: Accounts, cmd: InternalTransferCommand)
    requires
        cmd.source_account_id@ != cmd.destination_account_id@,
        transfer_applied(m, cmd).1 is Ok,
        m[cmd.source_account_id@].account_id == cmd.source_account_id@,
        m[cmd.destination_account_id@].account_id == cmd.destination_account_id@,
        m[cmd.source_account_id@].version < u64::MAX,
        m[cmd.destination_account_id@].version < u64::MAX,
    ensures
        ({
            let s = m[cmd.source_account_id@];
            let d = m[cmd.destination_account_id@];
            let (after, r) = transfer_applied(m, cmd);
            let x = after[cmd.source_account_id@];
            let y = after[cmd.destination_account_id@];
            &&& r->Ok_0 == (x, y)
            &&& x.available_sats == s.available_sats - cmd.amount_sats
            &&& y.available_sats == d.available_sats + cmd.amount_sats
            &&& x.reserved_sats == s.reserved_sats && y.reserved_sats == d.reserved_sats
            &&& x.version == s.version + 1 && y.version == d.version + 1
            &&& x.account_id == s.account_id && y.account_id == d.account_id
            &&& after.dom() == m.dom()
            &&& forall|k: Seq<char>|
                k != cmd.source_account_id@ && k != cmd.destination_account_id@ && m.contains_key(k)
                    ==> #[trigger] after[k] == m[k]
        }),
{
    assert(transfer_applied(m, cmd).0.dom() =~= m.dom());
}

/// A transfer from an account to itself is accepted exactly when both versions
/// are its own and it covers the amount.
pub proof fn lemma_transfers_to_self_accepted_exactly(m: Accounts, cmd: InternalTransferCommand)
    requires
        cmd.source_account_id@ == cmd.destination_account_id@,
    ensures
        ({
            let s = m[cmd.source_account_id@];
            transfer_applied(m, cmd).1 is Ok <==> {
                &&& m.contains_key(cmd.source_account_id@)
                &&& s.version == cmd.source_expected_version
                &&& s.version == cmd.destination_expected_version
                &&& cmd.amount_sats <= s.available_sats
            }
        }),
{
}

/// A reservation moves to a state exactly from the state that it is expected
/// in, and nothing but its state changes.
pub proof fn lemma_reservations_move_exactly(
    r: ReservationModel,
    id: Seq<char>,
    from: ReservationState,
    to: ReservationState,
)
    ensures
        state_changed(None, id, from, to) == Err::<ReservationModel, ErrorModel>(
            ErrorModel::ReservationNotFound(id),
        ),
        state_changed(Some(r), id, from, to) is Ok <==> r.state == from,
        r.state == from ==> {
            let x = state_changed(Some(r), id, from, to)->Ok_0;
            &&& x.state == to
            &&& (ReservationModel { state: r.state, ..x }) == r
        },
        r.state != from ==> state_changed(Some(r), id, from, to)->Err_0 is InvariantViolation,
{
}

/// A reservation expires exactly when its time has come while it is prepared or
/// committed, and only its state changes; each that does is counted once.
pub proof fn lemma_expiry_is_exact(
    m: Reservations,
    keys: Seq<Seq<char>>,
    key: Seq<char>,
    bucket: u64,
)
    requires
        m.contains_key(key),
    ensures
        ({
            let r = m[key];
            let due = r.expires_at_bucket <= bucket && (r.state is Prepared || r.state
                is Committed);
            let x = all_expired(m, bucket)[key];
            &&& due ==> x.state is Expired && (ReservationModel { state: r.state, ..x }) == r
            &&& !due ==> x == r
            &&& stale_count(m, keys.push(key), bucket) == stale_count(m, keys, bucket) + (if due {
                1nat
            } else {
                0
            })
            &&& stale_count(m, Seq::empty(), bucket) == 0
            &&& all_expired(m, bucket).dom() == m.dom()
        }),
{
    assert(keys.push(key).drop_last() =~= keys);
    assert(all_expired(m, bucket).dom() =~= m.dom());
}

/// A list of accounts gives a store that holds, under each identifier, the last
/// account of the list that has it.
pub proof fn lemma_lists_make_stores(s: Seq<AccountState>, a: AccountState)
    ensures
        accounts_by_id(Seq::empty()) == Map::<Seq<char>, AccountModel>::empty(),
        accounts_by_id(s.push(a)) == accounts_by_id(s).insert(a.account_id@, a@),
{
    assert(s.push(a).drop_last() =~= s);
}

} // verus!
