//! Versioned balances of one account.

use crate::ledger::error::{outcome, ErrorModel, LedgerError};
use crate::text::{decimal, u64_text};
use vstd::prelude::*;

verus! {

/// The balances of an account under an optimistic version counter.
///
/// Every change of the balances takes the version one further, and callers
/// name the version they expect, so that no update is lost.
#[derive(Debug, PartialEq, Eq)]
pub struct AccountState {
    /// Unique identifier of this account.
    pub account_id: String,
    /// Starts at zero and grows by one with every change.
    pub version: u64,
    /// Balance available for spending (not reserved).
    pub available_sats: u64,
    /// Balance reserved for pending external settlements.
    pub reserved_sats: u64,
    /// Incoming transfers not yet settled.
    pub pending_incoming_sats: u64,
    /// Outgoing transfers not yet settled.
    pub pending_outgoing_sats: u64,
    /// Sequence number of the last committed journal entry for this account.
    pub last_committed_sequence: u64,
}

/// An account with its identifier as a sequence of characters.
pub struct AccountModel {
    pub account_id: Seq<char>,
    pub version: u64,
    pub available_sats: u64,
    pub reserved_sats: u64,
    pub pending_incoming_sats: u64,
    pub pending_outgoing_sats: u64,
    pub last_committed_sequence: u64,
}

impl View for AccountState {
    type V = AccountModel;

    open spec fn view(&self) -> AccountModel {
        AccountModel {
            account_id: self.account_id@,
            version: self.version,
            available_sats: self.available_sats,
            reserved_sats: self.reserved_sats,
            pending_incoming_sats: self.pending_incoming_sats,
            pending_outgoing_sats: self.pending_outgoing_sats,
            last_committed_sequence: self.last_committed_sequence,
        }
    }
}

/// What a sequence of accounts stands for.
pub open spec fn account_models(s: Seq<AccountState>) -> Seq<AccountModel> {
    Seq::new(s.len(), |i: int| s[i]@)
}

impl Clone for AccountState {
    fn clone(&self) -> (r: Self)
        ensures
            r == *self,
    {
        AccountState {
            account_id: self.account_id.clone(),
            version: self.version,
            available_sats: self.available_sats,
            reserved_sats: self.reserved_sats,
            pending_incoming_sats: self.pending_incoming_sats,
            pending_outgoing_sats: self.pending_outgoing_sats,
            last_committed_sequence: self.last_committed_sequence,
        }
    }
}

/// An account that has never been touched.
pub open spec fn new_account(account_id: Seq<char>) -> AccountModel {
    AccountModel {
        account_id,
        version: 0,
        available_sats: 0,
        reserved_sats: 0,
        pending_incoming_sats: 0,
        pending_outgoing_sats: 0,
        last_committed_sequence: 0,
    }
}

/// The account with other balances, one version further.
pub open spec fn rebalanced(a: AccountModel, available: int, reserved: int) -> AccountModel {
    AccountModel {
        version: (a.version + 1) as u64,
        available_sats: available as u64,
        reserved_sats: reserved as u64,
        ..a
    }
}

/// The conflict reported when the expected version is not the current one.
pub open spec fn version_conflict(a: AccountModel, expected: u64) -> ErrorModel {
    ErrorModel::VersionConflict { account: a.account_id, expected, current: a.version }
}

/// The outcome of a version check.
pub open spec fn version_checked(a: AccountModel, expected: u64) -> Result<(), ErrorModel> {
    if a.version != expected {
        Err(version_conflict(a, expected))
    } else {
        Ok(())
    }
}

/// The error for a balance that does not cover an amount.
pub open spec fn insufficient(a: AccountModel, needed: u64) -> ErrorModel {
    ErrorModel::InsufficientFunds { account: a.account_id, available: a.available_sats, needed }
}

/// A credit: the account afterwards, and the outcome.
pub open spec fn credit(a: AccountModel, amount: u64) -> (AccountModel, Result<(), ErrorModel>) {
    if a.available_sats + amount > u64::MAX {
        (
            a,
            Err(
                ErrorModel::InvariantViolation(
                    "balance overflow on credit for account "@ + a.account_id,
                ),
            ),
        )
    } else {
        (rebalanced(a, a.available_sats + amount, a.reserved_sats as int), Ok(()))
    }
}

/// A debit: the account afterwards, and the outcome.
pub open spec fn debit(a: AccountModel, amount: u64) -> (AccountModel, Result<(), ErrorModel>) {
    if a.available_sats < amount {
        (a, Err(insufficient(a, amount)))
    } else {
        (rebalanced(a, a.available_sats - amount, a.reserved_sats as int), Ok(()))
    }
}

/// A reservation of funds: the account afterwards, and the outcome.
pub open spec fn reserve(a: AccountModel, amount: u64) -> (AccountModel, Result<(), ErrorModel>) {
    if a.available_sats < amount {
        (a, Err(insufficient(a, amount)))
    } else if a.reserved_sats + amount > u64::MAX {
        (
            a,
            Err(
                ErrorModel::InvariantViolation("reserved overflow for account "@ + a.account_id),
            ),
        )
    } else {
        (rebalanced(a, a.available_sats - amount, a.reserved_sats + amount), Ok(()))
    }
}

/// The error for more than is reserved.
pub open spec fn not_reserved(verb: Seq<char>, a: AccountModel, amount: u64) -> ErrorModel {
    ErrorModel::InvariantViolation(
        "cannot "@ + verb + " "@ + decimal(amount as nat) + " from reserved (only "@ + decimal(
            a.reserved_sats as nat,
        ) + " reserved) for account "@ + a.account_id,
    )
}

/// The release of reserved funds: the account afterwards, and the outcome.
pub open spec fn release(a: AccountModel, amount: u64) -> (AccountModel, Result<(), ErrorModel>) {
    if a.reserved_sats < amount {
        (a, Err(not_reserved("release"@, a, amount)))
    } else if a.available_sats + amount > u64::MAX {
        (
            a,
            Err(
                ErrorModel::InvariantViolation(
                    "available overflow on release for account "@ + a.account_id,
                ),
            ),
        )
    } else {
        (rebalanced(a, a.available_sats + amount, a.reserved_sats - amount), Ok(()))
    }
}

/// The consumption of reserved funds: the account afterwards, and the outcome.
pub open spec fn consume(a: AccountModel, amount: u64) -> (AccountModel, Result<(), ErrorModel>) {
    if a.reserved_sats < amount {
        (a, Err(not_reserved("consume"@, a, amount)))
    } else {
        (rebalanced(a, a.available_sats as int, a.reserved_sats - amount), Ok(()))
    }
}

/// Writes the error for more than is reserved.
fn not_reserved_error(verb: &str, a: &AccountState, amount: u64) -> (r: LedgerError)
    ensures
        r@ == not_reserved(verb@, a@, amount),
{
    let mut m = "cannot ".to_owned();
    m.append(verb);
    m.append(" ");
    let wanted = u64_text(amount);
    m.append(wanted.as_str());
    m.append(" from reserved (only ");
    let held = u64_text(a.reserved_sats);
    m.append(held.as_str());
    m.append(" reserved) for account ");
    m.append(a.account_id.as_str());
    LedgerError::InvariantViolation(m)
}

impl AccountState {
    /// An account with zero balances at version 0.
    pub fn new(account_id: &str) -> (r: Self)
        ensures
            r@ == new_account(account_id@),
    {
        AccountState {
            account_id: account_id.to_owned(),
            version: 0,
            available_sats: 0,
            reserved_sats: 0,
            pending_incoming_sats: 0,
            pending_outgoing_sats: 0,
            last_committed_sequence: 0,
        }
    }

    /// The spendable balance. The available balance already leaves reserved
    /// funds out.
    pub fn spendable(&self) -> (r: u64)
        ensures
            r == self.available_sats,
    {
        self.available_sats
    }

    /// Checks the expected version against the current one.
    pub fn check_version(&self, expected: u64) -> (r: Result<(), LedgerError>)
        ensures
            outcome(r) == version_checked(self@, expected),
    {
        if self.version != expected {
            return Err(
                LedgerError::VersionConflict {
                    account: self.account_id.clone(),
                    expected,
                    current: self.version,
                },
            );
        }
        Ok(())
    }

    /// Increases the available balance.
    pub fn apply_credit(&mut self, amount: u64) -> (r: Result<(), LedgerError>)
        requires
            credit(old(self)@, amount).1 is Ok ==> old(self).version < u64::MAX,
        ensures
            (final(self)@, outcome(r)) == credit(old(self)@, amount),
    {
        match self.available_sats.checked_add(amount) {
            Some(sum) => {
                self.available_sats = sum;
                self.version = self.version + 1;
                Ok(())
            },
            None => {
                let mut m = "balance overflow on credit for account ".to_owned();
                m.append(self.account_id.as_str());
                Err(LedgerError::InvariantViolation(m))
            },
        }
    }

    /// Decreases the available balance, which must cover the amount.
    pub fn apply_debit(&mut self, amount: u64) -> (r: Result<(), LedgerError>)
        requires
            debit(old(self)@, amount).1 is Ok ==> old(self).version < u64::MAX,
        ensures
            (final(self)@, outcome(r)) == debit(old(self)@, amount),
    {
        if self.spendable() < amount {
            return Err(
                LedgerError::InsufficientFunds {
                    account: self.account_id.clone(),
                    available: self.spendable(),
                    needed: amount,
                },
            );
        }
        self.available_sats = self.available_sats - amount;
        self.version = self.version + 1;
        Ok(())
    }

    /// Moves an amount from the available to the reserved balance.
    pub fn apply_reserve(&mut self, amount: u64) -> (r: Result<(), LedgerError>)
        requires
            reserve(old(self)@, amount).1 is Ok ==> old(self).version < u64::MAX,
        ensures
            (final(self)@, outcome(r)) == reserve(old(self)@, amount),
    {
        if self.spendable() < amount {
            return Err(
                LedgerError::InsufficientFunds {
                    account: self.account_id.clone(),
                    available: self.spendable(),
                    needed: amount,
                },
            );
        }
        match self.reserved_sats.checked_add(amount) {
            Some(sum) => {
                self.available_sats = self.available_sats - amount;
                self.reserved_sats = sum;
                self.version = self.version + 1;
                Ok(())
            },
            None => {
                let mut m = "reserved overflow for account ".to_owned();
                m.append(self.account_id.as_str());
                Err(LedgerError::InvariantViolation(m))
            },
        }
    }

    /// Moves an amount from the reserved back to the available balance.
    pub fn apply_release_reservation(&mut self, amount: u64) -> (r: Result<(), LedgerError>)
        requires
            release(old(self)@, amount).1 is Ok ==> old(self).version < u64::MAX,
        ensures
            (final(self)@, outcome(r)) == release(old(self)@, amount),
    {
        if self.reserved_sats < amount {
            return Err(not_reserved_error("release", self, amount));
        }
        match self.available_sats.checked_add(amount) {
            Some(sum) => {
                self.reserved_sats = self.reserved_sats - amount;
                self.available_sats = sum;
                self.version = self.version + 1;
                Ok(())
            },
            None => {
                let mut m = "available overflow on release for account ".to_owned();
                m.append(self.account_id.as_str());
                Err(LedgerError::InvariantViolation(m))
            },
        }
    }

    /// Removes an amount from the reserved balance without restoring it.
    pub fn apply_consume_reservation(&mut self, amount: u64) -> (r: Result<(), LedgerError>)
        requires
            consume(old(self)@, amount).1 is Ok ==> old(self).version < u64::MAX,
        ensures
            (final(self)@, outcome(r)) == consume(old(self)@, amount),
    {
        if self.reserved_sats < amount {
            return Err(not_reserved_error("consume", self, amount));
        }
        self.reserved_sats = self.reserved_sats - amount;
        self.version = self.version + 1;
        Ok(())
    }

    /// Records the last committed sequence number.
    pub fn set_last_committed_sequence(&mut self, sequence: u64)
        requires
            old(self).version < u64::MAX,
        ensures
            final(self)@ == (AccountModel {
                version: (old(self).version + 1) as u64,
                last_committed_sequence: sequence,
                ..old(self)@
            }),
    {
        self.last_committed_sequence = sequence;
        self.version = self.version + 1;
    }
}

/// What an account holds in total.
pub open spec fn holdings(a: AccountModel) -> int {
    a.available_sats + a.reserved_sats
}

/// Whether an outcome counts as one change: success takes the version exactly
/// one further, failure changes nothing, and the account stays the same
/// account.
pub open spec fn counts_one_change(
    a: AccountModel,
    after: (AccountModel, Result<(), ErrorModel>),
) -> bool {
    &&& after.0.account_id == a.account_id
    &&& after.1 is Ok ==> after.0.version == a.version + 1
    &&& after.1 is Err ==> after.0 == a
}

/// Every balance operation counts its change in the version.
pub proof fn lemma_version_counts_changes(a: AccountModel, amount: u64)
    requires
        a.version < u64::MAX,
    ensures
        counts_one_change(a, credit(a, amount)),
        counts_one_change(a, debit(a, amount)),
        counts_one_change(a, reserve(a, amount)),
        counts_one_change(a, release(a, amount)),
        counts_one_change(a, consume(a, amount)),
{
}

/// Reserving and releasing move funds within the account: what it holds in
/// total stays.
pub proof fn lemma_reserve_and_release_conserve(a: AccountModel, amount: u64)
    ensures
        reserve(a, amount).1 is Ok ==> holdings(reserve(a, amount).0) == holdings(a),
        release(a, amount).1 is Ok ==> holdings(release(a, amount).0) == holdings(a),
{
}

/// Releasing what was reserved restores both balances.
pub proof fn lemma_release_undoes_reserve(a: AccountModel, amount: u64)
    requires
        reserve(a, amount).1 is Ok,
    ensures
        release(reserve(a, amount).0, amount).1 is Ok,
        release(reserve(a, amount).0, amount).0.available_sats == a.available_sats,
        release(reserve(a, amount).0, amount).0.reserved_sats == a.reserved_sats,
{
}

/// A debit of what was credited restores the available balance.
pub proof fn lemma_debit_undoes_credit(a: AccountModel, amount: u64)
    requires
        credit(a, amount).1 is Ok,
    ensures
        debit(credit(a, amount).0, amount).1 is Ok,
        debit(credit(a, amount).0, amount).0.available_sats == a.available_sats,
{
}

/// Consuming a reservation reduces the holdings by exactly its amount.
pub proof fn lemma_consume_settles(a: AccountModel, amount: u64)
    requires
        consume(a, amount).1 is Ok,
    ensures
        holdings(consume(a, amount).0) == holdings(a) - amount,
        consume(a, amount).0.available_sats == a.available_sats,
{
}

/// A credit succeeds exactly when the sum fits, and then the available balance
/// rises by the amount.
pub proof fn lemma_credit_is_exact(a: AccountModel, amount: u64)
    ensures
        ({
            let r = credit(a, amount);
            &&& r.1 is Ok <==> a.available_sats + amount <= u64::MAX
            &&& r.1 is Ok ==> {
                &&& r.0.available_sats == a.available_sats + amount
                &&& r.0.reserved_sats == a.reserved_sats as int
                &&& a.version < u64::MAX ==> r.0.version == a.version + 1
            }
            &&& r.1 is Err ==> {
                &&& r.0 == a
                &&& r.1->Err_0 is InvariantViolation
            }
            &&& r.0.account_id == a.account_id
            &&& r.0.pending_incoming_sats == a.pending_incoming_sats
            &&& r.0.pending_outgoing_sats == a.pending_outgoing_sats
            &&& r.0.last_committed_sequence == a.last_committed_sequence
        }),
{
}

/// A debit succeeds exactly when the available balance covers the amount, and then
/// it falls by it.
pub proof fn lemma_debit_is_exact(a: AccountModel, amount: u64)
    ensures
        ({
            let r = debit(a, amount);
            &&& r.1 is Ok <==> amount <= a.available_sats
            &&& r.1 is Ok ==> {
                &&& r.0.available_sats == a.available_sats - amount
                &&& r.0.reserved_sats == a.reserved_sats as int
                &&& a.version < u64::MAX ==> r.0.version == a.version + 1
            }
            &&& r.1 is Err ==> {
                &&& r.0 == a
                &&& r.1->Err_0 == (ErrorModel::InsufficientFunds {
                account: a.account_id,
                available: a.available_sats,
                needed: amount,
            })
            }
            &&& r.0.account_id == a.account_id
            &&& r.0.pending_incoming_sats == a.pending_incoming_sats
            &&& r.0.pending_outgoing_sats == a.pending_outgoing_sats
            &&& r.0.last_committed_sequence == a.last_committed_sequence
        }),
{
}

/// A reservation succeeds exactly when the available balance covers the amount and
/// the reserved balance can take it, and then the amount moves from one to the
/// other. Short funds are told as such.
pub proof fn lemma_reserve_is_exact(a: AccountModel, amount: u64)
    ensures
        ({
            let r = reserve(a, amount);
            &&& r.1 is Ok <==> amount <= a.available_sats && a.reserved_sats + amount <= u64::MAX
            &&& r.1 is Ok ==> {
                &&& r.0.available_sats == a.available_sats - amount
                &&& r.0.reserved_sats == a.reserved_sats + amount
                &&& a.version < u64::MAX ==> r.0.version == a.version + 1
            }
            &&& r.1 is Err ==> {
                &&& r.0 == a
                &&& amount > a.available_sats ==> r.1->Err_0 == (ErrorModel::InsufficientFunds {
                account: a.account_id,
                available: a.available_sats,
                needed: amount,
            })
            &&& amount <= a.available_sats ==> r.1->Err_0 is InvariantViolation
            }
            &&& r.0.account_id == a.account_id
            &&& r.0.pending_incoming_sats == a.pending_incoming_sats
            &&& r.0.pending_outgoing_sats == a.pending_outgoing_sats
            &&& r.0.last_committed_sequence == a.last_committed_sequence
        }),
{
}

/// A release succeeds exactly when so much is reserved and the available balance
/// can take it, and then the amount moves from one to the other.
pub proof fn lemma_release_is_exact(a: AccountModel, amount: u64)
    ensures
        ({
            let r = release(a, amount);
            &&& r.1 is Ok <==> amount <= a.reserved_sats && a.available_sats + amount <= u64::MAX
            &&& r.1 is Ok ==> {
                &&& r.0.available_sats == a.available_sats + amount
                &&& r.0.reserved_sats == a.reserved_sats - amount
                &&& a.version < u64::MAX ==> r.0.version == a.version + 1
            }
            &&& r.1 is Err ==> {
                &&& r.0 == a
                &&& r.1->Err_0 is InvariantViolation
            }
            &&& r.0.account_id == a.account_id
            &&& r.0.pending_incoming_sats == a.pending_incoming_sats
            &&& r.0.pending_outgoing_sats == a.pending_outgoing_sats
            &&& r.0.last_committed_sequence == a.last_committed_sequence
        }),
{
}

/// A consumption succeeds exactly when so much is reserved, and then the reserved
/// balance falls by it.
pub proof fn lemma_consume_is_exact(a: AccountModel, amount: u64)
    ensures
        ({
            let r = consume(a, amount);
            &&& r.1 is Ok <==> amount <= a.reserved_sats
            &&& r.1 is Ok ==> {
                &&& r.0.available_sats == a.available_sats as int
                &&& r.0.reserved_sats == a.reserved_sats - amount
                &&& a.version < u64::MAX ==> r.0.version == a.version + 1
            }
            &&& r.1 is Err ==> {
                &&& r.0 == a
                &&& r.1->Err_0 is InvariantViolation
            }
            &&& r.0.account_id == a.account_id
            &&& r.0.pending_incoming_sats == a.pending_incoming_sats
            &&& r.0.pending_outgoing_sats == a.pending_outgoing_sats
            &&& r.0.last_committed_sequence == a.last_committed_sequence
        }),
{
}

/// Two reservations of one account come to the same as one of both amounts.
pub proof fn lemma_reservations_add_up(a: AccountModel, first: u64, second: u64)
    requires
        first + second <= a.available_sats,
        a.reserved_sats + first + second <= u64::MAX,
        a.version < u64::MAX - 1,
    ensures
        ({
            let once = reserve(a, (first + second) as u64);
            let twice = reserve(reserve(a, first).0, second);
            &&& reserve(a, first).1 is Ok
            &&& twice.1 is Ok
            &&& once.1 is Ok
            &&& twice.0.available_sats == once.0.available_sats
            &&& twice.0.reserved_sats == once.0.reserved_sats
        }),
{
}

/// A version is accepted exactly when it is the current one, and a conflict
/// names both.
pub proof fn lemma_version_check_is_exact(a: AccountModel, expected: u64)
    ensures
        version_checked(a, expected) is Ok <==> a.version == expected,
        version_checked(a, expected) is Err ==> version_checked(a, expected)->Err_0 == (
        ErrorModel::VersionConflict { account: a.account_id, expected, current: a.version }),
{
}

/// A new account holds nothing at version zero.
pub proof fn lemma_new_accounts_hold_nothing(id: Seq<char>)
    ensures
        new_account(id).account_id == id,
        new_account(id).version == 0,
        new_account(id).available_sats == 0,
        new_account(id).reserved_sats == 0,
        new_account(id).pending_incoming_sats == 0,
        new_account(id).pending_outgoing_sats == 0,
        new_account(id).last_committed_sequence == 0,
{
}

} // verus!
