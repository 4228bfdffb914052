//! Nonces that may be used once.

use crate::ledger::error::{outcome, ErrorModel, LedgerError};
use crate::table::Table;
use vstd::prelude::*;

verus! {

/// The outcome of consuming a nonce.
pub open spec fn consumption(consumed: Set<Seq<char>>, nonce: Seq<char>) -> Result<(), ErrorModel> {
    if consumed.contains(nonce) {
        Err(ErrorModel::AuthorizationInvalid("nonce already consumed: "@ + nonce))
    } else {
        Ok(())
    }
}

/// Checks and records nonces, so that none is used twice.
pub trait NonceChecker {
    /// The nonces that were consumed.
    spec fn consumed(&self) -> Set<Seq<char>>;

    /// Whether the record is consistent.
    spec fn valid(&self) -> bool;

    /// Whether a nonce has been consumed.
    fn is_consumed(&self, nonce: &str) -> (r: Result<bool, LedgerError>)
        requires
            self.valid(),
        ensures
            r == Ok::<bool, LedgerError>(self.consumed().contains(nonce@)),
    ;

    /// Consumes a nonce; refuses one that was consumed.
    fn mark_consumed(&mut self, nonce: &str) -> (r: Result<(), LedgerError>)
        requires
            old(self).valid(),
        ensures
            final(self).valid(),
            outcome(r) == consumption(old(self).consumed(), nonce@),
            final(self).consumed() == old(self).consumed().insert(nonce@),
    ;
}

/// The error for a nonce that was consumed.
fn consumed_error(nonce: &str) -> (r: LedgerError)
    ensures
        r@ == ErrorModel::AuthorizationInvalid("nonce already consumed: "@ + nonce@),
{
    let mut m = "nonce already consumed: ".to_owned();
    m.append(nonce);
    LedgerError::AuthorizationInvalid(m)
}

/// The outcome of recording a nonce, given whether it was recorded before.
pub fn nonce_marked(existed: bool, nonce: &str) -> (r: Result<(), LedgerError>)
    ensures
        outcome(r) == (if existed {
            Err(ErrorModel::AuthorizationInvalid("nonce already consumed: "@ + nonce@))
        } else {
            Ok(())
        }),
{
    if existed {
        Err(consumed_error(nonce))
    } else {
        Ok(())
    }
}

/// Nonces in memory.
pub struct InMemoryNonceChecker {
    table: Table<()>,
}

impl InMemoryNonceChecker {
    /// No nonce consumed yet.
    pub fn new() -> (r: Self)
        ensures
            NonceChecker::valid(&r),
            NonceChecker::consumed(&r) == Set::<Seq<char>>::empty(),
            crate::ledger::settlement::NonceChecker::consistent(&r),
            crate::ledger::settlement::NonceChecker::seen(&r) == Set::<Seq<char>>::empty(),
    {
        let r = InMemoryNonceChecker { table: Table::new() };
        assert(NonceChecker::consumed(&r) =~= Set::<Seq<char>>::empty());
        r
    }
}

impl Default for InMemoryNonceChecker {
    fn default() -> (r: Self)
        ensures
            NonceChecker::valid(&r),
            NonceChecker::consumed(&r) == Set::<Seq<char>>::empty(),
            crate::ledger::settlement::NonceChecker::consistent(&r),
            crate::ledger::settlement::NonceChecker::seen(&r) == Set::<Seq<char>>::empty(),
    {
        InMemoryNonceChecker::new()
    }
}

impl NonceChecker for InMemoryNonceChecker {
    closed spec fn consumed(&self) -> Set<Seq<char>> {
        self.table@.dom()
    }

    closed spec fn valid(&self) -> bool {
        self.table.wf()
    }

    fn is_consumed(&self, nonce: &str) -> (r: Result<bool, LedgerError>) {
        Ok(self.table.contains(nonce))
    }

    fn mark_consumed(&mut self, nonce: &str) -> (r: Result<(), LedgerError>) {
        let ghost before = self.table@.dom();
        let existed = self.table.contains(nonce);
        self.table.insert(nonce.to_owned(), ());
        assert(self.table@.dom() =~= before.insert(nonce@));
        nonce_marked(existed, nonce)
    }
}

impl crate::ledger::settlement::NonceChecker for InMemoryNonceChecker {
    closed spec fn seen(&self) -> Set<Seq<char>> {
        self.table@.dom()
    }

    closed spec fn consistent(&self) -> bool {
        self.table.wf()
    }

    fn is_consumed_sync(&self, nonce: &str) -> (r: bool) {
        self.table.contains(nonce)
    }

    fn mark_consumed_sync(&mut self, nonce: &str) {
        let ghost before = self.table@.dom();
        self.table.insert(nonce.to_owned(), ());
        assert(self.table@.dom() =~= before.insert(nonce@));
    }
}

/// Both ways of asking a record in memory give the same answer: what was
/// consumed is what was seen, through whichever it was recorded.
pub proof fn lemma_both_records_agree(checker: InMemoryNonceChecker)
    ensures
        crate::ledger::settlement::NonceChecker::seen(&checker) == NonceChecker::consumed(&checker),
        crate::ledger::settlement::NonceChecker::consistent(&checker) == NonceChecker::valid(
            &checker,
        ),
{
}

/// A nonce is accepted once: after it was consumed it is refused, and no other
/// nonce is affected.
pub proof fn lemma_nonce_is_used_once(consumed: Set<Seq<char>>, nonce: Seq<char>, other: Seq<char>)
    requires
        other != nonce,
    ensures
        consumption(consumed.insert(nonce), nonce) is Err,
        consumption(consumed.insert(nonce), other) == consumption(consumed, other),
{
}

/// A nonce is accepted exactly when it was not consumed before.
pub proof fn lemma_nonces_accepted_exactly(consumed: Set<Seq<char>>, nonce: Seq<char>)
    ensures
        consumption(consumed, nonce) is Ok <==> !consumed.contains(nonce),
        consumption(consumed, nonce) is Err ==> consumption(consumed, nonce)->Err_0
            is AuthorizationInvalid,
{
}

} // verus!
