//! The double-entry journal: balanced, hash-chained entries over the chart of
//! accounts.

use crate::codec::{lemma_same_end, lemma_same_split, lemma_u64_bytes, lemma_utf8_injective, put_text,
    put_u64, u64_bytes, utf8};
use crate::digest::{hex_text, sha256_digest, sha256_hex, sha256_text};
use crate::ledger::account::{account_class, account_name, lemma_account_names_differ, AccountClass,
    StandardAccount};
use crate::ledger::error::{outcome, ErrorModel, LedgerError};
use crate::table::Table;
use crate::text::{clone_option, decimal, decimal_int, i128_text, lemma_decimal_injective,
    lemma_decimal_int_injective, option_text, str_eq, u128_text, u64_text};
use vstd::prelude::*;

verus! {

/// A single debit or credit of an account.
#[derive(Debug, Clone, Copy, PartialEq, Eq, Structural)]
pub struct Posting {
    pub account: StandardAccount,
    pub amount_sats: u64,
}

/// A journal entry, chained to the one before it by hash.
#[derive(Debug, PartialEq, Eq)]
pub struct JournalEntry {
    /// Unique entry identifier (used for idempotency).
    pub entry_id: String,
    /// Position in the journal.
    pub sequence: u64,
    /// Human-readable description.
    pub description: String,
    /// Debit postings.
    pub debits: Vec<Posting>,
    /// Credit postings.
    pub credits: Vec<Posting>,
    /// Time bucket for ordering.
    pub timestamp_bucket: u64,
    /// Hash of this entry's material.
    pub entry_hash: String,
    /// Hash of the previous entry (`None` for the first).
    pub previous_entry_hash: Option<String>,
}

/// A journal entry with its texts and postings as sequences.
pub struct EntryModel {
    pub entry_id: Seq<char>,
    pub sequence: u64,
    pub description: Seq<char>,
    pub debits: Seq<Posting>,
    pub credits: Seq<Posting>,
    pub timestamp_bucket: u64,
    pub entry_hash: Seq<char>,
    pub previous_entry_hash: Option<Seq<char>>,
}

impl View for JournalEntry {
    type V = EntryModel;

    open spec fn view(&self) -> EntryModel {
        EntryModel {
            entry_id: self.entry_id@,
            sequence: self.sequence,
            description: self.description@,
            debits: self.debits@,
            credits: self.credits@,
            timestamp_bucket: self.timestamp_bucket,
            entry_hash: self.entry_hash@,
            previous_entry_hash: option_text(self.previous_entry_hash),
        }
    }
}

/// What a sequence of entries stands for.
pub open spec fn entry_models(s: Seq<JournalEntry>) -> Seq<EntryModel> {
    Seq::new(s.len(), |i: int| s[i]@)
}

/// Clones postings.
fn clone_postings(v: &Vec<Posting>) -> (r: Vec<Posting>)
    ensures
        r@ == v@,
{
    let mut r: Vec<Posting> = Vec::new();
    let mut i: usize = 0;
    while i < v.len()
        invariant
            i <= v@.len(),
            r@ == v@.take(i as int),
        decreases v.len() - i,
    {
        r.push(v[i]);
        assert(v@.take(i + 1) =~= v@.take(i as int).push(v@[i as int]));
        i += 1;
    }
    assert(v@.take(i as int) =~= v@);
    r
}

impl Clone for JournalEntry {
    fn clone(&self) -> (r: Self)
        ensures
            r@ == self@,
    {
        JournalEntry {
            entry_id: self.entry_id.clone(),
            sequence: self.sequence,
            description: self.description.clone(),
            debits: clone_postings(&self.debits),
            credits: clone_postings(&self.credits),
            timestamp_bucket: self.timestamp_bucket,
            entry_hash: self.entry_hash.clone(),
            previous_entry_hash: clone_option(&self.previous_entry_hash),
        }
    }
}

/// The bytes of one posting under a hash.
pub open spec fn posting_bytes(p: Posting) -> Seq<u8> {
    utf8(account_name(p.account)) + utf8(":"@) + u64_bytes(p.amount_sats) + utf8(","@)
}

/// The bytes of postings under a hash.
pub open spec fn postings_bytes(s: Seq<Posting>) -> Seq<u8>
    decreases s.len(),
{
    if s.len() == 0 {
        Seq::empty()
    } else {
        postings_bytes(s.drop_last()) + posting_bytes(s.last())
    }
}

/// The hash of postings.
pub open spec fn postings_hash(s: Seq<Posting>) -> Seq<char> {
    sha256_hex(postings_bytes(s))
}

/// The text whose hash identifies an entry and chains it to the previous one.
pub open spec fn entry_material(
    sequence: u64,
    description: Seq<char>,
    debits: Seq<Posting>,
    credits: Seq<Posting>,
    timestamp_bucket: u64,
    previous: Option<Seq<char>>,
) -> Seq<char> {
    decimal(sequence as nat) + "|"@ + description + "|"@ + postings_hash(debits) + "|"@
        + postings_hash(credits) + "|"@ + (match previous {
        Some(h) => h,
        None => ""@,
    }) + "|"@ + decimal(timestamp_bucket as nat)
}

/// The hash of an entry with the given contents after the given one.
pub open spec fn chained_hash(e: EntryModel, previous: Option<Seq<char>>) -> Seq<char> {
    sha256_hex(
        utf8(
            entry_material(
                e.sequence,
                e.description,
                e.debits,
                e.credits,
                e.timestamp_bucket,
                previous,
            ),
        ),
    )
}

/// The text of an optional slice.
pub open spec fn option_str(v: Option<&str>) -> Option<Seq<char>> {
    match v {
        Some(s) => Some(s@),
        None => None,
    }
}

impl JournalEntry {
    /// Computes the hash of an entry from its contents and the hash of the
    /// previous entry.
    pub fn compute_entry_hash(
        sequence: u64,
        description: &str,
        debits: &[Posting],
        credits: &[Posting],
        timestamp_bucket: u64,
        previous_entry_hash: Option<&str>,
    ) -> (r: String)
        ensures
            r@ == sha256_hex(
                utf8(
                    entry_material(
                        sequence,
                        description@,
                        debits@,
                        credits@,
                        timestamp_bucket,
                        option_str(previous_entry_hash),
                    ),
                ),
            ),
    {
        let debits_hash = Self::hash_postings(debits);
        let credits_hash = Self::hash_postings(credits);
        let prev = match previous_entry_hash {
            Some(h) => h,
            None => "",
        };
        let mut material = u64_text(sequence);
        material.append("|");
        material.append(description);
        material.append("|");
        material.append(debits_hash.as_str());
        material.append("|");
        material.append(credits_hash.as_str());
        material.append("|");
        material.append(prev);
        material.append("|");
        let bucket = u64_text(timestamp_bucket);
        material.append(bucket.as_str());
        sha256_text(material.as_str().as_bytes())
    }

    /// Computes the hash of postings.
    pub fn hash_postings(postings: &[Posting]) -> (r: String)
        ensures
            r@ == postings_hash(postings@),
    {
        let mut buf: Vec<u8> = Vec::new();
        let mut i: usize = 0;
        assert(postings@.take(0) =~= Seq::<Posting>::empty());
        while i < postings.len()
            invariant
                i <= postings@.len(),
                buf@ == postings_bytes(postings@.take(i as int)),
            decreases postings.len() - i,
        {
            let ghost before = buf@;
            let p = postings[i];
            put_text(&mut buf, p.account.name());
            put_text(&mut buf, ":");
            put_u64(&mut buf, p.amount_sats);
            put_text(&mut buf, ",");
            proof {
                assert(postings@.take(i + 1).drop_last() =~= postings@.take(i as int));
                assert(buf@ =~= before + posting_bytes(p));
            }
            i += 1;
        }
        assert(postings@.take(i as int) =~= postings@);
        sha256_text(buf.as_slice())
    }
}

/// Balance of a single account.
#[derive(Debug, Clone, Copy, PartialEq, Eq, Structural)]
pub struct AccountBalance {
    /// The account.
    pub account: StandardAccount,
    /// Its accounting class.
    pub class: AccountClass,
    /// Total debits posted to it.
    pub total_debits_sats: u128,
    /// Total credits posted to it.
    pub total_credits_sats: u128,
    /// Debits minus credits: positive is a debit balance.
    pub net_balance_sats: i128,
}

/// Receipt for a posted entry.
#[derive(Debug, PartialEq, Eq)]
pub struct JournalReceipt {
    /// Position in the journal.
    pub sequence: u64,
    /// Hash of the posted entry.
    pub entry_hash: String,
    /// Hash of the previous entry (`None` for the first).
    pub previous_entry_hash: Option<String>,
    /// Balances after this entry, in the order of the chart of accounts.
    pub account_balances: Vec<AccountBalance>,
    /// Hash of the trial balance after this entry.
    pub trial_balance_hash: String,
}

/// A receipt with its texts and balances as sequences.
pub struct JournalReceiptModel {
    pub sequence: u64,
    pub entry_hash: Seq<char>,
    pub previous_entry_hash: Option<Seq<char>>,
    pub account_balances: Seq<AccountBalance>,
    pub trial_balance_hash: Seq<char>,
}

impl View for JournalReceipt {
    type V = JournalReceiptModel;

    open spec fn view(&self) -> JournalReceiptModel {
        JournalReceiptModel {
            sequence: self.sequence,
            entry_hash: self.entry_hash@,
            previous_entry_hash: option_text(self.previous_entry_hash),
            account_balances: self.account_balances@,
            trial_balance_hash: self.trial_balance_hash@,
        }
    }
}

/// Clones balances.
fn clone_balances(v: &Vec<AccountBalance>) -> (r: Vec<AccountBalance>)
    ensures
        r@ == v@,
{
    let mut r: Vec<AccountBalance> = Vec::new();
    let mut i: usize = 0;
    while i < v.len()
        invariant
            i <= v@.len(),
            r@ == v@.take(i as int),
        decreases v.len() - i,
    {
        r.push(v[i]);
        assert(v@.take(i + 1) =~= v@.take(i as int).push(v@[i as int]));
        i += 1;
    }
    assert(v@.take(i as int) =~= v@);
    r
}

impl Clone for JournalReceipt {
    fn clone(&self) -> (r: Self)
        ensures
            r@ == self@,
    {
        JournalReceipt {
            sequence: self.sequence,
            entry_hash: self.entry_hash.clone(),
            previous_entry_hash: clone_option(&self.previous_entry_hash),
            account_balances: clone_balances(&self.account_balances),
            trial_balance_hash: self.trial_balance_hash.clone(),
        }
    }
}

/// How many accounts the chart has.
pub const ACCOUNTS: usize = 9;

/// The place of an account in the chart.
pub open spec fn chart_index(a: StandardAccount) -> int {
    match a {
        StandardAccount::AssetCustodiedBtc => 0,
        StandardAccount::AssetColdBtc => 1,
        StandardAccount::AssetHotBtc => 2,
        StandardAccount::LiabilityUserBalances => 3,
        StandardAccount::LiabilityPendingWithdrawals => 4,
        StandardAccount::LiabilityInternalReserved => 5,
        StandardAccount::EquityPlatform => 6,
        StandardAccount::ExpenseMinerFees => 7,
        StandardAccount::RevenuePlatformFees => 8,
    }
}

impl StandardAccount {
    /// Every account, in the order of the chart.
    pub const ALL: [StandardAccount; 9] = [
        StandardAccount::AssetCustodiedBtc,
        StandardAccount::AssetColdBtc,
        StandardAccount::AssetHotBtc,
        StandardAccount::LiabilityUserBalances,
        StandardAccount::LiabilityPendingWithdrawals,
        StandardAccount::LiabilityInternalReserved,
        StandardAccount::EquityPlatform,
        StandardAccount::ExpenseMinerFees,
        StandardAccount::RevenuePlatformFees,
    ];

    /// The place of this account in the chart.
    pub fn index(&self) -> (r: usize)
        ensures
            r == chart_index(*self),
            r < ACCOUNTS,
    {
        match self {
            StandardAccount::AssetCustodiedBtc => 0,
            StandardAccount::AssetColdBtc => 1,
            StandardAccount::AssetHotBtc => 2,
            StandardAccount::LiabilityUserBalances => 3,
            StandardAccount::LiabilityPendingWithdrawals => 4,
            StandardAccount::LiabilityInternalReserved => 5,
            StandardAccount::EquityPlatform => 6,
            StandardAccount::ExpenseMinerFees => 7,
            StandardAccount::RevenuePlatformFees => 8,
        }
    }
}

/// The account at a place of the chart.
pub open spec fn chart(i: int) -> StandardAccount {
    if i == 0 {
        StandardAccount::AssetCustodiedBtc
    } else if i == 1 {
        StandardAccount::AssetColdBtc
    } else if i == 2 {
        StandardAccount::AssetHotBtc
    } else if i == 3 {
        StandardAccount::LiabilityUserBalances
    } else if i == 4 {
        StandardAccount::LiabilityPendingWithdrawals
    } else if i == 5 {
        StandardAccount::LiabilityInternalReserved
    } else if i == 6 {
        StandardAccount::EquityPlatform
    } else if i == 7 {
        StandardAccount::ExpenseMinerFees
    } else {
        StandardAccount::RevenuePlatformFees
    }
}

/// A balance with nothing posted.
pub open spec fn zero_balance(a: StandardAccount) -> AccountBalance {
    AccountBalance {
        account: a,
        class: account_class(a),
        total_debits_sats: 0,
        total_credits_sats: 0,
        net_balance_sats: 0,
    }
}

/// Whether balances list every account of the chart in its place.
pub open spec fn charted(b: Seq<AccountBalance>) -> bool {
    &&& b.len() == ACCOUNTS
    &&& forall|i: int| 0 <= i < b.len() ==> (#[trigger] b[i]).account == chart(i) && b[i].class
        == account_class(chart(i))
}

/// The sum of posted amounts.
pub open spec fn posted_sum(s: Seq<Posting>) -> int
    decreases s.len(),
{
    if s.len() == 0 {
        0
    } else {
        posted_sum(s.drop_last()) + s.last().amount_sats
    }
}

/// A 128-bit total read as a signed number.
pub open spec fn as_signed(x: u128) -> int {
    if x <= i128::MAX {
        x as int
    } else {
        x - 0x1_0000_0000_0000_0000_0000_0000_0000_0000
    }
}

/// One posting to the balances: the balances afterwards, and the outcome.
pub open spec fn post_one(b: Seq<AccountBalance>, p: Posting, is_debit: bool) -> (
    Seq<AccountBalance>,
    Result<(), ErrorModel>,
) {
    let i = chart_index(p.account);
    let x = b[i];
    let total = if is_debit {
        x.total_debits_sats
    } else {
        x.total_credits_sats
    };
    let overflow = Err(ErrorModel::BalanceOverflow { account: p.account });
    if total + p.amount_sats > u128::MAX {
        (b, overflow)
    } else {
        let sum = (total + p.amount_sats) as u128;
        let y = if is_debit {
            AccountBalance { total_debits_sats: sum, ..x }
        } else {
            AccountBalance { total_credits_sats: sum, ..x }
        };
        let net = as_signed(y.total_debits_sats) - as_signed(y.total_credits_sats);
        if net < i128::MIN || net > i128::MAX {
            (b.update(i, y), overflow)
        } else {
            (b.update(i, AccountBalance { net_balance_sats: net as i128, ..y }), Ok(()))
        }
    }
}

/// Postings of one side to the balances, up to the first that overflows.
pub open spec fn post_side(b: Seq<AccountBalance>, s: Seq<Posting>, is_debit: bool) -> (
    Seq<AccountBalance>,
    Result<(), ErrorModel>,
)
    decreases s.len(),
{
    if s.len() == 0 {
        (b, Ok(()))
    } else {
        let (before, r) = post_side(b, s.drop_last(), is_debit);
        if r is Err {
            (before, r)
        } else {
            post_one(before, s.last(), is_debit)
        }
    }
}

/// Both sides of an entry to the balances.
pub open spec fn post_both(b: Seq<AccountBalance>, debits: Seq<Posting>, credits: Seq<Posting>) -> (
    Seq<AccountBalance>,
    Result<(), ErrorModel>,
) {
    let (after, r) = post_side(b, debits, true);
    if r is Err {
        (after, r)
    } else {
        post_side(after, credits, false)
    }
}

/// Whether a balance lies on the side that its class allows.
pub open spec fn side_allowed(b: AccountBalance) -> bool {
    match b.class {
        AccountClass::Asset | AccountClass::Expense => b.net_balance_sats >= 0,
        AccountClass::Liability | AccountClass::Equity | AccountClass::Revenue =>
            b.net_balance_sats <= 0,
    }
}

/// The first balance that lies on the wrong side, as an error.
pub open spec fn wrong_side(b: Seq<AccountBalance>) -> Result<(), ErrorModel>
    decreases b.len(),
{
    if b.len() == 0 {
        Ok(())
    } else {
        let before = wrong_side(b.drop_last());
        if before is Err {
            before
        } else if side_allowed(b.last()) {
            Ok(())
        } else {
            Err(
                ErrorModel::NegativeBalance {
                    account: b.last().account,
                    balance: b.last().net_balance_sats,
                },
            )
        }
    }
}

/// One line of the trial balance.
pub open spec fn balance_line(b: AccountBalance) -> Seq<char> {
    account_name(b.account) + "|"@ + decimal(b.total_debits_sats as nat) + "|"@ + decimal(
        b.total_credits_sats as nat,
    ) + "|"@ + decimal_int(b.net_balance_sats as int)
}

/// The bytes of the trial balance under its hash.
pub open spec fn trial_bytes(b: Seq<AccountBalance>) -> Seq<u8>
    decreases b.len(),
{
    if b.len() == 0 {
        Seq::empty()
    } else {
        trial_bytes(b.drop_last()) + utf8(balance_line(b.last())) + utf8("\n"@)
    }
}

/// The books: the journal, the balances and the receipts by entry identifier.
pub struct Books {
    pub entries: Seq<EntryModel>,
    pub balances: Seq<AccountBalance>,
    pub receipts: Map<Seq<char>, JournalReceiptModel>,
}

/// The hash of the last entry.
pub open spec fn head(entries: Seq<EntryModel>) -> Option<Seq<char>> {
    if entries.len() == 0 {
        None
    } else {
        Some(entries.last().entry_hash)
    }
}

/// Whether the link to the previous entry is right.
pub open spec fn link_checked(previous: Option<Seq<char>>, given: Option<Seq<char>>) -> Result<
    (),
    ErrorModel,
> {
    match (previous, given) {
        (Some(expected), Some(got)) => if expected != got {
            Err(
                ErrorModel::InvalidHash(
                    "previous_entry_hash mismatch: expected "@ + expected + ", got "@ + got,
                ),
            )
        } else {
            Ok(())
        },
        (None, Some(_)) => Err(
            ErrorModel::InvalidHash("genesis entry should have previous_entry_hash = None"@),
        ),
        (Some(_), None) => Err(
            ErrorModel::InvalidHash("non-genesis entry must have a previous_entry_hash"@),
        ),
        (None, None) => Ok(()),
    }
}

/// Whether an entry may be posted, apart from its effect on the balances.
pub open spec fn entry_checked(entries: Seq<EntryModel>, e: EntryModel) -> Result<(), ErrorModel> {
    if e.debits.len() == 0 || e.credits.len() == 0 {
        Err(ErrorModel::EmptyEntry)
    } else if posted_sum(e.debits) != posted_sum(e.credits) {
        Err(
            ErrorModel::UnbalancedEntry {
                debits_sum: posted_sum(e.debits) as u128,
                credits_sum: posted_sum(e.credits) as u128,
            },
        )
    } else if e.sequence != entries.len() {
        Err(ErrorModel::SequenceGap { expected: entries.len() as u64, got: e.sequence })
    } else if e.entry_hash != chained_hash(e, head(entries)) {
        Err(ErrorModel::InvalidHash(chained_hash(e, head(entries))))
    } else {
        link_checked(head(entries), e.previous_entry_hash)
    }
}

/// The receipt for an entry after which the balances are `b`.
pub open spec fn receipt_for(e: EntryModel, b: Seq<AccountBalance>) -> JournalReceiptModel {
    JournalReceiptModel {
        sequence: e.sequence,
        entry_hash: e.entry_hash,
        previous_entry_hash: e.previous_entry_hash,
        account_balances: b,
        trial_balance_hash: sha256_hex(trial_bytes(b)),
    }
}

/// Posting an entry: the books afterwards, and the receipt or the error.
///
/// An entry identifier that is known gets its receipt again. An entry that
/// fails its checks, overflows a balance or would leave a balance on the wrong
/// side changes nothing.
pub open spec fn posted(books: Books, e: EntryModel) -> (
    Books,
    Result<JournalReceiptModel, ErrorModel>,
) {
    if books.receipts.contains_key(e.entry_id) {
        (books, Ok(books.receipts[e.entry_id]))
    } else {
        match entry_checked(books.entries, e) {
            Err(x) => (books, Err(x)),
            Ok(_) => {
                let (balances, r) = post_both(books.balances, e.debits, e.credits);
                match r {
                    Err(x) => (books, Err(x)),
                    Ok(_) => match wrong_side(balances) {
                        Err(x) => (books, Err(x)),
                        Ok(_) => (
                            Books {
                                entries: books.entries.push(e),
                                balances,
                                receipts: books.receipts.insert(
                                    e.entry_id,
                                    receipt_for(e, balances),
                                ),
                            },
                            Ok(receipt_for(e, balances)),
                        ),
                    },
                }
            },
        }
    }
}

/// The result of posting with texts as sequences.
pub open spec fn receipt_outcome(r: Result<JournalReceipt, LedgerError>) -> Result<
    JournalReceiptModel,
    ErrorModel,
> {
    match r {
        Ok(v) => Ok(v@),
        Err(e) => Err(e@),
    }
}

/// A double-entry ledger.
pub trait LedgerPort {
    /// The books that the ledger keeps.
    spec fn books(&self) -> Books;

    /// Whether the ledger is consistent.
    spec fn valid(&self) -> bool;

    /// Posts an entry: checks it, applies it to the balances and records it.
    fn post_entry(&mut self, entry: JournalEntry) -> (r: Result<JournalReceipt, LedgerError>)
        requires
            old(self).valid(),
        ensures
            final(self).valid(),
            (final(self).books(), receipt_outcome(r)) == posted(old(self).books(), entry@),
    ;

    /// The balance of an account.
    fn account_balance(&self, account: StandardAccount) -> (r: Result<AccountBalance, LedgerError>)
        requires
            self.valid(),
        ensures
            r == Ok::<AccountBalance, LedgerError>(self.books().balances[chart_index(account)]),
    ;

    /// All balances, in the order of the chart of accounts.
    fn trial_balance(&self) -> (r: Result<Vec<AccountBalance>, LedgerError>)
        requires
            self.valid(),
        ensures
            r is Ok,
            r->Ok_0@ == self.books().balances,
    ;

    /// The entry at a position of the journal.
    fn get_entry(&self, sequence: u64) -> (r: Result<Option<JournalEntry>, LedgerError>)
        requires
            self.valid(),
        ensures
            match r {
                Ok(Some(e)) => sequence < self.books().entries.len() && e@
                    == self.books().entries[sequence as int],
                Ok(None) => sequence >= self.books().entries.len(),
                Err(_) => false,
            },
    ;

    /// How many entries the journal holds.
    fn entry_count(&self) -> (r: Result<u64, LedgerError>)
        requires
            self.valid(),
        ensures
            r is Ok,
            r->Ok_0 == self.books().entries.len(),
    ;

    /// The hash of the last entry.
    fn head_hash(&self) -> (r: Result<Option<String>, LedgerError>)
        requires
            self.valid(),
        ensures
            r is Ok,
            option_text(r->Ok_0) == head(self.books().entries),
    ;
}

/// What receipts stand for.
pub open spec fn receipt_models(m: Map<Seq<char>, JournalReceipt>) -> Map<
    Seq<char>,
    JournalReceiptModel,
> {
    Map::new(|k: Seq<char>| m.contains_key(k), |k: Seq<char>| m[k]@)
}

/// A double-entry ledger in memory.
pub struct InMemoryLedger {
    entries: Vec<JournalEntry>,
    balances: Vec<AccountBalance>,
    receipts: Table<JournalReceipt>,
}

/// The books before anything was posted.
pub open spec fn empty_books() -> Books {
    Books {
        entries: Seq::empty(),
        balances: Seq::new(ACCOUNTS as nat, |i: int| zero_balance(chart(i))),
        receipts: Map::empty(),
    }
}

/// Adds up amounts. A sum of 64-bit amounts fits into 128 bits for any number
/// of postings that memory can hold.
fn sum_postings(postings: &Vec<Posting>) -> (r: u128)
    ensures
        r == posted_sum(postings@),
{
    let mut sum: u128 = 0;
    let mut i: usize = 0;
    assert(postings@.take(0) =~= Seq::<Posting>::empty());
    while i < postings.len()
        invariant
            i <= postings@.len(),
            sum == posted_sum(postings@.take(i as int)),
            sum <= i * 0xffff_ffff_ffff_ffff,
        decreases postings.len() - i,
    {
        proof {
            assert(postings@.take(i + 1).drop_last() =~= postings@.take(i as int));
            assert(i * 0xffff_ffff_ffff_ffff + 0xffff_ffff_ffff_ffff == (i + 1)
                * 0xffff_ffff_ffff_ffff) by (nonlinear_arith);
            assert((i + 1) * 0xffff_ffff_ffff_ffff <= u128::MAX) by (nonlinear_arith)
                requires
                    i + 1 <= 0x1_0000_0000_0000_0000,
            ;
        }
        sum = sum + postings[i].amount_sats as u128;
        i += 1;
    }
    assert(postings@.take(i as int) =~= postings@);
    sum
}

/// Reads a 128-bit total as a signed number.
fn signed_total(x: u128) -> (r: i128)
    ensures
        r == as_signed(x),
{
    if x <= 0x7fff_ffff_ffff_ffff_ffff_ffff_ffff_ffff {
        x as i128
    } else {
        let excess: i128 = (x - 0x8000_0000_0000_0000_0000_0000_0000_0000) as i128;
        i128::MIN + excess
    }
}

impl InMemoryLedger {
    /// Computes the hash of the trial balance.
    fn compute_trial_balance_hash(balances: &Vec<AccountBalance>) -> (r: String)
        ensures
            r@ == sha256_hex(trial_bytes(balances@)),
    {
        let mut buf: Vec<u8> = Vec::new();
        let mut i: usize = 0;
        assert(balances@.take(0) =~= Seq::<AccountBalance>::empty());
        while i < balances.len()
            invariant
                i <= balances@.len(),
                buf@ == trial_bytes(balances@.take(i as int)),
            decreases balances.len() - i,
        {
            let ghost before = buf@;
            let b = balances[i];
            let mut line = b.account.name().to_owned();
            line.append("|");
            let debits = u128_text(b.total_debits_sats);
            line.append(debits.as_str());
            line.append("|");
            let credits = u128_text(b.total_credits_sats);
            line.append(credits.as_str());
            line.append("|");
            let net = i128_text(b.net_balance_sats);
            line.append(net.as_str());
            put_text(&mut buf, line.as_str());
            put_text(&mut buf, "\n");
            proof {
                assert(balances@.take(i + 1).drop_last() =~= balances@.take(i as int));
                assert(buf@ =~= before + utf8(balance_line(b)) + utf8("\n"@));
            }
            i += 1;
        }
        assert(balances@.take(i as int) =~= balances@);
        sha256_text(buf.as_slice())
    }

    /// Zero balances for every account.
    fn initial_balances() -> (r: Vec<AccountBalance>)
        ensures
            r@ == empty_books().balances,
            charted(r@),
    {
        let mut r: Vec<AccountBalance> = Vec::new();
        let all = StandardAccount::ALL;
        let mut i: usize = 0;
        while i < 9
            invariant
                i <= 9,
                r@.len() == i,
                all == StandardAccount::ALL,
                forall|j: int| 0 <= j < i ==> #[trigger] r@[j] == zero_balance(chart(j)),
            decreases 9 - i,
        {
            let account = all[i];
            assert(account == chart(i as int));
            r.push(
                AccountBalance {
                    account,
                    class: account.class(),
                    total_debits_sats: 0,
                    total_credits_sats: 0,
                    net_balance_sats: 0,
                },
            );
            i += 1;
        }
        assert(r@ =~= empty_books().balances);
        r
    }

    /// An empty ledger.
    pub fn new() -> (r: Self)
        ensures
            r.valid(),
            r.books() == empty_books(),
    {
        let r = InMemoryLedger {
            entries: Vec::new(),
            balances: Self::initial_balances(),
            receipts: Table::new(),
        };
        proof {
            assert(entry_models(r.entries@) =~= Seq::<EntryModel>::empty());
            assert(receipt_models(r.receipts@) =~= Map::<Seq<char>, JournalReceiptModel>::empty());
        }
        r
    }

    /// Applies one posting.
    fn post(balances: &mut Vec<AccountBalance>, p: Posting, is_debit: bool) -> (r: Result<
        (),
        LedgerError,
    >)
        requires
            charted(old(balances)@),
        ensures
            charted(final(balances)@),
            (final(balances)@, outcome(r)) == post_one(old(balances)@, p, is_debit),
    {
        let i: usize = p.account.index();
        let mut b = balances[i];
        let amount: u128 = p.amount_sats as u128;
        if is_debit {
            match b.total_debits_sats.checked_add(amount) {
                Some(sum) => {
                    b.total_debits_sats = sum;
                },
                None => {
                    return Err(LedgerError::BalanceOverflow { account: p.account });
                },
            }
        } else {
            match b.total_credits_sats.checked_add(amount) {
                Some(sum) => {
                    b.total_credits_sats = sum;
                },
                None => {
                    return Err(LedgerError::BalanceOverflow { account: p.account });
                },
            }
        }
        let debits: i128 = signed_total(b.total_debits_sats);
        let credits: i128 = signed_total(b.total_credits_sats);
        match debits.checked_sub(credits) {
            Some(net) => {
                b.net_balance_sats = net;
                balances[i] = b;
                Ok(())
            },
            None => {
                balances[i] = b;
                Err(LedgerError::BalanceOverflow { account: p.account })
            },
        }
    }

    /// Applies the postings of one side.
    fn post_all(balances: &mut Vec<AccountBalance>, postings: &Vec<Posting>, is_debit: bool) -> (r:
        Result<(), LedgerError>)
        requires
            charted(old(balances)@),
        ensures
            charted(final(balances)@),
            (final(balances)@, outcome(r)) == post_side(old(balances)@, postings@, is_debit),
    {
        let ghost start = balances@;
        let mut i: usize = 0;
        assert(postings@.take(0) =~= Seq::<Posting>::empty());
        while i < postings.len()
            invariant
                i <= postings@.len(),
                charted(balances@),
                start == old(balances)@,
                post_side(start, postings@.take(i as int), is_debit) == (
                    balances@,
                    Ok::<(), ErrorModel>(()),
                ),
            decreases postings.len() - i,
        {
            proof {
                assert(postings@.take(i + 1).drop_last() =~= postings@.take(i as int));
            }
            match Self::post(balances, postings[i], is_debit) {
                Ok(_) => {},
                Err(e) => {
                    proof {
                        lemma_post_side_stops(start, postings@, is_debit, i + 1);
                    }
                    return Err(e);
                },
            }
            i += 1;
        }
        assert(postings@.take(i as int) =~= postings@);
        Ok(())
    }

    /// Looks for a balance on the wrong side.
    fn check_sides(balances: &Vec<AccountBalance>) -> (r: Result<(), LedgerError>)
        ensures
            outcome(r) == wrong_side(balances@),
    {
        let mut i: usize = 0;
        assert(balances@.take(0) =~= Seq::<AccountBalance>::empty());
        while i < balances.len()
            invariant
                i <= balances@.len(),
                wrong_side(balances@.take(i as int)) == Ok::<(), ErrorModel>(()),
            decreases balances.len() - i,
        {
            proof {
                assert(balances@.take(i + 1).drop_last() =~= balances@.take(i as int));
            }
            let b = balances[i];
            let allowed = match b.class {
                AccountClass::Asset | AccountClass::Expense => b.net_balance_sats >= 0,
                AccountClass::Liability | AccountClass::Equity | AccountClass::Revenue =>
                    b.net_balance_sats <= 0,
            };
            if !allowed {
                proof {
                    lemma_wrong_side_stops(balances@, i + 1);
                }
                return Err(
                    LedgerError::NegativeBalance {
                        account: b.account,
                        balance: b.net_balance_sats,
                    },
                );
            }
            i += 1;
        }
        assert(balances@.take(i as int) =~= balances@);
        Ok(())
    }

    /// Checks the link of an entry to the one before it.
    fn check_link(previous: Option<&str>, given: Option<&str>) -> (r: Result<(), LedgerError>)
        ensures
            outcome(r) == link_checked(option_str(previous), option_str(given)),
    {
        match (previous, given) {
            (Some(expected), Some(got)) => {
                if !str_eq(expected, got) {
                    let mut m = "previous_entry_hash mismatch: expected ".to_owned();
                    m.append(expected);
                    m.append(", got ");
                    m.append(got);
                    return Err(LedgerError::InvalidHash(m));
                }
                Ok(())
            },
            (None, Some(_)) => Err(
                LedgerError::InvalidHash(
                    "genesis entry should have previous_entry_hash = None".to_owned(),
                ),
            ),
            (Some(_), None) => Err(
                LedgerError::InvalidHash(
                    "non-genesis entry must have a previous_entry_hash".to_owned(),
                ),
            ),
            (None, None) => Ok(()),
        }
    }

    /// Checks an entry against the journal.
    fn check_entry(&self, entry: &JournalEntry) -> (r: Result<(), LedgerError>)
        requires
            self.valid(),
        ensures
            outcome(r) == entry_checked(self.books().entries, entry@),
    {
        let ghost entries = self.books().entries;
        if entry.debits.len() == 0 || entry.credits.len() == 0 {
            return Err(LedgerError::EmptyEntry);
        }
        let debits_sum: u128 = sum_postings(&entry.debits);
        let credits_sum: u128 = sum_postings(&entry.credits);
        if debits_sum != credits_sum {
            return Err(LedgerError::UnbalancedEntry { debits_sum, credits_sum });
        }
        let expected: u64 = self.entries.len() as u64;
        if entry.sequence != expected {
            return Err(LedgerError::SequenceGap { expected, got: entry.sequence });
        }
        let n: usize = self.entries.len();
        let previous: Option<&str> = if n == 0 {
            None
        } else {
            Some(self.entries[n - 1].entry_hash.as_str())
        };
        assert(option_str(previous) == head(entries));
        let computed = JournalEntry::compute_entry_hash(
            entry.sequence,
            entry.description.as_str(),
            entry.debits.as_slice(),
            entry.credits.as_slice(),
            entry.timestamp_bucket,
            previous,
        );
        if !str_eq(entry.entry_hash.as_str(), computed.as_str()) {
            return Err(LedgerError::InvalidHash(computed));
        }
        let given: Option<&str> = match &entry.previous_entry_hash {
            Some(h) => Some(h.as_str()),
            None => None,
        };
        Self::check_link(previous, given)
    }
}

proof fn lemma_post_side_stops(b: Seq<AccountBalance>, s: Seq<Posting>, is_debit: bool, k: int)
    requires
        0 <= k <= s.len(),
        post_side(b, s.take(k), is_debit).1 is Err,
    ensures
        post_side(b, s, is_debit) == post_side(b, s.take(k), is_debit),
    decreases s.len() - k,
{
    if k == s.len() {
        assert(s.take(k) =~= s);
    } else {
        assert(s.take(k + 1).drop_last() =~= s.take(k));
        lemma_post_side_stops(b, s, is_debit, k + 1);
    }
}

proof fn lemma_wrong_side_stops(b: Seq<AccountBalance>, k: int)
    requires
        0 <= k <= b.len(),
        wrong_side(b.take(k)) is Err,
    ensures
        wrong_side(b) == wrong_side(b.take(k)),
    decreases b.len() - k,
{
    if k == b.len() {
        assert(b.take(k) =~= b);
    } else {
        assert(b.take(k + 1).drop_last() =~= b.take(k));
        lemma_wrong_side_stops(b, k + 1);
    }
}

impl LedgerPort for InMemoryLedger {
    closed spec fn books(&self) -> Books {
        Books {
            entries: entry_models(self.entries@),
            balances: self.balances@,
            receipts: receipt_models(self.receipts@),
        }
    }

    closed spec fn valid(&self) -> bool {
        &&& charted(self.balances@)
        &&& self.receipts.wf()
    }

    fn post_entry(&mut self, entry: JournalEntry) -> (r: Result<JournalReceipt, LedgerError>) {
        let ghost before = self.books();
        let ghost e = entry@;
        match self.receipts.get(entry.entry_id.as_str()) {
            Some(existing) => {
                return Ok(existing.clone());
            },
            None => {},
        }
        match self.check_entry(&entry) {
            Ok(_) => {},
            Err(x) => {
                return Err(x);
            },
        }
        let mut balances = clone_balances(&self.balances);
        match Self::post_all(&mut balances, &entry.debits, true) {
            Ok(_) => {},
            Err(x) => {
                return Err(x);
            },
        }
        match Self::post_all(&mut balances, &entry.credits, false) {
            Ok(_) => {},
            Err(x) => {
                return Err(x);
            },
        }
        match Self::check_sides(&balances) {
            Ok(_) => {},
            Err(x) => {
                return Err(x);
            },
        }
        let receipt = JournalReceipt {
            sequence: entry.sequence,
            entry_hash: entry.entry_hash.clone(),
            previous_entry_hash: clone_option(&entry.previous_entry_hash),
            account_balances: clone_balances(&balances),
            trial_balance_hash: Self::compute_trial_balance_hash(&balances),
        };
        let kept = receipt.clone();
        let ghost kept_receipt = kept;
        let ghost old_entries = self.entries@;
        let ghost old_receipts = self.receipts@;
        let id = entry.entry_id.clone();
        self.balances = balances;
        self.entries.push(entry);
        self.receipts.insert(id, kept);
        proof {
            assert(entry_models(self.entries@) =~= entry_models(old_entries).push(e));
            assert(receipt_models(self.receipts@) =~= receipt_models(old_receipts).insert(
                e.entry_id,
                kept_receipt@,
            ));
        }
        Ok(receipt)
    }

    fn account_balance(&self, account: StandardAccount) -> (r: Result<AccountBalance, LedgerError>) {
        let i: usize = account.index();
        Ok(self.balances[i])
    }

    fn trial_balance(&self) -> (r: Result<Vec<AccountBalance>, LedgerError>) {
        Ok(clone_balances(&self.balances))
    }

    fn get_entry(&self, sequence: u64) -> (r: Result<Option<JournalEntry>, LedgerError>) {
        if sequence < self.entries.len() as u64 {
            let i: usize = sequence as usize;
            Ok(Some(self.entries[i].clone()))
        } else {
            Ok(None)
        }
    }

    fn entry_count(&self) -> (r: Result<u64, LedgerError>) {
        Ok(self.entries.len() as u64)
    }

    fn head_hash(&self) -> (r: Result<Option<String>, LedgerError>) {
        let n: usize = self.entries.len();
        if n == 0 {
            Ok(None)
        } else {
            Ok(Some(self.entries[n - 1].entry_hash.clone()))
        }
    }
}

impl Default for InMemoryLedger {
    fn default() -> (r: Self)
        ensures
            r.valid(),
            r.books() == empty_books(),
    {
        InMemoryLedger::new()
    }
}

/// Total debits over all accounts.
pub open spec fn debits_total(b: Seq<AccountBalance>) -> int
    decreases b.len(),
{
    if b.len() == 0 {
        0
    } else {
        debits_total(b.drop_last()) + b.last().total_debits_sats
    }
}

/// Total credits over all accounts.
pub open spec fn credits_total(b: Seq<AccountBalance>) -> int
    decreases b.len(),
{
    if b.len() == 0 {
        0
    } else {
        credits_total(b.drop_last()) + b.last().total_credits_sats
    }
}

/// Whether the books balance: debits and credits agree over all accounts.
pub open spec fn balanced(b: Seq<AccountBalance>) -> bool {
    debits_total(b) == credits_total(b)
}

proof fn lemma_totals_update(b: Seq<AccountBalance>, i: int, x: AccountBalance)
    requires
        0 <= i < b.len(),
    ensures
        debits_total(b.update(i, x)) == debits_total(b) - b[i].total_debits_sats
            + x.total_debits_sats,
        credits_total(b.update(i, x)) == credits_total(b) - b[i].total_credits_sats
            + x.total_credits_sats,
    decreases b.len(),
{
    let c = b.update(i, x);
    if i == b.len() - 1 {
        assert(c.drop_last() =~= b.drop_last());
    } else {
        assert(c.drop_last() =~= b.drop_last().update(i, x));
        lemma_totals_update(b.drop_last(), i, x);
    }
}

proof fn lemma_post_side_totals(b: Seq<AccountBalance>, s: Seq<Posting>, is_debit: bool)
    requires
        charted(b),
    ensures
        charted(post_side(b, s, is_debit).0),
        post_side(b, s, is_debit).1 is Ok ==> {
            &&& debits_total(post_side(b, s, is_debit).0) == debits_total(b) + (if is_debit {
                posted_sum(s)
            } else {
                0
            })
            &&& credits_total(post_side(b, s, is_debit).0) == credits_total(b) + (if is_debit {
                0
            } else {
                posted_sum(s)
            })
        },
    decreases s.len(),
{
    if s.len() > 0 {
        lemma_post_side_totals(b, s.drop_last(), is_debit);
        let (before, r) = post_side(b, s.drop_last(), is_debit);
        if r is Ok {
            let p = s.last();
            let i = chart_index(p.account);
            let after = post_one(before, p, is_debit).0;
            if after != before {
                lemma_totals_update(before, i, after[i]);
                assert(after =~= before.update(i, after[i]));
            }
        }
    }
}

/// The invariant of the books: the journal is a hash chain of balanced
/// entries numbered from zero, and the receipts are those of its entries.
pub open spec fn chained(books: Books) -> bool {
    &&& charted(books.balances)
    &&& forall|i: int|
        #![trigger books.entries[i]]
        0 <= i < books.entries.len() ==> {
            let e = books.entries[i];
            let previous = head(books.entries.take(i));
            &&& e.sequence == i
            &&& e.entry_hash == chained_hash(e, previous)
            &&& e.previous_entry_hash == previous
            &&& posted_sum(e.debits) == posted_sum(e.credits)
            &&& books.receipts.contains_key(e.entry_id)
            &&& books.receipts[e.entry_id].sequence == i
        }
}

/// Every entry of the journal is balanced and chained to the one before it,
/// whatever is posted and whether it is accepted or not.
pub proof fn lemma_posting_keeps_the_chain(books: Books, e: EntryModel)
    requires
        chained(books),
    ensures
        chained(posted(books, e).0),
{
    let after = posted(books, e).0;
    if !books.receipts.contains_key(e.entry_id) && entry_checked(books.entries, e) is Ok {
        lemma_post_side_totals(books.balances, e.debits, true);
        lemma_post_side_totals(post_side(books.balances, e.debits, true).0, e.credits, false);
        assert forall|i: int|
            #![trigger after.entries[i]]
            0 <= i < after.entries.len() implies {
            let x = after.entries[i];
            let previous = head(after.entries.take(i));
            &&& x.sequence == i
            &&& x.entry_hash == chained_hash(x, previous)
            &&& x.previous_entry_hash == previous
            &&& posted_sum(x.debits) == posted_sum(x.credits)
            &&& after.receipts.contains_key(x.entry_id)
            &&& after.receipts[x.entry_id].sequence == i
        } by {
            if i < books.entries.len() {
                assert(after.entries[i] == books.entries[i]);
                assert(after.entries.take(i) =~= books.entries.take(i));
            } else {
                assert(after.entries.take(i) =~= books.entries);
            }
        }
    }
}

/// The empty books are in order.
pub proof fn lemma_empty_books_chained()
    ensures
        chained(empty_books()),
        balanced(empty_books().balances),
        sides_allowed(empty_books().balances),
{
    let b = empty_books().balances;
    lemma_zero_totals(b);
}

proof fn lemma_zero_totals(b: Seq<AccountBalance>)
    requires
        forall|i: int| 0 <= i < b.len() ==> (#[trigger] b[i]).total_debits_sats == 0
            && b[i].total_credits_sats == 0,
    ensures
        debits_total(b) == 0,
        credits_total(b) == 0,
    decreases b.len(),
{
    if b.len() > 0 {
        lemma_zero_totals(b.drop_last());
    }
}

/// A refused entry changes nothing.
pub proof fn lemma_refused_entries_change_nothing(books: Books, e: EntryModel)
    requires
        posted(books, e).1 is Err,
    ensures
        posted(books, e).0 == books,
{
}

/// Posting keeps debits and credits equal over all accounts, whatever is
/// posted and whether it is accepted or not.
pub proof fn lemma_posting_keeps_the_balance(books: Books, e: EntryModel)
    requires
        charted(books.balances),
        balanced(books.balances),
    ensures
        balanced(posted(books, e).0.balances),
{
    if !books.receipts.contains_key(e.entry_id) && entry_checked(books.entries, e) is Ok {
        lemma_post_side_totals(books.balances, e.debits, true);
        lemma_post_side_totals(post_side(books.balances, e.debits, true).0, e.credits, false);
    }
}

/// An entry that was accepted is answered with the same receipt when it is
/// posted again, and changes nothing.
pub proof fn lemma_posting_is_idempotent(books: Books, e: EntryModel)
    requires
        posted(books, e).1 is Ok,
    ensures
        posted(posted(books, e).0, e) == (posted(books, e).0, posted(books, e).1),
{
}

/// Whether every balance lies on the side that its class allows.
pub open spec fn sides_allowed(b: Seq<AccountBalance>) -> bool {
    forall|i: int| 0 <= i < b.len() ==> side_allowed(#[trigger] b[i])
}

/// Every balance stays on the side that its class allows, whatever is posted
/// and whether it is accepted or not.
pub proof fn lemma_posting_keeps_allowed_balances(books: Books, e: EntryModel)
    requires
        sides_allowed(books.balances),
    ensures
        sides_allowed(posted(books, e).0.balances),
{
    let after = posted(books, e).0.balances;
    if after != books.balances {
        assert forall|i: int| 0 <= i < after.len() implies side_allowed(#[trigger] after[i]) by {
            lemma_right_sides(after, i);
        }
    }
}

proof fn lemma_right_sides(b: Seq<AccountBalance>, i: int)
    requires
        wrong_side(b) is Ok,
        0 <= i < b.len(),
    ensures
        side_allowed(b[i]),
    decreases b.len(),
{
    if i < b.len() - 1 {
        lemma_right_sides(b.drop_last(), i);
    }
}

/// What a side of an entry posts to one account.
pub open spec fn posted_to(s: Seq<Posting>, a: StandardAccount) -> int
    decreases s.len(),
{
    if s.len() == 0 {
        0
    } else {
        posted_to(s.drop_last(), a) + (if s.last().account == a {
            s.last().amount_sats as int
        } else {
            0
        })
    }
}

/// One more posting adds its amount to the sum, and to what its account gets.
pub proof fn lemma_postings_add_up(s: Seq<Posting>, p: Posting, a: StandardAccount)
    ensures
        posted_sum(Seq::empty()) == 0,
        posted_sum(s.push(p)) == posted_sum(s) + p.amount_sats,
        posted_to(s.push(p), a) == posted_to(s, a) + (if p.account == a {
            p.amount_sats as int
        } else {
            0
        }),
{
    assert(s.push(p).drop_last() =~= s);
}

proof fn lemma_posted_to_bounds(s: Seq<Posting>, a: StandardAccount)
    ensures
        0 <= posted_to(s, a) <= posted_sum(s),
    decreases s.len(),
{
    if s.len() > 0 {
        lemma_posted_to_bounds(s.drop_last(), a);
    }
}

/// Whether the balances leave room for so much more on either side.
pub open spec fn room_for_postings(b: Seq<AccountBalance>, debits: int, credits: int) -> bool {
    forall|i: int|
        0 <= i < b.len() ==> (#[trigger] b[i]).total_debits_sats + debits <= i128::MAX
            && b[i].total_credits_sats + credits <= i128::MAX
}

/// Whether every net balance is what was debited less what was credited.
pub open spec fn nets_agree(b: Seq<AccountBalance>) -> bool {
    forall|i: int|
        0 <= i < b.len() ==> (#[trigger] b[i]).net_balance_sats == b[i].total_debits_sats
            - b[i].total_credits_sats
}

proof fn lemma_post_side_exact(b: Seq<AccountBalance>, s: Seq<Posting>, is_debit: bool)
    requires
        charted(b),
        nets_agree(b),
        room_for_postings(
            b,
            if is_debit {
                posted_sum(s)
            } else {
                0
            },
            if is_debit {
                0
            } else {
                posted_sum(s)
            },
        ),
    ensures
        ({
            let (after, r) = post_side(b, s, is_debit);
            &&& r is Ok
            &&& charted(after)
            &&& nets_agree(after)
            &&& forall|i: int| #![trigger after[i]]
                0 <= i < b.len() ==> {
                    &&& after[i].total_debits_sats == b[i].total_debits_sats + (if is_debit {
                        posted_to(s, b[i].account)
                    } else {
                        0
                    })
                    &&& after[i].total_credits_sats == b[i].total_credits_sats + (if is_debit {
                        0
                    } else {
                        posted_to(s, b[i].account)
                    })
                    &&& after[i].account == b[i].account
                    &&& after[i].class == b[i].class
                }
        }),
    decreases s.len(),
{
    if s.len() > 0 {
        let less = s.drop_last();
        let p = s.last();
        assert(room_for_postings(
            b,
            if is_debit {
                posted_sum(less)
            } else {
                0
            },
            if is_debit {
                0
            } else {
                posted_sum(less)
            },
        ));
        lemma_post_side_exact(b, less, is_debit);
        let (before, _) = post_side(b, less, is_debit);
        let k = chart_index(p.account);
        assert(chart(k) == p.account);
        assert(before[k].account == p.account);
        assert(b[k].account == p.account);
        lemma_posted_to_bounds(less, p.account);
        assert(b[k].total_debits_sats + (if is_debit {
            posted_sum(s)
        } else {
            0
        }) <= i128::MAX);
        let (after, r) = post_one(before, p, is_debit);
        assert(r is Ok);
        assert(after == post_side(b, s, is_debit).0);
        assert forall|i: int| #![trigger after[i]] 0 <= i < b.len() implies {
            &&& after[i].total_debits_sats == b[i].total_debits_sats + (if is_debit {
                posted_to(s, b[i].account)
            } else {
                0
            })
            &&& after[i].total_credits_sats == b[i].total_credits_sats + (if is_debit {
                0
            } else {
                posted_to(s, b[i].account)
            })
            &&& after[i].account == b[i].account
            &&& after[i].class == b[i].class
        } by {
            assert(before[i].account == b[i].account);
            if i != k {
                assert(after[i] == before[i]);
                assert(b[i].account == chart(i));
                assert(chart(i) != p.account);
            }
        }
        assert forall|i: int| 0 <= i < after.len() implies (#[trigger] after[i]).net_balance_sats
            == after[i].total_debits_sats - after[i].total_credits_sats by {
            assert(before[i].net_balance_sats == before[i].total_debits_sats
                - before[i].total_credits_sats);
        }
    }
}

proof fn lemma_wrong_side_exact(b: Seq<AccountBalance>)
    ensures
        wrong_side(b) is Ok <==> forall|i: int|
            0 <= i < b.len() ==> ((#[trigger] b[i]).class is Asset || b[i].class is Expense
                ==> b[i].net_balance_sats >= 0) && (b[i].class is Liability
                || b[i].class is Equity || b[i].class is Revenue ==> b[i].net_balance_sats <= 0),
    decreases b.len(),
{
    if b.len() > 0 {
        let less = b.drop_last();
        lemma_wrong_side_exact(less);
        assert forall|i: int| 0 <= i < less.len() implies less[i] == #[trigger] b[i] by {}
        assert(b[b.len() - 1] == b.last());
    }
}

/// What posting an entry does, where the totals leave room: it is accepted
/// exactly when both sides are there and balance, it is the next of the journal
/// with the hash of the chain, and no balance ends on the wrong side; then each
/// account gets exactly what the entry posts to it.
pub proof fn lemma_posting_is_exact(books: Books, e: EntryModel)
    requires
        !books.receipts.contains_key(e.entry_id),
        charted(books.balances),
        nets_agree(books.balances),
        room_for_postings(books.balances, posted_sum(e.debits), posted_sum(e.credits)),
    ensures
        ({
            let (after, r) = posted(books, e);
            let previous = if books.entries.len() == 0 {
                None
            } else {
                Some(books.entries.last().entry_hash)
            };
            &&& r is Ok <==> {
                &&& e.debits.len() > 0 && e.credits.len() > 0
                &&& posted_sum(e.debits) == posted_sum(e.credits)
                &&& e.sequence == books.entries.len()
                &&& e.entry_hash == chained_hash(e, previous)
                &&& e.previous_entry_hash == previous
                &&& forall|i: int|
                    0 <= i < books.balances.len() ==> {
                        let b = #[trigger] books.balances[i];
                        let net = b.net_balance_sats + posted_to(e.debits, b.account) - posted_to(
                            e.credits,
                            b.account,
                        );
                        &&& b.class is Asset || b.class is Expense ==> net >= 0
                        &&& b.class is Liability || b.class is Equity || b.class is Revenue ==> net
                            <= 0
                    }
            }
            &&& r is Err ==> after == books
            &&& r is Ok ==> {
                &&& after.entries == books.entries.push(e)
                &&& after.receipts == books.receipts.insert(e.entry_id, r->Ok_0)
                &&& r->Ok_0.sequence == e.sequence && r->Ok_0.entry_hash == e.entry_hash
                &&& r->Ok_0.previous_entry_hash == e.previous_entry_hash
                &&& r->Ok_0.account_balances == after.balances
                &&& r->Ok_0.trial_balance_hash == hex_text(sha256_digest(trial_bytes(after.balances)))
                &&& after.balances.len() == books.balances.len()
                &&& nets_agree(after.balances)
                &&& forall|i: int| #![trigger after.balances[i]]
                    0 <= i < books.balances.len() ==> {
                        let b = books.balances[i];
                        let x = after.balances[i];
                        &&& x.account == b.account && x.class == b.class
                        &&& x.total_debits_sats == b.total_debits_sats + posted_to(
                            e.debits,
                            b.account,
                        )
                        &&& x.total_credits_sats == b.total_credits_sats + posted_to(
                            e.credits,
                            b.account,
                        )
                    }
            }
        }),
{
    let b = books.balances;
    assert(room_for_postings(b, posted_sum(e.debits), 0)) by {
        lemma_posted_to_bounds(e.credits, StandardAccount::AssetHotBtc);
    }
    lemma_post_side_exact(b, e.debits, true);
    let (mid, _) = post_side(b, e.debits, true);
    assert(room_for_postings(mid, 0, posted_sum(e.credits))) by {
        assert forall|i: int| 0 <= i < mid.len() implies (#[trigger] mid[i]).total_debits_sats + 0
            <= i128::MAX && mid[i].total_credits_sats + posted_sum(e.credits) <= i128::MAX by {
            assert(b[i].total_debits_sats + posted_sum(e.debits) <= i128::MAX);
            lemma_posted_to_bounds(e.debits, b[i].account);
        }
    }
    lemma_post_side_exact(mid, e.credits, false);
    let (end, _) = post_side(mid, e.credits, false);
    lemma_wrong_side_exact(end);
    assert forall|i: int| 0 <= i < b.len() implies (#[trigger] end[i]).net_balance_sats
        == b[i].net_balance_sats + posted_to(e.debits, b[i].account) - posted_to(
        e.credits,
        b[i].account,
    ) && end[i].account == b[i].account && end[i].class == b[i].class && end[i].total_debits_sats
        == b[i].total_debits_sats + posted_to(e.debits, b[i].account) && end[i].total_credits_sats
        == b[i].total_credits_sats + posted_to(e.credits, b[i].account) by {
        assert(mid[i].account == b[i].account);
        assert(b[i].net_balance_sats == b[i].total_debits_sats - b[i].total_credits_sats);
    }
    assert forall|i: int| 0 <= i < b.len() implies #[trigger] b[i] == b[i] && end[i] == end[i] by {}
    if wrong_side(end) is Ok {
        assert forall|i: int| 0 <= i < b.len() implies {
            let x = #[trigger] b[i];
            let net = x.net_balance_sats + posted_to(e.debits, x.account) - posted_to(
                e.credits,
                x.account,
            );
            &&& x.class is Asset || x.class is Expense ==> net >= 0
            &&& x.class is Liability || x.class is Equity || x.class is Revenue ==> net <= 0
        } by {
            assert(end[i].net_balance_sats == b[i].net_balance_sats + posted_to(
                e.debits,
                b[i].account,
            ) - posted_to(e.credits, b[i].account));
        }
    } else {
        let i = choose|i: int|
            0 <= i < end.len() && !(((#[trigger] end[i]).class is Asset || end[i].class is Expense
                ==> end[i].net_balance_sats >= 0) && (end[i].class is Liability
                || end[i].class is Equity || end[i].class is Revenue ==> end[i].net_balance_sats
                <= 0));
        assert(b[i] == b[i]);
    }
}

/// Each fault of an entry has its error.
pub proof fn lemma_each_fault_of_an_entry(books: Books, e: EntryModel)
    requires
        !books.receipts.contains_key(e.entry_id),
    ensures
        ({
            let r = posted(books, e).1;
            let whole = e.debits.len() > 0 && e.credits.len() > 0;
            let even = posted_sum(e.debits) == posted_sum(e.credits);
            &&& !whole ==> r is Err && r->Err_0 is EmptyEntry
            &&& whole && !even ==> r is Err && r->Err_0 == (ErrorModel::UnbalancedEntry {
                debits_sum: posted_sum(e.debits) as u128,
                credits_sum: posted_sum(e.credits) as u128,
            })
            &&& whole && even && e.sequence != books.entries.len() ==> r is Err && r->Err_0 == (
            ErrorModel::SequenceGap { expected: books.entries.len() as u64, got: e.sequence })
            &&& whole && even && e.sequence == books.entries.len() && e.entry_hash != chained_hash(
                e,
                head(books.entries),
            ) ==> r is Err && r->Err_0 is InvalidHash
        }),
{
}

proof fn lemma_same_text_end(a: Seq<char>, b: Seq<char>, end: Seq<char>)
    requires
        a + end == b + end,
    ensures
        a == b,
{
    assert((a + end).len() == a.len() + end.len());
    assert((b + end).len() == b.len() + end.len());
    assert(a =~= (a + end).take(a.len() as int));
    assert(b =~= (b + end).take(b.len() as int));
}

proof fn lemma_same_text_start(start: Seq<char>, a: Seq<char>, b: Seq<char>)
    requires
        start + a == start + b,
    ensures
        a == b,
{
    assert((start + a).len() == start.len() + a.len());
    assert((start + b).len() == start.len() + b.len());
    assert(a =~= (start + a).skip(start.len() as int));
    assert(b =~= (start + b).skip(start.len() as int));
}

/// An entry's hash covers its place and its text: where two entries agree in all
/// else, what is hashed differs with the sequence number and with the
/// description.
pub proof fn lemma_entry_hash_covers_place_and_text(
    sequence: u64,
    other_sequence: u64,
    description: Seq<char>,
    other_description: Seq<char>,
    debits: Seq<Posting>,
    credits: Seq<Posting>,
    bucket: u64,
    previous: Option<Seq<char>>,
)
    ensures
        entry_material(sequence, description, debits, credits, bucket, previous) == entry_material(
            other_sequence,
            description,
            debits,
            credits,
            bucket,
            previous,
        ) ==> sequence == other_sequence,
        entry_material(sequence, description, debits, credits, bucket, previous) == entry_material(
            sequence,
            other_description,
            debits,
            credits,
            bucket,
            previous,
        ) ==> description == other_description,
{
    let bar = "|"@;
    let n = decimal(sequence as nat);
    let m = decimal(other_sequence as nat);
    let d = postings_hash(debits);
    let c = postings_hash(credits);
    let t = decimal(bucket as nat);
    let p = match previous {
        Some(h) => h,
        None => ""@,
    };
    let all = entry_material(sequence, description, debits, credits, bucket, previous);
    if all == entry_material(other_sequence, description, debits, credits, bucket, previous) {
        let x = n + bar + description;
        let y = m + bar + description;
        lemma_same_text_end(
            x + bar + d + bar + c + bar + p + bar,
            y + bar + d + bar + c + bar + p + bar,
            t,
        );
        lemma_same_text_end(
            x + bar + d + bar + c + bar + p,
            y + bar + d + bar + c + bar + p,
            bar,
        );
        lemma_same_text_end(x + bar + d + bar + c + bar, y + bar + d + bar + c + bar, p);
        lemma_same_text_end(x + bar + d + bar + c, y + bar + d + bar + c, bar);
        lemma_same_text_end(x + bar + d + bar, y + bar + d + bar, c);
        lemma_same_text_end(x + bar + d, y + bar + d, bar);
        lemma_same_text_end(x + bar, y + bar, d);
        lemma_same_text_end(x, y, bar);
        lemma_same_text_end(n + bar, m + bar, description);
        lemma_same_text_end(n, m, bar);
        lemma_decimal_injective(sequence as nat, other_sequence as nat);
    }
    if all == entry_material(sequence, other_description, debits, credits, bucket, previous) {
        let x = n + bar + description;
        let y = n + bar + other_description;
        lemma_same_text_end(
            x + bar + d + bar + c + bar + p + bar,
            y + bar + d + bar + c + bar + p + bar,
            t,
        );
        lemma_same_text_end(
            x + bar + d + bar + c + bar + p,
            y + bar + d + bar + c + bar + p,
            bar,
        );
        lemma_same_text_end(x + bar + d + bar + c + bar, y + bar + d + bar + c + bar, p);
        lemma_same_text_end(x + bar + d + bar + c, y + bar + d + bar + c, bar);
        lemma_same_text_end(x + bar + d + bar, y + bar + d + bar, c);
        lemma_same_text_end(x + bar + d, y + bar + d, bar);
        lemma_same_text_end(x + bar, y + bar, d);
        lemma_same_text_end(x, y, bar);
        lemma_same_text_start(n + bar, description, other_description);
    }
}

/// An entry's hash covers its time and the entry before: where two entries agree
/// in all else, what is hashed differs with the time and with the hash that it
/// is chained to.
pub proof fn lemma_entry_hash_covers_time_and_chain(
    sequence: u64,
    description: Seq<char>,
    debits: Seq<Posting>,
    credits: Seq<Posting>,
    bucket: u64,
    other_bucket: u64,
    previous: Seq<char>,
    other_previous: Seq<char>,
)
    ensures
        entry_material(sequence, description, debits, credits, bucket, Some(previous))
            == entry_material(sequence, description, debits, credits, other_bucket, Some(previous))
            ==> bucket == other_bucket,
        entry_material(sequence, description, debits, credits, bucket, Some(previous))
            == entry_material(sequence, description, debits, credits, bucket, Some(other_previous))
            ==> previous == other_previous,
{
    let bar = "|"@;
    let t = decimal(bucket as nat);
    let u = decimal(other_bucket as nat);
    let front = decimal(sequence as nat) + bar + description + bar + postings_hash(debits) + bar
        + postings_hash(credits) + bar;
    let all = entry_material(sequence, description, debits, credits, bucket, Some(previous));
    if all == entry_material(
        sequence,
        description,
        debits,
        credits,
        other_bucket,
        Some(previous),
    ) {
        lemma_same_text_start(front + previous + bar, t, u);
        lemma_decimal_injective(bucket as nat, other_bucket as nat);
    }
    if all == entry_material(
        sequence,
        description,
        debits,
        credits,
        bucket,
        Some(other_previous),
    ) {
        lemma_same_text_end(front + previous + bar, front + other_previous + bar, t);
        lemma_same_text_end(front + previous, front + other_previous, bar);
        lemma_same_text_start(front, previous, other_previous);
    }
}

/// The chart lists every account once, and a new book holds nothing.
pub proof fn lemma_chart_is_complete(a: StandardAccount, i: int)
    ensures
        0 <= chart_index(a) < 9,
        chart(chart_index(a)) == a,
        0 <= i < 9 ==> chart_index(chart(i)) == i,
        empty_books().entries.len() == 0,
        empty_books().balances.len() == 9,
        0 <= i < 9 ==> {
            let b = empty_books().balances[i];
            &&& b.account == chart(i)
            &&& b.total_debits_sats == 0 && b.total_credits_sats == 0 && b.net_balance_sats == 0
        },
{
}

/// A balance that would end on the wrong side is told with its account and what
/// it would come to.
pub proof fn lemma_wrong_sides_are_told(b: Seq<AccountBalance>)
    requires
        wrong_side(b) is Err,
    ensures
        exists|i: int|
            0 <= i < b.len() && wrong_side(b)->Err_0 == (ErrorModel::NegativeBalance {
                account: (#[trigger] b[i]).account,
                balance: b[i].net_balance_sats,
            }) && if b[i].class is Asset || b[i].class is Expense {
                b[i].net_balance_sats < 0
            } else {
                b[i].net_balance_sats > 0
            },
    decreases b.len(),
{
    let less = b.drop_last();
    if wrong_side(less) is Err {
        lemma_wrong_sides_are_told(less);
        let i = choose|i: int|
            0 <= i < less.len() && wrong_side(less)->Err_0 == (ErrorModel::NegativeBalance {
                account: (#[trigger] less[i]).account,
                balance: less[i].net_balance_sats,
            }) && if less[i].class is Asset || less[i].class is Expense {
                less[i].net_balance_sats < 0
            } else {
                less[i].net_balance_sats > 0
            };
        assert(less[i] == b[i]);
    } else {
        assert(b[b.len() - 1] == b.last());
    }
}

/// An entry's hash covers what it posts: where two entries agree in all else,
/// what is hashed differs with the hash of the debits and with that of the
/// credits.
pub proof fn lemma_entry_hash_covers_the_postings(
    sequence: u64,
    description: Seq<char>,
    debits: Seq<Posting>,
    other_debits: Seq<Posting>,
    credits: Seq<Posting>,
    other_credits: Seq<Posting>,
    bucket: u64,
    previous: Option<Seq<char>>,
)
    ensures
        entry_material(sequence, description, debits, credits, bucket, previous) == entry_material(
            sequence,
            description,
            other_debits,
            credits,
            bucket,
            previous,
        ) ==> hex_text(sha256_digest(postings_bytes(debits))) == hex_text(
            sha256_digest(postings_bytes(other_debits)),
        ),
        entry_material(sequence, description, debits, credits, bucket, previous) == entry_material(
            sequence,
            description,
            debits,
            other_credits,
            bucket,
            previous,
        ) ==> hex_text(sha256_digest(postings_bytes(credits))) == hex_text(
            sha256_digest(postings_bytes(other_credits)),
        ),
{
    let bar = "|"@;
    let front = decimal(sequence as nat) + bar + description + bar;
    let p = match previous {
        Some(h) => h,
        None => ""@,
    };
    let d = postings_hash(debits);
    let e = postings_hash(other_debits);
    let c = postings_hash(credits);
    let f = postings_hash(other_credits);
    let t = decimal(bucket as nat);
    let all = entry_material(sequence, description, debits, credits, bucket, previous);
    if all == entry_material(sequence, description, other_debits, credits, bucket, previous) {
        let x = front + d + bar + c;
        let y = front + e + bar + c;
        lemma_same_text_end(x + bar + p + bar, y + bar + p + bar, t);
        lemma_same_text_end(x + bar + p, y + bar + p, bar);
        lemma_same_text_end(x + bar, y + bar, p);
        lemma_same_text_end(x, y, bar);
        lemma_same_text_end(front + d + bar, front + e + bar, c);
        lemma_same_text_end(front + d, front + e, bar);
        lemma_same_text_start(front, d, e);
    }
    if all == entry_material(sequence, description, debits, other_credits, bucket, previous) {
        let more = front + d + bar;
        lemma_same_text_end(more + c + bar + p + bar, more + f + bar + p + bar, t);
        lemma_same_text_end(more + c + bar + p, more + f + bar + p, bar);
        lemma_same_text_end(more + c + bar, more + f + bar, p);
        lemma_same_text_end(more + c, more + f, bar);
        lemma_same_text_start(more, c, f);
    }
}

/// Postings are hashed one behind the other, and a posting's bytes tell its
/// account and its amount.
pub proof fn lemma_postings_are_all_hashed(s: Seq<Posting>, p: Posting, q: Posting)
    ensures
        postings_bytes(Seq::empty()) == Seq::<u8>::empty(),
        postings_bytes(s.push(p)) == postings_bytes(s) + posting_bytes(p),
        p.account == q.account && posting_bytes(p) == posting_bytes(q) ==> p == q,
        p.amount_sats == q.amount_sats && posting_bytes(p) == posting_bytes(q) ==> p == q,
{
    assert(s.push(p).drop_last() =~= s);
    let colon = utf8(":"@);
    let comma = utf8(","@);
    let a = utf8(account_name(p.account));
    let b = utf8(account_name(q.account));
    let m = u64_bytes(p.amount_sats);
    let n = u64_bytes(q.amount_sats);
    if p.account == q.account && posting_bytes(p) == posting_bytes(q) {
        lemma_same_end(a + colon + m, a + colon + n, comma);
        lemma_same_split(a + colon, m, a + colon, n);
        lemma_u64_bytes(p.amount_sats, q.amount_sats);
    }
    if p.amount_sats == q.amount_sats && posting_bytes(p) == posting_bytes(q) {
        lemma_same_end(a + colon + m, b + colon + m, comma);
        lemma_same_end(a + colon, b + colon, m);
        lemma_same_end(a, b, colon);
        lemma_utf8_injective(account_name(p.account), account_name(q.account));
        lemma_account_names_differ(p.account, q.account);
    }
}

/// The trial balance takes every balance on a line of its own, and a line tells
/// what was debited, what was credited and what is left.
pub proof fn lemma_trial_balance_is_whole(
    b: Seq<AccountBalance>,
    x: AccountBalance,
    y: AccountBalance,
)
    ensures
        trial_bytes(Seq::empty()) == Seq::<u8>::empty(),
        trial_bytes(b.push(x)) == trial_bytes(b) + utf8(balance_line(x)) + utf8("\n"@),
        balance_line(AccountBalance { total_debits_sats: y.total_debits_sats, ..x })
            == balance_line(x) ==> y.total_debits_sats == x.total_debits_sats,
        balance_line(AccountBalance { total_credits_sats: y.total_credits_sats, ..x })
            == balance_line(x) ==> y.total_credits_sats == x.total_credits_sats,
        balance_line(AccountBalance { net_balance_sats: y.net_balance_sats, ..x }) == balance_line(
            x,
        ) ==> y.net_balance_sats == x.net_balance_sats,
        balance_line(AccountBalance { account: y.account, ..x }) == balance_line(x) ==> y.account
            == x.account,
{
    assert(b.push(x).drop_last() =~= b);
    let bar = "|"@;
    let name = account_name(x.account);
    let d = decimal(x.total_debits_sats as nat);
    let c = decimal(x.total_credits_sats as nat);
    let n = decimal_int(x.net_balance_sats as int);
    let line = balance_line(x);
    if balance_line(AccountBalance { total_debits_sats: y.total_debits_sats, ..x }) == line {
        let e = decimal(y.total_debits_sats as nat);
        let front = name + bar;
        lemma_same_text_end(front + d + bar + c + bar, front + e + bar + c + bar, n);
        lemma_same_text_end(front + d + bar + c, front + e + bar + c, bar);
        lemma_same_text_end(front + d + bar, front + e + bar, c);
        lemma_same_text_end(front + d, front + e, bar);
        lemma_same_text_start(front, d, e);
        lemma_decimal_injective(x.total_debits_sats as nat, y.total_debits_sats as nat);
    }
    if balance_line(AccountBalance { total_credits_sats: y.total_credits_sats, ..x }) == line {
        let e = decimal(y.total_credits_sats as nat);
        let front = name + bar + d + bar;
        lemma_same_text_end(front + c + bar, front + e + bar, n);
        lemma_same_text_end(front + c, front + e, bar);
        lemma_same_text_start(front, c, e);
        lemma_decimal_injective(x.total_credits_sats as nat, y.total_credits_sats as nat);
    }
    if balance_line(AccountBalance { net_balance_sats: y.net_balance_sats, ..x }) == line {
        let e = decimal_int(y.net_balance_sats as int);
        lemma_same_text_start(name + bar + d + bar + c + bar, n, e);
        lemma_decimal_int_injective(x.net_balance_sats as int, y.net_balance_sats as int);
    }
    if balance_line(AccountBalance { account: y.account, ..x }) == line {
        let other = account_name(y.account);
        lemma_same_text_end(
            name + bar + d + bar + c + bar,
            other + bar + d + bar + c + bar,
            n,
        );
        lemma_same_text_end(name + bar + d + bar + c, other + bar + d + bar + c, bar);
        lemma_same_text_end(name + bar + d + bar, other + bar + d + bar, c);
        lemma_same_text_end(name + bar + d, other + bar + d, bar);
        lemma_same_text_end(name + bar, other + bar, d);
        lemma_same_text_end(name, other, bar);
        lemma_account_names_differ(x.account, y.account);
    }
}

} // verus!
