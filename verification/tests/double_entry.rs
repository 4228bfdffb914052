use kerosene_node::ledger::account::{AccountClass, StandardAccount};
use kerosene_node::ledger::double_entry::{InMemoryLedger, JournalEntry, LedgerPort, Posting};
use kerosene_node::ledger::error::LedgerError;
use kerosene_node::ledger::state_root::compute_journal_root;

fn posting(account: StandardAccount, amount_sats: u64) -> Posting {
    Posting { account, amount_sats }
}

fn entry(
    id: &str,
    sequence: u64,
    debits: Vec<Posting>,
    credits: Vec<Posting>,
    previous: Option<String>,
) -> JournalEntry {
    let entry_hash = JournalEntry::compute_entry_hash(
        sequence,
        "deposit",
        &debits,
        &credits,
        7,
        previous.as_deref(),
    );
    JournalEntry {
        entry_id: id.to_string(),
        sequence,
        description: "deposit".to_string(),
        debits,
        credits,
        timestamp_bucket: 7,
        entry_hash,
        previous_entry_hash: previous,
    }
}

fn deposit(id: &str, sequence: u64, amount: u64, previous: Option<String>) -> JournalEntry {
    entry(
        id,
        sequence,
        vec![posting(StandardAccount::AssetHotBtc, amount)],
        vec![posting(StandardAccount::LiabilityUserBalances, amount)],
        previous,
    )
}

#[test]
fn hash_of_a_known_entry() {
    let first = deposit("e0", 0, 500, None);
    assert_eq!(
        first.entry_hash,
        "cd53d4b7561579b15036b8d0e6a576fad43a474653013b1cfc5791532e0d62fa"
    );
    assert_eq!(
        compute_journal_root(&[first]),
        "06ac1a9bb2ddf2b204f28adf7601dcfc628819237f93c28d9bdd386f03c908c7"
    );
}

#[test]
fn entries_form_a_chain() {
    let mut ledger = InMemoryLedger::new();
    assert_eq!(ledger.head_hash().unwrap(), None);
    let first = ledger.post_entry(deposit("e0", 0, 500, None)).unwrap();
    assert_eq!(ledger.head_hash().unwrap(), Some(first.entry_hash.clone()));
    let second = ledger
        .post_entry(deposit("e1", 1, 20, Some(first.entry_hash.clone())))
        .unwrap();
    assert_eq!(second.previous_entry_hash, Some(first.entry_hash));
    assert_eq!(ledger.entry_count().unwrap(), 2);
    assert_eq!(ledger.get_entry(1).unwrap().unwrap().entry_id, "e1");
    assert_eq!(ledger.get_entry(2).unwrap(), None);
}

#[test]
fn balances_follow_the_postings() {
    let mut ledger = InMemoryLedger::new();
    ledger.post_entry(deposit("e0", 0, 500, None)).unwrap();
    let hot = ledger.account_balance(StandardAccount::AssetHotBtc).unwrap();
    assert_eq!(hot.class, AccountClass::Asset);
    assert_eq!(hot.net_balance_sats, 500);
    let owed = ledger.account_balance(StandardAccount::LiabilityUserBalances).unwrap();
    assert_eq!(owed.net_balance_sats, -500);
    let sum: i128 = ledger.trial_balance().unwrap().iter().map(|b| b.net_balance_sats).sum();
    assert_eq!(sum, 0);
}

#[test]
fn posting_twice_gives_the_same_receipt() {
    let mut ledger = InMemoryLedger::new();
    let first = ledger.post_entry(deposit("e0", 0, 500, None)).unwrap();
    let again = ledger.post_entry(deposit("e0", 0, 500, None)).unwrap();
    assert_eq!(first, again);
    assert_eq!(ledger.entry_count().unwrap(), 1);
}

#[test]
fn each_fault_of_an_entry_has_its_error() {
    let mut ledger = InMemoryLedger::new();
    assert_eq!(
        ledger.post_entry(entry("e", 0, Vec::new(), Vec::new(), None)).unwrap_err(),
        LedgerError::EmptyEntry
    );
    let unbalanced = entry(
        "e",
        0,
        vec![posting(StandardAccount::AssetHotBtc, 5)],
        vec![posting(StandardAccount::LiabilityUserBalances, 4)],
        None,
    );
    assert_eq!(
        ledger.post_entry(unbalanced).unwrap_err(),
        LedgerError::UnbalancedEntry { debits_sum: 5, credits_sum: 4 }
    );
    assert_eq!(
        ledger.post_entry(deposit("e", 3, 5, None)).unwrap_err(),
        LedgerError::SequenceGap { expected: 0, got: 3 }
    );
    let mut forged = deposit("e", 0, 5, None);
    forged.entry_hash = "forged".to_string();
    assert!(matches!(ledger.post_entry(forged).unwrap_err(), LedgerError::InvalidHash(_)));
    let withdrawn = entry(
        "e",
        0,
        vec![posting(StandardAccount::LiabilityUserBalances, 5)],
        vec![posting(StandardAccount::AssetHotBtc, 5)],
        None,
    );
    assert!(matches!(
        ledger.post_entry(withdrawn).unwrap_err(),
        LedgerError::NegativeBalance { .. }
    ));
    assert_eq!(ledger.entry_count().unwrap(), 0);
}

#[test]
fn errors_read_as_sentences() {
    let errors = vec![
        (LedgerError::EmptyEntry, "entry must have at least one debit and one credit"),
        (LedgerError::SequenceGap { expected: 1, got: 3 }, "sequence gap: expected 1, got 3"),
        (
            LedgerError::UnbalancedEntry { debits_sum: 5, credits_sum: 4 },
            "unbalanced entry: debits 5 != credits 4",
        ),
        (LedgerError::InvalidHash("x".to_string()), "invalid hash: x"),
    ];
    for (error, text) in errors {
        assert_eq!(error.message(), text);
    }
}

#[test]
fn a_refused_entry_leaves_the_books_alone() {
    let mut ledger = InMemoryLedger::new();
    let before = ledger.trial_balance().unwrap();
    // Paying out what is not there leaves the asset on the wrong side.
    let payout = entry(
        "e0",
        0,
        vec![posting(StandardAccount::LiabilityUserBalances, 5)],
        vec![posting(StandardAccount::AssetHotBtc, 5)],
        None,
    );
    assert!(matches!(ledger.post_entry(payout), Err(LedgerError::NegativeBalance { .. })));
    assert_eq!(ledger.trial_balance().unwrap(), before);
    assert!(ledger.post_entry(deposit("e1", 0, 500, None)).is_ok());
}
