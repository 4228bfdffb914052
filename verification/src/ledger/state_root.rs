//! Deterministic roots over the ledger state.

use crate::codec::{domain_bytes, domain_hash, encodable, flat, hash_with_domain, lemma_associative, lemma_regrouped,
    lemma_same_end, lemma_same_split,
    lemma_string_bytes_delimited, lemma_string_bytes_injective, lemma_u64_bytes, lemma_u64_bytes_delimited, put,
    put_string, put_text, put_u64, put_u8, string_bytes, u64_bytes, utf8};
use crate::digest::{digest_text, hex_text, is_digest_text, sha256_digest, sha256_hex, sha256_text};
use crate::ledger::account_state::{account_models, AccountModel, AccountState};
use crate::ledger::chain::{compute_utxo_root, lemma_utxo_root_forgets_order, utxo_root};
use crate::ledger::double_entry::{entry_models, EntryModel, JournalEntry};
use crate::ledger::reservation::{reservation_models, Reservation, ReservationModel, ReservationState};
use crate::ledger::state_machine::{ConsensusProfile, LedgerModel, LedgerState, MembershipModel,
    MembershipView};
use crate::order::{lemma_sorting_forgets_order, lemma_stable_sorted, lemma_text_rank_injective, lex_le, models,
    rank_identifies, sort_ranked, stable_sorted, text_le, text_rank, text_ranking, Ranked};
use crate::text::{clone_texts, texts};
use vstd::prelude::*;

verus! {

/// The stable code of a consensus profile.
pub open spec fn profile_code(p: ConsensusProfile) -> u8 {
    match p {
        ConsensusProfile::Single => 0,
        ConsensusProfile::HaCrash => 1,
        ConsensusProfile::BftF1 => 2,
        ConsensusProfile::BftF2 => 3,
    }
}

/// The stable code of a consensus profile.
pub fn encode_consensus_profile(profile: &ConsensusProfile) -> (r: u8)
    ensures
        r == profile_code(*profile),
{
    match profile {
        ConsensusProfile::Single => 0,
        ConsensusProfile::HaCrash => 1,
        ConsensusProfile::BftF1 => 2,
        ConsensusProfile::BftF2 => 3,
    }
}

/// The stable code of a reservation state.
pub open spec fn reservation_code(s: ReservationState) -> u8 {
    match s {
        ReservationState::Prepared => 0,
        ReservationState::Committed => 1,
        ReservationState::Consumed => 2,
        ReservationState::Released => 3,
        ReservationState::Expired => 4,
    }
}

/// The canonical encoding of an account.
pub open spec fn account_bytes(a: AccountModel) -> Seq<u8> {
    u64_bytes(a.version) + u64_bytes(a.available_sats) + u64_bytes(a.reserved_sats) + u64_bytes(
        a.pending_incoming_sats,
    ) + u64_bytes(a.pending_outgoing_sats) + u64_bytes(a.last_committed_sequence)
        + string_bytes(a.account_id)
}

/// The hash of an account.
pub open spec fn account_hash() -> spec_fn(AccountModel) -> Seq<u8> {
    |a: AccountModel| domain_hash("KROOTv1:acct"@, account_bytes(a))
}

/// The hash of a journal entry: that of its entry hash.
pub open spec fn entry_hash() -> spec_fn(EntryModel) -> Seq<u8> {
    |e: EntryModel| domain_hash("KROOTv1:jent"@, utf8(e.entry_hash))
}

/// The canonical encoding of a reservation.
pub open spec fn reservation_bytes(r: ReservationModel) -> Seq<u8> {
    u64_bytes(r.amount_sats) + u64_bytes(r.created_at_bucket) + u64_bytes(r.expires_at_bucket)
        + u64_bytes(r.committed_sequence) + seq![reservation_code(r.state)] + string_bytes(
        r.account_id,
    ) + string_bytes(r.reservation_id) + string_bytes(r.authorization_commitment)
}

/// The hash of a reservation.
pub open spec fn reservation_hash() -> spec_fn(ReservationModel) -> Seq<u8> {
    |r: ReservationModel| domain_hash("KROOTv1:resv"@, reservation_bytes(r))
}

/// The hash of a consumed intent.
pub open spec fn intent_hash() -> spec_fn(Seq<char>) -> Seq<u8> {
    |i: Seq<char>| domain_hash("KROOTv1:intent"@, string_bytes(i))
}

/// The length-prefixed texts of a list, one after the other.
pub open spec fn strings_bytes(s: Seq<Seq<char>>) -> Seq<u8>
    decreases s.len(),
{
    if s.len() == 0 {
        Seq::empty()
    } else {
        strings_bytes(s.drop_last()) + string_bytes(s.last())
    }
}

/// The canonical encoding of a membership, its nodes sorted.
pub open spec fn membership_bytes(m: MembershipModel) -> Seq<u8> {
    seq![profile_code(m.active_profile)] + string_bytes(m.cluster_id) + u64_bytes(
        m.nodes.len() as u64,
    ) + strings_bytes(stable_sorted(m.nodes, text_ranking()))
}

/// The rank of an account: its identifier.
pub open spec fn account_ranking() -> spec_fn(AccountModel) -> Seq<int> {
    |a: AccountModel| text_rank(a.account_id)
}

/// The rank of a journal entry: its sequence number.
pub open spec fn entry_ranking() -> spec_fn(EntryModel) -> Seq<int> {
    |e: EntryModel| seq![e.sequence as int]
}

/// The rank of a reservation: its identifier.
pub open spec fn reservation_ranking() -> spec_fn(ReservationModel) -> Seq<int> {
    |r: ReservationModel| text_rank(r.reservation_id)
}

/// The hash of a collection under a tag: the items are sorted, each is hashed,
/// and the concatenation of their hashes is hashed.
pub open spec fn items_hash<M>(
    tag: Seq<char>,
    items: Seq<M>,
    rank: spec_fn(M) -> Seq<int>,
    hash: spec_fn(M) -> Seq<u8>,
) -> Seq<u8> {
    domain_hash(tag, flat(stable_sorted(items, rank).map_values(hash)))
}

/// The hash of all accounts, sorted by identifier.
pub open spec fn accounts_hash(s: Seq<AccountModel>) -> Seq<u8> {
    items_hash("KROOTv1:accounts"@, s, account_ranking(), account_hash())
}

/// The hash of all journal entries, sorted by sequence number.
pub open spec fn journal_hash(s: Seq<EntryModel>) -> Seq<u8> {
    items_hash("KROOTv1:journal"@, s, entry_ranking(), entry_hash())
}

/// The hash of all reservations, sorted by identifier.
pub open spec fn reservations_hash(s: Seq<ReservationModel>) -> Seq<u8> {
    items_hash("KROOTv1:reservations"@, s, reservation_ranking(), reservation_hash())
}

/// The hash of all consumed intents, sorted.
pub open spec fn intents_hash(s: Seq<Seq<char>>) -> Seq<u8> {
    items_hash("KROOTv1:intents"@, s, text_ranking(), intent_hash())
}

/// The hash of a membership.
pub open spec fn membership_hash(m: MembershipModel) -> Seq<u8> {
    domain_hash("KROOTv1:mem"@, membership_bytes(m))
}

/// The bytes under the state root.
pub open spec fn state_bytes(s: LedgerModel) -> Seq<u8> {
    domain_bytes("KROOTv1:version"@, u64_bytes(s.version)) + domain_bytes(
        "KROOTv1:accounts"@,
        accounts_hash(s.accounts),
    ) + domain_bytes("KROOTv1:journal"@, journal_hash(s.journal)) + domain_bytes(
        "KROOTv1:reservations"@,
        reservations_hash(s.reservations),
    ) + domain_bytes("KROOTv1:intents"@, intents_hash(s.consumed_intents)) + domain_bytes(
        "KROOTv1:membership"@,
        membership_hash(s.membership),
    ) + domain_bytes(
        "KROOTv1:utxos"@,
        domain_hash("KROOTv1:utxos"@, utf8(utxo_root(s.utxos))),
    )
}

/// The state root: a hash over the version and the hashes of all parts.
pub open spec fn state_root(s: LedgerModel) -> Seq<char> {
    sha256_hex(state_bytes(s))
}

/// Hashes an account.
pub fn hash_account(acc: &AccountState) -> (r: [u8; 32])
    ensures
        r@ == account_hash()(acc@),
{
    let mut buf: Vec<u8> = Vec::new();
    put_u64(&mut buf, acc.version);
    put_u64(&mut buf, acc.available_sats);
    put_u64(&mut buf, acc.reserved_sats);
    put_u64(&mut buf, acc.pending_incoming_sats);
    put_u64(&mut buf, acc.pending_outgoing_sats);
    put_u64(&mut buf, acc.last_committed_sequence);
    put_string(&mut buf, acc.account_id.as_str());
    assert(buf@ =~= account_bytes(acc@));
    hash_with_domain("KROOTv1:acct", buf.as_slice())
}

/// Hashes a journal entry.
pub fn hash_journal_entry(entry: &JournalEntry) -> (r: [u8; 32])
    ensures
        r@ == entry_hash()(entry@),
{
    hash_with_domain("KROOTv1:jent", entry.entry_hash.as_str().as_bytes())
}

/// Hashes a reservation.
pub fn hash_reservation(x: &Reservation) -> (r: [u8; 32])
    ensures
        r@ == reservation_hash()(x@),
{
    let mut buf: Vec<u8> = Vec::new();
    put_u64(&mut buf, x.amount_sats);
    put_u64(&mut buf, x.created_at_bucket);
    put_u64(&mut buf, x.expires_at_bucket);
    put_u64(&mut buf, x.committed_sequence);
    let code: u8 = match x.state {
        ReservationState::Prepared => 0,
        ReservationState::Committed => 1,
        ReservationState::Consumed => 2,
        ReservationState::Released => 3,
        ReservationState::Expired => 4,
    };
    put_u8(&mut buf, code);
    put_string(&mut buf, x.account_id.as_str());
    put_string(&mut buf, x.reservation_id.as_str());
    put_string(&mut buf, x.authorization_commitment.as_str());
    assert(buf@ =~= reservation_bytes(x@));
    hash_with_domain("KROOTv1:resv", buf.as_slice())
}

/// Hashes a consumed intent.
pub fn hash_intent(intent: &String) -> (r: [u8; 32])
    ensures
        r@ == intent_hash()(intent@),
{
    let mut buf: Vec<u8> = Vec::new();
    put_string(&mut buf, intent.as_str());
    assert(buf@ =~= string_bytes(intent@));
    hash_with_domain("KROOTv1:intent", buf.as_slice())
}

/// Encodes a membership.
pub fn encode_membership(membership: &MembershipView) -> (r: Vec<u8>)
    ensures
        r@ == membership_bytes(membership@),
{
    let mut buf: Vec<u8> = Vec::new();
    put_u8(&mut buf, encode_consensus_profile(&membership.active_profile));
    put_string(&mut buf, membership.cluster_id.as_str());
    let nodes = clone_texts(&membership.nodes);
    let count: u64 = nodes.len() as u64;
    assert(models(nodes@) =~= membership@.nodes);
    let sorted = sort_ranked(nodes);
    put_u64(&mut buf, count);
    let ghost head = buf@;
    let ghost all = models(sorted@);
    proof {
        assert(all == stable_sorted(membership@.nodes, text_ranking()));
        assert(all.take(0) =~= Seq::<Seq<char>>::empty());
        assert(buf@ =~= head + strings_bytes(all.take(0)));
    }
    let mut i: usize = 0;
    while i < sorted.len()
        invariant
            i <= sorted@.len(),
            all == models(sorted@),
            buf@ == head + strings_bytes(all.take(i as int)),
        decreases sorted.len() - i,
    {
        proof {
            assert(all.take(i + 1).drop_last() =~= all.take(i as int));
            assert(all.take(i + 1).last() == sorted@[i as int]@);
        }
        put_string(&mut buf, sorted[i].as_str());
        assert(buf@ =~= head + strings_bytes(all.take(i + 1)));
        i += 1;
    }
    assert(all.take(i as int) =~= all);
    assert(buf@ =~= membership_bytes(membership@));
    buf
}

/// Items that are sorted and hashed into the root of a collection.
pub trait Leaf: Ranked {
    /// The hash of an item.
    spec fn leaf_hash() -> spec_fn(Self::Model) -> Seq<u8>;

    /// Hashes this item.
    fn hash_leaf(&self) -> (r: [u8; 32])
        ensures
            r@ == Self::leaf_hash()(self.model()),
    ;
}

impl<'a> Ranked for &'a AccountState {
    type Model = AccountModel;

    open spec fn model(&self) -> AccountModel {
        (**self)@
    }

    open spec fn ranking() -> spec_fn(AccountModel) -> Seq<int> {
        account_ranking()
    }

    fn ranks_le(&self, other: &Self) -> (r: bool) {
        text_le(self.account_id.as_str(), other.account_id.as_str())
    }
}

impl<'a> Leaf for &'a AccountState {
    open spec fn leaf_hash() -> spec_fn(AccountModel) -> Seq<u8> {
        account_hash()
    }

    fn hash_leaf(&self) -> (r: [u8; 32]) {
        hash_account(*self)
    }
}

impl<'a> Ranked for &'a JournalEntry {
    type Model = EntryModel;

    open spec fn model(&self) -> EntryModel {
        (**self)@
    }

    open spec fn ranking() -> spec_fn(EntryModel) -> Seq<int> {
        entry_ranking()
    }

    fn ranks_le(&self, other: &Self) -> (r: bool) {
        proof {
            let a = seq![self.sequence as int];
            let b = seq![other.sequence as int];
            assert(lex_le(a.drop_first(), b.drop_first()));
        }
        self.sequence <= other.sequence
    }
}

impl<'a> Leaf for &'a JournalEntry {
    open spec fn leaf_hash() -> spec_fn(EntryModel) -> Seq<u8> {
        entry_hash()
    }

    fn hash_leaf(&self) -> (r: [u8; 32]) {
        hash_journal_entry(*self)
    }
}

impl<'a> Ranked for &'a Reservation {
    type Model = ReservationModel;

    open spec fn model(&self) -> ReservationModel {
        (**self)@
    }

    open spec fn ranking() -> spec_fn(ReservationModel) -> Seq<int> {
        reservation_ranking()
    }

    fn ranks_le(&self, other: &Self) -> (r: bool) {
        text_le(self.reservation_id.as_str(), other.reservation_id.as_str())
    }
}

impl<'a> Leaf for &'a Reservation {
    open spec fn leaf_hash() -> spec_fn(ReservationModel) -> Seq<u8> {
        reservation_hash()
    }

    fn hash_leaf(&self) -> (r: [u8; 32]) {
        hash_reservation(*self)
    }
}

impl<'a> Ranked for &'a String {
    type Model = Seq<char>;

    open spec fn model(&self) -> Seq<char> {
        (**self)@
    }

    open spec fn ranking() -> spec_fn(Seq<char>) -> Seq<int> {
        text_ranking()
    }

    fn ranks_le(&self, other: &Self) -> (r: bool) {
        text_le(self.as_str(), other.as_str())
    }
}

impl<'a> Leaf for &'a String {
    open spec fn leaf_hash() -> spec_fn(Seq<char>) -> Seq<u8> {
        intent_hash()
    }

    fn hash_leaf(&self) -> (r: [u8; 32]) {
        hash_intent(*self)
    }
}

/// Hashes a collection under a tag: sorts the items, hashes each, and hashes
/// the concatenation of their hashes.
pub fn hash_sorted_items<T: Leaf>(items: Vec<T>, tag: &str) -> (r: [u8; 32])
    ensures
        r@ == items_hash(tag@, models(items@), T::ranking(), T::leaf_hash()),
{
    let ghost given = models(items@);
    let sorted = sort_ranked(items);
    let ghost hashes = models(sorted@).map_values(T::leaf_hash());
    let mut buf: Vec<u8> = Vec::new();
    let mut i: usize = 0;
    assert(buf@ =~= flat(hashes.take(0)));
    while i < sorted.len()
        invariant
            i <= sorted@.len(),
            hashes == models(sorted@).map_values(T::leaf_hash()),
            buf@ == flat(hashes.take(i as int)),
        decreases sorted.len() - i,
    {
        proof {
            assert(hashes.take(i + 1).drop_last() =~= hashes.take(i as int));
            assert(hashes.take(i + 1).last() == T::leaf_hash()(sorted@[i as int].model()));
        }
        let h = sorted[i].hash_leaf();
        put(&mut buf, h.as_slice());
        i += 1;
    }
    assert(hashes.take(i as int) =~= hashes);
    hash_with_domain(tag, buf.as_slice())
}

/// Hashes all accounts.
fn hash_accounts(items: &[AccountState]) -> (r: [u8; 32])
    ensures
        r@ == accounts_hash(account_models(items@)),
{
    let mut refs: Vec<&AccountState> = Vec::new();
    let mut i: usize = 0;
    while i < items.len()
        invariant
            i <= items@.len(),
            refs@.len() == i,
            forall|j: int| 0 <= j < i ==> *(#[trigger] refs@[j]) == items@[j],
        decreases items.len() - i,
    {
        refs.push(&items[i]);
        i += 1;
    }
    assert(models(refs@) =~= account_models(items@));
    hash_sorted_items(refs, "KROOTv1:accounts")
}

/// Hashes all journal entries.
fn hash_journal(items: &[JournalEntry]) -> (r: [u8; 32])
    ensures
        r@ == journal_hash(entry_models(items@)),
{
    let mut refs: Vec<&JournalEntry> = Vec::new();
    let mut i: usize = 0;
    while i < items.len()
        invariant
            i <= items@.len(),
            refs@.len() == i,
            forall|j: int| 0 <= j < i ==> *(#[trigger] refs@[j]) == items@[j],
        decreases items.len() - i,
    {
        refs.push(&items[i]);
        i += 1;
    }
    assert(models(refs@) =~= entry_models(items@));
    hash_sorted_items(refs, "KROOTv1:journal")
}

/// Hashes all reservations.
fn hash_reservations(items: &[Reservation]) -> (r: [u8; 32])
    ensures
        r@ == reservations_hash(reservation_models(items@)),
{
    let mut refs: Vec<&Reservation> = Vec::new();
    let mut i: usize = 0;
    while i < items.len()
        invariant
            i <= items@.len(),
            refs@.len() == i,
            forall|j: int| 0 <= j < i ==> *(#[trigger] refs@[j]) == items@[j],
        decreases items.len() - i,
    {
        refs.push(&items[i]);
        i += 1;
    }
    assert(models(refs@) =~= reservation_models(items@));
    hash_sorted_items(refs, "KROOTv1:reservations")
}

/// Hashes all consumed intents.
fn hash_intents(items: &[String]) -> (r: [u8; 32])
    ensures
        r@ == intents_hash(texts(items@)),
{
    let mut refs: Vec<&String> = Vec::new();
    let mut i: usize = 0;
    while i < items.len()
        invariant
            i <= items@.len(),
            refs@.len() == i,
            forall|j: int| 0 <= j < i ==> *(#[trigger] refs@[j]) == items@[j],
        decreases items.len() - i,
    {
        refs.push(&items[i]);
        i += 1;
    }
    assert(models(refs@) =~= texts(items@));
    hash_sorted_items(refs, "KROOTv1:intents")
}

/// Appends a tag and a part.
fn put_part(buf: &mut Vec<u8>, tag: &str, part: &[u8])
    ensures
        final(buf)@ == old(buf)@ + domain_bytes(tag@, part@),
{
    let ghost before = buf@;
    put_text(buf, tag);
    put(buf, part);
    assert(buf@ =~= before + domain_bytes(tag@, part@));
}

/// Computes the state root.
pub fn compute_state_root(state: &LedgerState) -> (r: String)
    ensures
        r@ == state_root(state@),
        is_digest_text(r@),
{
    let mut buf: Vec<u8> = Vec::new();
    let mut version: Vec<u8> = Vec::new();
    put_u64(&mut version, state.version);
    assert(version@ =~= u64_bytes(state.version));
    put_part(&mut buf, "KROOTv1:version", version.as_slice());
    let accounts = hash_accounts(state.accounts.as_slice());
    put_part(&mut buf, "KROOTv1:accounts", accounts.as_slice());
    let journal = hash_journal(state.journal.as_slice());
    put_part(&mut buf, "KROOTv1:journal", journal.as_slice());
    let reservations = hash_reservations(state.reservations.as_slice());
    put_part(&mut buf, "KROOTv1:reservations", reservations.as_slice());
    let intents = hash_intents(state.consumed_intents.as_slice());
    put_part(&mut buf, "KROOTv1:intents", intents.as_slice());
    let encoded = encode_membership(&state.membership);
    let membership = hash_with_domain("KROOTv1:mem", encoded.as_slice());
    put_part(&mut buf, "KROOTv1:membership", membership.as_slice());
    let utxos_text = compute_utxo_root(state.utxos.as_slice());
    let utxos = hash_with_domain("KROOTv1:utxos", utxos_text.as_str().as_bytes());
    put_part(&mut buf, "KROOTv1:utxos", utxos.as_slice());
    assert(buf@ =~= state_bytes(state@));
    sha256_text(buf.as_slice())
}

/// Computes the root of accounts, sorted by identifier.
pub fn compute_accounts_root(accounts: &[AccountState]) -> (r: String)
    ensures
        r@ == hex_text(accounts_hash(account_models(accounts@))),
        is_digest_text(r@),
{
    let h = hash_accounts(accounts);
    digest_text(&h)
}

/// Computes the root of journal entries, sorted by sequence number.
pub fn compute_journal_root(entries: &[JournalEntry]) -> (r: String)
    ensures
        r@ == hex_text(journal_hash(entry_models(entries@))),
        is_digest_text(r@),
{
    let h = hash_journal(entries);
    digest_text(&h)
}

/// Computes the root of reservations, sorted by identifier.
pub fn compute_reservations_root(reservations: &[Reservation]) -> (r: String)
    ensures
        r@ == hex_text(reservations_hash(reservation_models(reservations@))),
        is_digest_text(r@),
{
    let h = hash_reservations(reservations);
    digest_text(&h)
}

/// Computes the root of consumed intents, sorted.
pub fn compute_intents_root(intents: &[String]) -> (r: String)
    ensures
        r@ == hex_text(intents_hash(texts(intents@))),
        is_digest_text(r@),
{
    let h = hash_intents(intents);
    digest_text(&h)
}

/// Computes the hash of a membership.
pub fn compute_membership_hash(membership: &MembershipView) -> (r: String)
    ensures
        r@ == hex_text(membership_hash(membership@)),
        is_digest_text(r@),
{
    let encoded = encode_membership(membership);
    let h = hash_with_domain("KROOTv1:mem", encoded.as_slice());
    digest_text(&h)
}

/// Whether two states hold the same items, in whatever order.
pub open spec fn same_contents(a: LedgerModel, b: LedgerModel) -> bool {
    &&& a.version == b.version
    &&& a.accounts.to_multiset() == b.accounts.to_multiset()
    &&& a.journal.to_multiset() == b.journal.to_multiset()
    &&& a.reservations.to_multiset() == b.reservations.to_multiset()
    &&& a.consumed_intents.to_multiset() == b.consumed_intents.to_multiset()
    &&& a.membership.cluster_id == b.membership.cluster_id
    &&& a.membership.active_profile == b.membership.active_profile
    &&& a.membership.nodes.to_multiset() == b.membership.nodes.to_multiset()
    &&& a.utxos.to_multiset() == b.utxos.to_multiset()
}

/// A membership's hash does not depend on the order of its nodes.
pub proof fn lemma_membership_hash_forgets_order(a: MembershipModel, b: MembershipModel)
    requires
        a.cluster_id == b.cluster_id,
        a.active_profile == b.active_profile,
        a.nodes.to_multiset() == b.nodes.to_multiset(),
    ensures
        membership_hash(a) == membership_hash(b),
{
    broadcast use vstd::seq_lib::group_to_multiset_ensures;

    assert(a.nodes.len() == a.nodes.to_multiset().len());
    assert(b.nodes.len() == b.nodes.to_multiset().len());
    assert forall|i: int, j: int|
        0 <= i < a.nodes.len() && 0 <= j < a.nodes.len() && text_ranking()(#[trigger] a.nodes[i])
            == text_ranking()(#[trigger] a.nodes[j]) implies a.nodes[i] == a.nodes[j] by {
        lemma_text_rank_injective(a.nodes[i], a.nodes[j]);
    }
    lemma_sorting_forgets_order(a.nodes, b.nodes, text_ranking());
}

/// Whether what a state holds can be told apart by what it is sorted by:
/// accounts of one identifier are equal, as are journal entries of one
/// sequence number and reservations of one identifier.
pub open spec fn identified(s: LedgerModel) -> bool {
    &&& rank_identifies(s.accounts, account_ranking())
    &&& rank_identifies(s.journal, entry_ranking())
    &&& rank_identifies(s.reservations, reservation_ranking())
}

/// The state root depends only on what the state holds, not on the order in
/// which it came to hold it.
pub proof fn lemma_state_root_forgets_order(a: LedgerModel, b: LedgerModel)
    requires
        same_contents(a, b),
        identified(a),
    ensures
        state_root(a) == state_root(b),
{
    lemma_sorting_forgets_order(a.accounts, b.accounts, account_ranking());
    lemma_sorting_forgets_order(a.journal, b.journal, entry_ranking());
    lemma_sorting_forgets_order(a.reservations, b.reservations, reservation_ranking());
    let intents = a.consumed_intents;
    assert forall|i: int, j: int|
        0 <= i < intents.len() && 0 <= j < intents.len() && text_ranking()(#[trigger] intents[i])
            == text_ranking()(#[trigger] intents[j]) implies intents[i] == intents[j] by {
        lemma_text_rank_injective(intents[i], intents[j]);
    }
    lemma_sorting_forgets_order(intents, b.consumed_intents, text_ranking());
    lemma_membership_hash_forgets_order(a.membership, b.membership);
    lemma_utxo_root_forgets_order(a.utxos, b.utxos);
}

/// Different accounts are hashed from different bytes.
pub proof fn lemma_account_bytes_injective(a: AccountModel, b: AccountModel)
    requires
        encodable(a.account_id),
        encodable(b.account_id),
        account_bytes(a) == account_bytes(b),
    ensures
        a == b,
{
    lemma_account_bytes_parts(a);
    lemma_account_bytes_parts(b);
    let a5 = string_bytes(a.account_id);
    let b5 = string_bytes(b.account_id);
    let a4 = u64_bytes(a.last_committed_sequence) + a5;
    let b4 = u64_bytes(b.last_committed_sequence) + b5;
    let a3 = u64_bytes(a.pending_outgoing_sats) + a4;
    let b3 = u64_bytes(b.pending_outgoing_sats) + b4;
    let a2 = u64_bytes(a.pending_incoming_sats) + a3;
    let b2 = u64_bytes(b.pending_incoming_sats) + b3;
    let a1 = u64_bytes(a.reserved_sats) + a2;
    let b1 = u64_bytes(b.reserved_sats) + b2;
    let a0 = u64_bytes(a.available_sats) + a1;
    let b0 = u64_bytes(b.available_sats) + b1;
    lemma_u64_bytes_delimited(a.version, a0, b.version, b0);
    lemma_u64_bytes_delimited(a.available_sats, a1, b.available_sats, b1);
    lemma_u64_bytes_delimited(a.reserved_sats, a2, b.reserved_sats, b2);
    lemma_u64_bytes_delimited(a.pending_incoming_sats, a3, b.pending_incoming_sats, b3);
    lemma_u64_bytes_delimited(a.pending_outgoing_sats, a4, b.pending_outgoing_sats, b4);
    lemma_u64_bytes_delimited(a.last_committed_sequence, a5, b.last_committed_sequence, b5);
    lemma_string_bytes_injective(a.account_id, b.account_id);
}

proof fn lemma_account_bytes_parts(a: AccountModel)
    ensures
        account_bytes(a) == u64_bytes(a.version) + (u64_bytes(a.available_sats) + (u64_bytes(
            a.reserved_sats,
        ) + (u64_bytes(a.pending_incoming_sats) + (u64_bytes(a.pending_outgoing_sats) + (u64_bytes(
            a.last_committed_sequence,
        ) + string_bytes(a.account_id)))))),
{
    let v = u64_bytes(a.version);
    let s = u64_bytes(a.available_sats);
    let r = u64_bytes(a.reserved_sats);
    let i = u64_bytes(a.pending_incoming_sats);
    let o = u64_bytes(a.pending_outgoing_sats);
    let l = u64_bytes(a.last_committed_sequence);
    let t = string_bytes(a.account_id);
    lemma_regrouped(v + s, r, i, o, l, t);
    lemma_associative(v, s, r + (i + (o + (l + t))));
}

/// What follows the numbers in a reservation's encoding.
spec fn reservation_tail(r: ReservationModel) -> Seq<u8> {
    seq![reservation_code(r.state)] + (string_bytes(r.account_id) + (string_bytes(r.reservation_id)
        + string_bytes(r.authorization_commitment)))
}

proof fn lemma_reservation_bytes_parts(r: ReservationModel)
    ensures
        reservation_bytes(r) == u64_bytes(r.amount_sats) + (u64_bytes(r.created_at_bucket) + (
        u64_bytes(r.expires_at_bucket) + (u64_bytes(r.committed_sequence) + reservation_tail(r)))),
{
    let m = u64_bytes(r.amount_sats);
    let c = u64_bytes(r.created_at_bucket);
    let e = u64_bytes(r.expires_at_bucket);
    let q = u64_bytes(r.committed_sequence);
    let k = seq![reservation_code(r.state)];
    let a = string_bytes(r.account_id);
    let i = string_bytes(r.reservation_id);
    let z = string_bytes(r.authorization_commitment);
    let t = reservation_tail(r);
    lemma_regrouped(m + c + e, q, k, a, i, z);
    lemma_associative(m + c, e, q + t);
    lemma_associative(m, c, e + (q + t));
}

proof fn lemma_reservation_tail_injective(a: ReservationModel, b: ReservationModel)
    requires
        encodable(a.account_id),
        encodable(b.account_id),
        encodable(a.reservation_id),
        encodable(b.reservation_id),
        encodable(a.authorization_commitment),
        encodable(b.authorization_commitment),
        reservation_tail(a) == reservation_tail(b),
    ensures
        a.state == b.state,
        a.account_id == b.account_id,
        a.reservation_id == b.reservation_id,
        a.authorization_commitment == b.authorization_commitment,
{
    let ca = seq![reservation_code(a.state)];
    let cb = seq![reservation_code(b.state)];
    let a2 = string_bytes(a.authorization_commitment);
    let b2 = string_bytes(b.authorization_commitment);
    let a1 = string_bytes(a.reservation_id) + a2;
    let b1 = string_bytes(b.reservation_id) + b2;
    let a0 = string_bytes(a.account_id) + a1;
    let b0 = string_bytes(b.account_id) + b1;
    lemma_same_split(ca, a0, cb, b0);
    assert(ca[0] == cb[0]);
    lemma_string_bytes_delimited(a.account_id, a1, b.account_id, b1);
    lemma_string_bytes_delimited(a.reservation_id, a2, b.reservation_id, b2);
    lemma_string_bytes_injective(a.authorization_commitment, b.authorization_commitment);
}

/// Different reservations are hashed from different bytes.
pub proof fn lemma_reservation_bytes_injective(a: ReservationModel, b: ReservationModel)
    requires
        encodable(a.account_id),
        encodable(b.account_id),
        encodable(a.reservation_id),
        encodable(b.reservation_id),
        encodable(a.authorization_commitment),
        encodable(b.authorization_commitment),
        reservation_bytes(a) == reservation_bytes(b),
    ensures
        a == b,
{
    lemma_reservation_bytes_parts(a);
    lemma_reservation_bytes_parts(b);
    let a3 = reservation_tail(a);
    let b3 = reservation_tail(b);
    let a2 = u64_bytes(a.committed_sequence) + a3;
    let b2 = u64_bytes(b.committed_sequence) + b3;
    let a1 = u64_bytes(a.expires_at_bucket) + a2;
    let b1 = u64_bytes(b.expires_at_bucket) + b2;
    let a0 = u64_bytes(a.created_at_bucket) + a1;
    let b0 = u64_bytes(b.created_at_bucket) + b1;
    lemma_u64_bytes_delimited(a.amount_sats, a0, b.amount_sats, b0);
    lemma_u64_bytes_delimited(a.created_at_bucket, a1, b.created_at_bucket, b1);
    lemma_u64_bytes_delimited(a.expires_at_bucket, a2, b.expires_at_bucket, b2);
    lemma_u64_bytes_delimited(a.committed_sequence, a3, b.committed_sequence, b3);
    lemma_reservation_tail_injective(a, b);
}

/// The state root covers every part of a state: where two states differ in one
/// part alone, what is hashed of them differs, unless that part has the same hash
/// in both. So no change to the version, an account, the journal, a reservation,
/// an intent, the membership or an output goes unseen, but for collisions of
/// SHA-256.
pub proof fn lemma_state_root_covers_every_part(s: LedgerModel, t: LedgerModel)
    ensures
        state_bytes(LedgerModel { version: t.version, ..s }) == state_bytes(s) ==> t.version
            == s.version,
        state_bytes(LedgerModel { accounts: t.accounts, ..s }) == state_bytes(s) ==> accounts_hash(
            t.accounts,
        ) == accounts_hash(s.accounts),
        state_bytes(LedgerModel { journal: t.journal, ..s }) == state_bytes(s) ==> journal_hash(
            t.journal,
        ) == journal_hash(s.journal),
        state_bytes(LedgerModel { reservations: t.reservations, ..s }) == state_bytes(s)
            ==> reservations_hash(t.reservations) == reservations_hash(s.reservations),
        state_bytes(LedgerModel { consumed_intents: t.consumed_intents, ..s }) == state_bytes(s)
            ==> intents_hash(t.consumed_intents) == intents_hash(s.consumed_intents),
        state_bytes(LedgerModel { membership: t.membership, ..s }) == state_bytes(s)
            ==> membership_hash(t.membership) == membership_hash(s.membership),
        state_bytes(LedgerModel { utxos: t.utxos, ..s }) == state_bytes(s) ==> domain_hash(
            "KROOTv1:utxos"@,
            utf8(utxo_root(t.utxos)),
        ) == domain_hash("KROOTv1:utxos"@, utf8(utxo_root(s.utxos))),
{
    let v = utf8("KROOTv1:version"@);
    let a = utf8("KROOTv1:accounts"@);
    let j = utf8("KROOTv1:journal"@);
    let r = utf8("KROOTv1:reservations"@);
    let i = utf8("KROOTv1:intents"@);
    let m = utf8("KROOTv1:membership"@);
    let u = utf8("KROOTv1:utxos"@);
    let hu = domain_hash("KROOTv1:utxos"@, utf8(utxo_root(s.utxos)));
    let p1 = v + u64_bytes(s.version);
    let p2 = a + accounts_hash(s.accounts);
    let p3 = j + journal_hash(s.journal);
    let p4 = r + reservations_hash(s.reservations);
    let p5 = i + intents_hash(s.consumed_intents);
    let p6 = m + membership_hash(s.membership);
    let p7 = u + hu;
    if state_bytes(LedgerModel { version: t.version, ..s }) == state_bytes(s) {
        let q = v + u64_bytes(t.version);
        lemma_same_end(p1 + p2 + p3 + p4 + p5 + p6, q + p2 + p3 + p4 + p5 + p6, p7);
        lemma_same_end(p1 + p2 + p3 + p4 + p5, q + p2 + p3 + p4 + p5, p6);
        lemma_same_end(p1 + p2 + p3 + p4, q + p2 + p3 + p4, p5);
        lemma_same_end(p1 + p2 + p3, q + p2 + p3, p4);
        lemma_same_end(p1 + p2, q + p2, p3);
        lemma_same_end(p1, q, p2);
        lemma_same_split(v, u64_bytes(s.version), v, u64_bytes(t.version));
        lemma_u64_bytes(s.version, t.version);
    }
    if state_bytes(LedgerModel { accounts: t.accounts, ..s }) == state_bytes(s) {
        let q = a + accounts_hash(t.accounts);
        lemma_same_end(p1 + p2 + p3 + p4 + p5 + p6, p1 + q + p3 + p4 + p5 + p6, p7);
        lemma_same_end(p1 + p2 + p3 + p4 + p5, p1 + q + p3 + p4 + p5, p6);
        lemma_same_end(p1 + p2 + p3 + p4, p1 + q + p3 + p4, p5);
        lemma_same_end(p1 + p2 + p3, p1 + q + p3, p4);
        lemma_same_end(p1 + p2, p1 + q, p3);
        lemma_same_split(p1, p2, p1, q);
        lemma_same_split(a, accounts_hash(s.accounts), a, accounts_hash(t.accounts));
    }
    if state_bytes(LedgerModel { journal: t.journal, ..s }) == state_bytes(s) {
        let q = j + journal_hash(t.journal);
        let front = p1 + p2;
        lemma_same_end(front + p3 + p4 + p5 + p6, front + q + p4 + p5 + p6, p7);
        lemma_same_end(front + p3 + p4 + p5, front + q + p4 + p5, p6);
        lemma_same_end(front + p3 + p4, front + q + p4, p5);
        lemma_same_end(front + p3, front + q, p4);
        lemma_same_split(front, p3, front, q);
        lemma_same_split(j, journal_hash(s.journal), j, journal_hash(t.journal));
    }
    if state_bytes(LedgerModel { reservations: t.reservations, ..s }) == state_bytes(s) {
        let q = r + reservations_hash(t.reservations);
        let front = p1 + p2 + p3;
        lemma_same_end(front + p4 + p5 + p6, front + q + p5 + p6, p7);
        lemma_same_end(front + p4 + p5, front + q + p5, p6);
        lemma_same_end(front + p4, front + q, p5);
        lemma_same_split(front, p4, front, q);
        lemma_same_split(
            r,
            reservations_hash(s.reservations),
            r,
            reservations_hash(t.reservations),
        );
    }
    if state_bytes(LedgerModel { consumed_intents: t.consumed_intents, ..s }) == state_bytes(s) {
        let q = i + intents_hash(t.consumed_intents);
        let front = p1 + p2 + p3 + p4;
        lemma_same_end(front + p5 + p6, front + q + p6, p7);
        lemma_same_end(front + p5, front + q, p6);
        lemma_same_split(front, p5, front, q);
        lemma_same_split(i, intents_hash(s.consumed_intents), i, intents_hash(t.consumed_intents));
    }
    if state_bytes(LedgerModel { membership: t.membership, ..s }) == state_bytes(s) {
        let q = m + membership_hash(t.membership);
        let front = p1 + p2 + p3 + p4 + p5;
        lemma_same_end(front + p6, front + q, p7);
        lemma_same_split(front, p6, front, q);
        lemma_same_split(m, membership_hash(s.membership), m, membership_hash(t.membership));
    }
    if state_bytes(LedgerModel { utxos: t.utxos, ..s }) == state_bytes(s) {
        let ht = domain_hash("KROOTv1:utxos"@, utf8(utxo_root(t.utxos)));
        let front = p1 + p2 + p3 + p4 + p5 + p6;
        lemma_same_split(front, p7, front, u + ht);
        lemma_same_split(u, hu, u, ht);
    }
}

/// The hash of a part covers every item: an item that ranks last adds its own
/// hash behind those of all others, which stay as they were.
pub proof fn lemma_items_are_all_hashed<M>(
    tag: Seq<char>,
    items: Seq<M>,
    x: M,
    rank: spec_fn(M) -> Seq<int>,
    hash: spec_fn(M) -> Seq<u8>,
)
    requires
        forall|i: int| 0 <= i < items.len() ==> lex_le(rank(#[trigger] items[i]), rank(x)),
    ensures
        items_hash(tag, Seq::<M>::empty(), rank, hash) == domain_hash(tag, Seq::empty()),
        items_hash(tag, items.push(x), rank, hash) == domain_hash(
            tag,
            flat(stable_sorted(items, rank).map_values(hash)) + hash(x),
        ),
{
    broadcast use vstd::seq_lib::group_to_multiset_ensures;

    let sorted = stable_sorted(items, rank);
    lemma_stable_sorted(items, rank);
    assert(items.push(x).drop_last() =~= items);
    if sorted.len() > 0 {
        let y = sorted.last();
        assert(sorted.contains(y));
        assert(sorted.to_multiset().count(y) > 0);
        assert(items.contains(y));
        let i = choose|i: int| 0 <= i < items.len() && items[i] == y;
        assert(lex_le(rank(items[i]), rank(x)));
        assert(stable_sorted(items.push(x), rank) == sorted.push(x));
    } else {
        assert(sorted =~= Seq::<M>::empty());
        assert(stable_sorted(items.push(x), rank) =~= sorted.push(x));
    }
    assert(sorted.push(x).map_values(hash) =~= sorted.map_values(hash).push(hash(x)));
    assert(sorted.map_values(hash).push(hash(x)).drop_last() =~= sorted.map_values(hash));
    assert(stable_sorted(Seq::<M>::empty(), rank).map_values(hash) =~= Seq::<Seq<u8>>::empty());
}

/// What is hashed of an account, an entry, a reservation and an intent is all of
/// it, behind a tag of its own; and items are ordered by their identifiers, the
/// entries of the journal by their numbers.
pub proof fn lemma_leaves_are_whole(
    a: AccountModel,
    e: EntryModel,
    r: ReservationModel,
    intent: Seq<char>,
)
    ensures
        account_hash()(a) == sha256_digest(utf8("KROOTv1:acct"@) + account_bytes(a)),
        entry_hash()(e) == sha256_digest(utf8("KROOTv1:jent"@) + utf8(e.entry_hash)),
        reservation_hash()(r) == sha256_digest(utf8("KROOTv1:resv"@) + reservation_bytes(r)),
        intent_hash()(intent) == sha256_digest(utf8("KROOTv1:intent"@) + string_bytes(intent)),
        account_ranking()(a) == text_rank(a.account_id),
        entry_ranking()(e) == seq![e.sequence as int],
        reservation_ranking()(r) == text_rank(r.reservation_id),
{
}

proof fn lemma_strings_front(x: Seq<char>, s: Seq<Seq<char>>)
    ensures
        strings_bytes(seq![x] + s) == string_bytes(x) + strings_bytes(s),
    decreases s.len(),
{
    let all = seq![x] + s;
    if s.len() == 0 {
        assert(all.drop_last() =~= Seq::<Seq<char>>::empty());
        assert(all.last() == x);
        assert(strings_bytes(all.drop_last()) =~= Seq::<u8>::empty());
        assert(strings_bytes(all) =~= string_bytes(x) + strings_bytes(s));
    } else {
        lemma_strings_front(x, s.drop_last());
        assert(all.drop_last() =~= seq![x] + s.drop_last());
        assert(all.last() == s.last());
        assert(strings_bytes(all) =~= string_bytes(x) + strings_bytes(s));
    }
}

proof fn lemma_strings_injective(a: Seq<Seq<char>>, b: Seq<Seq<char>>)
    requires
        a.len() == b.len(),
        forall|i: int| 0 <= i < a.len() ==> encodable(#[trigger] a[i]),
        forall|i: int| 0 <= i < b.len() ==> encodable(#[trigger] b[i]),
        strings_bytes(a) == strings_bytes(b),
    ensures
        a == b,
    decreases a.len(),
{
    if a.len() > 0 {
        let x = a.drop_first();
        let y = b.drop_first();
        assert(a =~= seq![a[0]] + x);
        assert(b =~= seq![b[0]] + y);
        lemma_strings_front(a[0], x);
        lemma_strings_front(b[0], y);
        lemma_string_bytes_delimited(a[0], strings_bytes(x), b[0], strings_bytes(y));
        lemma_strings_injective(x, y);
    } else {
        assert(a =~= b);
    }
}

/// What is hashed of a membership tells its cluster, its profile and its nodes,
/// each as often as it is listed.
pub proof fn lemma_membership_bytes_tell_the_members(a: MembershipModel, b: MembershipModel)
    requires
        encodable(a.cluster_id),
        encodable(b.cluster_id),
        a.nodes.len() <= u64::MAX,
        b.nodes.len() <= u64::MAX,
        forall|i: int| 0 <= i < a.nodes.len() ==> encodable(#[trigger] a.nodes[i]),
        forall|i: int| 0 <= i < b.nodes.len() ==> encodable(#[trigger] b.nodes[i]),
        membership_bytes(a) == membership_bytes(b),
    ensures
        a.cluster_id == b.cluster_id,
        a.active_profile == b.active_profile,
        a.nodes.to_multiset() == b.nodes.to_multiset(),
{
    broadcast use vstd::seq_lib::group_to_multiset_ensures;

    let x = stable_sorted(a.nodes, text_ranking());
    let y = stable_sorted(b.nodes, text_ranking());
    lemma_stable_sorted(a.nodes, text_ranking());
    lemma_stable_sorted(b.nodes, text_ranking());
    let na = u64_bytes(a.nodes.len() as u64);
    let nb = u64_bytes(b.nodes.len() as u64);
    let ca = seq![profile_code(a.active_profile)];
    let cb = seq![profile_code(b.active_profile)];
    let ta = string_bytes(a.cluster_id) + (na + strings_bytes(x));
    let tb = string_bytes(b.cluster_id) + (nb + strings_bytes(y));
    assert(membership_bytes(a) =~= ca + ta);
    assert(membership_bytes(b) =~= cb + tb);
    lemma_same_split(ca, ta, cb, tb);
    assert(ca[0] == cb[0]);
    lemma_string_bytes_delimited(
        a.cluster_id,
        na + strings_bytes(x),
        b.cluster_id,
        nb + strings_bytes(y),
    );
    lemma_u64_bytes_delimited(
        a.nodes.len() as u64,
        strings_bytes(x),
        b.nodes.len() as u64,
        strings_bytes(y),
    );
    assert forall|i: int| 0 <= i < x.len() implies encodable(#[trigger] x[i]) by {
        assert(x.contains(x[i]));
        assert(x.to_multiset().count(x[i]) > 0);
        assert(a.nodes.contains(x[i]));
        let k = choose|k: int| 0 <= k < a.nodes.len() && a.nodes[k] == x[i];
        assert(encodable(a.nodes[k]));
    }
    assert forall|i: int| 0 <= i < y.len() implies encodable(#[trigger] y[i]) by {
        assert(y.contains(y[i]));
        assert(y.to_multiset().count(y[i]) > 0);
        assert(b.nodes.contains(y[i]));
        let k = choose|k: int| 0 <= k < b.nodes.len() && b.nodes[k] == y[i];
        assert(encodable(b.nodes[k]));
    }
    lemma_strings_injective(x, y);
}

} // verus!
