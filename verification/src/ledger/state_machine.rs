//! The deterministic state machine of the ledger.

use crate::codec::{encodable, lemma_associative, lemma_option_u64_bytes_delimited, lemma_regrouped,
    lemma_same_split,
    lemma_string_bytes_delimited, lemma_u64_bytes, option_u64_bytes, put_option_u64, put_string,
    put_text, put_u64, put_u8, string_bytes, u64_bytes, utf8};
use crate::digest::{is_digest_text, sha256_hex, sha256_text};
use crate::ledger::account_state::{account_models, credit, debit, new_account, release, reserve,
    version_checked, AccountModel, AccountState};
use crate::ledger::chain::{all_reorged, outpoint_parsed, seen_utxo, state_spendable,
    transition_checked, utxo_models, with_new, DetectUtxoPayload, OnchainState, OutPoint,
    OutPointModel, ReorgHandler, ReorgPayload, UtxoEntry, UtxoModel, UtxoTransitionGate};
use crate::ledger::double_entry::{entry_models, EntryModel, JournalEntry};
use crate::ledger::error::{outcome, ErrorModel, LedgerError};
use crate::ledger::reservation::{reservation_models, Reservation, ReservationModel};
use crate::ledger::state_root::{compute_state_root, state_root};
use crate::text::{contains_text, decimal, lemma_parse_decimal, parse_u64, parse_unsigned, split_at_first, split_once, str_eq,
    texts};
use vstd::prelude::*;

verus! {

/// Every command that the ledger can process.
#[derive(Debug, Clone, Copy, PartialEq, Eq, Hash, Structural)]
pub enum LedgerCommandType {
    CreditInternalBalance,
    DebitInternalBalance,
    ReserveBalance,
    ReleaseReservation,
    CommitInternalTransfer,
    DetectUtxo,
    ConfirmUtxo,
    MarkUtxoSpendable,
    ReserveUtxo,
    ReleaseUtxo,
    MarkUtxoSpent,
    PrepareWithdrawal,
    AuthorizeWithdrawal,
    BroadcastWithdrawal,
    ConfirmWithdrawal,
    FailWithdrawal,
    ApplyChainReorganization,
    ConsumeIntent,
    ExpireIntent,
    AddObserverNode,
    PromoteVotingNode,
    RemoveNode,
    InstallSnapshot,
}

/// The stable code of a command type.
pub open spec fn command_code(t: LedgerCommandType) -> u8 {
    match t {
        LedgerCommandType::CreditInternalBalance => 0,
        LedgerCommandType::DebitInternalBalance => 1,
        LedgerCommandType::ReserveBalance => 2,
        LedgerCommandType::ReleaseReservation => 3,
        LedgerCommandType::CommitInternalTransfer => 4,
        LedgerCommandType::DetectUtxo => 5,
        LedgerCommandType::ConfirmUtxo => 6,
        LedgerCommandType::MarkUtxoSpendable => 7,
        LedgerCommandType::ReserveUtxo => 8,
        LedgerCommandType::ReleaseUtxo => 9,
        LedgerCommandType::MarkUtxoSpent => 10,
        LedgerCommandType::PrepareWithdrawal => 11,
        LedgerCommandType::AuthorizeWithdrawal => 12,
        LedgerCommandType::BroadcastWithdrawal => 13,
        LedgerCommandType::ConfirmWithdrawal => 14,
        LedgerCommandType::FailWithdrawal => 15,
        LedgerCommandType::ApplyChainReorganization => 16,
        LedgerCommandType::ConsumeIntent => 17,
        LedgerCommandType::ExpireIntent => 18,
        LedgerCommandType::AddObserverNode => 19,
        LedgerCommandType::PromoteVotingNode => 20,
        LedgerCommandType::RemoveNode => 21,
        LedgerCommandType::InstallSnapshot => 22,
    }
}

impl LedgerCommandType {
    /// The stable code of this command type.
    pub fn code(&self) -> (r: u8)
        ensures
            r == command_code(*self),
    {
        match self {
            LedgerCommandType::CreditInternalBalance => 0,
            LedgerCommandType::DebitInternalBalance => 1,
            LedgerCommandType::ReserveBalance => 2,
            LedgerCommandType::ReleaseReservation => 3,
            LedgerCommandType::CommitInternalTransfer => 4,
            LedgerCommandType::DetectUtxo => 5,
            LedgerCommandType::ConfirmUtxo => 6,
            LedgerCommandType::MarkUtxoSpendable => 7,
            LedgerCommandType::ReserveUtxo => 8,
            LedgerCommandType::ReleaseUtxo => 9,
            LedgerCommandType::MarkUtxoSpent => 10,
            LedgerCommandType::PrepareWithdrawal => 11,
            LedgerCommandType::AuthorizeWithdrawal => 12,
            LedgerCommandType::BroadcastWithdrawal => 13,
            LedgerCommandType::ConfirmWithdrawal => 14,
            LedgerCommandType::FailWithdrawal => 15,
            LedgerCommandType::ApplyChainReorganization => 16,
            LedgerCommandType::ConsumeIntent => 17,
            LedgerCommandType::ExpireIntent => 18,
            LedgerCommandType::AddObserverNode => 19,
            LedgerCommandType::PromoteVotingNode => 20,
            LedgerCommandType::RemoveNode => 21,
            LedgerCommandType::InstallSnapshot => 22,
        }
    }
}

/// A command of the ledger.
#[derive(Debug, PartialEq, Eq)]
pub struct LedgerCommand {
    /// Globally unique command identifier (used for idempotency).
    pub command_id: String,
    /// The type of operation to perform.
    pub command_type: LedgerCommandType,
    /// What the command is about: an account, an outpoint, an intent, a node.
    pub partition_key: String,
    /// Expected version of the primary account, if any.
    pub expected_version: Option<u64>,
    /// Hash of the command's contents, leaving out the identifier.
    pub payload_hash: String,
    /// Authorization commitment, or the operation's argument.
    pub authorization_commitment: String,
    /// Epoch in which this command was created.
    pub epoch: u64,
    /// Time bucket for ordering.
    pub created_at_bucket: u64,
}

/// A command with its texts as sequences of characters.
pub struct CommandModel {
    pub command_id: Seq<char>,
    pub command_type: LedgerCommandType,
    pub partition_key: Seq<char>,
    pub expected_version: Option<u64>,
    pub payload_hash: Seq<char>,
    pub authorization_commitment: Seq<char>,
    pub epoch: u64,
    pub created_at_bucket: u64,
}

impl View for LedgerCommand {
    type V = CommandModel;

    open spec fn view(&self) -> CommandModel {
        CommandModel {
            command_id: self.command_id@,
            command_type: self.command_type,
            partition_key: self.partition_key@,
            expected_version: self.expected_version,
            payload_hash: self.payload_hash@,
            authorization_commitment: self.authorization_commitment@,
            epoch: self.epoch,
            created_at_bucket: self.created_at_bucket,
        }
    }
}

impl Clone for LedgerCommand {
    fn clone(&self) -> (r: Self)
        ensures
            r == *self,
    {
        LedgerCommand {
            command_id: self.command_id.clone(),
            command_type: self.command_type,
            partition_key: self.partition_key.clone(),
            expected_version: self.expected_version,
            payload_hash: self.payload_hash.clone(),
            authorization_commitment: self.authorization_commitment.clone(),
            epoch: self.epoch,
            created_at_bucket: self.created_at_bucket,
        }
    }
}

/// The bytes under the payload hash of a command.
pub open spec fn payload_bytes(
    command_type: LedgerCommandType,
    expected_version: Option<u64>,
    partition_key: Seq<char>,
    authorization_commitment: Seq<char>,
    epoch: u64,
    created_at_bucket: u64,
) -> Seq<u8> {
    utf8("KROOTv1:LedgerCommand"@) + seq![command_code(command_type)] + option_u64_bytes(
        expected_version,
    ) + string_bytes(partition_key) + string_bytes(authorization_commitment) + u64_bytes(epoch)
        + u64_bytes(created_at_bucket)
}

/// The bytes under the payload hash of a command. The identifier and the hash
/// itself have no part in them.
pub open spec fn command_bytes(c: CommandModel) -> Seq<u8> {
    payload_bytes(
        c.command_type,
        c.expected_version,
        c.partition_key,
        c.authorization_commitment,
        c.epoch,
        c.created_at_bucket,
    )
}

impl LedgerCommand {
    /// A command with its payload hash.
    pub fn new(
        command_id: &str,
        command_type: LedgerCommandType,
        partition_key: &str,
        expected_version: Option<u64>,
        authorization_commitment: &str,
        epoch: u64,
        created_at_bucket: u64,
    ) -> (r: Self)
        ensures
            r@ == (CommandModel {
                command_id: command_id@,
                command_type,
                partition_key: partition_key@,
                expected_version,
                payload_hash: sha256_hex(
                    payload_bytes(
                        command_type,
                        expected_version,
                        partition_key@,
                        authorization_commitment@,
                        epoch,
                        created_at_bucket,
                    ),
                ),
                authorization_commitment: authorization_commitment@,
                epoch,
                created_at_bucket,
            }),
    {
        let mut cmd = LedgerCommand {
            command_id: command_id.to_owned(),
            command_type,
            partition_key: partition_key.to_owned(),
            expected_version,
            payload_hash: String::new(),
            authorization_commitment: authorization_commitment.to_owned(),
            epoch,
            created_at_bucket,
        };
        let hash = cmd.compute_payload_hash();
        cmd.payload_hash = hash;
        cmd
    }

    /// Computes the payload hash from the command's contents.
    pub fn compute_payload_hash(&self) -> (r: String)
        ensures
            r@ == sha256_hex(command_bytes(self@)),
            is_digest_text(r@),
    {
        let mut buf: Vec<u8> = Vec::new();
        put_text(&mut buf, "KROOTv1:LedgerCommand");
        put_u8(&mut buf, self.command_type.code());
        put_option_u64(&mut buf, self.expected_version);
        put_string(&mut buf, self.partition_key.as_str());
        put_string(&mut buf, self.authorization_commitment.as_str());
        put_u64(&mut buf, self.epoch);
        put_u64(&mut buf, self.created_at_bucket);
        assert(buf@ =~= command_bytes(self@));
        sha256_text(buf.as_slice())
    }
}

/// Different command types have different codes.
proof fn lemma_command_code_injective(a: LedgerCommandType, b: LedgerCommandType)
    requires
        command_code(a) == command_code(b),
    ensures
        a == b,
{
}

/// What follows the tag and the code in the bytes under a payload hash.
spec fn payload_tail(c: CommandModel) -> Seq<u8> {
    option_u64_bytes(c.expected_version) + (string_bytes(c.partition_key) + (string_bytes(
        c.authorization_commitment,
    ) + (u64_bytes(c.epoch) + u64_bytes(c.created_at_bucket))))
}

proof fn lemma_command_bytes_parts(c: CommandModel)
    ensures
        command_bytes(c) == utf8("KROOTv1:LedgerCommand"@) + (seq![command_code(c.command_type)]
            + payload_tail(c)),
{
    let tag = utf8("KROOTv1:LedgerCommand"@);
    let code = seq![command_code(c.command_type)];
    let v = option_u64_bytes(c.expected_version);
    let k = string_bytes(c.partition_key);
    let z = string_bytes(c.authorization_commitment);
    let e = u64_bytes(c.epoch);
    let t = u64_bytes(c.created_at_bucket);
    lemma_regrouped(tag + code, v, k, z, e, t);
    lemma_associative(tag, code, payload_tail(c));
}

proof fn lemma_payload_tail_injective(a: CommandModel, b: CommandModel)
    requires
        encodable(a.partition_key),
        encodable(b.partition_key),
        encodable(a.authorization_commitment),
        encodable(b.authorization_commitment),
        payload_tail(a) == payload_tail(b),
    ensures
        a.expected_version == b.expected_version,
        a.partition_key == b.partition_key,
        a.authorization_commitment == b.authorization_commitment,
        a.epoch == b.epoch,
        a.created_at_bucket == b.created_at_bucket,
{
    let ea = u64_bytes(a.epoch) + u64_bytes(a.created_at_bucket);
    let eb = u64_bytes(b.epoch) + u64_bytes(b.created_at_bucket);
    let da = string_bytes(a.authorization_commitment) + ea;
    let db = string_bytes(b.authorization_commitment) + eb;
    let ca = string_bytes(a.partition_key) + da;
    let cb = string_bytes(b.partition_key) + db;
    lemma_option_u64_bytes_delimited(a.expected_version, ca, b.expected_version, cb);
    lemma_string_bytes_delimited(a.partition_key, da, b.partition_key, db);
    lemma_string_bytes_delimited(a.authorization_commitment, ea, b.authorization_commitment, eb);
    lemma_u64_bytes(a.epoch, b.epoch);
    lemma_u64_bytes(b.epoch, a.epoch);
    lemma_same_split(
        u64_bytes(a.epoch),
        u64_bytes(a.created_at_bucket),
        u64_bytes(b.epoch),
        u64_bytes(b.created_at_bucket),
    );
    lemma_u64_bytes(a.created_at_bucket, b.created_at_bucket);
}

/// Commands that differ in anything but identifier and hash are hashed from
/// different bytes.
pub proof fn lemma_command_bytes_injective(a: CommandModel, b: CommandModel)
    requires
        encodable(a.partition_key),
        encodable(b.partition_key),
        encodable(a.authorization_commitment),
        encodable(b.authorization_commitment),
        command_bytes(a) == command_bytes(b),
    ensures
        a.command_type == b.command_type,
        a.expected_version == b.expected_version,
        a.partition_key == b.partition_key,
        a.authorization_commitment == b.authorization_commitment,
        a.epoch == b.epoch,
        a.created_at_bucket == b.created_at_bucket,
{
    lemma_command_bytes_parts(a);
    lemma_command_bytes_parts(b);
    let tag = utf8("KROOTv1:LedgerCommand"@);
    let ca = seq![command_code(a.command_type)];
    let cb = seq![command_code(b.command_type)];
    lemma_same_split(tag, ca + payload_tail(a), tag, cb + payload_tail(b));
    lemma_same_split(ca, payload_tail(a), cb, payload_tail(b));
    assert(ca[0] == cb[0]);
    lemma_command_code_injective(a.command_type, b.command_type);
    lemma_payload_tail_injective(a, b);
}

/// The consensus profile that a cluster runs under.
#[derive(Debug, Clone, Copy, PartialEq, Eq, Hash, Structural)]
pub enum ConsensusProfile {
    /// Single node with self-signed quorum certificates.
    Single,
    /// High availability under crash faults.
    HaCrash,
    /// Byzantine fault tolerant with one faulty node.
    BftF1,
    /// Byzantine fault tolerant with two faulty nodes.
    BftF2,
}

/// The cluster membership at a point in time.
#[derive(Debug, PartialEq, Eq)]
pub struct MembershipView {
    /// Unique cluster identifier.
    pub cluster_id: String,
    /// Identifiers of the nodes in the cluster.
    pub nodes: Vec<String>,
    /// The consensus profile currently active.
    pub active_profile: ConsensusProfile,
}

/// A membership with its texts as sequences of characters.
pub struct MembershipModel {
    pub cluster_id: Seq<char>,
    pub nodes: Seq<Seq<char>>,
    pub active_profile: ConsensusProfile,
}

impl View for MembershipView {
    type V = MembershipModel;

    open spec fn view(&self) -> MembershipModel {
        MembershipModel {
            cluster_id: self.cluster_id@,
            nodes: texts(self.nodes@),
            active_profile: self.active_profile,
        }
    }
}

impl Clone for MembershipView {
    fn clone(&self) -> (r: Self)
        ensures
            r@ == self@,
    {
        MembershipView {
            cluster_id: self.cluster_id.clone(),
            nodes: crate::text::clone_texts(&self.nodes),
            active_profile: self.active_profile,
        }
    }
}

impl MembershipView {
    /// The membership of a cluster of one node.
    pub fn single_node(cluster_id: &str, node_id: &str) -> (r: Self)
        ensures
            r@ == (MembershipModel {
                cluster_id: cluster_id@,
                nodes: seq![node_id@],
                active_profile: ConsensusProfile::Single,
            }),
    {
        let mut nodes: Vec<String> = Vec::new();
        nodes.push(node_id.to_owned());
        let r = MembershipView {
            cluster_id: cluster_id.to_owned(),
            nodes,
            active_profile: ConsensusProfile::Single,
        };
        assert(r@.nodes =~= seq![node_id@]);
        r
    }
}

/// The full state of the ledger.
#[derive(Debug, PartialEq, Eq)]
pub struct LedgerState {
    /// Grows by one with every transition.
    pub version: u64,
    /// All accounts.
    pub accounts: Vec<AccountState>,
    /// All committed journal entries.
    pub journal: Vec<JournalEntry>,
    /// All reservations.
    pub reservations: Vec<Reservation>,
    /// Identifiers of consumed intents.
    pub consumed_intents: Vec<String>,
    /// Cluster membership.
    pub membership: MembershipView,
    /// All tracked outputs.
    pub utxos: Vec<UtxoEntry>,
}

/// The ledger state as a mathematical value.
pub struct LedgerModel {
    pub version: u64,
    pub accounts: Seq<AccountModel>,
    pub journal: Seq<EntryModel>,
    pub reservations: Seq<ReservationModel>,
    pub consumed_intents: Seq<Seq<char>>,
    pub membership: MembershipModel,
    pub utxos: Seq<UtxoModel>,
}

impl View for LedgerState {
    type V = LedgerModel;

    open spec fn view(&self) -> LedgerModel {
        LedgerModel {
            version: self.version,
            accounts: account_models(self.accounts@),
            journal: entry_models(self.journal@),
            reservations: reservation_models(self.reservations@),
            consumed_intents: texts(self.consumed_intents@),
            membership: self.membership@,
            utxos: utxo_models(self.utxos@),
        }
    }
}

/// Where an account stands: its first position, or the number of accounts if
/// there is none.
pub open spec fn account_pos(s: Seq<AccountModel>, id: Seq<char>) -> nat
    decreases s.len(),
{
    if s.len() == 0 {
        0
    } else if s[0].account_id == id {
        0
    } else {
        1 + account_pos(s.drop_first(), id)
    }
}

/// Whether an account exists.
pub open spec fn has_account(s: Seq<AccountModel>, id: Seq<char>) -> bool {
    account_pos(s, id) < s.len()
}

/// The accounts with one of the given identifier, new at the end if needed.
pub open spec fn with_account(s: Seq<AccountModel>, id: Seq<char>) -> Seq<AccountModel> {
    if has_account(s, id) {
        s
    } else {
        s.push(new_account(id))
    }
}

/// The account of the given identifier, a new one if there is none.
pub open spec fn account_or_new(s: Seq<AccountModel>, id: Seq<char>) -> AccountModel {
    with_account(s, id)[account_pos(s, id) as int]
}

/// The accounts after the one of the given identifier took another value.
pub open spec fn account_set(s: Seq<AccountModel>, id: Seq<char>, a: AccountModel) -> Seq<
    AccountModel,
> {
    with_account(s, id).update(account_pos(s, id) as int, a)
}

/// The position of an account is the first with its identifier.
pub proof fn lemma_account_pos(s: Seq<AccountModel>, id: Seq<char>)
    ensures
        account_pos(s, id) <= s.len(),
        has_account(s, id) ==> s[account_pos(s, id) as int].account_id == id,
        forall|j: int| 0 <= j < account_pos(s, id) ==> (#[trigger] s[j]).account_id != id,
    decreases s.len(),
{
    if s.len() > 0 && s[0].account_id != id {
        let t = s.drop_first();
        lemma_account_pos(t, id);
        assert forall|j: int| 0 <= j < account_pos(s, id) implies (#[trigger] s[j]).account_id
            != id by {
            if j > 0 {
                assert(s[j] == t[j - 1]);
            }
        }
    }
}

proof fn lemma_account_pos_is(s: Seq<AccountModel>, id: Seq<char>, i: nat)
    requires
        i <= s.len(),
        i < s.len() ==> s[i as int].account_id == id,
        forall|j: int| 0 <= j < i ==> (#[trigger] s[j]).account_id != id,
    ensures
        account_pos(s, id) == i,
{
    lemma_account_pos(s, id);
    let k = account_pos(s, id);
    if k < i {
        assert(s[k as int].account_id != id);
    } else if i < k {
        assert(s[i as int].account_id != id);
    }
}

/// After an account took another value it has that value, and every other
/// account is as it was.
pub proof fn lemma_account_after_set(
    s: Seq<AccountModel>,
    id: Seq<char>,
    a: AccountModel,
    other: Seq<char>,
)
    requires
        a.account_id == id,
    ensures
        account_or_new(account_set(s, id, a), other) == (if other == id {
            a
        } else {
            account_or_new(s, other)
        }),
{
    lemma_account_pos(s, id);
    lemma_account_pos(s, other);
    let t = account_set(s, id, a);
    let k = account_pos(s, id);
    if other == id {
        assert forall|j: int| 0 <= j < k implies (#[trigger] t[j]).account_id != id by {
            assert(t[j] == s[j]);
        }
        lemma_account_pos_is(t, id, k);
    } else {
        let p = account_pos(s, other);
        let q = if p < s.len() {
            p
        } else {
            t.len()
        };
        assert forall|j: int| 0 <= j < q implies (#[trigger] t[j]).account_id != other by {
            if j != k {
                assert(t[j] == s[j]);
            }
        }
        lemma_account_pos_is(t, other, q);
    }
}

/// Where a reservation stands: its first position, or the number of
/// reservations if there is none.
pub open spec fn reservation_pos(s: Seq<ReservationModel>, id: Seq<char>) -> nat
    decreases s.len(),
{
    if s.len() == 0 {
        0
    } else if s[0].reservation_id == id {
        0
    } else {
        1 + reservation_pos(s.drop_first(), id)
    }
}

proof fn lemma_reservation_pos_is(s: Seq<ReservationModel>, id: Seq<char>, i: nat)
    requires
        i <= s.len(),
        i < s.len() ==> s[i as int].reservation_id == id,
        forall|j: int| 0 <= j < i ==> (#[trigger] s[j]).reservation_id != id,
    ensures
        reservation_pos(s, id) == i,
    decreases s.len(),
{
    if s.len() > 0 {
        if i > 0 {
            assert(s[0].reservation_id != id);
            let t = s.drop_first();
            assert forall|j: int| 0 <= j < i - 1 implies (#[trigger] t[j]).reservation_id != id by {
                assert(t[j] == s[j + 1]);
            }
            lemma_reservation_pos_is(t, id, (i - 1) as nat);
        }
    }
}

/// Where an output stands: its first position, or the number of outputs if
/// there is none.
pub open spec fn utxo_pos(s: Seq<UtxoModel>, o: OutPointModel) -> nat
    decreases s.len(),
{
    if s.len() == 0 {
        0
    } else if s[0].outpoint == o {
        0
    } else {
        1 + utxo_pos(s.drop_first(), o)
    }
}

proof fn lemma_utxo_pos_is(s: Seq<UtxoModel>, o: OutPointModel, i: nat)
    requires
        i <= s.len(),
        i < s.len() ==> s[i as int].outpoint == o,
        forall|j: int| 0 <= j < i ==> (#[trigger] s[j]).outpoint != o,
    ensures
        utxo_pos(s, o) == i,
    decreases s.len(),
{
    if s.len() > 0 {
        if i > 0 {
            assert(s[0].outpoint != o);
            let t = s.drop_first();
            assert forall|j: int| 0 <= j < i - 1 implies (#[trigger] t[j]).outpoint != o by {
                assert(t[j] == s[j + 1]);
            }
            lemma_utxo_pos_is(t, o, (i - 1) as nat);
        }
    }
}

impl LedgerState {
    /// An empty state with the given membership.
    pub fn empty(membership: MembershipView) -> (r: Self)
        ensures
            r@ == (LedgerModel {
                version: 0,
                accounts: Seq::empty(),
                journal: Seq::empty(),
                reservations: Seq::empty(),
                consumed_intents: Seq::empty(),
                membership: membership@,
                utxos: Seq::empty(),
            }),
    {
        let r = LedgerState {
            version: 0,
            accounts: Vec::new(),
            journal: Vec::new(),
            reservations: Vec::new(),
            consumed_intents: Vec::new(),
            membership,
            utxos: Vec::new(),
        };
        proof {
            assert(r@.accounts =~= Seq::<AccountModel>::empty());
            assert(r@.journal =~= Seq::<EntryModel>::empty());
            assert(r@.reservations =~= Seq::<ReservationModel>::empty());
            assert(r@.consumed_intents =~= Seq::<Seq<char>>::empty());
            assert(r@.utxos =~= Seq::<UtxoModel>::empty());
        }
        r
    }

    /// The position of an account, or the number of accounts.
    fn account_index(&self, account_id: &str) -> (r: usize)
        ensures
            r == account_pos(self@.accounts, account_id@),
            r <= self.accounts@.len(),
    {
        let ghost all = self@.accounts;
        let mut i: usize = 0;
        while i < self.accounts.len()
            invariant
                i <= self.accounts@.len(),
                all == self@.accounts,
                forall|j: int| 0 <= j < i ==> (#[trigger] all[j]).account_id != account_id@,
            decreases self.accounts.len() - i,
        {
            assert(all[i as int] == self.accounts@[i as int]@);
            if str_eq(self.accounts[i].account_id.as_str(), account_id) {
                proof {
                    lemma_account_pos_is(all, account_id@, i as nat);
                }
                return i;
            }
            i += 1;
        }
        proof {
            lemma_account_pos_is(all, account_id@, i as nat);
        }
        i
    }

    /// Finds an account by identifier, for change.
    pub fn find_account_mut(&mut self, account_id: &str) -> (r: Option<&mut AccountState>)
        ensures
            match r {
                Some(a) => {
                    let i = account_pos(old(self)@.accounts, account_id@);
                    &&& has_account(old(self)@.accounts, account_id@)
                    &&& a@ == old(self)@.accounts[i as int]
                    &&& final(self)@ == (LedgerModel {
                        accounts: old(self)@.accounts.update(i as int, final(a)@),
                        ..old(self)@
                    })
                },
                None => !has_account(old(self)@.accounts, account_id@) && *final(self) == *old(self),
            },
    {
        let i: usize = self.account_index(account_id);
        if i < self.accounts.len() {
            let ghost before = self@;
            let ghost entries = self.accounts@;
            let r = &mut self.accounts[i];
            assert forall|a: AccountState| #[trigger]
                account_models(entries.update(i as int, a)) == account_models(entries).update(
                i as int,
                a@,
            ) by {
                assert(account_models(entries.update(i as int, a)) =~= account_models(
                    entries,
                ).update(i as int, a@));
            }
            Some(r)
        } else {
            None
        }
    }

    /// Finds an account by identifier.
    pub fn find_account(&self, account_id: &str) -> (r: Option<&AccountState>)
        ensures
            match r {
                Some(a) => has_account(self@.accounts, account_id@) && a@
                    == self@.accounts[account_pos(self@.accounts, account_id@) as int],
                None => !has_account(self@.accounts, account_id@),
            },
    {
        let i: usize = self.account_index(account_id);
        if i < self.accounts.len() {
            Some(&self.accounts[i])
        } else {
            None
        }
    }

    /// A copy of the account of the given identifier, a new one if there is
    /// none.
    fn account_or_default(&self, account_id: &str) -> (r: AccountState)
        ensures
            r@ == account_or_new(self@.accounts, account_id@),
    {
        proof {
            lemma_account_pos(self@.accounts, account_id@);
        }
        match self.find_account(account_id) {
            Some(a) => a.clone(),
            None => AccountState::new(account_id),
        }
    }

    /// The account of the given identifier, created at version 0 if needed.
    pub fn get_or_create_account(&mut self, account_id: &str) -> (r: &mut AccountState)
        ensures
            r@ == account_or_new(old(self)@.accounts, account_id@),
            final(self)@ == (LedgerModel {
                accounts: account_set(old(self)@.accounts, account_id@, final(r)@),
                ..old(self)@
            }),
    {
        let i: usize = self.account_index(account_id);
        let ghost before = self.accounts@;
        if i == self.accounts.len() {
            self.accounts.push(AccountState::new(account_id));
        }
        let ghost entries = self.accounts@;
        assert(account_models(entries) =~= with_account(account_models(before), account_id@));
        assert forall|a: AccountState| #[trigger]
            account_models(entries.update(i as int, a)) == account_models(entries).update(
            i as int,
            a@,
        ) by {
            assert(account_models(entries.update(i as int, a)) =~= account_models(entries).update(
                i as int,
                a@,
            ));
        }
        &mut self.accounts[i]
    }

    /// Finds a reservation by identifier.
    pub fn find_reservation(&self, reservation_id: &str) -> (r: Option<&Reservation>)
        ensures
            ({
                let i = reservation_pos(self@.reservations, reservation_id@);
                match r {
                    Some(x) => i < self@.reservations.len() && x@ == self@.reservations[i as int],
                    None => i >= self@.reservations.len(),
                }
            }),
    {
        let ghost all = self@.reservations;
        let mut i: usize = 0;
        while i < self.reservations.len()
            invariant
                i <= self.reservations@.len(),
                all == self@.reservations,
                forall|j: int|
                    0 <= j < i ==> (#[trigger] all[j]).reservation_id != reservation_id@,
            decreases self.reservations.len() - i,
        {
            assert(all[i as int] == self.reservations@[i as int]@);
            if str_eq(self.reservations[i].reservation_id.as_str(), reservation_id) {
                proof {
                    lemma_reservation_pos_is(all, reservation_id@, i as nat);
                }
                return Some(&self.reservations[i]);
            }
            i += 1;
        }
        proof {
            lemma_reservation_pos_is(all, reservation_id@, i as nat);
        }
        None
    }

    /// The position of an output, or the number of outputs.
    pub fn utxo_index(&self, outpoint: &OutPoint) -> (r: usize)
        ensures
            r == utxo_pos(self@.utxos, outpoint@),
            r <= self.utxos@.len(),
    {
        let ghost all = self@.utxos;
        let mut i: usize = 0;
        while i < self.utxos.len()
            invariant
                i <= self.utxos@.len(),
                all == self@.utxos,
                forall|j: int| 0 <= j < i ==> (#[trigger] all[j]).outpoint != outpoint@,
            decreases self.utxos.len() - i,
        {
            assert(all[i as int] == self.utxos@[i as int]@);
            if self.utxos[i].outpoint.same(outpoint) {
                proof {
                    lemma_utxo_pos_is(all, outpoint@, i as nat);
                }
                return i;
            }
            i += 1;
        }
        proof {
            lemma_utxo_pos_is(all, outpoint@, i as nat);
        }
        i
    }
}

/// What a detection payload says.
pub struct DetectModel {
    pub value_sats: u64,
    pub address: Seq<char>,
}

/// What a reorganisation payload says.
pub struct ReorgModel {
    pub disconnected_txids: Seq<Seq<char>>,
    pub new_utxos: Seq<UtxoModel>,
}

/// The payload of a command as it was decoded from its authorization
/// commitment, once for each type of payload: the value, or the message of
/// the decoder.
#[derive(Debug)]
pub struct DecodedPayload {
    pub detect_utxo: Result<DetectUtxoPayload, String>,
    pub reorg: Result<ReorgPayload, String>,
}

/// A decoded payload with its texts as sequences of characters.
pub struct PayloadModel {
    pub detect_utxo: Result<DetectModel, Seq<char>>,
    pub reorg: Result<ReorgModel, Seq<char>>,
}

impl View for DecodedPayload {
    type V = PayloadModel;

    open spec fn view(&self) -> PayloadModel {
        PayloadModel {
            detect_utxo: match self.detect_utxo {
                Ok(p) => Ok(DetectModel { value_sats: p.value_sats, address: p.address@ }),
                Err(m) => Err(m@),
            },
            reorg: match self.reorg {
                Ok(p) => Ok(
                    ReorgModel {
                        disconnected_txids: texts(p.disconnected_txids@),
                        new_utxos: utxo_models(p.new_utxos@),
                    },
                ),
                Err(m) => Err(m@),
            },
        }
    }
}

impl DecodedPayload {
    /// The payload of a command that carries none.
    pub fn absent() -> (r: Self)
        ensures
            r@.detect_utxo == Err::<DetectModel, Seq<char>>(""@),
            r@.reorg == Err::<ReorgModel, Seq<char>>(""@),
    {
        DecodedPayload { detect_utxo: Err("".to_owned()), reorg: Err("".to_owned()) }
    }
}

/// Receipt of a transition.
#[derive(Debug, PartialEq, Eq)]
pub struct StateTransitionReceipt {
    /// Version of the state before this transition.
    pub sequence: u64,
    /// Payload hash of the command.
    pub command_hash: String,
    /// State root before the command.
    pub previous_state_root: String,
    /// State root after the command.
    pub resulting_state_root: String,
    /// What the transition touched.
    pub affected_accounts: Vec<String>,
}

/// A receipt with its texts as sequences of characters.
pub struct TransitionModel {
    pub sequence: u64,
    pub command_hash: Seq<char>,
    pub previous_state_root: Seq<char>,
    pub resulting_state_root: Seq<char>,
    pub affected_accounts: Seq<Seq<char>>,
}

impl View for StateTransitionReceipt {
    type V = TransitionModel;

    open spec fn view(&self) -> TransitionModel {
        TransitionModel {
            sequence: self.sequence,
            command_hash: self.command_hash@,
            previous_state_root: self.previous_state_root@,
            resulting_state_root: self.resulting_state_root@,
            affected_accounts: texts(self.affected_accounts@),
        }
    }
}

/// The result of a transition with texts as sequences.
pub open spec fn transition_outcome(r: Result<StateTransitionReceipt, LedgerError>) -> Result<
    TransitionModel,
    ErrorModel,
> {
    match r {
        Ok(v) => Ok(v@),
        Err(e) => Err(e@),
    }
}

/// The amount that a command carries; zero if it carries none.
pub open spec fn amount_of(text: Seq<char>) -> u64 {
    match parse_unsigned(text, u64::MAX as nat) {
        Some(v) => v as u64,
        None => 0,
    }
}

/// The version that a command expects; zero if it expects none.
pub open spec fn expected_or_zero(c: CommandModel) -> u64 {
    match c.expected_version {
        Some(v) => v,
        None => 0,
    }
}

/// The conflict reported for an account that does not exist.
pub open spec fn missing_account(c: CommandModel) -> ErrorModel {
    ErrorModel::VersionConflict {
        account: c.partition_key,
        expected: expected_or_zero(c),
        current: 0,
    }
}

/// Whether a credit is valid: a version that is expected must be the current
/// one, which is zero for an account that does not exist.
pub open spec fn credit_validated(s: LedgerModel, c: CommandModel) -> Result<(), ErrorModel> {
    match c.expected_version {
        Some(v) => if has_account(s.accounts, c.partition_key) {
            version_checked(account_or_new(s.accounts, c.partition_key), v)
        } else if v != 0 {
            Err(missing_account(c))
        } else {
            Ok(())
        },
        None => Ok(()),
    }
}

/// Whether a debit or a reservation is valid: the account must exist, at the
/// expected version if there is one.
pub open spec fn existing_validated(s: LedgerModel, c: CommandModel) -> Result<(), ErrorModel> {
    if !has_account(s.accounts, c.partition_key) {
        Err(missing_account(c))
    } else {
        match c.expected_version {
            Some(v) => version_checked(account_or_new(s.accounts, c.partition_key), v),
            None => Ok(()),
        }
    }
}

/// Whether a release is valid: a version that is expected must be that of an
/// existing account.
pub open spec fn release_validated(s: LedgerModel, c: CommandModel) -> Result<(), ErrorModel> {
    match c.expected_version {
        Some(v) => existing_validated(s, c),
        None => Ok(()),
    }
}

/// The position of the output that a command is about.
pub open spec fn utxo_target(s: LedgerModel, key: Seq<char>) -> Result<nat, ErrorModel> {
    match outpoint_parsed(key) {
        Err(e) => Err(e),
        Ok(o) => if utxo_pos(s.utxos, o) < s.utxos.len() {
            Ok(utxo_pos(s.utxos, o))
        } else {
            Err(ErrorModel::UtxoNotFound { txid: o.txid, vout: o.vout })
        },
    }
}

/// Whether the output that a command is about may take a transition.
pub open spec fn target_transition(s: LedgerModel, key: Seq<char>, target: OnchainState) -> Result<
    (),
    ErrorModel,
> {
    match utxo_target(s, key) {
        Err(e) => Err(e),
        Ok(i) => transition_checked(s.utxos[i as int].state, target),
    }
}

/// Whether a command is valid in a state.
pub open spec fn validated(s: LedgerModel, c: CommandModel, p: PayloadModel) -> Result<
    (),
    ErrorModel,
> {
    match c.command_type {
        LedgerCommandType::CreditInternalBalance => credit_validated(s, c),
        LedgerCommandType::DebitInternalBalance => existing_validated(s, c),
        LedgerCommandType::ReserveBalance => existing_validated(s, c),
        LedgerCommandType::ReleaseReservation => release_validated(s, c),
        LedgerCommandType::DetectUtxo => match outpoint_parsed(c.partition_key) {
            Err(e) => Err(e),
            Ok(_) => match p.detect_utxo {
                Err(m) => Err(ErrorModel::InvalidUtxoData("invalid DetectUtxo payload: "@ + m)),
                Ok(d) => if d.value_sats == 0 {
                    Err(ErrorModel::InvalidUtxoData("DetectUtxo value_sats must be > 0"@))
                } else if d.address.len() == 0 {
                    Err(ErrorModel::InvalidUtxoData("DetectUtxo address must not be empty"@))
                } else {
                    Ok(())
                },
            },
        },
        LedgerCommandType::ConfirmUtxo => match outpoint_parsed(c.partition_key) {
            Err(e) => Err(e),
            Ok(_) => if parse_unsigned(c.authorization_commitment, u64::MAX as nat) is None {
                Err(
                    ErrorModel::InvalidUtxoData(
                        "ConfirmUtxo authorization_commitment must be a valid block height"@,
                    ),
                )
            } else {
                target_transition(s, c.partition_key, OnchainState::Confirming)
            },
        },
        LedgerCommandType::MarkUtxoSpendable => target_transition(
            s,
            c.partition_key,
            OnchainState::Spendable,
        ),
        LedgerCommandType::ReserveUtxo => match outpoint_parsed(c.partition_key) {
            Err(e) => Err(e),
            Ok(_) => if c.authorization_commitment.len() == 0 {
                Err(
                    ErrorModel::InvalidUtxoData(
                        "ReserveUtxo authorization_commitment must specify reserved_by"@,
                    ),
                )
            } else {
                match utxo_target(s, c.partition_key) {
                    Err(e) => Err(e),
                    Ok(i) => {
                        let u = s.utxos[i as int];
                        if !state_spendable(u.state) {
                            Err(
                                ErrorModel::InvalidUtxoTransition { from: u.state, to: u.state },
                            )
                        } else {
                            match u.reserved_by {
                                Some(holder) => Err(
                                    ErrorModel::UtxoAlreadyReserved { reserved_by: holder },
                                ),
                                None => Ok(()),
                            }
                        }
                    },
                }
            },
        },
        LedgerCommandType::ReleaseUtxo => match utxo_target(s, c.partition_key) {
            Err(e) => Err(e),
            Ok(i) => if s.utxos[i as int].reserved_by is None {
                Err(ErrorModel::UtxoNotReserved)
            } else {
                Ok(())
            },
        },
        LedgerCommandType::MarkUtxoSpent => target_transition(
            s,
            c.partition_key,
            OnchainState::Spent,
        ),
        LedgerCommandType::ApplyChainReorganization => match p.reorg {
            Err(m) => Err(ErrorModel::InvalidUtxoData("invalid ReorgPayload: "@ + m)),
            Ok(_) => Ok(()),
        },
        _ => Ok(()),
    }
}

/// What a command does to the state before the version is counted: the state
/// afterwards, and what was touched or what went wrong.
pub type Effect = (LedgerModel, Result<Seq<Seq<char>>, ErrorModel>);

/// The effect of an operation on one account, which is created if needed. One
/// that fails has none.
pub open spec fn account_effect(
    s: LedgerModel,
    id: Seq<char>,
    after: (AccountModel, Result<(), ErrorModel>),
) -> Effect {
    match after.1 {
        Ok(_) => (
            LedgerModel { accounts: account_set(s.accounts, id, after.0), ..s },
            Ok(seq![id]),
        ),
        Err(e) => (s, Err(e)),
    }
}

/// The amount of a credit: none unless a version is expected.
pub open spec fn credit_amount(c: CommandModel) -> u64 {
    if c.expected_version is Some {
        amount_of(c.authorization_commitment)
    } else {
        0
    }
}

/// The effect of a transfer: a debit of the source, then a credit of the
/// destination. Either both take effect or none.
pub open spec fn transfer_effect(
    s: LedgerModel,
    source: Seq<char>,
    dest: Seq<char>,
    amount: u64,
) -> Effect {
    let first = account_effect(s, source, debit(account_or_new(s.accounts, source), amount));
    match first.1 {
        Err(_) => first,
        Ok(_) => {
            let t = first.0;
            let second = account_effect(t, dest, credit(account_or_new(t.accounts, dest), amount));
            match second.1 {
                Err(e) => (s, Err(e)),
                Ok(_) => (second.0, Ok(seq![source, dest])),
            }
        },
    }
}

/// The effect of changing the output that a command is about.
pub open spec fn utxo_effect(s: LedgerModel, i: int, u: UtxoModel) -> Effect {
    (LedgerModel { utxos: s.utxos.update(i, u), ..s }, Ok(seq!["utxo"@]))
}

/// An output detected again after it was reorged.
pub open spec fn redetected(u: UtxoModel, bucket: u64) -> UtxoModel {
    UtxoModel { state: OnchainState::Seen, detected_at_bucket: bucket, ..u }
}

/// An output that entered a block.
pub open spec fn confirmed(u: UtxoModel, height: u64, bucket: u64) -> UtxoModel {
    UtxoModel {
        state: OnchainState::Confirming,
        block_height: Some(height),
        confirmed_at_bucket: Some(bucket),
        ..u
    }
}

/// An output that was spent: no longer reserved.
pub open spec fn spent(u: UtxoModel, bucket: u64, by: Option<Seq<char>>) -> UtxoModel {
    UtxoModel {
        reserved_by: None,
        reserved_at_bucket: None,
        state: OnchainState::Spent,
        spent_at_bucket: Some(bucket),
        spent_by_txid: by,
        ..u
    }
}

/// The list without every occurrence of an item.
pub open spec fn without(s: Seq<Seq<char>>, x: Seq<char>) -> Seq<Seq<char>>
    decreases s.len(),
{
    if s.len() == 0 {
        Seq::empty()
    } else if s.last() == x {
        without(s.drop_last(), x)
    } else {
        without(s.drop_last(), x).push(s.last())
    }
}

/// The list with an item, at the end if it was not there.
pub open spec fn including(s: Seq<Seq<char>>, x: Seq<char>) -> Seq<Seq<char>> {
    if s.contains(x) {
        s
    } else {
        s.push(x)
    }
}

/// The effect of a valid command.
pub open spec fn effect(s: LedgerModel, c: CommandModel, p: PayloadModel) -> Effect {
    let key = c.partition_key;
    let a = account_or_new(s.accounts, key);
    let amount = amount_of(c.authorization_commitment);
    let i = utxo_target(s, key)->Ok_0 as int;
    let u = s.utxos[i];
    match c.command_type {
        LedgerCommandType::CreditInternalBalance => account_effect(
            s,
            key,
            credit(a, credit_amount(c)),
        ),
        LedgerCommandType::DebitInternalBalance => account_effect(s, key, debit(a, amount)),
        LedgerCommandType::ReserveBalance => account_effect(s, key, reserve(a, amount)),
        LedgerCommandType::ReleaseReservation => account_effect(s, key, release(a, amount)),
        LedgerCommandType::CommitInternalTransfer => match split_once(key, '|') {
            None => (
                s,
                Err(
                    ErrorModel::AtomicTransferFailed(
                        "CommitInternalTransfer: partition_key must be \'source|dest\'"@,
                    ),
                ),
            ),
            Some((source, dest)) => transfer_effect(s, source, dest, amount),
        },
        LedgerCommandType::DetectUtxo => {
            let o = outpoint_parsed(key)->Ok_0;
            let d = p.detect_utxo->Ok_0;
            let k = utxo_pos(s.utxos, o) as int;
            if k < s.utxos.len() {
                if s.utxos[k].state == OnchainState::Reorged {
                    utxo_effect(s, k, redetected(s.utxos[k], c.created_at_bucket))
                } else {
                    (s, Ok(seq!["utxo"@]))
                }
            } else {
                (
                    LedgerModel {
                        utxos: s.utxos.push(
                            seen_utxo(o, d.value_sats, d.address, c.created_at_bucket),
                        ),
                        ..s
                    },
                    Ok(seq!["utxo"@]),
                )
            }
        },
        LedgerCommandType::ConfirmUtxo => utxo_effect(
            s,
            i,
            confirmed(u, amount, c.created_at_bucket),
        ),
        LedgerCommandType::MarkUtxoSpendable => utxo_effect(
            s,
            i,
            UtxoModel { state: OnchainState::Spendable, ..u },
        ),
        LedgerCommandType::ReserveUtxo => utxo_effect(
            s,
            i,
            UtxoModel {
                reserved_by: Some(c.authorization_commitment),
                reserved_at_bucket: Some(c.created_at_bucket),
                ..u
            },
        ),
        LedgerCommandType::ReleaseUtxo => utxo_effect(
            s,
            i,
            UtxoModel { reserved_by: None, reserved_at_bucket: None, ..u },
        ),
        LedgerCommandType::MarkUtxoSpent => utxo_effect(
            s,
            i,
            spent(
                u,
                c.created_at_bucket,
                if c.authorization_commitment.len() == 0 {
                    None
                } else {
                    Some(c.authorization_commitment)
                },
            ),
        ),
        LedgerCommandType::ApplyChainReorganization => {
            let r = p.reorg->Ok_0;
            (
                LedgerModel {
                    utxos: with_new(
                        all_reorged(s.utxos, r.disconnected_txids),
                        r.new_utxos,
                        Some(c.created_at_bucket),
                    ).0,
                    ..s
                },
                Ok(seq!["utxo"@]),
            )
        },
        LedgerCommandType::PrepareWithdrawal
        | LedgerCommandType::AuthorizeWithdrawal
        | LedgerCommandType::BroadcastWithdrawal
        | LedgerCommandType::ConfirmWithdrawal
        | LedgerCommandType::FailWithdrawal => (s, Ok(seq![key])),
        LedgerCommandType::ConsumeIntent | LedgerCommandType::ExpireIntent => (
            LedgerModel { consumed_intents: including(s.consumed_intents, key), ..s },
            Ok(seq![key]),
        ),
        LedgerCommandType::AddObserverNode => (
            LedgerModel {
                membership: MembershipModel {
                    nodes: including(s.membership.nodes, key),
                    ..s.membership
                },
                ..s
            },
            Ok(seq!["membership"@]),
        ),
        LedgerCommandType::PromoteVotingNode => (s, Ok(seq!["membership"@])),
        LedgerCommandType::RemoveNode => (
            LedgerModel {
                membership: MembershipModel {
                    nodes: without(s.membership.nodes, key),
                    ..s.membership
                },
                ..s
            },
            Ok(seq!["membership"@]),
        ),
        LedgerCommandType::InstallSnapshot => (s, Ok(seq!["snapshot"@])),
    }
}

/// Commands other than transfers and operations on a single account leave the
/// accounts and the version alone.
pub proof fn lemma_other_commands_keep_accounts(s: LedgerModel, c: CommandModel, p: PayloadModel)
    requires
        !(c.command_type is CreditInternalBalance),
        !(c.command_type is DebitInternalBalance),
        !(c.command_type is ReserveBalance),
        !(c.command_type is ReleaseReservation),
        !(c.command_type is CommitInternalTransfer),
    ensures
        effect(s, c, p).0.accounts == s.accounts,
        effect(s, c, p).0.version == s.version,
{
}

/// A transition: the state afterwards, and the receipt or the error.
///
/// A command that is refused changes nothing.
pub open spec fn transition(s: LedgerModel, c: CommandModel, p: PayloadModel) -> (
    LedgerModel,
    Result<TransitionModel, ErrorModel>,
) {
    match validated(s, c, p) {
        Err(e) => (s, Err(e)),
        Ok(_) => {
            let (after, r) = effect(s, c, p);
            match r {
                Err(e) => (s, Err(e)),
                Ok(touched) => {
                    let next = LedgerModel { version: (s.version + 1) as u64, ..after };
                    (
                        next,
                        Ok(
                            TransitionModel {
                                sequence: s.version,
                                command_hash: c.payload_hash,
                                previous_state_root: state_root(s),
                                resulting_state_root: state_root(next),
                                affected_accounts: touched,
                            },
                        ),
                    )
                },
            }
        },
    }
}

/// Whether an operation on an account keeps its version in range.
pub open spec fn account_fits(
    a: AccountModel,
    after: (AccountModel, Result<(), ErrorModel>),
) -> bool {
    after.1 is Ok ==> a.version < u64::MAX
}

/// Whether a transition keeps every version counter in range.
pub open spec fn counters_fit(s: LedgerModel, c: CommandModel, p: PayloadModel) -> bool {
    let key = c.partition_key;
    let a = account_or_new(s.accounts, key);
    let amount = amount_of(c.authorization_commitment);
    validated(s, c, p) is Ok ==> {
        &&& effect(s, c, p).1 is Ok ==> s.version < u64::MAX
        &&& match c.command_type {
            LedgerCommandType::CreditInternalBalance => account_fits(
                a,
                credit(a, credit_amount(c)),
            ),
            LedgerCommandType::DebitInternalBalance => account_fits(a, debit(a, amount)),
            LedgerCommandType::ReserveBalance => account_fits(a, reserve(a, amount)),
            LedgerCommandType::ReleaseReservation => account_fits(a, release(a, amount)),
            LedgerCommandType::CommitInternalTransfer => match split_once(key, '|') {
                None => true,
                Some((source, dest)) => {
                    let x = account_or_new(s.accounts, source);
                    let t = account_effect(s, source, debit(x, amount)).0;
                    let y = account_or_new(t.accounts, dest);
                    &&& account_fits(x, debit(x, amount))
                    &&& debit(x, amount).1 is Ok ==> account_fits(y, credit(y, amount))
                },
            },
            _ => true,
        }
    }
}

/// A deterministic state machine: the same state and command give the same
/// next state and receipt, whatever clock, order or machine.
pub trait DeterministicStateMachine {
    /// The verdict on a command in a state.
    spec fn verdict(&self, s: LedgerModel, c: CommandModel, p: PayloadModel) -> Result<
        (),
        ErrorModel,
    >;

    /// The state and receipt after a command.
    spec fn next(&self, s: LedgerModel, c: CommandModel, p: PayloadModel) -> (
        LedgerModel,
        Result<TransitionModel, ErrorModel>,
    );

    /// On which commands the machine is defined.
    spec fn defined(&self, s: LedgerModel, c: CommandModel, p: PayloadModel) -> bool;

    /// Validates a command without changing the state.
    fn validate(&self, state: &LedgerState, command: &LedgerCommand, payload: &DecodedPayload) -> (r:
        Result<(), LedgerError>)
        ensures
            outcome(r) == self.verdict(state@, command@, payload@),
    ;

    /// Validates a command and applies it.
    fn apply(
        &self,
        state: &mut LedgerState,
        command: &LedgerCommand,
        payload: &DecodedPayload,
    ) -> (r: Result<StateTransitionReceipt, LedgerError>)
        requires
            self.defined(old(state)@, command@, payload@),
        ensures
            (final(state)@, transition_outcome(r)) == self.next(old(state)@, command@, payload@),
    ;
}

/// The ledger's state machine.
#[derive(Clone, Copy)]
pub struct StateMachine;

/// Reads the amount of a command; zero if it carries none.
fn read_amount(text: &str) -> (r: u64)
    ensures
        r == amount_of(text@),
{
    match parse_u64(text) {
        Ok(v) => v,
        Err(_) => 0,
    }
}

/// A list of one string.
fn one(s: &str) -> (r: Vec<String>)
    ensures
        texts(r@) == seq![s@],
{
    let mut v: Vec<String> = Vec::new();
    v.push(s.to_owned());
    assert(texts(v@) =~= seq![s@]);
    v
}

/// The list without every occurrence of a string.
fn remove_text(v: &Vec<String>, x: &str) -> (r: Vec<String>)
    ensures
        texts(r@) == without(texts(v@), x@),
{
    let ghost all = texts(v@);
    let mut r: Vec<String> = Vec::new();
    let mut i: usize = 0;
    assert(texts(r@) =~= without(all.take(0), x@));
    while i < v.len()
        invariant
            i <= v@.len(),
            all == texts(v@),
            texts(r@) == without(all.take(i as int), x@),
        decreases v.len() - i,
    {
        proof {
            assert(all.take(i + 1).drop_last() =~= all.take(i as int));
            assert(all.take(i + 1).last() == v@[i as int]@);
        }
        if !str_eq(v[i].as_str(), x) {
            let ghost before = r@;
            r.push(v[i].clone());
            assert(texts(r@) =~= texts(before).push(v@[i as int]@));
        }
        i += 1;
    }
    assert(all.take(i as int) =~= all);
    r
}

/// Adds a string to a list, unless it is there.
fn include_text(v: &mut Vec<String>, x: &String)
    ensures
        texts(final(v)@) == including(texts(old(v)@), x@),
{
    if !contains_text(v, x.as_str()) {
        let ghost before = v@;
        v.push(x.clone());
        assert(texts(v@) =~= texts(before).push(x@));
    }
}

impl StateMachine {
    /// Validates a credit.
    pub fn validate_credit(state: &LedgerState, cmd: &LedgerCommand) -> (r: Result<(), LedgerError>)
        ensures
            outcome(r) == credit_validated(state@, cmd@),
    {
        match cmd.expected_version {
            Some(expected) => match state.find_account(cmd.partition_key.as_str()) {
                Some(account) => account.check_version(expected),
                None => {
                    if expected != 0 {
                        return Err(
                            LedgerError::VersionConflict {
                                account: cmd.partition_key.clone(),
                                expected,
                                current: 0,
                            },
                        );
                    }
                    Ok(())
                },
            },
            None => Ok(()),
        }
    }

    /// Checks that the account of a command exists at the expected version.
    fn validate_existing(state: &LedgerState, cmd: &LedgerCommand) -> (r: Result<(), LedgerError>)
        ensures
            outcome(r) == existing_validated(state@, cmd@),
    {
        match state.find_account(cmd.partition_key.as_str()) {
            Some(account) => match cmd.expected_version {
                Some(expected) => account.check_version(expected),
                None => Ok(()),
            },
            None => Err(
                LedgerError::VersionConflict {
                    account: cmd.partition_key.clone(),
                    expected: cmd.expected_version.unwrap_or(0),
                    current: 0,
                },
            ),
        }
    }

    /// Validates a debit.
    pub fn validate_debit(state: &LedgerState, cmd: &LedgerCommand) -> (r: Result<(), LedgerError>)
        ensures
            outcome(r) == existing_validated(state@, cmd@),
    {
        Self::validate_existing(state, cmd)
    }

    /// Validates a reservation of funds.
    pub fn validate_reserve(state: &LedgerState, cmd: &LedgerCommand) -> (r: Result<(), LedgerError>)
        ensures
            outcome(r) == existing_validated(state@, cmd@),
    {
        Self::validate_existing(state, cmd)
    }

    /// Validates a release of reserved funds.
    pub fn validate_release_reservation(state: &LedgerState, cmd: &LedgerCommand) -> (r: Result<
        (),
        LedgerError,
    >)
        ensures
            outcome(r) == release_validated(state@, cmd@),
    {
        match cmd.expected_version {
            Some(_) => Self::validate_existing(state, cmd),
            None => Ok(()),
        }
    }

    /// Validates a transfer. Its accounts are checked when it is applied.
    pub fn validate_transfer(_state: &LedgerState, _cmd: &LedgerCommand) -> (r: Result<
        (),
        LedgerError,
    >)
        ensures
            r is Ok,
    {
        Ok(())
    }

    /// The position of the output that a key names.
    fn find_target(state: &LedgerState, key: &str) -> (r: Result<usize, LedgerError>)
        ensures
            match r {
                Ok(i) => utxo_target(state@, key@) == Ok::<nat, ErrorModel>(i as nat) && i
                    < state.utxos@.len(),
                Err(e) => utxo_target(state@, key@) == Err::<nat, ErrorModel>(e@),
            },
    {
        match OutPoint::from_canonical_string(key) {
            Err(e) => Err(e),
            Ok(outpoint) => {
                let i: usize = state.utxo_index(&outpoint);
                if i < state.utxos.len() {
                    Ok(i)
                } else {
                    Err(LedgerError::UtxoNotFound { txid: outpoint.txid, vout: outpoint.vout })
                }
            },
        }
    }

    /// Checks a transition of the output that a key names.
    fn check_target(state: &LedgerState, key: &str, target: OnchainState) -> (r: Result<
        (),
        LedgerError,
    >)
        ensures
            outcome(r) == target_transition(state@, key@, target),
    {
        match Self::find_target(state, key) {
            Err(e) => Err(e),
            Ok(i) => UtxoTransitionGate::validate_transition(state.utxos[i].state, target),
        }
    }

    /// Validates the detection of an output.
    fn validate_detect(cmd: &LedgerCommand, payload: &DecodedPayload) -> (r: Result<
        (),
        LedgerError,
    >)
        requires
            cmd.command_type == LedgerCommandType::DetectUtxo,
        ensures
            forall|s: LedgerModel| outcome(r) == #[trigger] validated(s, cmd@, payload@),
    {
        match OutPoint::from_canonical_string(cmd.partition_key.as_str()) {
            Err(e) => {
                return Err(e);
            },
            Ok(_) => {},
        }
        match &payload.detect_utxo {
            Err(m) => {
                let mut text = "invalid DetectUtxo payload: ".to_owned();
                text.append(m.as_str());
                Err(LedgerError::InvalidUtxoData(text))
            },
            Ok(d) => {
                if d.value_sats == 0 {
                    return Err(
                        LedgerError::InvalidUtxoData(
                            "DetectUtxo value_sats must be > 0".to_owned(),
                        ),
                    );
                }
                if d.address.as_str().is_empty() {
                    return Err(
                        LedgerError::InvalidUtxoData(
                            "DetectUtxo address must not be empty".to_owned(),
                        ),
                    );
                }
                Ok(())
            },
        }
    }

    /// Validates the confirmation of an output.
    fn validate_confirm(state: &LedgerState, cmd: &LedgerCommand) -> (r: Result<(), LedgerError>)
        requires
            cmd.command_type == LedgerCommandType::ConfirmUtxo,
        ensures
            forall|p: PayloadModel| outcome(r) == #[trigger] validated(state@, cmd@, p),
    {
        match OutPoint::from_canonical_string(cmd.partition_key.as_str()) {
            Err(e) => {
                return Err(e);
            },
            Ok(_) => {},
        }
        match parse_u64(cmd.authorization_commitment.as_str()) {
            Err(_) => Err(
                LedgerError::InvalidUtxoData(
                    "ConfirmUtxo authorization_commitment must be a valid block height".to_owned(),
                ),
            ),
            Ok(_) => Self::check_target(
                state,
                cmd.partition_key.as_str(),
                OnchainState::Confirming,
            ),
        }
    }

    /// Validates the reservation of an output.
    fn validate_reserve_utxo(state: &LedgerState, cmd: &LedgerCommand) -> (r: Result<
        (),
        LedgerError,
    >)
        requires
            cmd.command_type == LedgerCommandType::ReserveUtxo,
        ensures
            forall|p: PayloadModel| outcome(r) == #[trigger] validated(state@, cmd@, p),
    {
        match OutPoint::from_canonical_string(cmd.partition_key.as_str()) {
            Err(e) => {
                return Err(e);
            },
            Ok(_) => {},
        }
        if cmd.authorization_commitment.as_str().is_empty() {
            return Err(
                LedgerError::InvalidUtxoData(
                    "ReserveUtxo authorization_commitment must specify reserved_by".to_owned(),
                ),
            );
        }
        match Self::find_target(state, cmd.partition_key.as_str()) {
            Err(e) => Err(e),
            Ok(i) => {
                let current = state.utxos[i].state;
                if !(current == OnchainState::Spendable || current
                    == OnchainState::FinalizedByPolicy) {
                    return Err(
                        LedgerError::InvalidUtxoTransition { from: current, to: current },
                    );
                }
                match &state.utxos[i].reserved_by {
                    Some(holder) => Err(
                        LedgerError::UtxoAlreadyReserved { reserved_by: holder.clone() },
                    ),
                    None => Ok(()),
                }
            },
        }
    }

    /// Validates the release of an output.
    fn validate_release_utxo(state: &LedgerState, cmd: &LedgerCommand) -> (r: Result<
        (),
        LedgerError,
    >)
        requires
            cmd.command_type == LedgerCommandType::ReleaseUtxo,
        ensures
            forall|p: PayloadModel| outcome(r) == #[trigger] validated(state@, cmd@, p),
    {
        match Self::find_target(state, cmd.partition_key.as_str()) {
            Err(e) => Err(e),
            Ok(i) => {
                if state.utxos[i].reserved_by.is_none() {
                    return Err(LedgerError::UtxoNotReserved);
                }
                Ok(())
            },
        }
    }
}

/// What was touched, or what went wrong, with texts as sequences.
pub open spec fn touched_outcome(r: Result<Vec<String>, LedgerError>) -> Result<
    Seq<Seq<char>>,
    ErrorModel,
> {
    match r {
        Ok(v) => Ok(texts(v@)),
        Err(e) => Err(e@),
    }
}

/// Whether a command is one of the four operations on a single account.
pub open spec fn is_account_command(t: LedgerCommandType) -> bool {
    t == LedgerCommandType::CreditInternalBalance || t == LedgerCommandType::DebitInternalBalance
        || t == LedgerCommandType::ReserveBalance || t == LedgerCommandType::ReleaseReservation
}

/// Whether a command changes the output that it is about.
pub open spec fn is_target_command(t: LedgerCommandType) -> bool {
    t == LedgerCommandType::ConfirmUtxo || t == LedgerCommandType::MarkUtxoSpendable || t
        == LedgerCommandType::ReserveUtxo || t == LedgerCommandType::ReleaseUtxo || t
        == LedgerCommandType::MarkUtxoSpent
}

impl StateMachine {
    /// Applies an operation on a single account.
    fn apply_account(state: &mut LedgerState, cmd: &LedgerCommand) -> (r: Result<
        Vec<String>,
        LedgerError,
    >)
        requires
            is_account_command(cmd.command_type),
            exists|p: PayloadModel|
                #![trigger counters_fit(old(state)@, cmd@, p)]
                counters_fit(old(state)@, cmd@, p) && validated(old(state)@, cmd@, p) is Ok,
        ensures
            forall|p: PayloadModel|
                (final(state)@, touched_outcome(r)) == #[trigger] effect(old(state)@, cmd@, p),
    {
        let amount: u64 = read_amount(cmd.authorization_commitment.as_str());
        let mut account = state.account_or_default(cmd.partition_key.as_str());
        let result = match cmd.command_type {
            LedgerCommandType::CreditInternalBalance => {
                let credited: u64 = if cmd.expected_version.is_some() {
                    amount
                } else {
                    0
                };
                account.apply_credit(credited)
            },
            LedgerCommandType::DebitInternalBalance => account.apply_debit(amount),
            LedgerCommandType::ReserveBalance => account.apply_reserve(amount),
            _ => account.apply_release_reservation(amount),
        };
        match result {
            Ok(_) => {
                let slot = state.get_or_create_account(cmd.partition_key.as_str());
                *slot = account;
                Ok(one(cmd.partition_key.as_str()))
            },
            Err(e) => Err(e),
        }
    }

    /// Applies a transfer.
    fn apply_transfer(state: &mut LedgerState, cmd: &LedgerCommand) -> (r: Result<
        Vec<String>,
        LedgerError,
    >)
        requires
            cmd.command_type == LedgerCommandType::CommitInternalTransfer,
            exists|p: PayloadModel|
                #![trigger counters_fit(old(state)@, cmd@, p)]
                counters_fit(old(state)@, cmd@, p) && validated(old(state)@, cmd@, p) is Ok,
        ensures
            forall|p: PayloadModel|
                (final(state)@, touched_outcome(r)) == #[trigger] effect(old(state)@, cmd@, p),
    {
        let amount: u64 = read_amount(cmd.authorization_commitment.as_str());
        match split_at_first(cmd.partition_key.as_str(), '|') {
            None => Err(
                LedgerError::AtomicTransferFailed(
                    "CommitInternalTransfer: partition_key must be 'source|dest'".to_owned(),
                ),
            ),
            Some((source_id, dest_id)) => {
                let ghost s = state@;
                let mut source = state.account_or_default(source_id);
                match source.apply_debit(amount) {
                    Ok(_) => {},
                    Err(e) => {
                        return Err(e);
                    },
                }
                let mut dest = if str_eq(source_id, dest_id) {
                    source.clone()
                } else {
                    state.account_or_default(dest_id)
                };
                proof {
                    lemma_account_pos(s.accounts, source_id@);
                    lemma_account_after_set(s.accounts, source_id@, source@, dest_id@);
                }
                match dest.apply_credit(amount) {
                    Ok(_) => {},
                    Err(e) => {
                        return Err(e);
                    },
                }
                let slot = state.get_or_create_account(source_id);
                *slot = source;
                let slot = state.get_or_create_account(dest_id);
                *slot = dest;
                let mut touched = one(source_id);
                let ghost first = touched@;
                touched.push(dest_id.to_owned());
                assert(texts(touched@) =~= seq![source_id@, dest_id@]) by {
                    assert(texts(first).len() == first.len());
                    assert(texts(first)[0] == source_id@);
                }
                Ok(touched)
            },
        }
    }

    /// Applies the detection of an output.
    fn apply_detect(state: &mut LedgerState, cmd: &LedgerCommand, payload: &DecodedPayload) -> (r:
        Result<Vec<String>, LedgerError>)
        requires
            cmd.command_type == LedgerCommandType::DetectUtxo,
            validated(old(state)@, cmd@, payload@) is Ok,
        ensures
            (final(state)@, touched_outcome(r)) == effect(old(state)@, cmd@, payload@),
    {
        let ghost before = state.utxos@;
        match OutPoint::from_canonical_string(cmd.partition_key.as_str()) {
            Err(e) => Err(e),
            Ok(outpoint) => match &payload.detect_utxo {
                Err(m) => Err(LedgerError::InvalidUtxoData(m.clone())),
                Ok(d) => {
                    let i: usize = state.utxo_index(&outpoint);
                    if i < state.utxos.len() {
                        if state.utxos[i].state == OnchainState::Reorged {
                            state.utxos[i].state = OnchainState::Seen;
                            state.utxos[i].detected_at_bucket = cmd.created_at_bucket;
                            assert(utxo_models(state.utxos@) =~= utxo_models(before).update(
                                i as int,
                                redetected(before[i as int]@, cmd.created_at_bucket),
                            ));
                        }
                    } else {
                        let utxo = UtxoEntry::new_seen(
                            outpoint,
                            d.value_sats,
                            d.address.as_str(),
                            cmd.created_at_bucket,
                        );
                        let ghost entry = utxo@;
                        state.utxos.push(utxo);
                        assert(utxo_models(state.utxos@) =~= utxo_models(before).push(entry));
                    }
                    Ok(one("utxo"))
                },
            },
        }
    }

    /// Applies a command to the output that it is about.
    fn apply_target(state: &mut LedgerState, cmd: &LedgerCommand) -> (r: Result<
        Vec<String>,
        LedgerError,
    >)
        requires
            is_target_command(cmd.command_type),
            exists|p: PayloadModel| #[trigger] validated(old(state)@, cmd@, p) is Ok,
        ensures
            forall|p: PayloadModel|
                (final(state)@, touched_outcome(r)) == #[trigger] effect(old(state)@, cmd@, p),
    {
        let ghost s = state@;
        let ghost before = state.utxos@;
        let i: usize = match Self::find_target(state, cmd.partition_key.as_str()) {
            Ok(i) => i,
            Err(e) => {
                return Err(e);
            },
        };
        let ghost u = before[i as int]@;
        let bucket: u64 = cmd.created_at_bucket;
        match cmd.command_type {
            LedgerCommandType::ConfirmUtxo => {
                let height: u64 = read_amount(cmd.authorization_commitment.as_str());
                state.utxos[i].state = OnchainState::Confirming;
                state.utxos[i].block_height = Some(height);
                state.utxos[i].confirmed_at_bucket = Some(bucket);
            },
            LedgerCommandType::MarkUtxoSpendable => {
                state.utxos[i].state = OnchainState::Spendable;
            },
            LedgerCommandType::ReserveUtxo => {
                state.utxos[i].reserved_by = Some(cmd.authorization_commitment.clone());
                state.utxos[i].reserved_at_bucket = Some(bucket);
            },
            LedgerCommandType::ReleaseUtxo => {
                state.utxos[i].reserved_by = None;
                state.utxos[i].reserved_at_bucket = None;
            },
            _ => {
                let spent_by = if cmd.authorization_commitment.as_str().is_empty() {
                    None
                } else {
                    Some(cmd.authorization_commitment.clone())
                };
                state.utxos[i].reserved_by = None;
                state.utxos[i].reserved_at_bucket = None;
                state.utxos[i].state = OnchainState::Spent;
                state.utxos[i].spent_at_bucket = Some(bucket);
                state.utxos[i].spent_by_txid = spent_by;
            },
        }
        let ghost after = state.utxos@[i as int]@;
        assert(utxo_models(state.utxos@) =~= utxo_models(before).update(i as int, after));
        Ok(one("utxo"))
    }

    /// Applies a chain reorganisation.
    fn apply_reorganization(
        state: &mut LedgerState,
        cmd: &LedgerCommand,
        payload: &DecodedPayload,
    ) -> (r: Result<Vec<String>, LedgerError>)
        requires
            cmd.command_type == LedgerCommandType::ApplyChainReorganization,
            validated(old(state)@, cmd@, payload@) is Ok,
        ensures
            (final(state)@, touched_outcome(r)) == effect(old(state)@, cmd@, payload@),
    {
        match &payload.reorg {
            Err(m) => Err(LedgerError::InvalidUtxoData(m.clone())),
            Ok(p) => match ReorgHandler::apply_reorg(
                &mut state.utxos,
                p.disconnected_txids.as_slice(),
                p.new_utxos.as_slice(),
                cmd.created_at_bucket,
            ) {
                Err(e) => Err(e),
                Ok(_) => Ok(one("utxo")),
            },
        }
    }

    /// Applies a command on intents, membership, withdrawals or snapshots.
    fn apply_other(state: &mut LedgerState, cmd: &LedgerCommand) -> (r: Vec<String>)
        requires
            !is_account_command(cmd.command_type),
            !is_target_command(cmd.command_type),
            cmd.command_type != LedgerCommandType::CommitInternalTransfer,
            cmd.command_type != LedgerCommandType::DetectUtxo,
            cmd.command_type != LedgerCommandType::ApplyChainReorganization,
        ensures
            forall|p: PayloadModel|
                (final(state)@, Ok::<Seq<Seq<char>>, ErrorModel>(texts(r@))) == #[trigger] effect(
                    old(state)@,
                    cmd@,
                    p,
                ),
    {
        match cmd.command_type {
            LedgerCommandType::ConsumeIntent | LedgerCommandType::ExpireIntent => {
                include_text(&mut state.consumed_intents, &cmd.partition_key);
                one(cmd.partition_key.as_str())
            },
            LedgerCommandType::AddObserverNode => {
                include_text(&mut state.membership.nodes, &cmd.partition_key);
                one("membership")
            },
            LedgerCommandType::PromoteVotingNode => one("membership"),
            LedgerCommandType::RemoveNode => {
                let kept = remove_text(&state.membership.nodes, cmd.partition_key.as_str());
                state.membership.nodes = kept;
                one("membership")
            },
            LedgerCommandType::InstallSnapshot => one("snapshot"),
            _ => one(cmd.partition_key.as_str()),
        }
    }
    /// Performs a valid command, before the version is counted.
    fn perform(state: &mut LedgerState, command: &LedgerCommand, payload: &DecodedPayload) -> (r:
        Result<Vec<String>, LedgerError>)
        requires
            validated(old(state)@, command@, payload@) is Ok,
            counters_fit(old(state)@, command@, payload@),
        ensures
            (final(state)@, touched_outcome(r)) == effect(old(state)@, command@, payload@),
    {
        match command.command_type {
            LedgerCommandType::CreditInternalBalance
            | LedgerCommandType::DebitInternalBalance
            | LedgerCommandType::ReserveBalance
            | LedgerCommandType::ReleaseReservation => Self::apply_account(state, command),
            LedgerCommandType::CommitInternalTransfer => Self::apply_transfer(state, command),
            LedgerCommandType::DetectUtxo => Self::apply_detect(state, command, payload),
            LedgerCommandType::ConfirmUtxo
            | LedgerCommandType::MarkUtxoSpendable
            | LedgerCommandType::ReserveUtxo
            | LedgerCommandType::ReleaseUtxo
            | LedgerCommandType::MarkUtxoSpent => Self::apply_target(state, command),
            LedgerCommandType::ApplyChainReorganization => Self::apply_reorganization(
                state,
                command,
                payload,
            ),
            _ => Ok(Self::apply_other(state, command)),
        }
    }
}

impl DeterministicStateMachine for StateMachine {
    open spec fn verdict(&self, s: LedgerModel, c: CommandModel, p: PayloadModel) -> Result<
        (),
        ErrorModel,
    > {
        validated(s, c, p)
    }

    open spec fn next(&self, s: LedgerModel, c: CommandModel, p: PayloadModel) -> (
        LedgerModel,
        Result<TransitionModel, ErrorModel>,
    ) {
        transition(s, c, p)
    }

    open spec fn defined(&self, s: LedgerModel, c: CommandModel, p: PayloadModel) -> bool {
        counters_fit(s, c, p)
    }

    fn validate(&self, state: &LedgerState, command: &LedgerCommand, payload: &DecodedPayload) -> (r:
        Result<(), LedgerError>) {
        match command.command_type {
            LedgerCommandType::CreditInternalBalance => Self::validate_credit(state, command),
            LedgerCommandType::DebitInternalBalance => Self::validate_debit(state, command),
            LedgerCommandType::ReserveBalance => Self::validate_reserve(state, command),
            LedgerCommandType::ReleaseReservation => Self::validate_release_reservation(
                state,
                command,
            ),
            LedgerCommandType::CommitInternalTransfer => Self::validate_transfer(state, command),
            LedgerCommandType::DetectUtxo => Self::validate_detect(command, payload),
            LedgerCommandType::ConfirmUtxo => Self::validate_confirm(state, command),
            LedgerCommandType::MarkUtxoSpendable => Self::check_target(
                state,
                command.partition_key.as_str(),
                OnchainState::Spendable,
            ),
            LedgerCommandType::ReserveUtxo => Self::validate_reserve_utxo(state, command),
            LedgerCommandType::ReleaseUtxo => Self::validate_release_utxo(state, command),
            LedgerCommandType::MarkUtxoSpent => Self::check_target(
                state,
                command.partition_key.as_str(),
                OnchainState::Spent,
            ),
            LedgerCommandType::ApplyChainReorganization => match &payload.reorg {
                Err(m) => {
                    let mut text = "invalid ReorgPayload: ".to_owned();
                    text.append(m.as_str());
                    Err(LedgerError::InvalidUtxoData(text))
                },
                Ok(_) => Ok(()),
            },
            _ => Ok(()),
        }
    }

    fn apply(
        &self,
        state: &mut LedgerState,
        command: &LedgerCommand,
        payload: &DecodedPayload,
    ) -> (r: Result<StateTransitionReceipt, LedgerError>) {
        match self.validate(state, command, payload) {
            Err(e) => {
                return Err(e);
            },
            Ok(_) => {},
        }
        let previous_state_root = compute_state_root(state);
        let sequence: u64 = state.version;
        let touched = Self::perform(state, command, payload);
        match touched {
            Err(e) => Err(e),
            Ok(affected_accounts) => {
                state.version = state.version + 1;
                let resulting_state_root = compute_state_root(state);
                Ok(
                    StateTransitionReceipt {
                        sequence,
                        command_hash: command.payload_hash.clone(),
                        previous_state_root,
                        resulting_state_root,
                        affected_accounts,
                    },
                )
            },
        }
    }
}

/// The amount of a command is the number that its text spells, and zero where
/// it spells none.
pub proof fn lemma_amounts_are_spelled(n: u64, text: Seq<char>)
    ensures
        amount_of(decimal(n as nat)) == n,
        parse_unsigned(text, u64::MAX as nat) is None ==> amount_of(text) == 0,
        parse_unsigned(text, u64::MAX as nat) is Some ==> amount_of(text) == parse_unsigned(
            text,
            u64::MAX as nat,
        )->0,
{
    lemma_parse_decimal(n as nat, u64::MAX as nat);
}

} // verus!
