//! Transactions and their validation.

use crate::cometbft_adapter::error::{code_number, Code};
use crate::codec::{lemma_same_split, lemma_u64_bytes, lemma_utf8_injective, put_text, put_u64,
    put_u8, u64_bytes, utf8};
use crate::digest::{ed25519_accepts_key, ed25519_key_accepted, ed25519_signature_valid,
    ed25519_verify, hex_bytes, hex_decode, is_hex, sha256, sha256_digest, to_array_32, to_array_64};
use crate::table::Table;
use crate::text::{decimal, str_eq, u64_text};
use vstd::prelude::*;

verus! {

/// A transaction as it travels.
///
/// The network identifier keeps it from being replayed on another network, the
/// sequence number from being replayed on this one. The signature covers
/// every other field.
#[derive(Debug)]
pub struct Transaction {
    /// What to do: `set` or `delete`.
    pub command: String,
    /// The key to change.
    pub key: String,
    /// The value to set.
    pub value: String,
    /// The network that the transaction is meant for.
    pub network_id: String,
    /// Grows with each transaction of a sender.
    pub sequence_number: u64,
    /// Public key of the sender in hexadecimal.
    pub public_key: String,
    /// Signature in hexadecimal.
    pub signature: String,
}

impl Clone for Transaction {
    fn clone(&self) -> (r: Self)
        ensures
            r == *self,
    {
        Transaction {
            command: self.command.clone(),
            key: self.key.clone(),
            value: self.value.clone(),
            network_id: self.network_id.clone(),
            sequence_number: self.sequence_number,
            public_key: self.public_key.clone(),
            signature: self.signature.clone(),
        }
    }
}

/// A transaction with its texts as sequences of characters.
pub struct TxModel {
    pub command: Seq<char>,
    pub key: Seq<char>,
    pub value: Seq<char>,
    pub network_id: Seq<char>,
    pub sequence_number: u64,
    pub public_key: Seq<char>,
    pub signature: Seq<char>,
}

impl View for Transaction {
    type V = TxModel;

    open spec fn view(&self) -> TxModel {
        TxModel {
            command: self.command@,
            key: self.key@,
            value: self.value@,
            network_id: self.network_id@,
            sequence_number: self.sequence_number,
            public_key: self.public_key@,
            signature: self.signature@,
        }
    }
}

/// The bytes under the digest that is signed: every field but the signature,
/// divided by zero bytes.
pub open spec fn signed_fields(t: TxModel) -> Seq<u8> {
    utf8(t.command) + seq![0u8] + utf8(t.key) + seq![0u8] + utf8(t.value) + seq![0u8] + utf8(
        t.network_id,
    ) + seq![0u8] + u64_bytes(t.sequence_number) + seq![0u8] + utf8(t.public_key)
}

/// The message that is signed.
pub open spec fn signed_message(t: TxModel) -> Seq<u8> {
    sha256_digest(signed_fields(t))
}

/// Why a transaction is refused.
#[derive(Debug)]
#[allow(inconsistent_fields)]
pub enum AppCheckTxError {
    InvalidTxFormat(String),
    InvalidSequence { sender: String, expected: u64, actual: u64 },
    InvalidPublicKey,
    InvalidSignature,
    UnauthorizedKey(String),
    NetworkMismatch { expected: String, actual: String },
    UnknownCommand(String),
}

/// A refusal with its texts as sequences of characters.
#[allow(inconsistent_fields)]
pub enum CheckErrorModel {
    InvalidTxFormat(Seq<char>),
    InvalidSequence { sender: Seq<char>, expected: u64, actual: u64 },
    InvalidPublicKey,
    InvalidSignature,
    UnauthorizedKey(Seq<char>),
    NetworkMismatch { expected: Seq<char>, actual: Seq<char> },
    UnknownCommand(Seq<char>),
}

impl View for AppCheckTxError {
    type V = CheckErrorModel;

    open spec fn view(&self) -> CheckErrorModel {
        match *self {
            AppCheckTxError::InvalidTxFormat(m) => CheckErrorModel::InvalidTxFormat(m@),
            AppCheckTxError::InvalidSequence { sender, expected, actual } => {
                CheckErrorModel::InvalidSequence { sender: sender@, expected, actual }
            },
            AppCheckTxError::InvalidPublicKey => CheckErrorModel::InvalidPublicKey,
            AppCheckTxError::InvalidSignature => CheckErrorModel::InvalidSignature,
            AppCheckTxError::UnauthorizedKey(k) => CheckErrorModel::UnauthorizedKey(k@),
            AppCheckTxError::NetworkMismatch { expected, actual } => {
                CheckErrorModel::NetworkMismatch { expected: expected@, actual: actual@ }
            },
            AppCheckTxError::UnknownCommand(c) => CheckErrorModel::UnknownCommand(c@),
        }
    }
}

/// What the engine is told of a transaction.
#[derive(Debug, PartialEq, Eq)]
pub struct TxResult {
    /// Zero if the transaction is accepted.
    pub code: u32,
    /// Why it is refused.
    pub log: String,
}

/// A result with its text as a sequence of characters.
pub struct TxResultModel {
    pub code: u32,
    pub log: Seq<char>,
}

impl View for TxResult {
    type V = TxResultModel;

    open spec fn view(&self) -> TxResultModel {
        TxResultModel { code: self.code, log: self.log@ }
    }
}

/// A result with a code and a message.
pub open spec fn told(code: Code, log: Seq<char>) -> TxResultModel {
    TxResultModel { code: code_number(code), log }
}

/// The result of success.
pub open spec fn accepted() -> TxResultModel {
    told(Code::Success, ""@)
}

/// Whether a result is success.
pub open spec fn is_accepted(r: TxResultModel) -> bool {
    r.code == 0
}

/// Makes a result.
pub(crate) fn tell(code: Code, log: String) -> (r: TxResult)
    ensures
        r@ == told(code, log@),
{
    TxResult { code: code.as_u32(), log }
}

impl TxResult {
    /// Whether the transaction is accepted.
    pub fn is_ok(&self) -> (r: bool)
        ensures
            r == is_accepted(self@),
    {
        self.code == 0
    }

    /// Whether the transaction is refused.
    pub fn is_err(&self) -> (r: bool)
        ensures
            r == !is_accepted(self@),
    {
        self.code != 0
    }
}

/// What the engine is told of a refusal.
pub open spec fn refusal(e: CheckErrorModel) -> TxResultModel {
    match e {
        CheckErrorModel::InvalidTxFormat(m) => told(Code::EncodingError, m),
        CheckErrorModel::InvalidSequence { sender, expected, actual } => told(
            Code::InvalidNonce,
            sender + ": expected seq > "@ + decimal(expected as nat) + ", got "@ + decimal(
                actual as nat,
            ),
        ),
        CheckErrorModel::InvalidPublicKey => told(Code::InvalidSignature, "invalid public key"@),
        CheckErrorModel::InvalidSignature => told(Code::InvalidSignature, "invalid signature"@),
        CheckErrorModel::UnauthorizedKey(k) => told(
            Code::UnauthorizedKey,
            "unauthorized key: "@ + k,
        ),
        CheckErrorModel::NetworkMismatch { expected, actual } => told(
            Code::NetworkMismatch,
            "network mismatch: expected \'"@ + expected + "\', got \'"@ + actual + "\'"@,
        ),
        CheckErrorModel::UnknownCommand(c) => told(Code::UnknownCommand, "unknown command: "@ + c),
    }
}

impl AppCheckTxError {
    /// What the engine is told of this refusal.
    pub fn result(&self) -> (r: TxResult)
        ensures
            r@ == refusal(self@),
    {
        match self {
            AppCheckTxError::InvalidTxFormat(m) => tell(Code::EncodingError, m.clone()),
            AppCheckTxError::InvalidSequence { sender, expected, actual } => {
                let mut m = sender.clone();
                m.append(": expected seq > ");
                m.append(u64_text(*expected).as_str());
                m.append(", got ");
                m.append(u64_text(*actual).as_str());
                tell(Code::InvalidNonce, m)
            },
            AppCheckTxError::InvalidPublicKey => tell(
                Code::InvalidSignature,
                "invalid public key".to_owned(),
            ),
            AppCheckTxError::InvalidSignature => tell(
                Code::InvalidSignature,
                "invalid signature".to_owned(),
            ),
            AppCheckTxError::UnauthorizedKey(k) => {
                let mut m = "unauthorized key: ".to_owned();
                m.append(k.as_str());
                tell(Code::UnauthorizedKey, m)
            },
            AppCheckTxError::NetworkMismatch { expected, actual } => {
                let mut m = "network mismatch: expected '".to_owned();
                m.append(expected.as_str());
                m.append("', got '");
                m.append(actual.as_str());
                m.append("'");
                tell(Code::NetworkMismatch, m)
            },
            AppCheckTxError::UnknownCommand(c) => {
                let mut m = "unknown command: ".to_owned();
                m.append(c.as_str());
                tell(Code::UnknownCommand, m)
            },
        }
    }
}

/// Whether a text is the hexadecimal form of an Ed25519 public key.
pub open spec fn is_public_key(s: Seq<char>) -> bool {
    is_hex(s) && hex_bytes(s).len() == 32 && ed25519_key_accepted(hex_bytes(s))
}

/// The verdict on the signature of a transaction.
pub open spec fn signature_checked(t: TxModel) -> Result<(), CheckErrorModel> {
    if !is_public_key(t.public_key) {
        Err(CheckErrorModel::InvalidPublicKey)
    } else if !(is_hex(t.signature) && hex_bytes(t.signature).len() == 64
        && ed25519_signature_valid(
        hex_bytes(t.public_key),
        signed_message(t),
        hex_bytes(t.signature),
    )) {
        Err(CheckErrorModel::InvalidSignature)
    } else {
        Ok(())
    }
}

impl Transaction {
    /// The message to sign: SHA-256 over every field but the signature, with
    /// zero bytes in between.
    pub fn signing_bytes(&self) -> (r: Vec<u8>)
        ensures
            r@ == signed_message(self@),
    {
        let mut buf: Vec<u8> = Vec::new();
        put_text(&mut buf, self.command.as_str());
        put_u8(&mut buf, 0);
        put_text(&mut buf, self.key.as_str());
        put_u8(&mut buf, 0);
        put_text(&mut buf, self.value.as_str());
        put_u8(&mut buf, 0);
        put_text(&mut buf, self.network_id.as_str());
        put_u8(&mut buf, 0);
        put_u64(&mut buf, self.sequence_number);
        put_u8(&mut buf, 0);
        put_text(&mut buf, self.public_key.as_str());
        assert(buf@ =~= signed_fields(self@));
        let digest = sha256(buf.as_slice());
        let mut r: Vec<u8> = Vec::new();
        crate::codec::put(&mut r, digest.as_slice());
        assert(r@ =~= digest@);
        r
    }

    /// Verifies the signature of this transaction.
    pub fn verify(&self) -> (r: Result<(), AppCheckTxError>)
        ensures
            match r {
                Ok(_) => signature_checked(self@) is Ok,
                Err(e) => signature_checked(self@) == Err::<(), CheckErrorModel>(e@),
            },
    {
        let public_bytes = match hex_decode(self.public_key.as_str()) {
            Some(b) => b,
            None => {
                return Err(AppCheckTxError::InvalidPublicKey);
            },
        };
        let key = match to_array_32(&public_bytes) {
            Some(k) => k,
            None => {
                return Err(AppCheckTxError::InvalidPublicKey);
            },
        };
        if !ed25519_accepts_key(&key) {
            return Err(AppCheckTxError::InvalidPublicKey);
        }
        let sig_bytes = match hex_decode(self.signature.as_str()) {
            Some(b) => b,
            None => {
                return Err(AppCheckTxError::InvalidSignature);
            },
        };
        let signature = match to_array_64(&sig_bytes) {
            Some(s) => s,
            None => {
                return Err(AppCheckTxError::InvalidSignature);
            },
        };
        let msg = self.signing_bytes();
        if ed25519_verify(&key, msg.as_slice(), &signature) {
            Ok(())
        } else {
            Err(AppCheckTxError::InvalidSignature)
        }
    }
}

/// The last sequence number of each sender.
pub struct SenderSequences {
    table: Table<u64>,
}

impl View for SenderSequences {
    type V = Map<Seq<char>, u64>;

    closed spec fn view(&self) -> Map<Seq<char>, u64> {
        self.table@
    }
}

/// The last sequence number of a sender; zero if there is none.
pub open spec fn last_of(m: Map<Seq<char>, u64>, sender: Seq<char>) -> u64 {
    if m.contains_key(sender) {
        m[sender]
    } else {
        0
    }
}

/// The sequence numbers of two records together: the higher one of each
/// sender.
pub open spec fn joined(a: Map<Seq<char>, u64>, b: Map<Seq<char>, u64>) -> Map<Seq<char>, u64> {
    Map::new(
        |k: Seq<char>| a.contains_key(k) || b.contains_key(k),
        |k: Seq<char>|
            if last_of(a, k) < last_of(b, k) {
                last_of(b, k)
            } else {
                last_of(a, k)
            },
    )
}

impl SenderSequences {
    /// Whether the record is consistent.
    pub closed spec fn valid(&self) -> bool {
        self.table.wf()
    }

    /// No sequence number yet.
    pub fn new() -> (r: Self)
        ensures
            r.valid(),
            r@ == Map::<Seq<char>, u64>::empty(),
    {
        SenderSequences { table: Table::new() }
    }

    /// The last sequence number of a sender.
    pub fn get(&self, sender: &str) -> (r: Option<u64>)
        requires
            self.valid(),
        ensures
            r == (if self@.contains_key(sender@) {
                Some(self@[sender@])
            } else {
                None
            }),
    {
        match self.table.get(sender) {
            Some(n) => Some(*n),
            None => None,
        }
    }

    /// Records the sequence number of a sender.
    pub fn record(&mut self, sender: &str, sequence: u64)
        requires
            old(self).valid(),
        ensures
            final(self).valid(),
            final(self)@ == old(self)@.insert(sender@, sequence),
    {
        self.table.insert(sender.to_owned(), sequence);
    }

    /// Raises every sequence number to that of another record.
    pub fn raise_to(&mut self, other: &SenderSequences)
        requires
            old(self).valid(),
            other.valid(),
        ensures
            final(self).valid(),
            final(self)@ == joined(old(self)@, other@),
    {
        let ghost start = self@;
        let ghost keys = other.table.ordered();
        proof {
            other.table.lemma_ordered();
            assert(joined(start, other@.restrict(keys.take(0).to_set())) =~= start);
        }
        let mut i: usize = 0;
        while i < other.table.len()
            invariant
                self.valid(),
                other.valid(),
                keys == other.table.ordered(),
                keys.len() == other@.len(),
                keys.to_set() == other@.dom(),
                i <= keys.len(),
                self@ == joined(start, other@.restrict(keys.take(i as int).to_set())),
            decreases keys.len() - i,
        {
            let key = other.table.key_at(i);
            let value: u64 = *other.table.value_at(i);
            let ghost done = other@.restrict(keys.take(i as int).to_set());
            let ghost next = other@.restrict(keys.take(i + 1).to_set());
            proof {
                assert(keys.take(i + 1) =~= keys.take(i as int).push(keys[i as int]));
                assert forall|x: Seq<char>| #[trigger]
                    keys.take(i + 1).contains(x) <==> keys.take(i as int).contains(x) || x
                    == keys[i as int] by {
                    if keys.take(i as int).contains(x) {
                        let j = choose|j: int| 0 <= j < i && keys.take(i as int)[j] == x;
                        assert(keys.take(i + 1)[j] == x);
                    }
                    assert(keys.take(i + 1)[i as int] == keys[i as int]);
                }
                assert(next =~= done.insert(keys[i as int], value));
            }
            let last: u64 = match self.get(key.as_str()) {
                Some(n) => n,
                None => 0,
            };
            let higher: u64 = if last < value {
                value
            } else {
                last
            };
            self.record(key.as_str(), higher);
            assert(self@ =~= joined(start, next));
            i += 1;
        }
        proof {
            assert(keys.take(i as int) =~= keys);
            assert(other@.restrict(keys.to_set()) =~= other@);
        }
    }

    /// Whether no sequence number is recorded.
    pub fn is_empty(&self) -> (r: bool)
        requires
            self.valid(),
        ensures
            r == (self@ == Map::<Seq<char>, u64>::empty()),
    {
        proof {
            lemma_empty_table(&self.table);
        }
        self.table.len() == 0
    }
}

proof fn lemma_empty_table<T>(t: &Table<T>)
    requires
        t.wf(),
    ensures
        t@.len() == 0 <==> t@ == Map::<Seq<char>, T>::empty(),
        t@.len() == 0 <==> t@.dom() == Set::<Seq<char>>::empty(),
{
    t.lemma_ordered();
    if t@.len() == 0 {
        assert(t@.dom() =~= Set::<Seq<char>>::empty());
        assert(t@ =~= Map::<Seq<char>, T>::empty());
    }
}

/// The keys whose transactions are accepted; all keys if there is none.
pub struct AuthorizedKeys {
    table: Table<()>,
}

impl View for AuthorizedKeys {
    type V = Set<Seq<char>>;

    closed spec fn view(&self) -> Set<Seq<char>> {
        self.table@.dom()
    }
}

/// Whether a set of keys admits a key.
pub open spec fn admits(keys: Set<Seq<char>>, key: Seq<char>) -> bool {
    keys == Set::<Seq<char>>::empty() || keys.contains(key)
}

impl AuthorizedKeys {
    /// Whether the set is consistent.
    pub closed spec fn valid(&self) -> bool {
        self.table.wf()
    }

    /// The set of the given keys.
    pub fn from_keys(keys: &Vec<String>) -> (r: Self)
        ensures
            r.valid(),
            r@ == crate::text::texts(keys@).to_set(),
    {
        let ghost all = crate::text::texts(keys@);
        let mut r = AuthorizedKeys { table: Table::new() };
        let mut i: usize = 0;
        assert(r@ =~= all.take(0).to_set());
        while i < keys.len()
            invariant
                i <= keys@.len(),
                all == crate::text::texts(keys@),
                r.valid(),
                r@ == all.take(i as int).to_set(),
            decreases keys.len() - i,
        {
            let ghost before = r@;
            r.table.insert(keys[i].clone(), ());
            proof {
                let head = all.take(i as int);
                let next = all.take(i + 1);
                assert(next =~= head.push(keys@[i as int]@));
                assert(r@ =~= before.insert(keys@[i as int]@));
                assert forall|k: Seq<char>| next.to_set().contains(k) <==> before.insert(
                    keys@[i as int]@,
                ).contains(k) by {
                    if head.contains(k) {
                        let j = choose|j: int| 0 <= j < head.len() && head[j] == k;
                        assert(next[j] == k);
                    }
                    assert(next[i as int] == keys@[i as int]@);
                    if next.contains(k) && k != keys@[i as int]@ {
                        let j = choose|j: int| 0 <= j < next.len() && next[j] == k;
                        assert(head[j] == k);
                    }
                }
                assert(next.to_set() =~= before.insert(keys@[i as int]@));
            }
            i += 1;
        }
        assert(all.take(i as int) =~= all);
        r
    }

    /// Whether a key is in the set.
    pub fn contains(&self, key: &str) -> (r: bool)
        requires
            self.valid(),
        ensures
            r == self@.contains(key@),
    {
        self.table.contains(key)
    }

    /// How many keys are in the set.
    pub fn len(&self) -> (r: usize)
        requires
            self.valid(),
        ensures
            r == self@.len(),
    {
        self.table.len()
    }

    /// Whether transactions of a key are accepted.
    pub fn admits(&self, key: &str) -> (r: bool)
        requires
            self.valid(),
        ensures
            r == admits(self@, key@),
    {
        proof {
            lemma_empty_table(&self.table);
        }
        self.table.len() == 0 || self.table.contains(key)
    }
}

/// A decoded transaction with its texts as sequences of characters.
pub open spec fn decoded_tx(r: Result<Transaction, String>) -> Result<TxModel, Seq<char>> {
    match r {
        Ok(t) => Ok(t@),
        Err(m) => Err(m@),
    }
}

/// The verdict on a transaction, given the network, the authorized keys and
/// the last sequence numbers.
pub open spec fn tx_checked(
    network_id: Seq<char>,
    keys: Set<Seq<char>>,
    sequences: Map<Seq<char>, u64>,
    decoded: Result<TxModel, Seq<char>>,
) -> Result<TxModel, CheckErrorModel> {
    match decoded {
        Err(m) => Err(CheckErrorModel::InvalidTxFormat("invalid transaction format: "@ + m)),
        Ok(t) => {
            let last = last_of(sequences, t.public_key);
            if t.network_id != network_id {
                Err(
                    CheckErrorModel::NetworkMismatch {
                        expected: network_id,
                        actual: t.network_id,
                    },
                )
            } else if t.command != "set"@ && t.command != "delete"@ {
                Err(CheckErrorModel::UnknownCommand(t.command))
            } else if !admits(keys, t.public_key) {
                Err(CheckErrorModel::UnauthorizedKey(t.public_key))
            } else if signature_checked(t) is Err {
                Err(signature_checked(t)->Err_0)
            } else if t.sequence_number <= last {
                Err(
                    CheckErrorModel::InvalidSequence {
                        sender: t.public_key,
                        expected: last,
                        actual: t.sequence_number,
                    },
                )
            } else {
                Ok(t)
            }
        },
    }
}

/// What the engine is told of a transaction.
pub open spec fn check_result(r: Result<TxModel, CheckErrorModel>) -> TxResultModel {
    match r {
        Ok(_) => accepted(),
        Err(e) => refusal(e),
    }
}

/// The sequence numbers after a transaction was checked: that of an accepted
/// one is recorded, so that it is not accepted again.
pub open spec fn sequences_after(
    sequences: Map<Seq<char>, u64>,
    r: Result<TxModel, CheckErrorModel>,
) -> Map<Seq<char>, u64> {
    match r {
        Ok(t) => sequences.insert(t.public_key, t.sequence_number),
        Err(_) => sequences,
    }
}

/// Validates a decoded transaction without recording anything.
fn validate(
    network_id: &str,
    sequences: &SenderSequences,
    authorized_keys: &AuthorizedKeys,
    tx: &Transaction,
) -> (r: Result<(), AppCheckTxError>)
    requires
        sequences.valid(),
        authorized_keys.valid(),
    ensures
        match r {
            Ok(_) => tx_checked(network_id@, authorized_keys@, sequences@, Ok(tx@)) is Ok,
            Err(e) => tx_checked(network_id@, authorized_keys@, sequences@, Ok(tx@)) == Err::<
                TxModel,
                CheckErrorModel,
            >(e@),
        },
{
    if !str_eq(tx.network_id.as_str(), network_id) {
        return Err(
            AppCheckTxError::NetworkMismatch {
                expected: network_id.to_owned(),
                actual: tx.network_id.clone(),
            },
        );
    }
    if !str_eq(tx.command.as_str(), "set") && !str_eq(tx.command.as_str(), "delete") {
        return Err(AppCheckTxError::UnknownCommand(tx.command.clone()));
    }
    if !authorized_keys.admits(tx.public_key.as_str()) {
        return Err(AppCheckTxError::UnauthorizedKey(tx.public_key.clone()));
    }
    match tx.verify() {
        Ok(_) => {},
        Err(e) => {
            return Err(e);
        },
    }
    let last_seq: u64 = match sequences.get(tx.public_key.as_str()) {
        Some(n) => n,
        None => 0,
    };
    if tx.sequence_number <= last_seq {
        return Err(
            AppCheckTxError::InvalidSequence {
                sender: tx.public_key.clone(),
                expected: last_seq,
                actual: tx.sequence_number,
            },
        );
    }
    Ok(())
}

/// Validates a transaction that was decoded: its network, its command, its
/// sender, its signature and its sequence number, which is recorded if the
/// transaction is accepted.
pub fn check_tx(
    network_id: &str,
    sequences: &mut SenderSequences,
    authorized_keys: &AuthorizedKeys,
    decoded: &Result<Transaction, String>,
) -> (r: TxResult)
    requires
        old(sequences).valid(),
        authorized_keys.valid(),
    ensures
        final(sequences).valid(),
        r@ == check_result(
            tx_checked(network_id@, authorized_keys@, old(sequences)@, decoded_tx(*decoded)),
        ),
        final(sequences)@ == sequences_after(
            old(sequences)@,
            tx_checked(network_id@, authorized_keys@, old(sequences)@, decoded_tx(*decoded)),
        ),
{
    match decoded {
        Err(m) => {
            let mut text = "invalid transaction format: ".to_owned();
            text.append(m.as_str());
            AppCheckTxError::InvalidTxFormat(text).result()
        },
        Ok(tx) => match validate(network_id, sequences, authorized_keys, tx) {
            Err(e) => e.result(),
            Ok(_) => {
                sequences.record(tx.public_key.as_str(), tx.sequence_number);
                tell(Code::Success, "".to_owned())
            },
        },
    }
}

/// A transaction is accepted once: right after it was accepted the same
/// sequence number of the same sender is refused, and so is every lower one.
pub proof fn lemma_transactions_are_not_replayed(
    network_id: Seq<char>,
    keys: Set<Seq<char>>,
    sequences: Map<Seq<char>, u64>,
    t: TxModel,
    again: TxModel,
)
    requires
        tx_checked(network_id, keys, sequences, Ok(t)) is Ok,
        again.public_key == t.public_key,
        again.sequence_number <= t.sequence_number,
    ensures
        tx_checked(
            network_id,
            keys,
            sequences_after(sequences, tx_checked(network_id, keys, sequences, Ok(t))),
            Ok(again),
        ) is Err,
{
}

/// The sequence number of a sender only grows, and no other sender is touched.
pub proof fn lemma_sequences_only_grow(
    network_id: Seq<char>,
    keys: Set<Seq<char>>,
    sequences: Map<Seq<char>, u64>,
    decoded: Result<TxModel, Seq<char>>,
    sender: Seq<char>,
)
    ensures
        ({
            let r = tx_checked(network_id, keys, sequences, decoded);
            let after = sequences_after(sequences, r);
            &&& last_of(after, sender) >= last_of(sequences, sender)
            &&& (r is Ok && r->Ok_0.public_key == sender) || last_of(after, sender) == last_of(
                sequences,
                sender,
            )
        }),
{
}

/// What is accepted is of this network, from an admitted key, signed, and a
/// command that is known.
pub proof fn lemma_accepted_transactions_are_sound(
    network_id: Seq<char>,
    keys: Set<Seq<char>>,
    sequences: Map<Seq<char>, u64>,
    decoded: Result<TxModel, Seq<char>>,
)
    requires
        is_accepted(check_result(tx_checked(network_id, keys, sequences, decoded))),
    ensures
        decoded is Ok,
        decoded->Ok_0.network_id == network_id,
        admits(keys, decoded->Ok_0.public_key),
        decoded->Ok_0.command == "set"@ || decoded->Ok_0.command == "delete"@,
        signature_checked(decoded->Ok_0) is Ok,
        decoded->Ok_0.sequence_number > last_of(sequences, decoded->Ok_0.public_key),
{
}

/// Whether a text holds no zero character.
pub open spec fn without_zero(s: Seq<char>) -> bool {
    !s.contains('\0')
}

proof fn lemma_scalar_bytes_nonzero(c: char, i: int)
    requires
        c != '\0',
        0 <= i < vstd::utf8::encode_scalar(c as u32).len(),
    ensures
        vstd::utf8::encode_scalar(c as u32)[i] != 0,
{
    let s = c as u32;
    assert(s != 0);
    if vstd::utf8::has_width_1_encoding(s) {
        assert(s <= 0x7f && s != 0 ==> (s & 0x7f) as u8 != 0) by (bit_vector);
    }
    assert(0xc0u8 | (((s >> 6) & 0x1f) as u8) != 0) by (bit_vector);
    assert(0xe0u8 | (((s >> 12) & 0xf) as u8) != 0) by (bit_vector);
    assert(0xf0u8 | (((s >> 18) & 0x7) as u8) != 0) by (bit_vector);
    assert(0x80u8 | ((s & 0x3f) as u8) != 0) by (bit_vector);
    assert(0x80u8 | (((s >> 6) & 0x3f) as u8) != 0) by (bit_vector);
    assert(0x80u8 | (((s >> 12) & 0x3f) as u8) != 0) by (bit_vector);
}

proof fn lemma_utf8_nonzero(s: Seq<char>, i: int)
    requires
        without_zero(s),
        0 <= i < utf8(s).len(),
    ensures
        utf8(s)[i] != 0,
    decreases s.len(),
{
    if s.len() > 0 {
        let first = vstd::utf8::encode_scalar(s[0] as u32);
        let rest = s.drop_first();
        assert(s.contains(s[0]));
        if i < first.len() {
            lemma_scalar_bytes_nonzero(s[0], i);
        } else {
            assert forall|c: char| rest.contains(c) implies s.contains(c) by {
                let j = choose|j: int| 0 <= j < rest.len() && rest[j] == c;
                assert(s[j + 1] == c);
            }
            lemma_utf8_nonzero(rest, i - first.len());
        }
    }
}

proof fn lemma_zero_divides(a: Seq<char>, x: Seq<u8>, b: Seq<char>, y: Seq<u8>)
    requires
        without_zero(a),
        without_zero(b),
        utf8(a) + (seq![0u8] + x) == utf8(b) + (seq![0u8] + y),
    ensures
        a == b,
        x == y,
{
    let s = utf8(a) + (seq![0u8] + x);
    let t = utf8(b) + (seq![0u8] + y);
    let m = utf8(a).len() as int;
    let n = utf8(b).len() as int;
    assert(s[m] == 0);
    assert(t[n] == 0);
    if m < n {
        assert(t[m] == utf8(b)[m]);
        lemma_utf8_nonzero(b, m);
    } else if n < m {
        assert(s[n] == utf8(a)[n]);
        lemma_utf8_nonzero(a, n);
    }
    lemma_same_split(utf8(a), seq![0u8] + x, utf8(b), seq![0u8] + y);
    lemma_same_split(seq![0u8], x, seq![0u8], y);
    lemma_utf8_injective(a, b);
}

proof fn lemma_regroup(x: Seq<u8>, y: Seq<u8>, z: Seq<u8>)
    ensures
        (x + y) + z == x + (y + z),
{
    assert((x + y) + z =~= x + (y + z));
}

proof fn lemma_signed_fields_nest(t: TxModel)
    ensures
        ({
            let zero = seq![0u8];
            let sender = zero + utf8(t.public_key);
            let number = u64_bytes(t.sequence_number) + sender;
            let network = utf8(t.network_id) + (zero + number);
            let value = utf8(t.value) + (zero + network);
            let key = utf8(t.key) + (zero + value);
            signed_fields(t) == utf8(t.command) + (zero + key)
        }),
{
    let zero = seq![0u8];
    let c = utf8(t.command);
    let k = utf8(t.key);
    let v = utf8(t.value);
    let n = utf8(t.network_id);
    let s = u64_bytes(t.sequence_number);
    let p = utf8(t.public_key);
    let c1 = c + zero + k;
    let c2 = c1 + zero + v;
    let c3 = c2 + zero + n;
    let c4 = c3 + zero + s;
    let sender = zero + p;
    let number = s + sender;
    let network = n + (zero + number);
    let value = v + (zero + network);
    lemma_regroup(c4, zero, p);
    lemma_regroup(c3 + zero, s, sender);
    lemma_regroup(c3, zero, number);
    lemma_regroup(c2 + zero, n, zero + number);
    lemma_regroup(c2, zero, network);
    lemma_regroup(c1 + zero, v, zero + network);
    lemma_regroup(c1, zero, value);
    lemma_regroup(c + zero, k, zero + value);
    lemma_regroup(c, zero, k + (zero + value));
}

/// The signed bytes bind every field: where two transactions without zero
/// characters have the same ones, they agree in command, key, value, network,
/// sequence number and sender. So a signature for one network or sequence
/// number is over other bytes than one for another.
pub proof fn lemma_signed_fields_bind_the_transaction(a: TxModel, b: TxModel)
    requires
        signed_fields(a) == signed_fields(b),
        without_zero(a.command) && without_zero(a.key) && without_zero(a.value) && without_zero(
            a.network_id,
        ),
        without_zero(b.command) && without_zero(b.key) && without_zero(b.value) && without_zero(
            b.network_id,
        ),
    ensures
        a.command == b.command,
        a.key == b.key,
        a.value == b.value,
        a.network_id == b.network_id,
        a.sequence_number == b.sequence_number,
        a.public_key == b.public_key,
{
    let zero = seq![0u8];
    let a5 = zero + utf8(a.public_key);
    let b5 = zero + utf8(b.public_key);
    let a4 = u64_bytes(a.sequence_number) + a5;
    let b4 = u64_bytes(b.sequence_number) + b5;
    let a3 = utf8(a.network_id) + (zero + a4);
    let b3 = utf8(b.network_id) + (zero + b4);
    let a2 = utf8(a.value) + (zero + a3);
    let b2 = utf8(b.value) + (zero + b3);
    let a1 = utf8(a.key) + (zero + a2);
    let b1 = utf8(b.key) + (zero + b2);
    lemma_signed_fields_nest(a);
    lemma_signed_fields_nest(b);
    lemma_zero_divides(a.command, a1, b.command, b1);
    lemma_zero_divides(a.key, a2, b.key, b2);
    lemma_zero_divides(a.value, a3, b.value, b3);
    lemma_zero_divides(a.network_id, a4, b.network_id, b4);
    lemma_u64_bytes(a.sequence_number, b.sequence_number);
    lemma_u64_bytes(b.sequence_number, a.sequence_number);
    lemma_same_split(u64_bytes(a.sequence_number), a5, u64_bytes(b.sequence_number), b5);
    lemma_same_split(zero, utf8(a.public_key), zero, utf8(b.public_key));
    lemma_utf8_injective(a.public_key, b.public_key);
}

/// What a check accepts, in terms of the transaction itself: it is of this
/// network, sets or deletes, comes from an authorized key where there are any,
/// carries that key's signature over all its fields, and has a number above
/// its sender's last. Nothing else is asked.
pub proof fn lemma_transactions_accepted_exactly(
    network_id: Seq<char>,
    keys: Set<Seq<char>>,
    sequences: Map<Seq<char>, u64>,
    t: TxModel,
)
    ensures
        ({
            let message = sha256_digest(
                utf8(t.command) + seq![0u8] + utf8(t.key) + seq![0u8] + utf8(t.value) + seq![0u8]
                    + utf8(t.network_id) + seq![0u8] + u64_bytes(t.sequence_number) + seq![0u8]
                    + utf8(t.public_key),
            );
            let r = tx_checked(network_id, keys, sequences, Ok(t));
            &&& r is Ok <==> {
                &&& t.network_id == network_id
                &&& t.command == "set"@ || t.command == "delete"@
                &&& keys.contains(t.public_key) || keys == Set::<Seq<char>>::empty()
                &&& is_hex(t.public_key) && hex_bytes(t.public_key).len() == 32
                &&& ed25519_key_accepted(hex_bytes(t.public_key))
                &&& is_hex(t.signature) && hex_bytes(t.signature).len() == 64
                &&& ed25519_signature_valid(
                    hex_bytes(t.public_key),
                    message,
                    hex_bytes(t.signature),
                )
                &&& t.sequence_number > 0
                &&& sequences.contains_key(t.public_key) ==> t.sequence_number
                    > sequences[t.public_key]
            }
            &&& r is Ok ==> {
                &&& r->Ok_0 == t
                &&& check_result(r).code == 0
                &&& sequences_after(sequences, r) == sequences.insert(
                    t.public_key,
                    t.sequence_number,
                )
            }
            &&& r is Err ==> {
                &&& check_result(r).code != 0
                &&& sequences_after(sequences, r) == sequences
            }
        }),
{
}

/// Each fault of a transaction has its code: 1 for one that is not read, 8 for
/// another network, 5 for an unknown command, 9 for a key that is not
/// authorized, 3 for a bad key or signature and 2 for a number that was used.
pub proof fn lemma_each_fault_has_its_code(
    network_id: Seq<char>,
    keys: Set<Seq<char>>,
    sequences: Map<Seq<char>, u64>,
    t: TxModel,
    unread: Seq<char>,
)
    ensures
        ({
            let code = check_result(tx_checked(network_id, keys, sequences, Ok(t))).code;
            let here = t.network_id == network_id;
            let known = t.command == "set"@ || t.command == "delete"@;
            let authorized = keys == Set::<Seq<char>>::empty() || keys.contains(t.public_key);
            let signed = is_hex(t.public_key) && hex_bytes(t.public_key).len() == 32
                && ed25519_key_accepted(hex_bytes(t.public_key)) && is_hex(t.signature)
                && hex_bytes(t.signature).len() == 64 && ed25519_signature_valid(
                hex_bytes(t.public_key),
                signed_message(t),
                hex_bytes(t.signature),
            );
            let last = if sequences.contains_key(t.public_key) {
                sequences[t.public_key]
            } else {
                0
            };
            &&& check_result(tx_checked(network_id, keys, sequences, Err(unread))).code == 1
            &&& !here ==> code == 8
            &&& here && !known ==> code == 5
            &&& here && known && !authorized ==> code == 9
            &&& here && known && authorized && !signed ==> code == 3
            &&& here && known && authorized && signed && t.sequence_number <= last ==> code == 2
            &&& here && known && authorized && signed && t.sequence_number > last ==> code == 0
        }),
{
}

/// Joining two records keeps the higher number of every sender.
pub proof fn lemma_joined_is_the_higher(
    a: Map<Seq<char>, u64>,
    b: Map<Seq<char>, u64>,
    sender: Seq<char>,
)
    ensures
        last_of(joined(a, b), sender) >= last_of(a, sender),
        last_of(joined(a, b), sender) >= last_of(b, sender),
        last_of(joined(a, b), sender) == last_of(a, sender) || last_of(joined(a, b), sender)
            == last_of(b, sender),
        a.contains_key(sender) ==> last_of(a, sender) == a[sender],
        !a.contains_key(sender) ==> last_of(a, sender) == 0,
{
}

/// What the log of a refused transaction tells: whose number it was, what it had
/// to exceed and what it was, or which network was expected and which was named,
/// or the key or the command.
pub proof fn lemma_refusals_tell_the_values(
    sender: Seq<char>,
    expected: u64,
    actual: u64,
    network: Seq<char>,
    other: Seq<char>,
)
    ensures
        refusal(CheckErrorModel::InvalidSequence { sender, expected, actual }).log == sender
            + ": expected seq > "@ + decimal(expected as nat) + ", got "@ + decimal(actual as nat),
        refusal(CheckErrorModel::NetworkMismatch { expected: network, actual: other }).log
            == "network mismatch: expected \'"@ + network + "\', got \'"@ + other + "\'"@,
        refusal(CheckErrorModel::UnauthorizedKey(other)).log == "unauthorized key: "@ + other,
        refusal(CheckErrorModel::UnknownCommand(other)).log == "unknown command: "@ + other,
        refusal(CheckErrorModel::InvalidTxFormat(other)).log == other,
{
}

} // verus!
