//! The application as the engine sees it: one answer to each request.

use crate::cometbft_adapter::check_tx::{check_result, check_tx, decoded_tx, is_accepted, joined,
    last_of, lemma_sequences_only_grow, sequences_after, tell, told, tx_checked, AuthorizedKeys,
    CheckErrorModel, SenderSequences, Transaction, TxModel, TxResult};
use crate::cometbft_adapter::commit::commit_state;
use crate::cometbft_adapter::config::{CometBftConfig, ConfigModel};
use crate::cometbft_adapter::error::Code;
use crate::cometbft_adapter::finalize_block::{block_start, decoded_txs, executed, finalize_block,
    lemma_block_answers_in_order, result_models, run_block, BlockResult};
use crate::cometbft_adapter::state::{empty_state, store_hash, value_at, AppState, StateModel};
use crate::text::{lossy_text, texts, utf8_lossy};
use vstd::prelude::*;

verus! {

/// What the kernel said of a transaction before the local check.
#[derive(Debug)]
pub enum KfeVerdict {
    /// No bridge is configured.
    NotAsked,
    /// The kernel could not be reached; the local check decides.
    Unavailable,
    /// The kernel answered.
    Answered { allowed: bool, reason: String },
}

/// A request of the engine, its transactions decoded.
#[derive(Debug)]
pub enum AbciRequest {
    Echo(String),
    Flush,
    Info,
    InitChain,
    Query(Vec<u8>),
    CheckTx { kfe: KfeVerdict, decoded: Result<Transaction, String> },
    FinalizeBlock { height: u64, txs: Vec<Result<Transaction, String>> },
    Commit,
    ListSnapshots,
    OfferSnapshot,
    LoadSnapshotChunk,
    ApplySnapshotChunk,
    PrepareProposal(Vec<Vec<u8>>),
    ProcessProposal,
    ExtendVote,
    VerifyVoteExtension,
}

/// What the engine is told of the application.
#[derive(Debug)]
pub struct InfoResponse {
    pub data: String,
    pub version: String,
    pub app_version: u64,
    pub last_block_height: u64,
    pub last_block_app_hash: [u8; 32],
}

/// The answer to a query.
#[derive(Debug)]
pub struct QueryResponse {
    /// Zero if the key is there.
    pub code: u32,
    pub log: String,
    pub key: Vec<u8>,
    pub value: Vec<u8>,
}

/// The answer to a request. Snapshots are not supported: those answers carry
/// nothing.
#[derive(Debug)]
pub enum AbciResponse {
    Echo(String),
    Flush,
    Info(InfoResponse),
    InitChain([u8; 32]),
    Query(QueryResponse),
    CheckTx(TxResult),
    FinalizeBlock(BlockResult),
    Commit([u8; 32]),
    ListSnapshots,
    OfferSnapshot,
    LoadSnapshotChunk,
    ApplySnapshotChunk,
    PrepareProposal(Vec<Vec<u8>>),
    ProposalAccepted,
    ExtendVote(Vec<u8>),
    VoteExtensionAccepted,
}

/// The application.
pub struct AbciApp {
    state: AppState,
    config: CometBftConfig,
    /// The numbers that blocks have committed.
    sender_sequences: SenderSequences,
    /// The numbers that are spoken for, committed or not: checks of further
    /// transactions go by them.
    reserved_sequences: SenderSequences,
    authorized_keys: AuthorizedKeys,
}

/// The application as a mathematical value.
pub struct AbciModel {
    pub state: StateModel,
    pub config: ConfigModel,
    pub sequences: Map<Seq<char>, u64>,
    pub reserved: Map<Seq<char>, u64>,
    pub keys: Set<Seq<char>>,
}

impl View for AbciApp {
    type V = AbciModel;

    closed spec fn view(&self) -> AbciModel {
        AbciModel {
            state: self.state@,
            config: self.config@,
            sequences: self.sender_sequences@,
            reserved: self.reserved_sequences@,
            keys: self.authorized_keys@,
        }
    }
}

/// The application at its start: no sequence numbers, and the configured keys.
pub open spec fn started(config: ConfigModel, state: StateModel) -> AbciModel {
    AbciModel {
        state,
        config,
        sequences: Map::empty(),
        reserved: Map::empty(),
        keys: config.authorized_keys.to_set(),
    }
}

/// Whether every committed number is spoken for.
pub open spec fn numbers_agree(a: AbciModel) -> bool {
    forall|k: Seq<char>| #[trigger] last_of(a.sequences, k) <= last_of(a.reserved, k)
}

/// Whether an answer tells what the application is.
pub open spec fn tells_info(r: InfoResponse, s: StateModel) -> bool {
    &&& r.data@ == "kerosene-cometbft-adapter"@
    &&& r.version@ == "0.1.0"@
    &&& r.app_version == s.app_version
    &&& r.last_block_height == s.height
    &&& r.last_block_app_hash@ == store_hash(s.store)
}

/// Whether an answer tells the value of a key.
pub open spec fn tells_value(r: QueryResponse, s: StateModel, data: Seq<u8>) -> bool {
    match value_at(s.store, lossy_text(data)) {
        Some(value) => {
            &&& r.code == 0
            &&& r.log@ == ""@
            &&& r.key@ == data
            &&& r.value@ == value
        },
        None => {
            &&& r.code == 1
            &&& r.log@ == "key not found: "@ + lossy_text(data)
            &&& r.key@ == Seq::<u8>::empty()
            &&& r.value@ == Seq::<u8>::empty()
        },
    }
}

/// Whether a request is answered as it should be: what the application is
/// afterwards, and what the engine is told.
pub open spec fn answered(
    before: AbciModel,
    req: AbciRequest,
    after: AbciModel,
    resp: AbciResponse,
) -> bool {
    match req {
        AbciRequest::CheckTx { kfe, decoded } => {
            let network = before.config.network_id;
            let checked = tx_checked(network, before.keys, before.reserved, decoded_tx(decoded));
            match kfe {
                KfeVerdict::Answered { allowed: false, reason } => {
                    &&& after == before
                    &&& resp matches AbciResponse::CheckTx(r) && r@ == told(
                        Code::KfeBridgeError,
                        "KFE rejected transaction: "@ + reason@,
                    )
                },
                _ => {
                    &&& after == (AbciModel {
                        reserved: sequences_after(before.reserved, checked),
                        ..before
                    })
                    &&& resp matches AbciResponse::CheckTx(r) && r@ == check_result(checked)
                },
            }
        },
        AbciRequest::FinalizeBlock { height, txs } => {
            let b = run_block(
                block_start(before.state, before.sequences, height),
                before.config.network_id,
                before.keys,
                decoded_txs(txs@),
            );
            &&& after == (AbciModel {
                state: b.state,
                sequences: b.sequences,
                reserved: joined(before.reserved, b.sequences),
                ..before
            })
            &&& resp matches AbciResponse::FinalizeBlock(r) && result_models(r.tx_results@)
                == b.results && r.app_hash@ == store_hash(b.state.store)
        },
        AbciRequest::Commit => {
            let state = StateModel {
                app_version: (before.state.app_version + 1) as u64,
                ..before.state
            };
            &&& after == (AbciModel { state, ..before })
            &&& resp matches AbciResponse::Commit(h) && h@ == store_hash(before.state.store)
        },
        _ => after == before && match req {
            AbciRequest::Echo(message) => resp matches AbciResponse::Echo(m) && m@ == message@,
            AbciRequest::Flush => resp is Flush,
            AbciRequest::Info => resp matches AbciResponse::Info(r) && tells_info(
                r,
                before.state,
            ),
            AbciRequest::InitChain => resp matches AbciResponse::InitChain(h) && h@ == store_hash(
                before.state.store,
            ),
            AbciRequest::Query(data) => resp matches AbciResponse::Query(r) && tells_value(
                r,
                before.state,
                data@,
            ),
            AbciRequest::ListSnapshots => resp is ListSnapshots,
            AbciRequest::OfferSnapshot => resp is OfferSnapshot,
            AbciRequest::LoadSnapshotChunk => resp is LoadSnapshotChunk,
            AbciRequest::ApplySnapshotChunk => resp is ApplySnapshotChunk,
            AbciRequest::PrepareProposal(txs) => resp matches AbciResponse::PrepareProposal(kept)
                && kept == txs,
            AbciRequest::ProcessProposal => resp is ProposalAccepted,
            AbciRequest::ExtendVote => resp matches AbciResponse::ExtendVote(extension)
                && extension@ == Seq::<u8>::empty(),
            AbciRequest::VerifyVoteExtension => resp is VoteExtensionAccepted,
            _ => true,
        },
    }
}

impl AbciApp {
    /// Whether the application is consistent.
    pub closed spec fn valid(&self) -> bool {
        &&& self.state.valid()
        &&& self.sender_sequences.valid()
        &&& self.reserved_sequences.valid()
        &&& numbers_agree(self@)
        &&& self.authorized_keys.valid()
    }

    /// The application on the state that was recovered; on an empty one where
    /// the recovery failed.
    pub fn new(config: CometBftConfig, recovered: Result<AppState, String>) -> (r: Self)
        requires
            recovered is Ok ==> recovered->Ok_0.valid(),
        ensures
            r.valid(),
            r@ == started(
                config@,
                (match recovered {
                    Ok(s) => s@,
                    Err(_) => empty_state(),
                }),
            ),
    {
        match recovered {
            Ok(state) => AbciApp::with_state(config, state),
            Err(_) => AbciApp::with_state(config, AppState::new()),
        }
    }

    /// The application on a given state.
    pub fn with_state(config: CometBftConfig, state: AppState) -> (r: Self)
        requires
            state.valid(),
        ensures
            r.valid(),
            r@ == started(config@, state@),
    {
        let authorized_keys = AuthorizedKeys::from_keys(&config.authorized_keys);
        AbciApp {
            state,
            config,
            sender_sequences: SenderSequences::new(),
            reserved_sequences: SenderSequences::new(),
            authorized_keys,
        }
    }

    /// The configuration.
    pub fn config(&self) -> (r: &CometBftConfig)
        ensures
            r@ == self@.config,
    {
        &self.config
    }

    /// A copy of the state.
    pub fn state(&self) -> (r: AppState)
        requires
            self.valid(),
        ensures
            r.valid(),
            r@ == self@.state,
    {
        self.state.duplicate()
    }

    /// Replaces the set of authorized keys, when the membership changes.
    pub fn set_authorized_keys(&mut self, keys: &Vec<String>)
        requires
            old(self).valid(),
        ensures
            final(self).valid(),
            final(self)@ == (AbciModel { keys: texts(keys@).to_set(), ..old(self)@ }),
    {
        self.authorized_keys = AuthorizedKeys::from_keys(keys);
    }

    /// The set of authorized keys.
    pub fn authorized_keys(&self) -> (r: &AuthorizedKeys)
        requires
            self.valid(),
        ensures
            r.valid(),
            r@ == self@.keys,
    {
        &self.authorized_keys
    }

    /// Every committed number is spoken for.
    pub proof fn lemma_numbers_agree(&self)
        requires
            self.valid(),
        ensures
            numbers_agree(self@),
    {
    }

    /// The last sequence numbers that were committed.
    pub fn sender_sequences(&self) -> (r: &SenderSequences)
        requires
            self.valid(),
        ensures
            r.valid(),
            r@ == self@.sequences,
    {
        &self.sender_sequences
    }

    /// Records the sequence number of a sender, after a recovery.
    pub fn record_sender_sequence(&mut self, sender: &str, seq: u64)
        requires
            old(self).valid(),
        ensures
            final(self).valid(),
            final(self)@ == (AbciModel {
                sequences: old(self)@.sequences.insert(sender@, seq),
                reserved: old(self)@.reserved.insert(sender@, seq),
                ..old(self)@
            }),
    {
        let ghost before = self@;
        self.sender_sequences.record(sender, seq);
        self.reserved_sequences.record(sender, seq);
        assert forall|k: Seq<char>| #[trigger] last_of(self@.sequences, k) <= last_of(
            self@.reserved,
            k,
        ) by {
            assert(last_of(before.sequences, k) <= last_of(before.reserved, k));
        }
    }

    /// The hash of the state.
    pub fn app_hash(&self) -> (r: [u8; 32])
        requires
            self.valid(),
        ensures
            r@ == store_hash(self@.state.store),
    {
        self.state.root_hash()
    }

    /// What the application is.
    pub fn handle_info(&self) -> (r: InfoResponse)
        requires
            self.valid(),
        ensures
            tells_info(r, self@.state),
    {
        InfoResponse {
            data: "kerosene-cometbft-adapter".to_owned(),
            version: "0.1.0".to_owned(),
            app_version: self.state.app_version(),
            last_block_height: self.state.height(),
            last_block_app_hash: self.state.root_hash(),
        }
    }

    /// The value of a key, which is given by its bytes.
    pub fn handle_query(&self, data: &Vec<u8>) -> (r: QueryResponse)
        requires
            self.valid(),
        ensures
            tells_value(r, self@.state, data@),
    {
        let key = utf8_lossy(data.as_slice());
        match self.state.get(key.as_str()) {
            Some(found) => {
                let mut value: Vec<u8> = Vec::new();
                crate::codec::put(&mut value, found);
                let mut echoed: Vec<u8> = Vec::new();
                crate::codec::put(&mut echoed, data.as_slice());
                assert(value@ =~= found@);
                assert(echoed@ =~= data@);
                QueryResponse { code: 0, log: "".to_owned(), key: echoed, value }
            },
            None => {
                let mut log = "key not found: ".to_owned();
                log.append(key.as_str());
                QueryResponse { code: 1, log, key: Vec::new(), value: Vec::new() }
            },
        }
    }

    /// Checks a transaction, after the kernel had its say. The number of one
    /// that is accepted is reserved; a block commits it.
    pub fn handle_check_tx(&mut self, kfe: KfeVerdict, decoded: Result<Transaction, String>) -> (r:
        TxResult)
        requires
            old(self).valid(),
        ensures
            final(self).valid(),
            answered(
                old(self)@,
                AbciRequest::CheckTx { kfe, decoded },
                final(self)@,
                AbciResponse::CheckTx(r),
            ),
    {
        proof {
            lemma_checks_keep_numbers(
                self@,
                tx_checked(
                    self@.config.network_id,
                    self@.keys,
                    self@.reserved,
                    decoded_tx(decoded),
                ),
                decoded_tx(decoded),
            );
        }
        match kfe {
            KfeVerdict::Answered { allowed, reason } => {
                if !allowed {
                    let mut m = "KFE rejected transaction: ".to_owned();
                    m.append(reason.as_str());
                    return tell(Code::KfeBridgeError, m);
                }
            },
            _ => {},
        }
        check_tx(
            self.config.network_id.as_str(),
            &mut self.reserved_sequences,
            &self.authorized_keys,
            &decoded,
        )
    }

    /// Executes a block. Its numbers are committed, and with that spoken for.
    fn handle_finalize_block(&mut self, height: u64, txs: Vec<Result<Transaction, String>>) -> (r:
        BlockResult)
        requires
            old(self).valid(),
        ensures
            final(self).valid(),
            answered(
                old(self)@,
                AbciRequest::FinalizeBlock { height, txs },
                final(self)@,
                AbciResponse::FinalizeBlock(r),
            ),
    {
        let r = finalize_block(
            &mut self.state,
            &mut self.sender_sequences,
            self.config.network_id.as_str(),
            &self.authorized_keys,
            height,
            &txs,
        );
        let ghost before = self.reserved_sequences@;
        self.reserved_sequences.raise_to(&self.sender_sequences);
        assert forall|k: Seq<char>| #[trigger] last_of(self@.sequences, k) <= last_of(
            self@.reserved,
            k,
        ) by {
            assert(joined(before, self@.sequences).contains_key(k) || last_of(self@.sequences, k)
                == 0);
        }
        r
    }

    /// Answers a request of the engine.
    pub fn call(&mut self, req: AbciRequest) -> (resp: AbciResponse)
        requires
            old(self).valid(),
            req is Commit ==> old(self)@.state.app_version < u64::MAX,
        ensures
            final(self).valid(),
            answered(old(self)@, req, final(self)@, resp),
    {
        match req {
            AbciRequest::Echo(message) => AbciResponse::Echo(message),
            AbciRequest::Flush => AbciResponse::Flush,
            AbciRequest::Info => AbciResponse::Info(self.handle_info()),
            AbciRequest::InitChain => AbciResponse::InitChain(self.app_hash()),
            AbciRequest::Query(data) => AbciResponse::Query(self.handle_query(&data)),
            AbciRequest::CheckTx { kfe, decoded } => AbciResponse::CheckTx(
                self.handle_check_tx(kfe, decoded),
            ),
            AbciRequest::FinalizeBlock { height, txs } => AbciResponse::FinalizeBlock(
                self.handle_finalize_block(height, txs),
            ),
            AbciRequest::Commit => AbciResponse::Commit(commit_state(&mut self.state)),
            AbciRequest::ListSnapshots => AbciResponse::ListSnapshots,
            AbciRequest::OfferSnapshot => AbciResponse::OfferSnapshot,
            AbciRequest::LoadSnapshotChunk => AbciResponse::LoadSnapshotChunk,
            AbciRequest::ApplySnapshotChunk => AbciResponse::ApplySnapshotChunk,
            AbciRequest::PrepareProposal(txs) => AbciResponse::PrepareProposal(txs),
            AbciRequest::ProcessProposal => AbciResponse::ProposalAccepted,
            AbciRequest::ExtendVote => AbciResponse::ExtendVote(Vec::new()),
            AbciRequest::VerifyVoteExtension => AbciResponse::VoteExtensionAccepted,
        }
    }
}

proof fn lemma_checks_keep_numbers(
    a: AbciModel,
    checked: Result<TxModel, CheckErrorModel>,
    decoded: Result<TxModel, Seq<char>>,
)
    requires
        numbers_agree(a),
        checked == tx_checked(a.config.network_id, a.keys, a.reserved, decoded),
    ensures
        numbers_agree(AbciModel { reserved: sequences_after(a.reserved, checked), ..a }),
{
    let b = AbciModel { reserved: sequences_after(a.reserved, checked), ..a };
    assert forall|k: Seq<char>| #[trigger] last_of(b.sequences, k) <= last_of(b.reserved, k) by {
        assert(last_of(a.sequences, k) <= last_of(a.reserved, k));
        lemma_sequences_only_grow(a.config.network_id, a.keys, a.reserved, decoded, k);
    }
}

/// A transaction that the application accepted in its check is executed in a
/// block that holds it, as long as no such number of its sender was committed
/// before; and right after the check none was.
pub proof fn lemma_checked_transactions_are_executed(
    a: AbciModel,
    kfe: KfeVerdict,
    t: Transaction,
    b: AbciModel,
    checked: TxResult,
    c: AbciModel,
    height: u64,
    txs: Vec<Result<Transaction, String>>,
    i: int,
    d: AbciModel,
    block: BlockResult,
)
    requires
        numbers_agree(a),
        answered(
            a,
            AbciRequest::CheckTx { kfe, decoded: Ok(t) },
            b,
            AbciResponse::CheckTx(checked),
        ),
        is_accepted(checked@),
        c.config == a.config,
        c.keys == a.keys,
        0 <= i < txs@.len(),
        txs@[i] == Ok::<Transaction, String>(t),
        answered(
            c,
            AbciRequest::FinalizeBlock { height, txs },
            d,
            AbciResponse::FinalizeBlock(block),
        ),
    ensures
        last_of(b.sequences, t.public_key@) < t.sequence_number,
        ({
            let before = run_block(
                block_start(c.state, c.sequences, height),
                c.config.network_id,
                c.keys,
                decoded_txs(txs@).take(i),
            );
            last_of(before.sequences, t.public_key@) < t.sequence_number
                ==> block.tx_results@[i]@ == executed(before.state, t@).1
        }),
{
    let start = block_start(c.state, c.sequences, height);
    let all = decoded_txs(txs@);
    assert(last_of(a.sequences, t.public_key@) <= last_of(a.reserved, t.public_key@));
    lemma_block_answers_in_order(start, c.config.network_id, c.keys, all, i, t.public_key@);
    assert(all[i] == decoded_tx(txs@[i]));
    assert(result_models(block.tx_results@)[i] == block.tx_results@[i]@);
}

/// A transaction that a block executed is not accepted in a check again.
pub proof fn lemma_executed_transactions_are_refused(
    c: AbciModel,
    height: u64,
    txs: Vec<Result<Transaction, String>>,
    i: int,
    t: Transaction,
    d: AbciModel,
    block: BlockResult,
)
    requires
        0 <= i < txs@.len(),
        txs@[i] == Ok::<Transaction, String>(t),
        answered(
            c,
            AbciRequest::FinalizeBlock { height, txs },
            d,
            AbciResponse::FinalizeBlock(block),
        ),
        ({
            let before = run_block(
                block_start(c.state, c.sequences, height),
                c.config.network_id,
                c.keys,
                decoded_txs(txs@).take(i),
            );
            tx_checked(c.config.network_id, c.keys, before.sequences, Ok(t@)) is Ok
        }),
    ensures
        tx_checked(d.config.network_id, d.keys, d.reserved, Ok(t@)) is Err,
        tx_checked(d.config.network_id, d.keys, d.sequences, Ok(t@)) is Err,
{
    let start = block_start(c.state, c.sequences, height);
    let all = decoded_txs(txs@);
    lemma_block_answers_in_order(start, c.config.network_id, c.keys, all, i, t.public_key@);
    assert(all[i] == decoded_tx(txs@[i]));
    assert(last_of(d.sequences, t.public_key@) >= t.sequence_number);
    assert(d.reserved.contains_key(t.public_key@));
}

/// The hash that a block reports is the one that its commit and the next info
/// report.
pub proof fn lemma_block_hash_is_committed(
    a: AbciModel,
    height: u64,
    txs: Vec<Result<Transaction, String>>,
    b: AbciModel,
    block: BlockResult,
    c: AbciModel,
    hash: [u8; 32],
    info: InfoResponse,
)
    requires
        answered(
            a,
            AbciRequest::FinalizeBlock { height, txs },
            b,
            AbciResponse::FinalizeBlock(block),
        ),
        answered(b, AbciRequest::Commit, c, AbciResponse::Commit(hash)),
        answered(c, AbciRequest::Info, c, AbciResponse::Info(info)),
    ensures
        hash@ == block.app_hash@,
        info.last_block_app_hash@ == block.app_hash@,
{
}

/// A check is answered with success exactly when the kernel did not refuse the
/// transaction and it passes; only then its number is spoken for. Nothing is
/// executed, and no number is committed.
pub proof fn lemma_checks_are_answered_exactly(
    before: AbciModel,
    kfe: KfeVerdict,
    decoded: Result<Transaction, String>,
    after: AbciModel,
    resp: AbciResponse,
)
    requires
        answered(before, AbciRequest::CheckTx { kfe, decoded }, after, resp),
    ensures
        ({
            let refused = kfe matches KfeVerdict::Answered { allowed, .. } && !allowed;
            let t = decoded->Ok_0@;
            let passes = decoded is Ok && tx_checked(
                before.config.network_id,
                before.keys,
                before.reserved,
                Ok(t),
            ) is Ok;
            &&& resp is CheckTx
            &&& resp->CheckTx_0.code == 0 <==> !refused && passes
            &&& refused ==> resp->CheckTx_0.code == 6
            &&& !refused && passes ==> after.reserved == before.reserved.insert(
                t.public_key,
                t.sequence_number,
            )
            &&& refused || !passes ==> after.reserved == before.reserved
            &&& after.state == before.state && after.sequences == before.sequences
            &&& after.config == before.config && after.keys == before.keys
        }),
{
}

/// A block's answer has one result for each transaction and the hash of the
/// state that it led to; the state is then at the block's height, and every
/// number that the block took is spoken for.
pub proof fn lemma_blocks_are_answered_exactly(
    before: AbciModel,
    height: u64,
    txs: Vec<Result<Transaction, String>>,
    after: AbciModel,
    resp: AbciResponse,
    sender: Seq<char>,
)
    requires
        answered(before, AbciRequest::FinalizeBlock { height, txs }, after, resp),
    ensures
        resp is FinalizeBlock,
        ({
            let b = run_block(
                block_start(before.state, before.sequences, height),
                before.config.network_id,
                before.keys,
                Seq::new(
                    txs@.len(),
                    |i: int|
                        match txs@[i] {
                            Ok(t) => Ok::<TxModel, Seq<char>>(t@),
                            Err(m) => Err::<TxModel, Seq<char>>(m@),
                        },
                ),
            );
            let r = resp->FinalizeBlock_0;
            &&& after.state == b.state && after.sequences == b.sequences
            &&& r.tx_results@.len() == b.results.len()
            &&& forall|i: int|
                0 <= i < b.results.len() ==> (#[trigger] r.tx_results@[i]).code
                    == b.results[i].code && r.tx_results@[i].log@ == b.results[i].log
            &&& r.app_hash@ == store_hash(after.state.store)
        }),
        last_of(after.reserved, sender) == (if last_of(before.reserved, sender) < last_of(
            after.sequences,
            sender,
        ) {
            last_of(after.sequences, sender)
        } else {
            last_of(before.reserved, sender)
        }),
        after.config == before.config && after.keys == before.keys,
{
    let decoded = Seq::new(
        txs@.len(),
        |i: int|
            match txs@[i] {
                Ok(t) => Ok::<TxModel, Seq<char>>(t@),
                Err(m) => Err::<TxModel, Seq<char>>(m@),
            },
    );
    assert(decoded =~= decoded_txs(txs@));
    let results = result_models(resp->FinalizeBlock_0.tx_results@);
    assert forall|i: int| 0 <= i < results.len() implies (
    #[trigger] resp->FinalizeBlock_0.tx_results@[i]).code == results[i].code
        && resp->FinalizeBlock_0.tx_results@[i].log@ == results[i].log by {
        assert(results[i] == resp->FinalizeBlock_0.tx_results@[i]@);
    }
}

/// A commit counts the state's version one further, changes nothing else, and
/// answers with the hash of the state.
pub proof fn lemma_commits_are_answered_exactly(
    before: AbciModel,
    after: AbciModel,
    resp: AbciResponse,
)
    requires
        answered(before, AbciRequest::Commit, after, resp),
        before.state.app_version < u64::MAX,
    ensures
        after.state.app_version == before.state.app_version + 1,
        after.state.store == before.state.store && after.state.height == before.state.height,
        after.sequences == before.sequences && after.reserved == before.reserved,
        after.config == before.config && after.keys == before.keys,
        resp is Commit,
        resp->Commit_0@ == store_hash(before.state.store),
{
}

/// Queries, information and the rest change nothing: a query tells the value of
/// a key that is there and a code other than zero otherwise, and the
/// information is that of the last block.
pub proof fn lemma_questions_are_answered_exactly(
    before: AbciModel,
    data: Vec<u8>,
    query: AbciResponse,
    info: AbciResponse,
    chain: AbciResponse,
    txs: Vec<Vec<u8>>,
    proposal: AbciResponse,
    process: AbciResponse,
    vote: AbciResponse,
    after: AbciModel,
)
    requires
        answered(before, AbciRequest::Query(data), after, query),
        answered(before, AbciRequest::Info, after, info),
        answered(before, AbciRequest::InitChain, after, chain),
        answered(before, AbciRequest::PrepareProposal(txs), after, proposal),
        answered(before, AbciRequest::ProcessProposal, after, process),
        answered(before, AbciRequest::VerifyVoteExtension, after, vote),
    ensures
        after == before,
        query is Query && info is Info && chain is InitChain,
        ({
            let key = lossy_text(data@);
            let q = query->Query_0;
            &&& q.code == 0 <==> before.state.store.contains_key(key)
            &&& q.code == 0 ==> q.value@ == before.state.store[key].value && q.key@ == data@
            &&& q.code != 0 ==> q.value@.len() == 0 && q.key@.len() == 0
        }),
        info->Info_0.last_block_height == before.state.height,
        info->Info_0.app_version == before.state.app_version,
        info->Info_0.last_block_app_hash@ == store_hash(before.state.store),
        chain->InitChain_0@ == store_hash(before.state.store),
        proposal is PrepareProposal && proposal->PrepareProposal_0 == txs,
        process is ProposalAccepted,
        vote is VoteExtensionAccepted,
{
}

/// An application starts with what it is given: no number is taken, and the
/// keys are those that the configuration authorizes.
pub proof fn lemma_applications_start_fresh(config: ConfigModel, state: StateModel, key: Seq<char>)
    ensures
        ({
            let a = started(config, state);
            &&& a.state == state && a.config == config
            &&& last_of(a.sequences, key) == 0 && last_of(a.reserved, key) == 0
            &&& a.keys.contains(key) <==> exists|i: int|
                0 <= i < config.authorized_keys.len() && config.authorized_keys[i] == key
        }),
{
    let keys = config.authorized_keys;
    if keys.to_set().contains(key) {
        let i = choose|i: int| 0 <= i < keys.len() && keys[i] == key;
        assert(keys[i] == key);
    }
    if exists|i: int| 0 <= i < keys.len() && keys[i] == key {
        assert(keys.contains(key));
    }
}

} // verus!
