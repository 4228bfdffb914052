//! Execution of decided blocks.

use crate::codec::utf8;
use crate::cometbft_adapter::check_tx::{accepted, check_tx, decoded_tx, is_accepted, last_of,
    refusal, sequences_after, tell, told, tx_checked, AuthorizedKeys, SenderSequences, Transaction,
    TxModel, TxResult, TxResultModel};
use crate::cometbft_adapter::error::Code;
use crate::cometbft_adapter::state::{store_hash, value_at, with_value, without_key, AppState,
    StateModel};
use crate::text::str_eq;
use vstd::prelude::*;

verus! {

/// What a valid transaction does to the state, and what the engine is told.
pub open spec fn executed(s: StateModel, t: TxModel) -> (StateModel, TxResultModel) {
    if t.command == "set"@ {
        (with_value(s, t.key, utf8(t.value)), accepted())
    } else if t.command == "delete"@ {
        if s.store.contains_key(t.key) {
            (without_key(s, t.key), accepted())
        } else {
            (s, told(Code::InternalError, "key not found: "@ + t.key))
        }
    } else {
        (s, told(Code::UnknownCommand, "unknown command: "@ + t.command))
    }
}

/// Executes a valid transaction.
fn execute(state: &mut AppState, tx: &Transaction) -> (r: TxResult)
    requires
        old(state).valid(),
    ensures
        final(state).valid(),
        (final(state)@, r@) == executed(old(state)@, tx@),
{
    if str_eq(tx.command.as_str(), "set") {
        state.apply(tx.key.as_str(), tx.value.as_str().as_bytes());
        return tell(Code::Success, "".to_owned());
    }
    if str_eq(tx.command.as_str(), "delete") {
        let ghost before = state@;
        let gone = state.delete(tx.key.as_str());
        if gone.is_some() {
            return tell(Code::Success, "".to_owned());
        }
        assert(without_key(before, tx.key@).store =~= before.store);
        let mut m = "key not found: ".to_owned();
        m.append(tx.key.as_str());
        return tell(Code::InternalError, m);
    }
    let mut m = "unknown command: ".to_owned();
    m.append(tx.command.as_str());
    tell(Code::UnknownCommand, m)
}

/// What the transactions of a block come to.
pub struct BlockRun {
    pub state: StateModel,
    pub sequences: Map<Seq<char>, u64>,
    pub results: Seq<TxResultModel>,
}

/// One more transaction: it is checked, and executed if it is valid.
pub open spec fn run_next(
    b: BlockRun,
    network_id: Seq<char>,
    keys: Set<Seq<char>>,
    decoded: Result<TxModel, Seq<char>>,
) -> BlockRun {
    let checked = tx_checked(network_id, keys, b.sequences, decoded);
    match checked {
        Err(e) => BlockRun { results: b.results.push(refusal(e)), ..b },
        Ok(t) => {
            let (state, result) = executed(b.state, t);
            BlockRun {
                state,
                sequences: sequences_after(b.sequences, checked),
                results: b.results.push(result),
            }
        },
    }
}

/// The transactions of a block in order.
pub open spec fn run_block(
    start: BlockRun,
    network_id: Seq<char>,
    keys: Set<Seq<char>>,
    txs: Seq<Result<TxModel, Seq<char>>>,
) -> BlockRun
    decreases txs.len(),
{
    if txs.len() == 0 {
        start
    } else {
        run_next(
            run_block(start, network_id, keys, txs.drop_last()),
            network_id,
            keys,
            txs.last(),
        )
    }
}

/// Decoded transactions with their texts as sequences of characters.
pub open spec fn decoded_txs(s: Seq<Result<Transaction, String>>) -> Seq<
    Result<TxModel, Seq<char>>,
> {
    Seq::new(s.len(), |i: int| decoded_tx(s[i]))
}

/// Results with their texts as sequences of characters.
pub open spec fn result_models(s: Seq<TxResult>) -> Seq<TxResultModel> {
    Seq::new(s.len(), |i: int| s[i]@)
}

/// Where a block starts from.
pub open spec fn block_start(s: StateModel, sequences: Map<Seq<char>, u64>, height: u64) -> BlockRun {
    BlockRun { state: StateModel { height, ..s }, sequences, results: Seq::empty() }
}

/// What the engine is told of a block.
#[derive(Debug)]
pub struct BlockResult {
    /// One result for each transaction, in order.
    pub tx_results: Vec<TxResult>,
    /// The hash of the state after the block.
    pub app_hash: [u8; 32],
}

/// Executes a decided block: the height is set, each transaction is checked
/// and executed in order, and the hash of the state is taken at the end.
pub fn finalize_block(
    state: &mut AppState,
    sequences: &mut SenderSequences,
    network_id: &str,
    authorized_keys: &AuthorizedKeys,
    height: u64,
    txs: &Vec<Result<Transaction, String>>,
) -> (r: BlockResult)
    requires
        old(state).valid(),
        old(sequences).valid(),
        authorized_keys.valid(),
    ensures
        final(state).valid(),
        final(sequences).valid(),
        ({
            let b = run_block(
                block_start(old(state)@, old(sequences)@, height),
                network_id@,
                authorized_keys@,
                decoded_txs(txs@),
            );
            &&& final(state)@ == b.state
            &&& final(sequences)@ == b.sequences
            &&& result_models(r.tx_results@) == b.results
            &&& r.app_hash@ == store_hash(b.state.store)
        }),
{
    let ghost start = block_start(state@, sequences@, height);
    let ghost all = decoded_txs(txs@);
    state.set_height(height);
    let mut tx_results: Vec<TxResult> = Vec::new();
    let mut i: usize = 0;
    assert(all.take(0) =~= Seq::<Result<TxModel, Seq<char>>>::empty());
    assert(result_models(tx_results@) =~= Seq::<TxResultModel>::empty());
    while i < txs.len()
        invariant
            i <= txs@.len(),
            all == decoded_txs(txs@),
            state.valid(),
            sequences.valid(),
            authorized_keys.valid(),
            ({
                let b = run_block(start, network_id@, authorized_keys@, all.take(i as int));
                &&& state@ == b.state
                &&& sequences@ == b.sequences
                &&& result_models(tx_results@) == b.results
            }),
        decreases txs.len() - i,
    {
        let ghost done = tx_results@;
        proof {
            assert(all.take(i + 1).drop_last() =~= all.take(i as int));
            assert(all.take(i + 1).last() == decoded_tx(txs@[i as int]));
        }
        let checked = check_tx(network_id, sequences, authorized_keys, &txs[i]);
        let result = match &txs[i] {
            Ok(tx) => {
                if checked.is_ok() {
                    execute(state, tx)
                } else {
                    checked
                }
            },
            Err(_) => checked,
        };
        let ghost told = result@;
        tx_results.push(result);
        assert(result_models(tx_results@) =~= result_models(done).push(told));
        i += 1;
    }
    assert(all.take(i as int) =~= all);
    let app_hash = state.root_hash();
    BlockResult { tx_results, app_hash }
}

/// Every transaction of a block gets one result.
pub proof fn lemma_every_transaction_is_answered(
    start: BlockRun,
    network_id: Seq<char>,
    keys: Set<Seq<char>>,
    txs: Seq<Result<TxModel, Seq<char>>>,
)
    ensures
        run_block(start, network_id, keys, txs).results.len() == start.results.len() + txs.len(),
    decreases txs.len(),
{
    if txs.len() > 0 {
        lemma_every_transaction_is_answered(start, network_id, keys, txs.drop_last());
    }
}

/// A transaction that is refused by the check changes neither the state nor
/// the sequence numbers.
pub proof fn lemma_refused_transactions_change_nothing(
    b: BlockRun,
    network_id: Seq<char>,
    keys: Set<Seq<char>>,
    decoded: Result<TxModel, Seq<char>>,
)
    requires
        tx_checked(network_id, keys, b.sequences, decoded) is Err,
    ensures
        run_next(b, network_id, keys, decoded).state == b.state,
        run_next(b, network_id, keys, decoded).sequences == b.sequences,
        !is_accepted(run_next(b, network_id, keys, decoded).results.last()),
{
}

/// No transaction takes effect twice: once it was executed in a block, the
/// same one is refused in the rest of it, whatever comes in between.
pub proof fn lemma_blocks_do_not_replay(
    b: BlockRun,
    network_id: Seq<char>,
    keys: Set<Seq<char>>,
    t: TxModel,
    between: Seq<Result<TxModel, Seq<char>>>,
)
    requires
        tx_checked(network_id, keys, b.sequences, Ok(t)) is Ok,
    ensures
        ({
            let after = run_block(
                run_next(b, network_id, keys, Ok(t)),
                network_id,
                keys,
                between,
            );
            tx_checked(network_id, keys, after.sequences, Ok(t)) is Err
        }),
{
    let first = run_next(b, network_id, keys, Ok(t));
    assert(last_of(first.sequences, t.public_key) == t.sequence_number);
    lemma_block_sequences_grow(first, network_id, keys, between, t.public_key);
}

proof fn lemma_block_sequences_grow(
    b: BlockRun,
    network_id: Seq<char>,
    keys: Set<Seq<char>>,
    txs: Seq<Result<TxModel, Seq<char>>>,
    sender: Seq<char>,
)
    ensures
        last_of(run_block(b, network_id, keys, txs).sequences, sender) >= last_of(
            b.sequences,
            sender,
        ),
    decreases txs.len(),
{
    if txs.len() > 0 {
        lemma_block_sequences_grow(b, network_id, keys, txs.drop_last(), sender);
        crate::cometbft_adapter::check_tx::lemma_sequences_only_grow(
            network_id,
            keys,
            run_block(b, network_id, keys, txs.drop_last()).sequences,
            txs.last(),
            sender,
        );
    }
}

/// What a block answers to a transaction is what that transaction was answered
/// after those before it, and nothing that follows takes its sequence number
/// back.
pub proof fn lemma_block_answers_in_order(
    start: BlockRun,
    network_id: Seq<char>,
    keys: Set<Seq<char>>,
    txs: Seq<Result<TxModel, Seq<char>>>,
    i: int,
    sender: Seq<char>,
)
    requires
        0 <= i < txs.len(),
    ensures
        ({
            let all = run_block(start, network_id, keys, txs);
            let then = run_next(
                run_block(start, network_id, keys, txs.take(i)),
                network_id,
                keys,
                txs[i],
            );
            &&& all.results.len() == start.results.len() + txs.len()
            &&& all.results[start.results.len() + i] == then.results.last()
            &&& last_of(all.sequences, sender) >= last_of(then.sequences, sender)
        }),
    decreases txs.len(),
{
    lemma_every_transaction_is_answered(start, network_id, keys, txs);
    lemma_every_transaction_is_answered(start, network_id, keys, txs.drop_last());
    if i == txs.len() - 1 {
        assert(txs.take(i) =~= txs.drop_last());
    } else {
        let t = txs.drop_last();
        lemma_block_answers_in_order(start, network_id, keys, t, i, sender);
        assert(t.take(i) =~= txs.take(i));
        crate::cometbft_adapter::check_tx::lemma_sequences_only_grow(
            network_id,
            keys,
            run_block(start, network_id, keys, t).sequences,
            txs.last(),
            sender,
        );
    }
}

/// A value that a block sets is there after the transaction, and a key that
/// it deletes is gone.
pub proof fn lemma_execution_is_read_back(s: StateModel, t: TxModel)
    ensures
        t.command == "set"@ ==> value_at(executed(s, t).0.store, t.key) == Some(utf8(t.value)),
        t.command == "delete"@ ==> value_at(executed(s, t).0.store, t.key) is None,
{
    reveal_strlit("set");
    reveal_strlit("delete");
}

/// What a transaction does to the state: setting stores the bytes of the value
/// under the key, with the version of the state; deleting takes a key out that
/// is there. Anything else changes nothing and is told with its code.
pub proof fn lemma_execution_is_exact(s: StateModel, t: TxModel)
    ensures
        ({
            let (after, r) = executed(s, t);
            &&& r.code == 0 <==> t.command == "set"@ || (t.command == "delete"@
                && s.store.contains_key(t.key))
            &&& t.command == "set"@ ==> {
                &&& after.store.dom() == s.store.dom().insert(t.key)
                &&& after.store[t.key].value == utf8(t.value)
                &&& after.store[t.key].version == s.app_version
            }
            &&& t.command == "delete"@ ==> after.store.dom() == s.store.dom().remove(t.key)
            &&& t.command == "delete"@ && !s.store.contains_key(t.key) ==> r.code == 4
            &&& t.command != "set"@ && t.command != "delete"@ ==> r.code == 5
            &&& r.code != 0 ==> after == s
            &&& forall|k: Seq<char>|
                k != t.key && s.store.contains_key(k) ==> #[trigger] after.store[k] == s.store[k]
            &&& after.height == s.height && after.app_version == s.app_version
        }),
{
    reveal_strlit("set");
    reveal_strlit("delete");
    assert("set"@.len() != "delete"@.len());
    let (after, r) = executed(s, t);
    if t.command == "set"@ {
        assert(after.store.dom() =~= s.store.dom().insert(t.key));
    } else if t.command == "delete"@ {
        assert(after.store.dom() =~= s.store.dom().remove(t.key));
    }
}

/// How a block runs: it starts from the state at its height with the committed
/// numbers, and takes its transactions one after the other. One that is
/// accepted in its turn is executed and its number taken; one that is not
/// changes nothing and is told a code other than zero.
pub proof fn lemma_blocks_run_in_order(
    s: StateModel,
    sequences: Map<Seq<char>, u64>,
    height: u64,
    network_id: Seq<char>,
    keys: Set<Seq<char>>,
    txs: Seq<Result<TxModel, Seq<char>>>,
    decoded: Result<TxModel, Seq<char>>,
)
    ensures
        ({
            let start = block_start(s, sequences, height);
            let b = run_block(start, network_id, keys, txs);
            let next = run_block(start, network_id, keys, txs.push(decoded));
            let checked = tx_checked(network_id, keys, b.sequences, decoded);
            &&& run_block(start, network_id, keys, Seq::empty()) == start
            &&& start.state.height == height && start.state.store == s.store
            &&& start.state.app_version == s.app_version
            &&& start.sequences == sequences && start.results.len() == 0
            &&& checked is Ok ==> {
                &&& next.state == executed(b.state, decoded->Ok_0).0
                &&& next.results == b.results.push(executed(b.state, decoded->Ok_0).1)
                &&& next.sequences == b.sequences.insert(
                    decoded->Ok_0.public_key,
                    decoded->Ok_0.sequence_number,
                )
            }
            &&& checked is Err ==> {
                &&& next.state == b.state
                &&& next.sequences == b.sequences
                &&& next.results.len() == b.results.len() + 1
                &&& next.results.drop_last() == b.results
                &&& next.results.last().code != 0
            }
        }),
{
    let start = block_start(s, sequences, height);
    let b = run_block(start, network_id, keys, txs);
    let next = run_block(start, network_id, keys, txs.push(decoded));
    assert(txs.push(decoded).drop_last() =~= txs);
    let checked = tx_checked(network_id, keys, b.sequences, decoded);
    if checked is Err {
        assert(next.results.drop_last() =~= b.results);
    }
}

} // verus!
