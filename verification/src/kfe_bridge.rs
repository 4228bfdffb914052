//! The bridge to the KFE (Kerosene Financial Engine): one line of JSON per
//! message over a Unix socket, with a bounded number of attempts.

use crate::codec::{put_text, put_u8, utf8};
use crate::cometbft_adapter::abci::KfeVerdict;
use crate::text::{decimal, lossy_text, trim, trimmed, u64_text, utf8_lossy};
use vstd::arithmetic::power2::{lemma2_to64, lemma_pow2_unfold, pow2};
use vstd::prelude::*;

verus! {

/// What goes wrong on the socket.
#[derive(Debug)]
pub enum ClientError {
    Connection(String),
    Timeout,
}

/// A socket error with its text as a sequence of characters.
pub enum ClientErrorModel {
    Connection(Seq<char>),
    Timeout,
}

impl View for ClientError {
    type V = ClientErrorModel;

    open spec fn view(&self) -> ClientErrorModel {
        match *self {
            ClientError::Connection(m) => ClientErrorModel::Connection(m@),
            ClientError::Timeout => ClientErrorModel::Timeout,
        }
    }
}

/// The message of a socket error.
pub open spec fn client_error_text(e: ClientErrorModel) -> Seq<char> {
    match e {
        ClientErrorModel::Connection(m) => "connection error: "@ + m,
        ClientErrorModel::Timeout => "request timed out"@,
    }
}

/// A text behind a label.
fn labelled(label: &str, text: &str) -> (r: String)
    ensures
        r@ == label@ + text@,
{
    let mut m = label.to_owned();
    m.append(text);
    m
}

impl ClientError {
    /// The message of this error.
    pub fn message(&self) -> (r: String)
        ensures
            r@ == client_error_text(self@),
    {
        match self {
            ClientError::Connection(m) => labelled("connection error: ", m.as_str()),
            ClientError::Timeout => "request timed out".to_owned(),
        }
    }
}

/// The result of a call with texts as sequences of characters.
pub open spec fn call_outcome(r: Result<String, ClientError>) -> Result<
    Seq<char>,
    ClientErrorModel,
> {
    match r {
        Ok(s) => Ok(s@),
        Err(e) => Err(e@),
    }
}

/// A client on a Unix socket. Every call opens a connection of its own.
#[derive(Debug)]
pub struct UnixSocketClient {
    socket_path: String,
    connect_timeout_ms: u64,
    request_timeout_ms: u64,
    max_retries: u32,
}

/// A client as a mathematical value.
pub struct ClientModel {
    pub socket_path: Seq<char>,
    pub connect_timeout_ms: u64,
    pub request_timeout_ms: u64,
    pub max_retries: u32,
}

impl View for UnixSocketClient {
    type V = ClientModel;

    closed spec fn view(&self) -> ClientModel {
        ClientModel {
            socket_path: self.socket_path@,
            connect_timeout_ms: self.connect_timeout_ms,
            request_timeout_ms: self.request_timeout_ms,
            max_retries: self.max_retries,
        }
    }
}

impl Clone for UnixSocketClient {
    fn clone(&self) -> (r: Self)
        ensures
            r@ == self@,
            self.valid() ==> r.valid(),
    {
        UnixSocketClient {
            socket_path: self.socket_path.clone(),
            connect_timeout_ms: self.connect_timeout_ms,
            request_timeout_ms: self.request_timeout_ms,
            max_retries: self.max_retries,
        }
    }
}

/// What to do after an attempt.
#[derive(Debug)]
pub enum CallStep {
    /// The call is over.
    Done(Result<String, ClientError>),
    /// Wait so many milliseconds, then try again.
    Retry { delay_ms: u64 },
}

/// How long to wait after a failed attempt: a tenth of a second, doubled with
/// each attempt.
pub open spec fn backoff(attempt: nat) -> nat {
    100 * pow2(attempt)
}

/// Whether a step is the right one after an attempt.
pub open spec fn stepped(
    max_retries: u32,
    attempt: u32,
    outcome: Result<Seq<char>, ClientErrorModel>,
    step: CallStep,
) -> bool {
    match outcome {
        Err(_) if attempt < max_retries => step matches CallStep::Retry { delay_ms } && delay_ms
            == backoff(attempt as nat),
        _ => step matches CallStep::Done(r) && call_outcome(r) == outcome,
    }
}

/// What a line from the engine says: nothing is an error, and white space
/// around it does not count.
pub open spec fn line_read(line: Seq<char>) -> Result<Seq<char>, ClientErrorModel> {
    if line.len() == 0 {
        Err(ClientErrorModel::Connection("empty response from KFE"@))
    } else {
        Ok(trimmed(line))
    }
}

impl UnixSocketClient {
    /// Whether the number of attempts is bounded as it should be.
    pub closed spec fn valid(&self) -> bool {
        self.max_retries <= 3
    }

    /// A client with five seconds to connect, thirty seconds for a request and
    /// three further attempts.
    pub fn new(socket_path: &str) -> (r: Self)
        ensures
            r.valid(),
            r@ == (ClientModel {
                socket_path: socket_path@,
                connect_timeout_ms: 5000,
                request_timeout_ms: 30000,
                max_retries: 3,
            }),
    {
        UnixSocketClient {
            socket_path: socket_path.to_owned(),
            connect_timeout_ms: 5000,
            request_timeout_ms: 30000,
            max_retries: 3,
        }
    }

    /// The path of the socket.
    pub fn socket_path(&self) -> (r: &str)
        ensures
            r@ == self@.socket_path,
    {
        self.socket_path.as_str()
    }

    /// How long a connection may take, in milliseconds.
    pub fn connect_timeout_ms(&self) -> (r: u64)
        ensures
            r == self@.connect_timeout_ms,
    {
        self.connect_timeout_ms
    }

    /// How long a request may take, in milliseconds.
    pub fn request_timeout_ms(&self) -> (r: u64)
        ensures
            r == self@.request_timeout_ms,
    {
        self.request_timeout_ms
    }

    /// What to do after an attempt, counted from zero: a failure is followed
    /// by another attempt as long as there is one left.
    pub fn after_attempt(&self, attempt: u32, outcome: Result<String, ClientError>) -> (r: CallStep)
        requires
            self.valid(),
        ensures
            stepped(self@.max_retries, attempt, call_outcome(outcome), r),
    {
        match outcome {
            Ok(response) => CallStep::Done(Ok(response)),
            Err(e) => {
                if attempt < self.max_retries {
                    proof {
                        lemma2_to64();
                    }
                    let delay_ms: u64 = if attempt == 0 {
                        100
                    } else if attempt == 1 {
                        200
                    } else {
                        400
                    };
                    CallStep::Retry { delay_ms }
                } else {
                    CallStep::Done(Err(e))
                }
            },
        }
    }

    /// The error for a socket that is not there.
    pub fn socket_not_found(&self) -> (r: ClientError)
        ensures
            r@ == ClientErrorModel::Connection("socket not found: "@ + self@.socket_path),
    {
        ClientError::Connection(labelled("socket not found: ", self.socket_path.as_str()))
    }

    /// The bytes of a request: one line.
    pub fn frame_request(request: &str) -> (r: Vec<u8>)
        ensures
            r@ == utf8(request@).push(10u8),
    {
        let mut bytes: Vec<u8> = Vec::new();
        put_text(&mut bytes, request);
        put_u8(&mut bytes, 10);
        assert(bytes@ =~= utf8(request@).push(10u8));
        bytes
    }

    /// Reads the line that came back.
    pub fn read_response(line: &str) -> (r: Result<String, ClientError>)
        ensures
            call_outcome(r) == line_read(line@),
    {
        if line.is_empty() {
            return Err(ClientError::Connection("empty response from KFE".to_owned()));
        }
        Ok(trim(line))
    }
}

/// How long a call waits before an attempt, all waits together.
pub open spec fn waited(attempt: nat) -> nat
    decreases attempt,
{
    if attempt == 0 {
        0
    } else {
        waited((attempt - 1) as nat) + backoff((attempt - 1) as nat)
    }
}

/// All waits before an attempt are a tenth of a second less than the wait
/// after it would be.
pub proof fn lemma_waits_add_up(attempt: nat)
    ensures
        waited(attempt) + 100 == backoff(attempt),
    decreases attempt,
{
    if attempt == 0 {
        lemma2_to64();
    } else {
        lemma_waits_add_up((attempt - 1) as nat);
        vstd::arithmetic::power2::lemma_pow2_unfold(attempt);
    }
}

/// A call ends: after the last attempt there is no retry.
pub proof fn lemma_calls_end(
    max_retries: u32,
    attempt: u32,
    outcome: Result<Seq<char>, ClientErrorModel>,
    step: CallStep,
)
    requires
        attempt >= max_retries,
        stepped(max_retries, attempt, outcome, step),
    ensures
        step is Done,
{
}

/// The answer to `check_transaction`.
#[derive(Debug)]
pub struct CheckTxResponse {
    pub allowed: bool,
    pub reason: String,
    pub gas_estimate: u64,
}

/// The answer to `prepare_block`.
#[derive(Debug)]
pub struct PrepareBlockResponse {
    pub valid_tx_indices: Vec<usize>,
    pub state_root: Option<String>,
    pub error: String,
}

/// The answer to `commit_state`.
#[derive(Debug)]
pub struct CommitStateResponse {
    pub state_root: String,
    pub error: String,
}

/// What goes wrong on the bridge.
#[derive(Debug)]
pub enum BridgeError {
    Connection(String),
    Timeout,
    KfeError(String),
    InvalidResponse(String),
}

/// A bridge error with its text as a sequence of characters.
pub enum BridgeErrorModel {
    Connection(Seq<char>),
    Timeout,
    KfeError(Seq<char>),
    InvalidResponse(Seq<char>),
}

impl View for BridgeError {
    type V = BridgeErrorModel;

    open spec fn view(&self) -> BridgeErrorModel {
        match *self {
            BridgeError::Connection(m) => BridgeErrorModel::Connection(m@),
            BridgeError::Timeout => BridgeErrorModel::Timeout,
            BridgeError::KfeError(m) => BridgeErrorModel::KfeError(m@),
            BridgeError::InvalidResponse(m) => BridgeErrorModel::InvalidResponse(m@),
        }
    }
}

/// The message of a bridge error.
pub open spec fn bridge_error_text(e: BridgeErrorModel) -> Seq<char> {
    match e {
        BridgeErrorModel::Connection(m) => "KFE connection error: "@ + m,
        BridgeErrorModel::Timeout => "KFE request timed out"@,
        BridgeErrorModel::KfeError(m) => "KFE returned error: "@ + m,
        BridgeErrorModel::InvalidResponse(m) => "invalid response from KFE: "@ + m,
    }
}

impl BridgeError {
    /// The message of this error.
    pub fn message(&self) -> (r: String)
        ensures
            r@ == bridge_error_text(self@),
    {
        match self {
            BridgeError::Connection(m) => labelled("KFE connection error: ", m.as_str()),
            BridgeError::Timeout => "KFE request timed out".to_owned(),
            BridgeError::KfeError(m) => labelled("KFE returned error: ", m.as_str()),
            BridgeError::InvalidResponse(m) => labelled("invalid response from KFE: ", m.as_str()),
        }
    }
}

/// The JSON text of a string: in double quotes, with special characters
/// escaped.
pub uninterp spec fn json_text(s: Seq<char>) -> Seq<char>;

/// Writes a string as JSON with `serde_json::Value`. The text is a function of
/// the string alone; how characters are escaped is not spelled out here.
#[verifier::external_body]
fn json_string(s: &str) -> (r: String)
    ensures
        r@ == json_text(s@),
{
    serde_json::Value::from(s).to_string()
}

/// The request `check_transaction`.
pub open spec fn check_transaction_text(tx_json: Seq<char>) -> Seq<char> {
    "{\"id\":1,\"method\":\"check_transaction\",\"params\":{\"transaction\":"@ + json_text(tx_json)
        + "}}"@
}

/// The request `prepare_block`.
pub open spec fn prepare_block_text(txs_json: Seq<char>, height: u64) -> Seq<char> {
    "{\"id\":1,\"method\":\"prepare_block\",\"params\":{\"height\":"@ + decimal(height as nat)
        + ",\"transactions\":"@ + json_text(txs_json) + "}}"@
}

/// The request `commit_state`.
pub open spec fn commit_state_text(state_json: Seq<char>, height: u64) -> Seq<char> {
    "{\"id\":1,\"method\":\"commit_state\",\"params\":{\"height\":"@ + decimal(height as nat)
        + ",\"state\":"@ + json_text(state_json) + "}}"@
}

/// What an answer comes to, given what came of the call and of decoding it.
pub open spec fn received<T>(
    called: Result<Seq<char>, ClientErrorModel>,
    parsed: Result<T, String>,
) -> Result<T, BridgeErrorModel> {
    match called {
        Err(e) => Err(BridgeErrorModel::Connection(client_error_text(e))),
        Ok(_) => match parsed {
            Err(m) => Err(BridgeErrorModel::InvalidResponse(m@)),
            Ok(v) => Ok(v),
        },
    }
}

/// The result of an operation with its error as a model.
pub open spec fn bridged<T>(r: Result<T, BridgeError>) -> Result<T, BridgeErrorModel> {
    match r {
        Ok(v) => Ok(v),
        Err(e) => Err(e@),
    }
}

/// Takes an answer, given what came of the call and of decoding it.
fn receive<T>(called: Result<String, ClientError>, parsed: Result<T, String>) -> (r: Result<
    T,
    BridgeError,
>)
    ensures
        bridged(r) == received(call_outcome(called), parsed),
{
    match called {
        Err(e) => Err(BridgeError::Connection(e.message())),
        Ok(_) => match parsed {
            Err(m) => Err(BridgeError::InvalidResponse(m)),
            Ok(v) => Ok(v),
        },
    }
}

/// The bridge to the engine.
#[derive(Debug)]
pub struct KfeBridge {
    client: UnixSocketClient,
}

impl KfeBridge {
    /// The client of the bridge.
    pub closed spec fn client_spec(&self) -> UnixSocketClient {
        self.client
    }

    /// A bridge over a socket.
    pub fn new(socket_path: &str) -> (r: Self)
        ensures
            r.client_spec().valid(),
            r.client_spec()@ == (ClientModel {
                socket_path: socket_path@,
                connect_timeout_ms: 5000,
                request_timeout_ms: 30000,
                max_retries: 3,
            }),
    {
        KfeBridge { client: UnixSocketClient::new(socket_path) }
    }

    /// The client of the bridge.
    pub fn client(&self) -> (r: &UnixSocketClient)
        ensures
            *r == self.client_spec(),
    {
        &self.client
    }

    /// The request that asks whether a transaction is allowed.
    pub fn check_transaction_request(tx_json: &str) -> (r: String)
        ensures
            r@ == check_transaction_text(tx_json@),
    {
        let mut m =
            "{\"id\":1,\"method\":\"check_transaction\",\"params\":{\"transaction\":".to_owned();
        m.append(json_string(tx_json).as_str());
        m.append("}}");
        m
    }

    /// The request that asks whether a transaction is allowed, from its bytes.
    pub fn check_bytes_request(tx: &[u8]) -> (r: String)
        ensures
            r@ == check_transaction_text(lossy_text(tx@)),
    {
        let text = utf8_lossy(tx);
        KfeBridge::check_transaction_request(text.as_str())
    }

    /// Takes the answer whether a transaction is allowed. One that is not is
    /// an error with its reason.
    pub fn check_transaction(
        called: Result<String, ClientError>,
        parsed: Result<CheckTxResponse, String>,
    ) -> (r: Result<CheckTxResponse, BridgeError>)
        ensures
            bridged(r) == (match received(call_outcome(called), parsed) {
                Err(e) => Err::<CheckTxResponse, BridgeErrorModel>(e),
                Ok(v) => if v.allowed {
                    Ok::<CheckTxResponse, BridgeErrorModel>(v)
                } else {
                    Err::<CheckTxResponse, BridgeErrorModel>(
                        BridgeErrorModel::KfeError(v.reason@),
                    )
                },
            }),
            r is Ok <==> called is Ok && parsed is Ok && parsed->Ok_0.allowed,
            r is Ok ==> r->Ok_0 == parsed->Ok_0,
            r is Err && r->Err_0 is KfeError ==> called is Ok && parsed is Ok
                && !parsed->Ok_0.allowed,
    {
        match receive(called, parsed) {
            Err(e) => Err(e),
            Ok(v) => {
                if v.allowed {
                    Ok(v)
                } else {
                    Err(BridgeError::KfeError(v.reason))
                }
            },
        }
    }

    /// The request that asks for the valid transactions of a block.
    pub fn prepare_block_request(txs_json: &str, height: u64) -> (r: String)
        ensures
            r@ == prepare_block_text(txs_json@, height),
    {
        let mut m = "{\"id\":1,\"method\":\"prepare_block\",\"params\":{\"height\":".to_owned();
        m.append(u64_text(height).as_str());
        m.append(",\"transactions\":");
        m.append(json_string(txs_json).as_str());
        m.append("}}");
        m
    }

    /// Takes the answer that names the valid transactions of a block.
    pub fn prepare_block(
        called: Result<String, ClientError>,
        parsed: Result<PrepareBlockResponse, String>,
    ) -> (r: Result<PrepareBlockResponse, BridgeError>)
        ensures
            bridged(r) == received(call_outcome(called), parsed),
    {
        receive(called, parsed)
    }

    /// The request that stores a state.
    pub fn commit_state_request(state_json: &str, height: u64) -> (r: String)
        ensures
            r@ == commit_state_text(state_json@, height),
    {
        let mut m = "{\"id\":1,\"method\":\"commit_state\",\"params\":{\"height\":".to_owned();
        m.append(u64_text(height).as_str());
        m.append(",\"state\":");
        m.append(json_string(state_json).as_str());
        m.append("}}");
        m
    }

    /// Takes the answer that a state was stored.
    pub fn commit_state(
        called: Result<String, ClientError>,
        parsed: Result<CommitStateResponse, String>,
    ) -> (r: Result<CommitStateResponse, BridgeError>)
        ensures
            bridged(r) == received(call_outcome(called), parsed),
    {
        receive(called, parsed)
    }
}

/// What the application takes from the bridge before its own check. The bridge
/// reports a refusal as an error with its reason, and it counts as the answer
/// that it is; a call that failed leaves the decision to the local check.
pub fn kernel_verdict(answer: Result<CheckTxResponse, BridgeError>) -> (r: KfeVerdict)
    ensures
        r == (match answer {
            Ok(v) => KfeVerdict::Answered { allowed: v.allowed, reason: v.reason },
            Err(BridgeError::KfeError(m)) => KfeVerdict::Answered { allowed: false, reason: m },
            Err(_) => KfeVerdict::Unavailable,
        }),
        r is Unavailable <==> answer is Err && !(answer->Err_0 is KfeError),
        (r matches KfeVerdict::Answered { allowed, .. } && allowed) <==> answer is Ok
            && answer->Ok_0.allowed,
{
    match answer {
        Ok(v) => KfeVerdict::Answered { allowed: v.allowed, reason: v.reason },
        Err(BridgeError::KfeError(m)) => KfeVerdict::Answered { allowed: false, reason: m },
        Err(_) => KfeVerdict::Unavailable,
    }
}

/// The first wait is a tenth of a second, and every further one twice the one
/// before.
pub proof fn lemma_waits_double(attempt: nat)
    ensures
        backoff(0) == 100,
        backoff(attempt + 1) == 2 * backoff(attempt),
{
    lemma2_to64();
    lemma_pow2_unfold(attempt + 1);
}

/// What comes after an attempt: another one exactly when it failed and attempts
/// are left, else the outcome as it is.
pub proof fn lemma_attempts_are_exact(
    max_retries: u32,
    attempt: u32,
    outcome: Result<Seq<char>, ClientErrorModel>,
    step: CallStep,
)
    requires
        stepped(max_retries, attempt, outcome, step),
    ensures
        step is Retry <==> outcome is Err && attempt < max_retries,
        step matches CallStep::Done(r) ==> match r {
            Ok(s) => outcome == Ok::<Seq<char>, ClientErrorModel>(s@),
            Err(e) => outcome == Err::<Seq<char>, ClientErrorModel>(e@),
        },
{
}

/// A response is the line without the blanks around it, and no line is a fault.
/// What is handed on is a response that was received and read: anything else is
/// told as the fault that it was.
pub proof fn lemma_responses_are_exact(
    line: Seq<char>,
    fault: ClientErrorModel,
    text: Seq<char>,
    value: u64,
    message: String,
)
    ensures
        line_read(line) is Ok <==> line.len() > 0,
        line_read(line) is Ok ==> line_read(line)->Ok_0 == trimmed(line),
        line_read(line) is Err ==> line_read(line)->Err_0 is Connection,
        received::<u64>(Ok(text), Ok(value)) == Ok::<u64, BridgeErrorModel>(value),
        received::<u64>(Ok(text), Err(message)) == Err::<u64, BridgeErrorModel>(
            BridgeErrorModel::InvalidResponse(message@),
        ),
        received::<u64>(Err(fault), Ok(value)) == Err::<u64, BridgeErrorModel>(
            BridgeErrorModel::Connection(client_error_text(fault)),
        ),
        received::<u64>(Err(fault), Err(message)) == Err::<u64, BridgeErrorModel>(
            BridgeErrorModel::Connection(client_error_text(fault)),
        ),
{
}

} // verus!
