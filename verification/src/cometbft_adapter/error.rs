//! What can go wrong in the application, and the codes that tell the engine.

use crate::text::{decimal, u64_text};
use vstd::prelude::*;

verus! {

/// Every way in which the application fails.
#[derive(Debug, Clone)]
pub enum AppError {
    InvalidTxFormat(String),
    InvalidSignature,
    DuplicateSequence(String, u64),
    UnknownCommand(String),
    UnauthorizedKey(String),
    NetworkMismatch(String, String),
    State(String),
    Config(String),
    KfeBridge(String),
}

/// An error with its texts as sequences of characters.
pub enum AppErrorModel {
    InvalidTxFormat(Seq<char>),
    InvalidSignature,
    DuplicateSequence(Seq<char>, u64),
    UnknownCommand(Seq<char>),
    UnauthorizedKey(Seq<char>),
    NetworkMismatch(Seq<char>, Seq<char>),
    State(Seq<char>),
    Config(Seq<char>),
    KfeBridge(Seq<char>),
}

impl View for AppError {
    type V = AppErrorModel;

    open spec fn view(&self) -> AppErrorModel {
        match *self {
            AppError::InvalidTxFormat(m) => AppErrorModel::InvalidTxFormat(m@),
            AppError::InvalidSignature => AppErrorModel::InvalidSignature,
            AppError::DuplicateSequence(sender, n) => AppErrorModel::DuplicateSequence(sender@, n),
            AppError::UnknownCommand(c) => AppErrorModel::UnknownCommand(c@),
            AppError::UnauthorizedKey(k) => AppErrorModel::UnauthorizedKey(k@),
            AppError::NetworkMismatch(a, b) => AppErrorModel::NetworkMismatch(a@, b@),
            AppError::State(m) => AppErrorModel::State(m@),
            AppError::Config(m) => AppErrorModel::Config(m@),
            AppError::KfeBridge(m) => AppErrorModel::KfeBridge(m@),
        }
    }
}

/// The message of an error.
pub open spec fn app_error_text(e: AppErrorModel) -> Seq<char> {
    match e {
        AppErrorModel::InvalidTxFormat(m) => "invalid transaction format: "@ + m,
        AppErrorModel::InvalidSignature => "invalid signature"@,
        AppErrorModel::DuplicateSequence(sender, n) => "replay attack detected: sequence "@
            + decimal(n as nat) + " from "@ + sender + " already used"@,
        AppErrorModel::UnknownCommand(c) => "unknown command type: "@ + c,
        AppErrorModel::UnauthorizedKey(k) => "unauthorized key: "@ + k,
        AppErrorModel::NetworkMismatch(a, b) => "network mismatch: expected "@ + a + ", got "@ + b,
        AppErrorModel::State(m) => "state error: "@ + m,
        AppErrorModel::Config(m) => "config error: "@ + m,
        AppErrorModel::KfeBridge(m) => "kernel bridge error: "@ + m,
    }
}

/// A text behind a label.
fn labelled(label: &str, text: &str) -> (r: String)
    ensures
        r@ == label@ + text@,
{
    let mut m = label.to_owned();
    m.append(text);
    m
}

impl AppError {
    /// The message of this error.
    pub fn message(&self) -> (r: String)
        ensures
            r@ == app_error_text(self@),
    {
        match self {
            AppError::InvalidTxFormat(m) => labelled("invalid transaction format: ", m.as_str()),
            AppError::InvalidSignature => "invalid signature".to_owned(),
            AppError::DuplicateSequence(sender, n) => {
                let mut m = labelled("replay attack detected: sequence ", u64_text(*n).as_str());
                m.append(" from ");
                m.append(sender.as_str());
                m.append(" already used");
                m
            },
            AppError::UnknownCommand(c) => labelled("unknown command type: ", c.as_str()),
            AppError::UnauthorizedKey(k) => labelled("unauthorized key: ", k.as_str()),
            AppError::NetworkMismatch(a, b) => {
                let mut m = labelled("network mismatch: expected ", a.as_str());
                m.append(", got ");
                m.append(b.as_str());
                m
            },
            AppError::State(m) => labelled("state error: ", m.as_str()),
            AppError::Config(m) => labelled("config error: ", m.as_str()),
            AppError::KfeBridge(m) => labelled("kernel bridge error: ", m.as_str()),
        }
    }
}

/// The codes that tell the engine what happened.
#[derive(Debug, Clone, Copy, PartialEq, Eq, Structural)]
pub enum Code {
    Success,
    EncodingError,
    InvalidNonce,
    InvalidSignature,
    InternalError,
    UnknownCommand,
    KfeBridgeError,
    TxAlreadyInCache,
    NetworkMismatch,
    UnauthorizedKey,
}

/// The number of a code.
pub open spec fn code_number(c: Code) -> u32 {
    match c {
        Code::Success => 0,
        Code::EncodingError => 1,
        Code::InvalidNonce => 2,
        Code::InvalidSignature => 3,
        Code::InternalError => 4,
        Code::UnknownCommand => 5,
        Code::KfeBridgeError => 6,
        Code::TxAlreadyInCache => 7,
        Code::NetworkMismatch => 8,
        Code::UnauthorizedKey => 9,
    }
}

impl Code {
    /// The number of this code.
    pub fn as_u32(self) -> (r: u32)
        ensures
            r == code_number(self),
    {
        match self {
            Code::Success => 0,
            Code::EncodingError => 1,
            Code::InvalidNonce => 2,
            Code::InvalidSignature => 3,
            Code::InternalError => 4,
            Code::UnknownCommand => 5,
            Code::KfeBridgeError => 6,
            Code::TxAlreadyInCache => 7,
            Code::NetworkMismatch => 8,
            Code::UnauthorizedKey => 9,
        }
    }
}

/// The code of an error.
pub open spec fn code_of(e: AppErrorModel) -> Code {
    match e {
        AppErrorModel::InvalidTxFormat(_) => Code::EncodingError,
        AppErrorModel::InvalidSignature => Code::InvalidSignature,
        AppErrorModel::DuplicateSequence(_, _) => Code::InvalidNonce,
        AppErrorModel::UnknownCommand(_) => Code::UnknownCommand,
        AppErrorModel::UnauthorizedKey(_) => Code::UnauthorizedKey,
        AppErrorModel::NetworkMismatch(_, _) => Code::NetworkMismatch,
        AppErrorModel::State(_) => Code::InternalError,
        AppErrorModel::Config(_) => Code::InternalError,
        AppErrorModel::KfeBridge(_) => Code::KfeBridgeError,
    }
}

impl<'a> From<&'a AppError> for Code {
    fn from(err: &'a AppError) -> (r: Self) {
        match err {
            AppError::InvalidTxFormat(_) => Code::EncodingError,
            AppError::InvalidSignature => Code::InvalidSignature,
            AppError::DuplicateSequence(_, _) => Code::InvalidNonce,
            AppError::UnknownCommand(_) => Code::UnknownCommand,
            AppError::UnauthorizedKey(_) => Code::UnauthorizedKey,
            AppError::NetworkMismatch(_, _) => Code::NetworkMismatch,
            AppError::State(_) => Code::InternalError,
            AppError::Config(_) => Code::InternalError,
            AppError::KfeBridge(_) => Code::KfeBridgeError,
        }
    }
}

impl<'a> vstd::std_specs::convert::FromSpecImpl<&'a AppError> for Code {
    open spec fn obeys_from_spec() -> bool {
        true
    }

    open spec fn from_spec(err: &'a AppError) -> Code {
        code_of(err@)
    }
}

/// Different codes have different numbers, and no error reports success.
pub proof fn lemma_codes_are_distinct(a: Code, b: Code, e: AppErrorModel)
    ensures
        code_number(a) == code_number(b) ==> a == b,
        code_number(code_of(e)) != code_number(Code::Success),
{
}

/// The number that tells each error: 1 for one that is not read, 2 for a number
/// that was used, 3 for a signature, 4 for what goes wrong inside, 5 for an
/// unknown command, 6 for the kernel, 8 for another network and 9 for a key that
/// is not authorized.
pub proof fn lemma_errors_have_their_numbers(e: AppErrorModel)
    ensures
        code_number(code_of(e)) == 1 <==> e is InvalidTxFormat,
        code_number(code_of(e)) == 2 <==> e is DuplicateSequence,
        code_number(code_of(e)) == 3 <==> e is InvalidSignature,
        code_number(code_of(e)) == 4 <==> e is State || e is Config,
        code_number(code_of(e)) == 5 <==> e is UnknownCommand,
        code_number(code_of(e)) == 6 <==> e is KfeBridge,
        code_number(code_of(e)) == 8 <==> e is NetworkMismatch,
        code_number(code_of(e)) == 9 <==> e is UnauthorizedKey,
        code_number(Code::Success) == 0,
        code_number(Code::TxAlreadyInCache) == 7,
{
}

} // verus!
