//! Records of executed commands.

use crate::ledger::error::{ErrorModel, LedgerError};
use crate::text::str_eq;
use vstd::prelude::*;

verus! {

/// What a command that was executed produced.
///
/// The same command is answered with the recorded result; another command
/// under the same identifier is refused.
#[derive(Debug, PartialEq, Eq)]
pub struct IdempotencyRecord {
    /// Unique command identifier (supplied by the client).
    pub command_id: String,
    /// Hash of the command payload.
    pub command_hash: String,
    /// Hash of the result.
    pub result_hash: String,
    /// Sequence number of the journal entry that committed the command.
    pub committed_sequence: u64,
    /// State root after the command.
    pub resulting_state_root: String,
}

impl Clone for IdempotencyRecord {
    fn clone(&self) -> (r: Self)
        ensures
            r == *self,
    {
        IdempotencyRecord {
            command_id: self.command_id.clone(),
            command_hash: self.command_hash.clone(),
            result_hash: self.result_hash.clone(),
            committed_sequence: self.committed_sequence,
            resulting_state_root: self.resulting_state_root.clone(),
        }
    }
}

impl IdempotencyRecord {
    /// A record.
    pub fn new(
        command_id: &str,
        command_hash: &str,
        result_hash: &str,
        committed_sequence: u64,
        resulting_state_root: &str,
    ) -> (r: Self)
        ensures
            r.command_id@ == command_id@,
            r.command_hash@ == command_hash@,
            r.result_hash@ == result_hash@,
            r.committed_sequence == committed_sequence,
            r.resulting_state_root@ == resulting_state_root@,
    {
        IdempotencyRecord {
            command_id: command_id.to_owned(),
            command_hash: command_hash.to_owned(),
            result_hash: result_hash.to_owned(),
            committed_sequence,
            resulting_state_root: resulting_state_root.to_owned(),
        }
    }
}

/// The answer to a command, given the record stored under its identifier.
pub open spec fn replayed(
    stored: Option<IdempotencyRecord>,
    command_id: Seq<char>,
    command_hash: Seq<char>,
) -> Result<Option<IdempotencyRecord>, ErrorModel> {
    match stored {
        None => Ok(None),
        Some(rec) => if rec.command_hash@ == command_hash {
            Ok(Some(rec))
        } else {
            Err(ErrorModel::IdempotencyConflict { command_id })
        },
    }
}

/// Answers a command from the record stored under its identifier: the record
/// for the same command, a conflict for another one, nothing for a new one.
pub fn check_record(
    stored: Option<&IdempotencyRecord>,
    command_id: &str,
    command_hash: &str,
) -> (r: Result<Option<IdempotencyRecord>, LedgerError>)
    ensures
        crate::ledger::error::outcome(r) == replayed(
            (match stored {
                Some(rec) => Some(*rec),
                None => None,
            }),
            command_id@,
            command_hash@,
        ),
{
    match stored {
        None => Ok(None),
        Some(rec) => {
            if str_eq(rec.command_hash.as_str(), command_hash) {
                Ok(Some(rec.clone()))
            } else {
                Err(LedgerError::IdempotencyConflict { command_id: command_id.to_owned() })
            }
        },
    }
}

/// A command that was recorded is answered from its record, a new one is not,
/// and another one under a recorded identifier is a conflict.
pub proof fn lemma_replay_is_exact(
    rec: IdempotencyRecord,
    command_id: Seq<char>,
    command_hash: Seq<char>,
)
    ensures
        replayed(None, command_id, command_hash) == Ok::<
            Option<IdempotencyRecord>,
            ErrorModel,
        >(None),
        rec.command_hash@ == command_hash ==> replayed(Some(rec), command_id, command_hash) == Ok::<
            Option<IdempotencyRecord>,
            ErrorModel,
        >(Some(rec)),
        rec.command_hash@ != command_hash ==> replayed(Some(rec), command_id, command_hash)
            == Err::<Option<IdempotencyRecord>, ErrorModel>(
            ErrorModel::IdempotencyConflict { command_id },
        ),
{
}

} // verus!
