//! Withdrawals and their life cycle.

use crate::ledger::error::{ErrorModel, LedgerError};
use crate::ledger::settlement::{AuthorizationModel, PsbtCommitment, SettlementAuthorization};
use crate::text::{debug_text, option_text, str_debug};
use vstd::prelude::*;

verus! {

/// The status of a withdrawal.
#[derive(Debug, Clone, Copy, PartialEq, Eq, Hash, Structural)]
pub enum WithdrawalStatus {
    /// Funds are reserved.
    Reserved,
    /// The cluster authorized the settlement.
    Authorized,
    /// The settlement is confirmed on the chain.
    Confirmed,
    /// The settlement failed.
    Failed,
    /// The settlement was replaced by another.
    Replaced,
}

/// The name of a status.
pub open spec fn withdrawal_status_name(s: WithdrawalStatus) -> Seq<char> {
    match s {
        WithdrawalStatus::Reserved => "Reserved"@,
        WithdrawalStatus::Authorized => "Authorized"@,
        WithdrawalStatus::Confirmed => "Confirmed"@,
        WithdrawalStatus::Failed => "Failed"@,
        WithdrawalStatus::Replaced => "Replaced"@,
    }
}

impl WithdrawalStatus {
    /// The name of this status.
    pub fn name(&self) -> (r: &'static str)
        ensures
            r@ == withdrawal_status_name(*self),
    {
        match self {
            WithdrawalStatus::Reserved => "Reserved",
            WithdrawalStatus::Authorized => "Authorized",
            WithdrawalStatus::Confirmed => "Confirmed",
            WithdrawalStatus::Failed => "Failed",
            WithdrawalStatus::Replaced => "Replaced",
        }
    }
}

/// A withdrawal.
#[derive(Debug, PartialEq, Eq)]
pub struct WithdrawalRecord {
    /// Unique identifier of this withdrawal.
    pub withdrawal_id: String,
    /// Commitment to the intent.
    pub intent_commitment: String,
    /// The account that pays.
    pub account_id: String,
    /// Amount in satoshis.
    pub amount_sats: u64,
    /// Where the funds go.
    pub destination_address: String,
    /// Current status.
    pub status: WithdrawalStatus,
    /// Time bucket when the withdrawal was created.
    pub created_at_bucket: u64,
    /// Time bucket of the last change of status.
    pub updated_at_bucket: u64,
    /// The authorization to settle.
    pub authorization: Option<SettlementAuthorization>,
    /// The transaction to sign.
    pub psbt_commitment: Option<PsbtCommitment>,
    /// The transaction that was broadcast.
    pub broadcast_txid: Option<String>,
}

/// A withdrawal with its texts as sequences of characters.
pub struct WithdrawalModel {
    pub withdrawal_id: Seq<char>,
    pub intent_commitment: Seq<char>,
    pub account_id: Seq<char>,
    pub amount_sats: u64,
    pub destination_address: Seq<char>,
    pub status: WithdrawalStatus,
    pub created_at_bucket: u64,
    pub updated_at_bucket: u64,
    pub authorization: Option<AuthorizationModel>,
    pub psbt_commitment: Option<PsbtCommitment>,
    pub broadcast_txid: Option<Seq<char>>,
}

impl View for WithdrawalRecord {
    type V = WithdrawalModel;

    open spec fn view(&self) -> WithdrawalModel {
        WithdrawalModel {
            withdrawal_id: self.withdrawal_id@,
            intent_commitment: self.intent_commitment@,
            account_id: self.account_id@,
            amount_sats: self.amount_sats,
            destination_address: self.destination_address@,
            status: self.status,
            created_at_bucket: self.created_at_bucket,
            updated_at_bucket: self.updated_at_bucket,
            authorization: match self.authorization {
                Some(a) => Some(a@),
                None => None,
            },
            psbt_commitment: self.psbt_commitment,
            broadcast_txid: option_text(self.broadcast_txid),
        }
    }
}

impl WithdrawalRecord {
    /// A new withdrawal, whose funds are reserved.
    pub fn new(
        withdrawal_id: &str,
        intent_commitment: &str,
        account_id: &str,
        amount_sats: u64,
        destination_address: &str,
        bucket: u64,
    ) -> (r: Self)
        ensures
            r@ == (WithdrawalModel {
                withdrawal_id: withdrawal_id@,
                intent_commitment: intent_commitment@,
                account_id: account_id@,
                amount_sats,
                destination_address: destination_address@,
                status: WithdrawalStatus::Reserved,
                created_at_bucket: bucket,
                updated_at_bucket: bucket,
                authorization: None,
                psbt_commitment: None,
                broadcast_txid: None,
            }),
    {
        WithdrawalRecord {
            withdrawal_id: withdrawal_id.to_owned(),
            intent_commitment: intent_commitment.to_owned(),
            account_id: account_id.to_owned(),
            amount_sats,
            destination_address: destination_address.to_owned(),
            status: WithdrawalStatus::Reserved,
            created_at_bucket: bucket,
            updated_at_bucket: bucket,
            authorization: None,
            psbt_commitment: None,
            broadcast_txid: None,
        }
    }
}

/// What is stored, as a model.
pub open spec fn stored_withdrawal(w: Option<WithdrawalRecord>) -> Option<WithdrawalModel> {
    match w {
        Some(x) => Some(x@),
        None => None,
    }
}

/// The result of a change, with texts as sequences.
pub open spec fn withdrawal_outcome(r: Result<WithdrawalRecord, LedgerError>) -> Result<
    WithdrawalModel,
    ErrorModel,
> {
    match r {
        Ok(w) => Ok(w@),
        Err(e) => Err(e@),
    }
}

/// A change of status.
pub open spec fn status_updated(
    stored: Option<WithdrawalModel>,
    id: Seq<char>,
    status: WithdrawalStatus,
    permitted: bool,
    bucket: u64,
) -> Result<WithdrawalModel, ErrorModel> {
    match stored {
        None => Err(ErrorModel::WithdrawalNotFound(id)),
        Some(w) => if !permitted {
            Err(
                ErrorModel::InvalidStateTransition(
                    "cannot transition withdrawal "@ + id + " from "@ + withdrawal_status_name(
                        w.status,
                    ) + " to "@ + withdrawal_status_name(status),
                ),
            )
        } else {
            Ok(WithdrawalModel { status, updated_at_bucket: bucket, ..w })
        },
    }
}

/// Changes the status of a stored withdrawal, where the life cycle permits
/// the change.
pub fn update_status(
    stored: Option<WithdrawalRecord>,
    id: &str,
    status: WithdrawalStatus,
    permitted: bool,
    bucket: u64,
) -> (r: Result<WithdrawalRecord, LedgerError>)
    ensures
        withdrawal_outcome(r) == status_updated(
            stored_withdrawal(stored),
            id@,
            status,
            permitted,
            bucket,
        ),
{
    match stored {
        None => Err(LedgerError::WithdrawalNotFound(id.to_owned())),
        Some(w) => {
            if !permitted {
                let mut m = "cannot transition withdrawal ".to_owned();
                m.append(id);
                m.append(" from ");
                m.append(w.status.name());
                m.append(" to ");
                m.append(status.name());
                return Err(LedgerError::InvalidStateTransition(m));
            }
            let mut changed = w;
            changed.status = status;
            changed.updated_at_bucket = bucket;
            Ok(changed)
        },
    }
}

/// An authorization of a reserved withdrawal.
pub open spec fn authorized(
    stored: Option<WithdrawalModel>,
    id: Seq<char>,
    auth: AuthorizationModel,
) -> Result<WithdrawalModel, ErrorModel> {
    match stored {
        None => Err(ErrorModel::WithdrawalNotFound(id)),
        Some(w) => if w.status != WithdrawalStatus::Reserved {
            Err(
                ErrorModel::InvalidStateTransition(
                    "cannot set authorization on withdrawal "@ + id + " in state "@
                        + withdrawal_status_name(w.status) + " (must be Reserved)"@,
                ),
            )
        } else {
            Ok(
                WithdrawalModel {
                    authorization: Some(auth),
                    status: WithdrawalStatus::Authorized,
                    ..w
                },
            )
        },
    }
}

/// Authorizes a stored withdrawal, which must be reserved.
pub fn set_authorization(
    stored: Option<WithdrawalRecord>,
    id: &str,
    auth: SettlementAuthorization,
) -> (r: Result<WithdrawalRecord, LedgerError>)
    ensures
        withdrawal_outcome(r) == authorized(stored_withdrawal(stored), id@, auth@),
{
    match stored {
        None => Err(LedgerError::WithdrawalNotFound(id.to_owned())),
        Some(w) => {
            if w.status != WithdrawalStatus::Reserved {
                let mut m = "cannot set authorization on withdrawal ".to_owned();
                m.append(id);
                m.append(" in state ");
                m.append(w.status.name());
                m.append(" (must be Reserved)");
                return Err(LedgerError::InvalidStateTransition(m));
            }
            let mut changed = w;
            changed.authorization = Some(auth);
            changed.status = WithdrawalStatus::Authorized;
            Ok(changed)
        },
    }
}

/// Sets the transaction to sign in a stored withdrawal.
pub fn set_psbt(stored: Option<WithdrawalRecord>, id: &str, commitment: PsbtCommitment) -> (r:
    Result<WithdrawalRecord, LedgerError>)
    ensures
        withdrawal_outcome(r) == (match stored_withdrawal(stored) {
            None => Err::<WithdrawalModel, ErrorModel>(ErrorModel::WithdrawalNotFound(id@)),
            Some(w) => Ok::<WithdrawalModel, ErrorModel>(
                WithdrawalModel { psbt_commitment: Some(commitment), ..w },
            ),
        }),
{
    match stored {
        None => Err(LedgerError::WithdrawalNotFound(id.to_owned())),
        Some(w) => {
            let mut changed = w;
            changed.psbt_commitment = Some(commitment);
            Ok(changed)
        },
    }
}

/// A broadcast of the transaction of a withdrawal.
pub open spec fn broadcast(
    stored: Option<WithdrawalModel>,
    id: Seq<char>,
    txid: Seq<char>,
) -> Result<WithdrawalModel, ErrorModel> {
    match stored {
        None => Err(ErrorModel::WithdrawalNotFound(id)),
        Some(w) => match w.broadcast_txid {
            Some(sent) => Err(
                ErrorModel::InvalidStateTransition(
                    "withdrawal "@ + id + " already has broadcast txid Some("@ + debug_text(sent)
                        + ")"@,
                ),
            ),
            None => Ok(WithdrawalModel { broadcast_txid: Some(txid), ..w }),
        },
    }
}

/// Records the broadcast transaction of a stored withdrawal, once.
pub fn set_broadcast_txid(stored: Option<WithdrawalRecord>, id: &str, txid: &str) -> (r: Result<
    WithdrawalRecord,
    LedgerError,
>)
    ensures
        withdrawal_outcome(r) == broadcast(stored_withdrawal(stored), id@, txid@),
{
    match stored {
        None => Err(LedgerError::WithdrawalNotFound(id.to_owned())),
        Some(w) => {
            match &w.broadcast_txid {
                Some(sent) => {
                    let mut m = "withdrawal ".to_owned();
                    m.append(id);
                    m.append(" already has broadcast txid Some(");
                    m.append(str_debug(sent.as_str()).as_str());
                    m.append(")");
                    return Err(LedgerError::InvalidStateTransition(m));
                },
                None => {},
            }
            let mut changed = w;
            changed.broadcast_txid = Some(txid.to_owned());
            Ok(changed)
        },
    }
}

/// A withdrawal is authorized once and broadcast once: after each, the same
/// step is refused.
pub proof fn lemma_withdrawal_steps_happen_once(
    w: WithdrawalModel,
    id: Seq<char>,
    auth: AuthorizationModel,
    other: AuthorizationModel,
    txid: Seq<char>,
    again: Seq<char>,
)
    ensures
        authorized(Some(w), id, auth) is Ok ==> authorized(
            Some(authorized(Some(w), id, auth)->Ok_0),
            id,
            other,
        ) is Err,
        broadcast(Some(w), id, txid) is Ok ==> broadcast(
            Some(broadcast(Some(w), id, txid)->Ok_0),
            id,
            again,
        ) is Err,
{
}

/// What each step of a withdrawal needs and does: a status changes when it is
/// permitted, with the time; an authorization is set while funds are reserved;
/// a transaction is recorded where none was. Nothing else changes, and none is
/// done for a withdrawal that is not there.
pub proof fn lemma_withdrawal_steps_are_exact(
    w: WithdrawalModel,
    id: Seq<char>,
    status: WithdrawalStatus,
    permitted: bool,
    bucket: u64,
    auth: AuthorizationModel,
    txid: Seq<char>,
)
    ensures
        status_updated(Some(w), id, status, permitted, bucket) is Ok <==> permitted,
        permitted ==> {
            let x = status_updated(Some(w), id, status, permitted, bucket)->Ok_0;
            &&& x.status == status && x.updated_at_bucket == bucket
            &&& (WithdrawalModel {
                status: w.status,
                updated_at_bucket: w.updated_at_bucket,
                ..x
            }) == w
        },
        authorized(Some(w), id, auth) is Ok <==> w.status is Reserved,
        w.status is Reserved ==> {
            let x = authorized(Some(w), id, auth)->Ok_0;
            &&& x.status is Authorized && x.authorization == Some(auth)
            &&& (WithdrawalModel { status: w.status, authorization: w.authorization, ..x }) == w
        },
        broadcast(Some(w), id, txid) is Ok <==> w.broadcast_txid is None,
        w.broadcast_txid is None ==> {
            let x = broadcast(Some(w), id, txid)->Ok_0;
            &&& x.broadcast_txid == Some(txid)
            &&& (WithdrawalModel { broadcast_txid: None, ..x }) == w
        },
        status_updated(None, id, status, permitted, bucket) == Err::<WithdrawalModel, ErrorModel>(
            ErrorModel::WithdrawalNotFound(id),
        ),
        authorized(None, id, auth) == Err::<WithdrawalModel, ErrorModel>(
            ErrorModel::WithdrawalNotFound(id),
        ),
        broadcast(None, id, txid) == Err::<WithdrawalModel, ErrorModel>(
            ErrorModel::WithdrawalNotFound(id),
        ),
{
}

} // verus!
