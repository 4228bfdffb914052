//! Authorization of Bitcoin settlements.

use crate::digest::{hex_text, is_digest_text, sha256_digest, sha256_hex, sha256_text};
use crate::ledger::certificate::{certificate_checked, signers_marked, CertificateModel,
    QuorumCertificate};
use crate::ledger::error::{error_text, outcome, ErrorModel, LedgerError};
use crate::ledger::reservation::{reservation_state_name, reservation_terminal, Reservation,
    ReservationModel};
use crate::ledger::state_machine::{LedgerModel, LedgerState};
use crate::text::{contains_text, decimal, str_eq, u64_text};
use vstd::prelude::*;

verus! {

/// A synchronous record of nonces.
pub trait NonceChecker {
    /// The nonces that were seen.
    spec fn seen(&self) -> Set<Seq<char>>;

    /// Whether the record is consistent.
    spec fn consistent(&self) -> bool;

    /// Whether a nonce was seen.
    fn is_consumed_sync(&self, nonce: &str) -> (r: bool)
        requires
            self.consistent(),
        ensures
            r == self.seen().contains(nonce@),
    ;

    /// Records a nonce.
    fn mark_consumed_sync(&mut self, nonce: &str)
        requires
            old(self).consistent(),
        ensures
            final(self).consistent(),
            final(self).seen() == old(self).seen().insert(nonce@),
    ;
}

/// A commitment to a partially signed Bitcoin transaction (PSBT).
///
/// It holds the hash of the canonical serialisation. Vaults check that what
/// they are asked to sign matches it.
#[derive(Debug, PartialEq, Eq)]
pub struct PsbtCommitment {
    /// SHA-256 of the canonical bytes.
    pub psbt_hash: String,
    /// Number of inputs.
    pub input_count: u32,
    /// Number of outputs.
    pub output_count: u32,
    /// Total output value in satoshis.
    pub total_output_sats: u64,
}

impl PsbtCommitment {
    /// The hash of the raw bytes.
    pub fn compute(psbt_bytes: &[u8]) -> (r: String)
        ensures
            r@ == sha256_hex(psbt_bytes@),
            is_digest_text(r@),
    {
        sha256_text(psbt_bytes)
    }

    /// The commitment to raw bytes, with what is known of them.
    pub fn new(
        psbt_bytes: &[u8],
        input_count: u32,
        output_count: u32,
        total_output_sats: u64,
    ) -> (r: Self)
        ensures
            r.psbt_hash@ == sha256_hex(psbt_bytes@),
            is_digest_text(r.psbt_hash@),
            r.input_count == input_count,
            r.output_count == output_count,
            r.total_output_sats == total_output_sats,
    {
        PsbtCommitment {
            psbt_hash: PsbtCommitment::compute(psbt_bytes),
            input_count,
            output_count,
            total_output_sats,
        }
    }
}

/// The bounds within which a settlement may be authorized.
#[derive(Debug, PartialEq, Eq)]
pub struct SettlementPolicy {
    /// Maximum fee in satoshis.
    pub max_fee_sats: u64,
    /// Confirmations after which a settlement is final.
    pub min_confirmations: u32,
    /// Allowed types of destination addresses.
    pub allowed_destination_types: Vec<String>,
    /// Maximum number of outputs.
    pub max_outputs: u32,
    /// Whether a settlement may be replaced by one with a higher fee.
    pub rbf_allowed: bool,
    /// Maximum distance between the epoch of an authorization and that of
    /// the cluster.
    pub max_epoch_drift: u64,
    /// For how many time buckets an authorization is valid.
    pub authorization_ttl_buckets: u64,
}

/// The outcome of checking a policy.
pub open spec fn policy_checked(p: SettlementPolicy) -> Result<(), ErrorModel> {
    if p.max_fee_sats == 0 {
        Err(ErrorModel::PolicyViolation("max_fee_sats must be > 0"@))
    } else if p.min_confirmations == 0 {
        Err(ErrorModel::PolicyViolation("min_confirmations must be > 0"@))
    } else if p.allowed_destination_types@.len() == 0 {
        Err(
            ErrorModel::PolicyViolation(
                "at least one allowed_destination_type must be specified"@,
            ),
        )
    } else if p.max_outputs == 0 {
        Err(ErrorModel::PolicyViolation("max_outputs must be > 0"@))
    } else if p.max_epoch_drift == 0 {
        Err(ErrorModel::PolicyViolation("max_epoch_drift must be > 0"@))
    } else if p.authorization_ttl_buckets == 0 {
        Err(ErrorModel::PolicyViolation("authorization_ttl_buckets must be > 0"@))
    } else {
        Ok(())
    }
}

/// A `PolicyViolation` error.
fn policy_violation(text: &str) -> (r: LedgerError)
    ensures
        r@ == ErrorModel::PolicyViolation(text@),
{
    LedgerError::PolicyViolation(text.to_owned())
}

/// An `AuthorizationInvalid` error.
fn authorization_invalid(text: &str) -> (r: LedgerError)
    ensures
        r@ == ErrorModel::AuthorizationInvalid(text@),
{
    LedgerError::AuthorizationInvalid(text.to_owned())
}

impl SettlementPolicy {
    /// Checks that the policy is consistent in itself.
    pub fn validate(&self) -> (r: Result<(), LedgerError>)
        ensures
            outcome(r) == policy_checked(*self),
    {
        if self.max_fee_sats == 0 {
            return Err(policy_violation("max_fee_sats must be > 0"));
        }
        if self.min_confirmations == 0 {
            return Err(policy_violation("min_confirmations must be > 0"));
        }
        if self.allowed_destination_types.len() == 0 {
            return Err(policy_violation("at least one allowed_destination_type must be specified"));
        }
        if self.max_outputs == 0 {
            return Err(policy_violation("max_outputs must be > 0"));
        }
        if self.max_epoch_drift == 0 {
            return Err(policy_violation("max_epoch_drift must be > 0"));
        }
        if self.authorization_ttl_buckets == 0 {
            return Err(policy_violation("authorization_ttl_buckets must be > 0"));
        }
        Ok(())
    }
}

/// Authorizes the vaults to sign a settlement.
///
/// Vaults verify it on their own before they sign, and refuse without a valid
/// one that was not used before.
#[derive(Debug, PartialEq, Eq)]
pub struct SettlementAuthorization {
    /// Commitment to the withdrawal intent.
    pub intent_commitment: String,
    /// Hash of the ledger command that authorized this settlement.
    pub command_hash: String,
    /// Hash of the transaction that vaults must sign.
    pub psbt_commitment: String,
    /// Hash of the policy under which the authorization was issued.
    pub policy_hash: String,
    /// Epoch in which the authorization was created.
    pub epoch: u64,
    /// Time bucket from which the authorization is expired.
    pub expires_at_bucket: u64,
    /// Nonce that may be used once.
    pub nonce: String,
    /// Certificate that the cluster committed the authorization.
    pub quorum_certificate: QuorumCertificate,
}

/// An authorization with its texts as sequences of characters.
pub struct AuthorizationModel {
    pub intent_commitment: Seq<char>,
    pub command_hash: Seq<char>,
    pub psbt_commitment: Seq<char>,
    pub policy_hash: Seq<char>,
    pub epoch: u64,
    pub expires_at_bucket: u64,
    pub nonce: Seq<char>,
    pub quorum_certificate: CertificateModel,
}

impl View for SettlementAuthorization {
    type V = AuthorizationModel;

    open spec fn view(&self) -> AuthorizationModel {
        AuthorizationModel {
            intent_commitment: self.intent_commitment@,
            command_hash: self.command_hash@,
            psbt_commitment: self.psbt_commitment@,
            policy_hash: self.policy_hash@,
            epoch: self.epoch,
            expires_at_bucket: self.expires_at_bucket,
            nonce: self.nonce@,
            quorum_certificate: self.quorum_certificate@,
        }
    }
}

impl Clone for SettlementAuthorization {
    fn clone(&self) -> (r: Self)
        ensures
            r@ == self@,
    {
        SettlementAuthorization {
            intent_commitment: self.intent_commitment.clone(),
            command_hash: self.command_hash.clone(),
            psbt_commitment: self.psbt_commitment.clone(),
            policy_hash: self.policy_hash.clone(),
            epoch: self.epoch,
            expires_at_bucket: self.expires_at_bucket,
            nonce: self.nonce.clone(),
            quorum_certificate: self.quorum_certificate.clone(),
        }
    }
}

/// The outcome of a structural check of an authorization.
pub open spec fn authorization_checked(a: AuthorizationModel) -> Result<(), ErrorModel> {
    if a.intent_commitment.len() == 0 {
        Err(ErrorModel::AuthorizationInvalid("intent_commitment is empty"@))
    } else if a.command_hash.len() == 0 {
        Err(ErrorModel::AuthorizationInvalid("command_hash is empty"@))
    } else if a.psbt_commitment.len() == 0 {
        Err(ErrorModel::AuthorizationInvalid("psbt_commitment is empty"@))
    } else if a.policy_hash.len() == 0 {
        Err(ErrorModel::AuthorizationInvalid("policy_hash is empty"@))
    } else if a.nonce.len() == 0 {
        Err(ErrorModel::AuthorizationInvalid("nonce is empty"@))
    } else {
        certificate_checked(a.quorum_certificate)
    }
}

/// The outcome of holding an authorization against a reservation.
pub open spec fn reservation_matched(a: AuthorizationModel, r: ReservationModel) -> Result<
    (),
    ErrorModel,
> {
    if reservation_terminal(r.state) {
        Err(
            ErrorModel::AuthorizationInvalid(
                "reservation "@ + r.reservation_id + " is in terminal state "@
                    + reservation_state_name(r.state),
            ),
        )
    } else if a.intent_commitment != r.authorization_commitment {
        Err(
            ErrorModel::AuthorizationInvalid(
                "intent_commitment mismatch: expected "@ + r.authorization_commitment + ", got "@
                    + a.intent_commitment,
            ),
        )
    } else {
        Ok(())
    }
}

impl SettlementAuthorization {
    /// Checks the structure of the authorization and of its certificate.
    pub fn verify_basic(&self) -> (r: Result<(), LedgerError>)
        ensures
            outcome(r) == authorization_checked(self@),
    {
        if self.intent_commitment.as_str().is_empty() {
            return Err(authorization_invalid("intent_commitment is empty"));
        }
        if self.command_hash.as_str().is_empty() {
            return Err(authorization_invalid("command_hash is empty"));
        }
        if self.psbt_commitment.as_str().is_empty() {
            return Err(authorization_invalid("psbt_commitment is empty"));
        }
        if self.policy_hash.as_str().is_empty() {
            return Err(authorization_invalid("policy_hash is empty"));
        }
        if self.nonce.as_str().is_empty() {
            return Err(authorization_invalid("nonce is empty"));
        }
        self.quorum_certificate.verify_basic()
    }

    /// Holds the authorization against a stored reservation, which must not
    /// be settled and must carry the same intent.
    pub fn verify_against_reservation(&self, reservation: &Reservation) -> (r: Result<
        (),
        LedgerError,
    >)
        ensures
            outcome(r) == reservation_matched(self@, reservation@),
    {
        if reservation.is_terminal() {
            let mut m = "reservation ".to_owned();
            m.append(reservation.reservation_id.as_str());
            m.append(" is in terminal state ");
            m.append(reservation.state.name());
            return Err(LedgerError::AuthorizationInvalid(m));
        }
        if self.intent_commitment != reservation.authorization_commitment {
            let mut m = "intent_commitment mismatch: expected ".to_owned();
            m.append(reservation.authorization_commitment.as_str());
            m.append(", got ");
            m.append(self.intent_commitment.as_str());
            return Err(LedgerError::AuthorizationInvalid(m));
        }
        Ok(())
    }

    /// Whether the authorization has expired at a time bucket.
    pub fn is_expired(&self, current_bucket: u64) -> (r: bool)
        ensures
            r == (current_bucket >= self.expires_at_bucket),
    {
        current_bucket >= self.expires_at_bucket
    }
}

/// The distance between two epochs.
pub open spec fn distance(a: u64, b: u64) -> nat {
    if a >= b {
        (a - b) as nat
    } else {
        (b - a) as nat
    }
}

/// Computes the distance between two epochs.
fn epoch_distance(a: u64, b: u64) -> (r: u64)
    ensures
        r == distance(a, b),
{
    if a >= b {
        a - b
    } else {
        b - a
    }
}

/// The outcome of checking an epoch.
pub open spec fn epoch_checked(auth_epoch: u64, current_epoch: u64, max_drift: u64) -> Result<
    (),
    ErrorModel,
> {
    let drift = distance(auth_epoch, current_epoch);
    if drift > max_drift {
        Err(
            ErrorModel::InvalidStateTransition(
                "epoch drift "@ + decimal(drift) + " exceeds max allowed "@ + decimal(
                    max_drift as nat,
                ),
            ),
        )
    } else {
        Ok(())
    }
}

/// The outcome of checking that a certificate belongs to a cluster.
pub open spec fn cluster_checked(c: CertificateModel, cluster_id: Seq<char>) -> Result<
    (),
    ErrorModel,
> {
    if c.cluster_id != cluster_id {
        Err(
            ErrorModel::AuthorizationInvalid(
                "quorum certificate cluster_id \'"@ + c.cluster_id
                    + "\' does not match expected \'"@ + cluster_id + "\'"@,
            ),
        )
    } else {
        certificate_checked(c)
    }
}

/// The outcome of holding an authorization against the ledger.
pub open spec fn settlement_checked(
    a: AuthorizationModel,
    s: LedgerModel,
    max_drift: u64,
    bucket: u64,
) -> Result<(), ErrorModel> {
    let epoch = epoch_checked(a.epoch, s.version, max_drift);
    let cluster = cluster_checked(a.quorum_certificate, s.membership.cluster_id);
    if authorization_checked(a) is Err {
        authorization_checked(a)
    } else if s.consumed_intents.contains(a.intent_commitment) {
        Err(
            ErrorModel::AuthorizationInvalid(
                "intent "@ + a.intent_commitment + " already consumed"@,
            ),
        )
    } else if epoch is Err {
        epoch
    } else if bucket >= a.expires_at_bucket {
        Err(ErrorModel::AuthorizationExpired { expires_at: a.expires_at_bucket, now: bucket })
    } else if cluster is Err {
        cluster
    } else if a.quorum_certificate.epoch != a.epoch {
        Err(
            ErrorModel::AuthorizationInvalid(
                "quorum certificate epoch "@ + decimal(a.quorum_certificate.epoch as nat)
                    + " does not match auth epoch "@ + decimal(a.epoch as nat),
            ),
        )
    } else {
        Ok(())
    }
}

/// The outcome of holding a commitment against the policy.
pub open spec fn commitment_checked(hash: Seq<char>, outputs: u32, max_outputs: u32) -> Result<
    (),
    ErrorModel,
> {
    if hash.len() == 0 {
        Err(ErrorModel::AuthorizationInvalid("psbt_hash is empty"@))
    } else if outputs > max_outputs {
        Err(ErrorModel::PolicyViolation(outputs_text(outputs, max_outputs)))
    } else {
        Ok(())
    }
}

/// What is said of too many outputs.
pub open spec fn outputs_text(outputs: u32, max_outputs: u32) -> Seq<char> {
    "PSBT has "@ + decimal(outputs as nat) + " outputs, policy allows max "@ + decimal(
        max_outputs as nat,
    )
}

/// Says that there are too many outputs.
fn too_many_outputs(outputs: u32, max_outputs: u32) -> (r: String)
    ensures
        r@ == outputs_text(outputs, max_outputs),
{
    let mut m = "PSBT has ".to_owned();
    m.append(u64_text(outputs as u64).as_str());
    m.append(" outputs, policy allows max ");
    m.append(u64_text(max_outputs as u64).as_str());
    m
}

/// Holds authorizations against the state of the ledger.
pub struct SettlementValidator;

impl SettlementValidator {
    /// Validates an authorization against the ledger: its structure, that its
    /// intent was not consumed, its epoch, its expiry, its cluster and that
    /// its certificate is of the same epoch.
    pub fn validate_settlement(
        auth: &SettlementAuthorization,
        state: &LedgerState,
        policy: &SettlementPolicy,
        current_bucket: u64,
    ) -> (r: Result<(), LedgerError>)
        ensures
            outcome(r) == settlement_checked(auth@, state@, policy.max_epoch_drift, current_bucket),
    {
        match auth.verify_basic() {
            Ok(_) => {},
            Err(e) => {
                return Err(e);
            },
        }
        if contains_text(&state.consumed_intents, auth.intent_commitment.as_str()) {
            let mut m = "intent ".to_owned();
            m.append(auth.intent_commitment.as_str());
            m.append(" already consumed");
            return Err(LedgerError::AuthorizationInvalid(m));
        }
        match SettlementValidator::validate_epoch(
            auth.epoch,
            state.version,
            policy.max_epoch_drift,
        ) {
            Ok(_) => {},
            Err(e) => {
                return Err(e);
            },
        }
        if auth.is_expired(current_bucket) {
            return Err(
                LedgerError::AuthorizationExpired {
                    expires_at: auth.expires_at_bucket,
                    now: current_bucket,
                },
            );
        }
        match SettlementValidator::validate_quorum_certificate(
            &auth.quorum_certificate,
            state.membership.cluster_id.as_str(),
        ) {
            Ok(_) => {},
            Err(e) => {
                return Err(e);
            },
        }
        if auth.quorum_certificate.epoch != auth.epoch {
            let mut m = "quorum certificate epoch ".to_owned();
            m.append(u64_text(auth.quorum_certificate.epoch).as_str());
            m.append(" does not match auth epoch ");
            m.append(u64_text(auth.epoch).as_str());
            return Err(LedgerError::AuthorizationInvalid(m));
        }
        Ok(())
    }

    /// Validates a commitment against the policy. Fees are checked by the
    /// vaults, which know the inputs.
    pub fn validate_psbt_against_policy(
        psbt_commitment: &PsbtCommitment,
        policy: &SettlementPolicy,
    ) -> (r: Result<(), LedgerError>)
        ensures
            outcome(r) == commitment_checked(
                psbt_commitment.psbt_hash@,
                psbt_commitment.output_count,
                policy.max_outputs,
            ),
    {
        if psbt_commitment.psbt_hash.as_str().is_empty() {
            return Err(authorization_invalid("psbt_hash is empty"));
        }
        if psbt_commitment.output_count > policy.max_outputs {
            return Err(
                LedgerError::PolicyViolation(
                    too_many_outputs(psbt_commitment.output_count, policy.max_outputs),
                ),
            );
        }
        Ok(())
    }

    /// Checks that an epoch is within the allowed drift of the current one.
    pub fn validate_epoch(auth_epoch: u64, current_epoch: u64, max_epoch_drift: u64) -> (r: Result<
        (),
        LedgerError,
    >)
        ensures
            outcome(r) == epoch_checked(auth_epoch, current_epoch, max_epoch_drift),
    {
        let drift: u64 = epoch_distance(auth_epoch, current_epoch);
        if drift > max_epoch_drift {
            let mut m = "epoch drift ".to_owned();
            m.append(u64_text(drift).as_str());
            m.append(" exceeds max allowed ");
            m.append(u64_text(max_epoch_drift).as_str());
            return Err(LedgerError::InvalidStateTransition(m));
        }
        Ok(())
    }

    /// Checks that a certificate belongs to a cluster and is well formed.
    pub fn validate_quorum_certificate(cert: &QuorumCertificate, cluster_id: &str) -> (r: Result<
        (),
        LedgerError,
    >)
        ensures
            outcome(r) == cluster_checked(cert@, cluster_id@),
    {
        if !str_eq(cert.cluster_id.as_str(), cluster_id) {
            let mut m = "quorum certificate cluster_id '".to_owned();
            m.append(cert.cluster_id.as_str());
            m.append("' does not match expected '");
            m.append(cluster_id);
            m.append("'");
            return Err(LedgerError::AuthorizationInvalid(m));
        }
        cert.verify_basic()
    }
}

/// Why a vault refuses an authorization.
#[derive(Debug, PartialEq, Eq)]
pub enum VaultVerificationError {
    InvalidCertificate(String),
    IntentAlreadyConsumed(String),
    EpochExpired { auth_epoch: u64, max_drift: u64 },
    PsbtMismatch { expected_hash: String, actual_hash: String },
    FeeExceedsPolicy { fee_sats: u64, max_fee_sats: u64 },
    AuthorizationExpired { expires_at: u64, now: u64 },
    NonceReused(String),
    DestinationNotAllowed(String),
}

/// A vault's error with its texts as sequences of characters.
pub enum VaultErrorModel {
    InvalidCertificate(Seq<char>),
    IntentAlreadyConsumed(Seq<char>),
    EpochExpired { auth_epoch: u64, max_drift: u64 },
    PsbtMismatch { expected_hash: Seq<char>, actual_hash: Seq<char> },
    FeeExceedsPolicy { fee_sats: u64, max_fee_sats: u64 },
    AuthorizationExpired { expires_at: u64, now: u64 },
    NonceReused(Seq<char>),
    DestinationNotAllowed(Seq<char>),
}

impl View for VaultVerificationError {
    type V = VaultErrorModel;

    open spec fn view(&self) -> VaultErrorModel {
        match *self {
            VaultVerificationError::InvalidCertificate(m) => VaultErrorModel::InvalidCertificate(
                m@,
            ),
            VaultVerificationError::IntentAlreadyConsumed(m) => {
                VaultErrorModel::IntentAlreadyConsumed(m@)
            },
            VaultVerificationError::EpochExpired { auth_epoch, max_drift } => {
                VaultErrorModel::EpochExpired { auth_epoch, max_drift }
            },
            VaultVerificationError::PsbtMismatch { expected_hash, actual_hash } => {
                VaultErrorModel::PsbtMismatch {
                    expected_hash: expected_hash@,
                    actual_hash: actual_hash@,
                }
            },
            VaultVerificationError::FeeExceedsPolicy { fee_sats, max_fee_sats } => {
                VaultErrorModel::FeeExceedsPolicy { fee_sats, max_fee_sats }
            },
            VaultVerificationError::AuthorizationExpired { expires_at, now } => {
                VaultErrorModel::AuthorizationExpired { expires_at, now }
            },
            VaultVerificationError::NonceReused(n) => VaultErrorModel::NonceReused(n@),
            VaultVerificationError::DestinationNotAllowed(d) => {
                VaultErrorModel::DestinationNotAllowed(d@)
            },
        }
    }
}

/// The message of a vault's error.
pub open spec fn vault_error_text(e: VaultErrorModel) -> Seq<char> {
    match e {
        VaultErrorModel::InvalidCertificate(m) => "invalid certificate: "@ + m,
        VaultErrorModel::IntentAlreadyConsumed(m) => "intent already consumed: "@ + m,
        VaultErrorModel::EpochExpired { auth_epoch, max_drift } => "epoch expired: auth_epoch "@
            + decimal(auth_epoch as nat) + ", max_drift "@ + decimal(max_drift as nat),
        VaultErrorModel::PsbtMismatch { expected_hash, actual_hash } => {
            "PSBT hash mismatch: expected "@ + expected_hash + ", actual "@ + actual_hash
        },
        VaultErrorModel::FeeExceedsPolicy { fee_sats, max_fee_sats } => "fee "@ + decimal(
            fee_sats as nat,
        ) + " exceeds policy max "@ + decimal(max_fee_sats as nat),
        VaultErrorModel::AuthorizationExpired { expires_at, now } => "authorization expired at "@
            + decimal(expires_at as nat) + ", current time "@ + decimal(now as nat),
        VaultErrorModel::NonceReused(n) => "nonce reused: "@ + n,
        VaultErrorModel::DestinationNotAllowed(d) => "destination not allowed: "@ + d,
    }
}

impl VaultVerificationError {
    /// The message of this error.
    pub fn message(&self) -> (r: String)
        ensures
            r@ == vault_error_text(self@),
    {
        match self {
            VaultVerificationError::InvalidCertificate(m) => {
                let mut t = "invalid certificate: ".to_owned();
                t.append(m.as_str());
                t
            },
            VaultVerificationError::IntentAlreadyConsumed(m) => {
                let mut t = "intent already consumed: ".to_owned();
                t.append(m.as_str());
                t
            },
            VaultVerificationError::EpochExpired { auth_epoch, max_drift } => {
                let mut t = "epoch expired: auth_epoch ".to_owned();
                t.append(u64_text(*auth_epoch).as_str());
                t.append(", max_drift ");
                t.append(u64_text(*max_drift).as_str());
                t
            },
            VaultVerificationError::PsbtMismatch { expected_hash, actual_hash } => {
                let mut t = "PSBT hash mismatch: expected ".to_owned();
                t.append(expected_hash.as_str());
                t.append(", actual ");
                t.append(actual_hash.as_str());
                t
            },
            VaultVerificationError::FeeExceedsPolicy { fee_sats, max_fee_sats } => {
                let mut t = "fee ".to_owned();
                t.append(u64_text(*fee_sats).as_str());
                t.append(" exceeds policy max ");
                t.append(u64_text(*max_fee_sats).as_str());
                t
            },
            VaultVerificationError::AuthorizationExpired { expires_at, now } => {
                let mut t = "authorization expired at ".to_owned();
                t.append(u64_text(*expires_at).as_str());
                t.append(", current time ");
                t.append(u64_text(*now).as_str());
                t
            },
            VaultVerificationError::NonceReused(n) => {
                let mut t = "nonce reused: ".to_owned();
                t.append(n.as_str());
                t
            },
            VaultVerificationError::DestinationNotAllowed(d) => {
                let mut t = "destination not allowed: ".to_owned();
                t.append(d.as_str());
                t
            },
        }
    }
}

/// What a vault is asked to sign.
pub struct PsbtFacts {
    pub bytes: Seq<u8>,
    pub inputs: u32,
    pub outputs: u32,
    pub total_output_sats: u64,
}

/// A vault's verdict on an authorization.
pub open spec fn vault_verdict(
    a: AuthorizationModel,
    psbt: PsbtFacts,
    policy: SettlementPolicy,
    seen: Set<Seq<char>>,
    bucket: u64,
) -> Result<(), VaultErrorModel> {
    if authorization_checked(a) is Err {
        Err(VaultErrorModel::InvalidCertificate(error_text(authorization_checked(a)->Err_0)))
    } else if a.quorum_certificate.cluster_id.len() == 0 {
        Err(VaultErrorModel::InvalidCertificate("cluster_id is empty"@))
    } else if seen.contains(a.nonce) {
        Err(VaultErrorModel::NonceReused(a.nonce))
    } else if bucket >= a.expires_at_bucket {
        Err(VaultErrorModel::AuthorizationExpired { expires_at: a.expires_at_bucket, now: bucket })
    } else if distance(a.quorum_certificate.epoch, a.epoch) > policy.max_epoch_drift {
        Err(
            VaultErrorModel::EpochExpired {
                auth_epoch: a.epoch,
                max_drift: policy.max_epoch_drift,
            },
        )
    } else if sha256_hex(psbt.bytes) != a.psbt_commitment {
        Err(
            VaultErrorModel::PsbtMismatch {
                expected_hash: a.psbt_commitment,
                actual_hash: sha256_hex(psbt.bytes),
            },
        )
    } else if psbt.outputs > policy.max_outputs {
        Err(VaultErrorModel::InvalidCertificate(outputs_text(psbt.outputs, policy.max_outputs)))
    } else if psbt.inputs == 0 {
        Err(VaultErrorModel::InvalidCertificate("PSBT must have at least one input"@))
    } else if psbt.outputs == 0 {
        Err(VaultErrorModel::InvalidCertificate("PSBT must have at least one output"@))
    } else if psbt.total_output_sats == 0 {
        Err(VaultErrorModel::InvalidCertificate("total output sats must be > 0"@))
    } else {
        Ok(())
    }
}

/// The result of a vault's check with texts as sequences.
pub open spec fn vault_outcome(r: Result<(), VaultVerificationError>) -> Result<
    (),
    VaultErrorModel,
> {
    match r {
        Ok(v) => Ok(v),
        Err(e) => Err(e@),
    }
}

/// An `InvalidCertificate` error.
fn invalid_certificate(text: &str) -> (r: VaultVerificationError)
    ensures
        r@ == VaultErrorModel::InvalidCertificate(text@),
{
    VaultVerificationError::InvalidCertificate(text.to_owned())
}

/// What a vault verifies on its own before it signs.
///
/// The vault does not trust the ledger: it holds the authorization, the raw
/// transaction, the policy and the nonces that it has seen against each other.
pub struct VaultAuthorizationVerifier;

impl VaultAuthorizationVerifier {
    /// Verifies the whole chain of an authorization, in order: certificate and
    /// cluster, nonce, expiry and epoch, hash of the transaction, outputs and
    /// inputs. The fee is left to the signing vault, which knows the inputs.
    pub fn verify<N: NonceChecker>(
        auth: &SettlementAuthorization,
        psbt_bytes: &[u8],
        psbt_input_count: u32,
        psbt_output_count: u32,
        total_output_sats: u64,
        policy: &SettlementPolicy,
        known_nonces: &N,
        current_bucket: u64,
    ) -> (r: Result<(), VaultVerificationError>)
        requires
            known_nonces.consistent(),
        ensures
            vault_outcome(r) == vault_verdict(
                auth@,
                (PsbtFacts {
                    bytes: psbt_bytes@,
                    inputs: psbt_input_count,
                    outputs: psbt_output_count,
                    total_output_sats,
                }),
                *policy,
                known_nonces.seen(),
                current_bucket,
            ),
    {
        match auth.verify_basic() {
            Ok(_) => {},
            Err(e) => {
                return Err(VaultVerificationError::InvalidCertificate(e.message()));
            },
        }
        if auth.quorum_certificate.cluster_id.as_str().is_empty() {
            return Err(invalid_certificate("cluster_id is empty"));
        }
        if known_nonces.is_consumed_sync(auth.nonce.as_str()) {
            return Err(VaultVerificationError::NonceReused(auth.nonce.clone()));
        }
        if auth.is_expired(current_bucket) {
            return Err(
                VaultVerificationError::AuthorizationExpired {
                    expires_at: auth.expires_at_bucket,
                    now: current_bucket,
                },
            );
        }
        if epoch_distance(auth.quorum_certificate.epoch, auth.epoch) > policy.max_epoch_drift {
            return Err(
                VaultVerificationError::EpochExpired {
                    auth_epoch: auth.epoch,
                    max_drift: policy.max_epoch_drift,
                },
            );
        }
        let actual_hash = PsbtCommitment::compute(psbt_bytes);
        if actual_hash != auth.psbt_commitment {
            return Err(
                VaultVerificationError::PsbtMismatch {
                    expected_hash: auth.psbt_commitment.clone(),
                    actual_hash,
                },
            );
        }
        if psbt_output_count > policy.max_outputs {
            return Err(
                VaultVerificationError::InvalidCertificate(
                    too_many_outputs(psbt_output_count, policy.max_outputs),
                ),
            );
        }
        if psbt_input_count == 0 {
            return Err(invalid_certificate("PSBT must have at least one input"));
        }
        if psbt_output_count == 0 {
            return Err(invalid_certificate("PSBT must have at least one output"));
        }
        if total_output_sats == 0 {
            return Err(invalid_certificate("total output sats must be > 0"));
        }
        Ok(())
    }
}

/// An authorization is signed at most once: when its nonce was recorded, every
/// vault with that record refuses it, whatever else it is shown.
pub proof fn lemma_authorizations_are_not_replayed(
    a: AuthorizationModel,
    psbt: PsbtFacts,
    policy: SettlementPolicy,
    seen: Set<Seq<char>>,
    bucket: u64,
)
    ensures
        vault_verdict(a, psbt, policy, seen.insert(a.nonce), bucket) is Err,
{
}

/// A vault that accepts an authorization signs exactly the committed
/// transaction, before the expiry and within the policy.
pub proof fn lemma_accepted_authorizations_are_sound(
    a: AuthorizationModel,
    psbt: PsbtFacts,
    policy: SettlementPolicy,
    seen: Set<Seq<char>>,
    bucket: u64,
)
    requires
        vault_verdict(a, psbt, policy, seen, bucket) is Ok,
    ensures
        a.psbt_commitment == sha256_hex(psbt.bytes),
        !seen.contains(a.nonce),
        bucket < a.expires_at_bucket,
        1 <= psbt.outputs <= policy.max_outputs,
        certificate_checked(a.quorum_certificate) is Ok,
{
}

/// Once expired an authorization is refused at every later time bucket, by the
/// ledger and by the vaults.
pub proof fn lemma_expired_authorizations_stay_refused(
    a: AuthorizationModel,
    s: LedgerModel,
    psbt: PsbtFacts,
    policy: SettlementPolicy,
    seen: Set<Seq<char>>,
    bucket: u64,
)
    requires
        bucket >= a.expires_at_bucket,
    ensures
        settlement_checked(a, s, policy.max_epoch_drift, bucket) is Err,
        vault_verdict(a, psbt, policy, seen, bucket) is Err,
{
}

/// When the intent of an authorization was consumed, the ledger refuses it.
pub proof fn lemma_consumed_intents_are_refused(
    a: AuthorizationModel,
    s: LedgerModel,
    max_drift: u64,
    bucket: u64,
)
    requires
        s.consumed_intents.contains(a.intent_commitment),
    ensures
        settlement_checked(a, s, max_drift, bucket) is Err,
{
}

/// What a vault accepts, in terms of the authorization, the transaction and the
/// policy themselves: every field is there, the certificate is whole, the nonce
/// is new, the time is right, the bytes are those committed to, and the shape
/// is within the policy. Nothing else is asked.
pub proof fn lemma_vault_accepts_exactly(
    a: AuthorizationModel,
    psbt: PsbtFacts,
    policy: SettlementPolicy,
    seen: Set<Seq<char>>,
    bucket: u64,
)
    ensures
        vault_verdict(a, psbt, policy, seen, bucket) is Ok <==> {
            &&& a.intent_commitment.len() > 0
            &&& a.command_hash.len() > 0
            &&& a.psbt_commitment.len() > 0
            &&& a.policy_hash.len() > 0
            &&& a.nonce.len() > 0
            &&& a.quorum_certificate.previous_state_root.len() > 0
            &&& a.quorum_certificate.resulting_state_root.len() > 0
            &&& a.quorum_certificate.command_hash.len() > 0
            &&& a.quorum_certificate.signatures.len() > 0
            &&& a.quorum_certificate.signer_bitmap.len() > 0
            &&& signers_marked(a.quorum_certificate.signer_bitmap)
                == a.quorum_certificate.signatures.len()
            &&& a.quorum_certificate.cluster_id.len() > 0
            &&& !seen.contains(a.nonce)
            &&& bucket < a.expires_at_bucket
            &&& a.quorum_certificate.epoch - a.epoch <= policy.max_epoch_drift
            &&& a.epoch - a.quorum_certificate.epoch <= policy.max_epoch_drift
            &&& hex_text(sha256_digest(psbt.bytes)) == a.psbt_commitment
            &&& psbt.inputs >= 1
            &&& 1 <= psbt.outputs
            &&& psbt.outputs <= policy.max_outputs
            &&& psbt.total_output_sats > 0
        },
{
}

/// A vault says why: with everything else in order, each fault gets its own
/// answer.
pub proof fn lemma_vault_names_the_fault(
    a: AuthorizationModel,
    psbt: PsbtFacts,
    policy: SettlementPolicy,
    seen: Set<Seq<char>>,
    bucket: u64,
)
    requires
        authorization_checked(a) is Ok,
        a.quorum_certificate.cluster_id.len() > 0,
    ensures
        ({
            let r = vault_verdict(a, psbt, policy, seen, bucket);
            let drifted = a.quorum_certificate.epoch - a.epoch > policy.max_epoch_drift || a.epoch
                - a.quorum_certificate.epoch > policy.max_epoch_drift;
            let fresh = !seen.contains(a.nonce);
            let timely = bucket < a.expires_at_bucket;
            &&& !fresh ==> r == Err::<(), VaultErrorModel>(VaultErrorModel::NonceReused(a.nonce))
            &&& fresh && !timely ==> r == Err::<(), VaultErrorModel>(
                VaultErrorModel::AuthorizationExpired {
                    expires_at: a.expires_at_bucket,
                    now: bucket,
                },
            )
            &&& fresh && timely && drifted ==> r == Err::<(), VaultErrorModel>(
                VaultErrorModel::EpochExpired {
                    auth_epoch: a.epoch,
                    max_drift: policy.max_epoch_drift,
                },
            )
            &&& fresh && timely && !drifted && hex_text(sha256_digest(psbt.bytes))
                != a.psbt_commitment ==> r == Err::<(), VaultErrorModel>(
                VaultErrorModel::PsbtMismatch {
                    expected_hash: a.psbt_commitment,
                    actual_hash: hex_text(sha256_digest(psbt.bytes)),
                },
            )
        }),
{
}

/// The ledger accepts an authorization exactly when it is whole, its intent is
/// open, its epoch is near, its time has not run out, and its certificate is
/// of this cluster and of its own epoch.
pub proof fn lemma_settlements_accepted_exactly(
    a: AuthorizationModel,
    s: LedgerModel,
    max_drift: u64,
    bucket: u64,
)
    ensures
        settlement_checked(a, s, max_drift, bucket) is Ok <==> {
            &&& a.intent_commitment.len() > 0
            &&& a.command_hash.len() > 0
            &&& a.psbt_commitment.len() > 0
            &&& a.policy_hash.len() > 0
            &&& a.nonce.len() > 0
            &&& a.quorum_certificate.previous_state_root.len() > 0
            &&& a.quorum_certificate.resulting_state_root.len() > 0
            &&& a.quorum_certificate.command_hash.len() > 0
            &&& a.quorum_certificate.signatures.len() > 0
            &&& a.quorum_certificate.signer_bitmap.len() > 0
            &&& signers_marked(a.quorum_certificate.signer_bitmap)
                == a.quorum_certificate.signatures.len()
            &&& !s.consumed_intents.contains(a.intent_commitment)
            &&& s.version - a.epoch <= max_drift
            &&& a.epoch - s.version <= max_drift
            &&& bucket < a.expires_at_bucket
            &&& a.quorum_certificate.cluster_id == s.membership.cluster_id
            &&& a.quorum_certificate.epoch == a.epoch
        },
{
}

/// A policy is valid exactly when every bound is positive and some destination
/// is allowed.
pub proof fn lemma_policies_valid_exactly(p: SettlementPolicy)
    ensures
        policy_checked(p) is Ok <==> {
            &&& p.max_fee_sats > 0
            &&& p.min_confirmations > 0
            &&& p.allowed_destination_types@.len() > 0
            &&& p.max_outputs > 0
            &&& p.max_epoch_drift > 0
            &&& p.authorization_ttl_buckets > 0
        },
{
}

/// A commitment fits a policy exactly when it has a hash and no more outputs
/// than allowed; a reservation fits an authorization exactly when it is open
/// and made for the same intent; epochs fit exactly when they are near.
pub proof fn lemma_settlement_parts_accepted_exactly(
    hash: Seq<char>,
    outputs: u32,
    max_outputs: u32,
    a: AuthorizationModel,
    r: ReservationModel,
    epoch: u64,
    current: u64,
    max_drift: u64,
    c: CertificateModel,
    cluster_id: Seq<char>,
)
    ensures
        commitment_checked(hash, outputs, max_outputs) is Ok <==> hash.len() > 0 && outputs
            <= max_outputs,
        reservation_matched(a, r) is Ok <==> (r.state is Prepared || r.state is Committed)
            && a.intent_commitment == r.authorization_commitment,
        epoch_checked(epoch, current, max_drift) is Ok <==> epoch - current <= max_drift && current
            - epoch <= max_drift,
        epoch_checked(epoch, current, max_drift) == epoch_checked(current, epoch, max_drift),
        cluster_checked(c, cluster_id) is Ok <==> c.cluster_id == cluster_id && certificate_checked(
            c,
        ) is Ok,
{
}

/// The ledger says why it refuses an authorization that is whole: an intent
/// that was consumed, an epoch too far off, a time that has run out, a
/// certificate of another cluster or of another epoch.
pub proof fn lemma_settlements_name_the_fault(
    a: AuthorizationModel,
    s: LedgerModel,
    max_drift: u64,
    bucket: u64,
)
    requires
        authorization_checked(a) is Ok,
    ensures
        ({
            let r = settlement_checked(a, s, max_drift, bucket);
            let open = !s.consumed_intents.contains(a.intent_commitment);
            let near = a.epoch <= s.version + max_drift && s.version <= a.epoch + max_drift;
            let timely = bucket < a.expires_at_bucket;
            let own = a.quorum_certificate.cluster_id == s.membership.cluster_id;
            &&& !open ==> r is Err && r->Err_0 is AuthorizationInvalid
            &&& open && !near ==> r is Err && r->Err_0 is InvalidStateTransition
            &&& open && near && !timely ==> r is Err && r->Err_0 == (
            ErrorModel::AuthorizationExpired { expires_at: a.expires_at_bucket, now: bucket })
            &&& open && near && timely && !own ==> r is Err && r->Err_0 is AuthorizationInvalid
            &&& open && near && timely && own && a.quorum_certificate.epoch != a.epoch ==> r is Err
                && r->Err_0 is AuthorizationInvalid
        }),
{
}

/// What a vault's message tells, in this order: each value that the refusal
/// carries.
pub proof fn lemma_vault_messages_tell_the_values(a: u64, b: u64, s: Seq<char>, t: Seq<char>)
    ensures
        vault_error_text(VaultErrorModel::EpochExpired { auth_epoch: a, max_drift: b })
            == "epoch expired: auth_epoch "@ + decimal(a as nat) + ", max_drift "@ + decimal(
            b as nat,
        ),
        vault_error_text(VaultErrorModel::PsbtMismatch { expected_hash: s, actual_hash: t })
            == "PSBT hash mismatch: expected "@ + s + ", actual "@ + t,
        vault_error_text(VaultErrorModel::AuthorizationExpired { expires_at: a, now: b })
            == "authorization expired at "@ + decimal(a as nat) + ", current time "@ + decimal(
            b as nat,
        ),
        vault_error_text(VaultErrorModel::NonceReused(s)) == "nonce reused: "@ + s,
{
}

} // verus!
