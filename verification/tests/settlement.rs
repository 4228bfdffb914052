use kerosene_node::ledger::certificate::QuorumCertificate;
use kerosene_node::ledger::error::LedgerError;
use kerosene_node::ledger::nonce::InMemoryNonceChecker;
use kerosene_node::ledger::reservation::{Reservation, ReservationState};
use kerosene_node::ledger::settlement::{
    NonceChecker, PsbtCommitment, SettlementAuthorization, SettlementPolicy, SettlementValidator,
    VaultAuthorizationVerifier, VaultVerificationError,
};
use kerosene_node::ledger::state_machine::{LedgerState, MembershipView};

const PSBT: &[u8] = b"psbt-bytes";

fn certificate() -> QuorumCertificate {
    QuorumCertificate::single_node(
        "cluster-1", 1, 0, 42, "hash", "prev-root", "result-root", "node-1", "sig",
    )
}

fn policy() -> SettlementPolicy {
    SettlementPolicy {
        max_fee_sats: 1_000,
        min_confirmations: 1,
        allowed_destination_types: vec!["p2wpkh".to_string()],
        max_outputs: 2,
        rbf_allowed: true,
        max_epoch_drift: 3,
        authorization_ttl_buckets: 10,
    }
}

fn authorization() -> SettlementAuthorization {
    SettlementAuthorization {
        intent_commitment: "intent-1".to_string(),
        command_hash: "command".to_string(),
        psbt_commitment: PsbtCommitment::compute(PSBT),
        policy_hash: "policy".to_string(),
        epoch: 1,
        expires_at_bucket: 50,
        nonce: "nonce-1".to_string(),
        quorum_certificate: certificate(),
    }
}

fn verify(
    auth: &SettlementAuthorization,
    bytes: &[u8],
    outputs: u32,
    nonces: &InMemoryNonceChecker,
    bucket: u64,
) -> Result<(), VaultVerificationError> {
    VaultAuthorizationVerifier::verify(auth, bytes, 1, outputs, 500, &policy(), nonces, bucket)
}

#[test]
fn a_commitment_is_the_hash_of_the_bytes() {
    assert_eq!(
        PsbtCommitment::compute(PSBT),
        "5468a3666792f18e663a5928a940d8b3ec0de5279f8af586019389d929a6bb1e"
    );
    let commitment = PsbtCommitment::new(PSBT, 1, 2, 500);
    assert_eq!(commitment.psbt_hash, PsbtCommitment::compute(PSBT));
    assert_eq!(commitment.output_count, 2);
}

#[test]
fn a_vault_accepts_a_sound_authorization_once() {
    let mut nonces = InMemoryNonceChecker::new();
    let auth = authorization();
    verify(&auth, PSBT, 2, &nonces, 10).unwrap();
    nonces.mark_consumed_sync(&auth.nonce);
    assert!(matches!(
        verify(&auth, PSBT, 2, &nonces, 10),
        Err(VaultVerificationError::NonceReused(_))
    ));
}

#[test]
fn a_vault_names_what_is_wrong() {
    let nonces = InMemoryNonceChecker::new();
    let auth = authorization();
    assert_eq!(
        verify(&auth, PSBT, 2, &nonces, 50),
        Err(VaultVerificationError::AuthorizationExpired { expires_at: 50, now: 50 })
    );
    assert!(matches!(
        verify(&auth, b"other bytes", 2, &nonces, 10),
        Err(VaultVerificationError::PsbtMismatch { .. })
    ));
    assert!(verify(&auth, PSBT, 3, &nonces, 10).is_err());
    assert!(verify(&auth, PSBT, 0, &nonces, 10).is_err());
    let mut blank = authorization();
    blank.nonce = String::new();
    assert!(matches!(
        verify(&blank, PSBT, 2, &nonces, 10),
        Err(VaultVerificationError::InvalidCertificate(_))
    ));
    let mut far = authorization();
    far.epoch = 9;
    assert!(matches!(
        verify(&far, PSBT, 2, &nonces, 10),
        Err(VaultVerificationError::EpochExpired { .. })
    ));
}

#[test]
fn settlements_need_a_fresh_intent() {
    let mut state = LedgerState::empty(MembershipView::single_node("cluster-1", "node-1"));
    let auth = authorization();
    SettlementValidator::validate_settlement(&auth, &state, &policy(), 10).unwrap();
    state.consumed_intents.push("intent-1".to_string());
    assert!(SettlementValidator::validate_settlement(&auth, &state, &policy(), 10).is_err());
}

#[test]
fn policies_are_checked() {
    policy().validate().unwrap();
    let mut none = policy();
    none.max_outputs = 0;
    assert!(matches!(none.validate(), Err(LedgerError::PolicyViolation(_))));
    let ok = PsbtCommitment::new(PSBT, 1, 2, 500);
    SettlementValidator::validate_psbt_against_policy(&ok, &policy()).unwrap();
    let wide = PsbtCommitment::new(PSBT, 1, 3, 500);
    assert!(SettlementValidator::validate_psbt_against_policy(&wide, &policy()).is_err());
}

#[test]
fn epochs_may_drift_a_little() {
    SettlementValidator::validate_epoch(5, 8, 3).unwrap();
    SettlementValidator::validate_epoch(8, 5, 3).unwrap();
    assert!(SettlementValidator::validate_epoch(5, 9, 3).is_err());
    assert!(SettlementValidator::validate_epoch(u64::MAX, 0, 3).is_err());
}

#[test]
fn certificates_belong_to_a_cluster() {
    SettlementValidator::validate_quorum_certificate(&certificate(), "cluster-1").unwrap();
    assert!(SettlementValidator::validate_quorum_certificate(&certificate(), "cluster-2").is_err());
}

#[test]
fn authorizations_match_their_reservation() {
    let auth = authorization();
    let mut reservation = Reservation::new("res-1", "alice", 500, 1, 60, "intent-1");
    reservation.state = ReservationState::Committed;
    auth.verify_against_reservation(&reservation).unwrap();
    reservation.authorization_commitment = "another".to_string();
    assert!(auth.verify_against_reservation(&reservation).is_err());
    reservation.authorization_commitment = "intent-1".to_string();
    reservation.state = ReservationState::Consumed;
    let err = auth.verify_against_reservation(&reservation).unwrap_err();
    assert_eq!(
        err,
        LedgerError::AuthorizationInvalid(
            "reservation res-1 is in terminal state Consumed".to_string()
        )
    );
    assert!(auth.is_expired(50));
    assert!(!auth.is_expired(49));
}
