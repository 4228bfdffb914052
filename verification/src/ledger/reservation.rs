//! Two-phase reservations of funds.

use vstd::prelude::*;

verus! {

/// States in the two-phase reservation life cycle.
#[derive(Debug, Clone, Copy, PartialEq, Eq, Hash, Structural)]
pub enum ReservationState {
    /// Funds are earmarked but not committed.
    Prepared,
    /// Committed by quorum.
    Committed,
    /// External settlement succeeded.
    Consumed,
    /// External settlement failed or was aborted.
    Released,
    /// The time window elapsed.
    Expired,
}

/// The name of a state.
pub open spec fn reservation_state_name(s: ReservationState) -> Seq<char> {
    match s {
        ReservationState::Prepared => "Prepared"@,
        ReservationState::Committed => "Committed"@,
        ReservationState::Consumed => "Consumed"@,
        ReservationState::Released => "Released"@,
        ReservationState::Expired => "Expired"@,
    }
}

impl ReservationState {
    /// The name of this state.
    pub fn name(&self) -> (r: &'static str)
        ensures
            r@ == reservation_state_name(*self),
    {
        match self {
            ReservationState::Prepared => "Prepared",
            ReservationState::Committed => "Committed",
            ReservationState::Consumed => "Consumed",
            ReservationState::Released => "Released",
            ReservationState::Expired => "Expired",
        }
    }
}

/// A two-phase reservation for withdrawals and settlements.
#[derive(Debug, PartialEq, Eq)]
pub struct Reservation {
    /// Unique identifier of this reservation.
    pub reservation_id: String,
    /// The account against which the reservation is held.
    pub account_id: String,
    /// Amount in satoshis reserved.
    pub amount_sats: u64,
    /// Current state in the life cycle.
    pub state: ReservationState,
    /// Time bucket when the reservation was created.
    pub created_at_bucket: u64,
    /// Time bucket from which the reservation is expired.
    pub expires_at_bucket: u64,
    /// Sequence number of the journal entry that committed it.
    pub committed_sequence: u64,
    /// Authorization commitment (e.g. multi-signature approval hash).
    pub authorization_commitment: String,
}

/// A reservation with its texts as sequences of characters.
pub struct ReservationModel {
    pub reservation_id: Seq<char>,
    pub account_id: Seq<char>,
    pub amount_sats: u64,
    pub state: ReservationState,
    pub created_at_bucket: u64,
    pub expires_at_bucket: u64,
    pub committed_sequence: u64,
    pub authorization_commitment: Seq<char>,
}

impl View for Reservation {
    type V = ReservationModel;

    open spec fn view(&self) -> ReservationModel {
        ReservationModel {
            reservation_id: self.reservation_id@,
            account_id: self.account_id@,
            amount_sats: self.amount_sats,
            state: self.state,
            created_at_bucket: self.created_at_bucket,
            expires_at_bucket: self.expires_at_bucket,
            committed_sequence: self.committed_sequence,
            authorization_commitment: self.authorization_commitment@,
        }
    }
}

/// What a sequence of reservations stands for.
pub open spec fn reservation_models(s: Seq<Reservation>) -> Seq<ReservationModel> {
    Seq::new(s.len(), |i: int| s[i]@)
}

impl Clone for Reservation {
    fn clone(&self) -> (r: Self)
        ensures
            r == *self,
    {
        Reservation {
            reservation_id: self.reservation_id.clone(),
            account_id: self.account_id.clone(),
            amount_sats: self.amount_sats,
            state: self.state,
            created_at_bucket: self.created_at_bucket,
            expires_at_bucket: self.expires_at_bucket,
            committed_sequence: self.committed_sequence,
            authorization_commitment: self.authorization_commitment.clone(),
        }
    }
}

/// Whether no further transition is meaningful.
pub open spec fn reservation_terminal(s: ReservationState) -> bool {
    s == ReservationState::Consumed || s == ReservationState::Released || s
        == ReservationState::Expired
}

/// Whether a reservation has expired at a time bucket. One that was consumed
/// never expires.
pub open spec fn reservation_expired(r: ReservationModel, bucket: u64) -> bool {
    bucket >= r.expires_at_bucket && r.state != ReservationState::Consumed
}

impl Reservation {
    /// A new reservation in the `Prepared` state.
    pub fn new(
        reservation_id: &str,
        account_id: &str,
        amount_sats: u64,
        created_at_bucket: u64,
        expires_at_bucket: u64,
        authorization_commitment: &str,
    ) -> (r: Self)
        ensures
            r@ == (ReservationModel {
                reservation_id: reservation_id@,
                account_id: account_id@,
                amount_sats,
                state: ReservationState::Prepared,
                created_at_bucket,
                expires_at_bucket,
                committed_sequence: 0,
                authorization_commitment: authorization_commitment@,
            }),
    {
        Reservation {
            reservation_id: reservation_id.to_owned(),
            account_id: account_id.to_owned(),
            amount_sats,
            state: ReservationState::Prepared,
            created_at_bucket,
            expires_at_bucket,
            committed_sequence: 0,
            authorization_commitment: authorization_commitment.to_owned(),
        }
    }

    /// Whether the reservation is consumed, released or expired.
    pub fn is_terminal(&self) -> (r: bool)
        ensures
            r == reservation_terminal(self.state),
    {
        self.state == ReservationState::Consumed || self.state == ReservationState::Released
            || self.state == ReservationState::Expired
    }

    /// Whether the reservation has expired at the given bucket.
    pub fn is_expired(&self, current_bucket: u64) -> (r: bool)
        ensures
            r == reservation_expired(self@, current_bucket),
    {
        current_bucket >= self.expires_at_bucket && self.state != ReservationState::Consumed
    }
}

/// Once expired, a reservation stays expired at every later bucket.
pub proof fn lemma_expiry_is_permanent(r: ReservationModel, now: u64, later: u64)
    requires
        reservation_expired(r, now),
        now <= later,
    ensures
        reservation_expired(r, later),
{
}

/// A reservation is over when it was consumed, released or expired; it runs out
/// at its bucket unless it was consumed.
pub proof fn lemma_reservation_classes(r: ReservationModel, bucket: u64)
    ensures
        reservation_terminal(r.state) <==> r.state is Consumed || r.state is Released
            || r.state is Expired,
        !(r.state is Consumed) && bucket >= r.expires_at_bucket ==> reservation_expired(r, bucket),
        reservation_expired(r, bucket) ==> bucket >= r.expires_at_bucket && !(r.state is Consumed),
{
}

} // verus!
