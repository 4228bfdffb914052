use kerosene_node::ledger::reservation::{Reservation, ReservationState};

#[test]
fn create_reservation_in_prepared_state() {
    let r = Reservation::new("res-1", "account-1", 1000, 10, 20, "auth-1");
    assert_eq!(r.reservation_id, "res-1");
    assert_eq!(r.account_id, "account-1");
    assert_eq!(r.amount_sats, 1000);
    assert_eq!(r.state, ReservationState::Prepared);
    assert_eq!(r.created_at_bucket, 10);
    assert_eq!(r.expires_at_bucket, 20);
    assert_eq!(r.committed_sequence, 0);
}

#[test]
fn terminal_state_detection() {
    let mut r = Reservation::new("res-1", "a", 100, 0, 10, "auth");
    assert!(!r.is_terminal());
    r.state = ReservationState::Committed;
    assert!(!r.is_terminal());
    r.state = ReservationState::Consumed;
    assert!(r.is_terminal());
    r.state = ReservationState::Released;
    assert!(r.is_terminal());
    r.state = ReservationState::Expired;
    assert!(r.is_terminal());
}

#[test]
fn expired_detection_consumed_not_expired() {
    let r = Reservation {
        state: ReservationState::Consumed,
        expires_at_bucket: 10,
        ..Reservation::new("r", "a", 100, 0, 10, "auth")
    };
    // Consumed reservations are never "expired" regardless of bucket
    assert!(!r.is_expired(100));
}

#[test]
fn not_expired_before_expiry() {
    let r = Reservation::new("r", "a", 100, 0, 10, "auth");
    assert!(!r.is_expired(5));
}

#[test]
fn expired_after_expiry_bucket() {
    let r = Reservation::new("r", "a", 100, 0, 10, "auth");
    assert!(r.is_expired(10));
    assert!(r.is_expired(15));
}
