use kerosene_node::ledger::account_state::AccountState;
use kerosene_node::ledger::chain::{OutPoint, UtxoEntry};
use kerosene_node::ledger::reservation::Reservation;
use kerosene_node::ledger::state_machine::{ConsensusProfile, LedgerState, MembershipView};
use kerosene_node::ledger::state_root::{compute_accounts_root, compute_intents_root, compute_membership_hash, compute_reservations_root, compute_state_root};

fn empty_state() -> LedgerState {
    LedgerState::empty(MembershipView::single_node("cluster-1", "node-1"))
}

#[test]
fn empty_state_has_deterministic_root() {
    let root1 = compute_state_root(&empty_state());
    let root2 = compute_state_root(&empty_state());
    assert_eq!(root1, root2, "empty state root must be deterministic");
    assert_eq!(root1.len(), 64, "SHA-256 hex should be 64 chars");
}

#[test]
fn adding_accounts_changes_root() {
    let root1 = compute_state_root(&empty_state());

    let mut state = empty_state();
    state.accounts.push(AccountState::new("alice"));
    let root2 = compute_state_root(&state);

    assert_ne!(root1, root2, "adding an account must change the state root");
}

#[test]
fn same_operations_produce_same_root_across_instances() {
    fn build_state() -> LedgerState {
        let mut state = empty_state();
        let mut alice = AccountState::new("alice");
        alice.apply_credit(100).unwrap();
        state.accounts.push(alice);

        let mut bob = AccountState::new("bob");
        bob.apply_credit(200).unwrap();
        state.accounts.push(bob);

        state.version = 2;
        state
    }

    let root1 = compute_state_root(&build_state());
    let root2 = compute_state_root(&build_state());
    assert_eq!(root1, root2);
}

#[test]
fn account_order_does_not_affect_root() {
    let mut state1 = empty_state();
    state1.accounts.push(AccountState::new("bob"));
    state1.accounts.push(AccountState::new("alice"));

    let mut state2 = empty_state();
    state2.accounts.push(AccountState::new("alice"));
    state2.accounts.push(AccountState::new("bob"));

    // Make sure account data is same regardless of insertion order
    state2.accounts[0].apply_credit(100).unwrap();
    state1.accounts[1].apply_credit(100).unwrap();

    let root1 = compute_state_root(&state1);
    let root2 = compute_state_root(&state2);
    assert_eq!(root1, root2, "account insertion order must not affect root");
}

#[test]
fn different_membership_produces_different_root() {
    let state1 = empty_state();
    let mut state2 = empty_state();
    state2.membership = MembershipView {
        cluster_id: "cluster-2".into(),
        nodes: vec!["node-2".into()],
        active_profile: ConsensusProfile::Single,
    };

    let root1 = compute_state_root(&state1);
    let root2 = compute_state_root(&state2);
    assert_ne!(root1, root2);
}

#[test]
fn accounts_root_is_deterministic() {
    let accounts = vec![
        AccountState::new("alice"),
        AccountState::new("bob"),
        AccountState::new("carol"),
    ];
    let root1 = compute_accounts_root(&accounts);
    let root2 = compute_accounts_root(&accounts);
    assert_eq!(root1, root2);
}

#[test]
fn intents_root_is_deterministic() {
    let intents = vec![
        "intent-c".to_string(),
        "intent-a".to_string(),
        "intent-b".to_string(),
    ];
    let root1 = compute_intents_root(&intents);
    let root2 = compute_intents_root(&intents);
    assert_eq!(root1, root2);
}

#[test]
fn membership_hash_is_deterministic() {
    let membership = MembershipView::single_node("cluster-1", "node-1");
    let hash1 = compute_membership_hash(&membership);
    let hash2 = compute_membership_hash(&membership);
    assert_eq!(hash1, hash2);
}

#[test]
fn different_consensus_profiles_produce_different_membership_hashes() {
    let mem1 = MembershipView::single_node("cluster-1", "node-1");
    let mut mem2 = MembershipView::single_node("cluster-1", "node-1");
    mem2.active_profile = ConsensusProfile::HaCrash;

    let hash1 = compute_membership_hash(&mem1);
    let hash2 = compute_membership_hash(&mem2);
    assert_ne!(hash1, hash2);
}

#[test]
fn different_node_ordering_produces_same_membership_hash() {
    let mem1 = MembershipView {
        cluster_id: "cluster-1".into(),
        nodes: vec!["node-a".into(), "node-b".into()],
        active_profile: ConsensusProfile::Single,
    };
    let mem2 = MembershipView {
        cluster_id: "cluster-1".into(),
        nodes: vec!["node-b".into(), "node-a".into()],
        active_profile: ConsensusProfile::Single,
    };
    assert_eq!(
        compute_membership_hash(&mem1),
        compute_membership_hash(&mem2)
    );
}

#[test]
fn roots_of_known_states() {
    assert_eq!(
        compute_state_root(&empty_state()),
        "2911d6b2bbb731a1de2b6724ddff9a2053278103636c989015904a023316e3d9"
    );
    let mut state = empty_state();
    let mut alice = AccountState::new("alice");
    alice.apply_credit(100).unwrap();
    state.accounts.push(alice);
    state.version = 1;
    state.utxos.push(UtxoEntry::new_seen(OutPoint::new("tx1", 0), 100, "addr1", 1));
    assert_eq!(
        compute_state_root(&state),
        "f0cac31c70b7a208c7cfe4536d4ef9b3c55944ca045ac3354dfcc5ef764e40b0"
    );
    assert_eq!(
        compute_accounts_root(&state.accounts),
        "7618a86dc080153602e3a670d93ed7ab53a3969b1dc6c1712cf7af0de6c06cc9"
    );
}

#[test]
fn roots_of_known_collections() {
    assert_eq!(
        compute_membership_hash(&MembershipView::single_node("cluster-1", "node-1")),
        "6f5d7a7b7c41e2fc7d3410eeb617186a85428021b3c6e09bebe42de54069ce22"
    );
    let intents = vec!["intent-b".to_string(), "intent-a".to_string()];
    assert_eq!(
        compute_intents_root(&intents),
        "91678f3fd53bdef4c843059b5629e8b348d27dc705a5906514d2bbabe310c9b6"
    );
    let reservations = vec![Reservation::new("res-1", "account-1", 1000, 10, 20, "auth-1")];
    assert_eq!(
        compute_reservations_root(&reservations),
        "2b39c4dee458552c8c7a5c8a440e22431d0654dea9b296f33c8ca29f459e9265"
    );
}

#[test]
fn accounts_are_hashed_by_ascending_identifier() {
    let root = "d7a67b8b02cbe304f245f939c3eb7ce40759fc145d5dad926657f8a4571bafbe";
    let ascending = vec![AccountState::new("alice"), AccountState::new("bob")];
    let descending = vec![AccountState::new("bob"), AccountState::new("alice")];
    assert_eq!(compute_accounts_root(&ascending), root);
    assert_eq!(compute_accounts_root(&descending), root);
}

#[test]
fn texts_of_a_reservation_do_not_run_together() {
    let one = vec![Reservation::new("res-1", "account-1", 1000, 10, 20, "auth-1")];
    let other = vec![Reservation::new("1res-1", "account-", 1000, 10, 20, "auth-1")];
    assert_ne!(compute_reservations_root(&one), compute_reservations_root(&other));
}
