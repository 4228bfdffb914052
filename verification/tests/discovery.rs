use kerosene_node::discovery::{
    authenticated_count, authenticated_endpoints, check_socks_proxy, db_files, deduplicate_valid,
    handshake_urls, manifest_endpoint_records, manifest_url, mark_connected, ordered_candidates,
    record_connection, upsert_endpoint, upsert_peer, validate_onion_endpoint, ChallengeStore,
    DiscoveryError, DiscoverySource, EndpointRecord, HelloFacts, ManifestMember,
    MembershipManifestV1, PeerAuthenticator, StoredPeer,
};
use kerosene_node::identity_core::{public_key_of, DiscoveryPlane, NodeIdentity, PeerHelloV1};
use sha2::{Digest, Sha256};

const CONTRACT_VERSION: &str = "discovery-v1";

fn onion(character: char) -> String {
    format!("https://{}.onion", character.to_string().repeat(56))
}

fn member_id(network_id: &str, public_key: &[u8; 32]) -> String {
    let mut hasher = Sha256::new();
    hasher.update(network_id.as_bytes());
    hasher.update(public_key);
    hex::encode(hasher.finalize())
}

fn signing_bytes(hello: &PeerHelloV1) -> Vec<u8> {
    format!(
        "{}\n{}\n{:?}\n{}\n{}\n{}\n{}\n{}",
        hello.contract_version,
        hello.network_id,
        hello.plane,
        hello.member_id,
        hello.root_public_key,
        hello.challenge,
        hello.issued_at_epoch_ms,
        hello.endpoint,
    )
    .into_bytes()
}

/// What the contracts and the membership say of a hello, where `key` is the
/// only member.
fn facts(hello: &PeerHelloV1, key: &[u8; 32]) -> HelloFacts {
    let given: [u8; 32] = hex::decode(&hello.root_public_key).unwrap().try_into().unwrap();
    HelloFacts {
        member_id: member_id(&hello.network_id, &given),
        message: signing_bytes(hello),
        is_member: given == *key,
    }
}

fn fixture() -> (NodeIdentity, ChallengeStore, PeerAuthenticator) {
    let secret = [8; 32];
    let id = member_id("network-a", &public_key_of(&secret));
    let identity = NodeIdentity::from_secret("network-a", DiscoveryPlane::Vault, secret, &id);
    let challenges = ChallengeStore::new(10_000);
    let authenticator =
        PeerAuthenticator::new(CONTRACT_VERSION, "network-a", DiscoveryPlane::Vault, 1_000);
    (identity, challenges, authenticator)
}

fn signed(identity: &NodeIdentity, challenge: &str, endpoint: &str, now: u64) -> PeerHelloV1 {
    let hello = identity.hello(CONTRACT_VERSION, challenge, endpoint, now);
    let message = signing_bytes(&hello);
    identity.sign_hello(hello, &message)
}

#[test]
fn rejects_clearnet_local_services_and_non_v3_onions() {
    for endpoint in [
        "https://vault:7801",
        "http://vault.example.com",
        "https://127.0.0.1:7801",
        "https://short.onion",
        "https://aaaaaaaaaaaaaaaaaaaaaaaaaaaaaaaaaaaaaaaaaaaaaaaaaaaaaaa0.onion",
    ] {
        assert!(
            validate_onion_endpoint(endpoint).is_err(),
            "{endpoint} must be rejected"
        );
    }
    validate_onion_endpoint(&onion('a')).unwrap();
}

#[test]
fn hello_is_single_use_and_membership_bound() {
    let (identity, mut challenges, authenticator) = fixture();
    let key = public_key_of(&[8; 32]);
    let now = 10_000;
    let challenge = challenges.issue(now);
    let hello = signed(&identity, &challenge, &onion('b'), now);
    let authenticated = authenticator
        .authenticate(&mut challenges, &hello, &facts(&hello, &key), now)
        .unwrap();
    assert_eq!(authenticated.member_id, identity.member_id());
    assert!(matches!(
        authenticator.authenticate(&mut challenges, &hello, &facts(&hello, &key), now),
        Err(DiscoveryError::ChallengeRejected)
    ));
}

#[test]
fn spoofed_endpoint_does_not_consume_valid_challenge() {
    let (identity, mut challenges, authenticator) = fixture();
    let key = public_key_of(&[8; 32]);
    let now = 10_000;
    let challenge = challenges.issue(now);
    let hello = signed(&identity, &challenge, &onion('b'), now);
    let mut spoofed = hello.clone();
    spoofed.endpoint = onion('c');
    assert!(matches!(
        authenticator.authenticate(&mut challenges, &spoofed, &facts(&spoofed, &key), now),
        Err(DiscoveryError::Identity(_))
    ));
    authenticator
        .authenticate(&mut challenges, &hello, &facts(&hello, &key), now)
        .unwrap();
}

#[test]
fn peer_store_survives_restart_and_creates_all_required_databases() {
    let (identity, mut challenges, authenticator) = fixture();
    let key = public_key_of(&[8; 32]);
    let now = 10_000;
    let challenge = challenges.issue(now);
    let hello = signed(&identity, &challenge, &onion('d'), now);
    let peer = authenticator
        .authenticate(&mut challenges, &hello, &facts(&hello, &key), now)
        .unwrap();

    let peers = upsert_peer(Vec::new(), &peer);
    let endpoints = upsert_endpoint(Vec::new(), &peer);
    assert_eq!(endpoints.len(), 1);
    let successes =
        record_connection(Vec::new(), identity.member_id(), &onion('d'), now + 1).unwrap();
    assert_eq!(successes[0].connected_at_epoch_ms, now + 1);
    let peers = mark_connected(peers, identity.member_id(), &onion('d'), now + 1);
    assert_eq!(peers[0].last_success_epoch_ms, Some(now + 1));

    assert_eq!(authenticated_count(&peers, DiscoveryPlane::Vault), 1);
    assert_eq!(authenticated_count(&peers, DiscoveryPlane::Bank), 0);
    assert_eq!(
        db_files("/data"),
        [
            "/data/peers.db".to_string(),
            "/data/endpoints.db".to_string(),
            "/data/successful-connections.db".to_string(),
            "/data/membership-manifests.db".to_string(),
        ]
    );
}

#[test]
fn each_fault_of_a_hello_has_its_error() {
    let (identity, mut challenges, authenticator) = fixture();
    let key = public_key_of(&[8; 32]);
    let now = 10_000;
    let challenge = challenges.issue(now);
    let good = signed(&identity, &challenge, &onion('b'), now);

    let clearnet = signed(&identity, &challenge, "https://example.com", now);
    assert!(matches!(
        authenticator.authenticate(&mut challenges, &clearnet, &facts(&clearnet, &key), now),
        Err(DiscoveryError::InvalidEndpoint)
    ));
    let elsewhere =
        PeerAuthenticator::new(CONTRACT_VERSION, "network-b", DiscoveryPlane::Vault, 1_000);
    assert!(matches!(
        elsewhere.authenticate(&mut challenges, &good, &facts(&good, &key), now),
        Err(DiscoveryError::ScopeMismatch)
    ));
    assert!(matches!(
        authenticator.authenticate(&mut challenges, &good, &facts(&good, &key), now + 1_001),
        Err(DiscoveryError::ClockSkew)
    ));
    let unknown = signed(&identity, "never-issued", &onion('b'), now);
    assert!(matches!(
        authenticator.authenticate(&mut challenges, &unknown, &facts(&unknown, &key), now),
        Err(DiscoveryError::ChallengeRejected)
    ));
    assert!(matches!(
        authenticator.authenticate(&mut challenges, &good, &facts(&good, &[0; 32]), now),
        Err(DiscoveryError::NotMember)
    ));
}

#[test]
fn challenges_are_fresh_and_expire() {
    let mut challenges = ChallengeStore::new(100);
    let first = challenges.issue(1_000);
    let second = challenges.issue(1_000);
    assert_ne!(first, second);
    assert_eq!(first.len(), 64);
    challenges.consume(&first, 1_050).unwrap();
    assert!(challenges.consume(&first, 1_050).is_err());
    assert!(challenges.consume(&second, 1_200).is_err());
}

fn record(member: &str, endpoint: &str, source: DiscoverySource) -> EndpointRecord {
    EndpointRecord {
        member_id: member.to_string(),
        endpoint: endpoint.to_string(),
        source,
        observed_at_epoch_ms: 5,
    }
}

fn stored(member: &str, endpoint: &str) -> StoredPeer {
    StoredPeer {
        member_id: member.to_string(),
        plane: DiscoveryPlane::Vault,
        root_public_key: "key".to_string(),
        endpoint: endpoint.to_string(),
        authenticated_at_epoch_ms: 1,
        last_success_epoch_ms: None,
    }
}

#[test]
fn candidates_are_tried_most_trusted_first() {
    let successes = record_connection(Vec::new(), "m1", &onion('a'), 10).unwrap();
    let successes = record_connection(successes, "m2", &onion('b'), 20).unwrap();
    let peers = vec![stored("m1", &onion('a')), stored("m2", &onion('b'))];
    let manifest = MembershipManifestV1 {
        epoch: 7,
        members: vec![ManifestMember { member_id: "m3".to_string(), endpoint: onion('c') }],
    };
    let listed = manifest_endpoint_records(&manifest);
    assert_eq!(listed[0].source, DiscoverySource::CurrentManifest);
    assert_eq!(listed[0].member_id, "m3");
    let genesis = vec![record("m4", &onion('d'), DiscoverySource::Genesis)];
    let mirrors = vec![record("m1", &onion('a'), DiscoverySource::Mirror)];
    let suggestions = vec![record("m5", &onion('e'), DiscoverySource::AuthenticatedPeer)];
    let candidates = ordered_candidates(
        successes,
        &peers,
        DiscoveryPlane::Vault,
        Some(&manifest),
        &genesis,
        &mirrors,
        &suggestions,
    )
    .unwrap();
    let members: Vec<&str> = candidates.iter().map(|c| c.member_id.as_str()).collect();
    assert_eq!(members, vec!["m2", "m1", "m3", "m4", "m5"]);
}

#[test]
fn a_clearnet_candidate_spoils_the_list() {
    let records = vec![record("m1", "https://example.com", DiscoverySource::Genesis)];
    assert!(matches!(deduplicate_valid(records), Err(DiscoveryError::InvalidEndpoint)));
}

#[test]
fn a_member_is_stored_once() {
    let (identity, mut challenges, authenticator) = fixture();
    let key = public_key_of(&[8; 32]);
    let challenge = challenges.issue(10_000);
    let hello = signed(&identity, &challenge, &onion('b'), 10_000);
    let peer = authenticator
        .authenticate(&mut challenges, &hello, &facts(&hello, &key), 10_000)
        .unwrap();
    let peers = upsert_peer(upsert_peer(Vec::new(), &peer), &peer);
    assert_eq!(peers.len(), 1);
    let endpoints = authenticated_endpoints(peers, DiscoveryPlane::Vault);
    assert_eq!(endpoints.len(), 1);
    assert_eq!(endpoints[0].endpoint, onion('b'));
}

#[test]
fn handshake_addresses_hang_below_the_endpoint() {
    let urls = handshake_urls(&onion('a'), &onion('b')).unwrap();
    assert_eq!(urls.challenge, format!("{}/v1/discovery/challenge", onion('a')));
    assert_eq!(urls.hello, format!("{}/v1/discovery/hello", onion('a')));
    assert!(matches!(
        handshake_urls(&onion('a'), "https://example.com"),
        Err(DiscoveryError::InvalidEndpoint)
    ));
    assert_eq!(
        manifest_url(&onion('a')).unwrap(),
        format!("{}/v1/membership/current", onion('a'))
    );
    assert!(manifest_url("https://example.com").is_err());
    assert!(check_socks_proxy("socks5h://127.0.0.1:9050").is_ok());
    assert!(check_socks_proxy("http://127.0.0.1:9050").is_err());
}

#[test]
fn endpoints_carry_nothing_but_a_host() {
    for suffix in ["/path", "?query=1", "#fragment"] {
        let endpoint = format!("{}{}", onion('a'), suffix);
        assert!(validate_onion_endpoint(&endpoint).is_err(), "{endpoint} must be rejected");
    }
    let host = "a".repeat(56);
    let with_user = format!("https://user:pw@{}.onion", host);
    assert!(validate_onion_endpoint(&with_user).is_err());
    assert!(validate_onion_endpoint("not a url").is_err());
    // The address parser lowers the case of a host.
    let upper = format!("HTTPS://{}.ONION", "A".repeat(56));
    assert!(validate_onion_endpoint(&upper).is_ok());
}
