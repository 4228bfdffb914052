use kerosene_node::identity_core::{
    generate_secret, load_or_create, parse_secret, public_key_of, root_key_of, DiscoveryPlane, IdentityError,
    KeyFile, NodeIdentity, PeerHelloV1,
};
use sha2::{Digest, Sha256};

fn member_id(network_id: &str, public_key: &[u8; 32]) -> String {
    let mut hasher = Sha256::new();
    hasher.update(network_id.as_bytes());
    hasher.update(public_key);
    hex::encode(hasher.finalize())
}

fn identity_of(network_id: &str, plane: DiscoveryPlane, secret: [u8; 32]) -> NodeIdentity {
    let id = member_id(network_id, &public_key_of(&secret));
    NodeIdentity::from_secret(network_id, plane, secret, &id)
}

/// The bytes of a hello that its signature covers.
fn signing_bytes(hello: &PeerHelloV1) -> Vec<u8> {
    format!(
        "{}\n{}\n{:?}\n{}\n{}\n{}\n{}\n{}",
        hello.contract_version,
        hello.network_id,
        hello.plane,
        hello.member_id,
        hello.root_public_key,
        hello.challenge,
        hello.issued_at_epoch_ms,
        hello.endpoint,
    )
    .into_bytes()
}

fn verified(hello: &PeerHelloV1) -> Result<(), IdentityError> {
    let key: [u8; 32] = hex::decode(&hello.root_public_key).unwrap().try_into().unwrap();
    let id = member_id(&hello.network_id, &key);
    NodeIdentity::verify_hello_signature(hello, &id, &signing_bytes(hello))
}

#[test]
fn identity_persists_and_does_not_change_across_restart() {
    let fresh = generate_secret();
    let loaded = load_or_create(KeyFile::Missing, fresh).unwrap();
    assert!(loaded.created);
    let first = identity_of("network-a", DiscoveryPlane::Bank, loaded.secret);

    let file = KeyFile::Contents(first.key_file_text());
    let again = load_or_create(file, generate_secret()).unwrap();
    assert!(!again.created);
    let second = identity_of("network-a", DiscoveryPlane::Bank, again.secret);
    assert_eq!(first.member_id(), second.member_id());
}

#[test]
fn hello_binds_challenge_endpoint_plane_and_network() {
    let identity = identity_of("network-a", DiscoveryPlane::Vault, [9; 32]);
    let hello = identity.hello(
        "v1",
        &"a".repeat(64),
        &format!("https://{}.onion", "b".repeat(56)),
        42,
    );
    let message = signing_bytes(&hello);
    let hello = identity.sign_hello(hello, &message);
    verified(&hello).unwrap();

    let mut spoofed = hello.clone();
    spoofed.endpoint = format!("https://{}.onion", "c".repeat(56));
    assert!(matches!(verified(&spoofed), Err(IdentityError::InvalidSignature)));
}

#[test]
fn a_hello_under_another_name_is_refused() {
    let identity = identity_of("network-a", DiscoveryPlane::Vault, [9; 32]);
    let mut hello = identity.hello("v1", "challenge", "endpoint", 42);
    hello.member_id = "someone-else".to_string();
    let message = signing_bytes(&hello);
    let hello = identity.sign_hello(hello, &message);
    assert!(matches!(verified(&hello), Err(IdentityError::MemberIdMismatch)));
}

#[test]
fn malformed_keys_and_signatures_are_refused() {
    let identity = identity_of("network-a", DiscoveryPlane::Vault, [9; 32]);
    let hello = identity.hello("v1", "challenge", "endpoint", 42);
    let message = signing_bytes(&hello);
    let hello = identity.sign_hello(hello, &message);
    let mut other = hello.clone();
    other.root_public_key = "abcd".to_string();
    assert!(matches!(
        NodeIdentity::verify_hello_signature(&other, &hello.member_id, &message),
        Err(IdentityError::InvalidPublicKey)
    ));
    let mut other = hello.clone();
    other.signature = "abcd".to_string();
    assert!(matches!(
        NodeIdentity::verify_hello_signature(&other, &hello.member_id, &message),
        Err(IdentityError::InvalidSignature)
    ));
}

#[test]
fn the_public_key_of_a_known_secret() {
    // The first test vector of RFC 8032.
    let secret = parse_secret("9d61b19deffd5a60ba844af492ec2cc44449c5697b326919703bac031cae7f60\n")
        .unwrap();
    assert_eq!(
        hex::encode(public_key_of(&secret)),
        "d75a980182b10ab7d54bfed3c964073a0ee172f3daa62325af021a68f707511a"
    );
    let identity = identity_of("network-a", DiscoveryPlane::Bank, secret);
    let hello = identity.sign_hello(identity.hello("v1", "c", "e", 1), b"");
    assert_eq!(
        hello.signature,
        "e5564300c360ac729086e2cc806e828a84877f1eb8e5d974d873e065224901555fb8821590a33bacc61e39701cf9b46bd25bf5f0595bbe24655141438e7a100b"
    );
    assert_eq!(identity.root_public_key_hex(), hex::encode(public_key_of(&secret)));
    assert_eq!(identity.network_id(), "network-a");
    assert_eq!(identity.plane(), DiscoveryPlane::Bank);
}

#[test]
fn a_spoiled_key_file_is_an_error() {
    for text in ["", "zz", "abcd"] {
        let result = load_or_create(KeyFile::Contents(text.to_string()), [1; 32]);
        assert!(matches!(result, Err(IdentityError::InvalidSecret)));
    }
    let result = load_or_create(KeyFile::Failed("permission denied".to_string()), [1; 32]);
    match result {
        Err(e) => assert!(e.message().contains("permission denied")),
        Ok(_) => panic!("a file that cannot be read has no secret"),
    }
}

#[test]
fn fresh_secrets_differ() {
    assert_ne!(generate_secret(), generate_secret());
}

#[test]
fn a_hello_carries_its_root_key() {
    let identity = identity_of("network-a", DiscoveryPlane::Vault, [9; 32]);
    let mut hello = identity.hello("v1", "challenge", "endpoint", 42);
    assert_eq!(root_key_of(&hello), Some(public_key_of(&[9; 32])));
    hello.root_public_key = "aabb".to_string();
    assert_eq!(root_key_of(&hello), None);
    hello.root_public_key = "not hexadecimal".to_string();
    assert_eq!(root_key_of(&hello), None);
}
