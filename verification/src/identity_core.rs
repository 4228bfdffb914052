//! The identity of a node: an Ed25519 key bound to a network and a plane.

use crate::digest::{ed25519_accepts_key, ed25519_public, ed25519_public_key, ed25519_sign,
    ed25519_signature, ed25519_signature_valid, ed25519_key_accepted, ed25519_verify, hex_bytes,
    hex_decode, hex_encode, hex_text, hex_value, is_hex, lemma_hex_round_trip, random_32,
    to_array_32, to_array_64, wipe};
use crate::text::{lemma_trim_line, str_eq, trim, trimmed};
use vstd::prelude::*;

verus! {

/// The planes of the network.
#[derive(Debug, Clone, Copy, PartialEq, Eq, Structural)]
pub enum DiscoveryPlane {
    Bank,
    Vault,
}

/// How a node introduces itself to a peer.
#[derive(Debug, PartialEq, Eq)]
pub struct PeerHelloV1 {
    /// Version of the discovery contract.
    pub contract_version: String,
    /// Network of the node.
    pub network_id: String,
    /// Plane of the node.
    pub plane: DiscoveryPlane,
    /// Identifier of the node, bound to its network and key.
    pub member_id: String,
    /// Public key of the node in hexadecimal.
    pub root_public_key: String,
    /// The challenge that is answered.
    pub challenge: String,
    /// When the hello was issued, in milliseconds.
    pub issued_at_epoch_ms: u64,
    /// Where the node is reached.
    pub endpoint: String,
    /// Signature in hexadecimal.
    pub signature: String,
}

impl Clone for PeerHelloV1 {
    fn clone(&self) -> (r: Self)
        ensures
            r == *self,
    {
        PeerHelloV1 {
            contract_version: self.contract_version.clone(),
            network_id: self.network_id.clone(),
            plane: self.plane,
            member_id: self.member_id.clone(),
            root_public_key: self.root_public_key.clone(),
            challenge: self.challenge.clone(),
            issued_at_epoch_ms: self.issued_at_epoch_ms,
            endpoint: self.endpoint.clone(),
            signature: self.signature.clone(),
        }
    }
}

/// A hello with its texts as sequences of characters.
pub struct HelloModel {
    pub contract_version: Seq<char>,
    pub network_id: Seq<char>,
    pub plane: DiscoveryPlane,
    pub member_id: Seq<char>,
    pub root_public_key: Seq<char>,
    pub challenge: Seq<char>,
    pub issued_at_epoch_ms: u64,
    pub endpoint: Seq<char>,
    pub signature: Seq<char>,
}

impl View for PeerHelloV1 {
    type V = HelloModel;

    open spec fn view(&self) -> HelloModel {
        HelloModel {
            contract_version: self.contract_version@,
            network_id: self.network_id@,
            plane: self.plane,
            member_id: self.member_id@,
            root_public_key: self.root_public_key@,
            challenge: self.challenge@,
            issued_at_epoch_ms: self.issued_at_epoch_ms,
            endpoint: self.endpoint@,
            signature: self.signature@,
        }
    }
}

/// What is wrong with an identity.
#[derive(Debug)]
pub enum IdentityError {
    Io(String),
    InvalidSecret,
    InvalidPublicKey,
    InvalidSignature,
    MemberIdMismatch,
}

/// An identity error with its text as a sequence of characters.
pub enum IdentityErrorModel {
    Io(Seq<char>),
    InvalidSecret,
    InvalidPublicKey,
    InvalidSignature,
    MemberIdMismatch,
}

impl View for IdentityError {
    type V = IdentityErrorModel;

    open spec fn view(&self) -> IdentityErrorModel {
        match *self {
            IdentityError::Io(m) => IdentityErrorModel::Io(m@),
            IdentityError::InvalidSecret => IdentityErrorModel::InvalidSecret,
            IdentityError::InvalidPublicKey => IdentityErrorModel::InvalidPublicKey,
            IdentityError::InvalidSignature => IdentityErrorModel::InvalidSignature,
            IdentityError::MemberIdMismatch => IdentityErrorModel::MemberIdMismatch,
        }
    }
}

/// The message of an identity error.
pub open spec fn identity_error_text(e: IdentityErrorModel) -> Seq<char> {
    match e {
        IdentityErrorModel::Io(m) => "identity key IO failed: "@ + m,
        IdentityErrorModel::InvalidSecret => {
            "identity key must contain exactly 32 bytes encoded as lowercase hex"@
        },
        IdentityErrorModel::InvalidPublicKey => "peer public key is invalid"@,
        IdentityErrorModel::InvalidSignature => "peer signature is invalid"@,
        IdentityErrorModel::MemberIdMismatch => {
            "peer member ID does not match its network-bound root key"@
        },
    }
}

impl IdentityError {
    /// The message of this error.
    pub fn message(&self) -> (r: String)
        ensures
            r@ == identity_error_text(self@),
    {
        match self {
            IdentityError::Io(m) => {
                let mut t = "identity key IO failed: ".to_owned();
                t.append(m.as_str());
                t
            },
            IdentityError::InvalidSecret => {
                "identity key must contain exactly 32 bytes encoded as lowercase hex".to_owned()
            },
            IdentityError::InvalidPublicKey => "peer public key is invalid".to_owned(),
            IdentityError::InvalidSignature => "peer signature is invalid".to_owned(),
            IdentityError::MemberIdMismatch => {
                "peer member ID does not match its network-bound root key".to_owned()
            },
        }
    }
}

/// The secret that the text of a key file holds.
pub open spec fn secret_of(encoded: Seq<char>) -> Result<Seq<u8>, IdentityErrorModel> {
    let text = trimmed(encoded);
    if is_hex(text) && hex_bytes(text).len() == 32 {
        Ok(hex_bytes(text))
    } else {
        Err(IdentityErrorModel::InvalidSecret)
    }
}

/// Reads the secret from the text of a key file: 32 bytes in hexadecimal, with
/// white space around them. The decoded bytes are wiped.
pub fn parse_secret(encoded: &str) -> (r: Result<[u8; 32], IdentityError>)
    ensures
        match r {
            Ok(s) => secret_of(encoded@) == Ok::<Seq<u8>, IdentityErrorModel>(s@),
            Err(e) => secret_of(encoded@) == Err::<Seq<u8>, IdentityErrorModel>(e@),
        },
{
    let text = trim(encoded);
    match hex_decode(text.as_str()) {
        None => Err(IdentityError::InvalidSecret),
        Some(decoded) => {
            let mut bytes = decoded;
            let secret = to_array_32(&bytes);
            wipe(&mut bytes);
            match secret {
                Some(s) => Ok(s),
                None => Err(IdentityError::InvalidSecret),
            }
        },
    }
}

/// The text of a key file.
pub open spec fn secret_text(secret: Seq<u8>) -> Seq<char> {
    hex_text(secret).push('\n')
}

/// What a key file held.
#[derive(Debug)]
pub enum KeyFile {
    /// The text that was read.
    Contents(String),
    /// There is no such file.
    Missing,
    /// It could not be read, with the reason.
    Failed(String),
}

/// The secret to use, and whether it has to be stored.
#[derive(Debug)]
pub struct LoadedSecret {
    pub secret: [u8; 32],
    pub created: bool,
}

/// The secret that a key file gives: the stored one, or a fresh one where
/// there is no file.
pub open spec fn loaded(file: KeyFile, fresh: Seq<u8>) -> Result<
    (Seq<u8>, bool),
    IdentityErrorModel,
> {
    match file {
        KeyFile::Contents(text) => match secret_of(text@) {
            Ok(s) => Ok((s, false)),
            Err(e) => Err(e),
        },
        KeyFile::Missing => Ok((fresh, true)),
        KeyFile::Failed(m) => Err(IdentityErrorModel::Io(m@)),
    }
}

/// Takes the secret of a key file, or a fresh one where there is no file.
pub fn load_or_create(file: KeyFile, fresh: [u8; 32]) -> (r: Result<LoadedSecret, IdentityError>)
    ensures
        match r {
            Ok(l) => loaded(file, fresh@) == Ok::<(Seq<u8>, bool), IdentityErrorModel>(
                (l.secret@, l.created),
            ),
            Err(e) => loaded(file, fresh@) == Err::<(Seq<u8>, bool), IdentityErrorModel>(e@),
        },
{
    match file {
        KeyFile::Contents(text) => match parse_secret(text.as_str()) {
            Ok(secret) => Ok(LoadedSecret { secret, created: false }),
            Err(e) => Err(e),
        },
        KeyFile::Missing => Ok(LoadedSecret { secret: fresh, created: true }),
        KeyFile::Failed(m) => Err(IdentityError::Io(m)),
    }
}

/// Draws a fresh secret. Nothing is promised of it.
pub fn generate_secret() -> (r: [u8; 32]) {
    random_32()
}

/// The root key that a hello carries, if it is one of 32 bytes.
pub fn root_key_of(hello: &PeerHelloV1) -> (r: Option<[u8; 32]>)
    ensures
        match r {
            Some(k) => is_hex(hello.root_public_key@) && k@ == hex_bytes(hello.root_public_key@),
            None => !is_hex(hello.root_public_key@) || hex_bytes(hello.root_public_key@).len()
                != 32,
        },
{
    match hex_decode(hello.root_public_key.as_str()) {
        Some(bytes) => to_array_32(&bytes),
        None => None,
    }
}

/// The public key of a secret.
pub fn public_key_of(secret: &[u8; 32]) -> (r: [u8; 32])
    ensures
        r@ == ed25519_public(secret@),
{
    ed25519_public_key(secret)
}

/// The identity of a node.
pub struct NodeIdentity {
    network_id: String,
    plane: DiscoveryPlane,
    secret: [u8; 32],
    member_id: String,
}

/// An identity as a mathematical value.
pub struct IdentityModel {
    pub network_id: Seq<char>,
    pub plane: DiscoveryPlane,
    pub secret: Seq<u8>,
    pub member_id: Seq<char>,
}

impl View for NodeIdentity {
    type V = IdentityModel;

    closed spec fn view(&self) -> IdentityModel {
        IdentityModel {
            network_id: self.network_id@,
            plane: self.plane,
            secret: self.secret@,
            member_id: self.member_id@,
        }
    }
}

/// Whether a secret has a public key that is accepted as one.
pub open spec fn has_public_key(secret: Seq<u8>) -> bool {
    ed25519_public(secret).len() == 32 && ed25519_key_accepted(ed25519_public(secret))
}

/// The hello of an identity before it is signed.
pub open spec fn unsigned(
    id: IdentityModel,
    contract_version: Seq<char>,
    challenge: Seq<char>,
    endpoint: Seq<char>,
    issued_at_epoch_ms: u64,
) -> HelloModel {
    HelloModel {
        contract_version,
        network_id: id.network_id,
        plane: id.plane,
        member_id: id.member_id,
        root_public_key: hex_text(ed25519_public(id.secret)),
        challenge,
        issued_at_epoch_ms,
        endpoint,
        signature: ""@,
    }
}

/// The verdict on the signature of a hello, given the identifier that its
/// network and key are bound to and the message that is signed.
pub open spec fn hello_checked(h: HelloModel, member_id: Seq<char>, message: Seq<u8>) -> Result<
    (),
    IdentityErrorModel,
> {
    let key = hex_bytes(h.root_public_key);
    let signature = hex_bytes(h.signature);
    if !(is_hex(h.root_public_key) && key.len() == 32 && ed25519_key_accepted(key)) {
        Err(IdentityErrorModel::InvalidPublicKey)
    } else if member_id != h.member_id {
        Err(IdentityErrorModel::MemberIdMismatch)
    } else if !(is_hex(h.signature) && signature.len() == 64 && ed25519_signature_valid(
        key,
        message,
        signature,
    )) {
        Err(IdentityErrorModel::InvalidSignature)
    } else {
        Ok(())
    }
}

/// The result of a check with its text as a sequence of characters.
pub open spec fn identity_outcome(r: Result<(), IdentityError>) -> Result<(), IdentityErrorModel> {
    match r {
        Ok(v) => Ok(v),
        Err(e) => Err(e@),
    }
}

impl NodeIdentity {
    /// The identity of a secret. `member_id` is the identifier that the
    /// network and the public key are bound to.
    pub fn from_secret(network_id: &str, plane: DiscoveryPlane, secret: [u8; 32], member_id: &str) -> (r:
        Self)
        ensures
            r@ == (IdentityModel {
                network_id: network_id@,
                plane,
                secret: secret@,
                member_id: member_id@,
            }),
    {
        NodeIdentity {
            network_id: network_id.to_owned(),
            plane,
            secret,
            member_id: member_id.to_owned(),
        }
    }

    /// The identifier of the node.
    pub fn member_id(&self) -> (r: &str)
        ensures
            r@ == self@.member_id,
    {
        self.member_id.as_str()
    }

    /// The public key of the node in hexadecimal.
    pub fn root_public_key_hex(&self) -> (r: String)
        ensures
            r@ == hex_text(ed25519_public(self@.secret)),
            has_public_key(self@.secret),
    {
        let key = ed25519_public_key(&self.secret);
        hex_encode(key.as_slice())
    }

    /// The network of the node.
    pub fn network_id(&self) -> (r: &str)
        ensures
            r@ == self@.network_id,
    {
        self.network_id.as_str()
    }

    /// The plane of the node.
    pub fn plane(&self) -> (r: DiscoveryPlane)
        ensures
            r == self@.plane,
    {
        self.plane
    }

    /// The text to store in a key file.
    pub fn key_file_text(&self) -> (r: String)
        ensures
            r@ == secret_text(self@.secret),
    {
        let mut text = hex_encode(self.secret.as_slice());
        text.append("\n");
        proof {
            reveal_strlit("\n");
            assert(text@ =~= secret_text(self@.secret));
        }
        text
    }

    /// A hello of this node, not yet signed.
    pub fn hello(
        &self,
        contract_version: &str,
        challenge: &str,
        endpoint: &str,
        issued_at_epoch_ms: u64,
    ) -> (r: PeerHelloV1)
        ensures
            r@ == unsigned(self@, contract_version@, challenge@, endpoint@, issued_at_epoch_ms),
            has_public_key(self@.secret),
    {
        PeerHelloV1 {
            contract_version: contract_version.to_owned(),
            network_id: self.network_id.clone(),
            plane: self.plane,
            member_id: self.member_id.clone(),
            root_public_key: self.root_public_key_hex(),
            challenge: challenge.to_owned(),
            issued_at_epoch_ms,
            endpoint: endpoint.to_owned(),
            signature: "".to_owned(),
        }
    }

    /// Signs a hello. `message` is its canonical encoding.
    pub fn sign_hello(&self, hello: PeerHelloV1, message: &[u8]) -> (r: PeerHelloV1)
        ensures
            r@ == (HelloModel {
                signature: hex_text(ed25519_signature(self@.secret, message@)),
                ..hello@
            }),
            has_public_key(self@.secret) && hello@.root_public_key == hex_text(
                ed25519_public(self@.secret),
            ) ==> hello_checked(r@, hello@.member_id, message@) is Ok,
    {
        let signature = ed25519_sign(&self.secret, message);
        let mut signed = hello;
        signed.signature = hex_encode(signature.as_slice());
        proof {
            lemma_hex_round_trip(signature@);
            lemma_hex_round_trip(ed25519_public(self.secret@));
        }
        signed
    }

    /// Verifies the signature of a hello. `member_id` is the identifier that
    /// its network and key are bound to, and `message` its canonical encoding.
    pub fn verify_hello_signature(hello: &PeerHelloV1, member_id: &str, message: &[u8]) -> (r:
        Result<(), IdentityError>)
        ensures
            identity_outcome(r) == hello_checked(hello@, member_id@, message@),
    {
        let public_bytes = match hex_decode(hello.root_public_key.as_str()) {
            Some(b) => b,
            None => {
                return Err(IdentityError::InvalidPublicKey);
            },
        };
        let key = match to_array_32(&public_bytes) {
            Some(k) => k,
            None => {
                return Err(IdentityError::InvalidPublicKey);
            },
        };
        if !ed25519_accepts_key(&key) {
            return Err(IdentityError::InvalidPublicKey);
        }
        if !str_eq(member_id, hello.member_id.as_str()) {
            return Err(IdentityError::MemberIdMismatch);
        }
        let signature_bytes = match hex_decode(hello.signature.as_str()) {
            Some(b) => b,
            None => {
                return Err(IdentityError::InvalidSignature);
            },
        };
        let signature = match to_array_64(&signature_bytes) {
            Some(s) => s,
            None => {
                return Err(IdentityError::InvalidSignature);
            },
        };
        if ed25519_verify(&key, message, &signature) {
            Ok(())
        } else {
            Err(IdentityError::InvalidSignature)
        }
    }
}

/// A stored identity does not change across restarts: the text of a key file
/// is read back as the secret that was written.
pub proof fn lemma_identity_persists(secret: Seq<u8>)
    requires
        secret.len() == 32,
    ensures
        secret_of(secret_text(secret)) == Ok::<Seq<u8>, IdentityErrorModel>(secret),
{
    let text = hex_text(secret);
    lemma_hex_round_trip(secret);
    assert(text.len() == 64);
    assert(hex_value(text[0]) is Some);
    assert(hex_value(text[63]) is Some);
    assert(text.last() == text[63]);
    lemma_trim_line(text);
}

/// A hello is genuine exactly when its key is one of 32 bytes that is accepted,
/// its identifier is the one that belongs to the key, and its signature is one
/// of 64 bytes over the message under that key. Each fault has its error.
pub proof fn lemma_hellos_are_genuine_exactly(h: HelloModel, member_id: Seq<char>, message: Seq<u8>)
    ensures
        ({
            let key = hex_bytes(h.root_public_key);
            let keyed = is_hex(h.root_public_key) && h.root_public_key.len() == 64
                && ed25519_key_accepted(key);
            let signed = is_hex(h.signature) && h.signature.len() == 128
                && ed25519_signature_valid(key, message, hex_bytes(h.signature));
            let r = hello_checked(h, member_id, message);
            &&& r is Ok <==> keyed && member_id == h.member_id && signed
            &&& !keyed ==> r is Err && r->Err_0 is InvalidPublicKey
            &&& keyed && member_id != h.member_id ==> r is Err && r->Err_0 is MemberIdMismatch
            &&& keyed && member_id == h.member_id && !signed ==> r is Err && r->Err_0
                is InvalidSignature
        }),
{
}

/// A key file holds a secret exactly when it is, but for the blanks around it,
/// 64 hexadecimal digits; they are the secret. A missing file makes a fresh
/// one, which is to be written, and no other does.
pub proof fn lemma_key_files_are_read_exactly(text: String, fault: String, fresh: Seq<u8>)
    ensures
        ({
            let digits = trimmed(text@);
            let r = loaded(KeyFile::Contents(text), fresh);
            &&& r is Ok <==> is_hex(digits) && digits.len() == 64
            &&& r is Ok ==> r->Ok_0 == (hex_bytes(digits), false)
            &&& r is Err ==> r->Err_0 is InvalidSecret
        }),
        loaded(KeyFile::Missing, fresh) == Ok::<(Seq<u8>, bool), IdentityErrorModel>((fresh, true)),
        loaded(KeyFile::Failed(fault), fresh) == Err::<(Seq<u8>, bool), IdentityErrorModel>(
            IdentityErrorModel::Io(fault@),
        ),
{
}

/// A hello tells whose it is and what it answers.
pub proof fn lemma_hellos_tell_the_identity(
    id: IdentityModel,
    contract_version: Seq<char>,
    challenge: Seq<char>,
    endpoint: Seq<char>,
    issued_at_epoch_ms: u64,
)
    ensures
        ({
            let h = unsigned(id, contract_version, challenge, endpoint, issued_at_epoch_ms);
            &&& h.contract_version == contract_version
            &&& h.network_id == id.network_id
            &&& h.plane == id.plane
            &&& h.member_id == id.member_id
            &&& h.challenge == challenge
            &&& h.endpoint == endpoint
            &&& h.issued_at_epoch_ms == issued_at_epoch_ms
            &&& is_hex(h.root_public_key)
            &&& hex_bytes(h.root_public_key) == ed25519_public(id.secret)
        }),
{
    lemma_hex_round_trip(ed25519_public(id.secret));
}

} // verus!
