//! Discovery of peers: challenges, authentication, endpoints and the peer
//! store.

use crate::digest::{ed25519_key_accepted, ed25519_signature_valid, hex_bytes, hex_encode, hex_text,
    is_hex, random_32};
use crate::identity_core::{hello_checked, identity_error_text, DiscoveryPlane, HelloModel,
    IdentityError, IdentityErrorModel, NodeIdentity, PeerHelloV1};
use crate::order::{lex_le, models, sort_ranked, stable_sorted, Ranked};
use crate::table::Table;
use crate::text::{chars_of, option_text, str_eq};
use vstd::prelude::*;

verus! {

/// The database of authenticated peers.
pub const PEERS_DB: &'static str = "peers.db";

/// The database of endpoints.
pub const ENDPOINTS_DB: &'static str = "endpoints.db";

/// The database of successful connections.
pub const SUCCESSFUL_CONNECTIONS_DB: &'static str = "successful-connections.db";

/// The database of membership manifests.
pub const MEMBERSHIP_MANIFESTS_DB: &'static str = "membership-manifests.db";

/// Why a peer or an endpoint is refused.
#[derive(Debug)]
pub enum DiscoveryError {
    InvalidEndpoint,
    ScopeMismatch,
    ClockSkew,
    ChallengeRejected,
    NotMember,
    SelfConnection,
    Identity(IdentityError),
    Io(String),
    Json(String),
    Transport(String),
}

/// A discovery error with its texts as sequences of characters.
pub enum DiscoveryErrorModel {
    InvalidEndpoint,
    ScopeMismatch,
    ClockSkew,
    ChallengeRejected,
    NotMember,
    SelfConnection,
    Identity(IdentityErrorModel),
    Io(Seq<char>),
    Json(Seq<char>),
    Transport(Seq<char>),
}

impl View for DiscoveryError {
    type V = DiscoveryErrorModel;

    open spec fn view(&self) -> DiscoveryErrorModel {
        match *self {
            DiscoveryError::InvalidEndpoint => DiscoveryErrorModel::InvalidEndpoint,
            DiscoveryError::ScopeMismatch => DiscoveryErrorModel::ScopeMismatch,
            DiscoveryError::ClockSkew => DiscoveryErrorModel::ClockSkew,
            DiscoveryError::ChallengeRejected => DiscoveryErrorModel::ChallengeRejected,
            DiscoveryError::NotMember => DiscoveryErrorModel::NotMember,
            DiscoveryError::SelfConnection => DiscoveryErrorModel::SelfConnection,
            DiscoveryError::Identity(e) => DiscoveryErrorModel::Identity(e@),
            DiscoveryError::Io(m) => DiscoveryErrorModel::Io(m@),
            DiscoveryError::Json(m) => DiscoveryErrorModel::Json(m@),
            DiscoveryError::Transport(m) => DiscoveryErrorModel::Transport(m@),
        }
    }
}

/// The message of a discovery error.
pub open spec fn discovery_error_text(e: DiscoveryErrorModel) -> Seq<char> {
    match e {
        DiscoveryErrorModel::InvalidEndpoint => "only HTTPS v3 onion endpoints are accepted"@,
        DiscoveryErrorModel::ScopeMismatch => "peer hello contract, network, or plane mismatch"@,
        DiscoveryErrorModel::ClockSkew => {
            "peer hello timestamp is outside the accepted window"@
        },
        DiscoveryErrorModel::ChallengeRejected => {
            "challenge is unknown, expired, or already consumed"@
        },
        DiscoveryErrorModel::NotMember => "peer is authenticated but is not a verified member"@,
        DiscoveryErrorModel::SelfConnection => {
            "a node cannot authenticate itself as a remote peer"@
        },
        DiscoveryErrorModel::Identity(i) => "peer identity verification failed: "@
            + identity_error_text(i),
        DiscoveryErrorModel::Io(m) => "peer-store IO failed: "@ + m,
        DiscoveryErrorModel::Json(m) => "peer-store data is invalid: "@ + m,
        DiscoveryErrorModel::Transport(m) => "Tor transport failed: "@ + m,
    }
}

/// A text behind a label.
fn labelled(label: &str, text: &str) -> (r: String)
    ensures
        r@ == label@ + text@,
{
    let mut m = label.to_owned();
    m.append(text);
    m
}

impl DiscoveryError {
    /// The message of this error.
    pub fn message(&self) -> (r: String)
        ensures
            r@ == discovery_error_text(self@),
    {
        match self {
            DiscoveryError::InvalidEndpoint => {
                "only HTTPS v3 onion endpoints are accepted".to_owned()
            },
            DiscoveryError::ScopeMismatch => {
                "peer hello contract, network, or plane mismatch".to_owned()
            },
            DiscoveryError::ClockSkew => {
                "peer hello timestamp is outside the accepted window".to_owned()
            },
            DiscoveryError::ChallengeRejected => {
                "challenge is unknown, expired, or already consumed".to_owned()
            },
            DiscoveryError::NotMember => {
                "peer is authenticated but is not a verified member".to_owned()
            },
            DiscoveryError::SelfConnection => {
                "a node cannot authenticate itself as a remote peer".to_owned()
            },
            DiscoveryError::Identity(e) => labelled(
                "peer identity verification failed: ",
                e.message().as_str(),
            ),
            DiscoveryError::Io(m) => labelled("peer-store IO failed: ", m.as_str()),
            DiscoveryError::Json(m) => labelled("peer-store data is invalid: ", m.as_str()),
            DiscoveryError::Transport(m) => labelled("Tor transport failed: ", m.as_str()),
        }
    }
}

/// The result of an operation with its error as a model.
pub open spec fn discovered<T>(r: Result<T, DiscoveryError>) -> Result<T, DiscoveryErrorModel> {
    match r {
        Ok(v) => Ok(v),
        Err(e) => Err(e@),
    }
}

/// A peer that has just been authenticated.
#[derive(Debug, PartialEq, Eq)]
pub struct AuthenticatedPeer {
    pub member_id: String,
    pub plane: DiscoveryPlane,
    pub root_public_key: String,
    pub endpoint: String,
    pub authenticated_at_epoch_ms: u64,
}

/// A peer with its texts as sequences of characters.
pub struct PeerModel {
    pub member_id: Seq<char>,
    pub plane: DiscoveryPlane,
    pub root_public_key: Seq<char>,
    pub endpoint: Seq<char>,
    pub authenticated_at_epoch_ms: u64,
}

impl View for AuthenticatedPeer {
    type V = PeerModel;

    open spec fn view(&self) -> PeerModel {
        PeerModel {
            member_id: self.member_id@,
            plane: self.plane,
            root_public_key: self.root_public_key@,
            endpoint: self.endpoint@,
            authenticated_at_epoch_ms: self.authenticated_at_epoch_ms,
        }
    }
}

/// A peer as it is stored.
#[derive(Debug, PartialEq, Eq)]
pub struct StoredPeer {
    pub member_id: String,
    pub plane: DiscoveryPlane,
    pub root_public_key: String,
    pub endpoint: String,
    pub authenticated_at_epoch_ms: u64,
    pub last_success_epoch_ms: Option<u64>,
}

/// A stored peer with its texts as sequences of characters.
pub struct StoredPeerModel {
    pub member_id: Seq<char>,
    pub plane: DiscoveryPlane,
    pub root_public_key: Seq<char>,
    pub endpoint: Seq<char>,
    pub authenticated_at_epoch_ms: u64,
    pub last_success_epoch_ms: Option<u64>,
}

impl View for StoredPeer {
    type V = StoredPeerModel;

    open spec fn view(&self) -> StoredPeerModel {
        StoredPeerModel {
            member_id: self.member_id@,
            plane: self.plane,
            root_public_key: self.root_public_key@,
            endpoint: self.endpoint@,
            authenticated_at_epoch_ms: self.authenticated_at_epoch_ms,
            last_success_epoch_ms: self.last_success_epoch_ms,
        }
    }
}

/// What a sequence of stored peers stands for.
pub open spec fn peer_models(s: Seq<StoredPeer>) -> Seq<StoredPeerModel> {
    Seq::new(s.len(), |i: int| s[i]@)
}

/// Where an endpoint is known from.
#[derive(Debug, Clone, Copy, PartialEq, Eq, Structural)]
pub enum DiscoverySource {
    PreviousConnection,
    CurrentManifest,
    Genesis,
    Mirror,
    AuthenticatedPeer,
}

/// An endpoint of a member.
#[derive(Debug, PartialEq, Eq)]
pub struct EndpointRecord {
    pub member_id: String,
    pub endpoint: String,
    pub source: DiscoverySource,
    pub observed_at_epoch_ms: u64,
}

/// An endpoint with its texts as sequences of characters.
pub struct EndpointModel {
    pub member_id: Seq<char>,
    pub endpoint: Seq<char>,
    pub source: DiscoverySource,
    pub observed_at_epoch_ms: u64,
}

impl View for EndpointRecord {
    type V = EndpointModel;

    open spec fn view(&self) -> EndpointModel {
        EndpointModel {
            member_id: self.member_id@,
            endpoint: self.endpoint@,
            source: self.source,
            observed_at_epoch_ms: self.observed_at_epoch_ms,
        }
    }
}

impl Clone for EndpointRecord {
    fn clone(&self) -> (r: Self)
        ensures
            r == *self,
    {
        EndpointRecord {
            member_id: self.member_id.clone(),
            endpoint: self.endpoint.clone(),
            source: self.source,
            observed_at_epoch_ms: self.observed_at_epoch_ms,
        }
    }
}

/// What a sequence of endpoints stands for.
pub open spec fn endpoint_models(s: Seq<EndpointRecord>) -> Seq<EndpointModel> {
    Seq::new(s.len(), |i: int| s[i]@)
}

/// A connection that succeeded.
#[derive(Debug, PartialEq, Eq)]
pub struct SuccessfulConnection {
    pub member_id: String,
    pub endpoint: String,
    pub connected_at_epoch_ms: u64,
}

/// A connection with its texts as sequences of characters.
pub struct ConnectionModel {
    pub member_id: Seq<char>,
    pub endpoint: Seq<char>,
    pub connected_at_epoch_ms: u64,
}

impl View for SuccessfulConnection {
    type V = ConnectionModel;

    open spec fn view(&self) -> ConnectionModel {
        ConnectionModel {
            member_id: self.member_id@,
            endpoint: self.endpoint@,
            connected_at_epoch_ms: self.connected_at_epoch_ms,
        }
    }
}

/// What a sequence of connections stands for.
pub open spec fn connection_models(s: Seq<SuccessfulConnection>) -> Seq<ConnectionModel> {
    Seq::new(s.len(), |i: int| s[i]@)
}

/// Challenges that were issued and not yet answered, each with the time until
/// which it is valid.
pub struct ChallengeStore {
    ttl_ms: u64,
    pending: Table<u64>,
}

/// The pending challenges that are still valid.
pub open spec fn still_valid(pending: Map<Seq<char>, u64>, now: u64) -> Map<Seq<char>, u64> {
    Map::new(|k: Seq<char>| pending.contains_key(k) && pending[k] >= now, |k: Seq<char>| pending[k])
}

/// Until when a challenge is valid.
pub open spec fn expiry(now: u64, ttl_ms: u64) -> u64 {
    if now + ttl_ms > u64::MAX {
        u64::MAX
    } else {
        (now + ttl_ms) as u64
    }
}

impl ChallengeStore {
    /// The pending challenges.
    pub closed spec fn pending(&self) -> Map<Seq<char>, u64> {
        self.pending@
    }

    /// For how long a challenge is valid, in milliseconds.
    pub closed spec fn ttl(&self) -> u64 {
        self.ttl_ms
    }

    /// Whether the store is consistent.
    pub closed spec fn valid(&self) -> bool {
        self.pending.wf()
    }

    /// An empty store. Challenges are valid for at least one millisecond.
    pub fn new(ttl_ms: u64) -> (r: Self)
        ensures
            r.valid(),
            r.ttl() == (if ttl_ms == 0 {
                1
            } else {
                ttl_ms
            }),
            r.pending() == Map::<Seq<char>, u64>::empty(),
    {
        let ttl_ms: u64 = if ttl_ms == 0 {
            1
        } else {
            ttl_ms
        };
        ChallengeStore { ttl_ms, pending: Table::new() }
    }

    /// Registers a challenge.
    pub fn register(&mut self, challenge: &str, now_epoch_ms: u64)
        requires
            old(self).valid(),
        ensures
            final(self).valid(),
            final(self).ttl() == old(self).ttl(),
            final(self).pending() == old(self).pending().insert(
                challenge@,
                expiry(now_epoch_ms, old(self).ttl()),
            ),
    {
        let until: u64 = if self.ttl_ms > u64::MAX - now_epoch_ms {
            u64::MAX
        } else {
            now_epoch_ms + self.ttl_ms
        };
        self.pending.insert(challenge.to_owned(), until);
    }

    /// Issues a random challenge: 32 bytes in hexadecimal.
    pub fn issue(&mut self, now_epoch_ms: u64) -> (r: String)
        requires
            old(self).valid(),
        ensures
            final(self).valid(),
            final(self).ttl() == old(self).ttl(),
            r@.len() == 64,
            exists|bytes: Seq<u8>| bytes.len() == 32 && r@ == #[trigger] hex_text(bytes),
            final(self).pending() == old(self).pending().insert(
                r@,
                expiry(now_epoch_ms, old(self).ttl()),
            ),
    {
        let bytes = random_32();
        let challenge = hex_encode(bytes.as_slice());
        assert(bytes@.len() == 32);
        self.register(challenge.as_str(), now_epoch_ms);
        challenge
    }

    /// Consumes a challenge: it must be pending and not expired, and is gone
    /// afterwards, as are all that have expired.
    pub fn consume(&mut self, challenge: &str, now_epoch_ms: u64) -> (r: Result<
        (),
        DiscoveryError,
    >)
        requires
            old(self).valid(),
        ensures
            final(self).valid(),
            final(self).ttl() == old(self).ttl(),
            final(self).pending() == still_valid(old(self).pending(), now_epoch_ms).remove(
                challenge@,
            ),
            discovered(r) == (if still_valid(old(self).pending(), now_epoch_ms).contains_key(
                challenge@,
            ) {
                Ok::<(), DiscoveryErrorModel>(())
            } else {
                Err::<(), DiscoveryErrorModel>(DiscoveryErrorModel::ChallengeRejected)
            }),
    {
        let ghost before = self.pending@;
        let ghost keys = self.pending.ordered();
        let mut kept: Table<u64> = Table::new();
        let mut i: usize = 0;
        let n: usize = self.pending.len();
        proof {
            self.pending.lemma_ordered();
        }
        while i < n
            invariant
                self.pending.wf(),
                before == self.pending@,
                keys == self.pending.ordered(),
                keys.to_set() == before.dom(),
                n == keys.len(),
                i <= n,
                kept.wf(),
                forall|k: Seq<char>| #[trigger]
                    kept@.contains_key(k) <==> keys.take(i as int).contains(k) && before[k]
                        >= now_epoch_ms,
                forall|k: Seq<char>| #[trigger] kept@.contains_key(k) ==> kept@[k] == before[k],
            decreases n - i,
        {
            let ghost was = kept@;
            let ghost head = keys.take(i as int);
            let ghost next = keys.take(i + 1);
            let key = self.pending.key_at(i).clone();
            let until: u64 = *self.pending.value_at(i);
            proof {
                assert(next =~= head.push(keys[i as int]));
                assert(next[i as int] == keys[i as int]);
                assert forall|k: Seq<char>| next.contains(k) <==> head.contains(k) || k
                    == keys[i as int] by {
                    if head.contains(k) {
                        let j = choose|j: int| 0 <= j < head.len() && head[j] == k;
                        assert(next[j] == k);
                    }
                    if next.contains(k) && k != keys[i as int] {
                        let j = choose|j: int| 0 <= j < next.len() && next[j] == k;
                        assert(head[j] == k);
                    }
                }
            }
            if until >= now_epoch_ms {
                kept.insert(key, until);
            }
            i += 1;
        }
        proof {
            assert(keys.take(i as int) =~= keys);
            assert forall|k: Seq<char>| before.contains_key(k) <==> keys.contains(k) by {
                assert(keys.to_set().contains(k) <==> keys.contains(k));
            }
            assert(kept@ =~= still_valid(before, now_epoch_ms));
        }
        self.pending = kept;
        match self.pending.remove(challenge) {
            Some(_) => Ok(()),
            None => Err(DiscoveryError::ChallengeRejected),
        }
    }
}

/// A challenge is answered once: right after it was consumed it is refused,
/// at that time and ever after.
pub proof fn lemma_challenges_are_single_use(
    pending: Map<Seq<char>, u64>,
    challenge: Seq<char>,
    now: u64,
    later: u64,
)
    ensures
        !still_valid(still_valid(pending, now).remove(challenge), later).contains_key(challenge),
{
}

/// A challenge that was issued is accepted until it expires, and not after.
pub proof fn lemma_challenges_expire(
    pending: Map<Seq<char>, u64>,
    challenge: Seq<char>,
    ttl_ms: u64,
    issued: u64,
    now: u64,
)
    ensures
        still_valid(pending.insert(challenge, expiry(issued, ttl_ms)), now).contains_key(challenge)
            <==> now <= expiry(issued, ttl_ms),
{
}

/// The parts of a parsed URL.
#[derive(Debug)]
pub struct UrlParts {
    pub scheme: String,
    pub username: String,
    pub password: Option<String>,
    pub host: Option<String>,
    pub path: String,
    pub query: Option<String>,
    pub fragment: Option<String>,
}

/// The parts of a URL with texts as sequences of characters.
pub struct UrlModel {
    pub scheme: Seq<char>,
    pub username: Seq<char>,
    pub password: Option<Seq<char>>,
    pub host: Option<Seq<char>>,
    pub path: Seq<char>,
    pub query: Option<Seq<char>>,
    pub fragment: Option<Seq<char>>,
}

impl View for UrlParts {
    type V = UrlModel;

    open spec fn view(&self) -> UrlModel {
        UrlModel {
            scheme: self.scheme@,
            username: self.username@,
            password: option_text(self.password),
            host: option_text(self.host),
            path: self.path@,
            query: option_text(self.query),
            fragment: option_text(self.fragment),
        }
    }
}

/// What a text is parsed into as a URL, if it is one.
pub uninterp spec fn parsed_url(text: Seq<char>) -> Option<UrlModel>;

/// Parses a URL with `url::Url::parse` and takes it apart. Whether a text is a
/// URL, and into which parts, is a function of the text alone.
#[verifier::external_body]
fn parse_url(text: &str) -> (r: Option<UrlParts>)
    ensures
        match r {
            Some(p) => parsed_url(text@) == Some(p@),
            None => parsed_url(text@) is None,
        },
{
    let u = url::Url::parse(text).ok()?;
    Some(
        UrlParts {
            scheme: u.scheme().to_owned(),
            username: u.username().to_owned(),
            password: u.password().map(str::to_owned),
            host: u.host_str().map(str::to_owned),
            path: u.path().to_owned(),
            query: u.query().map(str::to_owned),
            fragment: u.fragment().map(str::to_owned),
        },
    )
}

/// Whether a character can stand in a v3 onion service identifier.
pub open spec fn is_onion_char(c: char) -> bool {
    ('a' <= c && c <= 'z') || ('2' <= c && c <= '7')
}

/// Whether a host is a v3 onion service: 56 characters and `.onion`.
pub open spec fn is_onion_host(host: Seq<char>) -> bool {
    &&& host.len() == 62
    &&& forall|i: int| 0 <= i < 56 ==> is_onion_char(#[trigger] host[i])
    &&& host.skip(56) == ".onion"@
}

/// Whether a URL is the bare address of a v3 onion service over HTTPS: no
/// user, no password, no query, no fragment and no path.
pub open spec fn is_onion_url(u: UrlModel) -> bool {
    &&& u.scheme == "https"@
    &&& u.username == ""@
    &&& u.password is None
    &&& u.query is None
    &&& u.fragment is None
    &&& u.path == ""@ || u.path == "/"@
    &&& u.host is Some
    &&& is_onion_host(u.host->0)
}

/// Whether a text is a valid endpoint.
pub open spec fn is_endpoint(text: Seq<char>) -> bool {
    parsed_url(text) is Some && is_onion_url(parsed_url(text)->0)
}

/// Whether a host is a v3 onion service.
fn onion_host(host: &str) -> (r: bool)
    ensures
        r == is_onion_host(host@),
{
    let chars = chars_of(host);
    if chars.len() != 62 {
        return false;
    }
    let mut i: usize = 0;
    while i < 56
        invariant
            chars@ == host@,
            chars@.len() == 62,
            i <= 56,
            forall|j: int| 0 <= j < i ==> is_onion_char(#[trigger] host@[j]),
        decreases 56 - i,
    {
        let c: char = chars[i];
        if !(('a' <= c && c <= 'z') || ('2' <= c && c <= '7')) {
            assert(!is_onion_char(host@[i as int]));
            return false;
        }
        i += 1;
    }
    let tail = host.substring_char(56, 62);
    assert(host@.subrange(56, 62) =~= host@.skip(56));
    str_eq(tail, ".onion")
}

/// Whether a parsed URL is the bare address of a v3 onion service over HTTPS.
pub fn onion_url(parts: &UrlParts) -> (r: bool)
    ensures
        r == is_onion_url(parts@),
{
    if !str_eq(parts.scheme.as_str(), "https") || !str_eq(parts.username.as_str(), "")
        || parts.password.is_some() || parts.query.is_some() || parts.fragment.is_some() || (!str_eq(
        parts.path.as_str(),
        "",
    ) && !str_eq(parts.path.as_str(), "/")) {
        return false;
    }
    match &parts.host {
        Some(host) => onion_host(host.as_str()),
        None => false,
    }
}

/// Checks that an endpoint is the bare address of a v3 onion service over
/// HTTPS.
pub fn validate_onion_endpoint(endpoint: &str) -> (r: Result<(), DiscoveryError>)
    ensures
        discovered(r) == (if is_endpoint(endpoint@) {
            Ok::<(), DiscoveryErrorModel>(())
        } else {
            Err::<(), DiscoveryErrorModel>(DiscoveryErrorModel::InvalidEndpoint)
        }),
{
    match parse_url(endpoint) {
        None => Err(DiscoveryError::InvalidEndpoint),
        Some(parts) => {
            if onion_url(&parts) {
                Ok(())
            } else {
                Err(DiscoveryError::InvalidEndpoint)
            }
        },
    }
}

/// What is known of a hello beside the hello itself: the identifier that its
/// network and key are bound to, its canonical encoding, and whether its
/// sender is a verified member.
#[derive(Debug)]
pub struct HelloFacts {
    pub member_id: String,
    pub message: Vec<u8>,
    pub is_member: bool,
}

/// Authenticates peers of one network and plane.
pub struct PeerAuthenticator {
    contract_version: String,
    network_id: String,
    plane: DiscoveryPlane,
    max_clock_skew_ms: u64,
}

/// An authenticator as a mathematical value.
pub struct AuthenticatorModel {
    pub contract_version: Seq<char>,
    pub network_id: Seq<char>,
    pub plane: DiscoveryPlane,
    pub max_clock_skew_ms: u64,
}

impl View for PeerAuthenticator {
    type V = AuthenticatorModel;

    closed spec fn view(&self) -> AuthenticatorModel {
        AuthenticatorModel {
            contract_version: self.contract_version@,
            network_id: self.network_id@,
            plane: self.plane,
            max_clock_skew_ms: self.max_clock_skew_ms,
        }
    }
}

/// The distance between two times.
pub open spec fn time_distance(a: u64, b: u64) -> nat {
    if a >= b {
        (a - b) as nat
    } else {
        (b - a) as nat
    }
}

/// What is wrong with a hello before its challenge is looked at.
pub open spec fn hello_fault(
    a: AuthenticatorModel,
    h: HelloModel,
    member_id: Seq<char>,
    message: Seq<u8>,
    now: u64,
) -> Option<DiscoveryErrorModel> {
    if h.contract_version != a.contract_version || h.network_id != a.network_id || h.plane
        != a.plane {
        Some(DiscoveryErrorModel::ScopeMismatch)
    } else if time_distance(h.issued_at_epoch_ms, now) > a.max_clock_skew_ms {
        Some(DiscoveryErrorModel::ClockSkew)
    } else if !is_endpoint(h.endpoint) {
        Some(DiscoveryErrorModel::InvalidEndpoint)
    } else {
        match hello_checked(h, member_id, message) {
            Err(e) => Some(DiscoveryErrorModel::Identity(e)),
            Ok(_) => None,
        }
    }
}

/// The verdict on a hello, given the pending challenges. The challenge is
/// consumed exactly when nothing before it is wrong.
pub open spec fn authenticated(
    a: AuthenticatorModel,
    pending: Map<Seq<char>, u64>,
    h: HelloModel,
    member_id: Seq<char>,
    message: Seq<u8>,
    is_member: bool,
    now: u64,
) -> (Map<Seq<char>, u64>, Result<PeerModel, DiscoveryErrorModel>) {
    match hello_fault(a, h, member_id, message, now) {
        Some(e) => (pending, Err(e)),
        None => {
            let valid = still_valid(pending, now);
            (
                valid.remove(h.challenge),
                if !valid.contains_key(h.challenge) {
                    Err(DiscoveryErrorModel::ChallengeRejected)
                } else if !is_member {
                    Err(DiscoveryErrorModel::NotMember)
                } else {
                    Ok(
                        PeerModel {
                            member_id: h.member_id,
                            plane: h.plane,
                            root_public_key: h.root_public_key,
                            endpoint: h.endpoint,
                            authenticated_at_epoch_ms: now,
                        },
                    )
                },
            )
        },
    }
}

impl PeerAuthenticator {
    /// An authenticator.
    pub fn new(
        contract_version: &str,
        network_id: &str,
        plane: DiscoveryPlane,
        max_clock_skew_ms: u64,
    ) -> (r: Self)
        ensures
            r@ == (AuthenticatorModel {
                contract_version: contract_version@,
                network_id: network_id@,
                plane,
                max_clock_skew_ms,
            }),
    {
        PeerAuthenticator {
            contract_version: contract_version.to_owned(),
            network_id: network_id.to_owned(),
            plane,
            max_clock_skew_ms,
        }
    }

    /// Checks everything of a hello but its challenge and its membership.
    fn check(&self, hello: &PeerHelloV1, facts: &HelloFacts, now_epoch_ms: u64) -> (r: Result<
        (),
        DiscoveryError,
    >)
        ensures
            match r {
                Ok(_) => hello_fault(
                    self@,
                    hello@,
                    facts.member_id@,
                    facts.message@,
                    now_epoch_ms,
                ) is None,
                Err(e) => hello_fault(
                    self@,
                    hello@,
                    facts.member_id@,
                    facts.message@,
                    now_epoch_ms,
                ) == Some(e@),
            },
    {
        if hello.contract_version != self.contract_version || hello.network_id != self.network_id
            || hello.plane != self.plane {
            return Err(DiscoveryError::ScopeMismatch);
        }
        let skew: u64 = if hello.issued_at_epoch_ms >= now_epoch_ms {
            hello.issued_at_epoch_ms - now_epoch_ms
        } else {
            now_epoch_ms - hello.issued_at_epoch_ms
        };
        if skew > self.max_clock_skew_ms {
            return Err(DiscoveryError::ClockSkew);
        }
        match validate_onion_endpoint(hello.endpoint.as_str()) {
            Ok(_) => {},
            Err(e) => {
                return Err(e);
            },
        }
        match NodeIdentity::verify_hello_signature(
            hello,
            facts.member_id.as_str(),
            facts.message.as_slice(),
        ) {
            Ok(_) => Ok(()),
            Err(e) => Err(DiscoveryError::Identity(e)),
        }
    }

    /// Authenticates a peer by its hello: contract, network and plane, clock,
    /// endpoint, signature, challenge and membership, in this order.
    pub fn authenticate(
        &self,
        challenges: &mut ChallengeStore,
        hello: &PeerHelloV1,
        facts: &HelloFacts,
        now_epoch_ms: u64,
    ) -> (r: Result<AuthenticatedPeer, DiscoveryError>)
        requires
            old(challenges).valid(),
        ensures
            final(challenges).valid(),
            final(challenges).ttl() == old(challenges).ttl(),
            ({
                let (pending, verdict) = authenticated(
                    self@,
                    old(challenges).pending(),
                    hello@,
                    facts.member_id@,
                    facts.message@,
                    facts.is_member,
                    now_epoch_ms,
                );
                &&& final(challenges).pending() == pending
                &&& match r {
                    Ok(p) => verdict == Ok::<PeerModel, DiscoveryErrorModel>(p@),
                    Err(e) => verdict == Err::<PeerModel, DiscoveryErrorModel>(e@),
                }
            }),
    {
        match self.check(hello, facts, now_epoch_ms) {
            Ok(_) => {},
            Err(e) => {
                return Err(e);
            },
        }
        match challenges.consume(hello.challenge.as_str(), now_epoch_ms) {
            Ok(_) => {},
            Err(e) => {
                return Err(e);
            },
        }
        if !facts.is_member {
            return Err(DiscoveryError::NotMember);
        }
        Ok(
            AuthenticatedPeer {
                member_id: hello.member_id.clone(),
                plane: hello.plane,
                root_public_key: hello.root_public_key.clone(),
                endpoint: hello.endpoint.clone(),
                authenticated_at_epoch_ms: now_epoch_ms,
            },
        )
    }
}

/// A hello authenticates a peer once: shown again, at whatever time, it is
/// refused.
pub proof fn lemma_hellos_are_single_use(
    a: AuthenticatorModel,
    pending: Map<Seq<char>, u64>,
    h: HelloModel,
    member_id: Seq<char>,
    message: Seq<u8>,
    is_member: bool,
    now: u64,
    later: u64,
)
    requires
        authenticated(a, pending, h, member_id, message, is_member, now).1 is Ok,
    ensures
        authenticated(
            a,
            authenticated(a, pending, h, member_id, message, is_member, now).0,
            h,
            member_id,
            message,
            is_member,
            later,
        ).1 is Err,
{
}

/// A hello with a wrong scope, time, endpoint or signature does not consume
/// the challenge that it names: the genuine hello is still accepted.
pub proof fn lemma_spoofed_hellos_consume_nothing(
    a: AuthenticatorModel,
    pending: Map<Seq<char>, u64>,
    spoofed: HelloModel,
    member_id: Seq<char>,
    message: Seq<u8>,
    is_member: bool,
    now: u64,
)
    requires
        hello_fault(a, spoofed, member_id, message, now) is Some,
    ensures
        authenticated(a, pending, spoofed, member_id, message, is_member, now).0 == pending,
        authenticated(a, pending, spoofed, member_id, message, is_member, now).1 is Err,
{
}

/// Only verified members with a valid signature on an onion endpoint are
/// authenticated.
pub proof fn lemma_authenticated_peers_are_members(
    a: AuthenticatorModel,
    pending: Map<Seq<char>, u64>,
    h: HelloModel,
    member_id: Seq<char>,
    message: Seq<u8>,
    is_member: bool,
    now: u64,
)
    requires
        authenticated(a, pending, h, member_id, message, is_member, now).1 is Ok,
    ensures
        is_member,
        h.member_id == member_id,
        is_endpoint(h.endpoint),
        hello_checked(h, member_id, message) is Ok,
        pending.contains_key(h.challenge),
        h.network_id == a.network_id && h.plane == a.plane,
{
}

/// Finds endpoints of peers. What is found depends on the network, so nothing
/// is promised of it.
pub trait PeerDiscovery {
    /// The endpoints of a plane.
    fn discover(&self, plane: DiscoveryPlane) -> (r: Result<Vec<EndpointRecord>, DiscoveryError>);
}

/// The stored peers without those of a member.
pub open spec fn peers_without(s: Seq<StoredPeerModel>, member_id: Seq<char>) -> Seq<
    StoredPeerModel,
>
    decreases s.len(),
{
    if s.len() == 0 {
        Seq::empty()
    } else {
        let rest = peers_without(s.drop_last(), member_id);
        if s.last().member_id != member_id {
            rest.push(s.last())
        } else {
            rest
        }
    }
}

/// An authenticated peer as it is stored.
pub open spec fn stored(p: PeerModel) -> StoredPeerModel {
    StoredPeerModel {
        member_id: p.member_id,
        plane: p.plane,
        root_public_key: p.root_public_key,
        endpoint: p.endpoint,
        authenticated_at_epoch_ms: p.authenticated_at_epoch_ms,
        last_success_epoch_ms: None,
    }
}

/// Stores an authenticated peer among the stored ones: it replaces what was
/// stored of the same member.
pub fn upsert_peer(peers: Vec<StoredPeer>, peer: &AuthenticatedPeer) -> (r: Vec<StoredPeer>)
    ensures
        peer_models(r@) == peers_without(peer_models(peers@), peer.member_id@).push(
            stored(peer@),
        ),
{
    let ghost all = peer_models(peers@);
    let mut r: Vec<StoredPeer> = Vec::new();
    assert(peer_models(r@) =~= peers_without(all.take(0), peer.member_id@));
    for p in it: peers.into_iter()
        invariant
            it.seq() == peers@,
            all == peer_models(peers@),
            peer_models(r@) == peers_without(all.take(it.index() as int), peer.member_id@),
    {
        let ghost done = r@;
        proof {
            let k = it.index() as int;
            assert(all.take(k + 1).drop_last() =~= all.take(k));
            assert(all.take(k + 1).last() == p@);
        }
        if p.member_id != peer.member_id {
            r.push(p);
            assert(peer_models(r@) =~= peer_models(done).push(p@));
        }
    }
    assert(all.take(all.len() as int) =~= all);
    let ghost done = r@;
    let new_peer = StoredPeer {
        member_id: peer.member_id.clone(),
        plane: peer.plane,
        root_public_key: peer.root_public_key.clone(),
        endpoint: peer.endpoint.clone(),
        authenticated_at_epoch_ms: peer.authenticated_at_epoch_ms,
        last_success_epoch_ms: None,
    };
    r.push(new_peer);
    assert(peer_models(r@) =~= peer_models(done).push(stored(peer@)));
    r
}

/// The endpoints without those that a member itself gave.
pub open spec fn endpoints_without(s: Seq<EndpointModel>, member_id: Seq<char>) -> Seq<
    EndpointModel,
>
    decreases s.len(),
{
    if s.len() == 0 {
        Seq::empty()
    } else {
        let rest = endpoints_without(s.drop_last(), member_id);
        if s.last().member_id != member_id || s.last().source
            != DiscoverySource::AuthenticatedPeer {
            rest.push(s.last())
        } else {
            rest
        }
    }
}

/// The endpoint of an authenticated peer.
pub open spec fn own_endpoint(p: PeerModel) -> EndpointModel {
    EndpointModel {
        member_id: p.member_id,
        endpoint: p.endpoint,
        source: DiscoverySource::AuthenticatedPeer,
        observed_at_epoch_ms: p.authenticated_at_epoch_ms,
    }
}

/// Stores the endpoint of an authenticated peer among the stored ones: it
/// replaces the one that the same member gave before.
pub fn upsert_endpoint(endpoints: Vec<EndpointRecord>, peer: &AuthenticatedPeer) -> (r: Vec<
    EndpointRecord,
>)
    ensures
        endpoint_models(r@) == endpoints_without(
            endpoint_models(endpoints@),
            peer.member_id@,
        ).push(own_endpoint(peer@)),
{
    let ghost all = endpoint_models(endpoints@);
    let mut r: Vec<EndpointRecord> = Vec::new();
    assert(endpoint_models(r@) =~= endpoints_without(all.take(0), peer.member_id@));
    for e in it: endpoints.into_iter()
        invariant
            it.seq() == endpoints@,
            all == endpoint_models(endpoints@),
            endpoint_models(r@) == endpoints_without(
                all.take(it.index() as int),
                peer.member_id@,
            ),
    {
        let ghost done = r@;
        proof {
            let k = it.index() as int;
            assert(all.take(k + 1).drop_last() =~= all.take(k));
            assert(all.take(k + 1).last() == e@);
        }
        if e.member_id != peer.member_id || e.source != DiscoverySource::AuthenticatedPeer {
            r.push(e);
            assert(endpoint_models(r@) =~= endpoint_models(done).push(e@));
        }
    }
    assert(all.take(all.len() as int) =~= all);
    let ghost done = r@;
    let own = EndpointRecord {
        member_id: peer.member_id.clone(),
        endpoint: peer.endpoint.clone(),
        source: DiscoverySource::AuthenticatedPeer,
        observed_at_epoch_ms: peer.authenticated_at_epoch_ms,
    };
    r.push(own);
    assert(endpoint_models(r@) =~= endpoint_models(done).push(own_endpoint(peer@)));
    r
}

/// The connections without those to an endpoint of a member.
pub open spec fn connections_without(
    s: Seq<ConnectionModel>,
    member_id: Seq<char>,
    endpoint: Seq<char>,
) -> Seq<ConnectionModel>
    decreases s.len(),
{
    if s.len() == 0 {
        Seq::empty()
    } else {
        let rest = connections_without(s.drop_last(), member_id, endpoint);
        if s.last().member_id != member_id || s.last().endpoint != endpoint {
            rest.push(s.last())
        } else {
            rest
        }
    }
}

/// Records a connection among the recorded ones: it replaces the earlier one
/// to the same endpoint of the same member. Refuses what is no endpoint.
pub fn record_connection(
    successes: Vec<SuccessfulConnection>,
    member_id: &str,
    endpoint: &str,
    now_epoch_ms: u64,
) -> (r: Result<Vec<SuccessfulConnection>, DiscoveryError>)
    ensures
        match r {
            Ok(v) => is_endpoint(endpoint@) && connection_models(v@) == connections_without(
                connection_models(successes@),
                member_id@,
                endpoint@,
            ).push(
                ConnectionModel {
                    member_id: member_id@,
                    endpoint: endpoint@,
                    connected_at_epoch_ms: now_epoch_ms,
                },
            ),
            Err(e) => !is_endpoint(endpoint@) && e@ == DiscoveryErrorModel::InvalidEndpoint,
        },
{
    match validate_onion_endpoint(endpoint) {
        Ok(_) => {},
        Err(e) => {
            return Err(e);
        },
    }
    let ghost all = connection_models(successes@);
    let mut r: Vec<SuccessfulConnection> = Vec::new();
    assert(connection_models(r@) =~= connections_without(all.take(0), member_id@, endpoint@));
    for s in it: successes.into_iter()
        invariant
            it.seq() == successes@,
            all == connection_models(successes@),
            connection_models(r@) == connections_without(
                all.take(it.index() as int),
                member_id@,
                endpoint@,
            ),
    {
        let ghost done = r@;
        proof {
            let k = it.index() as int;
            assert(all.take(k + 1).drop_last() =~= all.take(k));
            assert(all.take(k + 1).last() == s@);
        }
        if !str_eq(s.member_id.as_str(), member_id) || !str_eq(s.endpoint.as_str(), endpoint) {
            r.push(s);
            assert(connection_models(r@) =~= connection_models(done).push(s@));
        }
    }
    assert(all.take(all.len() as int) =~= all);
    let ghost done = r@;
    let connection = SuccessfulConnection {
        member_id: member_id.to_owned(),
        endpoint: endpoint.to_owned(),
        connected_at_epoch_ms: now_epoch_ms,
    };
    r.push(connection);
    assert(connection_models(r@) =~= connection_models(done).push(connection@));
    Ok(r)
}

/// A peer after a connection to an endpoint of a member.
pub open spec fn connected(
    p: StoredPeerModel,
    member_id: Seq<char>,
    endpoint: Seq<char>,
    now: u64,
) -> StoredPeerModel {
    if p.member_id == member_id && p.endpoint == endpoint {
        StoredPeerModel { last_success_epoch_ms: Some(now), ..p }
    } else {
        p
    }
}

/// Marks a connection on the stored peers that it was made to.
pub fn mark_connected(
    peers: Vec<StoredPeer>,
    member_id: &str,
    endpoint: &str,
    now_epoch_ms: u64,
) -> (r: Vec<StoredPeer>)
    ensures
        peer_models(r@) == peer_models(peers@).map_values(
            |p: StoredPeerModel| connected(p, member_id@, endpoint@, now_epoch_ms),
        ),
{
    let ghost all = peer_models(peers@);
    let mut r: Vec<StoredPeer> = Vec::new();
    for p in it: peers.into_iter()
        invariant
            it.seq() == peers@,
            all == peer_models(peers@),
            r@.len() == it.index(),
            forall|j: int|
                0 <= j < r@.len() ==> (#[trigger] r@[j])@ == connected(
                    all[j],
                    member_id@,
                    endpoint@,
                    now_epoch_ms,
                ),
    {
        let ghost before = p@;
        assert(all[it.index() as int] == before);
        let mut marked = p;
        if str_eq(marked.member_id.as_str(), member_id) && str_eq(
            marked.endpoint.as_str(),
            endpoint,
        ) {
            marked.last_success_epoch_ms = Some(now_epoch_ms);
        }
        r.push(marked);
    }
    assert(peer_models(r@) =~= all.map_values(
        |p: StoredPeerModel| connected(p, member_id@, endpoint@, now_epoch_ms),
    ));
    r
}

/// The stored peers of a plane.
pub open spec fn of_plane(s: Seq<StoredPeerModel>, plane: DiscoveryPlane) -> Seq<StoredPeerModel>
    decreases s.len(),
{
    if s.len() == 0 {
        Seq::empty()
    } else {
        let rest = of_plane(s.drop_last(), plane);
        if s.last().plane == plane {
            rest.push(s.last())
        } else {
            rest
        }
    }
}

/// How many stored peers are of a plane.
pub fn authenticated_count(peers: &Vec<StoredPeer>, plane: DiscoveryPlane) -> (r: usize)
    ensures
        r == of_plane(peer_models(peers@), plane).len(),
{
    let ghost all = peer_models(peers@);
    let mut count: usize = 0;
    let mut i: usize = 0;
    assert(all.take(0) =~= Seq::<StoredPeerModel>::empty());
    while i < peers.len()
        invariant
            i <= peers@.len(),
            all == peer_models(peers@),
            count == of_plane(all.take(i as int), plane).len(),
            count <= i,
        decreases peers.len() - i,
    {
        proof {
            assert(all.take(i + 1).drop_last() =~= all.take(i as int));
            assert(all.take(i + 1).last() == peers@[i as int]@);
        }
        if peers[i].plane == plane {
            count = count + 1;
        }
        i += 1;
    }
    assert(all.take(i as int) =~= all);
    count
}

/// The endpoint of a stored peer.
pub open spec fn peer_endpoint(p: StoredPeerModel) -> EndpointModel {
    EndpointModel {
        member_id: p.member_id,
        endpoint: p.endpoint,
        source: DiscoverySource::AuthenticatedPeer,
        observed_at_epoch_ms: p.authenticated_at_epoch_ms,
    }
}

/// The endpoint of a stored peer, as a function.
pub open spec fn to_endpoint() -> spec_fn(StoredPeerModel) -> EndpointModel {
    |p: StoredPeerModel| peer_endpoint(p)
}

/// The endpoints of the stored peers of a plane.
pub fn authenticated_endpoints(peers: Vec<StoredPeer>, plane: DiscoveryPlane) -> (r: Vec<
    EndpointRecord,
>)
    ensures
        endpoint_models(r@) == of_plane(peer_models(peers@), plane).map_values(to_endpoint()),
{
    let ghost all = peer_models(peers@);
    let ghost f = to_endpoint();
    let mut r: Vec<EndpointRecord> = Vec::new();
    assert(endpoint_models(r@) =~= of_plane(all.take(0), plane).map_values(f));
    for p in it: peers.into_iter()
        invariant
            it.seq() == peers@,
            all == peer_models(peers@),
            f == to_endpoint(),
            endpoint_models(r@) == of_plane(all.take(it.index() as int), plane).map_values(f),
    {
        let ghost done = r@;
        let ghost before = of_plane(all.take(it.index() as int), plane);
        let ghost here = p@;
        proof {
            let k = it.index() as int;
            assert(all.take(k + 1).drop_last() =~= all.take(k));
            assert(all.take(k + 1).last() == p@);
        }
        if p.plane == plane {
            r.push(
                EndpointRecord {
                    member_id: p.member_id,
                    endpoint: p.endpoint,
                    source: DiscoverySource::AuthenticatedPeer,
                    observed_at_epoch_ms: p.authenticated_at_epoch_ms,
                },
            );
            assert(endpoint_models(r@) =~= endpoint_models(done).push(peer_endpoint(here)));
            assert(before.push(here).map_values(f) =~= before.map_values(f).push(f(here)));
        }
    }
    assert(all.take(all.len() as int) =~= all);
    r
}

/// A member in a manifest.
#[derive(Debug, PartialEq, Eq)]
pub struct ManifestMember {
    pub member_id: String,
    pub endpoint: String,
}

/// What discovery reads of a membership manifest.
#[derive(Debug, PartialEq, Eq)]
pub struct MembershipManifestV1 {
    pub epoch: u64,
    pub members: Vec<ManifestMember>,
}

/// The endpoint of a member in a manifest.
pub open spec fn member_endpoint(m: ManifestMember, observed: u64) -> EndpointModel {
    EndpointModel {
        member_id: m.member_id@,
        endpoint: m.endpoint@,
        source: DiscoverySource::CurrentManifest,
        observed_at_epoch_ms: observed,
    }
}

/// The endpoints of the members of a manifest.
pub open spec fn manifest_endpoints(members: Seq<ManifestMember>, observed: u64) -> Seq<
    EndpointModel,
> {
    Seq::new(members.len(), |i: int| member_endpoint(members[i], observed))
}

/// Lists the endpoints of members, observed at a time.
fn list_members(members: &Vec<ManifestMember>, observed: u64) -> (r: Vec<EndpointRecord>)
    ensures
        endpoint_models(r@) == manifest_endpoints(members@, observed),
{
    let mut r: Vec<EndpointRecord> = Vec::new();
    let mut i: usize = 0;
    while i < members.len()
        invariant
            i <= members@.len(),
            r@.len() == i,
            forall|j: int|
                0 <= j < i ==> (#[trigger] r@[j])@ == member_endpoint(members@[j], observed),
        decreases members.len() - i,
    {
        r.push(
            EndpointRecord {
                member_id: members[i].member_id.clone(),
                endpoint: members[i].endpoint.clone(),
                source: DiscoverySource::CurrentManifest,
                observed_at_epoch_ms: observed,
            },
        );
        i += 1;
    }
    assert(endpoint_models(r@) =~= manifest_endpoints(members@, observed));
    r
}

/// The endpoints of a manifest, not observed at any time.
pub fn manifest_endpoint_records(manifest: &MembershipManifestV1) -> (r: Vec<EndpointRecord>)
    ensures
        endpoint_models(r@) == manifest_endpoints(manifest.members@, 0),
{
    list_members(&manifest.members, 0)
}

/// The order of connections: the latest first.
pub open spec fn latest_first() -> spec_fn(ConnectionModel) -> Seq<int> {
    |c: ConnectionModel| seq![-(c.connected_at_epoch_ms as int)]
}

impl Ranked for SuccessfulConnection {
    type Model = ConnectionModel;

    open spec fn model(&self) -> ConnectionModel {
        self@
    }

    open spec fn ranking() -> spec_fn(ConnectionModel) -> Seq<int> {
        latest_first()
    }

    fn ranks_le(&self, other: &Self) -> (r: bool) {
        proof {
            reveal_with_fuel(crate::order::lex_le, 2);
        }
        self.connected_at_epoch_ms >= other.connected_at_epoch_ms
    }
}

/// Whether some stored peer is of a member and a plane.
pub open spec fn peer_known(
    peers: Seq<StoredPeerModel>,
    member_id: Seq<char>,
    plane: DiscoveryPlane,
) -> bool {
    exists|i: int|
        0 <= i < peers.len() && (#[trigger] peers[i]).member_id == member_id && peers[i].plane
            == plane
}

/// Whether some stored peer is of a member and a plane.
fn knows_peer(peers: &Vec<StoredPeer>, member_id: &str, plane: DiscoveryPlane) -> (r: bool)
    ensures
        r == peer_known(peer_models(peers@), member_id@, plane),
{
    let mut i: usize = 0;
    while i < peers.len()
        invariant
            i <= peers@.len(),
            forall|j: int|
                0 <= j < i ==> !((#[trigger] peer_models(peers@)[j]).member_id == member_id@
                    && peer_models(peers@)[j].plane == plane),
        decreases peers.len() - i,
    {
        if str_eq(peers[i].member_id.as_str(), member_id) && peers[i].plane == plane {
            assert(peer_models(peers@)[i as int] == peers@[i as int]@);
            return true;
        }
        i += 1;
    }
    false
}

/// The endpoint of an earlier connection.
pub open spec fn earlier_endpoint(c: ConnectionModel) -> EndpointModel {
    EndpointModel {
        member_id: c.member_id,
        endpoint: c.endpoint,
        source: DiscoverySource::PreviousConnection,
        observed_at_epoch_ms: c.connected_at_epoch_ms,
    }
}

/// The endpoints of earlier connections to known peers of a plane.
pub open spec fn earlier_endpoints(
    s: Seq<ConnectionModel>,
    peers: Seq<StoredPeerModel>,
    plane: DiscoveryPlane,
) -> Seq<EndpointModel>
    decreases s.len(),
{
    if s.len() == 0 {
        Seq::empty()
    } else {
        let rest = earlier_endpoints(s.drop_last(), peers, plane);
        if peer_known(peers, s.last().member_id, plane) {
            rest.push(earlier_endpoint(s.last()))
        } else {
            rest
        }
    }
}

/// Whether every candidate is a valid endpoint.
pub open spec fn all_endpoints(s: Seq<EndpointModel>) -> bool {
    forall|i: int| 0 <= i < s.len() ==> is_endpoint((#[trigger] s[i]).endpoint)
}

/// Whether some candidate has an endpoint.
pub open spec fn offers(s: Seq<EndpointModel>, endpoint: Seq<char>) -> bool {
    exists|i: int| 0 <= i < s.len() && (#[trigger] s[i]).endpoint == endpoint
}

/// The candidates without those whose endpoint came before.
pub open spec fn first_of_each(s: Seq<EndpointModel>) -> Seq<EndpointModel>
    decreases s.len(),
{
    if s.len() == 0 {
        Seq::empty()
    } else {
        let rest = first_of_each(s.drop_last());
        if offers(s.drop_last(), s.last().endpoint) {
            rest
        } else {
            rest.push(s.last())
        }
    }
}

/// Keeps the first candidate of each endpoint; refuses all where one is no
/// valid endpoint.
pub fn deduplicate_valid(candidates: Vec<EndpointRecord>) -> (r: Result<
    Vec<EndpointRecord>,
    DiscoveryError,
>)
    ensures
        match r {
            Ok(v) => all_endpoints(endpoint_models(candidates@)) && endpoint_models(v@)
                == first_of_each(endpoint_models(candidates@)),
            Err(e) => !all_endpoints(endpoint_models(candidates@)) && e@
                == DiscoveryErrorModel::InvalidEndpoint,
        },
{
    let ghost all = endpoint_models(candidates@);
    let mut seen: Table<()> = Table::new();
    let mut ordered: Vec<EndpointRecord> = Vec::new();
    assert(endpoint_models(ordered@) =~= first_of_each(all.take(0)));
    for c in it: candidates.into_iter()
        invariant
            it.seq() == candidates@,
            all == endpoint_models(candidates@),
            seen.wf(),
            forall|j: int| 0 <= j < it.index() ==> is_endpoint((#[trigger] all[j]).endpoint),
            forall|e: Seq<char>| #[trigger]
                seen@.contains_key(e) <==> offers(all.take(it.index() as int), e),
            endpoint_models(ordered@) == first_of_each(all.take(it.index() as int)),
    {
        let ghost done = ordered@;
        let ghost was = seen@;
        let ghost here = c@;
        let ghost k = it.index() as int;
        let ghost head = all.take(k);
        let ghost next = all.take(k + 1);
        proof {
            assert(next.drop_last() =~= head);
            assert(next.last() == here);
            assert(all[k] == here);
            assert forall|e: Seq<char>| offers(next, e) <==> offers(head, e) || e
                == here.endpoint by {
                if offers(head, e) {
                    let j = choose|j: int| 0 <= j < head.len() && (#[trigger] head[j]).endpoint == e;
                    assert(next[j].endpoint == e);
                }
                assert(next[k].endpoint == here.endpoint);
                if offers(next, e) && e != here.endpoint {
                    let j = choose|j: int| 0 <= j < next.len() && (#[trigger] next[j]).endpoint == e;
                    assert(head[j].endpoint == e);
                }
            }
        }
        match validate_onion_endpoint(c.endpoint.as_str()) {
            Ok(_) => {},
            Err(e) => {
                return Err(e);
            },
        }
        if !seen.contains(c.endpoint.as_str()) {
            seen.insert(c.endpoint.clone(), ());
            ordered.push(c);
            assert(endpoint_models(ordered@) =~= endpoint_models(done).push(here));
        }
    }
    assert(all.take(all.len() as int) =~= all);
    Ok(ordered)
}

/// The candidates in order: earlier connections, the latest first, then the
/// manifest, the genesis bundle, the mirrors and the suggestions.
pub open spec fn candidates(
    successes: Seq<ConnectionModel>,
    peers: Seq<StoredPeerModel>,
    plane: DiscoveryPlane,
    manifest: Option<MembershipManifestV1>,
    genesis: Seq<EndpointModel>,
    mirrors: Seq<EndpointModel>,
    suggestions: Seq<EndpointModel>,
) -> Seq<EndpointModel> {
    earlier_endpoints(stable_sorted(successes, latest_first()), peers, plane) + (match manifest {
        Some(m) => manifest_endpoints(m.members@, m.epoch),
        None => Seq::empty(),
    }) + genesis + mirrors + suggestions
}

/// Appends copies of endpoints.
fn extend(candidates: &mut Vec<EndpointRecord>, more: &Vec<EndpointRecord>)
    ensures
        endpoint_models(final(candidates)@) == endpoint_models(old(candidates)@)
            + endpoint_models(more@),
{
    let ghost before = endpoint_models(candidates@);
    let ghost all = endpoint_models(more@);
    let mut i: usize = 0;
    assert(before + all.take(0) =~= before);
    while i < more.len()
        invariant
            i <= more@.len(),
            all == endpoint_models(more@),
            endpoint_models(candidates@) == before + all.take(i as int),
        decreases more.len() - i,
    {
        let ghost done = candidates@;
        candidates.push(more[i].clone());
        proof {
            assert(endpoint_models(candidates@) =~= endpoint_models(done).push(
                more@[i as int]@,
            ));
            assert(all.take(i + 1) =~= all.take(i as int).push(all[i as int]));
            assert(before + all.take(i + 1) =~= (before + all.take(i as int)).push(
                all[i as int],
            ));
        }
        i += 1;
    }
    assert(all.take(i as int) =~= all);
}

/// The endpoints to try, in order and without repetitions: earlier
/// connections to known peers of the plane, the latest first, then the current
/// manifest, the genesis bundle, the mirrors and what authenticated peers
/// suggest.
pub fn ordered_candidates(
    successes: Vec<SuccessfulConnection>,
    peers: &Vec<StoredPeer>,
    plane: DiscoveryPlane,
    current_manifest: Option<&MembershipManifestV1>,
    genesis: &Vec<EndpointRecord>,
    mirrors: &Vec<EndpointRecord>,
    authenticated_suggestions: &Vec<EndpointRecord>,
) -> (r: Result<Vec<EndpointRecord>, DiscoveryError>)
    ensures
        ({
            let all = candidates(
                connection_models(successes@),
                peer_models(peers@),
                plane,
                (match current_manifest {
                    Some(m) => Some(*m),
                    None => None,
                }),
                endpoint_models(genesis@),
                endpoint_models(mirrors@),
                endpoint_models(authenticated_suggestions@),
            );
            match r {
                Ok(v) => all_endpoints(all) && endpoint_models(v@) == first_of_each(all),
                Err(e) => !all_endpoints(all) && e@ == DiscoveryErrorModel::InvalidEndpoint,
            }
        }),
{
    let ghost known = peer_models(peers@);
    assert(models(successes@) =~= connection_models(successes@));
    let sorted = sort_ranked(successes);
    assert(models(sorted@) =~= connection_models(sorted@));
    let ghost all = connection_models(sorted@);
    let mut list: Vec<EndpointRecord> = Vec::new();
    assert(endpoint_models(list@) =~= earlier_endpoints(all.take(0), known, plane));
    for s in it: sorted.into_iter()
        invariant
            it.seq() == sorted@,
            all == connection_models(sorted@),
            known == peer_models(peers@),
            endpoint_models(list@) == earlier_endpoints(
                all.take(it.index() as int),
                known,
                plane,
            ),
    {
        let ghost done = list@;
        let ghost here = s@;
        proof {
            let k = it.index() as int;
            assert(all.take(k + 1).drop_last() =~= all.take(k));
            assert(all.take(k + 1).last() == s@);
        }
        if knows_peer(peers, s.member_id.as_str(), plane) {
            list.push(
                EndpointRecord {
                    member_id: s.member_id,
                    endpoint: s.endpoint,
                    source: DiscoverySource::PreviousConnection,
                    observed_at_epoch_ms: s.connected_at_epoch_ms,
                },
            );
            assert(endpoint_models(list@) =~= endpoint_models(done).push(earlier_endpoint(here)));
        }
    }
    assert(all.take(all.len() as int) =~= all);
    let ghost first = endpoint_models(list@);
    match current_manifest {
        Some(m) => {
            let listed = list_members(&m.members, m.epoch);
            extend(&mut list, &listed);
        },
        None => {
            assert(first + Seq::<EndpointModel>::empty() =~= first);
        },
    }
    extend(&mut list, genesis);
    extend(&mut list, mirrors);
    extend(&mut list, authenticated_suggestions);
    deduplicate_valid(list)
}

/// No endpoint is tried twice: every endpoint that is kept differs from all
/// others that are kept, and every endpoint that was offered is kept.
pub proof fn lemma_each_endpoint_is_kept_once(s: Seq<EndpointModel>)
    ensures
        forall|i: int, j: int|
            0 <= i < j < first_of_each(s).len() ==> (#[trigger] first_of_each(s)[i]).endpoint != (
            #[trigger] first_of_each(s)[j]).endpoint,
        forall|e: Seq<char>| #[trigger] offers(first_of_each(s), e) <==> offers(s, e),
    decreases s.len(),
{
    if s.len() > 0 {
        let head = s.drop_last();
        let last = s.last();
        lemma_each_endpoint_is_kept_once(head);
        let kept = first_of_each(head);
        let all = first_of_each(s);
        assert forall|e: Seq<char>| #[trigger] offers(all, e) <==> offers(s, e) by {
            assert(offers(kept, e) <==> offers(head, e));
            if offers(head, e) {
                let j = choose|j: int| 0 <= j < head.len() && (#[trigger] head[j]).endpoint == e;
                assert(s[j].endpoint == e);
            }
            assert(s[s.len() - 1].endpoint == last.endpoint);
            if offers(s, e) && e != last.endpoint {
                let j = choose|j: int| 0 <= j < s.len() && (#[trigger] s[j]).endpoint == e;
                assert(head[j].endpoint == e);
            }
            if offers(kept, e) {
                let j = choose|j: int| 0 <= j < kept.len() && (#[trigger] kept[j]).endpoint == e;
                assert(all[j].endpoint == e);
            }
            if !offers(head, last.endpoint) {
                assert(all[kept.len() as int].endpoint == last.endpoint);
            }
            if offers(all, e) && !offers(kept, e) {
                let j = choose|j: int| 0 <= j < all.len() && (#[trigger] all[j]).endpoint == e;
                if j < kept.len() {
                    assert(kept[j].endpoint == e);
                }
            }
        }
        assert forall|i: int, j: int| 0 <= i < j < all.len() implies (#[trigger] all[i]).endpoint
            != (#[trigger] all[j]).endpoint by {
            if j < kept.len() {
                assert(kept[i].endpoint != kept[j].endpoint);
            } else {
                assert(all[j] == last);
                assert(kept[i] == all[i]);
                if kept[i].endpoint == last.endpoint {
                    assert(offers(kept, last.endpoint));
                }
            }
        }
    }
}

/// A member is stored once after it was stored.
pub proof fn lemma_members_are_stored_once(s: Seq<StoredPeerModel>, p: PeerModel)
    ensures
        forall|i: int|
            0 <= i < peers_without(s, p.member_id).len() ==> (#[trigger] peers_without(
                s,
                p.member_id,
            )[i]).member_id != p.member_id,
    decreases s.len(),
{
    if s.len() > 0 {
        lemma_members_are_stored_once(s.drop_last(), p);
    }
}

/// Checks that a proxy resolves names remotely, as Tor needs it.
pub fn check_socks_proxy(socks_proxy: &str) -> (r: Result<(), DiscoveryError>)
    ensures
        discovered(r) == (if "socks5h://"@.is_prefix_of(socks_proxy@) {
            Ok::<(), DiscoveryErrorModel>(())
        } else {
            Err::<(), DiscoveryErrorModel>(
                DiscoveryErrorModel::Transport("Tor proxy must use socks5h remote resolution"@),
            )
        }),
{
    let scheme = chars_of("socks5h://");
    let given = chars_of(socks_proxy);
    proof {
        reveal_strlit("socks5h://");
    }
    let mut matches = given.len() >= scheme.len();
    if matches {
        let head = socks_proxy.substring_char(0, scheme.len());
        matches = str_eq(head, "socks5h://");
        assert(socks_proxy@.subrange(0, scheme@.len() as int) =~= socks_proxy@.take(
            scheme@.len() as int,
        ));
    }
    if matches {
        Ok(())
    } else {
        Err(DiscoveryError::Transport("Tor proxy must use socks5h remote resolution".to_owned()))
    }
}

/// Where a handshake with an endpoint asks for a challenge and sends its
/// hello.
#[derive(Debug)]
pub struct HandshakeUrls {
    pub challenge: String,
    pub hello: String,
}

/// The addresses of a handshake; both endpoints have to be valid.
pub fn handshake_urls(endpoint: &str, local_endpoint: &str) -> (r: Result<
    HandshakeUrls,
    DiscoveryError,
>)
    ensures
        match r {
            Ok(u) => {
                &&& is_endpoint(endpoint@) && is_endpoint(local_endpoint@)
                &&& u.challenge@ == endpoint@ + "/v1/discovery/challenge"@
                &&& u.hello@ == endpoint@ + "/v1/discovery/hello"@
            },
            Err(e) => {
                &&& !(is_endpoint(endpoint@) && is_endpoint(local_endpoint@))
                &&& e@ == DiscoveryErrorModel::InvalidEndpoint
            },
        },
{
    match validate_onion_endpoint(endpoint) {
        Ok(_) => {},
        Err(e) => {
            return Err(e);
        },
    }
    match validate_onion_endpoint(local_endpoint) {
        Ok(_) => {},
        Err(e) => {
            return Err(e);
        },
    }
    Ok(
        HandshakeUrls {
            challenge: labelled(endpoint, "/v1/discovery/challenge"),
            hello: labelled(endpoint, "/v1/discovery/hello"),
        },
    )
}

/// Where the current manifest of an endpoint is fetched.
pub fn manifest_url(endpoint: &str) -> (r: Result<String, DiscoveryError>)
    ensures
        match r {
            Ok(u) => is_endpoint(endpoint@) && u@ == endpoint@ + "/v1/membership/current"@,
            Err(e) => !is_endpoint(endpoint@) && e@ == DiscoveryErrorModel::InvalidEndpoint,
        },
{
    match validate_onion_endpoint(endpoint) {
        Ok(_) => Ok(labelled(endpoint, "/v1/membership/current")),
        Err(e) => Err(e),
    }
}

/// A file in a directory.
pub open spec fn in_directory(root: Seq<char>, name: Seq<char>) -> Seq<char> {
    if root.len() == 0 || root.last() == '/' {
        root + name
    } else {
        root + "/"@ + name
    }
}

/// A file in a directory.
fn file_in(root: &str, name: &str) -> (r: String)
    ensures
        r@ == in_directory(root@, name@),
{
    let chars = chars_of(root);
    let n: usize = chars.len();
    let mut path = root.to_owned();
    if n > 0 && chars[n - 1] != '/' {
        path.append("/");
    }
    path.append(name);
    path
}

/// The files of the peer store in a directory.
pub fn db_files(root: &str) -> (r: [String; 4])
    ensures
        r@[0]@ == in_directory(root@, PEERS_DB@),
        r@[1]@ == in_directory(root@, ENDPOINTS_DB@),
        r@[2]@ == in_directory(root@, SUCCESSFUL_CONNECTIONS_DB@),
        r@[3]@ == in_directory(root@, MEMBERSHIP_MANIFESTS_DB@),
{
    [
        file_in(root, PEERS_DB),
        file_in(root, ENDPOINTS_DB),
        file_in(root, SUCCESSFUL_CONNECTIONS_DB),
        file_in(root, MEMBERSHIP_MANIFESTS_DB),
    ]
}

/// The challenge that a peer sends.
#[derive(Debug)]
pub struct ChallengeResponse {
    pub challenge: String,
}

/// What is sent to a peer in answer to its challenge.
#[derive(Debug)]
pub struct HelloExchangeRequest {
    pub hello: PeerHelloV1,
    pub response_challenge: String,
}

/// An onion host is fifty-six characters of base 32 and then the suffix.
pub proof fn lemma_onion_hosts(host: Seq<char>, name: Seq<char>)
    ensures
        is_onion_host(host) <==> host.len() == 62 && host == host.take(56) + ".onion"@ && forall|
            i: int,
        |
            0 <= i < 56 ==> ('a' <= #[trigger] host.take(56)[i] <= 'z') || ('2' <= host.take(56)[i]
                <= '7'),
        name.len() == 56 && (forall|i: int|
            0 <= i < 56 ==> ('a' <= #[trigger] name[i] <= 'z') || ('2' <= name[i] <= '7'))
            ==> is_onion_host(name + ".onion"@),
{
    reveal_strlit(".onion");
    assert(host.len() == 62 ==> host =~= host.take(56) + host.skip(56));
    if host.len() == 62 && host == host.take(56) + ".onion"@ {
        assert(host.skip(56) =~= ".onion"@);
    }
    if is_onion_host(host) {
        assert forall|i: int| 0 <= i < 56 implies ('a' <= #[trigger] host.take(56)[i] <= 'z') || (
        '2' <= host.take(56)[i] <= '7') by {
            assert(is_onion_char(host[i]));
        }
    }
    if host.len() == 62 && host == host.take(56) + ".onion"@ && forall|i: int|
        0 <= i < 56 ==> ('a' <= #[trigger] host.take(56)[i] <= 'z') || ('2' <= host.take(56)[i]
            <= '7') {
        assert forall|i: int| 0 <= i < 56 implies is_onion_char(#[trigger] host[i]) by {
            assert(host.take(56)[i] == host[i]);
        }
    }
    if name.len() == 56 && (forall|i: int|
        0 <= i < 56 ==> ('a' <= #[trigger] name[i] <= 'z') || ('2' <= name[i] <= '7')) {
        let h = name + ".onion"@;
        assert(h.skip(56) =~= ".onion"@);
        assert forall|i: int| 0 <= i < 56 implies is_onion_char(#[trigger] h[i]) by {
            assert(h[i] == name[i]);
        }
    }
}

/// An endpoint is an address over HTTPS of an onion host, with nobody's name or
/// password in it and nothing behind the host.
pub proof fn lemma_endpoints_are_exact(text: Seq<char>)
    ensures
        is_endpoint(text) <==> match parsed_url(text) {
            None => false,
            Some(u) => {
                &&& u.scheme == "https"@
                &&& u.host is Some && is_onion_host(u.host->0)
                &&& u.username.len() == 0 && u.password is None
                &&& u.path.len() == 0 || u.path == "/"@
                &&& u.query is None && u.fragment is None
            },
        },
{
    reveal_strlit("");
    if let Some(u) = parsed_url(text) {
        assert(u.username == ""@ <==> u.username.len() == 0) by {
            if u.username.len() == 0 {
                assert(u.username =~= ""@);
            }
        }
        assert(u.path == ""@ <==> u.path.len() == 0) by {
            if u.path.len() == 0 {
                assert(u.path =~= ""@);
            }
        }
    }
}

/// A hello authenticates a peer exactly when it is of this contract, network and
/// plane, was made within the clock skew before or after now, names an onion
/// endpoint, carries a signature of its own key under the identifier that
/// belongs to it, answers a challenge that is open and not expired, and its
/// sender is a member. The peer is then the one that the hello names.
pub proof fn lemma_hellos_authenticate_exactly(
    a: AuthenticatorModel,
    pending: Map<Seq<char>, u64>,
    h: HelloModel,
    member_id: Seq<char>,
    message: Seq<u8>,
    is_member: bool,
    now: u64,
)
    ensures
        ({
            let r = authenticated(a, pending, h, member_id, message, is_member, now).1;
            &&& r is Ok <==> {
                &&& h.contract_version == a.contract_version
                &&& h.network_id == a.network_id
                &&& h.plane == a.plane
                &&& h.issued_at_epoch_ms <= now + a.max_clock_skew_ms
                &&& now <= h.issued_at_epoch_ms + a.max_clock_skew_ms
                &&& is_endpoint(h.endpoint)
                &&& is_hex(h.root_public_key) && hex_bytes(h.root_public_key).len() == 32
                &&& ed25519_key_accepted(hex_bytes(h.root_public_key))
                &&& member_id == h.member_id
                &&& is_hex(h.signature) && hex_bytes(h.signature).len() == 64
                &&& ed25519_signature_valid(
                    hex_bytes(h.root_public_key),
                    message,
                    hex_bytes(h.signature),
                )
                &&& pending.contains_key(h.challenge) && now <= pending[h.challenge]
                &&& is_member
            }
            &&& r is Ok ==> {
                &&& r->Ok_0.member_id == h.member_id
                &&& r->Ok_0.plane == h.plane
                &&& r->Ok_0.root_public_key == h.root_public_key
                &&& r->Ok_0.endpoint == h.endpoint
                &&& r->Ok_0.authenticated_at_epoch_ms == now
            }
        }),
{
}

/// A hello that passes on its own consumes the challenge that it names and drops
/// those that have expired, and no others; one that does not leaves them all.
pub proof fn lemma_hellos_consume_their_challenge(
    a: AuthenticatorModel,
    pending: Map<Seq<char>, u64>,
    h: HelloModel,
    member_id: Seq<char>,
    message: Seq<u8>,
    is_member: bool,
    now: u64,
    other: Seq<char>,
)
    ensures
        ({
            let after = authenticated(a, pending, h, member_id, message, is_member, now).0;
            &&& hello_fault(a, h, member_id, message, now) is Some ==> after == pending
            &&& hello_fault(a, h, member_id, message, now) is None ==> {
                &&& !after.contains_key(h.challenge)
                &&& other != h.challenge ==> (after.contains_key(other) <==> pending.contains_key(
                    other,
                ) && now <= pending[other])
                &&& after.contains_key(other) ==> after[other] == pending[other]
            }
        }),
{
}

/// Each fault of a hello has its error, in the order in which they are looked
/// for.
pub proof fn lemma_each_fault_of_a_hello(
    a: AuthenticatorModel,
    pending: Map<Seq<char>, u64>,
    h: HelloModel,
    member_id: Seq<char>,
    message: Seq<u8>,
    is_member: bool,
    now: u64,
)
    ensures
        ({
            let r = authenticated(a, pending, h, member_id, message, is_member, now).1;
            let scope = h.contract_version == a.contract_version && h.network_id == a.network_id
                && h.plane == a.plane;
            let on_time = h.issued_at_epoch_ms <= now + a.max_clock_skew_ms && now
                <= h.issued_at_epoch_ms + a.max_clock_skew_ms;
            let signed = hello_checked(h, member_id, message);
            let open = pending.contains_key(h.challenge) && now <= pending[h.challenge];
            &&& !scope ==> r is Err && r->Err_0 is ScopeMismatch
            &&& scope && !on_time ==> r is Err && r->Err_0 is ClockSkew
            &&& scope && on_time && !is_endpoint(h.endpoint) ==> r is Err && r->Err_0
                is InvalidEndpoint
            &&& scope && on_time && is_endpoint(h.endpoint) && signed is Err ==> r is Err
                && r->Err_0 == DiscoveryErrorModel::Identity(signed->Err_0)
            &&& scope && on_time && is_endpoint(h.endpoint) && signed is Ok && !open ==> r is Err
                && r->Err_0 is ChallengeRejected
            &&& scope && on_time && is_endpoint(h.endpoint) && signed is Ok && open && !is_member
                ==> r is Err && r->Err_0 is NotMember
        }),
{
}

/// A challenge is kept until its time is over, and its time is over so many
/// milliseconds after it was issued, or never where that cannot be counted.
pub proof fn lemma_challenges_are_kept_exactly(
    pending: Map<Seq<char>, u64>,
    challenge: Seq<char>,
    now: u64,
    ttl_ms: u64,
)
    ensures
        still_valid(pending, now).contains_key(challenge) <==> pending.contains_key(challenge)
            && now <= pending[challenge],
        still_valid(pending, now).contains_key(challenge) ==> still_valid(pending, now)[challenge]
            == pending[challenge],
        now + ttl_ms <= u64::MAX ==> expiry(now, ttl_ms) == now + ttl_ms,
        now + ttl_ms > u64::MAX ==> expiry(now, ttl_ms) == u64::MAX,
{
}

/// What replacing takes out: of the peers all of that member, of the endpoints
/// those that this member told itself, of the connections those of that member
/// to that endpoint. All others stay, in their order.
pub proof fn lemma_replacing_is_exact(
    peers: Seq<StoredPeerModel>,
    p: StoredPeerModel,
    endpoints: Seq<EndpointModel>,
    e: EndpointModel,
    connections: Seq<ConnectionModel>,
    c: ConnectionModel,
    member_id: Seq<char>,
    endpoint: Seq<char>,
)
    ensures
        peers_without(Seq::empty(), member_id).len() == 0,
        peers_without(peers.push(p), member_id) == (if p.member_id == member_id {
            peers_without(peers, member_id)
        } else {
            peers_without(peers, member_id).push(p)
        }),
        endpoints_without(Seq::empty(), member_id).len() == 0,
        endpoints_without(endpoints.push(e), member_id) == (if e.member_id == member_id
            && e.source is AuthenticatedPeer {
            endpoints_without(endpoints, member_id)
        } else {
            endpoints_without(endpoints, member_id).push(e)
        }),
        connections_without(Seq::empty(), member_id, endpoint).len() == 0,
        connections_without(connections.push(c), member_id, endpoint) == (if c.member_id
            == member_id && c.endpoint == endpoint {
            connections_without(connections, member_id, endpoint)
        } else {
            connections_without(connections, member_id, endpoint).push(c)
        }),
{
    assert(peers.push(p).drop_last() =~= peers);
    assert(endpoints.push(e).drop_last() =~= endpoints);
    assert(connections.push(c).drop_last() =~= connections);
}

/// What is stored of a peer and told of it is what it authenticated with, and a
/// connection is noted at the peer that it was made to, and at no other.
pub proof fn lemma_records_tell_the_peer(
    p: PeerModel,
    s: StoredPeerModel,
    c: ConnectionModel,
    member_id: Seq<char>,
    endpoint: Seq<char>,
    now: u64,
)
    ensures
        stored(p).member_id == p.member_id && stored(p).endpoint == p.endpoint,
        stored(p).plane == p.plane && stored(p).root_public_key == p.root_public_key,
        stored(p).authenticated_at_epoch_ms == p.authenticated_at_epoch_ms,
        stored(p).last_success_epoch_ms is None,
        own_endpoint(p).member_id == p.member_id && own_endpoint(p).endpoint == p.endpoint,
        own_endpoint(p).source is AuthenticatedPeer,
        own_endpoint(p).observed_at_epoch_ms == p.authenticated_at_epoch_ms,
        peer_endpoint(s).member_id == s.member_id && peer_endpoint(s).endpoint == s.endpoint,
        peer_endpoint(s).source is AuthenticatedPeer,
        peer_endpoint(s).observed_at_epoch_ms == s.authenticated_at_epoch_ms,
        earlier_endpoint(c).member_id == c.member_id && earlier_endpoint(c).endpoint == c.endpoint,
        earlier_endpoint(c).source is PreviousConnection,
        earlier_endpoint(c).observed_at_epoch_ms == c.connected_at_epoch_ms,
        s.member_id == member_id && s.endpoint == endpoint ==> connected(
            s,
            member_id,
            endpoint,
            now,
        ).last_success_epoch_ms == Some(now),
        s.member_id != member_id || s.endpoint != endpoint ==> connected(
            s,
            member_id,
            endpoint,
            now,
        ) == s,
        (StoredPeerModel {
            last_success_epoch_ms: s.last_success_epoch_ms,
            ..connected(s, member_id, endpoint, now)
        }) == s,
{
}

/// The peers of a plane are those that have it, and an earlier connection is
/// offered exactly when its member is a known peer of the plane.
pub proof fn lemma_planes_are_kept_apart(
    peers: Seq<StoredPeerModel>,
    p: StoredPeerModel,
    connections: Seq<ConnectionModel>,
    c: ConnectionModel,
    plane: DiscoveryPlane,
)
    ensures
        of_plane(Seq::empty(), plane).len() == 0,
        of_plane(peers.push(p), plane) == (if p.plane == plane {
            of_plane(peers, plane).push(p)
        } else {
            of_plane(peers, plane)
        }),
        earlier_endpoints(Seq::empty(), peers, plane).len() == 0,
        ({
            let known = exists|i: int|
                0 <= i < peers.len() && (#[trigger] peers[i]).member_id == c.member_id
                    && peers[i].plane == plane;
            earlier_endpoints(connections.push(c), peers, plane) == (if known {
                earlier_endpoints(connections, peers, plane).push(earlier_endpoint(c))
            } else {
                earlier_endpoints(connections, peers, plane)
            })
        }),
{
    assert(peers.push(p).drop_last() =~= peers);
    assert(connections.push(c).drop_last() =~= connections);
}

/// Later connections come first.
pub proof fn lemma_later_connections_come_first(a: ConnectionModel, b: ConnectionModel)
    ensures
        lex_le(latest_first()(a), latest_first()(b)) <==> a.connected_at_epoch_ms
            >= b.connected_at_epoch_ms,
{
    let x = latest_first()(a);
    let y = latest_first()(b);
    assert(x.len() == 1 && y.len() == 1);
    assert(lex_le(x.drop_first(), y.drop_first()));
}

/// Candidates come in five groups: earlier connections, the members of the
/// manifest, the genesis nodes, the mirrors and the suggestions. Each group is
/// whole and none comes before one that is named before it.
pub proof fn lemma_candidates_come_in_groups(
    successes: Seq<ConnectionModel>,
    peers: Seq<StoredPeerModel>,
    plane: DiscoveryPlane,
    manifest: Option<MembershipManifestV1>,
    genesis: Seq<EndpointModel>,
    mirrors: Seq<EndpointModel>,
    suggestions: Seq<EndpointModel>,
)
    ensures
        ({
            let all = candidates(
                successes,
                peers,
                plane,
                manifest,
                genesis,
                mirrors,
                suggestions,
            );
            let first = earlier_endpoints(stable_sorted(successes, latest_first()), peers, plane);
            let members = match manifest {
                Some(m) => m.members@.len(),
                None => 0,
            };
            let a = first.len() as int;
            let b = a + members;
            let c = b + genesis.len();
            let d = c + mirrors.len();
            &&& all.len() == d + suggestions.len()
            &&& all.subrange(0, a) == first
            &&& forall|i: int| #![trigger all[a + i]]
                0 <= i < members ==> {
                    &&& all[a + i].member_id == manifest->0.members@[i].member_id@
                    &&& all[a + i].endpoint == manifest->0.members@[i].endpoint@
                    &&& all[a + i].source is CurrentManifest
                    &&& all[a + i].observed_at_epoch_ms == manifest->0.epoch
                }
            &&& all.subrange(b, c) == genesis
            &&& all.subrange(c, d) == mirrors
            &&& all.subrange(d, all.len() as int) == suggestions
        }),
{
    let all = candidates(successes, peers, plane, manifest, genesis, mirrors, suggestions);
    let first = earlier_endpoints(stable_sorted(successes, latest_first()), peers, plane);
    let members = match manifest {
        Some(m) => m.members@.len(),
        None => 0,
    };
    let a = first.len() as int;
    let b = a + members;
    let c = b + genesis.len();
    let d = c + mirrors.len();
    assert(all.subrange(0, a) =~= first);
    assert(all.subrange(b, c) =~= genesis);
    assert(all.subrange(c, d) =~= mirrors);
    assert(all.subrange(d, all.len() as int) =~= suggestions);
}

/// Of several candidates for an endpoint the first is kept.
pub proof fn lemma_first_candidate_is_kept(s: Seq<EndpointModel>, e: EndpointModel)
    ensures
        first_of_each(Seq::empty()).len() == 0,
        first_of_each(s.push(e)) == (if exists|i: int|
            0 <= i < s.len() && (#[trigger] s[i]).endpoint == e.endpoint {
            first_of_each(s)
        } else {
            first_of_each(s).push(e)
        }),
{
    assert(s.push(e).drop_last() =~= s);
}

/// A file stands in its directory: its path is that of the directory, one
/// slash, and its name.
pub proof fn lemma_files_stand_in_their_directory(root: Seq<char>, name: Seq<char>)
    requires
        root.len() > 0,
    ensures
        root.last() == '/' ==> in_directory(root, name) == root + name,
        root.last() != '/' ==> in_directory(root, name) == root.push('/') + name,
        in_directory(root.push('/'), name) == root.push('/') + name,
{
    reveal_strlit("/");
    assert(root + "/"@ =~= root.push('/'));
}

} // verus!
