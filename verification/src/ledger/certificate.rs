//! Certificates, checkpoints and certified snapshots.

use crate::ledger::error::{outcome, ErrorModel, LedgerError};
use crate::ledger::state_machine::{LedgerModel, LedgerState};
use crate::ledger::state_root::{compute_membership_hash, compute_state_root, membership_hash,
    state_root};
use crate::digest::hex_text;
use crate::text::str_eq;
use vstd::prelude::*;

verus! {

/// One node's signature over a commit certificate.
#[derive(Debug, PartialEq, Eq)]
pub struct NodeSignature {
    /// The node that produced this signature.
    pub node_id: String,
    /// The signature in hexadecimal.
    pub signature_hex: String,
}

impl Clone for NodeSignature {
    fn clone(&self) -> (r: Self)
        ensures
            r == *self,
    {
        NodeSignature { node_id: self.node_id.clone(), signature_hex: self.signature_hex.clone() }
    }
}

/// A signature with its texts as sequences of characters.
pub struct SignatureModel {
    pub node_id: Seq<char>,
    pub signature_hex: Seq<char>,
}

impl View for NodeSignature {
    type V = SignatureModel;

    open spec fn view(&self) -> SignatureModel {
        SignatureModel { node_id: self.node_id@, signature_hex: self.signature_hex@ }
    }
}

/// What a sequence of signatures stands for.
pub open spec fn signature_models(s: Seq<NodeSignature>) -> Seq<SignatureModel> {
    Seq::new(s.len(), |i: int| s[i]@)
}

/// Attests that a command was committed by the cluster.
///
/// A cluster of one node signs for itself; the form is that of certificates
/// of several nodes.
#[derive(Debug, PartialEq, Eq)]
pub struct QuorumCertificate {
    /// Cluster that produced this certificate.
    pub cluster_id: String,
    /// Epoch in which the command was committed.
    pub epoch: u64,
    /// View in which the command was committed.
    pub view: u64,
    /// Sequence number of the committed command.
    pub sequence: u64,
    /// Hash of the committed command.
    pub command_hash: String,
    /// State root before the command.
    pub previous_state_root: String,
    /// State root after the command.
    pub resulting_state_root: String,
    /// Which nodes signed: bit `i` stands for node `i`.
    pub signer_bitmap: Vec<u8>,
    /// The signatures.
    pub signatures: Vec<NodeSignature>,
}

/// A certificate with its texts as sequences of characters.
pub struct CertificateModel {
    pub cluster_id: Seq<char>,
    pub epoch: u64,
    pub view: u64,
    pub sequence: u64,
    pub command_hash: Seq<char>,
    pub previous_state_root: Seq<char>,
    pub resulting_state_root: Seq<char>,
    pub signer_bitmap: Seq<u8>,
    pub signatures: Seq<SignatureModel>,
}

impl View for QuorumCertificate {
    type V = CertificateModel;

    open spec fn view(&self) -> CertificateModel {
        CertificateModel {
            cluster_id: self.cluster_id@,
            epoch: self.epoch,
            view: self.view,
            sequence: self.sequence,
            command_hash: self.command_hash@,
            previous_state_root: self.previous_state_root@,
            resulting_state_root: self.resulting_state_root@,
            signer_bitmap: self.signer_bitmap@,
            signatures: signature_models(self.signatures@),
        }
    }
}

impl Clone for QuorumCertificate {
    fn clone(&self) -> (r: Self)
        ensures
            r@ == self@,
    {
        let mut bitmap: Vec<u8> = Vec::new();
        crate::codec::put(&mut bitmap, self.signer_bitmap.as_slice());
        let mut signatures: Vec<NodeSignature> = Vec::new();
        let mut i: usize = 0;
        while i < self.signatures.len()
            invariant
                i <= self.signatures@.len(),
                signatures@ == self.signatures@.take(i as int),
            decreases self.signatures.len() - i,
        {
            signatures.push(self.signatures[i].clone());
            assert(self.signatures@.take(i + 1) =~= self.signatures@.take(i as int).push(
                self.signatures@[i as int],
            ));
            i += 1;
        }
        assert(self.signatures@.take(i as int) =~= self.signatures@);
        assert(bitmap@ =~= self.signer_bitmap@);
        QuorumCertificate {
            cluster_id: self.cluster_id.clone(),
            epoch: self.epoch,
            view: self.view,
            sequence: self.sequence,
            command_hash: self.command_hash.clone(),
            previous_state_root: self.previous_state_root.clone(),
            resulting_state_root: self.resulting_state_root.clone(),
            signer_bitmap: bitmap,
            signatures,
        }
    }
}

/// How many binary digits of a number are one.
pub open spec fn bits_set(n: nat) -> nat
    decreases n,
{
    if n == 0 {
        0
    } else {
        n % 2 + bits_set(n / 2)
    }
}

/// How many bits of a bitmap are set.
pub open spec fn signers_marked(bitmap: Seq<u8>) -> nat
    decreases bitmap.len(),
{
    if bitmap.len() == 0 {
        0
    } else {
        signers_marked(bitmap.drop_last()) + bits_set(bitmap.last() as nat)
    }
}

proof fn lemma_bits_set_at_most(n: nat, k: nat)
    requires
        n < vstd::arithmetic::power2::pow2(k),
    ensures
        bits_set(n) <= k,
    decreases k,
{
    if k == 0 {
        vstd::arithmetic::power2::lemma2_to64();
    } else {
        vstd::arithmetic::power2::lemma_pow2_unfold(k);
        if n > 0 {
            lemma_bits_set_at_most(n / 2, (k - 1) as nat);
        }
    }
}

/// Counts the bits of a byte that are set.
fn count_bits(byte: u8) -> (r: u64)
    ensures
        r == bits_set(byte as nat),
        r <= 8,
{
    let mut n: u8 = byte;
    let mut count: u64 = 0;
    proof {
        vstd::arithmetic::power2::lemma2_to64();
        lemma_bits_set_at_most(byte as nat, 8);
    }
    while n > 0
        invariant
            count + bits_set(n as nat) == bits_set(byte as nat),
            bits_set(byte as nat) <= 8,
        decreases n,
    {
        count = count + (n % 2) as u64;
        n = n / 2;
    }
    count
}

/// Whether as many bits of a bitmap are set as there are signatures.
fn bitmap_matches(bitmap: &Vec<u8>, signatures: usize) -> (r: bool)
    ensures
        r == (signers_marked(bitmap@) == signatures),
{
    let mut marked: u128 = 0;
    let mut i: usize = 0;
    assert(bitmap@.take(0) =~= Seq::<u8>::empty());
    while i < bitmap.len()
        invariant
            i <= bitmap@.len(),
            marked == signers_marked(bitmap@.take(i as int)),
            marked <= 8 * i,
        decreases bitmap.len() - i,
    {
        assert(bitmap@.take(i + 1).drop_last() =~= bitmap@.take(i as int));
        marked = marked + count_bits(bitmap[i]) as u128;
        i += 1;
    }
    assert(bitmap@.take(i as int) =~= bitmap@);
    marked == signatures as u128
}

/// The nodes that signed.
pub open spec fn signers(s: Seq<SignatureModel>) -> Set<Seq<char>> {
    s.map_values(|x: SignatureModel| x.node_id).to_set()
}

/// The outcome of a structural check of a certificate.
pub open spec fn certificate_checked(c: CertificateModel) -> Result<(), ErrorModel> {
    if c.previous_state_root.len() == 0 {
        Err(ErrorModel::InvalidSignature("previous_state_root is empty"@))
    } else if c.resulting_state_root.len() == 0 {
        Err(ErrorModel::InvalidSignature("resulting_state_root is empty"@))
    } else if c.command_hash.len() == 0 {
        Err(ErrorModel::InvalidSignature("command_hash is empty"@))
    } else if c.signatures.len() == 0 {
        Err(ErrorModel::InvalidSignature("no signatures in quorum certificate"@))
    } else if c.signer_bitmap.len() == 0 {
        Err(ErrorModel::InvalidSignature("signer_bitmap is empty"@))
    } else if signers_marked(c.signer_bitmap) != c.signatures.len() {
        Err(ErrorModel::InvalidSignature("signature count does not match signer_bitmap"@))
    } else {
        Ok(())
    }
}

/// An `InvalidSignature` error.
fn invalid_signature(text: &str) -> (r: LedgerError)
    ensures
        r@ == ErrorModel::InvalidSignature(text@),
{
    LedgerError::InvalidSignature(text.to_owned())
}

impl QuorumCertificate {
    /// The certificate of a cluster of one node, signed by itself.
    pub fn single_node(
        cluster_id: &str,
        epoch: u64,
        view: u64,
        sequence: u64,
        command_hash: &str,
        previous_state_root: &str,
        resulting_state_root: &str,
        node_id: &str,
        signature_hex: &str,
    ) -> (r: Self)
        ensures
            r@ == (CertificateModel {
                cluster_id: cluster_id@,
                epoch,
                view,
                sequence,
                command_hash: command_hash@,
                previous_state_root: previous_state_root@,
                resulting_state_root: resulting_state_root@,
                signer_bitmap: seq![1u8],
                signatures: seq![
                    SignatureModel { node_id: node_id@, signature_hex: signature_hex@ },
                ],
            }),
    {
        let mut bitmap: Vec<u8> = Vec::new();
        bitmap.push(1);
        let mut signatures: Vec<NodeSignature> = Vec::new();
        signatures.push(
            NodeSignature { node_id: node_id.to_owned(), signature_hex: signature_hex.to_owned() },
        );
        let r = QuorumCertificate {
            cluster_id: cluster_id.to_owned(),
            epoch,
            view,
            sequence,
            command_hash: command_hash.to_owned(),
            previous_state_root: previous_state_root.to_owned(),
            resulting_state_root: resulting_state_root.to_owned(),
            signer_bitmap: bitmap,
            signatures,
        };
        assert(r@.signer_bitmap =~= seq![1u8]);
        assert(r@.signatures =~= seq![
            SignatureModel { node_id: node_id@, signature_hex: signature_hex@ },
        ]);
        r
    }

    /// The number of distinct signers: a node that signed twice counts once.
    pub fn signer_count(&self) -> (r: usize)
        ensures
            r == signers(self@.signatures).len(),
    {
        let ghost all = self@.signatures;
        let ghost ids = all.map_values(|s: SignatureModel| s.node_id);
        let mut count: usize = 0;
        let mut i: usize = 0;
        assert(ids.take(0).to_set() =~= Set::<Seq<char>>::empty());
        while i < self.signatures.len()
            invariant
                i <= self.signatures@.len(),
                all == self@.signatures,
                ids == all.map_values(|s: SignatureModel| s.node_id),
                count <= i,
                ids.take(i as int).to_set().finite(),
                count == ids.take(i as int).to_set().len(),
            decreases self.signatures.len() - i,
        {
            let mut seen = false;
            let mut j: usize = 0;
            while j < i
                invariant
                    j <= i < self.signatures@.len(),
                    all == self@.signatures,
                    ids == all.map_values(|s: SignatureModel| s.node_id),
                    seen == ids.take(j as int).contains(ids[i as int]),
                decreases i - j,
            {
                assert(ids.take(j + 1) =~= ids.take(j as int).push(ids[j as int]));
                assert(ids.take(j + 1)[j as int] == ids[j as int]);
                assert forall|x: Seq<char>| ids.take(j as int).contains(x) implies ids.take(
                    j + 1,
                ).contains(x) by {
                    let k = choose|k: int| 0 <= k < j && ids.take(j as int)[k] == x;
                    assert(ids.take(j + 1)[k] == x);
                }
                if str_eq(self.signatures[j].node_id.as_str(), self.signatures[i].node_id.as_str()) {
                    seen = true;
                }
                j += 1;
            }
            proof {
                let before = ids.take(i as int);
                let after = ids.take(i + 1);
                assert(after =~= before.push(ids[i as int]));
                assert(after.to_set() =~= before.to_set().insert(ids[i as int])) by {
                    assert forall|x: Seq<char>| before.contains(x) implies after.contains(x) by {
                        let k = choose|k: int| 0 <= k < before.len() && before[k] == x;
                        assert(after[k] == x);
                    }
                    assert(after[i as int] == ids[i as int]);
                }
                assert(before.to_set().contains(ids[i as int]) == seen);
            }
            if !seen {
                count += 1;
            }
            i += 1;
        }
        assert(ids.take(i as int) =~= ids);
        count
    }

    /// Checks the structure of the certificate: roots and command hash are
    /// there, and as many nodes are marked as signed. Signatures themselves
    /// are not verified here.
    pub fn verify_basic(&self) -> (r: Result<(), LedgerError>)
        ensures
            outcome(r) == certificate_checked(self@),
    {
        if self.previous_state_root.as_str().is_empty() {
            return Err(invalid_signature("previous_state_root is empty"));
        }
        if self.resulting_state_root.as_str().is_empty() {
            return Err(invalid_signature("resulting_state_root is empty"));
        }
        if self.command_hash.as_str().is_empty() {
            return Err(invalid_signature("command_hash is empty"));
        }
        if self.signatures.len() == 0 {
            return Err(invalid_signature("no signatures in quorum certificate"));
        }
        if self.signer_bitmap.len() == 0 {
            return Err(invalid_signature("signer_bitmap is empty"));
        }
        if !bitmap_matches(&self.signer_bitmap, self.signatures.len()) {
            return Err(invalid_signature("signature count does not match signer_bitmap"));
        }
        Ok(())
    }
}

/// A certificate that a node signs for itself passes the structural check
/// exactly when both roots and the command hash are there.
pub proof fn lemma_single_node_certificates_pass(c: CertificateModel)
    requires
        c.signer_bitmap == seq![1u8],
        c.signatures.len() == 1,
    ensures
        certificate_checked(c) is Ok <==> c.previous_state_root.len() > 0
            && c.resulting_state_root.len() > 0 && c.command_hash.len() > 0,
{
    assert(seq![1u8].drop_last() =~= Seq::<u8>::empty());
    reveal_with_fuel(bits_set, 2);
    reveal_with_fuel(signers_marked, 2);
}

/// A verified point in the history of the ledger.
#[derive(Debug, PartialEq, Eq)]
pub struct Checkpoint {
    /// Sequence number at which the checkpoint was taken.
    pub sequence: u64,
    /// State root at this sequence.
    pub state_root: String,
    /// Hash of the membership.
    pub membership_hash: String,
    /// Hash of the last journal entry, which stands for all before it.
    pub committed_commands_root: String,
    /// Time bucket when the checkpoint was created.
    pub timestamp_bucket: u64,
    /// Certificate that attests to this checkpoint.
    pub quorum_certificate: Option<QuorumCertificate>,
}

/// The root of all committed commands: the hash of the last journal entry.
pub open spec fn commands_root(s: LedgerModel) -> Seq<char> {
    if s.journal.len() == 0 {
        "0"@
    } else {
        s.journal.last().entry_hash
    }
}

/// The sequence number of the last transition.
pub open spec fn last_sequence(s: LedgerModel) -> u64 {
    if s.version == 0 {
        0
    } else {
        (s.version - 1) as u64
    }
}

/// The outcome of holding a checkpoint against a state.
pub open spec fn checkpoint_verified(
    root: Seq<char>,
    membership: Seq<char>,
    s: LedgerModel,
) -> Result<(), ErrorModel> {
    let hash = hex_text(membership_hash(s.membership));
    if root != state_root(s) {
        Err(ErrorModel::StateRootMismatch { expected: state_root(s), got: root })
    } else if membership != hash {
        Err(
            ErrorModel::InvariantViolation(
                "membership hash mismatch: expected "@ + hash + ", got "@ + membership,
            ),
        )
    } else {
        Ok(())
    }
}

impl Checkpoint {
    /// A checkpoint of a state.
    pub fn from_state(
        state: &LedgerState,
        timestamp_bucket: u64,
        quorum_certificate: Option<QuorumCertificate>,
    ) -> (r: Self)
        ensures
            r.sequence == last_sequence(state@),
            r.state_root@ == state_root(state@),
            r.membership_hash@ == hex_text(membership_hash(state@.membership)),
            r.committed_commands_root@ == commands_root(state@),
            r.timestamp_bucket == timestamp_bucket,
            r.quorum_certificate == quorum_certificate,
    {
        let n: usize = state.journal.len();
        let committed_commands_root = if n == 0 {
            "0".to_owned()
        } else {
            assert(state@.journal.last() == state.journal@[n - 1]@);
            state.journal[n - 1].entry_hash.clone()
        };
        let sequence: u64 = if state.version == 0 {
            0
        } else {
            state.version - 1
        };
        Checkpoint {
            sequence,
            state_root: compute_state_root(state),
            membership_hash: compute_membership_hash(&state.membership),
            committed_commands_root,
            timestamp_bucket,
            quorum_certificate,
        }
    }

    /// Holds the checkpoint against a state.
    pub fn verify(&self, state: &LedgerState) -> (r: Result<(), LedgerError>)
        ensures
            outcome(r) == checkpoint_verified(self.state_root@, self.membership_hash@, state@),
    {
        let root = compute_state_root(state);
        if self.state_root != root {
            return Err(
                LedgerError::StateRootMismatch { expected: root, got: self.state_root.clone() },
            );
        }
        let hash = compute_membership_hash(&state.membership);
        if self.membership_hash != hash {
            let mut m = "membership hash mismatch: expected ".to_owned();
            m.append(hash.as_str());
            m.append(", got ");
            m.append(self.membership_hash.as_str());
            return Err(LedgerError::InvariantViolation(m));
        }
        Ok(())
    }
}

/// A checkpoint taken of a state is verified against that state, and against
/// every state with the same root and membership hash and no other.
pub proof fn lemma_checkpoint_verifies_its_state(s: LedgerModel, t: LedgerModel)
    ensures
        checkpoint_verified(state_root(s), hex_text(membership_hash(s.membership)), s) is Ok,
        checkpoint_verified(state_root(s), hex_text(membership_hash(s.membership)), t) is Ok
            <==> state_root(t) == state_root(s) && hex_text(membership_hash(t.membership))
            == hex_text(membership_hash(s.membership)),
{
}

/// Everything that a new or recovering node needs to start from a trusted
/// point without replaying the whole log.
#[derive(Debug, PartialEq, Eq)]
pub struct CertifiedSnapshot {
    /// Cluster that produced this snapshot.
    pub cluster_id: String,
    /// Epoch when the snapshot was taken.
    pub epoch: u64,
    /// Sequence number at which the snapshot was taken.
    pub sequence: u64,
    /// The serialised state.
    pub state_bytes: Vec<u8>,
    /// Root of the state.
    pub state_root: String,
    /// Hash of the membership.
    pub membership_hash: String,
    /// Hash of the cluster constitution.
    pub constitution_hash: String,
    /// Hash of the cluster policy.
    pub policy_hash: String,
    /// Hash of the ledger totals.
    pub ledger_totals_hash: String,
    /// Root of the tracked outputs.
    pub utxo_set_root: String,
    /// Root of the consumed intents.
    pub consumed_intents_root: String,
    /// Certificate that attests to this snapshot.
    pub quorum_certificate: QuorumCertificate,
}

/// A snapshot with its texts as sequences of characters.
pub struct SnapshotModel {
    pub cluster_id: Seq<char>,
    pub epoch: u64,
    pub sequence: u64,
    pub state_bytes: Seq<u8>,
    pub state_root: Seq<char>,
    pub membership_hash: Seq<char>,
    pub constitution_hash: Seq<char>,
    pub policy_hash: Seq<char>,
    pub ledger_totals_hash: Seq<char>,
    pub utxo_set_root: Seq<char>,
    pub consumed_intents_root: Seq<char>,
    pub quorum_certificate: CertificateModel,
}

impl View for CertifiedSnapshot {
    type V = SnapshotModel;

    open spec fn view(&self) -> SnapshotModel {
        SnapshotModel {
            cluster_id: self.cluster_id@,
            epoch: self.epoch,
            sequence: self.sequence,
            state_bytes: self.state_bytes@,
            state_root: self.state_root@,
            membership_hash: self.membership_hash@,
            constitution_hash: self.constitution_hash@,
            policy_hash: self.policy_hash@,
            ledger_totals_hash: self.ledger_totals_hash@,
            utxo_set_root: self.utxo_set_root@,
            consumed_intents_root: self.consumed_intents_root@,
            quorum_certificate: self.quorum_certificate@,
        }
    }
}

impl Clone for CertifiedSnapshot {
    fn clone(&self) -> (r: Self)
        ensures
            r@ == self@,
    {
        let mut bytes: Vec<u8> = Vec::new();
        crate::codec::put(&mut bytes, self.state_bytes.as_slice());
        assert(bytes@ =~= self.state_bytes@);
        CertifiedSnapshot {
            cluster_id: self.cluster_id.clone(),
            epoch: self.epoch,
            sequence: self.sequence,
            state_bytes: bytes,
            state_root: self.state_root.clone(),
            membership_hash: self.membership_hash.clone(),
            constitution_hash: self.constitution_hash.clone(),
            policy_hash: self.policy_hash.clone(),
            ledger_totals_hash: self.ledger_totals_hash.clone(),
            utxo_set_root: self.utxo_set_root.clone(),
            consumed_intents_root: self.consumed_intents_root.clone(),
            quorum_certificate: self.quorum_certificate.clone(),
        }
    }
}

/// The outcome of a structural check of a snapshot.
pub open spec fn snapshot_checked(s: SnapshotModel) -> Result<(), ErrorModel> {
    if s.cluster_id.len() == 0 {
        Err(ErrorModel::InvalidSignature("cluster_id is empty in CertifiedSnapshot"@))
    } else if s.state_root.len() == 0 {
        Err(ErrorModel::InvalidSignature("state_root is empty in CertifiedSnapshot"@))
    } else if s.state_bytes.len() == 0 {
        Err(ErrorModel::InvalidSignature("state_bytes is empty in CertifiedSnapshot"@))
    } else if s.membership_hash.len() == 0 {
        Err(ErrorModel::InvalidSignature("membership_hash is empty in CertifiedSnapshot"@))
    } else if s.constitution_hash.len() == 0 {
        Err(ErrorModel::InvalidSignature("constitution_hash is empty in CertifiedSnapshot"@))
    } else if s.policy_hash.len() == 0 {
        Err(ErrorModel::InvalidSignature("policy_hash is empty in CertifiedSnapshot"@))
    } else if s.ledger_totals_hash.len() == 0 {
        Err(ErrorModel::InvalidSignature("ledger_totals_hash is empty in CertifiedSnapshot"@))
    } else if s.utxo_set_root.len() == 0 {
        Err(ErrorModel::InvalidSignature("utxo_set_root is empty in CertifiedSnapshot"@))
    } else if s.consumed_intents_root.len() == 0 {
        Err(ErrorModel::InvalidSignature("consumed_intents_root is empty in CertifiedSnapshot"@))
    } else {
        certificate_checked(s.quorum_certificate)
    }
}

impl CertifiedSnapshot {
    /// Checks the structure of the snapshot: identity, state and every hash
    /// are there, and the certificate passes its own check. Whether the state
    /// fits its root is not checked here.
    pub fn verify_basic(&self) -> (r: Result<(), LedgerError>)
        ensures
            outcome(r) == snapshot_checked(self@),
    {
        if self.cluster_id.as_str().is_empty() {
            return Err(invalid_signature("cluster_id is empty in CertifiedSnapshot"));
        }
        if self.state_root.as_str().is_empty() {
            return Err(invalid_signature("state_root is empty in CertifiedSnapshot"));
        }
        if self.state_bytes.len() == 0 {
            return Err(invalid_signature("state_bytes is empty in CertifiedSnapshot"));
        }
        if self.membership_hash.as_str().is_empty() {
            return Err(invalid_signature("membership_hash is empty in CertifiedSnapshot"));
        }
        if self.constitution_hash.as_str().is_empty() {
            return Err(invalid_signature("constitution_hash is empty in CertifiedSnapshot"));
        }
        if self.policy_hash.as_str().is_empty() {
            return Err(invalid_signature("policy_hash is empty in CertifiedSnapshot"));
        }
        if self.ledger_totals_hash.as_str().is_empty() {
            return Err(invalid_signature("ledger_totals_hash is empty in CertifiedSnapshot"));
        }
        if self.utxo_set_root.as_str().is_empty() {
            return Err(invalid_signature("utxo_set_root is empty in CertifiedSnapshot"));
        }
        if self.consumed_intents_root.as_str().is_empty() {
            return Err(invalid_signature("consumed_intents_root is empty in CertifiedSnapshot"));
        }
        self.quorum_certificate.verify_basic()
    }
}

/// A certificate passes exactly when its roots, its command, its signatures and
/// its marks are there and as many are marked as signed.
pub proof fn lemma_certificates_pass_exactly(c: CertificateModel)
    ensures
        certificate_checked(c) is Ok <==> {
            &&& c.previous_state_root.len() > 0
            &&& c.resulting_state_root.len() > 0
            &&& c.command_hash.len() > 0
            &&& c.signatures.len() > 0
            &&& c.signer_bitmap.len() > 0
            &&& signers_marked(c.signer_bitmap) == c.signatures.len()
        },
{
}

/// Marks are counted bit by bit and byte by byte.
pub proof fn lemma_marks_are_counted(bitmap: Seq<u8>, b: u8, n: nat)
    ensures
        signers_marked(Seq::empty()) == 0,
        signers_marked(bitmap.push(b)) == signers_marked(bitmap) + bits_set(b as nat),
        bits_set(0) == 0,
        bits_set(2 * n) == bits_set(n),
        bits_set(2 * n + 1) == bits_set(n) + 1,
{
    assert(bitmap.push(b).drop_last() =~= bitmap);
    assert((2 * n) / 2 == n && (2 * n) % 2 == 0);
    assert((2 * n + 1) / 2 == n && (2 * n + 1) % 2 == 1);
}

/// A node is among the signers exactly when one of the signatures is its own.
pub proof fn lemma_signers_signed(s: Seq<SignatureModel>, node: Seq<char>)
    ensures
        signers(s).contains(node) <==> exists|i: int|
            0 <= i < s.len() && (#[trigger] s[i]).node_id == node,
{
    let ids = s.map_values(|x: SignatureModel| x.node_id);
    if exists|i: int| 0 <= i < s.len() && (#[trigger] s[i]).node_id == node {
        let i = choose|i: int| 0 <= i < s.len() && (#[trigger] s[i]).node_id == node;
        assert(ids[i] == node);
    }
    if signers(s).contains(node) {
        let i = choose|i: int| 0 <= i < ids.len() && ids[i] == node;
        assert(s[i].node_id == node);
    }
}

/// A checkpoint holds of a state exactly when it names its root and the hash of
/// its membership; what it records of a state is the last command's number and
/// the last entry's hash.
pub proof fn lemma_checkpoints_hold_exactly(
    root: Seq<char>,
    membership: Seq<char>,
    s: LedgerModel,
)
    ensures
        checkpoint_verified(root, membership, s) is Ok <==> root == state_root(s) && membership
            == hex_text(membership_hash(s.membership)),
        root != state_root(s) ==> checkpoint_verified(root, membership, s)->Err_0
            is StateRootMismatch,
        s.version > 0 ==> last_sequence(s) == s.version - 1,
        s.version == 0 ==> last_sequence(s) == 0,
        s.journal.len() > 0 ==> commands_root(s) == s.journal.last().entry_hash,
        s.journal.len() == 0 ==> commands_root(s) == "0"@,
{
}

/// A snapshot passes exactly when nothing in it is empty and its certificate
/// passes.
pub proof fn lemma_snapshots_pass_exactly(s: SnapshotModel)
    ensures
        snapshot_checked(s) is Ok <==> {
            &&& s.cluster_id.len() > 0
            &&& s.state_root.len() > 0
            &&& s.state_bytes.len() > 0
            &&& s.membership_hash.len() > 0
            &&& s.constitution_hash.len() > 0
            &&& s.policy_hash.len() > 0
            &&& s.ledger_totals_hash.len() > 0
            &&& s.utxo_set_root.len() > 0
            &&& s.consumed_intents_root.len() > 0
            &&& s.quorum_certificate.previous_state_root.len() > 0
            &&& s.quorum_certificate.resulting_state_root.len() > 0
            &&& s.quorum_certificate.command_hash.len() > 0
            &&& s.quorum_certificate.signatures.len() > 0
            &&& s.quorum_certificate.signer_bitmap.len() > 0
            &&& signers_marked(s.quorum_certificate.signer_bitmap)
                == s.quorum_certificate.signatures.len()
        },
{
}

} // verus!
