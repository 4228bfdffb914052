//! Cluster membership.

use crate::ledger::error::{outcome, ErrorModel, LedgerError};
use crate::ledger::replication::{may_vote, sync_name, ReplicationStatus, SyncStatus};
use crate::table::{sorted_keys, Table};
use crate::text::{clone_option, decimal, texts, u64_text};
use vstd::prelude::*;

verus! {

/// The role of a node in the cluster.
///
/// Nodes gain trust step by step: untrusted, observer, learner, voter.
#[derive(Debug, Clone, Copy, PartialEq, Eq, Hash, Structural)]
pub enum NodeRole {
    /// Node is not yet attested.
    Untrusted,
    /// Node can observe ledger state (read-only access).
    Observer,
    /// Node has installed a snapshot and is catching up.
    Learner,
    /// Node is a full voting member of the cluster.
    Voter,
}

/// The name of a variant.
pub open spec fn role_name(v: NodeRole) -> Seq<char> {
    match v {
        NodeRole::Untrusted => "Untrusted"@,
        NodeRole::Observer => "Observer"@,
        NodeRole::Learner => "Learner"@,
        NodeRole::Voter => "Voter"@,
    }
}

impl NodeRole {
    /// The name of this variant.
    pub fn name(&self) -> (r: &'static str)
        ensures
            r@ == role_name(*self),
    {
        match self {
            NodeRole::Untrusted => "Untrusted",
            NodeRole::Observer => "Observer",
            NodeRole::Learner => "Learner",
            NodeRole::Voter => "Voter",
        }
    }
}

/// The membership record of a node.
#[derive(Debug, PartialEq, Eq)]
pub struct NodeMembership {
    /// Globally unique identifier of the node.
    pub node_id: String,
    /// Current role.
    pub role: NodeRole,
    /// Onion endpoint for peers.
    pub onion_endpoint: Option<String>,
    /// Public key of the node.
    pub identity_pubkey: String,
    /// Time bucket when the node was attested.
    pub attested_at_bucket: u64,
    /// Epoch in which the node joined.
    pub joined_epoch: u64,
    /// Time bucket of the last heartbeat.
    pub last_heartbeat_bucket: u64,
    /// Admission signature of an existing member.
    pub admission_signature: Option<String>,
}

impl Clone for NodeMembership {
    fn clone(&self) -> (r: Self)
        ensures
            r == *self,
    {
        NodeMembership {
            node_id: self.node_id.clone(),
            role: self.role,
            onion_endpoint: clone_option(&self.onion_endpoint),
            identity_pubkey: self.identity_pubkey.clone(),
            attested_at_bucket: self.attested_at_bucket,
            joined_epoch: self.joined_epoch,
            last_heartbeat_bucket: self.last_heartbeat_bucket,
            admission_signature: clone_option(&self.admission_signature),
        }
    }
}

/// Whether the admission flow allows a change of role: one step of trust at a
/// time, demotion of a voter to observer, and removal of anyone.
pub open spec fn role_change_allowed(current: NodeRole, target: NodeRole) -> bool {
    ||| target == NodeRole::Untrusted
    ||| current == NodeRole::Untrusted && target == NodeRole::Observer
    ||| current == NodeRole::Observer && target == NodeRole::Learner
    ||| current == NodeRole::Learner && target == NodeRole::Voter
    ||| current == NodeRole::Voter && target == NodeRole::Observer
}

/// The outcome of checking a change of role.
pub open spec fn role_change(current: NodeRole, target: NodeRole) -> Result<(), ErrorModel> {
    if role_change_allowed(current, target) {
        Ok(())
    } else {
        Err(ErrorModel::InvalidRoleTransition { from: current, to: target })
    }
}

/// Checks that the admission flow allows a change of role.
pub fn validate_role_transition(current: NodeRole, target: NodeRole) -> (r: Result<
    (),
    LedgerError,
>)
    ensures
        outcome(r) == role_change(current, target),
{
    let valid = match (current, target) {
        (NodeRole::Untrusted, NodeRole::Observer) => true,
        (NodeRole::Observer, NodeRole::Learner) => true,
        (NodeRole::Learner, NodeRole::Voter) => true,
        (NodeRole::Voter, NodeRole::Observer) => true,
        (_, NodeRole::Untrusted) => true,
        _ => false,
    };
    if valid {
        Ok(())
    } else {
        Err(LedgerError::InvalidRoleTransition { from: current, to: target })
    }
}

/// How far a role is from being untrusted.
pub open spec fn trust(r: NodeRole) -> nat {
    match r {
        NodeRole::Untrusted => 0,
        NodeRole::Observer => 1,
        NodeRole::Learner => 2,
        NodeRole::Voter => 3,
    }
}

/// No node skips a step of the admission flow: trust grows by one at a time,
/// so that a voter was a learner right before.
pub proof fn lemma_trust_grows_step_by_step(current: NodeRole, target: NodeRole)
    requires
        role_change(current, target) is Ok,
    ensures
        trust(target) <= trust(current) + 1,
        target == NodeRole::Voter ==> current == NodeRole::Learner,
{
}

/// Whether every step along a path of roles is allowed.
pub open spec fn role_path_allowed(path: Seq<NodeRole>) -> bool {
    forall|i: int, j: int|
        0 <= i && j == i + 1 && j < path.len() ==> role_change_allowed(
            #[trigger] path[i],
            #[trigger] path[j],
        )
}

/// A node that came from untrusted to voter was an observer and a learner on
/// the way.
pub proof fn lemma_voters_were_admitted(path: Seq<NodeRole>)
    requires
        path.len() > 0,
        path[0] == NodeRole::Untrusted,
        path.last() == NodeRole::Voter,
        role_path_allowed(path),
    ensures
        path.contains(NodeRole::Learner),
        path.contains(NodeRole::Observer),
{
    let n = path.len() as int;
    assert(path[n - 1] == NodeRole::Voter);
    assert(n >= 2);
    assert(role_change_allowed(path[n - 2], path[n - 1]));
    assert(path[n - 2] == NodeRole::Learner);
    assert(n >= 3);
    assert(role_change_allowed(path[n - 3], path[n - 2]));
    assert(path[n - 3] == NodeRole::Observer);
}

/// What happens to the record of a node that changes its role.
pub open spec fn promoted(stored: Option<NodeMembership>, id: Seq<char>, target: NodeRole) -> Result<
    NodeMembership,
    ErrorModel,
> {
    match stored {
        None => Err(ErrorModel::NodeNotFound(id)),
        Some(n) => match role_change(n.role, target) {
            Err(e) => Err(e),
            Ok(_) => Ok(NodeMembership { role: target, ..n }),
        },
    }
}

/// What happens to the record of a node that sends a heartbeat.
pub open spec fn heartbeat(stored: Option<NodeMembership>, id: Seq<char>, bucket: u64) -> Result<
    NodeMembership,
    ErrorModel,
> {
    match stored {
        None => Err(ErrorModel::NodeNotFound(id)),
        Some(n) => Ok(NodeMembership { last_heartbeat_bucket: bucket, ..n }),
    }
}

/// What is stored, as a value.
pub open spec fn stored_node(n: Option<&NodeMembership>) -> Option<NodeMembership> {
    match n {
        Some(x) => Some(*x),
        None => None,
    }
}

/// Changes the role in a stored record.
pub fn promote_node(stored: Option<&NodeMembership>, id: &str, target: NodeRole) -> (r: Result<
    NodeMembership,
    LedgerError,
>)
    ensures
        outcome(r) == promoted(stored_node(stored), id@, target),
{
    match stored {
        None => Err(LedgerError::NodeNotFound(id.to_owned())),
        Some(n) => match validate_role_transition(n.role, target) {
            Err(e) => Err(e),
            Ok(_) => {
                let mut changed = n.clone();
                changed.role = target;
                Ok(changed)
            },
        },
    }
}

/// Records a heartbeat in a stored record.
pub fn record_heartbeat(stored: Option<&NodeMembership>, id: &str, bucket: u64) -> (r: Result<
    NodeMembership,
    LedgerError,
>)
    ensures
        outcome(r) == heartbeat(stored_node(stored), id@, bucket),
{
    match stored {
        None => Err(LedgerError::NodeNotFound(id.to_owned())),
        Some(n) => {
            let mut changed = n.clone();
            changed.last_heartbeat_bucket = bucket;
            Ok(changed)
        },
    }
}

/// The error for a node that is already a member.
pub fn node_exists_error(id: &str) -> (r: LedgerError)
    ensures
        r@ == ErrorModel::InvariantViolation("node \'"@ + id@ + "\' already exists in membership"@),
{
    let mut m = "node '".to_owned();
    m.append(id);
    m.append("' already exists in membership");
    LedgerError::InvariantViolation(m)
}

/// Nodes by identifier.
pub type Nodes = Map<Seq<char>, NodeMembership>;

/// The record of a node.
pub open spec fn node_at(m: Nodes, id: Seq<char>) -> Option<NodeMembership> {
    if m.contains_key(id) {
        Some(m[id])
    } else {
        None
    }
}

/// The nodes of a role among the given identifiers, in their order.
pub open spec fn of_role(m: Nodes, keys: Seq<Seq<char>>, role: NodeRole) -> Seq<NodeMembership>
    decreases keys.len(),
{
    if keys.len() == 0 {
        Seq::empty()
    } else {
        let rest = of_role(m, keys.drop_last(), role);
        if m[keys.last()].role == role {
            rest.push(m[keys.last()])
        } else {
            rest
        }
    }
}

/// Stores and queries the membership of nodes.
pub trait MembershipStore {
    /// The stored nodes.
    spec fn nodes(&self) -> Nodes;

    /// Whether the store is consistent.
    spec fn valid(&self) -> bool;

    /// Adds a node; refuses one that is a member.
    fn add_node(&mut self, node: NodeMembership) -> (r: Result<(), LedgerError>)
        requires
            old(self).valid(),
        ensures
            final(self).valid(),
            if old(self).nodes().contains_key(node.node_id@) {
                &&& outcome(r) == Err::<(), ErrorModel>(
                    ErrorModel::InvariantViolation(
                        "node \'"@ + node.node_id@ + "\' already exists in membership"@,
                    ),
                )
                &&& final(self).nodes() == old(self).nodes()
            } else {
                &&& r is Ok
                &&& final(self).nodes() == old(self).nodes().insert(node.node_id@, node)
            },
    ;

    /// The record of a node.
    fn get_node(&self, node_id: &str) -> (r: Result<Option<NodeMembership>, LedgerError>)
        requires
            self.valid(),
        ensures
            r == Ok::<Option<NodeMembership>, LedgerError>(node_at(self.nodes(), node_id@)),
    ;

    /// The nodes of a role, by ascending identifier.
    fn list_by_role(&self, role: NodeRole) -> (r: Result<Vec<NodeMembership>, LedgerError>)
        requires
            self.valid(),
        ensures
            r is Ok,
            r->Ok_0@ == of_role(self.nodes(), sorted_keys(self.nodes().dom()), role),
    ;

    /// Changes the role of a node.
    fn promote(&mut self, node_id: &str, target_role: NodeRole) -> (r: Result<(), LedgerError>)
        requires
            old(self).valid(),
        ensures
            final(self).valid(),
            match promoted(node_at(old(self).nodes(), node_id@), node_id@, target_role) {
                Ok(n) => r is Ok && final(self).nodes() == old(self).nodes().insert(node_id@, n),
                Err(e) => outcome(r) == Err::<(), ErrorModel>(e) && final(self).nodes()
                    == old(self).nodes(),
            },
    ;

    /// Removes a node.
    fn remove_node(&mut self, node_id: &str) -> (r: Result<(), LedgerError>)
        requires
            old(self).valid(),
        ensures
            final(self).valid(),
            r is Ok,
            final(self).nodes() == old(self).nodes().remove(node_id@),
    ;

    /// Records a heartbeat of a node.
    fn update_heartbeat(&mut self, node_id: &str, bucket: u64) -> (r: Result<(), LedgerError>)
        requires
            old(self).valid(),
        ensures
            final(self).valid(),
            match heartbeat(node_at(old(self).nodes(), node_id@), node_id@, bucket) {
                Ok(n) => r is Ok && final(self).nodes() == old(self).nodes().insert(node_id@, n),
                Err(e) => outcome(r) == Err::<(), ErrorModel>(e) && final(self).nodes()
                    == old(self).nodes(),
            },
    ;
}

/// Membership in memory.
pub struct InMemoryMembershipStore {
    table: Table<NodeMembership>,
}

impl InMemoryMembershipStore {
    /// An empty store.
    pub fn new() -> (r: Self)
        ensures
            r.valid(),
            r.nodes() == Map::<Seq<char>, NodeMembership>::empty(),
    {
        InMemoryMembershipStore { table: Table::new() }
    }
}

impl Default for InMemoryMembershipStore {
    fn default() -> (r: Self)
        ensures
            r.valid(),
            r.nodes() == Map::<Seq<char>, NodeMembership>::empty(),
    {
        InMemoryMembershipStore::new()
    }
}

impl MembershipStore for InMemoryMembershipStore {
    closed spec fn nodes(&self) -> Nodes {
        self.table@
    }

    closed spec fn valid(&self) -> bool {
        self.table.wf()
    }

    fn add_node(&mut self, node: NodeMembership) -> (r: Result<(), LedgerError>) {
        if self.table.contains(node.node_id.as_str()) {
            return Err(node_exists_error(node.node_id.as_str()));
        }
        let id = node.node_id.clone();
        self.table.insert(id, node);
        Ok(())
    }

    fn get_node(&self, node_id: &str) -> (r: Result<Option<NodeMembership>, LedgerError>) {
        match self.table.get(node_id) {
            Some(n) => Ok(Some(n.clone())),
            None => Ok(None),
        }
    }

    fn list_by_role(&self, role: NodeRole) -> (r: Result<Vec<NodeMembership>, LedgerError>) {
        let ghost keys = self.table.ordered();
        let mut nodes: Vec<NodeMembership> = Vec::new();
        let mut i: usize = 0;
        let n: usize = self.table.len();
        proof {
            self.table.lemma_ordered();
            assert(keys.take(0) =~= Seq::<Seq<char>>::empty());
        }
        while i < n
            invariant
                self.table.wf(),
                n == keys.len(),
                i <= n,
                keys == self.table.ordered(),
                nodes@ == of_role(self.table@, keys.take(i as int), role),
            decreases n - i,
        {
            assert(keys.take(i + 1).drop_last() =~= keys.take(i as int));
            let node = self.table.value_at(i);
            if node.role == role {
                nodes.push(node.clone());
            }
            i += 1;
        }
        assert(keys.take(i as int) =~= keys);
        Ok(nodes)
    }

    fn promote(&mut self, node_id: &str, target_role: NodeRole) -> (r: Result<(), LedgerError>) {
        match promote_node(self.table.get(node_id), node_id, target_role) {
            Err(e) => Err(e),
            Ok(n) => {
                self.table.insert(node_id.to_owned(), n);
                Ok(())
            },
        }
    }

    fn remove_node(&mut self, node_id: &str) -> (r: Result<(), LedgerError>) {
        self.table.remove(node_id);
        Ok(())
    }

    fn update_heartbeat(&mut self, node_id: &str, bucket: u64) -> (r: Result<(), LedgerError>) {
        match record_heartbeat(self.table.get(node_id), node_id, bucket) {
            Err(e) => Err(e),
            Ok(n) => {
                self.table.insert(node_id.to_owned(), n);
                Ok(())
            },
        }
    }
}

/// Whether every record stands under the identifier that it holds.
pub open spec fn nodes_filed(m: Nodes) -> bool {
    forall|k: Seq<char>| #[trigger] m.contains_key(k) ==> m[k].node_id@ == k
}

/// Adding, promoting, removing and heartbeats keep every record under its own
/// identifier.
pub proof fn lemma_nodes_stay_filed(
    m: Nodes,
    node: NodeMembership,
    id: Seq<char>,
    target: NodeRole,
    bucket: u64,
)
    requires
        nodes_filed(m),
    ensures
        nodes_filed(m.insert(node.node_id@, node)),
        nodes_filed(m.remove(id)),
        promoted(node_at(m, id), id, target) is Ok ==> nodes_filed(
            m.insert(id, promoted(node_at(m, id), id, target)->Ok_0),
        ),
        heartbeat(node_at(m, id), id, bucket) is Ok ==> nodes_filed(
            m.insert(id, heartbeat(node_at(m, id), id, bucket)->Ok_0),
        ),
{
}

/// The secure admission of new nodes: untrusted, observer, learner, voter.
///
/// A node generates its identity, registers its endpoint and is admitted by
/// signature as an observer; it downloads, verifies and installs a certified
/// snapshot, replays what came after, reaches the current commit, stays stable
/// for a window and is promoted by consensus.
#[derive(Debug, Clone, Copy)]
pub struct AdmissionFlow {
    /// How many time buckets a learner must stay stable before it is promoted.
    pub required_stability_window_buckets: u64,
}

impl Default for AdmissionFlow {
    fn default() -> (r: Self)
        ensures
            r.required_stability_window_buckets == 10,
    {
        AdmissionFlow { required_stability_window_buckets: 10 }
    }
}

/// Constraints of membership on reading and voting.
#[derive(Debug, Clone, Copy)]
pub struct MembershipGate {
    /// How many voters the cluster needs.
    pub min_voter_count: usize,
    /// Whether observers may read the ledger.
    pub allow_observer_read: bool,
}

impl Default for MembershipGate {
    fn default() -> (r: Self)
        ensures
            r.min_voter_count == 1,
            r.allow_observer_read,
    {
        MembershipGate { min_voter_count: 1, allow_observer_read: true }
    }
}

/// Tells whether a node may vote or propose: it is a voter, has applied all
/// that was committed, and is healthy.
pub struct VotingGate {
    /// Replication status of the node.
    pub sync_status: ReplicationStatus,
    /// Membership record of the node.
    pub membership: NodeMembership,
}

/// Whether a node may vote.
pub open spec fn voting_allowed(g: VotingGate) -> bool {
    g.membership.role == NodeRole::Voter && may_vote(g.sync_status)
}

/// Why a node may not vote.
pub open spec fn blocked_reasons(g: VotingGate) -> Seq<Seq<char>> {
    let role = if g.membership.role != NodeRole::Voter {
        seq![
            "node "@ + g.membership.node_id@ + " is not a voter (role: "@ + role_name(
                g.membership.role,
            ) + ")"@,
        ]
    } else {
        Seq::empty()
    };
    let lag = if g.sync_status.applied_sequence != g.sync_status.committed_sequence {
        seq![
            "applied sequence "@ + decimal(g.sync_status.applied_sequence as nat)
                + " != committed sequence "@ + decimal(g.sync_status.committed_sequence as nat),
        ]
    } else {
        Seq::empty()
    };
    let health = if g.sync_status.sync_status != SyncStatus::Healthy {
        seq!["sync status is "@ + sync_name(g.sync_status.sync_status)]
    } else {
        Seq::empty()
    };
    role + lag + health
}

impl VotingGate {
    /// Whether the node may vote.
    pub fn can_vote(&self) -> (r: bool)
        ensures
            r == voting_allowed(*self),
    {
        self.membership.role == NodeRole::Voter && self.sync_status.applied_sequence
            == self.sync_status.committed_sequence && self.sync_status.sync_status
            == SyncStatus::Healthy
    }

    /// Whether the node may propose commands.
    pub fn can_propose(&self) -> (r: bool)
        ensures
            r == voting_allowed(*self),
    {
        self.can_vote()
    }

    /// Why the node may not vote; empty if it may.
    pub fn reason_blocked(&self) -> (r: Vec<String>)
        ensures
            texts(r@) == blocked_reasons(*self),
    {
        let mut reasons: Vec<String> = Vec::new();
        if self.membership.role != NodeRole::Voter {
            let mut m = "node ".to_owned();
            m.append(self.membership.node_id.as_str());
            m.append(" is not a voter (role: ");
            m.append(self.membership.role.name());
            m.append(")");
            reasons.push(m);
        }
        if self.sync_status.applied_sequence != self.sync_status.committed_sequence {
            let mut m = "applied sequence ".to_owned();
            m.append(u64_text(self.sync_status.applied_sequence).as_str());
            m.append(" != committed sequence ");
            m.append(u64_text(self.sync_status.committed_sequence).as_str());
            reasons.push(m);
        }
        if self.sync_status.sync_status != SyncStatus::Healthy {
            let mut m = "sync status is ".to_owned();
            m.append(self.sync_status.sync_status.name());
            reasons.push(m);
        }
        assert(texts(reasons@) =~= blocked_reasons(*self));
        reasons
    }
}

/// A node may vote exactly when there is no reason against it.
pub proof fn lemma_voting_needs_no_reason_against(g: VotingGate)
    ensures
        voting_allowed(g) <==> blocked_reasons(g).len() == 0,
{
}

/// From each role, exactly the roles that may follow: one step up, back from
/// voter to observer, and out at any time.
pub proof fn lemma_role_changes_are_exact(current: NodeRole, target: NodeRole)
    ensures
        role_change(current, target) is Ok <==> target is Untrusted || match current {
            NodeRole::Untrusted => target is Observer,
            NodeRole::Observer => target is Learner,
            NodeRole::Learner => target is Voter,
            NodeRole::Voter => target is Observer,
        },
        role_change(current, target) is Err ==> role_change(current, target)->Err_0 == (
        ErrorModel::InvalidRoleTransition { from: current, to: target }),
{
}

/// Promoting changes the role alone, and a heartbeat the time alone; neither
/// is done for a node that is not there.
pub proof fn lemma_node_updates_are_exact(
    n: NodeMembership,
    id: Seq<char>,
    target: NodeRole,
    bucket: u64,
)
    ensures
        promoted(None, id, target) == Err::<NodeMembership, ErrorModel>(
            ErrorModel::NodeNotFound(id),
        ),
        heartbeat(None, id, bucket) == Err::<NodeMembership, ErrorModel>(
            ErrorModel::NodeNotFound(id),
        ),
        promoted(Some(n), id, target) is Ok <==> role_change(n.role, target) is Ok,
        promoted(Some(n), id, target) is Ok ==> promoted(Some(n), id, target)->Ok_0.role == target
            && (NodeMembership { role: n.role, ..promoted(Some(n), id, target)->Ok_0 }) == n,
        heartbeat(Some(n), id, bucket) is Ok,
        heartbeat(Some(n), id, bucket)->Ok_0.last_heartbeat_bucket == bucket,
        (NodeMembership {
            last_heartbeat_bucket: n.last_heartbeat_bucket,
            ..heartbeat(Some(n), id, bucket)->Ok_0
        }) == n,
{
}

/// The nodes of a role are those of the given ones that have it, each as often
/// as it is given.
pub proof fn lemma_nodes_of_a_role(
    m: Nodes,
    keys: Seq<Seq<char>>,
    key: Seq<char>,
    role: NodeRole,
)
    ensures
        of_role(m, Seq::empty(), role).len() == 0,
        m[key].role == role ==> of_role(m, keys.push(key), role) == of_role(m, keys, role).push(
            m[key],
        ),
        m[key].role != role ==> of_role(m, keys.push(key), role) == of_role(m, keys, role),
{
    assert(keys.push(key).drop_last() =~= keys);
}

/// A node votes exactly when it is a voter, is healthy and has applied all that
/// was committed; one reason is given for each that is missing.
pub proof fn lemma_voting_is_exact(g: VotingGate)
    ensures
        voting_allowed(g) <==> g.membership.role is Voter && g.sync_status.sync_status is Healthy
            && g.sync_status.applied_sequence == g.sync_status.committed_sequence,
        blocked_reasons(g).len() == (if g.membership.role is Voter {
            0int
        } else {
            1
        }) + (if g.sync_status.applied_sequence == g.sync_status.committed_sequence {
            0int
        } else {
            1
        }) + (if g.sync_status.sync_status is Healthy {
            0int
        } else {
            1
        }),
{
}

/// A node is found exactly when it is there.
pub proof fn lemma_nodes_are_found(m: Nodes, id: Seq<char>)
    ensures
        node_at(m, id) is Some <==> m.contains_key(id),
        node_at(m, id) is Some ==> node_at(m, id)->0 == m[id],
{
}

} // verus!
