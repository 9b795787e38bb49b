//! The decisions of a Sawtooth Raft node: what it does when the validator
//! reports a block, when Raft hands over a ready state, and when blocks are
//! committed. Each handler updates the node and returns the actions to carry
//! out against Raft, the storage and the validator, in order.
//!
//! A leader builds a block, publishes it, waits until the validator has
//! validated it, proposes it to Raft and commits it once Raft has committed
//! it; then it builds the next block, or first changes the membership when
//! the peers setting has changed. A follower commits the blocks Raft commits.

use vstd::prelude::*;
use std::collections::HashMap;
use vstd::std_specs::hash::spec_values_iter;
use vstd::std_specs::iter::IteratorSpec;

use crate::block_queue::{Block, BlockQueue, BlockStatusView, next_committable};
use crate::config::{peer_id_to_raft_id, peers_view, raft_id_of};
use crate::types::{bytes_eq, copy_vec, BlockId, ConfChange, ConfChangeType, ConfChangeView, Entry, EntryType, PeerId};

verus! {

broadcast use vstd::std_specs::hash::group_hash_axioms;

/// The stage a leader is at.
#[derive(Debug)]
pub enum LeaderState {
    /// Building a block, started at the given time (in milliseconds).
    Building(u64),
    /// The block has been built and the validator is publishing it.
    Publishing(BlockId),
    /// The validator is validating the block the leader published.
    Validating(BlockId),
    /// The valid block has been proposed to the peers.
    Proposing(BlockId),
    /// The peers accepted the block and it is being committed.
    Committing(BlockId),
    /// A membership change has been proposed.
    ChangingConfig,
}

/// The stage a follower is at.
#[derive(Debug)]
pub enum FollowerState {
    Idle,
    Committing(BlockId),
}

/// The mathematical value of a [`LeaderState`].
pub enum LeaderView {
    Building(u64),
    Publishing(Seq<u8>),
    Validating(Seq<u8>),
    Proposing(Seq<u8>),
    Committing(Seq<u8>),
    ChangingConfig,
}

/// The mathematical value of a [`FollowerState`].
pub enum FollowerView {
    Idle,
    Committing(Seq<u8>),
}

impl View for LeaderState {
    type V = LeaderView;

    open spec fn view(&self) -> LeaderView {
        match self {
            LeaderState::Building(t) => LeaderView::Building(*t),
            LeaderState::Publishing(id) => LeaderView::Publishing(id@),
            LeaderState::Validating(id) => LeaderView::Validating(id@),
            LeaderState::Proposing(id) => LeaderView::Proposing(id@),
            LeaderState::Committing(id) => LeaderView::Committing(id@),
            LeaderState::ChangingConfig => LeaderView::ChangingConfig,
        }
    }
}

impl View for FollowerState {
    type V = FollowerView;

    open spec fn view(&self) -> FollowerView {
        match self {
            FollowerState::Idle => FollowerView::Idle,
            FollowerState::Committing(id) => FollowerView::Committing(id@),
        }
    }
}

/// An action the node asks to be carried out.
#[derive(Debug)]
pub enum NodeAction {
    /// Ask the validator to check the block.
    CheckBlocks(BlockId),
    /// Propose the block to Raft.
    ProposeBlock(BlockId),
    /// Record in the storage the index of the last applied Raft entry.
    SetApplied(u64),
    /// Propose a membership change to Raft.
    ProposeConfChange(ConfChange),
    /// Apply a committed membership change to Raft.
    ApplyConfChange(ConfChange),
    /// Ask the validator to start building a block.
    InitializeBlock,
    /// Ask the validator to drop the block being built.
    CancelBlock,
    /// Ask the validator to commit the block.
    CommitBlock(BlockId),
}

/// The mathematical value of a [`NodeAction`].
pub enum ActionView {
    CheckBlocks(Seq<u8>),
    ProposeBlock(Seq<u8>),
    SetApplied(u64),
    ProposeConfChange(ConfChangeView),
    ApplyConfChange(ConfChangeView),
    InitializeBlock,
    CancelBlock,
    CommitBlock(Seq<u8>),
}

impl View for NodeAction {
    type V = ActionView;

    open spec fn view(&self) -> ActionView {
        match self {
            NodeAction::CheckBlocks(id) => ActionView::CheckBlocks(id@),
            NodeAction::ProposeBlock(id) => ActionView::ProposeBlock(id@),
            NodeAction::SetApplied(e) => ActionView::SetApplied(*e),
            NodeAction::ProposeConfChange(c) => ActionView::ProposeConfChange(c@),
            NodeAction::ApplyConfChange(c) => ActionView::ApplyConfChange(c@),
            NodeAction::InitializeBlock => ActionView::InitializeBlock,
            NodeAction::CancelBlock => ActionView::CancelBlock,
            NodeAction::CommitBlock(id) => ActionView::CommitBlock(id@),
        }
    }
}

/// The views of a sequence of actions.
pub open spec fn actions_view(v: Seq<NodeAction>) -> Seq<ActionView> {
    v.map_values(|a: NodeAction| a@)
}

/// The steps a leader may take from one stage to the next: it becomes
/// leader by building, steps down from any stage, and otherwise goes through
/// Building, Publishing, (Validating,) Proposing and Committing of the same
/// block, then builds again, directly or after changing the membership.
pub open spec fn leader_step(before: Option<LeaderView>, after: Option<LeaderView>) -> bool {
    ||| before == after
    ||| match (before, after) {
        (None, Some(LeaderView::Building(_))) => true,
        (Some(_), None) => true,
        (Some(LeaderView::Building(_)), Some(LeaderView::Publishing(_))) => true,
        (Some(LeaderView::Publishing(a)), Some(LeaderView::Validating(b))) => a == b,
        (Some(LeaderView::Publishing(a)), Some(LeaderView::Proposing(b))) => a == b,
        (Some(LeaderView::Validating(a)), Some(LeaderView::Proposing(b))) => a == b,
        (Some(LeaderView::Proposing(a)), Some(LeaderView::Committing(b))) => a == b,
        (Some(LeaderView::Committing(_)), Some(LeaderView::Building(_))) => true,
        (Some(LeaderView::Committing(_)), Some(LeaderView::ChangingConfig)) => true,
        (Some(LeaderView::ChangingConfig), Some(LeaderView::Building(_))) => true,
        _ => false,
    }
}

/// The map from Raft ids to peer ids.
pub struct PeerMap {
    map: HashMap<u64, PeerId>,
}

impl PeerMap {
    /// The map itself, each peer id by its bytes.
    pub closed spec fn view(&self) -> Map<u64, Seq<u8>> {
        self.map@.map_values(|v: PeerId| v@)
    }

    /// The empty map.
    pub fn new() -> (r: PeerMap)
        ensures
            r.view() == Map::<u64, Seq<u8>>::empty(),
    {
        let r = PeerMap { map: HashMap::new() };
        assert(r.view() =~= Map::<u64, Seq<u8>>::empty());
        r
    }

    /// The peer id of a Raft id, if it is mapped.
    pub fn get(&self, key: u64) -> (r: Option<PeerId>)
        ensures
            match r {
                Some(v) => self.view().contains_key(key) && self.view()[key] == v@,
                None => !self.view().contains_key(key),
            },
    {
        match self.map.get(&key) {
            Some(v) => Some(copy_vec(v)),
            None => None,
        }
    }

    /// Maps a Raft id to a peer id, replacing what it was mapped to.
    pub fn insert(&mut self, key: u64, value: PeerId)
        ensures
            final(self).view() == old(self).view().insert(key, value@),
    {
        let ghost v = value@;
        let ghost pre = self.view();
        self.map.insert(key, value);
        assert(self.view() =~= pre.insert(key, v));
    }

    /// Unmaps a Raft id that is mapped.
    pub fn remove(&mut self, key: u64)
        requires
            old(self).view().contains_key(key),
        ensures
            final(self).view() == old(self).view().remove(key),
    {
        let ghost pre = self.view();
        self.map.remove(&key);
        assert(self.view() =~= pre.remove(key));
    }

    /// The peer ids the map holds, in some order, each once per Raft id
    /// mapped to it.
    pub fn values(&self) -> (r: Vec<PeerId>)
        ensures
            forall|q: Seq<u8>| #[trigger] peers_view(r@).contains(q) <==> map_values(self.view()).contains(q),
    {
        let ghost all = spec_values_iter(&self.map).remaining();
        let mut out: Vec<PeerId> = Vec::new();
        for v in it: self.map.values()
            invariant
                it.seq() == all,
                out@.len() == it.index(),
                forall|j: int| 0 <= j < it.index() ==> #[trigger] out@[j]@ == (*all[j])@,
        {
            out.push(copy_vec(v));
        }
        proof {
            assert(out@.len() == all.len());
            broadcast use vstd::std_specs::hash::axiom_spec_values_iter;
            let vals = all.unref().to_set();
            assert(vals == self.map@.values());
            assert forall|q: Seq<u8>| #[trigger] peers_view(out@).contains(q) <==> map_values(self.view()).contains(q) by {
                if peers_view(out@).contains(q) {
                    let j = choose|j: int| 0 <= j < peers_view(out@).len() && peers_view(out@)[j] == q;
                    assert(all.unref()[j] == *all[j]);
                    assert(vals.contains(all.unref()[j]));
                    let k = choose|k: u64| self.map@.contains_key(k) && self.map@[k] == all.unref()[j];
                    assert(self.view().contains_key(k) && self.view()[k] == q);
                }
                if map_values(self.view()).contains(q) {
                    let k = choose|k: u64| self.view().contains_key(k) && self.view()[k] == q;
                    assert(self.map@.values().contains(self.map@[k]));
                    assert(vals.contains(self.map@[k]));
                    let j = choose|j: int| 0 <= j < all.unref().len() && all.unref()[j] == self.map@[k];
                    assert(peers_view(out@)[j] == q);
                }
            }
        }
        out
    }

    /// Whether some Raft id is mapped to `value`.
    pub fn has_value(&self, value: &PeerId) -> (r: bool)
        ensures
            r == map_values(self.view()).contains(value@),
    {
        let vals = self.values();
        contains_peer(&vals, value)
    }
}

/// The peer ids a map holds.
pub open spec fn map_values(m: Map<u64, Seq<u8>>) -> Set<Seq<u8>> {
    Set::new(|p: Seq<u8>| exists|k: u64| m.contains_key(k) && m[k] == p)
}

/// The map the peers of a list give: each one under its Raft id, a later
/// peer replacing an earlier one with the same Raft id.
pub open spec fn peer_map_of(peers: Seq<Seq<u8>>) -> Map<u64, Seq<u8>>
    decreases peers.len(),
{
    if peers.len() == 0 {
        Map::empty()
    } else {
        peer_map_of(peers.drop_last()).insert(raft_id_of(peers.last()), peers.last())
    }
}

/// The peers a list holds.
pub open spec fn peer_set(peers: Seq<Seq<u8>>) -> Set<Seq<u8>> {
    Set::new(|p: Seq<u8>| peers.contains(p))
}

/// The peers whose membership differs between the peers setting and the
/// current map: those that joined and those that left.
pub open spec fn membership_diff(new_peers: Seq<Seq<u8>>, current: Map<u64, Seq<u8>>) -> Set<Seq<u8>> {
    peer_set(new_peers).difference(map_values(current)).union(map_values(current).difference(peer_set(new_peers)))
}

/// At most one peer's membership changed, and that peer's id carries a Raft
/// id.
pub open spec fn single_change(new_peers: Seq<Seq<u8>>, current: Map<u64, Seq<u8>>) -> bool {
    &&& forall|p: Seq<u8>, q: Seq<u8>| #[trigger] membership_diff(new_peers, current).contains(p) && #[trigger] membership_diff(new_peers, current).contains(q) ==> p == q
    &&& forall|p: Seq<u8>| #[trigger] membership_diff(new_peers, current).contains(p) ==> p.len() >= 8
}

/// The membership change the peers setting calls for: none where nothing
/// changed; adding the peer that joined, with its id as context; removing the
/// peer that left.
pub open spec fn conf_change_for(new_peers: Seq<Seq<u8>>, current: Map<u64, Seq<u8>>) -> Option<ConfChangeView> {
    let diff = membership_diff(new_peers, current);
    if exists|p: Seq<u8>| diff.contains(p) {
        let p = choose|p: Seq<u8>| diff.contains(p);
        if peer_set(new_peers).contains(p) {
            Some(ConfChangeView { id: 0, change_type: ConfChangeType::AddNode, node_id: raft_id_of(p), context: p })
        } else {
            Some(ConfChangeView { id: 0, change_type: ConfChangeType::RemoveNode, node_id: raft_id_of(p), context: Seq::empty() })
        }
    } else {
        None
    }
}

/// The map after a committed membership change: the added node mapped to the
/// peer id in the change's context, the removed node unmapped.
pub open spec fn map_after_change(m: Map<u64, Seq<u8>>, c: ConfChangeView) -> Map<u64, Seq<u8>> {
    match c.change_type {
        ConfChangeType::RemoveNode => m.remove(c.node_id),
        ConfChangeType::AddNode => m.insert(c.node_id, c.context),
        ConfChangeType::AddLearnerNode => m,
    }
}

/// What Raft's protobuf decoding makes of bytes read as a membership change.
pub uninterp spec fn decoded_conf_change(bytes: Seq<u8>) -> Option<ConfChangeView>;

/// Decodes a membership change from the data of a committed entry with
/// `protobuf::parse_from_bytes` into Raft's `ConfChange`.
///
/// The result is what the protobuf decoder makes of the bytes, named
/// `decoded_conf_change`; nothing more of the wire format is stated here.
#[verifier::external_body]
fn decode_conf_change(bytes: &Vec<u8>) -> (r: Option<ConfChange>)
    ensures
        match r {
            Some(c) => decoded_conf_change(bytes@) == Some(c@),
            None => decoded_conf_change(bytes@) is None,
        },
{
    match protobuf::parse_from_bytes::<raft::eraftpb::ConfChange>(bytes) {
        Ok(mut c) => {
            let change_type = match c.get_change_type() {
                raft::eraftpb::ConfChangeType::AddNode => ConfChangeType::AddNode,
                raft::eraftpb::ConfChangeType::RemoveNode => ConfChangeType::RemoveNode,
                raft::eraftpb::ConfChangeType::AddLearnerNode => ConfChangeType::AddLearnerNode,
            };
            Some(ConfChange { id: c.get_id(), change_type, node_id: c.get_node_id(), context: c.take_context() })
        },
        Err(_) => None,
    }
}

/// Raft's message type, carried through without being read.
#[verifier::external_type_specification]
#[verifier::external_body]
pub struct ExRaftMessage(raft::eraftpb::Message);

/// Whether bytes decode as a Raft message with protobuf.
pub uninterp spec fn raft_message_decodes(bytes: Seq<u8>) -> bool;

/// Decodes a Raft message with `protobuf::parse_from_bytes`.
///
/// It succeeds exactly where the bytes decode, named
/// `raft_message_decodes`; what the message holds is left unread.
#[verifier::external_body]
fn decode_raft_message(content: &Vec<u8>) -> (r: Option<raft::eraftpb::Message>)
    ensures
        (r is Some) == raft_message_decodes(content@),
{
    protobuf::parse_from_bytes::<raft::eraftpb::Message>(content).ok()
}

/// Why a committed entry cannot be applied.
#[derive(PartialEq, Eq, Structural, Clone, Copy, Debug)]
pub enum EntryError {
    /// The data of a membership change entry does not decode.
    InvalidConfChange,
    /// A membership change removes a node that is not mapped.
    UnknownNode(u64),
}

/// Whether a committed entry carries a membership change the node acts on:
/// it has data, is of the membership change kind and was not written in the
/// first term.
pub open spec fn is_acted_conf_change(e: crate::types::EntryView) -> bool {
    &&& e.data.len() > 0
    &&& e.entry_type == EntryType::EntryConfChange
    &&& e.term != 1
}

/// The time elapsed from `start` to `now`, none if the clock went backwards.
pub open spec fn elapsed(start: u64, now: u64) -> u64 {
    if now >= start {
        (now - start) as u64
    } else {
        0
    }
}

/// What handling a committed entry does to the node and which actions it
/// asks for (see [`SawtoothRaftNode::on_committed_entry`]).
pub open spec fn committed_entry_effect(
    before: SawtoothRaftNode,
    after: SawtoothRaftNode,
    entry: crate::types::EntryView,
    now: u64,
    actions: Seq<ActionView>,
) -> bool {
    &&& after.follower() == before.follower()
    &&& after.backlog() == before.backlog()
    &&& after.period() == before.period()
    &&& after.peer_id() == before.peer_id()
    &&& if entry.data.len() == 0 {
        &&& after.commit_queue() == before.commit_queue()
        &&& after.peers() == before.peers()
        &&& after.leader() == before.leader()
        &&& actions.len() == 0
    } else if entry.entry_type == EntryType::EntryNormal {
        &&& after.commit_queue() == before.commit_queue().push((entry.data, entry.index))
        &&& after.peers() == before.peers()
        &&& after.leader() == before.leader()
        &&& actions.len() == 0
    } else if is_acted_conf_change(entry) {
        let c = decoded_conf_change(entry.data)->0;
        let changing = before.leader() == Some(LeaderView::ChangingConfig);
        &&& after.commit_queue() == before.commit_queue()
        &&& after.peers() == map_after_change(before.peers(), c)
        &&& after.leader() == if changing {
            Some(LeaderView::Building(now))
        } else {
            before.leader()
        }
        &&& actions == if changing {
            seq![ActionView::ApplyConfChange(c), ActionView::InitializeBlock]
        } else {
            seq![ActionView::ApplyConfChange(c)]
        }
    } else {
        &&& after.commit_queue() == before.commit_queue()
        &&& after.peers() == before.peers()
        &&& after.leader() == before.leader()
        &&& actions.len() == 0
    }
}

/// The node: its stage as leader or follower, the blocks it tracks, and the
/// peer ids of the other nodes by Raft id.
pub struct SawtoothRaftNode {
    peer_id: PeerId,
    leader_state: Option<LeaderState>,
    follower_state: Option<FollowerState>,
    block_queue: BlockQueue,
    raft_id_to_peer_id: PeerMap,
    period_ms: u64,
}

/// The view of an optional leader state.
pub open spec fn leader_view(s: Option<LeaderState>) -> Option<LeaderView> {
    match s {
        Some(l) => Some(l@),
        None => None,
    }
}

/// The view of an optional follower state.
pub open spec fn follower_view(s: Option<FollowerState>) -> Option<FollowerView> {
    match s {
        Some(f) => Some(f@),
        None => None,
    }
}

impl SawtoothRaftNode {
    /// The node's own peer id.
    pub closed spec fn peer_id(&self) -> Seq<u8> {
        self.peer_id@
    }

    /// The node's stage as leader, if it is leading.
    pub closed spec fn leader(&self) -> Option<LeaderView> {
        leader_view(self.leader_state)
    }

    /// The node's stage as follower, if it is following.
    pub closed spec fn follower(&self) -> Option<FollowerView> {
        follower_view(self.follower_state)
    }

    /// The blocks the validator reported, by id.
    pub closed spec fn backlog(&self) -> Map<Seq<u8>, BlockStatusView> {
        self.block_queue.backlog()
    }

    /// The blocks Raft committed that are not committed on chain yet, in
    /// order, with their entry indexes.
    pub closed spec fn commit_queue(&self) -> Seq<(Seq<u8>, u64)> {
        self.block_queue.queue()
    }

    /// The peer ids of the nodes by Raft id.
    pub closed spec fn peers(&self) -> Map<u64, Seq<u8>> {
        self.raft_id_to_peer_id.view()
    }

    /// The block publishing period, in milliseconds.
    pub closed spec fn period(&self) -> u64 {
        self.period_ms
    }

    /// The node is either leading or following, never both and never
    /// neither; a block it is committing, as leader or follower, is at the
    /// front of the commit queue.
    pub closed spec fn inv(&self) -> bool {
        &&& self.block_queue.wf()
        &&& (self.leader_state is Some) != (self.follower_state is Some)
        &&& (self.leader() matches Some(LeaderView::Committing(id)) ==> self.commit_queue().len() > 0
            && self.commit_queue()[0].0 == id)
        &&& (self.follower() matches Some(FollowerView::Committing(id)) ==> self.commit_queue().len() > 0
            && self.commit_queue()[0].0 == id)
    }

    /// A node that follows and is idle, with no block tracked, the given
    /// peers mapped by Raft id, and the given publishing period.
    pub fn new(peer_id: PeerId, peers: Vec<PeerId>, period_ms: u64) -> (r: SawtoothRaftNode)
        requires
            forall|i: int| 0 <= i < peers@.len() ==> #[trigger] peers@[i]@.len() >= 8,
        ensures
            r.inv(),
            r.peer_id() == peer_id@,
            r.leader() is None,
            r.follower() == Some(FollowerView::Idle),
            r.backlog() == Map::<Seq<u8>, BlockStatusView>::empty(),
            r.commit_queue() == Seq::<(Seq<u8>, u64)>::empty(),
            r.peers() == peer_map_of(peers_view(peers@)),
            r.period() == period_ms,
    {
        let mut map = PeerMap::new();
        let mut i: usize = 0;
        while i < peers.len()
            invariant
                i <= peers@.len(),
                forall|j: int| 0 <= j < peers@.len() ==> #[trigger] peers@[j]@.len() >= 8,
                map.view() == peer_map_of(peers_view(peers@).subrange(0, i as int)),
            decreases peers.len() - i,
        {
            let id = peer_id_to_raft_id(&peers[i]);
            map.insert(id, copy_vec(&peers[i]));
            proof {
                let s = peers_view(peers@).subrange(0, i + 1);
                assert(s.drop_last() =~= peers_view(peers@).subrange(0, i as int));
                assert(s.last() == peers@[i as int]@);
            }
            i = i + 1;
        }
        assert(peers_view(peers@).subrange(0, peers@.len() as int) =~= peers_view(peers@));
        SawtoothRaftNode {
            peer_id,
            leader_state: None,
            follower_state: Some(FollowerState::Idle),
            block_queue: BlockQueue::new(),
            raft_id_to_peer_id: map,
            period_ms,
        }
    }

    /// Reads the content of a message from a peer as the Raft message to
    /// step Raft with; nothing where it is not one.
    pub fn on_peer_message(content: &Vec<u8>) -> (r: Option<raft::eraftpb::Message>)
        ensures
            (r is Some) == raft_message_decodes(content@),
    {
        decode_raft_message(content)
    }

    /// Handles a block the validator reports (BlockNew): a leader publishing
    /// that block now waits for its validation; the block is recorded and
    /// the validator is asked to check it.
    pub fn on_block_new(&mut self, block: Block) -> (actions: Vec<NodeAction>)
        requires
            old(self).inv(),
        ensures
            final(self).inv(),
            leader_step(old(self).leader(), final(self).leader()),
            final(self).leader() == (match old(self).leader() {
                Some(LeaderView::Publishing(id)) => if id == block.block_id@ {
                    Some(LeaderView::Validating(id))
                } else {
                    old(self).leader()
                },
                _ => old(self).leader(),
            }),
            final(self).follower() == old(self).follower(),
            final(self).backlog() == crate::block_queue::backlog_after_new(old(self).backlog(), block@),
            final(self).commit_queue() == old(self).commit_queue(),
            final(self).peers() == old(self).peers(),
            final(self).period() == old(self).period(),
            final(self).peer_id() == old(self).peer_id(),
            actions_view(actions@) == seq![ActionView::CheckBlocks(block.block_id@)],
    {
        let publishing = match &self.leader_state {
            Some(LeaderState::Publishing(block_id)) => bytes_eq(block_id, &block.block_id),
            _ => false,
        };
        if publishing {
            self.leader_state = Some(LeaderState::Validating(copy_vec(&block.block_id)));
        }
        let id = copy_vec(&block.block_id);
        self.block_queue.block_new(block);
        let mut actions: Vec<NodeAction> = Vec::new();
        actions.push(NodeAction::CheckBlocks(id));
        assert(actions_view(actions@) =~= seq![ActionView::CheckBlocks(block.block_id@)]);
        actions
    }

    /// Handles a block the validator reports valid (BlockValid): the block is
    /// marked valid; a leader publishing or validating that block proposes it
    /// to Raft.
    pub fn on_block_valid(&mut self, block_id: BlockId) -> (actions: Vec<NodeAction>)
        requires
            old(self).inv(),
        ensures
            final(self).inv(),
            leader_step(old(self).leader(), final(self).leader()),
            ({
                let proposes = match old(self).leader() {
                    Some(LeaderView::Publishing(id)) => id == block_id@,
                    Some(LeaderView::Validating(id)) => id == block_id@,
                    _ => false,
                };
                &&& final(self).leader() == if proposes {
                    Some(LeaderView::Proposing(block_id@))
                } else {
                    old(self).leader()
                }
                &&& actions_view(actions@) == if proposes {
                    seq![ActionView::ProposeBlock(block_id@)]
                } else {
                    Seq::<ActionView>::empty()
                }
            }),
            final(self).follower() == old(self).follower(),
            final(self).backlog() == crate::block_queue::backlog_after_valid(old(self).backlog(), block_id@),
            final(self).commit_queue() == old(self).commit_queue(),
            final(self).peers() == old(self).peers(),
            final(self).period() == old(self).period(),
            final(self).peer_id() == old(self).peer_id(),
    {
        self.block_queue.block_valid(&block_id);
        let proposes = match &self.leader_state {
            Some(LeaderState::Publishing(expected)) => bytes_eq(expected, &block_id),
            Some(LeaderState::Validating(expected)) => bytes_eq(expected, &block_id),
            _ => false,
        };
        let mut actions: Vec<NodeAction> = Vec::new();
        if proposes {
            actions.push(NodeAction::ProposeBlock(copy_vec(&block_id)));
            self.leader_state = Some(LeaderState::Proposing(block_id));
        }
        assert(actions_view(actions@) =~= if proposes {
            seq![ActionView::ProposeBlock(block_id@)]
        } else {
            Seq::<ActionView>::empty()
        });
        actions
    }

    /// Whether the node, as leader, is committing the block `block_id`; its
    /// commit then calls for the peers setting at that block.
    pub fn commits_as_leader(&self, block_id: &BlockId) -> (r: bool)
        ensures
            r == (self.leader() == Some(LeaderView::Committing(block_id@))),
    {
        match &self.leader_state {
            Some(LeaderState::Committing(committing)) => bytes_eq(committing, block_id),
            _ => false,
        }
    }

    /// The peers whose membership differs between `new_peers` and the
    /// current map, each once.
    pub fn membership_difference(&self, new_peers: &Vec<PeerId>) -> (r: Vec<PeerId>)
        requires
            self.inv(),
        ensures
            forall|p: Seq<u8>| #[trigger] membership_diff(peers_view(new_peers@), self.peers()).contains(p)
                <==> peers_view(r@).contains(p),
            forall|i: int, j: int| 0 <= i < j < r@.len() ==> #[trigger] r@[i]@ != #[trigger] r@[j]@,
    {
        let ghost np = peers_view(new_peers@);
        let ghost cur = self.peers();
        let mut out: Vec<PeerId> = Vec::new();
        let mut i: usize = 0;
        while i < new_peers.len()
            invariant
                self.inv(),
                np == peers_view(new_peers@),
                cur == self.peers(),
                i <= new_peers@.len(),
                forall|j: int, k: int| 0 <= j < k < out@.len() ==> #[trigger] out@[j]@ != #[trigger] out@[k]@,
                forall|q: Seq<u8>| #[trigger] peers_view(out@).contains(q) <==> (peers_view(new_peers@.subrange(0, i as int)).contains(q)
                    && !map_values(cur).contains(q)),
            decreases new_peers.len() - i,
        {
            let p = &new_peers[i];
            proof {
                lemma_view_push(new_peers@.subrange(0, i as int), new_peers@[i as int]);
                assert(new_peers@.subrange(0, i + 1) =~= new_peers@.subrange(0, i as int).push(new_peers@[i as int]));
            }
            if !self.raft_id_to_peer_id.has_value(p) && !contains_peer(&out, p) {
                let ghost before = out@;
                out.push(copy_vec(p));
                proof {
                    lemma_view_push(before, out@[before.len() as int]);
                    assert(out@ =~= before.push(out@[before.len() as int]));
                    lemma_push_distinct(before, out@[before.len() as int]);
                }
            }
            i = i + 1;
        }
        proof {
            assert(new_peers@.subrange(0, new_peers@.len() as int) =~= new_peers@);
        }
        let vals = self.raft_id_to_peer_id.values();
        let mut k: usize = 0;
        while k < vals.len()
            invariant
                self.inv(),
                np == peers_view(new_peers@),
                cur == self.peers(),
                forall|q: Seq<u8>| #[trigger] peers_view(vals@).contains(q) <==> map_values(cur).contains(q),
                k <= vals@.len(),
                forall|j: int, l: int| 0 <= j < l < out@.len() ==> #[trigger] out@[j]@ != #[trigger] out@[l]@,
                forall|q: Seq<u8>| #[trigger] peers_view(out@).contains(q) <==> (
                    (np.contains(q) && !map_values(cur).contains(q))
                    || (peers_view(vals@.subrange(0, k as int)).contains(q) && !np.contains(q))),
            decreases vals.len() - k,
        {
            let v = &vals[k];
            proof {
                lemma_view_push(vals@.subrange(0, k as int), vals@[k as int]);
                assert(vals@.subrange(0, k + 1) =~= vals@.subrange(0, k as int).push(vals@[k as int]));
            }
            if !contains_peer(new_peers, v) && !contains_peer(&out, v) {
                let ghost before = out@;
                out.push(copy_vec(v));
                proof {
                    lemma_view_push(before, out@[before.len() as int]);
                    assert(out@ =~= before.push(out@[before.len() as int]));
                    lemma_push_distinct(before, out@[before.len() as int]);
                }
            }
            k = k + 1;
        }
        proof {
            assert(vals@.subrange(0, vals@.len() as int) =~= vals@);
            assert forall|q: Seq<u8>| #[trigger] membership_diff(np, cur).contains(q) <==> peers_view(out@).contains(q) by {
                if peers_view(vals@).contains(q) {
                    assert(map_values(cur).contains(q));
                }
                if map_values(cur).contains(q) {
                    assert(peers_view(vals@).contains(q));
                }
            }
        }
        out
    }

    /// The membership change the peers setting calls for, compared with the
    /// current map.
    fn check_for_conf_change(&self, new_peers: &Vec<PeerId>) -> (r: Option<ConfChange>)
        requires
            single_change(peers_view(new_peers@), self.peers()),
        ensures
            match r {
                Some(c) => conf_change_for(peers_view(new_peers@), self.peers()) == Some(c@),
                None => conf_change_for(peers_view(new_peers@), self.peers()) is None,
            },
    {
        let ghost np = peers_view(new_peers@);
        let ghost cur = self.peers();
        let ghost diff = membership_diff(np, cur);
        let mut i: usize = 0;
        while i < new_peers.len()
            invariant
                    single_change(np, cur),
                np == peers_view(new_peers@),
                cur == self.peers(),
                diff == membership_diff(np, cur),
                i <= new_peers@.len(),
                forall|j: int| 0 <= j < i ==> map_values(cur).contains(#[trigger] np[j]),
            decreases new_peers.len() - i,
        {
            let p = &new_peers[i];
            assert(np[i as int] == p@);
            if !self.raft_id_to_peer_id.has_value(p) {
                proof {
                    assert(peer_set(np).contains(p@));
                    assert(diff.contains(p@));
                }
                let node_id = peer_id_to_raft_id(p);
                let change = ConfChange {
                    id: 0,
                    change_type: ConfChangeType::AddNode,
                    node_id,
                    context: copy_vec(p),
                };
                proof {
                    let q = choose|q: Seq<u8>| diff.contains(q);
                    assert(q == p@);
                }
                return Some(change);
            }
            i = i + 1;
        }
        let vals = self.raft_id_to_peer_id.values();
        let mut k: usize = 0;
        while k < vals.len()
            invariant
                single_change(np, cur),
                np == peers_view(new_peers@),
                cur == self.peers(),
                diff == membership_diff(np, cur),
                forall|q: Seq<u8>| #[trigger] peers_view(vals@).contains(q) <==> map_values(cur).contains(q),
                forall|j: int| 0 <= j < np.len() ==> map_values(cur).contains(#[trigger] np[j]),
                k <= vals@.len(),
                forall|j: int| 0 <= j < k ==> peer_set(np).contains(#[trigger] vals@[j]@),
            decreases vals.len() - k,
        {
            let v = &vals[k];
            proof {
                assert(peers_view(vals@)[k as int] == v@);
                assert(peers_view(vals@).contains(v@));
            }
            if !contains_peer(new_peers, v) {
                proof {
                    assert(map_values(cur).contains(v@));
                    assert(diff.contains(v@));
                    assert(!peer_set(np).contains(v@));
                }
                let node_id = peer_id_to_raft_id(v);
                let change = ConfChange {
                    id: 0,
                    change_type: ConfChangeType::RemoveNode,
                    node_id,
                    context: Vec::new(),
                };
                proof {
                    let q = choose|q: Seq<u8>| diff.contains(q);
                    assert(q == v@);
                    assert(change.context@ =~= Seq::<u8>::empty());
                }
                return Some(change);
            }
            k = k + 1;
        }
        proof {
            assert forall|p: Seq<u8>| !diff.contains(p) by {
                if peer_set(np).contains(p) {
                    let j = choose|j: int| 0 <= j < np.len() && np[j] == p;
                    assert(map_values(cur).contains(np[j]));
                }
                if map_values(cur).contains(p) {
                    assert(peers_view(vals@).contains(p));
                    let j = choose|j: int| 0 <= j < peers_view(vals@).len() && peers_view(vals@)[j] == p;
                    assert(vals@[j]@ == p);
                    assert(peer_set(np).contains(vals@[j]@));
                }
            }
        }
        None
    }

    /// Handles a block the validator committed (BlockCommit). A leader that
    /// was committing that block takes it off the queue, records its entry as
    /// applied, and proposes the membership change the peers setting at that
    /// block calls for, if any, or else starts building the next block. A
    /// follower that was committing that block takes it off the queue,
    /// records its entry as applied and goes idle.
    ///
    /// `new_peers` is the peers setting at the block, needed only when the
    /// node commits as leader.
    pub fn on_block_commit(&mut self, block_id: &BlockId, new_peers: Option<&Vec<PeerId>>, now: u64) -> (actions: Vec<NodeAction>)
        requires
            old(self).inv(),
            old(self).leader() == Some(LeaderView::Committing(block_id@)) ==> {
                &&& new_peers matches Some(p)
                &&& single_change(peers_view(p@), old(self).peers())
            },
        ensures
            final(self).inv(),
            leader_step(old(self).leader(), final(self).leader()),
            final(self).peers() == old(self).peers(),
            final(self).period() == old(self).period(),
            final(self).peer_id() == old(self).peer_id(),
            if old(self).leader() == Some(LeaderView::Committing(block_id@)) {
                let entry = old(self).commit_queue()[0].1;
                let change = conf_change_for(peers_view(new_peers->0@), old(self).peers());
                &&& final(self).commit_queue() == old(self).commit_queue().drop_first()
                &&& final(self).backlog() == old(self).backlog().remove(block_id@)
                &&& final(self).follower() == old(self).follower()
                &&& match change {
                    Some(c) => {
                        &&& final(self).leader() == Some(LeaderView::ChangingConfig)
                        &&& actions_view(actions@) == seq![ActionView::SetApplied(entry), ActionView::ProposeConfChange(c)]
                    },
                    None => {
                        &&& final(self).leader() == Some(LeaderView::Building(now))
                        &&& actions_view(actions@) == seq![ActionView::SetApplied(entry), ActionView::InitializeBlock]
                    },
                }
            } else if old(self).follower() == Some(FollowerView::Committing(block_id@)) {
                let entry = old(self).commit_queue()[0].1;
                &&& final(self).commit_queue() == old(self).commit_queue().drop_first()
                &&& final(self).backlog() == old(self).backlog().remove(block_id@)
                &&& final(self).leader() == old(self).leader()
                &&& final(self).follower() == Some(FollowerView::Idle)
                &&& actions_view(actions@) == seq![ActionView::SetApplied(entry)]
            } else {
                &&& final(self).commit_queue() == old(self).commit_queue()
                &&& final(self).backlog() == old(self).backlog()
                &&& final(self).leader() == old(self).leader()
                &&& final(self).follower() == old(self).follower()
                &&& actions@.len() == 0
            },
    {
        let mut actions: Vec<NodeAction> = Vec::new();
        if self.commits_as_leader(block_id) {
            let entry = self.block_queue.block_committed();
            actions.push(NodeAction::SetApplied(entry));
            let peers = match new_peers {
                Some(p) => p,
                None => {
                    assert(false);
                    return actions;
                },
            };
            match self.check_for_conf_change(peers) {
                Some(change) => {
                    self.leader_state = Some(LeaderState::ChangingConfig);
                    actions.push(NodeAction::ProposeConfChange(change));
                },
                None => {
                    self.leader_state = Some(LeaderState::Building(now));
                    actions.push(NodeAction::InitializeBlock);
                },
            }
            assert(actions_view(actions@) =~= seq![actions@[0]@, actions@[1]@]);
            return actions;
        }
        let follower_commits = match &self.follower_state {
            Some(FollowerState::Committing(committing)) => bytes_eq(committing, block_id),
            _ => false,
        };
        if follower_commits {
            let entry = self.block_queue.block_committed();
            actions.push(NodeAction::SetApplied(entry));
            self.follower_state = Some(FollowerState::Idle);
            assert(actions_view(actions@) =~= seq![ActionView::SetApplied(entry)]);
        }
        actions
    }

    /// Whether the leader has been building its block for at least one
    /// period at time `now`, so that the block should be finalized.
    pub fn check_publish(&self, now: u64) -> (r: bool)
        ensures
            r == (match self.leader() {
                Some(LeaderView::Building(start)) => elapsed(start, now) >= self.period(),
                _ => false,
            }),
    {
        match &self.leader_state {
            Some(LeaderState::Building(start)) => {
                let e = if now >= *start {
                    now - *start
                } else {
                    0
                };
                e >= self.period_ms
            },
            _ => false,
        }
    }

    /// Records that the validator finalized the block being built: the
    /// leader now publishes it.
    pub fn on_block_finalized(&mut self, block_id: BlockId)
        requires
            old(self).inv(),
        ensures
            final(self).inv(),
            leader_step(old(self).leader(), final(self).leader()),
            final(self).leader() == (match old(self).leader() {
                Some(LeaderView::Building(_)) => Some(LeaderView::Publishing(block_id@)),
                _ => old(self).leader(),
            }),
            final(self).follower() == old(self).follower(),
            final(self).backlog() == old(self).backlog(),
            final(self).commit_queue() == old(self).commit_queue(),
            final(self).peers() == old(self).peers(),
            final(self).period() == old(self).period(),
            final(self).peer_id() == old(self).peer_id(),
    {
        let building = match &self.leader_state {
            Some(LeaderState::Building(_)) => true,
            _ => false,
        };
        if building {
            self.leader_state = Some(LeaderState::Publishing(block_id));
        }
    }

    /// The peer id of the node with Raft id `raft_id`, where it is known:
    /// where Raft messages to that node are sent.
    pub fn peer_for(&self, raft_id: u64) -> (r: Option<PeerId>)
        requires
            self.inv(),
        ensures
            match r {
                Some(p) => self.peers().contains_key(raft_id) && self.peers()[raft_id] == p@,
                None => !self.peers().contains_key(raft_id),
            },
    {
        self.raft_id_to_peer_id.get(raft_id)
    }

    /// Handles a ready state in which Raft may have made this node leader: a
    /// node that has just become leader stops following and starts building
    /// a block.
    pub fn on_ready_leader(&mut self, is_leader: bool, now: u64) -> (actions: Vec<NodeAction>)
        requires
            old(self).inv(),
        ensures
            final(self).inv(),
            leader_step(old(self).leader(), final(self).leader()),
            final(self).backlog() == old(self).backlog(),
            final(self).commit_queue() == old(self).commit_queue(),
            final(self).peers() == old(self).peers(),
            final(self).period() == old(self).period(),
            final(self).peer_id() == old(self).peer_id(),
            if is_leader && old(self).leader() is None {
                &&& final(self).leader() == Some(LeaderView::Building(now))
                &&& final(self).follower() is None
                &&& actions_view(actions@) == seq![ActionView::InitializeBlock]
            } else {
                &&& final(self).leader() == old(self).leader()
                &&& final(self).follower() == old(self).follower()
                &&& actions@.len() == 0
            },
    {
        let mut actions: Vec<NodeAction> = Vec::new();
        if is_leader && self.leader_state.is_none() {
            self.follower_state = None;
            self.leader_state = Some(LeaderState::Building(now));
            actions.push(NodeAction::InitializeBlock);
            assert(actions_view(actions@) =~= seq![ActionView::InitializeBlock]);
        }
        actions
    }

    /// Handles a ready state in which Raft may have made this node a
    /// follower: a node that has just stepped down cancels the block it was
    /// building, keeps committing the block it was committing, and follows.
    pub fn on_ready_follower(&mut self, is_leader: bool) -> (actions: Vec<NodeAction>)
        requires
            old(self).inv(),
        ensures
            final(self).inv(),
            leader_step(old(self).leader(), final(self).leader()),
            final(self).backlog() == old(self).backlog(),
            final(self).commit_queue() == old(self).commit_queue(),
            final(self).peers() == old(self).peers(),
            final(self).period() == old(self).period(),
            final(self).peer_id() == old(self).peer_id(),
            if !is_leader && old(self).leader() is Some {
                &&& final(self).leader() is None
                &&& final(self).follower() == (match old(self).leader() {
                    Some(LeaderView::Committing(id)) => Some(FollowerView::Committing(id)),
                    _ => Some(FollowerView::Idle),
                })
                &&& actions_view(actions@) == (match old(self).leader() {
                    Some(LeaderView::Building(_)) => seq![ActionView::CancelBlock],
                    _ => Seq::<ActionView>::empty(),
                })
            } else {
                &&& final(self).leader() == old(self).leader()
                &&& final(self).follower() == old(self).follower()
                &&& actions@.len() == 0
            },
    {
        let mut actions: Vec<NodeAction> = Vec::new();
        if !is_leader && self.leader_state.is_some() {
            match &self.leader_state {
                Some(LeaderState::Building(_)) => {
                    actions.push(NodeAction::CancelBlock);
                },
                Some(LeaderState::Committing(block_id)) => {
                    self.follower_state = Some(FollowerState::Committing(copy_vec(block_id)));
                },
                _ => {},
            }
            self.leader_state = None;
            if self.follower_state.is_none() {
                self.follower_state = Some(FollowerState::Idle);
            }
            proof {
                if actions@.len() == 1 {
                    assert(actions_view(actions@) =~= seq![ActionView::CancelBlock]);
                } else {
                    assert(actions_view(actions@) =~= Seq::<ActionView>::empty());
                }
            }
        }
        actions
    }

    /// Whether the node can act on a committed entry: a membership change it
    /// acts on must decode, and a removal must name a mapped node.
    pub open spec fn entry_applicable(&self, e: crate::types::EntryView) -> bool {
        is_acted_conf_change(e) ==> {
            &&& decoded_conf_change(e.data) matches Some(c)
            &&& (c.change_type == ConfChangeType::RemoveNode ==> self.peers().contains_key(c.node_id))
        }
    }

    /// Handles an entry Raft has committed. An entry without data is skipped.
    /// A normal entry carries a block id, which is queued for commit with the
    /// entry's index. A membership change not written in the first term is
    /// applied to the peer map and to Raft, and a leader that was changing
    /// the membership starts building a block.
    pub fn on_committed_entry(&mut self, entry: &Entry, now: u64) -> (actions: Vec<NodeAction>)
        requires
            old(self).inv(),
            old(self).entry_applicable(entry@),
        ensures
            final(self).inv(),
            leader_step(old(self).leader(), final(self).leader()),
            committed_entry_effect(*old(self), *final(self), entry@, now, actions_view(actions@)),
    {
        let mut actions: Vec<NodeAction> = Vec::new();
        if entry.data.len() == 0 {
            return actions;
        }
        if entry.entry_type == EntryType::EntryNormal {
            let block_id = copy_vec(&entry.data);
            self.block_queue.add_block_commit(block_id, entry.index);
            return actions;
        }
        if entry.entry_type == EntryType::EntryConfChange && entry.term != 1 {
            let change = match decode_conf_change(&entry.data) {
                Some(c) => c,
                None => {
                    assert(false);
                    return actions;
                },
            };
            self.apply_conf_change(&change);
            actions.push(NodeAction::ApplyConfChange(change));
            let changing = match &self.leader_state {
                Some(LeaderState::ChangingConfig) => true,
                _ => false,
            };
            if changing {
                self.leader_state = Some(LeaderState::Building(now));
                actions.push(NodeAction::InitializeBlock);
                assert(actions_view(actions@) =~= seq![actions@[0]@, ActionView::InitializeBlock]);
            } else {
                assert(actions_view(actions@) =~= seq![actions@[0]@]);
            }
        }
        actions
    }

    /// Applies a committed membership change to the peer map.
    pub fn apply_conf_change(&mut self, change: &ConfChange)
        requires
            old(self).inv(),
            change.change_type == ConfChangeType::RemoveNode ==> old(self).peers().contains_key(change.node_id),
        ensures
            final(self).inv(),
            final(self).peers() == map_after_change(old(self).peers(), change@),
            final(self).leader() == old(self).leader(),
            final(self).follower() == old(self).follower(),
            final(self).backlog() == old(self).backlog(),
            final(self).commit_queue() == old(self).commit_queue(),
            final(self).period() == old(self).period(),
            final(self).peer_id() == old(self).peer_id(),
    {
        match change.change_type {
            ConfChangeType::RemoveNode => {
                self.raft_id_to_peer_id.remove(change.node_id);
            },
            ConfChangeType::AddNode => {
                self.raft_id_to_peer_id.insert(change.node_id, copy_vec(&change.context));
            },
            ConfChangeType::AddLearnerNode => {},
        }
    }

    /// Whether the node can act on a committed entry, or why it cannot.
    pub fn check_committed_entry(&self, entry: &Entry) -> (r: Result<(), EntryError>)
        requires
            self.inv(),
        ensures
            r is Ok <==> self.entry_applicable(entry@),
            r == Err::<(), EntryError>(EntryError::InvalidConfChange) ==> is_acted_conf_change(entry@)
                && decoded_conf_change(entry.data@) is None,
            match r {
                Err(EntryError::UnknownNode(id)) => {
                    &&& is_acted_conf_change(entry@)
                    &&& decoded_conf_change(entry.data@) matches Some(c)
                    &&& c.change_type == ConfChangeType::RemoveNode
                    &&& c.node_id == id
                    &&& !self.peers().contains_key(id)
                },
                _ => true,
            },
    {
        if entry.data.len() > 0 && entry.entry_type == EntryType::EntryConfChange && entry.term != 1 {
            match decode_conf_change(&entry.data) {
                Some(c) => {
                    if c.change_type == ConfChangeType::RemoveNode {
                        match self.raft_id_to_peer_id.get(c.node_id) {
                            Some(_) => Ok(()),
                            None => Err(EntryError::UnknownNode(c.node_id)),
                        }
                    } else {
                        Ok(())
                    }
                },
                None => Err(EntryError::InvalidConfChange),
            }
        } else {
            Ok(())
        }
    }

    /// Handles an entry Raft has committed as [`Self::on_committed_entry`]
    /// does, where the node can act on it; otherwise leaves the node as it is
    /// and says why.
    pub fn apply_committed_entry(&mut self, entry: &Entry, now: u64) -> (r: Result<Vec<NodeAction>, EntryError>)
        requires
            old(self).inv(),
        ensures
            final(self).inv(),
            leader_step(old(self).leader(), final(self).leader()),
            r is Ok <==> old(self).entry_applicable(entry@),
            r is Err ==> *final(self) == *old(self),
            r matches Ok(actions) ==> committed_entry_effect(*old(self), *final(self), entry@, now, actions_view(actions@)),
    {
        match self.check_committed_entry(entry) {
            Ok(()) => Ok(self.on_committed_entry(entry, now)),
            Err(e) => Err(e),
        }
    }

    /// Commits the next committable block on top of `chain_head`, if there
    /// is one: a leader proposing that block, and an idle follower, ask the
    /// validator to commit it.
    pub fn commit_next(&mut self, chain_head: &Block) -> (actions: Vec<NodeAction>)
        requires
            old(self).inv(),
        ensures
            final(self).inv(),
            leader_step(old(self).leader(), final(self).leader()),
            final(self).backlog() == old(self).backlog(),
            final(self).commit_queue() == old(self).commit_queue(),
            final(self).peers() == old(self).peers(),
            final(self).period() == old(self).period(),
            final(self).peer_id() == old(self).peer_id(),
            match next_committable(old(self).backlog(), old(self).commit_queue(), chain_head.block_id@) {
                Some(id) => {
                    let leads = old(self).leader() == Some(LeaderView::Proposing(id));
                    let follows = old(self).follower() == Some(FollowerView::Idle);
                    &&& final(self).leader() == if leads {
                        Some(LeaderView::Committing(id))
                    } else {
                        old(self).leader()
                    }
                    &&& final(self).follower() == if follows {
                        Some(FollowerView::Committing(id))
                    } else {
                        old(self).follower()
                    }
                    &&& actions_view(actions@) == if leads || follows {
                        seq![ActionView::CommitBlock(id)]
                    } else {
                        Seq::<ActionView>::empty()
                    }
                },
                None => {
                    &&& final(self).leader() == old(self).leader()
                    &&& final(self).follower() == old(self).follower()
                    &&& actions@.len() == 0
                },
            },
    {
        let mut actions: Vec<NodeAction> = Vec::new();
        if let Some(block_id) = self.block_queue.get_next_committable(chain_head) {
            let leads = match &self.leader_state {
                Some(LeaderState::Proposing(proposed)) => bytes_eq(&block_id, proposed),
                _ => false,
            };
            if leads {
                self.leader_state = Some(LeaderState::Committing(copy_vec(&block_id)));
                actions.push(NodeAction::CommitBlock(copy_vec(&block_id)));
            }
            let follows = match &self.follower_state {
                Some(FollowerState::Idle) => true,
                _ => false,
            };
            if follows {
                self.follower_state = Some(FollowerState::Committing(copy_vec(&block_id)));
                actions.push(NodeAction::CommitBlock(copy_vec(&block_id)));
            }
            proof {
                if leads || follows {
                    assert(actions_view(actions@) =~= seq![ActionView::CommitBlock(block_id@)]);
                } else {
                    assert(actions_view(actions@) =~= Seq::<ActionView>::empty());
                }
            }
        }
        actions
    }
}

proof fn lemma_view_push(s: Seq<PeerId>, x: PeerId)
    ensures
        peers_view(s.push(x)) == peers_view(s).push(x@),
        forall|q: Seq<u8>| #[trigger] peers_view(s.push(x)).contains(q) <==> (peers_view(s).contains(q) || q == x@),
{
    assert(peers_view(s.push(x)) =~= peers_view(s).push(x@));
    assert forall|q: Seq<u8>| #[trigger] peers_view(s.push(x)).contains(q) <==> (peers_view(s).contains(q) || q == x@) by {
        if peers_view(s.push(x)).contains(q) {
            let k = choose|k: int| 0 <= k < peers_view(s.push(x)).len() && peers_view(s.push(x))[k] == q;
            if k < s.len() {
                assert(peers_view(s)[k] == q);
            }
        }
        if peers_view(s).contains(q) {
            let k = choose|k: int| 0 <= k < peers_view(s).len() && peers_view(s)[k] == q;
            assert(peers_view(s.push(x))[k] == q);
        }
        if q == x@ {
            assert(peers_view(s.push(x))[s.len() as int] == q);
        }
    }
}

proof fn lemma_push_distinct(s: Seq<PeerId>, x: PeerId)
    requires
        forall|j: int, k: int| 0 <= j < k < s.len() ==> #[trigger] s[j]@ != #[trigger] s[k]@,
        !peers_view(s).contains(x@),
    ensures
        forall|j: int, k: int| 0 <= j < k < s.push(x).len() ==> #[trigger] s.push(x)[j]@ != #[trigger] s.push(x)[k]@,
{
    assert forall|j: int, k: int| 0 <= j < k < s.push(x).len() implies #[trigger] s.push(x)[j]@ != #[trigger] s.push(x)[k]@ by {
        if k == s.len() {
            assert(peers_view(s)[j] == s[j]@);
        } else {
            assert(s.push(x)[j] == s[j]);
            assert(s.push(x)[k] == s[k]);
        }
    }
}

/// The membership change called for goes the way the peer moved: where
/// the only peer whose membership differs is in the current map but not in
/// the peers setting, it is removed, by its Raft id, and the map after the
/// change no longer has that Raft id; where it is in the peers setting but
/// not in the map, it is added under its Raft id, with its peer id as
/// context, and the map after the change maps that Raft id to it. Where no
/// membership differs, there is no change.
pub proof fn lemma_conf_change_direction(np: Seq<Seq<u8>>, cur: Map<u64, Seq<u8>>, p: Seq<u8>)
    requires
        single_change(np, cur),
    ensures
        map_values(cur).contains(p) && !peer_set(np).contains(p) ==> {
            &&& conf_change_for(np, cur) matches Some(c)
            &&& c.change_type == ConfChangeType::RemoveNode
            &&& c.node_id == raft_id_of(p)
            &&& !map_after_change(cur, c).contains_key(raft_id_of(p))
        },
        peer_set(np).contains(p) && !map_values(cur).contains(p) ==> {
            &&& conf_change_for(np, cur) matches Some(c)
            &&& c.change_type == ConfChangeType::AddNode
            &&& c.node_id == raft_id_of(p)
            &&& c.context == p
            &&& map_after_change(cur, c).contains_key(raft_id_of(p))
            &&& map_after_change(cur, c)[raft_id_of(p)] == p
        },
        (forall|q: Seq<u8>| peer_set(np).contains(q) <==> map_values(cur).contains(q)) ==> conf_change_for(np, cur) is None,
{
    let diff = membership_diff(np, cur);
    if (map_values(cur).contains(p) && !peer_set(np).contains(p)) || (peer_set(np).contains(p) && !map_values(cur).contains(p)) {
        assert(diff.contains(p));
        let q = choose|q: Seq<u8>| diff.contains(q);
        assert(q == p);
    }
    if forall|q: Seq<u8>| peer_set(np).contains(q) <==> map_values(cur).contains(q) {
        assert forall|q: Seq<u8>| !diff.contains(q) by {
            assert(peer_set(np).contains(q) <==> map_values(cur).contains(q));
        }
    }
}

/// The roles of a node: a node is either leading or following, never both
/// and never neither, and a block it is committing, as leader or follower,
/// is the front of its commit queue.
pub proof fn lemma_node_roles(node: &SawtoothRaftNode)
    requires
        node.inv(),
    ensures
        (node.leader() is Some) != (node.follower() is Some),
        node.leader() matches Some(LeaderView::Committing(id)) ==> node.commit_queue().len() > 0
            && node.commit_queue()[0].0 == id,
        node.follower() matches Some(FollowerView::Committing(id)) ==> node.commit_queue().len() > 0
            && node.commit_queue()[0].0 == id,
{
}

/// Whether `p` is one of `peers`.
pub fn contains_peer(peers: &Vec<PeerId>, p: &PeerId) -> (r: bool)
    ensures
        r == peers_view(peers@).contains(p@),
{
    let mut i: usize = 0;
    while i < peers.len()
        invariant
            i <= peers@.len(),
            forall|j: int| 0 <= j < i ==> peers@[j]@ != p@,
        decreases peers.len() - i,
    {
        if bytes_eq(&peers[i], p) {
            assert(peers_view(peers@)[i as int] == p@);
            return true;
        }
        i = i + 1;
    }
    proof {
        if peers_view(peers@).contains(p@) {
            let j = choose|j: int| 0 <= j < peers_view(peers@).len() && peers_view(peers@)[j] == p@;
            assert(peers@[j]@ == p@);
        }
    }
    false
}

} // verus!
