use std::collections::HashMap;
use vstd::prelude::*;
use crate::types::{Index, LogEntry, NodeId, Term};

verus! {

broadcast use {vstd::std_specs::hash::group_hash_axioms, vstd::seq_lib::group_seq_properties};

/// The role a Raft node plays.
#[derive(Debug, Clone, Copy, PartialEq, Eq, Structural)]
pub enum NodeState {
    Follower,
    Candidate,
    Leader,
}

/// The volatile and persistent state of one Raft node.
pub struct RaftState {
    pub node_id: NodeId,
    pub current_term: Term,
    pub voted_for: Option<NodeId>,
    pub log: Vec<(Term, LogEntry)>,
    pub commit_index: Index,
    pub last_applied: Index,
    pub state: NodeState,
    pub peers: Vec<NodeId>,
    pub next_index: HashMap<NodeId, Index>,
    pub match_index: HashMap<NodeId, Index>,
}

/// The map that sends every peer in `peers` to `v`.
pub open spec fn peer_map(peers: Seq<NodeId>, v: Index) -> Map<NodeId, Index> {
    Map::new(|k: NodeId| peers.contains(k), |k: NodeId| v)
}

/// The term of the last log entry, or 0 for an empty log.
pub open spec fn last_term_of(log: Seq<(Term, LogEntry)>) -> Term {
    if log.len() == 0 {
        0
    } else {
        log.last().0
    }
}

impl RaftState {
    /// Whether this is the state a node starts in.
    pub open spec fn is_initial(self, node_id: NodeId, peers: Seq<NodeId>) -> bool {
        &&& self.node_id == node_id
        &&& self.current_term == 0
        &&& self.voted_for == None::<NodeId>
        &&& self.log@.len() == 0
        &&& self.commit_index == 0
        &&& self.last_applied == 0
        &&& self.state == NodeState::Follower
        &&& self.peers@ == peers
        &&& self.next_index@ == peer_map(peers, 1)
        &&& self.match_index@ == peer_map(peers, 0)
    }

    pub fn new(node_id: NodeId, peers: Vec<NodeId>) -> (s: RaftState)
        ensures
            s.is_initial(node_id, peers@),
    {
        let mut next_index: HashMap<NodeId, Index> = HashMap::new();
        let mut match_index: HashMap<NodeId, Index> = HashMap::new();
        let n = peers.len();
        for i in 0..n
            invariant
                n == peers@.len(),
                next_index@ == peer_map(peers@.take(i as int), 1),
                match_index@ == peer_map(peers@.take(i as int), 0),
        {
            let p = peers[i];
            next_index.insert(p, 1);
            match_index.insert(p, 0);
            proof {
                assert(peers@.take(i + 1) =~= peers@.take(i as int).push(p));
                assert(next_index@ =~= peer_map(peers@.take(i + 1), 1));
                assert(match_index@ =~= peer_map(peers@.take(i + 1), 0));
            }
        }
        proof {
            assert(peers@.take(n as int) =~= peers@);
        }
        RaftState {
            node_id,
            current_term: 0,
            voted_for: None,
            log: Vec::new(),
            commit_index: 0,
            last_applied: 0,
            state: NodeState::Follower,
            peers,
            next_index,
            match_index,
        }
    }

    /// The index of the last log entry (the log length).
    pub fn last_log_index(&self) -> (r: Index)
        ensures
            r == self.log@.len(),
    {
        self.log.len() as Index
    }

    /// The term of the last log entry, or 0 for an empty log.
    pub fn last_log_term(&self) -> (r: Term)
        ensures
            r == last_term_of(self.log@),
    {
        if self.log.len() == 0 {
            0
        } else {
            self.log[self.log.len() - 1].0
        }
    }

    /// Steps down to follower in `term`, forgetting any vote.
    pub fn become_follower(&mut self, term: Term)
        ensures
            *final(self) == (RaftState {
                current_term: term,
                voted_for: None,
                state: NodeState::Follower,
                ..*old(self)
            }),
    {
        self.current_term = term;
        self.voted_for = None;
        self.state = NodeState::Follower;
    }

    /// Starts a new term as candidate, voting for itself; returns the new term.
    pub fn become_candidate(&mut self) -> (t: Term)
        requires
            old(self).current_term < u64::MAX,
        ensures
            t == old(self).current_term + 1,
            *final(self) == (RaftState {
                current_term: t,
                voted_for: Some(old(self).node_id),
                state: NodeState::Candidate,
                ..*old(self)
            }),
    {
        self.current_term = self.current_term + 1;
        self.state = NodeState::Candidate;
        self.voted_for = Some(self.node_id);
        self.current_term
    }

    /// Takes the lead: every peer's next index points past the log, and no
    /// peer is known to match any of it.
    pub fn become_leader(&mut self)
        requires
            old(self).log@.len() < u64::MAX,
        ensures
            final(self).state == NodeState::Leader,
            final(self).next_index@ == old(self).next_index@.union_prefer_right(
                peer_map(old(self).peers@, (old(self).log@.len() + 1) as Index),
            ),
            final(self).match_index@ == old(self).match_index@.union_prefer_right(
                peer_map(old(self).peers@, 0),
            ),
            final(self).node_id == old(self).node_id,
            final(self).current_term == old(self).current_term,
            final(self).voted_for == old(self).voted_for,
            final(self).log@ == old(self).log@,
            final(self).commit_index == old(self).commit_index,
            final(self).last_applied == old(self).last_applied,
            final(self).peers@ == old(self).peers@,
    {
        self.state = NodeState::Leader;
        let last_index = self.last_log_index();
        let n = self.peers.len();
        let ghost old_next = self.next_index@;
        let ghost old_match = self.match_index@;
        let ghost before = *self;
        for i in 0..n
            invariant
                n == self.peers@.len(),
                self.state == NodeState::Leader,
                self.node_id == before.node_id,
                self.current_term == before.current_term,
                self.voted_for == before.voted_for,
                self.log@ == before.log@,
                self.commit_index == before.commit_index,
                self.last_applied == before.last_applied,
                self.peers@ == before.peers@,
                old_next == old(self).next_index@,
                old_match == old(self).match_index@,
                before.peers@ == old(self).peers@,
                before.log@ == old(self).log@,
                last_index == self.log@.len(),
                last_index < u64::MAX,
                self.next_index@ == old_next.union_prefer_right(
                    peer_map(self.peers@.take(i as int), (last_index + 1) as Index),
                ),
                self.match_index@ == old_match.union_prefer_right(peer_map(self.peers@.take(i as int), 0)),
        {
            let p = self.peers[i];
            self.next_index.insert(p, last_index + 1);
            self.match_index.insert(p, 0);
            proof {
                assert(self.peers@.take(i + 1) =~= self.peers@.take(i as int).push(p));
                assert(self.next_index@ =~= old_next.union_prefer_right(
                    peer_map(self.peers@.take(i + 1), (last_index + 1) as Index),
                ));
                assert(self.match_index@ =~= old_match.union_prefer_right(
                    peer_map(self.peers@.take(i + 1), 0),
                ));
            }
        }
        proof {
            assert(self.peers@.take(n as int) =~= self.peers@);
        }
    }
}

} // verus!
