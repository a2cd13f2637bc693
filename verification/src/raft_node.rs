use std::collections::HashMap;
use vstd::prelude::*;
use crate::error::RaftError;
use crate::raft_state::{NodeState, RaftState, last_term_of, peer_map};
use crate::types::{
    AppendEntriesRequest, AppendEntriesResponse, AppendEntriesView, Index, LogEntry, NodeId, Term,
    VoteRequest, VoteResponse, log_view,
};

verus! {

broadcast use {vstd::std_specs::hash::group_hash_axioms, vstd::seq_lib::group_seq_properties};

/// The shortest election timeout, in milliseconds.
pub const ELECTION_TIMEOUT_MIN: u64 = 150;

/// One past the longest election timeout, in milliseconds.
pub const ELECTION_TIMEOUT_MAX: u64 = 300;

/// How often a leader sends heartbeats, in milliseconds.
pub const HEARTBEAT_INTERVAL: u64 = 50;

/// The part of a node's state that must reach storage before the node
/// answers: its term and its vote in that term.
#[derive(Debug, Clone, Copy, PartialEq, Eq, Structural)]
pub struct HardState {
    pub term: Term,
    pub voted_for: Option<NodeId>,
}

/// What a node does when its timer fires.
#[derive(Debug, Clone, Copy, PartialEq, Eq, Structural)]
pub enum TimeoutAction {
    Nothing,
    StartElection,
    SendHeartbeat,
}

/// How an append request is taken up, given its term.
#[derive(Debug, Clone, Copy, PartialEq, Eq, Structural)]
pub enum AppendStart {
    /// The request is from an older term: it is refused with this answer,
    /// and nothing changes.
    Stale { response: AppendEntriesResponse },
    /// The request comes from the current leader: the node is its follower,
    /// the election timer restarts, and `persist`, if any, must be stored
    /// before anything else.
    Proceed { persist: Option<HardState> },
}

/// How stored log must change to match the node's log: keep the first
/// `keep` entries and append `entries`.
pub struct LogRewrite {
    pub keep: Index,
    pub entries: Vec<(Term, LogEntry)>,
}

/// The result of matching an append request against the log.
pub struct AppendOutcome {
    pub success: bool,
    /// On success, the index of the last entry the request established.
    pub last_new_index: Index,
    /// The change to hand to storage, when the log changed.
    pub rewrite: Option<LogRewrite>,
}

/// The decision on a vote request.
pub struct VoteDecision {
    pub response: VoteResponse,
    /// The vote to store before answering, when it was granted; granting a
    /// vote also restarts the election timer.
    pub persist: Option<HardState>,
}

/// The effect of a vote response.
#[derive(Debug, Clone, Copy, PartialEq, Eq, Structural)]
pub struct VoteTally {
    pub persist: Option<HardState>,
    pub elected: bool,
}

/// The effect of an append response on a leader.
#[derive(Debug, Clone, Copy, PartialEq, Eq, Structural)]
pub struct ReplicationProgress {
    pub persist: Option<HardState>,
    /// The new commit index, when it moved.
    pub commit: Option<Index>,
}

/// Whether a candidate's log, ending at `last_index` in `last_term`, is at
/// least as up to date as `log`: a newer last term wins, and with equal
/// last terms the longer log wins.
pub open spec fn log_up_to_date(last_term: Term, last_index: Index, log: Seq<(Term, LogEntry)>) -> bool {
    last_term > last_term_of(log) || (last_term == last_term_of(log) && last_index >= log.len())
}

/// Whether a node in state `s` grants its vote to `from` for `req`.
pub open spec fn grants_vote(s: RaftState, from: NodeId, req: VoteRequest) -> bool {
    &&& req.term == s.current_term
    &&& (s.voted_for is None || s.voted_for == Some(from))
    &&& log_up_to_date(req.last_log_term, req.last_log_index, s.log@)
}

/// Whether `log` holds an entry of term `prev_term` at 1-based position `prev`
/// (position 0 always matches).
pub open spec fn log_consistent(log: Seq<(Term, LogEntry)>, prev: Index, prev_term: Term) -> bool {
    prev == 0 || (prev <= log.len() && log[prev - 1].0 == prev_term)
}

/// The first position `i` or later at which the request's entries, placed
/// after position `prev` of `log`, run past the log or disagree with it in
/// term; `entries.len()` when there is none.
pub open spec fn conflict_at(
    log: Seq<(Term, Seq<u8>)>,
    prev: int,
    entries: Seq<(Term, Seq<u8>)>,
    i: int,
) -> int
    decreases entries.len() - i,
{
    if i >= entries.len() {
        entries.len() as int
    } else if prev + i >= log.len() || log[prev + i].0 != entries[i].0 {
        i
    } else {
        conflict_at(log, prev, entries, i + 1)
    }
}

/// The log after accepting `entries` after position `prev`: entries already
/// present in the same term stay; from the first conflict on, the log is
/// replaced by the rest of the entries.
pub open spec fn merged_log(log: Seq<(Term, Seq<u8>)>, prev: int, entries: Seq<(Term, Seq<u8>)>) -> Seq<
    (Term, Seq<u8>),
> {
    let k = conflict_at(log, prev, entries, 0);
    if k >= entries.len() {
        log
    } else {
        log.take(prev + k) + entries.skip(k)
    }
}

/// The commit index after a leader reports `leader_commit` on a request
/// whose last new entry is at `last_new`: it follows the leader up to that
/// entry and never moves back.
pub open spec fn next_commit(commit: Index, leader_commit: Index, last_new: Index) -> Index {
    if leader_commit > commit {
        let target = if leader_commit <= last_new { leader_commit } else { last_new };
        if target > commit { target } else { commit }
    } else {
        commit
    }
}

/// Whether a candidate holding `votes` granted votes from peers, and its own,
/// has a majority of a cluster of `peers` other nodes.
pub open spec fn wins(votes: nat, peers: nat) -> bool {
    votes + 1 > (peers + 1) / 2
}

/// Whether `t` is `s` after taking the lead: every peer's next index points
/// past the log, no peer is known to match any of it, and nothing else changed.
pub open spec fn took_lead(s: RaftState, t: RaftState) -> bool {
    &&& t.state == NodeState::Leader
    &&& t.next_index@ == s.next_index@.union_prefer_right(peer_map(s.peers@, (s.log@.len() + 1) as Index))
    &&& t.match_index@ == s.match_index@.union_prefer_right(peer_map(s.peers@, 0))
    &&& t.node_id == s.node_id
    &&& t.current_term == s.current_term
    &&& t.voted_for == s.voted_for
    &&& t.log@ == s.log@
    &&& t.commit_index == s.commit_index
    &&& t.last_applied == s.last_applied
    &&& t.peers@ == s.peers@
}

/// `s` stepped down to follower in the newer `term`, with no vote.
pub open spec fn stepped_down(s: RaftState, term: Term) -> RaftState {
    RaftState { current_term: term, voted_for: None, state: NodeState::Follower, ..s }
}

/// Whether a vote response from `from` counts towards the election of a node
/// in state `s` that has counted `votes` so far.
pub open spec fn counts_vote(s: RaftState, votes: Seq<NodeId>, from: NodeId, resp: VoteResponse) -> bool {
    &&& s.state == NodeState::Candidate
    &&& resp.term == s.current_term
    &&& resp.vote_granted
    &&& s.peers@.contains(from)
    &&& !votes.contains(from)
}

/// How many of `peers` a leader knows to hold its log up to index `n`.
pub open spec fn count_matching(peers: Seq<NodeId>, match_index: Map<NodeId, Index>, n: Index) -> nat
    decreases peers.len(),
{
    if peers.len() == 0 {
        0
    } else {
        count_matching(peers.drop_last(), match_index, n) + if match_index.contains_key(peers.last())
            && match_index[peers.last()] >= n {
            1nat
        } else {
            0nat
        }
    }
}

/// Whether index `n` is held by a majority, the leader included.
pub open spec fn replicated(s: RaftState, n: Index) -> bool {
    count_matching(s.peers@, s.match_index@, n) + 1 > (s.peers@.len() + 1) / 2
}

/// The highest index at most `n` that a leader may commit: an entry of its
/// own term held by a majority; the current commit index when there is none
/// above it.
pub open spec fn commit_target(s: RaftState, n: int) -> Index
    decreases n,
{
    if n <= s.commit_index || n > s.log@.len() || n > u64::MAX {
        s.commit_index
    } else if s.log@[n - 1].0 == s.current_term && replicated(s, n as Index) {
        n as Index
    } else {
        commit_target(s, n - 1)
    }
}

/// The match index a leader records for `peer` once it confirmed holding
/// the log up to `m`: it never moves back.
pub open spec fn confirmed_match(s: RaftState, peer: NodeId, m: Index) -> Index {
    let old_match: Index = if s.match_index@.contains_key(peer) { s.match_index@[peer] } else { 0 };
    if old_match >= m { old_match } else { m }
}

/// The index of the last entry a heartbeat to `peer` covers.
pub open spec fn sent_upto(s: RaftState, peer: NodeId) -> Index {
    let h = heartbeat_for(s, peer);
    (h.prev_log_index + h.entries.len()) as Index
}

/// Where a node in state `s` stands once it has heard from the leader of
/// `term` (not older than its own): a newer term makes it a follower in that
/// term with no vote; a candidate of the same term steps down; a leader or
/// follower of the same term stays as it is.
pub open spec fn follows(s: RaftState, term: Term) -> RaftState {
    if term > s.current_term {
        stepped_down(s, term)
    } else if s.state == NodeState::Candidate {
        RaftState { state: NodeState::Follower, ..s }
    } else {
        s
    }
}

/// The next index that follows a match index.
pub open spec fn next_after(m: Index) -> Index {
    if m < u64::MAX { (m + 1) as Index } else { m }
}

/// The next index a leader retries with for `peer` after it refused an append.
pub open spec fn backed_off(s: RaftState, peer: NodeId) -> Index {
    let next: Index = if s.next_index@.contains_key(peer) { s.next_index@[peer] } else { 1 };
    if next > 1 { (next - 1) as Index } else { 1 }
}

/// The heartbeat a leader in state `s` sends to `peer`.
pub open spec fn heartbeat_for(s: RaftState, peer: NodeId) -> AppendEntriesView {
    let next = if s.next_index@.contains_key(peer) { s.next_index@[peer] } else { 1 };
    let prev: Index = if next == 0 { 0 } else { (next - 1) as Index };
    AppendEntriesView {
        term: s.current_term,
        leader_id: s.node_id,
        prev_log_index: prev,
        prev_log_term: if prev > 0 && prev - 1 < s.log@.len() { s.log@[prev - 1].0 } else { 0 },
        entries: if prev < s.log@.len() {
            log_view(s.log@).skip(prev as int)
        } else {
            Seq::empty()
        },
        leader_commit: s.commit_index,
    }
}

/// Everything handling an append request decides: the answer to send, what
/// to store first (the hard state, then the log rewrite, then the commit
/// index), and whether the election timer restarts.
pub struct AppendStep {
    pub response: AppendEntriesResponse,
    pub persist: Option<HardState>,
    pub rewrite: Option<LogRewrite>,
    pub commit: Option<Index>,
    pub reset_timer: bool,
}

/// Everything handling a vote request decides: the answer, the hard state
/// to store before answering, and whether the election timer restarts.
pub struct VoteStep {
    pub response: VoteResponse,
    pub persist: Option<HardState>,
    pub reset_timer: bool,
}

/// The decision core of a Raft node: every handler takes the node's state and
/// an event, updates the state, and says what must be persisted or sent.
pub struct RaftNode {
    state: RaftState,
    votes: Vec<NodeId>,
    sent: HashMap<NodeId, Index>,
}

impl RaftNode {
    /// The node's state.
    pub closed spec fn st(&self) -> RaftState {
        self.state
    }

    /// The peers whose votes a candidate has counted in its current election.
    pub closed spec fn votes(&self) -> Seq<NodeId> {
        self.votes@
    }

    /// For each peer, the index of the last entry the latest heartbeat to it
    /// covered.
    pub closed spec fn sent(&self) -> Map<NodeId, Index> {
        self.sent@
    }

    pub fn new(node_id: NodeId, peers: Vec<NodeId>) -> (n: RaftNode)
        ensures
            n.st().is_initial(node_id, peers@),
            n.votes() == Seq::<NodeId>::empty(),
            n.sent() == Map::<NodeId, Index>::empty(),
    {
        RaftNode { state: RaftState::new(node_id, peers), votes: Vec::new(), sent: HashMap::new() }
    }

    /// A node that starts from the given state, with no votes counted.
    pub fn with_state(state: RaftState) -> (n: RaftNode)
        ensures
            n.st() == state,
            n.votes() == Seq::<NodeId>::empty(),
            n.sent() == Map::<NodeId, Index>::empty(),
    {
        RaftNode { state, votes: Vec::new(), sent: HashMap::new() }
    }

    pub fn state(&self) -> (s: &RaftState)
        ensures
            *s == self.st(),
    {
        &self.state
    }

    pub fn current_term(&self) -> (t: Term)
        ensures
            t == self.st().current_term,
    {
        self.state.current_term
    }

    pub fn node_id(&self) -> (id: NodeId)
        ensures
            id == self.st().node_id,
    {
        self.state.node_id
    }

    pub fn peers(&self) -> (p: &Vec<NodeId>)
        ensures
            p@ == self.st().peers@,
    {
        &self.state.peers
    }

    /// Installs the state read back from storage.
    pub fn load_state(&mut self, term: Term, voted_for: Option<NodeId>, log: Vec<(Term, LogEntry)>, commit_index: Index)
        ensures
            final(self).st() == (RaftState {
                current_term: term,
                voted_for,
                log,
                commit_index,
                ..old(self).st()
            }),
            final(self).votes() == old(self).votes(),
            final(self).sent() == old(self).sent(),
    {
        self.state.current_term = term;
        self.state.voted_for = voted_for;
        self.state.log = log;
        self.state.commit_index = commit_index;
    }

    /// Adopts a newer term seen in a message, stepping down to follower with
    /// no vote; returns the term and cleared vote to persist when it changed.
    pub fn observe_term(&mut self, term: Term) -> (r: Option<HardState>)
        ensures
            term > old(self).st().current_term ==> r == Some(HardState { term, voted_for: None })
                && final(self).st() == stepped_down(old(self).st(), term)
                && final(self).votes() == Seq::<NodeId>::empty(),
            term <= old(self).st().current_term ==> r is None && final(self).st() == old(self).st()
                && final(self).votes() == old(self).votes(),
            final(self).sent() == old(self).sent(),
    {
        if term > self.state.current_term {
            self.state.become_follower(term);
            self.votes = Vec::new();
            Some(HardState { term, voted_for: None })
        } else {
            None
        }
    }

    /// Decides a vote request from `from` (after `observe_term`): the vote is
    /// granted in the current term, to the candidate already voted for or to
    /// the first one, when its log is at least as up to date.
    pub fn decide_vote(&mut self, from: NodeId, req: &VoteRequest) -> (r: VoteDecision)
        ensures
            r.response.vote_granted == grants_vote(old(self).st(), from, *req),
            r.response.term == old(self).st().current_term,
            r.response.vote_granted ==> final(self).st() == (RaftState {
                voted_for: Some(from),
                ..old(self).st()
            }) && r.persist == Some(HardState { term: old(self).st().current_term, voted_for: Some(from) }),
            !r.response.vote_granted ==> final(self).st() == old(self).st() && r.persist is None,
            final(self).votes() == old(self).votes(),
            final(self).sent() == old(self).sent(),
    {
        let my_last_term = self.state.last_log_term();
        let my_last_index = self.state.last_log_index();
        let up_to_date = req.last_log_term > my_last_term || (req.last_log_term == my_last_term
            && req.last_log_index >= my_last_index);
        let granted = req.term == self.state.current_term && (self.state.voted_for.is_none()
            || self.state.voted_for == Some(from)) && up_to_date;
        if granted {
            self.state.voted_for = Some(from);
            VoteDecision {
                response: VoteResponse { term: self.state.current_term, vote_granted: true },
                persist: Some(HardState { term: self.state.current_term, voted_for: Some(from) }),
            }
        } else {
            VoteDecision {
                response: VoteResponse { term: self.state.current_term, vote_granted: false },
                persist: None,
            }
        }
    }

    /// Handles a vote request from start to end: a newer term is adopted
    /// first, then the vote is decided in the node's term. The hard state to
    /// store is the granted vote, or else the adopted term with no vote; the
    /// election timer restarts when the vote is granted.
    pub fn handle_vote_request(&mut self, from: NodeId, req: &VoteRequest) -> (r: VoteStep)
        ensures
            ({
                let s = old(self).st();
                let s1 = if req.term > s.current_term { stepped_down(s, req.term) } else { s };
                let granted = grants_vote(s1, from, *req);
                &&& r.response == (VoteResponse { term: s1.current_term, vote_granted: granted })
                &&& r.reset_timer == granted
                &&& granted ==> final(self).st() == (RaftState { voted_for: Some(from), ..s1 }) && r.persist
                    == Some(HardState { term: s1.current_term, voted_for: Some(from) })
                &&& !granted ==> final(self).st() == s1 && r.persist == (if req.term > s.current_term {
                    Some(HardState { term: req.term, voted_for: None })
                } else {
                    None
                })
            }),
            req.term > old(self).st().current_term ==> final(self).votes() == Seq::<NodeId>::empty(),
            req.term <= old(self).st().current_term ==> final(self).votes() == old(self).votes(),
            final(self).sent() == old(self).sent(),
    {
        let raised = self.observe_term(req.term);
        let decision = self.decide_vote(from, req);
        let granted = decision.response.vote_granted;
        let persist = match decision.persist {
            Some(h) => Some(h),
            None => raised,
        };
        VoteStep { response: decision.response, persist, reset_timer: granted }
    }

    /// Takes the lead when the votes counted, with its own, are a majority.
    fn try_lead(&mut self) -> (elected: bool)
        requires
            old(self).st().log@.len() < u64::MAX,
        ensures
            elected == wins(old(self).votes().len(), old(self).st().peers@.len()),
            elected ==> took_lead(old(self).st(), final(self).st()),
            !elected ==> final(self).st() == old(self).st(),
            final(self).votes() == old(self).votes(),
            final(self).sent() == old(self).sent(),
    {
        let others = self.state.peers.len();
        // (others + 1) / 2, without overflow
        let half = others / 2 + others % 2;
        if self.votes.len() >= half {
            self.state.become_leader();
            true
        } else {
            false
        }
    }

    /// Starts an election: a new term, a vote for itself, no votes from
    /// peers yet, and the request to send to every peer. The new term and
    /// the vote must be persisted.
    pub fn begin_election(&mut self) -> (r: (VoteRequest, HardState))
        requires
            old(self).st().current_term < u64::MAX,
        ensures
            final(self).st() == (RaftState {
                current_term: (old(self).st().current_term + 1) as Term,
                voted_for: Some(old(self).st().node_id),
                state: NodeState::Candidate,
                ..old(self).st()
            }),
            final(self).votes() == Seq::<NodeId>::empty(),
            r.0 == (VoteRequest {
                term: final(self).st().current_term,
                candidate_id: old(self).st().node_id,
                last_log_index: old(self).st().log@.len() as Index,
                last_log_term: last_term_of(old(self).st().log@),
            }),
            r.1 == (HardState { term: final(self).st().current_term, voted_for: Some(old(self).st().node_id) }),
    {
        let term = self.state.become_candidate();
        self.votes = Vec::new();
        let req = VoteRequest {
            term,
            candidate_id: self.state.node_id,
            last_log_index: self.state.last_log_index(),
            last_log_term: self.state.last_log_term(),
        };
        (req, HardState { term, voted_for: Some(self.state.node_id) })
    }

    /// Checks whether a candidate already holds a majority with the votes
    /// counted so far (right after `begin_election`, only when it has no
    /// peers), and if so takes the lead.
    pub fn conclude_election(&mut self) -> (elected: bool)
        requires
            old(self).st().log@.len() < u64::MAX,
        ensures
            elected == (old(self).st().state == NodeState::Candidate && wins(
                old(self).votes().len(),
                old(self).st().peers@.len(),
            )),
            elected ==> took_lead(old(self).st(), final(self).st()),
            !elected ==> final(self).st() == old(self).st(),
            final(self).votes() == old(self).votes(),
            final(self).sent() == old(self).sent(),
    {
        if self.state.state != NodeState::Candidate {
            return false;
        }
        self.try_lead()
    }

    /// Counts a vote response: a newer term makes the node a follower; a
    /// vote granted in the current term by a peer not yet counted is counted,
    /// and a candidate whose votes, with its own, reach a majority takes the
    /// lead.
    pub fn handle_vote_response(&mut self, from_id: NodeId, resp: VoteResponse) -> (r: VoteTally)
        requires
            old(self).st().log@.len() < u64::MAX,
        ensures
            resp.term > old(self).st().current_term ==> r == (VoteTally {
                persist: Some(HardState { term: resp.term, voted_for: None }),
                elected: false,
            }) && final(self).st() == stepped_down(old(self).st(), resp.term) && final(self).votes()
                == Seq::<NodeId>::empty(),
            resp.term <= old(self).st().current_term && counts_vote(old(self).st(), old(self).votes(), from_id, resp)
                ==> r.persist is None && final(self).votes() == old(self).votes().push(from_id) && r.elected
                == wins(old(self).votes().len() + 1, old(self).st().peers@.len()) && (r.elected ==> took_lead(
                old(self).st(),
                final(self).st(),
            )) && (!r.elected ==> final(self).st() == old(self).st()),
            resp.term <= old(self).st().current_term && !counts_vote(old(self).st(), old(self).votes(), from_id, resp)
                ==> r == (VoteTally { persist: None, elected: false }) && final(self).st() == old(self).st()
                && final(self).votes() == old(self).votes(),
            final(self).sent() == old(self).sent(),
    {
        if let Some(h) = self.observe_term(resp.term) {
            return VoteTally { persist: Some(h), elected: false };
        }
        if self.state.state == NodeState::Candidate && resp.term == self.state.current_term
            && resp.vote_granted && vec_contains(&self.state.peers, from_id) && !vec_contains(&self.votes, from_id) {
            self.votes.push(from_id);
            let elected = self.try_lead();
            VoteTally { persist: None, elected }
        } else {
            VoteTally { persist: None, elected: false }
        }
    }

    /// Takes up an append request of term `term`: one from an older term is
    /// refused in the node's term; otherwise the node follows the sender,
    /// adopting its term when newer, and a candidate steps down.
    pub fn begin_append(&mut self, term: Term) -> (r: AppendStart)
        ensures
            term < old(self).st().current_term ==> r == (AppendStart::Stale {
                response: AppendEntriesResponse {
                    term: old(self).st().current_term,
                    success: false,
                    next_index: None,
                },
            }) && final(self).st() == old(self).st() && final(self).votes() == old(self).votes(),
            term >= old(self).st().current_term ==> final(self).st() == follows(old(self).st(), term),
            term == old(self).st().current_term ==> r == (AppendStart::Proceed { persist: None }),
            term == old(self).st().current_term && old(self).st().state != NodeState::Candidate ==> final(self).votes() == old(self).votes(),
            term == old(self).st().current_term && old(self).st().state == NodeState::Candidate ==> final(self).votes() == Seq::<NodeId>::empty(),
            term > old(self).st().current_term ==> r == (AppendStart::Proceed {
                persist: Some(HardState { term, voted_for: None }),
            }) && final(self).votes() == Seq::<NodeId>::empty(),
            final(self).sent() == old(self).sent(),
    {
        if term < self.state.current_term {
            return AppendStart::Stale {
                response: AppendEntriesResponse {
                    term: self.state.current_term,
                    success: false,
                    next_index: None,
                },
            };
        }
        match self.observe_term(term) {
            Some(h) => AppendStart::Proceed { persist: Some(h) },
            None => {
                if self.state.state == NodeState::Candidate {
                    self.state.state = NodeState::Follower;
                    self.votes = Vec::new();
                }
                AppendStart::Proceed { persist: None }
            },
        }
    }

    /// Matches an append request against the log: when the log holds the
    /// request's previous entry, the request's entries are merged in (entries
    /// already there in the same term stay; from the first conflict on, the
    /// log is replaced), and the change to storage is reported.
    pub fn accept_entries(&mut self, req: AppendEntriesRequest) -> (r: AppendOutcome)
        ensures
            r.success == log_consistent(old(self).st().log@, req.prev_log_index, req.prev_log_term),
            r.success ==> log_view(final(self).st().log@) == merged_log(
                log_view(old(self).st().log@),
                req.prev_log_index as int,
                log_view(req.entries@),
            ) && r.last_new_index == req.prev_log_index + req.entries@.len() && r.last_new_index
                <= final(self).st().log@.len(),
            r.success && conflict_at(
                log_view(old(self).st().log@),
                req.prev_log_index as int,
                log_view(req.entries@),
                0,
            ) < req.entries@.len() ==> (r.rewrite matches Some(w) && w.keep == req.prev_log_index + conflict_at(
                log_view(old(self).st().log@),
                req.prev_log_index as int,
                log_view(req.entries@),
                0,
            ) && log_view(w.entries@) == log_view(req.entries@).skip(
                conflict_at(log_view(old(self).st().log@), req.prev_log_index as int, log_view(req.entries@), 0),
            )),
            !(r.success && conflict_at(
                log_view(old(self).st().log@),
                req.prev_log_index as int,
                log_view(req.entries@),
                0,
            ) < req.entries@.len()) ==> final(self).st().log@ == old(self).st().log@ && r.rewrite is None,
            final(self).st() == (RaftState { log: final(self).st().log, ..old(self).st() }),
            final(self).votes() == old(self).votes(),
            final(self).sent() == old(self).sent(),
    {
        let len = self.state.log.len();
        let success = req.prev_log_index == 0 || (req.prev_log_index <= len as Index
            && self.state.log[(req.prev_log_index - 1) as usize].0 == req.prev_log_term);
        if !success {
            return AppendOutcome { success, last_new_index: 0, rewrite: None };
        }
        let prev = req.prev_log_index as usize;
        let n = req.entries.len();
        let ghost lv = log_view(self.state.log@);
        let ghost ev = log_view(req.entries@);
        let mut k: usize = 0;
        while k < n && k < len - prev && self.state.log[prev + k].0 == req.entries[k].0
            invariant
                prev <= len,
                len == self.state.log@.len(),
                n == req.entries@.len(),
                lv == log_view(self.state.log@),
                ev == log_view(req.entries@),
                k <= n,
                prev + k <= len,
                conflict_at(lv, prev as int, ev, k as int) == conflict_at(lv, prev as int, ev, 0),
            decreases n - k,
        {
            k = k + 1;
        }
        proof {
            assert(conflict_at(lv, prev as int, ev, k as int) == k);
        }
        if k == n {
            return AppendOutcome { success: true, last_new_index: (prev + n) as Index, rewrite: None };
        }
        let ghost old_state = self.state;
        self.state.log.truncate(prev + k);
        proof {
            assert(log_view(self.state.log@) =~= lv.take(prev + k));
        }
        let mut tail: Vec<(Term, LogEntry)> = Vec::new();
        for i in k..n
            invariant
                n == req.entries@.len(),
                ev == log_view(req.entries@),
                k < n,
                log_view(self.state.log@) == lv.take(prev + k) + ev.subrange(k as int, i as int),
                log_view(tail@) == ev.subrange(k as int, i as int),
                self.state == (RaftState { log: self.state.log, ..old_state }),
                self.votes@ == old(self).votes@,
                self.sent@ == old(self).sent@,
                old_state == (RaftState { log: old_state.log, ..old(self).state }),
        {
            let t = req.entries[i].0;
            let e = req.entries[i].1.copy();
            let e2 = e.copy();
            let ghost before = self.state.log@;
            let ghost tail_before = tail@;
            let ghost e_view = e@;
            self.state.log.push((t, e));
            tail.push((t, e2));
            proof {
                assert(ev.subrange(k as int, i + 1) =~= ev.subrange(k as int, i as int).push((t, e_view)));
                assert(log_view(self.state.log@) =~= log_view(before).push((t, e_view)));
                assert(log_view(tail@) =~= log_view(tail_before).push((t, e_view)));
                assert(lv.take(prev + k) + ev.subrange(k as int, i + 1) =~= (lv.take(prev + k) + ev.subrange(
                    k as int,
                    i as int,
                )).push((t, e_view)));
            }
        }
        proof {
            assert(ev.subrange(k as int, n as int) =~= ev.skip(k as int));
        }
        let new_len = self.state.log.len();
        proof {
            assert(log_view(self.state.log@).len() == prev + n);
        }
        AppendOutcome {
            success: true,
            last_new_index: new_len as Index,
            rewrite: Some(LogRewrite { keep: (prev + k) as Index, entries: tail }),
        }
    }

    /// Follows the leader's commit index up to the last new entry of the
    /// request just accepted, never moving back; returns the new index when
    /// it moved (and must be persisted).
    pub fn advance_commit(&mut self, leader_commit: Index, last_new_index: Index) -> (r: Option<Index>)
        ensures
            final(self).st() == (RaftState {
                commit_index: next_commit(old(self).st().commit_index, leader_commit, last_new_index),
                ..old(self).st()
            }),
            final(self).st().commit_index > old(self).st().commit_index ==> r == Some(
                final(self).st().commit_index,
            ),
            final(self).st().commit_index == old(self).st().commit_index ==> r is None,
            final(self).votes() == old(self).votes(),
            final(self).sent() == old(self).sent(),
    {
        if leader_commit > self.state.commit_index {
            let target = if leader_commit <= last_new_index { leader_commit } else { last_new_index };
            if target > self.state.commit_index {
                self.state.commit_index = target;
                return Some(target);
            }
        }
        None
    }

    /// The answer to an append request that was taken up.
    pub fn append_response(&self, success: bool) -> (r: AppendEntriesResponse)
        ensures
            r == (AppendEntriesResponse { term: self.st().current_term, success, next_index: None }),
    {
        AppendEntriesResponse { term: self.state.current_term, success, next_index: None }
    }

    /// Handles an append request from start to end: a request from an older
    /// term is refused in the node's term; otherwise the node follows the
    /// sender, merges the request's entries when its log holds the previous
    /// entry, follows the leader's commit index up to the last new entry,
    /// and answers in the request's term. The election timer restarts for
    /// every request that is taken up.
    pub fn handle_append_entries(&mut self, req: AppendEntriesRequest) -> (r: AppendStep)
        ensures
            req.term < old(self).st().current_term ==> r.response == (AppendEntriesResponse {
                term: old(self).st().current_term,
                success: false,
                next_index: None,
            }) && r.persist is None && r.rewrite is None && r.commit is None && !r.reset_timer
                && final(self).st() == old(self).st(),
            req.term >= old(self).st().current_term ==> ({
                let s1 = follows(old(self).st(), req.term);
                let ok = log_consistent(old(self).st().log@, req.prev_log_index, req.prev_log_term);
                let k = conflict_at(log_view(old(self).st().log@), req.prev_log_index as int, log_view(req.entries@), 0);
                &&& r.reset_timer
                &&& r.persist == (if req.term > old(self).st().current_term {
                    Some(HardState { term: req.term, voted_for: None })
                } else {
                    None
                })
                &&& r.response == (AppendEntriesResponse { term: req.term, success: ok, next_index: None })
                &&& final(self).st() == (RaftState {
                    log: final(self).st().log,
                    commit_index: final(self).st().commit_index,
                    ..s1
                })
                &&& ok ==> log_view(final(self).st().log@) == merged_log(
                    log_view(old(self).st().log@),
                    req.prev_log_index as int,
                    log_view(req.entries@),
                ) && final(self).st().commit_index == next_commit(
                    old(self).st().commit_index,
                    req.leader_commit,
                    (req.prev_log_index + req.entries@.len()) as Index,
                )
                &&& !ok ==> final(self).st().log@ == old(self).st().log@ && final(self).st().commit_index == old(self).st().commit_index
                &&& ok && k < req.entries@.len() ==> (r.rewrite matches Some(w) && w.keep
                    == req.prev_log_index + k && log_view(w.entries@) == log_view(req.entries@).skip(k))
                &&& !(ok && k < req.entries@.len()) ==> r.rewrite is None
                &&& final(self).st().commit_index > old(self).st().commit_index ==> r.commit == Some(
                    final(self).st().commit_index,
                )
                &&& final(self).st().commit_index == old(self).st().commit_index ==> r.commit is None
            }),
            final(self).sent() == old(self).sent(),
    {
        match self.begin_append(req.term) {
            AppendStart::Stale { response } => AppendStep {
                response,
                persist: None,
                rewrite: None,
                commit: None,
                reset_timer: false,
            },
            AppendStart::Proceed { persist } => {
                let leader_commit = req.leader_commit;
                let out = self.accept_entries(req);
                let commit = if out.success {
                    self.advance_commit(leader_commit, out.last_new_index)
                } else {
                    None
                };
                let response = self.append_response(out.success);
                AppendStep { response, persist, rewrite: out.rewrite, commit, reset_timer: true }
            },
        }
    }

    /// A leader's bookkeeping on an append response: a newer term makes it a
    /// follower; a success from a peer in the current term confirms that the
    /// peer holds the log as far as the latest heartbeat to it reached (a
    /// response names no index, so it is credited to that heartbeat), and
    /// the leader commits the highest entry of the current term held by a
    /// majority; a refusal makes the next attempt start one entry earlier.
    pub fn handle_append_entries_response(&mut self, from_id: NodeId, resp: AppendEntriesResponse) -> (r: ReplicationProgress)
        ensures
            resp.term > old(self).st().current_term ==> r == (ReplicationProgress {
                persist: Some(HardState { term: resp.term, voted_for: None }),
                commit: None,
            }) && final(self).st() == stepped_down(old(self).st(), resp.term) && final(self).votes()
                == Seq::<NodeId>::empty(),
            resp.term <= old(self).st().current_term ==> r.persist is None && final(self).votes() == old(self).votes(),
            resp.term <= old(self).st().current_term && !(old(self).st().state == NodeState::Leader
                && resp.term == old(self).st().current_term && old(self).st().peers@.contains(from_id))
                ==> final(self).st() == old(self).st() && r.commit is None,
            ({
                let s = old(self).st();
                s.state == NodeState::Leader && resp.term == s.current_term && s.peers@.contains(from_id)
                    && resp.success ==> if old(self).sent().contains_key(from_id) {
                    let m = confirmed_match(s, from_id, old(self).sent()[from_id]);
                    let s2 = RaftState {
                        match_index: final(self).st().match_index,
                        next_index: final(self).st().next_index,
                        commit_index: final(self).st().commit_index,
                        ..s
                    };
                    &&& final(self).st() == s2
                    &&& s2.match_index@ == s.match_index@.insert(from_id, m)
                    &&& s2.next_index@ == s.next_index@.insert(from_id, next_after(m))
                    &&& s2.commit_index == commit_target(
                        RaftState { commit_index: s.commit_index, ..s2 },
                        s.log@.len() as int,
                    )
                    &&& (s2.commit_index > s.commit_index ==> r.commit == Some(s2.commit_index))
                    &&& (s2.commit_index == s.commit_index ==> r.commit is None)
                } else {
                    final(self).st() == s && r.commit is None
                }
            }),
            ({
                let s = old(self).st();
                s.state == NodeState::Leader && resp.term == s.current_term && s.peers@.contains(from_id)
                    && !resp.success ==> final(self).st() == (RaftState {
                    next_index: final(self).st().next_index,
                    ..s
                }) && final(self).st().next_index@ == s.next_index@.insert(from_id, backed_off(s, from_id))
                    && r.commit is None
            }),
            final(self).sent() == old(self).sent(),
    {
        if let Some(h) = self.observe_term(resp.term) {
            return ReplicationProgress { persist: Some(h), commit: None };
        }
        if !(self.state.state == NodeState::Leader && resp.term == self.state.current_term && vec_contains(
            &self.state.peers,
            from_id,
        )) {
            return ReplicationProgress { persist: None, commit: None };
        }
        if resp.success {
            let reached = match self.sent.get(&from_id) {
                Some(v) => *v,
                None => {
                    return ReplicationProgress { persist: None, commit: None };
                },
            };
            let old_match = match self.state.match_index.get(&from_id) {
                Some(v) => *v,
                None => 0,
            };
            let m = if old_match >= reached { old_match } else { reached };
            let next = if m < u64::MAX { m + 1 } else { m };
            self.state.match_index.insert(from_id, m);
            self.state.next_index.insert(from_id, next);
            let target = self.commit_target_exec();
            proof {
                lemma_commit_target_at_least(self.state, self.state.log@.len() as int);
            }
            if target > self.state.commit_index {
                self.state.commit_index = target;
                return ReplicationProgress { persist: None, commit: Some(target) };
            }
            ReplicationProgress { persist: None, commit: None }
        } else {
            let next = match self.state.next_index.get(&from_id) {
                Some(v) => *v,
                None => 1,
            };
            let back = if next > 1 { next - 1 } else { 1 };
            self.state.next_index.insert(from_id, back);
            ReplicationProgress { persist: None, commit: None }
        }
    }

    /// How many peers hold the log up to `n`.
    fn count_matching_exec(&self, n: Index) -> (c: usize)
        ensures
            c == count_matching(self.st().peers@, self.st().match_index@, n),
            c <= self.st().peers@.len(),
    {
        let mut c: usize = 0;
        let len = self.state.peers.len();
        for i in 0..len
            invariant
                len == self.state.peers@.len(),
                c == count_matching(self.state.peers@.take(i as int), self.state.match_index@, n),
                c <= i,
        {
            let p = self.state.peers[i];
            proof {
                assert(self.state.peers@.take(i + 1).drop_last() =~= self.state.peers@.take(i as int));
            }
            match self.state.match_index.get(&p) {
                Some(v) => {
                    if *v >= n {
                        c = c + 1;
                    }
                },
                None => {},
            }
        }
        proof {
            assert(self.state.peers@.take(len as int) =~= self.state.peers@);
        }
        c
    }

    /// The highest index a leader may commit now.
    fn commit_target_exec(&self) -> (t: Index)
        ensures
            t == commit_target(self.st(), self.st().log@.len() as int),
    {
        let len = self.state.log.len();
        let others = self.state.peers.len();
        let half = others / 2 + others % 2;
        let mut n: usize = len;
        while n as Index > self.state.commit_index
            invariant
                len == self.state.log@.len(),
                n <= len,
                half == (others + 1) / 2,
                others == self.state.peers@.len(),
                commit_target(self.state, n as int) == commit_target(self.state, len as int),
            decreases n,
        {
            if self.state.log[n - 1].0 == self.state.current_term {
                let c = self.count_matching_exec(n as Index);
                if c >= half {
                    return n as Index;
                }
            }
            n = n - 1;
        }
        self.state.commit_index
    }

    /// The heartbeat (append request) a leader sends to each peer, in the
    /// order of `peers`, noting for each peer how far the heartbeat reaches;
    /// a node that is not leader sends none.
    pub fn heartbeat_requests(&mut self) -> (r: Vec<(NodeId, AppendEntriesRequest)>)
        ensures
            final(self).st() == old(self).st(),
            final(self).votes() == old(self).votes(),
            old(self).st().state != NodeState::Leader ==> r@.len() == 0 && final(self).sent() == old(self).sent(),
            old(self).st().state == NodeState::Leader ==> r@.len() == old(self).st().peers@.len(),
            old(self).st().state == NodeState::Leader ==> forall|i: int|
                0 <= i < r@.len() ==> (#[trigger] r@[i]).0 == old(self).st().peers@[i] && r@[i].1@
                    == heartbeat_for(old(self).st(), old(self).st().peers@[i]),
            old(self).st().state == NodeState::Leader ==> final(self).sent() == old(self).sent().union_prefer_right(
                Map::new(|p: NodeId| old(self).st().peers@.contains(p), |p: NodeId| sent_upto(old(self).st(), p)),
            ),
    {
        let mut out: Vec<(NodeId, AppendEntriesRequest)> = Vec::new();
        if self.state.state != NodeState::Leader {
            return out;
        }
        let ghost s = self.state;
        let ghost sent0 = self.sent@;
        let n = self.state.peers.len();
        for i in 0..n
            invariant
                n == self.state.peers@.len(),
                self.state == s,
                self.votes@ == old(self).votes@,
                s.state == NodeState::Leader,
                sent0 == old(self).sent@,
                out@.len() == i,
                forall|j: int|
                    0 <= j < i ==> (#[trigger] out@[j]).0 == s.peers@[j] && out@[j].1@ == heartbeat_for(
                        s,
                        s.peers@[j],
                    ),
                self.sent@ == sent0.union_prefer_right(
                    Map::new(|p: NodeId| s.peers@.take(i as int).contains(p), |p: NodeId| sent_upto(s, p)),
                ),
        {
            let peer = self.state.peers[i];
            let req = self.heartbeat_for_peer(peer);
            let reach = req.prev_log_index + req.entries.len() as Index;
            self.sent.insert(peer, reach);
            proof {
                assert(s.peers@.take(i + 1) =~= s.peers@.take(i as int).push(peer));
                assert(self.sent@ =~= sent0.union_prefer_right(
                    Map::new(|p: NodeId| s.peers@.take(i + 1).contains(p), |p: NodeId| sent_upto(s, p)),
                ));
            }
            out.push((peer, req));
        }
        proof {
            assert(s.peers@.take(n as int) =~= s.peers@);
        }
        out
    }

    /// The heartbeat for one peer, following its next index.
    fn heartbeat_for_peer(&self, peer: NodeId) -> (r: AppendEntriesRequest)
        ensures
            r@ == heartbeat_for(self.st(), peer),
            r.prev_log_index + r.entries@.len() == sent_upto(self.st(), peer),
    {
        let next = match self.state.next_index.get(&peer) {
            Some(v) => *v,
            None => 1,
        };
        let prev = next.saturating_sub(1);
        let len = self.state.log.len();
        let prev_term = if prev > 0 && prev - 1 < len as Index {
            self.state.log[(prev - 1) as usize].0
        } else {
            0
        };
        let mut entries: Vec<(Term, LogEntry)> = Vec::new();
        if prev < len as Index {
            let start = prev as usize;
            let ghost tail = log_view(self.state.log@).skip(start as int);
            for k in start..len
                invariant
                    len == self.state.log@.len(),
                    start <= len,
                    tail == log_view(self.state.log@).skip(start as int),
                    log_view(entries@) == tail.take(k - start),
                    entries@.len() == k - start,
            {
                let t = self.state.log[k].0;
                let e = self.state.log[k].1.copy();
                let ghost before = entries@;
                let ghost ev = e@;
                entries.push((t, e));
                proof {
                    assert(tail.take(k + 1 - start) =~= tail.take(k - start).push(tail[k - start]));
                    assert(log_view(entries@) =~= log_view(before).push((t, ev)));
                }
            }
            proof {
                assert(tail.take(len - start) =~= tail);
            }
        } else {
            proof {
                assert(log_view(entries@) =~= Seq::<(Term, Seq<u8>)>::empty());
            }
        }
        AppendEntriesRequest {
            term: self.state.current_term,
            leader_id: self.state.node_id,
            prev_log_index: prev,
            prev_log_term: prev_term,
            entries,
            leader_commit: self.state.commit_index,
        }
    }

    /// What to do when the election timer of `timeout_ms` fires after
    /// `elapsed_nanos` without hearing from a leader: a follower or candidate
    /// that has waited longer than the timeout starts an election; a leader
    /// sends heartbeats.
    pub fn timeout_action(&self, elapsed_nanos: u128, timeout_ms: u64) -> (a: TimeoutAction)
        ensures
            self.st().state == NodeState::Leader ==> a == TimeoutAction::SendHeartbeat,
            self.st().state != NodeState::Leader ==> a == (if elapsed_nanos > timeout_ms * 1_000_000 {
                TimeoutAction::StartElection
            } else {
                TimeoutAction::Nothing
            }),
    {
        match self.state.state {
            NodeState::Follower | NodeState::Candidate => {
                if elapsed_nanos > (timeout_ms as u128) * 1_000_000u128 {
                    TimeoutAction::StartElection
                } else {
                    TimeoutAction::Nothing
                }
            },
            NodeState::Leader => TimeoutAction::SendHeartbeat,
        }
    }

    /// An election timeout drawn from `seed` into the range
    /// `ELECTION_TIMEOUT_MIN .. ELECTION_TIMEOUT_MAX` milliseconds.
    pub fn random_election_timeout(seed: u64) -> (t: u64)
        ensures
            t == seed % ((ELECTION_TIMEOUT_MAX - ELECTION_TIMEOUT_MIN) as u64) + ELECTION_TIMEOUT_MIN,
            ELECTION_TIMEOUT_MIN <= t < ELECTION_TIMEOUT_MAX,
    {
        (seed % (ELECTION_TIMEOUT_MAX - ELECTION_TIMEOUT_MIN)) + ELECTION_TIMEOUT_MIN
    }

    /// Appends a client's entry to a leader's log in the current term;
    /// returns its index and the batch to append to storage.
    pub fn propose(&mut self, entry: LogEntry) -> (r: Result<(Index, Vec<(Term, LogEntry)>), RaftError>)
        requires
            old(self).st().log@.len() < u64::MAX,
        ensures
            old(self).st().state != NodeState::Leader ==> (r matches Err(RaftError::NotLeader)
                && final(self).st() == old(self).st()),
            old(self).st().state == NodeState::Leader ==> (r matches Ok((index, batch))
                && index == old(self).st().log@.len() + 1
                && final(self).st() == (RaftState {
                    log: final(self).st().log,
                    ..old(self).st()
                })
                && final(self).st().log@ == old(self).st().log@.push((old(self).st().current_term, entry))
                && log_view(batch@) == seq![(old(self).st().current_term, entry@)]),
            final(self).votes() == old(self).votes(),
            final(self).sent() == old(self).sent(),
    {
        if self.state.state != NodeState::Leader {
            return Err(RaftError::NotLeader);
        }
        let term = self.state.current_term;
        let index = self.state.last_log_index() + 1;
        let copy = entry.copy();
        self.state.log.push((term, entry));
        let mut batch: Vec<(Term, LogEntry)> = Vec::new();
        batch.push((term, copy));
        proof {
            assert(log_view(batch@) =~= seq![(term, copy@)]);
        }
        Ok((index, batch))
    }
}

/// Whether `v` holds `x`.
fn vec_contains(v: &Vec<NodeId>, x: NodeId) -> (r: bool)
    ensures
        r == v@.contains(x),
{
    let n = v.len();
    for i in 0..n
        invariant
            n == v@.len(),
            forall|j: int| 0 <= j < i ==> v@[j] != x,
    {
        if v[i] == x {
            return true;
        }
    }
    false
}

/// A leader's commit target never lies below its commit index.
pub proof fn lemma_commit_target_at_least(s: RaftState, n: int)
    ensures
        commit_target(s, n) >= s.commit_index,
        commit_target(s, n) <= s.log@.len() || commit_target(s, n) == s.commit_index,
    decreases n,
{
    if n > s.commit_index && n <= s.log@.len() && n <= u64::MAX {
        lemma_commit_target_at_least(s, n - 1);
    }
}

} // verus!
