use vstd::prelude::*;

verus! {

/// Identifier of a Raft node.
pub type NodeId = u64;

/// A Raft term.
pub type Term = u64;

/// A position in the replicated log (1-based; 0 means "before the log").
pub type Index = u64;

/// A command carried by the replicated log.
#[derive(Debug, Clone)]
pub struct LogEntry {
    pub data: Vec<u8>,
}

impl View for LogEntry {
    type V = Seq<u8>;

    open spec fn view(&self) -> Seq<u8> {
        self.data@
    }
}

impl LogEntry {
    pub fn new(data: Vec<u8>) -> (e: LogEntry)
        ensures
            e@ == data@,
    {
        LogEntry { data }
    }

    /// A copy with the same contents.
    pub fn copy(&self) -> (e: LogEntry)
        ensures
            e@ == self@,
    {
        let data = self.data.clone();
        proof {
            assert(data@ =~= self.data@);
        }
        LogEntry { data }
    }
}

/// The mathematical value of a log: each entry's term and contents.
pub open spec fn log_view(log: Seq<(Term, LogEntry)>) -> Seq<(Term, Seq<u8>)> {
    log.map_values(|p: (Term, LogEntry)| (p.0, p.1@))
}

/// A copy of a log with the same terms and contents.
pub fn copy_log(log: &Vec<(Term, LogEntry)>) -> (r: Vec<(Term, LogEntry)>)
    ensures
        log_view(r@) == log_view(log@),
{
    let mut out: Vec<(Term, LogEntry)> = Vec::new();
    let n = log.len();
    for i in 0..n
        invariant
            n == log@.len(),
            log_view(out@) == log_view(log@.take(i as int)),
    {
        let t = log[i].0;
        let e = log[i].1.copy();
        let ghost before = out@;
        let ghost ev = e@;
        out.push((t, e));
        proof {
            assert(log@.take(i + 1) =~= log@.take(i as int).push(log@[i as int]));
            assert(log_view(out@) =~= log_view(before).push((t, ev)));
            assert(log_view(log@.take(i + 1)) =~= log_view(log@.take(i as int)).push((t, ev)));
        }
    }
    proof {
        assert(log@.take(n as int) =~= log@);
    }
    out
}

/// A candidate's request for a vote.
#[derive(Debug, Clone, Copy, PartialEq, Eq, Structural)]
pub struct VoteRequest {
    pub term: Term,
    pub candidate_id: NodeId,
    pub last_log_index: Index,
    pub last_log_term: Term,
}

/// The answer to a vote request.
#[derive(Debug, Clone, Copy, PartialEq, Eq, Structural)]
pub struct VoteResponse {
    pub term: Term,
    pub vote_granted: bool,
}

/// A leader's request to append entries (empty for a heartbeat). Each entry
/// carries the term in which the leader holds it.
#[derive(Debug, Clone)]
pub struct AppendEntriesRequest {
    pub term: Term,
    pub leader_id: NodeId,
    pub prev_log_index: Index,
    pub prev_log_term: Term,
    pub entries: Vec<(Term, LogEntry)>,
    pub leader_commit: Index,
}

/// The mathematical value of an append request.
pub struct AppendEntriesView {
    pub term: Term,
    pub leader_id: NodeId,
    pub prev_log_index: Index,
    pub prev_log_term: Term,
    pub entries: Seq<(Term, Seq<u8>)>,
    pub leader_commit: Index,
}

impl View for AppendEntriesRequest {
    type V = AppendEntriesView;

    open spec fn view(&self) -> AppendEntriesView {
        AppendEntriesView {
            term: self.term,
            leader_id: self.leader_id,
            prev_log_index: self.prev_log_index,
            prev_log_term: self.prev_log_term,
            entries: log_view(self.entries@),
            leader_commit: self.leader_commit,
        }
    }
}

/// The answer to an append request; on success it names the index just past
/// the last entry the request established.
#[derive(Debug, Clone, Copy, PartialEq, Eq, Structural)]
pub struct AppendEntriesResponse {
    pub term: Term,
    pub success: bool,
    pub next_index: Option<Index>,
}

/// A message between Raft nodes.
#[derive(Debug, Clone)]
pub enum RaftMessage {
    VoteRequest(VoteRequest),
    VoteResponse(VoteResponse),
    AppendEntriesRequest(AppendEntriesRequest),
    AppendEntriesResponse(AppendEntriesResponse),
}

} // verus!
