use vstd::prelude::*;
use crate::raft_node::{
    HardState, conflict_at, counts_vote, grants_vote, heartbeat_for, log_consistent, log_up_to_date,
    merged_log, next_commit, wins,
};
use crate::raft_state::{NodeState, RaftState, last_term_of};
use crate::storage::StorageModel;
use crate::types::{Index, LogEntry, NodeId, Term, VoteRequest, VoteResponse, log_view};

verus! {

broadcast use vstd::seq_lib::group_seq_properties;

/// A node votes at most once per term: once it has voted for `x` in its
/// current term, it grants no vote to anyone else in that term.
pub proof fn lemma_one_vote_per_term(s: RaftState, x: NodeId, from: NodeId, req: VoteRequest)
    requires
        s.voted_for == Some(x),
        grants_vote(s, from, req),
    ensures
        from == x,
        req.term == s.current_term,
{
}

/// A vote goes only to a candidate in the voter's own term whose log is at
/// least as up to date; a newer last term is enough even with a shorter log.
pub proof fn lemma_vote_needs_up_to_date_log(s: RaftState, from: NodeId, req: VoteRequest)
    ensures
        grants_vote(s, from, req) ==> req.term == s.current_term && (req.last_log_term > last_term_of(s.log@)
            || (req.last_log_term == last_term_of(s.log@) && req.last_log_index >= s.log@.len())),
        req.term == s.current_term && s.voted_for is None && req.last_log_term > last_term_of(s.log@)
            ==> grants_vote(s, from, req),
{
}

/// What `conflict_at` finds lies between `i` and the number of entries, and
/// at it the entries run past the log or disagree with it in term.
pub proof fn lemma_conflict_at(log: Seq<(Term, Seq<u8>)>, prev: int, entries: Seq<(Term, Seq<u8>)>, i: int)
    requires
        0 <= i <= entries.len(),
    ensures
        i <= conflict_at(log, prev, entries, i) <= entries.len(),
        conflict_at(log, prev, entries, i) < entries.len() ==> (prev + conflict_at(log, prev, entries, i)
            >= log.len() || log[prev + conflict_at(log, prev, entries, i)].0 != entries[conflict_at(
            log,
            prev,
            entries,
            i,
        )].0),
    decreases entries.len() - i,
{
    if i < entries.len() && !(prev + i >= log.len() || log[prev + i].0 != entries[i].0) {
        lemma_conflict_at(log, prev, entries, i + 1);
    }
}

/// Every entry before the first conflict is already in the log, in the same term.
pub proof fn lemma_before_conflict(
    log: Seq<(Term, Seq<u8>)>,
    prev: int,
    entries: Seq<(Term, Seq<u8>)>,
    i: int,
    j: int,
)
    requires
        0 <= i <= j,
        j < conflict_at(log, prev, entries, i),
    ensures
        prev + j < log.len(),
        log[prev + j].0 == entries[j].0,
    decreases j - i,
{
    if j > i {
        if i < entries.len() && !(prev + i >= log.len() || log[prev + i].0 != entries[i].0) {
            lemma_before_conflict(log, prev, entries, i + 1, j);
        }
    }
}

/// The entries before the first conflict lie inside the log.
pub proof fn lemma_conflict_within_log(log: Seq<(Term, Seq<u8>)>, prev: int, entries: Seq<(Term, Seq<u8>)>)
    requires
        0 <= prev <= log.len(),
    ensures
        prev + conflict_at(log, prev, entries, 0) <= log.len(),
        conflict_at(log, prev, entries, 0) == entries.len() ==> prev + entries.len() <= log.len(),
{
    lemma_conflict_at(log, prev, entries, 0);
    let k = conflict_at(log, prev, entries, 0);
    if k > 0 {
        lemma_before_conflict(log, prev, entries, 0, k - 1);
    }
}

/// An accepted append keeps the log up to the first conflict, leaves every
/// position the request covers holding the request's term, and changes
/// nothing when all its entries are already there.
pub proof fn lemma_merge_keeps_agreeing_prefix(
    log: Seq<(Term, Seq<u8>)>,
    prev: int,
    entries: Seq<(Term, Seq<u8>)>,
)
    requires
        0 <= prev <= log.len(),
    ensures
        merged_log(log, prev, entries).len() >= prev + entries.len(),
        merged_log(log, prev, entries).take(prev + conflict_at(log, prev, entries, 0)) == log.take(
            prev + conflict_at(log, prev, entries, 0),
        ),
        forall|i: int| 0 <= i < entries.len() ==> #[trigger] merged_log(log, prev, entries)[prev + i].0 == entries[i].0,
        conflict_at(log, prev, entries, 0) == entries.len() ==> merged_log(log, prev, entries) == log,
{
    lemma_conflict_at(log, prev, entries, 0);
    lemma_conflict_within_log(log, prev, entries);
    let k = conflict_at(log, prev, entries, 0);
    let m = merged_log(log, prev, entries);
    if k < entries.len() {
        assert(m.take(prev + k) =~= log.take(prev + k));
        assert forall|i: int| 0 <= i < entries.len() implies #[trigger] m[prev + i].0 == entries[i].0 by {
            if i < k {
                lemma_before_conflict(log, prev, entries, 0, i);
                assert(m[prev + i] == log[prev + i]);
            } else {
                assert(m[prev + i] == entries.skip(k)[i - k]);
            }
        }
    } else {
        assert(m.take(prev + k) =~= log.take(prev + k));
        assert forall|i: int| 0 <= i < entries.len() implies #[trigger] m[prev + i].0 == entries[i].0 by {
            lemma_before_conflict(log, prev, entries, 0, i);
        }
    }
}

/// A follower's commit index follows the leader only up to the last entry
/// the request established, and never moves back.
pub proof fn lemma_commit_bounded_by_new_entries(commit: Index, leader_commit: Index, last_new: Index)
    ensures
        next_commit(commit, leader_commit, last_new) >= commit,
        next_commit(commit, leader_commit, last_new) > commit ==> next_commit(commit, leader_commit, last_new)
            <= last_new && next_commit(commit, leader_commit, last_new) <= leader_commit,
{
}

/// A heartbeat agrees with the leader's log: its previous term is the term
/// the leader holds there, and its entries are the leader's entries after
/// it, terms included.
pub proof fn lemma_heartbeat_matches_leader_log(s: RaftState, peer: NodeId)
    requires
        heartbeat_for(s, peer).prev_log_index <= s.log@.len(),
    ensures
        log_consistent(s.log@, heartbeat_for(s, peer).prev_log_index, heartbeat_for(s, peer).prev_log_term),
        heartbeat_for(s, peer).prev_log_index + heartbeat_for(s, peer).entries.len() == s.log@.len(),
        forall|i: int|
            0 <= i < heartbeat_for(s, peer).entries.len() ==> #[trigger] heartbeat_for(s, peer).entries[i]
                == log_view(s.log@)[heartbeat_for(s, peer).prev_log_index + i],
{
    let h = heartbeat_for(s, peer);
    if h.prev_log_index < s.log@.len() {
        assert(h.entries.len() == s.log@.len() - h.prev_log_index);
    } else {
        assert(h.entries.len() == 0);
    }
}

/// Replication: a follower whose log agrees with the leader's up to a
/// heartbeat's previous entry, once it accepts the heartbeat, holds every
/// entry of the leader's log in the leader's term; where its log disagreed
/// in term, it now ends exactly as the leader's log does, from the first
/// disagreement on.
pub proof fn lemma_replication_matches_leader_terms(
    leader: RaftState,
    peer: NodeId,
    follower_log: Seq<(Term, LogEntry)>,
)
    requires
        heartbeat_for(leader, peer).prev_log_index <= leader.log@.len(),
        follower_log.len() >= heartbeat_for(leader, peer).prev_log_index,
        log_view(follower_log).take(heartbeat_for(leader, peer).prev_log_index as int) == log_view(
            leader.log@,
        ).take(heartbeat_for(leader, peer).prev_log_index as int),
    ensures
        ({
            let h = heartbeat_for(leader, peer);
            let after = merged_log(log_view(follower_log), h.prev_log_index as int, h.entries);
            &&& after.len() >= leader.log@.len()
            &&& forall|i: int| 0 <= i < leader.log@.len() ==> (#[trigger] after[i]).0 == leader.log@[i].0
            &&& conflict_at(log_view(follower_log), h.prev_log_index as int, h.entries, 0) < h.entries.len()
                ==> after.len() == leader.log@.len() && forall|i: int|
                h.prev_log_index + conflict_at(log_view(follower_log), h.prev_log_index as int, h.entries, 0)
                    <= i < leader.log@.len() ==> #[trigger] after[i] == log_view(leader.log@)[i]
        }),
{
    let h = heartbeat_for(leader, peer);
    let fl = log_view(follower_log);
    let ll = log_view(leader.log@);
    let p = h.prev_log_index as int;
    lemma_heartbeat_matches_leader_log(leader, peer);
    lemma_merge_keeps_agreeing_prefix(fl, p, h.entries);
    lemma_conflict_at(fl, p, h.entries, 0);
    lemma_conflict_within_log(fl, p, h.entries);
    let after = merged_log(fl, p, h.entries);
    let k = conflict_at(fl, p, h.entries, 0);
    assert forall|i: int| 0 <= i < leader.log@.len() implies (#[trigger] after[i]).0 == leader.log@[i].0 by {
        if i < p {
            assert(fl.take(p)[i] == ll.take(p)[i]);
            if k < h.entries.len() {
                assert(after[i] == fl.take(p + k)[i]);
            }
            assert(after[i] == fl[i]);
        } else {
            let j = i - p;
            if j < k {
                lemma_before_conflict(fl, p, h.entries, 0, j);
            }
            assert(after[p + j].0 == h.entries[j].0);
            assert(h.entries[j] == ll[p + j]);
        }
    }
    if k < h.entries.len() {
        assert(after.len() == ll.len());
        assert forall|i: int| p + k <= i < leader.log@.len() implies #[trigger] after[i] == ll[i] by {
            assert(after[i] == h.entries.skip(k)[i - p - k]);
            assert(h.entries[i - p] == ll[p + (i - p)]);
        }
    }
}

/// Storage stays in step with the log: applying the rewrite an accepted
/// append reports to storage that held the old log leaves storage holding
/// the new log.
pub proof fn lemma_rewrite_keeps_storage_in_step(
    m: StorageModel,
    log: Seq<(Term, Seq<u8>)>,
    prev: int,
    entries: Seq<(Term, Seq<u8>)>,
)
    requires
        m.log == log,
        0 <= prev <= log.len(),
        log.len() <= u64::MAX,
        conflict_at(log, prev, entries, 0) < entries.len(),
    ensures
        m.truncate_log((prev + conflict_at(log, prev, entries, 0)) as Index).append_log(
            entries.skip(conflict_at(log, prev, entries, 0)),
        ).log == merged_log(log, prev, entries),
        m.append_log(Seq::empty()).log == log,
{
    lemma_conflict_within_log(log, prev, entries);
    lemma_conflict_at(log, prev, entries, 0);
    let k = conflict_at(log, prev, entries, 0);
    let keep = (prev + k) as Index;
    assert(keep as int == prev + k);
    assert(keep <= m.log.len());
    assert(m.truncate_log(keep).log == log.take(prev + k));
    assert(m.truncate_log(keep).append_log(entries.skip(k)).log == log.take(prev + k) + entries.skip(k));
    assert(m.append_log(Seq::empty()).log =~= log);
}

/// Storing a node's hard state makes storage hold the node's term and vote.
pub proof fn lemma_hard_state_keeps_storage_in_step(m: StorageModel, s: RaftState, h: HardState)
    requires
        h == (HardState { term: s.current_term, voted_for: s.voted_for }),
    ensures
        m.set_term(h.term).set_voted_for(h.voted_for).term == s.current_term,
        m.set_term(h.term).set_voted_for(h.voted_for).voted_for == s.voted_for,
        m.set_term(h.term).set_voted_for(h.voted_for).log == m.log,
{
}

/// Election safety: in a cluster, two majorities share a member, so two
/// candidates elected by majorities in the same term received a vote from
/// the same node; since a node votes once per term, they are the same
/// candidate.
pub proof fn lemma_majorities_intersect(cluster: Set<NodeId>, a: Set<NodeId>, b: Set<NodeId>)
    requires
        cluster.finite(),
        a.subset_of(cluster),
        b.subset_of(cluster),
        a.len() * 2 > cluster.len(),
        b.len() * 2 > cluster.len(),
    ensures
        exists|x: NodeId| a.contains(x) && b.contains(x),
{
    vstd::set_lib::lemma_len_subset(a, cluster);
    vstd::set_lib::lemma_len_subset(b, cluster);
    vstd::set_lib::lemma_len_subset(a.union(b), cluster);
    vstd::set_lib::lemma_set_intersect_union_lens(a, b);
    assert(a.intersect(b).len() > 0);
    vstd::set_lib::lemma_set_empty_equivalency_len(a.intersect(b));
    assert(a.intersect(b) != Set::<NodeId>::empty());
    let x = a.intersect(b).choose();
    assert(a.intersect(b).contains(x));
}

/// Two entries a leader accepts one after the other get distinct indices,
/// and afterwards each index holds its own entry, in the leader's term.
pub proof fn lemma_successive_proposals(
    s0: RaftState,
    s1: RaftState,
    s2: RaftState,
    e1: LogEntry,
    e2: LogEntry,
    i1: Index,
    i2: Index,
)
    requires
        s0.state == NodeState::Leader,
        i1 == s0.log@.len() + 1,
        s1 == (RaftState { log: s1.log, ..s0 }),
        s1.log@ == s0.log@.push((s0.current_term, e1)),
        i2 == s1.log@.len() + 1,
        s2 == (RaftState { log: s2.log, ..s1 }),
        s2.log@ == s1.log@.push((s1.current_term, e2)),
    ensures
        i1 != i2,
        s2.state == NodeState::Leader,
        s2.current_term == s0.current_term,
        s2.log@[i1 - 1] == (s0.current_term, e1),
        s2.log@[i2 - 1] == (s0.current_term, e2),
{
}

/// Counting a vote keeps a candidate's vote record a list of distinct peers.
pub proof fn lemma_vote_record_stays_distinct(
    s: RaftState,
    votes: Seq<NodeId>,
    from: NodeId,
    resp: VoteResponse,
)
    requires
        votes.no_duplicates(),
        forall|i: int| 0 <= i < votes.len() ==> s.peers@.contains(#[trigger] votes[i]),
        counts_vote(s, votes, from, resp),
    ensures
        votes.push(from).no_duplicates(),
        forall|i: int| 0 <= i < votes.len() + 1 ==> s.peers@.contains(#[trigger] votes.push(from)[i]),
{
    assert forall|i: int, j: int| 0 <= i < j < votes.len() + 1 implies votes.push(from)[i] != votes.push(
        from,
    )[j] by {
        if j == votes.len() {
            assert(votes.contains(votes[i]));
        }
    }
}

/// A candidate that wins with a record of distinct peers holds, with its own
/// vote, a strict majority of the cluster (its peers and itself).
pub proof fn lemma_win_is_majority(s: RaftState, votes: Seq<NodeId>)
    requires
        votes.no_duplicates(),
        forall|i: int| 0 <= i < votes.len() ==> s.peers@.contains(#[trigger] votes[i]),
        !s.peers@.contains(s.node_id),
        wins(votes.len(), s.peers@.len()),
    ensures
        votes.to_set().insert(s.node_id).len() * 2 > s.peers@.len() + 1,
{
    votes.unique_seq_to_set();
    assert(!votes.to_set().contains(s.node_id)) by {
        if votes.to_set().contains(s.node_id) {
            let i = votes.index_of(s.node_id);
            assert(s.peers@.contains(votes[i]));
        }
    }
    vstd::seq_lib::seq_to_set_is_finite(votes);
}

/// Which candidates a node votes for in its current term, when it has not
/// voted for anyone else: one whose last entry has a newer term, or the same
/// term and an index at least as high as the node's log length, gets the
/// vote; one whose last entry has an older term, or the same term and a
/// lower index, does not.
pub proof fn lemma_vote_follows_log_comparison(s: RaftState, from: NodeId, req: VoteRequest)
    requires
        req.term == s.current_term,
        s.voted_for is None || s.voted_for == Some(from),
        s.log@.len() > 0,
    ensures
        req.last_log_term > s.log@.last().0 ==> grants_vote(s, from, req),
        req.last_log_term == s.log@.last().0 && req.last_log_index >= s.log@.len() ==> grants_vote(s, from, req),
        req.last_log_term < s.log@.last().0 ==> !grants_vote(s, from, req),
        req.last_log_term == s.log@.last().0 && req.last_log_index < s.log@.len() ==> !grants_vote(s, from, req),
{
}

/// A node with an empty log votes, in its current term and when it has not
/// voted for anyone else, for every candidate.
pub proof fn lemma_empty_log_votes_for_anyone(s: RaftState, from: NodeId, req: VoteRequest)
    requires
        req.term == s.current_term,
        s.voted_for is None || s.voted_for == Some(from),
        s.log@.len() == 0,
    ensures
        grants_vote(s, from, req),
{
}

/// A node refuses every vote request of another term than its own, and every
/// request from a candidate other than the one it voted for.
pub proof fn lemma_vote_needs_term_and_free_vote(s: RaftState, from: NodeId, req: VoteRequest)
    ensures
        req.term != s.current_term ==> !grants_vote(s, from, req),
        s.voted_for matches Some(x) && x != from ==> !grants_vote(s, from, req),
{
}

/// After an accepted append, a follower's commit index never moves back,
/// never passes the leader's commit index or the request's last entry when it
/// moves, and reaches the smaller of those two whenever the leader's commit
/// index is ahead of its own.
pub proof fn lemma_commit_follows_leader(commit: Index, leader_commit: Index, last_new: Index)
    ensures
        next_commit(commit, leader_commit, last_new) >= commit,
        next_commit(commit, leader_commit, last_new) > commit ==> next_commit(commit, leader_commit, last_new)
            <= leader_commit && next_commit(commit, leader_commit, last_new) <= last_new,
        leader_commit > commit && leader_commit <= last_new ==> next_commit(commit, leader_commit, last_new)
            == leader_commit,
        leader_commit > commit && last_new < leader_commit ==> next_commit(commit, leader_commit, last_new)
            >= last_new,
        leader_commit <= commit ==> next_commit(commit, leader_commit, last_new) == commit,
{
}

} // verus!
