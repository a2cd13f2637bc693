use raft_task_queue::error::RaftError;
use raft_task_queue::raft_node::{AppendStart, HardState, RaftNode, TimeoutAction};
use raft_task_queue::raft_state::{NodeState, RaftState};
use raft_task_queue::types::{AppendEntriesRequest, AppendEntriesResponse, LogEntry, VoteRequest, VoteResponse};

fn entry(b: u8) -> LogEntry {
    LogEntry::new(vec![b])
}

fn log_of(terms: &[u64]) -> Vec<(u64, LogEntry)> {
    terms.iter().enumerate().map(|(i, t)| (*t, entry(i as u8))).collect()
}

fn terms(n: &RaftNode) -> Vec<u64> {
    n.state().log.iter().map(|p| p.0).collect()
}

fn contents(n: &RaftNode) -> Vec<u8> {
    n.state().log.iter().map(|p| p.1.data[0]).collect()
}

fn append(term: u64, prev: u64, prev_term: u64, entries: Vec<(u64, LogEntry)>, commit: u64) -> AppendEntriesRequest {
    AppendEntriesRequest { term, leader_id: 2, prev_log_index: prev, prev_log_term: prev_term, entries, leader_commit: commit }
}

fn leader_of(peers: Vec<u64>, term: u64, log: &[u64]) -> RaftNode {
    let mut st = RaftState::new(1, peers);
    st.current_term = term;
    st.log = log_of(log);
    st.become_leader();
    RaftNode::with_state(st)
}

#[test]
fn new_state_is_follower_with_peer_indices() {
    let s = RaftState::new(1, vec![2, 3]);
    assert_eq!(s.node_id, 1);
    assert_eq!(s.current_term, 0);
    assert_eq!(s.voted_for, None);
    assert!(s.log.is_empty());
    assert_eq!(s.state, NodeState::Follower);
    assert_eq!(s.next_index.get(&2), Some(&1));
    assert_eq!(s.next_index.get(&3), Some(&1));
    assert_eq!(s.match_index.get(&2), Some(&0));
    assert_eq!(s.last_log_index(), 0);
    assert_eq!(s.last_log_term(), 0);
}

#[test]
fn state_transitions() {
    let mut s = RaftState::new(4, vec![5]);
    assert_eq!(s.become_candidate(), 1);
    assert_eq!(s.state, NodeState::Candidate);
    assert_eq!(s.voted_for, Some(4));
    s.become_follower(7);
    assert_eq!(s.current_term, 7);
    assert_eq!(s.voted_for, None);
    assert_eq!(s.state, NodeState::Follower);
    s.log.push((7, entry(0)));
    s.log.push((7, entry(1)));
    s.become_leader();
    assert_eq!(s.state, NodeState::Leader);
    assert_eq!(s.next_index.get(&5), Some(&3));
    assert_eq!(s.match_index.get(&5), Some(&0));
    assert_eq!(s.last_log_index(), 2);
    assert_eq!(s.last_log_term(), 7);
}

#[test]
fn newer_term_makes_node_follower_and_clears_vote() {
    let mut n = RaftNode::new(1, vec![2]);
    n.begin_election();
    assert_eq!(n.state().state, NodeState::Candidate);
    assert_eq!(n.observe_term(5), Some(HardState { term: 5, voted_for: None }));
    assert_eq!(n.current_term(), 5);
    assert_eq!(n.state().state, NodeState::Follower);
    assert_eq!(n.state().voted_for, None);
    assert_eq!(n.observe_term(5), None);
    assert_eq!(n.observe_term(3), None);
    assert_eq!(n.current_term(), 5);
}

#[test]
fn vote_granted_once_per_term() {
    let mut n = RaftNode::new(1, vec![2, 3]);
    n.observe_term(2);
    let req = VoteRequest { term: 2, candidate_id: 2, last_log_index: 0, last_log_term: 0 };
    let d = n.decide_vote(2, &req);
    assert!(d.response.vote_granted);
    assert_eq!(d.response.term, 2);
    assert_eq!(d.persist, Some(HardState { term: 2, voted_for: Some(2) }));
    assert_eq!(n.state().voted_for, Some(2));
    assert!(n.decide_vote(2, &req).response.vote_granted);
    let other = VoteRequest { term: 2, candidate_id: 3, last_log_index: 0, last_log_term: 0 };
    let d3 = n.decide_vote(3, &other);
    assert!(!d3.response.vote_granted);
    assert_eq!(d3.persist, None);
    assert_eq!(n.state().voted_for, Some(2));
}

#[test]
fn vote_follows_up_to_date_rule() {
    let mut n = RaftNode::new(1, vec![2]);
    n.load_state(3, None, log_of(&[1, 1, 1]), 0);
    let stale = VoteRequest { term: 2, candidate_id: 2, last_log_index: 5, last_log_term: 3 };
    let r = n.decide_vote(2, &stale).response;
    assert!(!r.vote_granted);
    assert_eq!(r.term, 3);
    let short_same_term = VoteRequest { term: 3, candidate_id: 2, last_log_index: 2, last_log_term: 1 };
    assert!(!n.decide_vote(2, &short_same_term).response.vote_granted);
    let older_last_term = VoteRequest { term: 3, candidate_id: 2, last_log_index: 9, last_log_term: 0 };
    assert!(!n.decide_vote(2, &older_last_term).response.vote_granted);
    let newer_but_shorter = VoteRequest { term: 3, candidate_id: 2, last_log_index: 1, last_log_term: 2 };
    assert!(n.decide_vote(2, &newer_but_shorter).response.vote_granted);
    assert_eq!(n.state().voted_for, Some(2));
}

#[test]
fn vote_after_step_down_in_newer_term() {
    let mut n = RaftNode::new(1, vec![2]);
    n.load_state(2, None, log_of(&[1, 1, 1]), 0);
    let req = VoteRequest { term: 3, candidate_id: 2, last_log_index: 1, last_log_term: 2 };
    assert_eq!(n.observe_term(req.term), Some(HardState { term: 3, voted_for: None }));
    let d = n.decide_vote(2, &req);
    assert_eq!(d.response, VoteResponse { term: 3, vote_granted: true });
    assert_eq!(d.persist, Some(HardState { term: 3, voted_for: Some(2) }));
}

#[test]
fn stale_append_is_refused_in_own_term() {
    let mut n = RaftNode::new(1, vec![2]);
    n.observe_term(4);
    assert_eq!(
        n.begin_append(3),
        AppendStart::Stale { response: AppendEntriesResponse { term: 4, success: false, next_index: None } }
    );
    assert_eq!(n.current_term(), 4);
    assert_eq!(n.begin_append(4), AppendStart::Proceed { persist: None });
    assert_eq!(
        n.begin_append(6),
        AppendStart::Proceed { persist: Some(HardState { term: 6, voted_for: None }) }
    );
    assert_eq!(n.current_term(), 6);
}

#[test]
fn candidate_steps_down_on_same_term_append() {
    let mut n = RaftNode::new(1, vec![2, 3]);
    n.begin_election();
    assert_eq!(n.state().state, NodeState::Candidate);
    assert_eq!(n.begin_append(1), AppendStart::Proceed { persist: None });
    assert_eq!(n.state().state, NodeState::Follower);
    assert_eq!(n.current_term(), 1);
    assert_eq!(n.state().voted_for, Some(1));
}

#[test]
fn append_replaces_log_from_first_conflict() {
    let mut n = RaftNode::new(1, vec![2]);
    n.load_state(3, None, log_of(&[1, 1, 2]), 0);
    let out = n.accept_entries(append(3, 1, 1, vec![(1, entry(1)), (3, entry(9))], 0));
    assert!(out.success);
    assert_eq!(out.last_new_index, 3);
    assert_eq!(terms(&n), vec![1, 1, 3]);
    assert_eq!(contents(&n), vec![0, 1, 9]);
    let w = out.rewrite.unwrap();
    assert_eq!(w.keep, 2);
    assert_eq!(w.entries.len(), 1);
    assert_eq!(w.entries[0].0, 3);
    assert_eq!(w.entries[0].1.data, vec![9]);
    let resp = n.append_response(out.success);
    assert_eq!(resp, AppendEntriesResponse { term: 3, success: true, next_index: None });
}

#[test]
fn repeated_entries_keep_later_ones() {
    let mut n = RaftNode::new(1, vec![2]);
    n.load_state(1, None, log_of(&[1, 1, 1]), 0);
    let out = n.accept_entries(append(1, 1, 1, vec![(1, entry(1))], 0));
    assert!(out.success);
    assert_eq!(out.last_new_index, 2);
    assert!(out.rewrite.is_none());
    assert_eq!(terms(&n), vec![1, 1, 1]);
    assert_eq!(contents(&n), vec![0, 1, 2]);
}

#[test]
fn append_past_end_extends_log() {
    let mut n = RaftNode::new(1, vec![2]);
    n.load_state(2, None, log_of(&[1]), 0);
    let out = n.accept_entries(append(2, 1, 1, vec![(2, entry(7)), (2, entry(8))], 0));
    assert!(out.success);
    assert_eq!(terms(&n), vec![1, 2, 2]);
    let w = out.rewrite.unwrap();
    assert_eq!(w.keep, 1);
    assert_eq!(w.entries.len(), 2);
}

#[test]
fn append_rejected_when_previous_entry_differs() {
    let mut n = RaftNode::new(1, vec![2]);
    n.load_state(2, None, log_of(&[1, 1]), 0);
    let out = n.accept_entries(append(2, 2, 2, vec![(2, entry(9))], 0));
    assert!(!out.success);
    assert!(out.rewrite.is_none());
    assert_eq!(n.state().log.len(), 2);
    assert!(!n.accept_entries(append(2, 5, 1, vec![], 0)).success);
    let resp = n.append_response(false);
    assert_eq!(resp, AppendEntriesResponse { term: 2, success: false, next_index: None });
}

#[test]
fn commit_index_follows_leader_up_to_last_new_entry() {
    let mut n = RaftNode::new(1, vec![2]);
    n.load_state(2, None, log_of(&[1, 1, 1]), 0);
    let out = n.accept_entries(append(2, 2, 1, vec![], 3));
    assert!(out.success);
    assert_eq!(n.advance_commit(3, out.last_new_index), Some(2));
    assert_eq!(n.state().commit_index, 2);
    assert_eq!(n.advance_commit(10, 3), Some(3));
    assert_eq!(n.advance_commit(1, 3), None);
    assert_eq!(n.advance_commit(5, 1), None);
    assert_eq!(n.state().commit_index, 3);
}

#[test]
fn single_node_wins_its_election() {
    let mut n = RaftNode::new(1, vec![]);
    let (req, hard) = n.begin_election();
    assert_eq!(req, VoteRequest { term: 1, candidate_id: 1, last_log_index: 0, last_log_term: 0 });
    assert_eq!(hard, HardState { term: 1, voted_for: Some(1) });
    assert!(n.conclude_election());
    assert_eq!(n.state().state, NodeState::Leader);
}

#[test]
fn majority_of_votes_elects_leader() {
    let mut n = RaftNode::new(1, vec![2, 3, 4, 5]);
    n.state();
    let (req, _) = n.begin_election();
    assert!(!n.conclude_election());
    let granted = VoteResponse { term: req.term, vote_granted: true };
    let t = n.handle_vote_response(2, granted);
    assert!(!t.elected);
    assert_eq!(n.state().state, NodeState::Candidate);
    let again = n.handle_vote_response(2, granted);
    assert!(!again.elected);
    let refused = n.handle_vote_response(3, VoteResponse { term: req.term, vote_granted: false });
    assert!(!refused.elected);
    let stranger = n.handle_vote_response(9, granted);
    assert!(!stranger.elected);
    let t2 = n.handle_vote_response(4, granted);
    assert!(t2.elected);
    assert_eq!(t2.persist, None);
    assert_eq!(n.state().state, NodeState::Leader);
    assert_eq!(n.state().next_index.get(&5), Some(&1));
    assert_eq!(n.state().match_index.get(&5), Some(&0));
}

#[test]
fn newer_term_in_vote_response_ends_candidacy() {
    let mut n = RaftNode::new(1, vec![2, 3]);
    n.begin_election();
    let t = n.handle_vote_response(2, VoteResponse { term: 7, vote_granted: false });
    assert_eq!(t.persist, Some(HardState { term: 7, voted_for: None }));
    assert!(!t.elected);
    assert_eq!(n.state().state, NodeState::Follower);
    assert_eq!(n.current_term(), 7);
}

#[test]
fn leader_commits_entry_replicated_on_majority() {
    let ok = AppendEntriesResponse { term: 2, success: true, next_index: None };
    let mut n = leader_of(vec![2, 3, 4, 5], 2, &[1, 2, 2]);
    let p0 = n.handle_append_entries_response(2, ok);
    assert_eq!(p0.commit, None);
    assert_eq!(n.state().match_index.get(&2), Some(&0));
    let hb = n.heartbeat_requests();
    assert_eq!(hb.len(), 4);
    let p = n.handle_append_entries_response(2, ok);
    assert_eq!(p.commit, None);
    assert_eq!(n.state().match_index.get(&2), Some(&3));
    assert_eq!(n.state().next_index.get(&2), Some(&4));
    let p2 = n.handle_append_entries_response(3, ok);
    assert_eq!(p2.commit, Some(3));
    assert_eq!(n.state().commit_index, 3);
    let p3 = n.handle_append_entries_response(4, ok);
    assert_eq!(p3.commit, None);
    assert_eq!(n.state().commit_index, 3);
}

#[test]
fn leader_does_not_commit_entries_of_older_terms_alone() {
    let mut n = leader_of(vec![2, 3], 3, &[1, 2]);
    n.heartbeat_requests();
    let p = n.handle_append_entries_response(2, AppendEntriesResponse { term: 3, success: true, next_index: None });
    assert_eq!(p.commit, None);
    assert_eq!(n.state().match_index.get(&2), Some(&2));
    assert_eq!(n.state().commit_index, 0);
}

#[test]
fn refused_append_backs_next_index_off() {
    let mut n = leader_of(vec![2], 2, &[1, 1, 2]);
    assert_eq!(n.state().next_index.get(&2), Some(&4));
    let p = n.handle_append_entries_response(2, AppendEntriesResponse { term: 2, success: false, next_index: None });
    assert_eq!(p, raft_task_queue::raft_node::ReplicationProgress { persist: None, commit: None });
    assert_eq!(n.state().next_index.get(&2), Some(&3));
    let hb = n.heartbeat_requests();
    assert_eq!(hb[0].1.prev_log_index, 2);
    assert_eq!(hb[0].1.entries.len(), 1);
}

#[test]
fn newer_term_in_append_response_ends_leadership() {
    let mut n = leader_of(vec![2], 2, &[1]);
    let p = n.handle_append_entries_response(2, AppendEntriesResponse { term: 5, success: false, next_index: None });
    assert_eq!(p.persist, Some(HardState { term: 5, voted_for: None }));
    assert_eq!(n.state().state, NodeState::Follower);
}

#[test]
fn heartbeats_carry_log_after_next_index() {
    let mut st = RaftState::new(1, vec![2, 3, 4]);
    st.current_term = 4;
    st.log = log_of(&[1, 2, 4]);
    st.commit_index = 2;
    st.become_leader();
    st.next_index.insert(3, 2);
    st.next_index.insert(4, 0);
    let mut n = RaftNode::with_state(st);
    let hb = n.heartbeat_requests();
    assert_eq!(hb.len(), 3);
    assert_eq!(hb[0].0, 2);
    let r = &hb[0].1;
    assert_eq!(r.term, 4);
    assert_eq!(r.leader_id, 1);
    assert_eq!(r.prev_log_index, 3);
    assert_eq!(r.prev_log_term, 4);
    assert!(r.entries.is_empty());
    assert_eq!(r.leader_commit, 2);
    let r3 = &hb[1].1;
    assert_eq!(hb[1].0, 3);
    assert_eq!(r3.prev_log_index, 1);
    assert_eq!(r3.prev_log_term, 1);
    assert_eq!(r3.entries.len(), 2);
    assert_eq!(r3.entries[0].0, 2);
    assert_eq!(r3.entries[0].1.data, vec![1]);
    assert_eq!(r3.entries[1].0, 4);
    let r4 = &hb[2].1;
    assert_eq!(r4.prev_log_index, 0);
    assert_eq!(r4.prev_log_term, 0);
    assert_eq!(r4.entries.len(), 3);
}

#[test]
fn follower_copies_leader_log_from_heartbeat() {
    let mut leader = leader_of(vec![2], 3, &[1, 3, 3]);
    leader.handle_append_entries_response(2, AppendEntriesResponse { term: 3, success: false, next_index: None });
    leader.handle_append_entries_response(2, AppendEntriesResponse { term: 3, success: false, next_index: None });
    let hb = leader.heartbeat_requests();
    let req = hb[0].1.clone();
    assert_eq!(req.prev_log_index, 1);
    let mut f = RaftNode::new(2, vec![1]);
    f.load_state(2, None, vec![(1, entry(0)), (2, entry(7))], 0);
    let step = f.handle_append_entries(req);
    assert_eq!(step.response, AppendEntriesResponse { term: 3, success: true, next_index: None });
    assert_eq!(step.persist, Some(HardState { term: 3, voted_for: None }));
    assert!(step.reset_timer);
    assert_eq!(terms(&f), vec![1, 3, 3]);
    assert_eq!(contents(&f), vec![0, 1, 2]);
}

#[test]
fn newer_term_append_is_answered_without_next_index() {
    let mut f = RaftNode::new(1, vec![2]);
    f.load_state(1, None, vec![(1, entry(10)), (1, entry(11))], 0);
    let step = f.handle_append_entries(append(2, 1, 1, vec![(2, entry(12))], 5));
    assert_eq!(step.response, AppendEntriesResponse { term: 2, success: true, next_index: None });
    assert_eq!(step.persist, Some(HardState { term: 2, voted_for: None }));
    assert_eq!(step.commit, Some(2));
    assert!(step.reset_timer);
    let w = step.rewrite.unwrap();
    assert_eq!(w.keep, 1);
    assert_eq!(w.entries.len(), 1);
    assert_eq!(w.entries[0].0, 2);
    assert_eq!(w.entries[0].1.data, vec![12]);
    assert_eq!(terms(&f), vec![1, 2]);
    assert_eq!(f.state().log[1].1.data, vec![12]);
    assert_eq!(f.current_term(), 2);
    assert_eq!(f.state().state, NodeState::Follower);
    assert_eq!(f.state().voted_for, None);
    assert_eq!(f.state().commit_index, 2);
}

#[test]
fn refused_append_keeps_log_and_commit() {
    let mut f = RaftNode::new(1, vec![2]);
    f.load_state(2, None, log_of(&[1, 1]), 1);
    let step = f.handle_append_entries(append(2, 2, 2, vec![(2, entry(9))], 5));
    assert_eq!(step.response, AppendEntriesResponse { term: 2, success: false, next_index: None });
    assert_eq!(step.persist, None);
    assert!(step.rewrite.is_none());
    assert_eq!(step.commit, None);
    assert!(step.reset_timer);
    assert_eq!(terms(&f), vec![1, 1]);
    assert_eq!(f.state().commit_index, 1);
}

#[test]
fn stale_append_is_refused_without_timer_reset() {
    let mut f = RaftNode::new(1, vec![2]);
    f.load_state(4, None, log_of(&[1]), 0);
    let step = f.handle_append_entries(append(3, 0, 0, vec![(3, entry(1))], 1));
    assert_eq!(step.response, AppendEntriesResponse { term: 4, success: false, next_index: None });
    assert!(!step.reset_timer);
    assert!(step.rewrite.is_none());
    assert_eq!(f.state().log.len(), 1);
}

#[test]
fn leader_stays_leader_on_same_term_append() {
    let mut n = leader_of(vec![2], 2, &[1]);
    assert_eq!(n.begin_append(2), AppendStart::Proceed { persist: None });
    assert_eq!(n.state().state, NodeState::Leader);
}

#[test]
fn vote_request_handled_in_one_step() {
    let mut n = RaftNode::new(1, vec![2, 3]);
    let req = VoteRequest { term: 2, candidate_id: 2, last_log_index: 0, last_log_term: 0 };
    let step = n.handle_vote_request(2, &req);
    assert_eq!(step.response, VoteResponse { term: 2, vote_granted: true });
    assert_eq!(step.persist, Some(HardState { term: 2, voted_for: Some(2) }));
    assert!(step.reset_timer);
    let other = VoteRequest { term: 2, candidate_id: 3, last_log_index: 0, last_log_term: 0 };
    let step2 = n.handle_vote_request(3, &other);
    assert_eq!(step2.response, VoteResponse { term: 2, vote_granted: false });
    assert_eq!(step2.persist, None);
    assert!(!step2.reset_timer);
    n.load_state(2, Some(2), log_of(&[2]), 0);
    let newer_short = VoteRequest { term: 3, candidate_id: 3, last_log_index: 0, last_log_term: 0 };
    let step3 = n.handle_vote_request(3, &newer_short);
    assert_eq!(step3.response, VoteResponse { term: 3, vote_granted: false });
    assert_eq!(step3.persist, Some(HardState { term: 3, voted_for: None }));
    assert!(!step3.reset_timer);
}

#[test]
fn successive_proposals_get_distinct_indices() {
    let mut n = leader_of(vec![2], 4, &[1, 4]);
    let (i1, _) = n.propose(entry(21)).unwrap();
    let (i2, _) = n.propose(entry(22)).unwrap();
    assert_ne!(i1, i2);
    assert_eq!((i1, i2), (3, 4));
    assert_eq!(n.state().log[(i1 - 1) as usize].0, 4);
    assert_eq!(n.state().log[(i1 - 1) as usize].1.data, vec![21]);
    assert_eq!(n.state().log[(i2 - 1) as usize].0, 4);
    assert_eq!(n.state().log[(i2 - 1) as usize].1.data, vec![22]);
}

#[test]
fn follower_sends_no_heartbeats() {
    let mut n = RaftNode::new(1, vec![2, 3]);
    assert!(n.heartbeat_requests().is_empty());
}

#[test]
fn proposals_need_leadership() {
    let mut n = RaftNode::new(1, vec![2]);
    assert!(matches!(n.propose(entry(1)), Err(RaftError::NotLeader)));
    assert!(n.state().log.is_empty());
    let mut solo = RaftNode::new(1, vec![]);
    solo.begin_election();
    solo.conclude_election();
    let (idx, batch) = solo.propose(entry(5)).unwrap();
    assert_eq!(idx, 1);
    assert_eq!(batch.len(), 1);
    assert_eq!(batch[0].0, 1);
    assert_eq!(batch[0].1.data, vec![5]);
    let (idx2, _) = solo.propose(entry(6)).unwrap();
    assert_eq!(idx2, 2);
    assert_eq!(solo.state().log.len(), 2);
    assert_eq!(solo.state().log[1].1.data, vec![6]);
}

#[test]
fn timer_decisions() {
    let n = RaftNode::new(1, vec![2]);
    assert_eq!(n.timeout_action(200_000_001, 200), TimeoutAction::StartElection);
    assert_eq!(n.timeout_action(200_000_000, 200), TimeoutAction::Nothing);
    let mut solo = RaftNode::new(1, vec![]);
    solo.begin_election();
    solo.conclude_election();
    assert_eq!(solo.timeout_action(0, 200), TimeoutAction::SendHeartbeat);
}

#[test]
fn election_timeout_range() {
    assert_eq!(RaftNode::random_election_timeout(0), 150);
    assert_eq!(RaftNode::random_election_timeout(149), 299);
    assert_eq!(RaftNode::random_election_timeout(150), 150);
    assert_eq!(RaftNode::random_election_timeout(u64::MAX), u64::MAX % 150 + 150);
}
