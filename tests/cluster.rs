use raft::log::{Entry, MemoryLog};
use raft::peer::{append_entries_reply_for, request_vote_reply_for, PeerHandle};
use raft::server::{quorum_index, ElectionOutcome, Server};
use raft::state::{ServerState, State, ELECTION_TIMEOUT_MAX, ELECTION_TIMEOUT_MIN};

struct Node {
    id: u64,
    state: ServerState,
    log: MemoryLog,
    server: Server,
}

fn cluster(ids: &[u64]) -> Vec<Node> {
    ids.iter()
        .map(|&id| {
            let peers = ids
                .iter()
                .filter(|&&p| p != id)
                .map(|&p| PeerHandle::new(p, false, 0))
                .collect();
            Node { id, state: ServerState::new(0), log: MemoryLog::new(), server: Server::new(peers, id, 0) }
        })
        .collect()
}

fn vote(n: &mut Node, term: u64, candidate: u64, lli: usize, llt: u64, now: u64) -> (u64, bool) {
    n.state.handle_request_vote(&n.log, term, candidate, lli, llt, now)
}

/// Runs an election of `nodes[c]` at time `now` in which exactly the nodes of
/// `voters` are asked; returns the outcome after the last reply.
fn elect(nodes: &mut Vec<Node>, c: usize, voters: &[usize], now: u64) -> ElectionOutcome {
    let (mut election, msg) = {
        let n = &mut nodes[c];
        n.server.start_election(&mut n.state, &n.log, now).expect("election starts")
    };
    let mut outcome = ElectionOutcome::Pending;
    for &v in voters {
        let answer = {
            let voter = &mut nodes[v];
            voter.state.handle_request_vote(
                &voter.log,
                msg.term,
                msg.candidate_id,
                msg.last_log_index,
                msg.last_log_term,
                now,
            )
        };
        let reply = request_vote_reply_for(nodes[v].id, &msg, Some(answer));
        let n = &mut nodes[c];
        outcome = election.record_vote(&mut n.server, &mut n.state, &n.log, &reply);
        if outcome != ElectionOutcome::Pending {
            break;
        }
    }
    outcome
}

/// Broadcasts AppendEntries from `nodes[l]` to the nodes of `to` and feeds
/// each reply back to the leader.
fn replicate(nodes: &mut Vec<Node>, l: usize, to: &[usize], now: u64) -> Vec<(u64, bool)> {
    let messages = {
        let n = &mut nodes[l];
        n.server.send_append_entries(&n.state, &n.log, now)
    };
    let mut answers = Vec::new();
    for &t in to {
        let target = nodes[t].id;
        let pos = nodes[l].server.peers.iter().position(|p| p.id == target).unwrap();
        let m = &messages[pos];
        let answer = {
            let f = &mut nodes[t];
            f.state.handle_append_entries(&mut f.log, m, now)
        };
        answers.push(answer);
        let reply = append_entries_reply_for(target, m, Some(answer));
        let n = &mut nodes[l];
        n.server.handle_append_entries_reply(&mut n.state, &n.log, &reply, now);
    }
    answers
}

#[test]
fn happy_path_election_three_nodes() {
    let mut nodes = cluster(&[1, 2, 3]);
    let outcome = elect(&mut nodes, 0, &[1, 2], 1000);
    assert_eq!(outcome, ElectionOutcome::Won);
    assert_eq!(nodes[0].state.current_state, State::LEADER);
    assert_eq!(nodes[0].state.current_term, 1);
    assert_eq!(nodes[0].state.voted_for, Some(1));
    assert_eq!(nodes[1].state.voted_for, Some(1));
    assert_eq!(nodes[1].state.current_term, 1);
    for p in &nodes[0].server.peers {
        assert_eq!(p.next_index, 1);
        assert_eq!(p.match_index, 0);
    }
    let answers = replicate(&mut nodes, 0, &[1, 2], 1010);
    assert_eq!(answers, vec![(1, true), (1, true)]);
}

#[test]
fn election_message_carries_last_log_position() {
    let mut nodes = cluster(&[1, 2, 3]);
    let n = &mut nodes[0];
    let (e, msg) = n.server.start_election(&mut n.state, &n.log, 1000).unwrap();
    assert_eq!((msg.term, msg.candidate_id, msg.last_log_index, msg.last_log_term), (1, 1, 0, 0));
    assert_eq!(e.term, 1);
    assert!(e.deadline >= 1000 + ELECTION_TIMEOUT_MIN && e.deadline < 1000 + ELECTION_TIMEOUT_MAX);
    assert!(e.votes.is_empty());
}

#[test]
fn follower_with_recent_leader_contact_does_not_stand() {
    let mut nodes = cluster(&[1, 2, 3]);
    let n = &mut nodes[0];
    n.state.last_leader_contact = 900;
    assert!(!n.state.has_election_timeout_occured(1000));
    assert!(n.server.start_election(&mut n.state, &n.log, 1000).is_none());
    assert_eq!(n.state.current_term, 0);
    assert_eq!(n.state.current_state, State::FOLLOWER);
    assert!(n.state.has_election_timeout_occured(900 + n.state.election_timeout));
}

#[test]
fn client_append_replicated_and_committed() {
    let mut nodes = cluster(&[1, 2, 3]);
    assert_eq!(elect(&mut nodes, 0, &[1, 2], 1000), ElectionOutcome::Won);
    nodes[0].log.append_entries(&vec![Entry { index: 1, term: 1, data: vec![0xAB] }]);
    let messages = {
        let n = &mut nodes[0];
        n.server.send_append_entries(&n.state, &n.log, 1001)
    };
    assert_eq!(messages[0].prev_log_index, 0);
    assert_eq!(messages[0].prev_log_term, 0);
    assert_eq!(messages[0].entries.len(), 1);
    assert_eq!(messages[0].entries[0].data, vec![0xAB]);
    assert_eq!(messages[0].leader_commit, 0);
    let answers = replicate(&mut nodes, 0, &[1, 2], 1002);
    assert_eq!(answers, vec![(1, true), (1, true)]);
    assert_eq!(nodes[0].state.commit_index, 1);
    for p in &nodes[0].server.peers {
        assert_eq!(p.match_index, 1);
        assert_eq!(p.next_index, 2);
    }
    assert_eq!(nodes[1].state.commit_index, 0);
    replicate(&mut nodes, 0, &[1, 2], 1003);
    assert_eq!(nodes[1].state.commit_index, 1);
    assert_eq!(nodes[2].state.commit_index, 1);
    assert_eq!(nodes[1].log.get_entry(1).unwrap().data, vec![0xAB]);
}

#[test]
fn follower_log_mismatch_backs_off_then_streams() {
    let mut nodes = cluster(&[1, 2, 3]);
    assert_eq!(elect(&mut nodes, 0, &[1, 2], 1000), ElectionOutcome::Won);
    let five: Vec<Entry> = (1..=5).map(|i| Entry { index: i, term: 1, data: vec![i as u8] }).collect();
    nodes[0].log.append_entries(&five);
    nodes[1].log.append_entries(&five[..3].to_vec());
    nodes[0].server.peers[0].next_index = 6;
    let a = replicate(&mut nodes, 0, &[1], 1001);
    assert_eq!(a, vec![(1, false)]);
    assert_eq!(nodes[0].server.peers[0].next_index, 5);
    let a = replicate(&mut nodes, 0, &[1], 1002);
    assert_eq!(a, vec![(1, false)]);
    assert_eq!(nodes[0].server.peers[0].next_index, 4);
    let a = replicate(&mut nodes, 0, &[1], 1003);
    assert_eq!(a, vec![(1, true)]);
    assert_eq!(nodes[1].log.get_last_entry_index(), 5);
    assert_eq!(nodes[0].server.peers[0].match_index, 5);
    assert_eq!(nodes[0].server.peers[0].next_index, 6);
}

#[test]
fn split_vote_four_nodes() {
    let mut nodes = cluster(&[1, 2, 3, 4]);
    let (mut ea, ma) = {
        let n = &mut nodes[0];
        n.server.start_election(&mut n.state, &n.log, 1000).unwrap()
    };
    let (mut eb, mb) = {
        let n = &mut nodes[1];
        n.server.start_election(&mut n.state, &n.log, 1000).unwrap()
    };
    let c = vote(&mut nodes[2], ma.term, ma.candidate_id, 0, 0, 1000);
    let d = vote(&mut nodes[3], mb.term, mb.candidate_id, 0, 0, 1000);
    assert_eq!(c, (1, true));
    assert_eq!(d, (1, true));
    let b_for_a = vote(&mut nodes[1], 1, 1, 0, 0, 1000);
    let a_for_b = vote(&mut nodes[0], 1, 2, 0, 0, 1000);
    assert_eq!(b_for_a, (1, false));
    assert_eq!(a_for_b, (1, false));
    let d_for_a = vote(&mut nodes[3], 1, 1, 0, 0, 1000);
    assert_eq!(d_for_a, (1, false));
    {
        let n = &mut nodes[0];
        for (peer, ans) in [(3u64, c), (2u64, b_for_a), (4u64, d_for_a)] {
            let r = request_vote_reply_for(peer, &ma, Some(ans));
            assert_eq!(ea.record_vote(&mut n.server, &mut n.state, &n.log, &r), ElectionOutcome::Pending);
        }
    }
    {
        let n = &mut nodes[1];
        let r = request_vote_reply_for(4, &mb, Some(d));
        assert_eq!(eb.record_vote(&mut n.server, &mut n.state, &n.log, &r), ElectionOutcome::Pending);
    }
    assert!(ea.has_expired(ea.deadline));
    assert!(!ea.has_expired(ea.deadline - 1));
    assert_eq!(nodes[0].state.current_state, State::CANDIDATE);
    let n = &mut nodes[0];
    let (e2, m2) = n.server.start_election(&mut n.state, &n.log, ea.deadline).unwrap();
    assert_eq!(m2.term, 2);
    assert_eq!(e2.term, 2);
}

#[test]
fn duplicate_vote_counts_once() {
    let mut nodes = cluster(&[1, 2, 3, 4, 5]);
    let n = &mut nodes[0];
    let (mut e, m) = n.server.start_election(&mut n.state, &n.log, 1000).unwrap();
    let r = request_vote_reply_for(2, &m, Some((1, true)));
    assert_eq!(e.record_vote(&mut n.server, &mut n.state, &n.log, &r), ElectionOutcome::Pending);
    assert_eq!(e.record_vote(&mut n.server, &mut n.state, &n.log, &r), ElectionOutcome::Pending);
    assert_eq!(e.votes, vec![2]);
    let stranger = request_vote_reply_for(9, &m, Some((1, true)));
    assert_eq!(e.record_vote(&mut n.server, &mut n.state, &n.log, &stranger), ElectionOutcome::Pending);
    let r3 = request_vote_reply_for(3, &m, Some((1, true)));
    assert_eq!(e.record_vote(&mut n.server, &mut n.state, &n.log, &r3), ElectionOutcome::Won);
    assert_eq!(n.state.current_state, State::LEADER);
}

#[test]
fn leader_steps_down_on_higher_term() {
    let mut nodes = cluster(&[1, 2, 3]);
    assert_eq!(elect(&mut nodes, 0, &[1, 2], 1000), ElectionOutcome::Won);
    nodes[0].state.current_term = 2;
    nodes[2].state.current_term = 5;
    let a = replicate(&mut nodes, 0, &[2], 1001);
    assert_eq!(a, vec![(5, false)]);
    assert_eq!(nodes[0].state.current_state, State::FOLLOWER);
    assert_eq!(nodes[0].state.current_term, 5);
    assert_eq!(nodes[0].state.voted_for, None);
}

#[test]
fn candidate_loses_on_higher_term_reply() {
    let mut nodes = cluster(&[1, 2, 3]);
    let n = &mut nodes[0];
    let (mut e, m) = n.server.start_election(&mut n.state, &n.log, 1000).unwrap();
    let r = request_vote_reply_for(2, &m, Some((7, false)));
    assert_eq!(e.record_vote(&mut n.server, &mut n.state, &n.log, &r), ElectionOutcome::Lost);
    assert_eq!(n.state.current_state, State::FOLLOWER);
    assert_eq!(n.state.current_term, 7);
}

#[test]
fn safety_under_leader_change() {
    let mut nodes = cluster(&[1, 2, 3]);
    nodes[0].state.current_term = 1;
    assert_eq!(elect(&mut nodes, 0, &[1, 2], 1000), ElectionOutcome::Won);
    assert_eq!(nodes[0].state.current_term, 2);
    nodes[0].log.append_entries(&vec![Entry { index: 1, term: 2, data: vec![1] }]);
    replicate(&mut nodes, 0, &[1], 1001);
    assert_eq!(nodes[0].state.commit_index, 1);
    // the leader fails; node 3 never got the entry and cannot win term 3
    let refused = {
        let v = &mut nodes[1];
        v.state.handle_request_vote(&v.log, 3, 3, 0, 0, 1100)
    };
    assert_eq!(refused, (3, false));
    // node 2 holds index 1 and wins term 3 with node 3's vote
    nodes[1].state.current_term = 2;
    nodes[1].state.current_state = State::FOLLOWER;
    nodes[1].state.voted_for = None;
    nodes[2].state.current_term = 2;
    assert_eq!(elect(&mut nodes, 1, &[2], 2000), ElectionOutcome::Won);
    assert_eq!(nodes[1].state.current_term, 3);
    assert_eq!(nodes[1].log.get_entry(1).unwrap().term, 2);
    nodes[1].log.append_entries(&vec![Entry { index: 2, term: 3, data: vec![2] }]);
    for _ in 0..3 {
        replicate(&mut nodes, 1, &[2], 2001);
    }
    assert_eq!(nodes[1].state.commit_index, 2);
    assert_eq!(nodes[2].state.commit_index, 2);
    assert_eq!(nodes[2].log.get_entry(1).unwrap().term, 2);
}

#[test]
fn leader_commits_only_entries_of_its_term() {
    let mut nodes = cluster(&[1, 2, 3]);
    nodes[0].log.append_entries(&vec![Entry { index: 1, term: 0, data: vec![] }]);
    nodes[1].log.append_entries(&vec![Entry { index: 1, term: 0, data: vec![] }]);
    assert_eq!(elect(&mut nodes, 0, &[1, 2], 1000), ElectionOutcome::Won);
    nodes[0].server.peers[0].match_index = 1;
    nodes[0].server.peers[1].match_index = 1;
    let n = &mut nodes[0];
    n.server.update_commit_index(&mut n.state, &n.log);
    assert_eq!(n.state.commit_index, 0);
}

#[test]
fn quorum_index_examples() {
    assert_eq!(quorum_index(&vec![5, 3, 1]), 3);
    assert_eq!(quorum_index(&vec![4, 4, 1, 1]), 1);
    assert_eq!(quorum_index(&vec![4, 4, 4, 1]), 4);
    assert_eq!(quorum_index(&vec![7]), 7);
    assert_eq!(quorum_index(&vec![0, 9, 9]), 9);
}

#[test]
fn vote_once_per_term() {
    let log = MemoryLog::new();
    let mut s = ServerState::new(0);
    assert_eq!(s.handle_request_vote(&log, 4, 7, 0, 0, 10), (4, true));
    assert_eq!(s.last_leader_contact, 10);
    assert_eq!(s.handle_request_vote(&log, 4, 8, 0, 0, 11), (4, false));
    assert_eq!(s.handle_request_vote(&log, 4, 7, 0, 0, 12), (4, true));
    assert_eq!(s.voted_for, Some(7));
    assert_eq!(s.handle_request_vote(&log, 3, 8, 0, 0, 13), (4, false));
    assert_eq!(s.handle_request_vote(&log, 5, 8, 0, 0, 14), (5, true));
    assert_eq!(s.voted_for, Some(8));
}

#[test]
fn term_and_commit_never_decrease() {
    let mut log = MemoryLog::new();
    let mut s = ServerState::new(0);
    let m = raft::peer::AppendEntriesMessage {
        term: 3,
        leader_id: 2,
        prev_log_index: 0,
        prev_log_term: 0,
        entries: vec![Entry { index: 1, term: 3, data: vec![] }, Entry { index: 2, term: 3, data: vec![] }],
        leader_commit: 2,
    };
    assert_eq!(s.handle_append_entries(&mut log, &m, 5), (3, true));
    assert_eq!(s.commit_index, 2);
    let lower = raft::peer::AppendEntriesMessage { leader_commit: 1, entries: vec![], ..m };
    assert_eq!(s.handle_append_entries(&mut log, &lower, 6), (3, true));
    assert_eq!(s.commit_index, 2);
    let stale = raft::peer::AppendEntriesMessage { term: 2, leader_commit: 0, entries: vec![], ..lower };
    assert_eq!(s.handle_append_entries(&mut log, &stale, 7), (3, false));
    assert_eq!(s.current_term, 3);
    assert_eq!(s.last_leader_contact, 6);
}

#[test]
fn append_entries_caps_commit_at_last_index() {
    let mut log = MemoryLog::new();
    let mut s = ServerState::new(0);
    s.current_state = State::CANDIDATE;
    let m = raft::peer::AppendEntriesMessage {
        term: 0,
        leader_id: 2,
        prev_log_index: 0,
        prev_log_term: 0,
        entries: vec![Entry { index: 1, term: 0, data: vec![] }],
        leader_commit: 9,
    };
    assert_eq!(s.handle_append_entries(&mut log, &m, 5), (0, true));
    assert_eq!(s.current_state, State::FOLLOWER);
    assert_eq!(s.commit_index, 1);
}

#[test]
fn append_entries_rejects_malformed_block() {
    let mut log = MemoryLog::new();
    let mut s = ServerState::new(0);
    let gap = raft::peer::AppendEntriesMessage {
        term: 1,
        leader_id: 2,
        prev_log_index: 0,
        prev_log_term: 0,
        entries: vec![Entry { index: 2, term: 1, data: vec![] }],
        leader_commit: 0,
    };
    assert_eq!(s.handle_append_entries(&mut log, &gap, 5), (1, false));
    assert_eq!(log.get_last_entry_index(), 0);
    let falling = raft::peer::AppendEntriesMessage {
        entries: vec![Entry { index: 1, term: 1, data: vec![] }, Entry { index: 2, term: 0, data: vec![] }],
        ..gap
    };
    assert_eq!(s.handle_append_entries(&mut log, &falling, 6), (1, false));
    assert!(!raft::handler::is_acceptable_block(0, 0, &falling.entries));
}

#[test]
fn transitions() {
    let log = MemoryLog::new();
    let mut s = ServerState::new(0);
    assert!(s.election_timeout >= ELECTION_TIMEOUT_MIN && s.election_timeout < ELECTION_TIMEOUT_MAX);
    assert_eq!(s.transition_to_candidate(9, &log), (0, 0));
    assert_eq!((s.current_state, s.current_term, s.voted_for), (State::CANDIDATE, 1, Some(9)));
    s.transition_to_leader();
    assert_eq!(s.current_state, State::LEADER);
    s.transition_to_follower(1);
    assert_eq!((s.current_state, s.current_term, s.voted_for), (State::FOLLOWER, 1, Some(9)));
    s.transition_to_follower(4);
    assert_eq!((s.current_state, s.current_term, s.voted_for), (State::FOLLOWER, 4, None));
    for _ in 0..50 {
        let t = raft::state::generate_election_timeout();
        assert!(t >= ELECTION_TIMEOUT_MIN && t < ELECTION_TIMEOUT_MAX);
    }
}

#[test]
fn client_append_at_leader_and_elsewhere() {
    let mut nodes = cluster(&[1, 2, 3]);
    let refused = {
        let n = &mut nodes[1];
        raft::server::client_append(&n.state, &mut n.log, vec![1])
    };
    assert_eq!(refused, Err(raft::server::ClientAppendError::NotLeader(None)));
    assert_eq!(elect(&mut nodes, 0, &[1, 2], 1000), ElectionOutcome::Won);
    let ok = {
        let n = &mut nodes[0];
        raft::server::client_append(&n.state, &mut n.log, vec![0xAB])
    };
    assert_eq!(ok, Ok(1));
    assert_eq!(nodes[0].log.get_entry(1).unwrap().term, 1);
    assert_eq!(nodes[0].log.get_entry(1).unwrap().data, vec![0xAB]);
    replicate(&mut nodes, 0, &[1], 1001);
    let redirected = {
        let n = &mut nodes[1];
        raft::server::client_append(&n.state, &mut n.log, vec![2])
    };
    assert_eq!(redirected, Err(raft::server::ClientAppendError::NotLeader(Some(1))));
    assert_eq!(nodes[1].log.get_last_entry_index(), 1);
}

#[test]
fn server_from_cluster_leaves_out_itself() {
    let s = Server::from_cluster(&vec![3, 1, 2], 1, 40);
    let ids: Vec<u64> = s.peers.iter().map(|p| p.id).collect();
    assert_eq!(ids, vec![3, 2]);
    assert!(s.peers.iter().all(|p| p.next_index == 1 && p.match_index == 0 && p.is_voting()));
    assert_eq!(s.me, 1);
    assert_eq!(s.last_heartbeat, 40);
}

#[test]
fn request_vote_goes_to_voting_peers_only() {
    let mut s = Server::from_cluster(&vec![1, 2, 3], 1, 0);
    s.add_non_voting_peer(9, 5);
    assert_eq!(s.peers.len(), 3);
    assert!(!s.peers[2].is_voting());
    assert_eq!(s.voting_peer_ids(), vec![2, 3]);
    assert_eq!(s.num_voting_peers(), 2);
    s.remove_peer(2);
    let ids: Vec<u64> = s.peers.iter().map(|p| p.id).collect();
    assert_eq!(ids, vec![3, 9]);
    assert_eq!(s.voting_peer_ids(), vec![3]);
}

#[test]
fn next_wakeup_per_role() {
    let mut s = Server::from_cluster(&vec![1, 2, 3], 1, 100);
    let mut st = ServerState::new(1000);
    st.election_timeout = 200;
    assert_eq!(s.next_wakeup(&st, 1050), 150);
    assert_eq!(s.next_wakeup(&st, 1300), 0);
    assert_eq!(s.next_wakeup(&st, 900), 300);
    st.current_state = State::CANDIDATE;
    assert_eq!(s.next_wakeup(&st, 1050), 0);
    st.current_state = State::LEADER;
    s.last_heartbeat = 1000;
    assert_eq!(s.next_wakeup(&st, 1030), 45);
    assert_eq!(s.next_wakeup(&st, 1100), 0);
}

#[test]
fn stale_append_entries_keeps_timeout() {
    let mut log = MemoryLog::new();
    let mut s = ServerState::new(0);
    s.current_term = 4;
    let timeout = s.election_timeout;
    let stale = raft::peer::AppendEntriesMessage {
        term: 3,
        leader_id: 2,
        prev_log_index: 0,
        prev_log_term: 0,
        entries: vec![],
        leader_commit: 0,
    };
    assert_eq!(s.handle_append_entries(&mut log, &stale, 50), (4, false));
    assert_eq!(s.election_timeout, timeout);
    assert_eq!(s.last_leader_contact, 0);
    assert_eq!(s.leader_hint, None);
}
