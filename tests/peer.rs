use raft::log::{Entry, MemoryLog};
use raft::peer::{
    append_entries_reply_for, handle_append_entries_reply, handle_request_vote_reply,
    request_vote_reply_for, AppendEntriesMessage, NonVotingPeerState, PeerHandle, PeerState,
    RequestVoteMessage, MAX_ROUNDS_FOR_NEW_SERVER,
};

fn entries_with_term(first_index: u64, n: usize, term: u64) -> Vec<Entry> {
    (0..n)
        .map(|i| Entry { index: first_index + i as u64, term, data: vec![i as u8, 7] })
        .collect()
}

#[test]
fn append_entries_handles_commited_entry() {
    const TERM: u64 = 54;
    let (term, success) = handle_append_entries_reply(TERM, TERM, true);
    assert_eq!(term, TERM);
    assert!(success);
}

#[test]
fn append_entries_handles_incorrect_term() {
    const TERM: u64 = 54;
    let (term, success) = handle_append_entries_reply(TERM, TERM + 1, true);
    assert!(term != TERM);
    assert!(!success);
}

#[test]
fn append_entries_handles_failed_commit() {
    const TERM: u64 = 54;
    let (term, success) = handle_append_entries_reply(TERM, TERM, false);
    assert!(term == TERM);
    assert!(!success);
}

#[test]
fn peerhandle_append_entries_sends_correct_empty_message() {
    const TERM: u64 = 5;
    const PEER_NEXT_INDEX: usize = 9;
    const COMMIT_INDEX: usize = 8;
    const LOG_SIZE: usize = 9;
    const LEADER_ID: u64 = 0;
    let handle = PeerHandle {
        id: 1,
        next_index: PEER_NEXT_INDEX,
        match_index: PEER_NEXT_INDEX - 1,
        state: PeerState::Voting,
    };
    let mut log = MemoryLog::new();
    log.append_entries(&entries_with_term(1, COMMIT_INDEX, TERM - 1));
    log.append_entries(&entries_with_term(
        COMMIT_INDEX as u64 + 1,
        LOG_SIZE - COMMIT_INDEX,
        TERM,
    ));
    let message = handle.append_entries_nonblocking(LEADER_ID, COMMIT_INDEX, TERM, &log);
    assert_eq!(message.term, TERM);
    assert_eq!(message.leader_id, LEADER_ID);
    assert_eq!(message.leader_commit, COMMIT_INDEX);
    assert_eq!(message.prev_log_index, PEER_NEXT_INDEX - 1);
    assert_eq!(message.prev_log_term, TERM - 1);
    assert_eq!(message.entries.len(), 1);
}

#[test]
fn append_entries_message_carries_suffix_from_next_index() {
    let mut log = MemoryLog::new();
    log.append_entries(&entries_with_term(1, 4, 2));
    let handle = PeerHandle { id: 3, next_index: 3, match_index: 2, state: PeerState::Voting };
    let m = handle.append_entries_nonblocking(1, 2, 2, &log);
    assert_eq!(m.prev_log_index, 2);
    assert_eq!(m.prev_log_term, 2);
    assert_eq!(m.entries.len(), 2);
    assert_eq!(m.entries[0].index, 3);
    assert_eq!(m.entries[1].index, 4);
    assert_eq!(m.entries[1].data, vec![3u8, 7]);
}

#[test]
fn append_entries_message_from_index_one_has_term_zero() {
    let mut log = MemoryLog::new();
    log.append_entries(&entries_with_term(1, 2, 3));
    let handle = PeerHandle::new(2, false, 0);
    let m = handle.append_entries_nonblocking(1, 0, 3, &log);
    assert_eq!(m.prev_log_index, 0);
    assert_eq!(m.prev_log_term, 0);
    assert_eq!(m.entries.len(), 2);
}

#[test]
fn vote_reply_handles_vote_granted() {
    const TERM: u64 = 54;
    assert!(handle_request_vote_reply(TERM, TERM, true));
}

#[test]
fn vote_reply_handles_incorrect_term() {
    const TERM: u64 = 26;
    assert!(!handle_request_vote_reply(TERM, TERM - 1, true));
}

#[test]
fn vote_reply_handles_vote_rejected() {
    const TERM: u64 = 14;
    assert!(!handle_request_vote_reply(TERM, TERM, false));
}

#[test]
fn vote_reply_handles_malformed_vote_replies() {}

#[test]
fn vote_reply_handles_malformed_rpc_replies() {}

#[test]
fn reply_for_success_reports_end_of_block() {
    let message = AppendEntriesMessage {
        term: 4,
        leader_id: 1,
        prev_log_index: 10,
        prev_log_term: 3,
        entries: entries_with_term(11, 3, 4),
        leader_commit: 9,
    };
    let ok = append_entries_reply_for(2, &message, Some((4, true)));
    assert!(ok.success);
    assert_eq!(ok.commit_index, 13);
    assert_eq!(ok.peer, 2);
    let refused = append_entries_reply_for(2, &message, Some((4, false)));
    assert!(!refused.success);
    assert_eq!(refused.commit_index, 10);
    let higher = append_entries_reply_for(2, &message, Some((7, true)));
    assert!(!higher.success);
    assert_eq!(higher.term, 7);
    let lost = append_entries_reply_for(2, &message, None);
    assert!(!lost.success);
    assert_eq!(lost.term, 4);
    assert_eq!(lost.commit_index, 10);
}

#[test]
fn reply_for_vote_reports_request_term_unless_higher() {
    let vote = RequestVoteMessage { term: 13, candidate_id: 6, last_log_index: 78, last_log_term: 5 };
    let granted = request_vote_reply_for(4, &vote, Some((13, true)));
    assert!(granted.vote_granted);
    assert_eq!(granted.term, 13);
    assert_eq!(granted.peer, 4);
    let newer = request_vote_reply_for(4, &vote, Some((20, true)));
    assert!(!newer.vote_granted);
    assert_eq!(newer.term, 20);
    let older = request_vote_reply_for(4, &vote, Some((3, true)));
    assert!(!older.vote_granted);
    assert_eq!(older.term, 13);
    let lost = request_vote_reply_for(4, &vote, None);
    assert!(!lost.vote_granted);
    assert_eq!(lost.term, 13);
}

#[test]
fn non_voting_peer_caught_up_is_promoted() {
    let mut p = PeerHandle::new(5, true, 100);
    p.next_index = 8;
    assert_eq!(p.advance_non_voting_peer_round(7, 120), NonVotingPeerState::CaughtUp);
    assert_eq!(p.state, PeerState::Voting);
    assert!(p.is_voting());
}

#[test]
fn non_voting_peer_behind_keeps_catching_up() {
    let mut p = PeerHandle::new(5, true, 100);
    p.next_index = 3;
    assert_eq!(p.advance_non_voting_peer_round(7, 120), NonVotingPeerState::CatchingUp);
    assert_eq!(p.state, PeerState::NonVoting(1, 120));
}

#[test]
fn non_voting_peer_last_round_slow_times_out() {
    let mut p = PeerHandle::new(5, true, 0);
    p.state = PeerState::NonVoting(MAX_ROUNDS_FOR_NEW_SERVER - 1, 1000);
    p.next_index = 3;
    assert_eq!(p.advance_non_voting_peer_round(7, 1151), NonVotingPeerState::TimedOut);
    assert!(!p.is_voting());
}

#[test]
fn non_voting_peer_last_round_quick_is_promoted() {
    let mut p = PeerHandle::new(5, true, 0);
    p.state = PeerState::NonVoting(MAX_ROUNDS_FOR_NEW_SERVER - 1, 1000);
    p.next_index = 3;
    assert_eq!(p.advance_non_voting_peer_round(7, 1150), NonVotingPeerState::CaughtUp);
    assert!(p.is_voting());
}

#[test]
fn voting_peer_round_is_noop() {
    let mut p = PeerHandle::new(5, false, 0);
    assert_eq!(p.advance_non_voting_peer_round(7, 10), NonVotingPeerState::VotingPeer);
    assert_eq!(p.state, PeerState::Voting);
}
