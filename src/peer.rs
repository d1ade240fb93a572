use vstd::prelude::*;

use crate::log::{entries_from, entries_view, term_at_index, Entry, MemoryLog};
use crate::state::ELECTION_TIMEOUT_MIN;

verus! {

/// Replication rounds a non-voting member gets to catch up with the leader.
pub const MAX_ROUNDS_FOR_NEW_SERVER: u32 = 10;

/// An AppendEntries request, as a peer worker sends it.
#[derive(Debug)]
pub struct AppendEntriesMessage {
    pub term: u64,
    pub leader_id: u64,
    pub prev_log_index: usize,
    pub prev_log_term: u64,
    pub entries: Vec<Entry>,
    pub leader_commit: usize,
}

/// A RequestVote request, as a peer worker sends it.
#[derive(Copy, Clone, Debug, PartialEq, Eq, Structural)]
pub struct RequestVoteMessage {
    pub term: u64,
    pub candidate_id: u64,
    pub last_log_index: usize,
    pub last_log_term: u64,
}

/// What the coordinator asks of a peer worker.
#[derive(Debug)]
pub enum PeerThreadMessage {
    AppendEntries(AppendEntriesMessage),
    RequestVote(RequestVoteMessage),
    Shutdown,
}

/// What a peer worker reports of an AppendEntries call: the term the peer
/// answered with, the index up to which its log now matches the leader's
/// (the sent `prev_log_index` on failure), the peer, and the outcome.
#[derive(Copy, Clone, Debug, PartialEq, Eq, Structural)]
pub struct AppendEntriesReply {
    pub term: u64,
    pub commit_index: usize,
    pub peer: u64,
    pub success: bool,
}

/// What a peer worker reports of a RequestVote call.
#[derive(Copy, Clone, Debug, PartialEq, Eq, Structural)]
pub struct RequestVoteReply {
    pub term: u64,
    pub vote_granted: bool,
    pub peer: u64,
}

/// Whether a peer counts toward quorum. A non-voting member is catching up:
/// it carries its current round and the time (ms) at which that round began.
#[derive(PartialEq, Eq, Structural, Clone, Copy, Debug)]
pub enum PeerState {
    Voting,
    NonVoting(u32, u64),
}

/// The outcome of one replication round of a peer.
#[derive(PartialEq, Eq, Structural, Clone, Copy, Debug)]
pub enum NonVotingPeerState {
    CatchingUp,
    CaughtUp,
    TimedOut,
    VotingPeer,
}

/// The leader's replication cursor for one remote peer.
#[derive(Clone, Copy, Debug)]
pub struct PeerHandle {
    pub id: u64,
    pub next_index: usize,
    pub match_index: usize,
    pub state: PeerState,
}

/// The AppendEntries request for a peer whose next index is `next_index`.
pub open spec fn append_entries_for(
    m: AppendEntriesMessage,
    next_index: usize,
    leader_id: u64,
    commit_index: usize,
    current_term: u64,
    log: Seq<crate::log::EntryView>,
) -> bool {
    &&& m.term == current_term
    &&& m.leader_id == leader_id
    &&& m.prev_log_index == next_index - 1
    &&& Some(m.prev_log_term) == term_at_index(log, next_index - 1)
    &&& entries_view(m.entries@) == entries_from(log, next_index as int)
    &&& m.leader_commit == commit_index
}

/// The peer's state and the round's outcome after one replication round at
/// `now`, when the leader's last index is `latest_log_index`.
pub open spec fn round_outcome(
    state: PeerState,
    next_index: usize,
    latest_log_index: usize,
    now: u64,
) -> (PeerState, NonVotingPeerState) {
    match state {
        PeerState::Voting => (PeerState::Voting, NonVotingPeerState::VotingPeer),
        PeerState::NonVoting(round, start) => {
            let round = if round < u32::MAX {
                (round + 1) as u32
            } else {
                round
            };
            if next_index == latest_log_index + 1 {
                (PeerState::Voting, NonVotingPeerState::CaughtUp)
            } else if round >= MAX_ROUNDS_FOR_NEW_SERVER {
                if now >= start && now - start > ELECTION_TIMEOUT_MIN {
                    (PeerState::NonVoting(round, start), NonVotingPeerState::TimedOut)
                } else {
                    (PeerState::Voting, NonVotingPeerState::CaughtUp)
                }
            } else {
                (PeerState::NonVoting(round, now), NonVotingPeerState::CatchingUp)
            }
        },
    }
}

impl PeerHandle {
    /// A cursor for peer `id` before any replication: next index 1, nothing
    /// matched; a non-voting member starts its first round at `now`.
    pub fn new(id: u64, non_voting: bool, now: u64) -> (r: PeerHandle)
        ensures
            r.id == id,
            r.next_index == 1,
            r.match_index == 0,
            r.state == (if non_voting {
                PeerState::NonVoting(0, now)
            } else {
                PeerState::Voting
            }),
    {
        PeerHandle {
            id,
            next_index: 1,
            match_index: 0,
            state: if non_voting {
                PeerState::NonVoting(0, now)
            } else {
                PeerState::Voting
            },
        }
    }

    /// Whether this peer counts toward quorum.
    pub fn is_voting(&self) -> (r: bool)
        ensures
            r == (self.state == PeerState::Voting),
    {
        match self.state {
            PeerState::Voting => true,
            PeerState::NonVoting(_, _) => false,
        }
    }

    /// The AppendEntries request that is pushed, without blocking, to this
    /// peer's worker: everything from the peer's next index on, after the
    /// entry just before it.
    pub fn append_entries_nonblocking(
        &self,
        leader_id: u64,
        commit_index: usize,
        current_term: u64,
        log: &MemoryLog,
    ) -> (r: AppendEntriesMessage)
        requires
            1 <= self.next_index <= log@.len() + 1,
        ensures
            append_entries_for(r, self.next_index, leader_id, commit_index, current_term, log@),
    {
        let prev_log_index = self.next_index - 1;
        let prev_log_term = match log.term_at(prev_log_index) {
            Some(t) => t,
            None => 0,
        };
        AppendEntriesMessage {
            term: current_term,
            leader_id,
            prev_log_index,
            prev_log_term,
            entries: log.get_entries_from(self.next_index),
            leader_commit: commit_index,
        }
    }

    /// Advances the current round of this non-voting peer: it is promoted
    /// once its next index reaches `latest_log_index + 1`; after the last
    /// round it is promoted if that round was quick and timed out otherwise.
    /// A no-op for voting peers.
    pub fn advance_non_voting_peer_round(&mut self, latest_log_index: usize, now: u64) -> (r:
        NonVotingPeerState)
        requires
            latest_log_index < usize::MAX,
        ensures
            (final(self).state, r) == round_outcome(
                old(self).state,
                old(self).next_index,
                latest_log_index,
                now,
            ),
            final(self).id == old(self).id,
            final(self).next_index == old(self).next_index,
            final(self).match_index == old(self).match_index,
    {
        match self.state {
            PeerState::Voting => NonVotingPeerState::VotingPeer,
            PeerState::NonVoting(round, start) => {
                let round = if round < u32::MAX {
                    round + 1
                } else {
                    round
                };
                if self.next_index == latest_log_index + 1 {
                    self.state = PeerState::Voting;
                    NonVotingPeerState::CaughtUp
                } else if round >= MAX_ROUNDS_FOR_NEW_SERVER {
                    if now >= start && now - start > ELECTION_TIMEOUT_MIN {
                        self.state = PeerState::NonVoting(round, start);
                        NonVotingPeerState::TimedOut
                    } else {
                        self.state = PeerState::Voting;
                        NonVotingPeerState::CaughtUp
                    }
                } else {
                    self.state = PeerState::NonVoting(round, now);
                    NonVotingPeerState::CatchingUp
                }
            },
        }
    }
}

/// Reads a peer's answer to AppendEntries sent in `entry_term`: the term the
/// peer answered with, and success only if it answered in that same term.
pub fn handle_append_entries_reply(entry_term: u64, reply_term: u64, reply_success: bool) -> (r: (
    u64,
    bool,
))
    ensures
        r == (reply_term, reply_term == entry_term && reply_success),
{
    (reply_term, reply_term == entry_term && reply_success)
}

/// Reads a peer's answer to RequestVote sent in `vote_term`: true iff the
/// peer granted its vote in that same term.
pub fn handle_request_vote_reply(vote_term: u64, reply_term: u64, vote_granted: bool) -> (r: bool)
    ensures
        r == (reply_term == vote_term && vote_granted),
{
    reply_term == vote_term && vote_granted
}

/// The report of an AppendEntries call by the worker of peer `peer`.
/// `answer` is the peer's `(term, success)`, none when the call failed in
/// transport, which counts as a refusal in the request's own term.
pub fn append_entries_reply_for(
    peer: u64,
    entry: &AppendEntriesMessage,
    answer: Option<(u64, bool)>,
) -> (r: AppendEntriesReply)
    requires
        entry.prev_log_index + entry.entries@.len() <= usize::MAX,
    ensures
        ({
            let (term, success) = match answer {
                Some(a) => (a.0, a.0 == entry.term && a.1),
                None => (entry.term, false),
            };
            r == AppendEntriesReply {
                term,
                commit_index: if success {
                    (entry.prev_log_index + entry.entries@.len()) as usize
                } else {
                    entry.prev_log_index
                },
                peer,
                success,
            }
        }),
{
    let (term, success) = match answer {
        Some(a) => handle_append_entries_reply(entry.term, a.0, a.1),
        None => (entry.term, false),
    };
    AppendEntriesReply {
        term,
        commit_index: if success {
            entry.prev_log_index + entry.entries.len()
        } else {
            entry.prev_log_index
        },
        peer,
        success,
    }
}

/// The report of a RequestVote call by the worker of peer `peer`. `answer`
/// is the peer's `(term, vote_granted)`, none when the call failed in
/// transport, which counts as a refusal. The report carries the request's
/// term, or the peer's when that is higher, so that the candidate steps down.
pub fn request_vote_reply_for(peer: u64, vote: &RequestVoteMessage, answer: Option<(u64, bool)>) -> (r:
    RequestVoteReply)
    ensures
        r == (match answer {
            Some(a) => RequestVoteReply {
                term: if a.0 > vote.term {
                    a.0
                } else {
                    vote.term
                },
                vote_granted: a.0 == vote.term && a.1,
                peer,
            },
            None => RequestVoteReply { term: vote.term, vote_granted: false, peer },
        }),
{
    match answer {
        Some(a) => RequestVoteReply {
            term: if a.0 > vote.term {
                a.0
            } else {
                vote.term
            },
            vote_granted: handle_request_vote_reply(vote.term, a.0, a.1),
            peer,
        },
        None => RequestVoteReply { term: vote.term, vote_granted: false, peer },
    }
}

} // verus!
