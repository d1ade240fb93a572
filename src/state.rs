use rand::Rng;
use vstd::prelude::*;

use crate::log::{last_term, MemoryLog};

verus! {

/// Lower bound of the randomized election timeout, in milliseconds.
pub const ELECTION_TIMEOUT_MIN: u64 = 150;

/// Upper bound (exclusive) of the randomized election timeout, in milliseconds.
pub const ELECTION_TIMEOUT_MAX: u64 = 300;

/// Time between two heartbeats of a leader, in milliseconds.
pub const HEARTBEAT_INTERVAL: u64 = 75;

/// The role a replica plays in its current term.
#[derive(PartialEq, Eq, Structural, Clone, Copy, Debug)]
#[allow(non_camel_case_types)]
pub enum State {
    CANDIDATE,
    LEADER,
    FOLLOWER,
}

/// The persisted and volatile control variables of one replica. Times are
/// milliseconds on the replica's monotonic clock; `leader_hint` is the last
/// leader this replica heard from.
#[derive(Debug)]
pub struct ServerState {
    pub current_state: State,
    pub current_term: u64,
    pub commit_index: usize,
    pub last_leader_contact: u64,
    pub voted_for: Option<u64>,
    pub election_timeout: u64,
    pub leader_hint: Option<u64>,
}

/// The part of a replica's state that the protocol's safety rests on.
pub struct ReplicaView {
    pub role: State,
    pub term: u64,
    pub voted_for: Option<u64>,
    pub commit_index: usize,
}

impl View for ServerState {
    type V = ReplicaView;

    open spec fn view(&self) -> ReplicaView {
        ReplicaView {
            role: self.current_state,
            term: self.current_term,
            voted_for: self.voted_for,
            commit_index: self.commit_index,
        }
    }
}

/// Relies on rand::thread_rng and rand::Rng::gen_range: a value drawn from
/// the half-open range `[min, max)`, which gen_range documents and which
/// panics only on an empty range.
#[verifier::external_body]
fn random_in_range(min: u64, max: u64) -> (r: u64)
    requires
        min < max,
    ensures
        min <= r < max,
{
    rand::thread_rng().gen_range(min..max)
}

/// A fresh election timeout, uniform over
/// `[ELECTION_TIMEOUT_MIN, ELECTION_TIMEOUT_MAX)`.
pub fn generate_election_timeout() -> (r: u64)
    ensures
        ELECTION_TIMEOUT_MIN <= r < ELECTION_TIMEOUT_MAX,
{
    random_in_range(ELECTION_TIMEOUT_MIN, ELECTION_TIMEOUT_MAX)
}

/// The state after stepping down to follower in `new_term`.
pub open spec fn follower_in(s: ReplicaView, new_term: u64) -> ReplicaView {
    ReplicaView {
        role: State::FOLLOWER,
        term: new_term,
        voted_for: if new_term > s.term {
            None
        } else {
            s.voted_for
        },
        commit_index: s.commit_index,
    }
}

impl ServerState {
    /// A follower at term 0 that has voted for nobody and committed nothing,
    /// last contacted by a leader at `now`.
    pub fn new(now: u64) -> (r: ServerState)
        ensures
            r@ == (ReplicaView { role: State::FOLLOWER, term: 0, voted_for: None, commit_index: 0 }),
            r.last_leader_contact == now,
            r.leader_hint is None,
            ELECTION_TIMEOUT_MIN <= r.election_timeout < ELECTION_TIMEOUT_MAX,
    {
        ServerState {
            current_state: State::FOLLOWER,
            current_term: 0,
            commit_index: 0,
            last_leader_contact: now,
            voted_for: None,
            election_timeout: generate_election_timeout(),
            leader_hint: None,
        }
    }

    /// Starts an election: increments the term, votes for `my_id` and redraws
    /// the election timeout. Returns the term and index of the log's last
    /// entry, `(last_log_term, last_log_index)`.
    pub fn transition_to_candidate(&mut self, my_id: u64, log: &MemoryLog) -> (r: (u64, usize))
        requires
            old(self).current_state != State::LEADER,
            old(self).current_term < u64::MAX,
        ensures
            final(self)@ == (ReplicaView {
                role: State::CANDIDATE,
                term: (old(self).current_term + 1) as u64,
                voted_for: Some(my_id),
                commit_index: old(self).commit_index,
            }),
            final(self).last_leader_contact == old(self).last_leader_contact,
            final(self).leader_hint == old(self).leader_hint,
            ELECTION_TIMEOUT_MIN <= final(self).election_timeout < ELECTION_TIMEOUT_MAX,
            r == (last_term(log@), log@.len() as usize),
    {
        self.current_state = State::CANDIDATE;
        self.current_term = self.current_term + 1;
        self.voted_for = Some(my_id);
        self.election_timeout = generate_election_timeout();
        (log.get_last_entry_term(), log.get_last_entry_index())
    }

    /// Takes leadership after winning the election of the current term.
    pub fn transition_to_leader(&mut self)
        requires
            old(self).current_state == State::CANDIDATE,
        ensures
            final(self)@ == (ReplicaView { role: State::LEADER, ..old(self)@ }),
            final(self).last_leader_contact == old(self).last_leader_contact,
            final(self).leader_hint == old(self).leader_hint,
            final(self).election_timeout == old(self).election_timeout,
    {
        self.current_state = State::LEADER;
    }

    /// Steps down to follower in `new_term`, forgetting the vote if the term
    /// advances, and redraws the election timeout.
    pub fn transition_to_follower(&mut self, new_term: u64)
        requires
            new_term >= old(self).current_term,
        ensures
            final(self)@ == follower_in(old(self)@, new_term),
            final(self).last_leader_contact == old(self).last_leader_contact,
            final(self).leader_hint == old(self).leader_hint,
            ELECTION_TIMEOUT_MIN <= final(self).election_timeout < ELECTION_TIMEOUT_MAX,
    {
        if new_term > self.current_term {
            self.current_term = new_term;
            self.voted_for = None;
        }
        self.current_state = State::FOLLOWER;
        self.election_timeout = generate_election_timeout();
    }

    /// True iff at least one election timeout has passed at `now` since the
    /// last contact with a leader.
    pub fn has_election_timeout_occured(&self, now: u64) -> (r: bool)
        ensures
            r == (now >= self.last_leader_contact && now - self.last_leader_contact
                >= self.election_timeout),
    {
        now >= self.last_leader_contact && now - self.last_leader_contact >= self.election_timeout
    }
}

} // verus!
