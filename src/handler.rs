use vstd::prelude::*;

use crate::log::{
    append_with_truncate_result, at_least_as_up_to_date, block_wf, entries_view, last_term,
    Entry, EntryView, MemoryLog,
};
use crate::peer::AppendEntriesMessage;
use crate::state::{
    follower_in, ReplicaView, ServerState, State, ELECTION_TIMEOUT_MAX, ELECTION_TIMEOUT_MIN,
};

verus! {

/// Whether a replica in state `s` with log `log` grants its vote to a
/// RequestVote of `(term, candidate_id, last_log_index, last_log_term)`.
pub open spec fn grants_vote(
    s: ReplicaView,
    log: Seq<EntryView>,
    term: u64,
    candidate_id: u64,
    last_log_index: usize,
    last_log_term: u64,
) -> bool {
    &&& term >= s.term
    &&& (term > s.term || s.voted_for is None || s.voted_for == Some(candidate_id))
    &&& at_least_as_up_to_date(
        log.len() as int,
        last_term(log) as int,
        last_log_index as int,
        last_log_term as int,
    )
}

/// The replica's state after answering that RequestVote.
pub open spec fn request_vote_next(
    s: ReplicaView,
    log: Seq<EntryView>,
    term: u64,
    candidate_id: u64,
    last_log_index: usize,
    last_log_term: u64,
) -> ReplicaView {
    let s1 = if term > s.term {
        follower_in(s, term)
    } else {
        s
    };
    if grants_vote(s, log, term, candidate_id, last_log_index, last_log_term) {
        ReplicaView { voted_for: Some(candidate_id), ..s1 }
    } else {
        s1
    }
}

/// A block that the log can take after `(prev_index, prev_term)` and still
/// index in a `usize`.
pub open spec fn acceptable_block(prev_index: usize, prev_term: u64, entries: Seq<EntryView>) -> bool {
    &&& block_wf(prev_index as int, prev_term, entries)
    &&& prev_index + entries.len() < usize::MAX
}

/// Whether a replica in term `term` with log `log` accepts the AppendEntries
/// request `m`.
pub open spec fn accepts_append(term: u64, log: Seq<EntryView>, m: AppendEntriesMessage) -> bool {
    &&& m.term >= term
    &&& acceptable_block(m.prev_log_index, m.prev_log_term, entries_view(m.entries@))
    &&& append_with_truncate_result(
        log,
        m.prev_log_index as int,
        m.prev_log_term,
        entries_view(m.entries@),
    ) is Some
}

/// The replica's state after answering AppendEntries `m`, whose outcome on
/// the log is `new_log`.
pub open spec fn append_entries_next(
    s: ReplicaView,
    log: Seq<EntryView>,
    m: AppendEntriesMessage,
    new_log: Seq<EntryView>,
) -> ReplicaView {
    if m.term < s.term {
        s
    } else {
        let s1 = if m.term > s.term || s.role == State::CANDIDATE {
            follower_in(s, m.term)
        } else {
            s
        };
        if accepts_append(s.term, log, m) {
            let cap = if m.leader_commit < new_log.len() {
                m.leader_commit as int
            } else {
                new_log.len() as int
            };
            ReplicaView {
                commit_index: if cap > s.commit_index {
                    cap as usize
                } else {
                    s.commit_index
                },
                ..s1
            }
        } else {
            s1
        }
    }
}

/// True iff `entries` may follow `(prev_index, prev_term)`: contiguous
/// indices from `prev_index + 1`, terms non-decreasing from `prev_term`, and
/// room for the whole block.
pub fn is_acceptable_block(prev_index: usize, prev_term: u64, entries: &Vec<Entry>) -> (r: bool)
    ensures
        r == acceptable_block(prev_index, prev_term, entries_view(entries@)),
{
    let ghost e = entries_view(entries@);
    if entries.len() >= usize::MAX - prev_index {
        return false;
    }
    let mut j: usize = 0;
    let mut last: u64 = prev_term;
    while j < entries.len()
        invariant
            e == entries_view(entries@),
            j <= e.len(),
            prev_index + e.len() < usize::MAX,
            forall|k: int| 0 <= k < j ==> #[trigger] e[k].index == prev_index + 1 + k,
            forall|a: int, b: int| 0 <= a <= b < j ==> #[trigger] e[a].term <= #[trigger] e[b].term,
            j > 0 ==> prev_term <= e[0].term,
            j > 0 ==> last == e[j - 1].term,
            j == 0 ==> last == prev_term,
        decreases e.len() - j,
    {
        let x = &entries[j];
        assert(x@ == e[j as int]);
        if x.index != (prev_index + 1 + j) as u64 || x.term < last {
            assert(!block_wf(prev_index as int, prev_term, e)) by {
                if x.index != (prev_index + 1 + j) as u64 {
                    assert(e[j as int].index != prev_index + 1 + j);
                } else if j > 0 {
                    assert(e[j - 1].term > e[j as int].term);
                } else {
                    assert(prev_term > e[0].term);
                }
            }
            return false;
        }
        proof {
            assert forall|a: int, b: int| 0 <= a <= b < j + 1 implies #[trigger] e[a].term
                <= #[trigger] e[b].term by {
                if b == j && a < j {
                    assert(e[a].term <= e[j - 1].term);
                }
            }
        }
        last = x.term;
        j = j + 1;
    }
    true
}

impl ServerState {
    /// Answers RequestVote `(term, candidate_id, last_log_index,
    /// last_log_term)` at time `now`: steps down on a higher term, and grants
    /// the vote iff this replica has not voted for another candidate in the
    /// term and the candidate's log is at least as up to date as `log`. A
    /// grant restarts the election timeout. Returns `(current_term,
    /// vote_granted)`.
    pub fn handle_request_vote(
        &mut self,
        log: &MemoryLog,
        term: u64,
        candidate_id: u64,
        last_log_index: usize,
        last_log_term: u64,
        now: u64,
    ) -> (r: (u64, bool))
        ensures
            final(self)@ == request_vote_next(
                old(self)@,
                log@,
                term,
                candidate_id,
                last_log_index,
                last_log_term,
            ),
            r == (final(self).current_term, grants_vote(
                old(self)@,
                log@,
                term,
                candidate_id,
                last_log_index,
                last_log_term,
            )),
            final(self).current_term >= old(self).current_term,
            final(self).commit_index == old(self).commit_index,
            r.1 ==> final(self).voted_for == Some(candidate_id),
            final(self).leader_hint == old(self).leader_hint,
            old(self).voted_for is Some && final(self).current_term == old(self).current_term
                ==> final(self).voted_for == old(self).voted_for,
            final(self).last_leader_contact == if r.1 {
                now
            } else {
                old(self).last_leader_contact
            },
            r.1 || term > old(self).current_term ==> ELECTION_TIMEOUT_MIN
                <= final(self).election_timeout < ELECTION_TIMEOUT_MAX,
            !r.1 && term <= old(self).current_term ==> final(self).election_timeout == old(
                self,
            ).election_timeout,
    {
        if term < self.current_term {
            return (self.current_term, false);
        }
        if term > self.current_term {
            self.transition_to_follower(term);
        }
        let may_vote = match self.voted_for {
            None => true,
            Some(c) => c == candidate_id,
        };
        if may_vote && log.is_other_log_valid(last_log_index, last_log_term) {
            self.voted_for = Some(candidate_id);
            self.last_leader_contact = now;
            self.election_timeout = crate::state::generate_election_timeout();
            (self.current_term, true)
        } else {
            (self.current_term, false)
        }
    }

    /// Answers AppendEntries `m` at time `now`: refuses a stale term; else
    /// steps down on a higher term (or as a candidate in the same term),
    /// records the leader's contact, and lays the entries over `log`. On a
    /// mismatch or a malformed block the answer is a refusal; on success the
    /// commit index rises to `min(leader_commit, last index)` if that is
    /// higher. Returns `(current_term, success)`.
    pub fn handle_append_entries(&mut self, log: &mut MemoryLog, m: &AppendEntriesMessage, now: u64) -> (r: (
        u64,
        bool,
    ))
        ensures
            r == (final(self).current_term, accepts_append(old(self).current_term, old(log)@, *m)),
            r.1 ==> Some(final(log)@) == append_with_truncate_result(
                old(log)@,
                m.prev_log_index as int,
                m.prev_log_term,
                entries_view(m.entries@),
            ),
            !r.1 ==> final(log)@ == old(log)@,
            final(self)@ == append_entries_next(old(self)@, old(log)@, *m, final(log)@),
            final(self).current_term >= old(self).current_term,
            final(self).commit_index >= old(self).commit_index,
            final(self).last_leader_contact == if m.term >= old(self).current_term {
                now
            } else {
                old(self).last_leader_contact
            },
            m.term < old(self).current_term || !(m.term > old(self).current_term || old(
                self,
            ).current_state == State::CANDIDATE) ==> final(self).election_timeout == old(
                self,
            ).election_timeout,
            m.term >= old(self).current_term && (m.term > old(self).current_term || old(
                self,
            ).current_state == State::CANDIDATE) ==> ELECTION_TIMEOUT_MIN
                <= final(self).election_timeout < ELECTION_TIMEOUT_MAX,
            final(self).leader_hint == if m.term >= old(self).current_term {
                Some(m.leader_id)
            } else {
                old(self).leader_hint
            },
    {
        if m.term < self.current_term {
            return (self.current_term, false);
        }
        if m.term > self.current_term || self.current_state == State::CANDIDATE {
            self.transition_to_follower(m.term);
        }
        self.last_leader_contact = now;
        self.leader_hint = Some(m.leader_id);
        if !is_acceptable_block(m.prev_log_index, m.prev_log_term, &m.entries) {
            return (self.current_term, false);
        }
        if !log.append_with_truncate(m.prev_log_index, m.prev_log_term, &m.entries) {
            return (self.current_term, false);
        }
        let last = log.get_last_entry_index();
        let cap = if m.leader_commit < last {
            m.leader_commit
        } else {
            last
        };
        if cap > self.commit_index {
            self.commit_index = cap;
        }
        (self.current_term, true)
    }
}

/// Within one term a replica grants at most one vote: after granting a vote
/// to `c1`, a later RequestVote of the same term that it also grants is
/// for `c1` again.
pub proof fn lemma_vote_uniqueness(
    s0: ReplicaView,
    log1: Seq<EntryView>,
    term1: u64,
    c1: u64,
    lli1: usize,
    llt1: u64,
    log2: Seq<EntryView>,
    term2: u64,
    c2: u64,
    lli2: usize,
    llt2: u64,
)
    requires
        grants_vote(s0, log1, term1, c1, lli1, llt1),
        grants_vote(
            request_vote_next(s0, log1, term1, c1, lli1, llt1),
            log2,
            term2,
            c2,
            lli2,
            llt2,
        ),
        term1 == term2,
    ensures
        c1 == c2,
{
}

/// A replica's term never decreases and neither does its commit index,
/// whichever request it answers.
pub proof fn lemma_handlers_monotone(
    s: ReplicaView,
    log: Seq<EntryView>,
    term: u64,
    candidate_id: u64,
    last_log_index: usize,
    last_log_term: u64,
    m: AppendEntriesMessage,
    new_log: Seq<EntryView>,
)
    ensures
        request_vote_next(s, log, term, candidate_id, last_log_index, last_log_term).term >= s.term,
        request_vote_next(s, log, term, candidate_id, last_log_index, last_log_term).commit_index
            == s.commit_index,
        append_entries_next(s, log, m, new_log).term >= s.term,
        append_entries_next(s, log, m, new_log).commit_index >= s.commit_index,
{
}

} // verus!
