use vstd::prelude::*;

use crate::log::{
    at_least_as_up_to_date, entries_view, last_term, log_wf, term_at_index, Entry, EntryView,
    MemoryLog,
};
use crate::peer::{
    append_entries_for, round_outcome, AppendEntriesMessage, AppendEntriesReply,
    NonVotingPeerState, PeerHandle, PeerState, RequestVoteMessage, RequestVoteReply,
};
use crate::state::{
    follower_in, ReplicaView, ServerState, State, ELECTION_TIMEOUT_MAX, ELECTION_TIMEOUT_MIN,
    HEARTBEAT_INTERVAL,
};

verus! {

/// How many of `ms` are at least `v`.
pub open spec fn count_at_least(ms: Seq<usize>, v: int) -> nat
    decreases ms.len(),
{
    if ms.len() == 0 {
        0
    } else {
        count_at_least(ms.drop_last(), v) + if ms.last() >= v {
            1nat
        } else {
            0nat
        }
    }
}

/// More than half of `ms` are at least `v`.
pub open spec fn has_majority(ms: Seq<usize>, v: int) -> bool {
    2 * count_at_least(ms, v) > ms.len()
}

/// `m` is the greatest of 0 and the values of `ms` that a majority of `ms`
/// has reached.
pub open spec fn is_quorum_index(ms: Seq<usize>, m: usize) -> bool {
    &&& has_majority(ms, m as int)
    &&& (m == 0 || ms.contains(m))
    &&& forall|i: int| 0 <= i < ms.len() && ms[i] > m ==> !has_majority(ms, #[trigger] ms[i] as int)
}

/// The index that a majority of `ms` has reached, and no greater one of them.
pub open spec fn quorum_index_of(ms: Seq<usize>) -> usize {
    choose|m: usize| is_quorum_index(ms, m)
}

/// The match indices of the voting peers, in order.
pub open spec fn voting_match_indices(peers: Seq<PeerHandle>) -> Seq<usize>
    decreases peers.len(),
{
    if peers.len() == 0 {
        Seq::empty()
    } else {
        let rest = voting_match_indices(peers.drop_last());
        if peers.last().state == PeerState::Voting {
            rest.push(peers.last().match_index)
        } else {
            rest
        }
    }
}

/// The number of voting peers.
pub open spec fn voting_count(peers: Seq<PeerHandle>) -> nat {
    voting_match_indices(peers).len()
}

/// The match indices of the voting cohort: the leader itself, whose log is
/// matched up to `last_index`, then each voting peer.
pub open spec fn cohort_match_indices(peers: Seq<PeerHandle>, last_index: usize) -> Seq<usize> {
    seq![last_index].add(voting_match_indices(peers))
}

/// The commit index after a commit advance: the quorum index, if it is
/// higher and its entry is of the leader's current term.
pub open spec fn advanced_commit(
    commit_index: usize,
    quorum: usize,
    log: Seq<EntryView>,
    current_term: u64,
) -> usize {
    if quorum > commit_index && term_at_index(log, quorum as int) == Some(current_term) {
        quorum
    } else {
        commit_index
    }
}

/// A next index brought into `[1, last_index + 1]`.
pub open spec fn clamp_next(next_index: usize, last_index: usize) -> usize {
    if next_index < 1 {
        1
    } else if next_index > last_index + 1 {
        (last_index + 1) as usize
    } else {
        next_index
    }
}

/// At most one value `m` is a quorum index of `ms`.
pub proof fn lemma_quorum_index_unique(ms: Seq<usize>, a: usize, b: usize)
    requires
        is_quorum_index(ms, a),
        is_quorum_index(ms, b),
    ensures
        a == b,
{
    if a < b {
        let i = choose|i: int| 0 <= i < ms.len() && ms[i] == b;
        assert(!has_majority(ms, ms[i] as int));
    } else if b < a {
        let i = choose|i: int| 0 <= i < ms.len() && ms[i] == a;
        assert(!has_majority(ms, ms[i] as int));
    }
}

/// Counts the values of `ms` that are at least `v`.
fn count_at_least_exec(ms: &Vec<usize>, v: usize) -> (r: usize)
    ensures
        r == count_at_least(ms@, v as int),
        r <= ms@.len(),
{
    let mut c: usize = 0;
    let mut i: usize = 0;
    while i < ms.len()
        invariant
            i <= ms@.len(),
            c == count_at_least(ms@.take(i as int), v as int),
            c <= i,
        decreases ms@.len() - i,
    {
        assert(ms@.take(i + 1).drop_last() =~= ms@.take(i as int));
        if ms[i] >= v {
            c = c + 1;
        }
        i = i + 1;
    }
    assert(ms@.take(ms@.len() as int) =~= ms@);
    c
}

/// The index that a majority of `ms` has reached: the greatest of 0 and the
/// values of `ms` that more than half of `ms` are at least.
pub fn quorum_index(ms: &Vec<usize>) -> (r: usize)
    requires
        ms@.len() > 0,
    ensures
        is_quorum_index(ms@, r),
        r == quorum_index_of(ms@),
{
    let n = ms.len();
    let mut best: usize = 0;
    proof {
        lemma_count_all(ms@);
    }
    let mut i: usize = 0;
    while i < n
        invariant
            n == ms@.len(),
            i <= n,
            has_majority(ms@, best as int),
            best == 0 || ms@.contains(best),
            forall|k: int| 0 <= k < i && ms@[k] > best ==> !has_majority(ms@, #[trigger] ms@[k] as int),
        decreases n - i,
    {
        let v = ms[i];
        if v > best {
            let c = count_at_least_exec(ms, v);
            if c > n - c {
                proof {
                    assert forall|k: int| 0 <= k < i + 1 && ms@[k] > v implies !has_majority(
                        ms@,
                        #[trigger] ms@[k] as int,
                    ) by {
                        assert(k < i);
                    }
                }
                best = v;
            }
        }
        i = i + 1;
    }
    proof {
        lemma_quorum_index_unique(ms@, best, quorum_index_of(ms@));
    }
    best
}

/// Every value of a sequence is at least 0.
proof fn lemma_count_all(ms: Seq<usize>)
    ensures
        count_at_least(ms, 0) == ms.len(),
    decreases ms.len(),
{
    if ms.len() > 0 {
        lemma_count_all(ms.drop_last());
    }
}

/// Two strict majorities of a finite cluster share a member.
pub proof fn lemma_majorities_intersect(cluster: Set<u64>, a: Set<u64>, b: Set<u64>)
    requires
        cluster.finite(),
        a.subset_of(cluster),
        b.subset_of(cluster),
        2 * a.len() > cluster.len(),
        2 * b.len() > cluster.len(),
    ensures
        exists|x: u64| a.contains(x) && b.contains(x),
{
    vstd::set_lib::lemma_len_subset(a, cluster);
    vstd::set_lib::lemma_len_subset(b, cluster);
    vstd::set_lib::lemma_len_subset(a + b, cluster);
    vstd::set_lib::lemma_set_intersect_union_lens(a, b);
    let both = a.intersect(b);
    if !(exists|x: u64| a.contains(x) && b.contains(x)) {
        assert(both =~= Set::<u64>::empty());
    }
}

/// At most one leader per term: when each member of the cluster votes for at
/// most one candidate in a term (`votes` maps a voter to its choice), two
/// candidates that each hold the votes of a strict majority of the cluster
/// are the same candidate.
pub proof fn lemma_election_safety(
    cluster: Set<u64>,
    votes: Map<u64, u64>,
    support_a: Set<u64>,
    support_b: Set<u64>,
    a: u64,
    b: u64,
)
    requires
        cluster.finite(),
        support_a.subset_of(cluster),
        support_b.subset_of(cluster),
        2 * support_a.len() > cluster.len(),
        2 * support_b.len() > cluster.len(),
        forall|x: u64| #[trigger] support_a.contains(x) ==> votes.contains_key(x) && votes[x] == a,
        forall|x: u64| #[trigger] support_b.contains(x) ==> votes.contains_key(x) && votes[x] == b,
    ensures
        a == b,
{
    lemma_majorities_intersect(cluster, support_a, support_b);
    let x = choose|x: u64| support_a.contains(x) && support_b.contains(x);
}

/// A won election is carried by a strict majority of the voting cohort: when
/// `record_vote` reports a win, the candidate `me` and the distinct voting
/// peers that granted their vote (`votes`, drawn from the voting peers
/// `voters`) make up more than half of the cohort of `me` and `voters`. With
/// `lemma_election_safety` this gives at most one winner per term.
pub proof fn lemma_won_election_is_majority(me: u64, votes: Seq<u64>, voters: Seq<u64>)
    requires
        votes.no_duplicates(),
        voters.no_duplicates(),
        !voters.contains(me),
        forall|i: int| 0 <= i < votes.len() ==> voters.contains(#[trigger] votes[i]),
        wins_election(votes.len(), voters.len()),
    ensures
        ({
            let cohort = voters.to_set().insert(me);
            let support = votes.to_set().insert(me);
            &&& cohort.finite()
            &&& support.subset_of(cohort)
            &&& 2 * support.len() > cohort.len()
        }),
{
    broadcast use vstd::seq_lib::seq_to_set_is_finite;
    broadcast use vstd::set::group_set_axioms;

    votes.unique_seq_to_set();
    voters.unique_seq_to_set();
    assert(!votes.to_set().contains(me)) by {
        if votes.to_set().contains(me) {
            let i = choose|i: int| 0 <= i < votes.len() && votes[i] == me;
            assert(voters.contains(votes[i]));
        }
    }
    assert(!voters.to_set().contains(me));
    assert forall|x: u64| votes.to_set().insert(me).contains(x) implies voters.to_set().insert(
        me,
    ).contains(x) by {
        if x != me {
            let i = choose|i: int| 0 <= i < votes.len() && votes[i] == x;
            assert(voters.contains(votes[i]));
        }
    }
}

/// A candidate elected by a strict majority meets every entry that a strict
/// majority holds: some voter that granted its vote holds the entry, and
/// since each voter found the candidate's log at least as up to date as its
/// own, the candidate's last term is at least the entry's term.
pub proof fn lemma_winner_meets_majority_entry(
    cluster: Set<u64>,
    logs: Map<u64, Seq<EntryView>>,
    holders: Set<u64>,
    voters: Set<u64>,
    index: int,
    term: u64,
    candidate_last_index: usize,
    candidate_last_term: u64,
)
    requires
        cluster.finite(),
        holders.subset_of(cluster),
        voters.subset_of(cluster),
        2 * holders.len() > cluster.len(),
        2 * voters.len() > cluster.len(),
        index >= 1,
        forall|x: u64| #[trigger] holders.contains(x) ==> logs.contains_key(x) && log_wf(logs[x])
            && term_at_index(logs[x], index) == Some(term),
        forall|x: u64| #[trigger] voters.contains(x) ==> logs.contains_key(x)
            && at_least_as_up_to_date(
            logs[x].len() as int,
            last_term(logs[x]) as int,
            candidate_last_index as int,
            candidate_last_term as int,
        ),
    ensures
        exists|x: u64| #[trigger] holders.contains(x) && voters.contains(x),
        candidate_last_term >= term,
{
    lemma_majorities_intersect(cluster, holders, voters);
    let x = choose|x: u64| holders.contains(x) && voters.contains(x);
    let l = logs[x];
    assert(l[index - 1].term <= l[l.len() - 1].term);
}

/// Why a client submission was refused.
#[derive(PartialEq, Eq, Structural, Clone, Copy, Debug)]
pub enum ClientAppendError {
    /// This replica does not lead; the last leader it heard from, if any.
    NotLeader(Option<u64>),
    /// The log cannot take another entry of the current term.
    Refused,
}

/// Takes a client submission: a leader appends `data` to its log as the
/// entry `last_index() + 1` of its current term and returns that index. A
/// replica that does not lead refuses with the last leader it heard from.
pub fn client_append(state: &ServerState, log: &mut MemoryLog, data: Vec<u8>) -> (r: Result<
    usize,
    ClientAppendError,
>)
    ensures
        state.current_state != State::LEADER ==> r == Err::<usize, ClientAppendError>(
            ClientAppendError::NotLeader(state.leader_hint),
        ),
        state.current_state == State::LEADER && (state.current_term < last_term(old(log)@)
            || old(log)@.len() + 1 >= usize::MAX) ==> r == Err::<usize, ClientAppendError>(
            ClientAppendError::Refused,
        ),
        r is Err ==> final(log)@ == old(log)@,
        state.current_state == State::LEADER && state.current_term >= last_term(old(log)@)
            && old(log)@.len() + 1 < usize::MAX ==> {
            &&& r == Ok::<usize, ClientAppendError>((old(log)@.len() + 1) as usize)
            &&& final(log)@ == old(log)@.push(
                EntryView {
                    index: (old(log)@.len() + 1) as u64,
                    term: state.current_term,
                    data: data@,
                },
            )
        },
{
    if state.current_state != State::LEADER {
        return Err(ClientAppendError::NotLeader(state.leader_hint));
    }
    let last = log.get_last_entry_index();
    if state.current_term < log.get_last_entry_term() || last >= usize::MAX - 1 {
        return Err(ClientAppendError::Refused);
    }
    let entry = Entry::new((last + 1) as u64, state.current_term, data);
    let block = vec![entry];
    assert(entries_view(block@) =~= seq![entry@]);
    log.append_entries(&block);
    assert(log@ =~= old(log)@.push(entry@));
    Ok(last + 1)
}

/// The ids of the voting peers, in order.
pub open spec fn voting_ids(peers: Seq<PeerHandle>) -> Seq<u64>
    decreases peers.len(),
{
    if peers.len() == 0 {
        Seq::empty()
    } else {
        let rest = voting_ids(peers.drop_last());
        if peers.last().state == PeerState::Voting {
            rest.push(peers.last().id)
        } else {
            rest
        }
    }
}

/// The peers other than `id`, in order.
pub open spec fn without_peer(peers: Seq<PeerHandle>, id: u64) -> Seq<PeerHandle>
    decreases peers.len(),
{
    if peers.len() == 0 {
        Seq::empty()
    } else {
        let rest = without_peer(peers.drop_last(), id);
        if peers.last().id == id {
            rest
        } else {
            rest.push(peers.last())
        }
    }
}

/// A fresh voting cursor for each id of `ids` but `me`, in order.
pub open spec fn peers_from(ids: Seq<u64>, me: u64) -> Seq<PeerHandle>
    decreases ids.len(),
{
    if ids.len() == 0 {
        Seq::empty()
    } else {
        let rest = peers_from(ids.drop_last(), me);
        if ids.last() == me {
            rest
        } else {
            rest.push(
                PeerHandle {
                    id: ids.last(),
                    next_index: 1,
                    match_index: 0,
                    state: PeerState::Voting,
                },
            )
        }
    }
}

/// `a - b`, or 0 when `b` is larger.
pub open spec fn saturating_diff(a: int, b: int) -> int {
    if a > b {
        a - b
    } else {
        0
    }
}

/// How long the coordinator may wait at `now` before it must act: a leader
/// until its next heartbeat, a follower until its election timeout has
/// passed since the last leader contact, a candidate not at all.
pub open spec fn wakeup_after(state: ServerState, last_heartbeat: u64, now: u64) -> int {
    match state.current_state {
        State::LEADER => saturating_diff(
            HEARTBEAT_INTERVAL as int,
            saturating_diff(now as int, last_heartbeat as int),
        ),
        State::FOLLOWER => {
            let w = saturating_diff(
                state.last_leader_contact + state.election_timeout,
                now as int,
            );
            if w > u64::MAX {
                u64::MAX as int
            } else {
                w
            }
        },
        State::CANDIDATE => 0,
    }
}

/// The coordinator's own data: the replication cursor of each remote peer,
/// this replica's id, and when the last heartbeat went out (ms).
#[derive(Debug)]
pub struct Server {
    pub peers: Vec<PeerHandle>,
    pub me: u64,
    pub last_heartbeat: u64,
}

/// How an election goes after one more reply.
#[derive(PartialEq, Eq, Structural, Clone, Copy, Debug)]
pub enum ElectionOutcome {
    Pending,
    Won,
    Lost,
}

/// An election in progress: its term, when it is given up (ms), and the
/// voting peers that granted their vote.
#[derive(Debug)]
pub struct Election {
    pub term: u64,
    pub deadline: u64,
    pub votes: Vec<u64>,
}

/// Peer `id` is one of `peers` and counts toward quorum.
pub open spec fn is_voting_peer(peers: Seq<PeerHandle>, id: u64) -> bool {
    exists|i: int| 0 <= i < peers.len() && #[trigger] peers[i].id == id && peers[i].state
        == PeerState::Voting
}

/// A candidate that holds `votes` peer votes besides its own has won, in a
/// cohort of `voting` voting peers and itself.
pub open spec fn wins_election(votes: nat, voting: nat) -> bool {
    2 * (votes + 1) > voting + 1
}

impl Server {
    /// A coordinator for replica `me` with the given peer cursors, none of
    /// which is `me` itself and none of which has matched anything yet.
    pub fn new(peers: Vec<PeerHandle>, me: u64, now: u64) -> (r: Server)
        requires
            forall|i: int| 0 <= i < peers@.len() ==> #[trigger] peers@[i].id != me,
            forall|i: int| 0 <= i < peers@.len() ==> #[trigger] peers@[i].match_index == 0,
        ensures
            r.peers@ == peers@,
            r.me == me,
            r.last_heartbeat == now,
    {
        Server { peers, me, last_heartbeat: now }
    }

    /// A coordinator for replica `me` of the cluster whose members are `ids`:
    /// one fresh voting cursor (next index 1, match index 0) for each member
    /// but `me`, in the order of `ids`.
    pub fn from_cluster(ids: &Vec<u64>, me: u64, now: u64) -> (r: Server)
        ensures
            r.peers@ == peers_from(ids@, me),
            r.me == me,
            r.last_heartbeat == now,
            forall|i: int|
                0 <= i < r.peers@.len() ==> {
                    let p = #[trigger] r.peers@[i];
                    &&& p.id != me
                    &&& ids@.contains(p.id)
                    &&& p.next_index == 1
                    &&& p.match_index == 0
                    &&& p.state == PeerState::Voting
                },
            forall|k: int|
                0 <= k < ids@.len() && #[trigger] ids@[k] != me ==> exists|i: int|
                    0 <= i < r.peers@.len() && r.peers@[i].id == ids@[k],
    {
        let mut peers: Vec<PeerHandle> = Vec::new();
        let mut k: usize = 0;
        while k < ids.len()
            invariant
                k <= ids@.len(),
                peers@ == peers_from(ids@.take(k as int), me),
                forall|i: int|
                    0 <= i < peers@.len() ==> {
                        let p = #[trigger] peers@[i];
                        &&& p.id != me
                        &&& ids@.contains(p.id)
                        &&& p.next_index == 1
                        &&& p.match_index == 0
                        &&& p.state == PeerState::Voting
                    },
                forall|j: int|
                    0 <= j < k && #[trigger] ids@[j] != me ==> exists|i: int|
                        0 <= i < peers@.len() && peers@[i].id == ids@[j],
            decreases ids@.len() - k,
        {
            assert(ids@.take(k + 1).drop_last() =~= ids@.take(k as int));
            let id = ids[k];
            if id != me {
                let ghost before = peers@;
                peers.push(PeerHandle::new(id, false, now));
                assert(ids@.contains(id)) by {
                    assert(ids@[k as int] == id);
                }
                assert forall|j: int| 0 <= j < k + 1 && #[trigger] ids@[j] != me implies exists|i: int|
                    0 <= i < peers@.len() && peers@[i].id == ids@[j] by {
                    if j < k {
                        let i0 = choose|i: int| 0 <= i < before.len() && before[i].id == ids@[j];
                        assert(peers@[i0] == before[i0]);
                    } else {
                        assert(peers@[before.len() as int].id == ids@[j]);
                    }
                }
            }
            k = k + 1;
        }
        assert(ids@.take(ids@.len() as int) =~= ids@);
        Server { peers, me, last_heartbeat: now }
    }

    /// The ids of the voting peers, in order: where a RequestVote goes.
    pub fn voting_peer_ids(&self) -> (r: Vec<u64>)
        ensures
            r@ == voting_ids(self.peers@),
    {
        let mut r: Vec<u64> = Vec::new();
        let mut i: usize = 0;
        while i < self.peers.len()
            invariant
                i <= self.peers@.len(),
                r@ == voting_ids(self.peers@.take(i as int)),
            decreases self.peers@.len() - i,
        {
            assert(self.peers@.take(i + 1).drop_last() =~= self.peers@.take(i as int));
            if self.peers[i].is_voting() {
                r.push(self.peers[i].id);
            }
            i = i + 1;
        }
        assert(self.peers@.take(self.peers@.len() as int) =~= self.peers@);
        r
    }

    /// Adds a cursor for a member `id` that joins as non-voting, its first
    /// catch-up round starting at `now`.
    pub fn add_non_voting_peer(&mut self, id: u64, now: u64)
        ensures
            final(self).peers@ == old(self).peers@.push(
                PeerHandle {
                    id,
                    next_index: 1,
                    match_index: 0,
                    state: PeerState::NonVoting(0, now),
                },
            ),
            final(self).me == old(self).me,
            final(self).last_heartbeat == old(self).last_heartbeat,
    {
        self.peers.push(PeerHandle::new(id, true, now));
    }

    /// Drops every cursor of peer `id`, keeping the others in order.
    pub fn remove_peer(&mut self, id: u64)
        ensures
            final(self).peers@ == without_peer(old(self).peers@, id),
            final(self).me == old(self).me,
            final(self).last_heartbeat == old(self).last_heartbeat,
    {
        let mut kept: Vec<PeerHandle> = Vec::new();
        let mut i: usize = 0;
        while i < self.peers.len()
            invariant
                i <= self.peers@.len(),
                self.peers@ == old(self).peers@,
                kept@ == without_peer(self.peers@.take(i as int), id),
            decreases self.peers@.len() - i,
        {
            assert(self.peers@.take(i + 1).drop_last() =~= self.peers@.take(i as int));
            if self.peers[i].id != id {
                kept.push(self.peers[i]);
            }
            i = i + 1;
        }
        assert(self.peers@.take(self.peers@.len() as int) =~= self.peers@);
        self.peers = kept;
    }

    /// How long the coordinator may wait at `now` before it must act, in
    /// milliseconds.
    pub fn next_wakeup(&self, state: &ServerState, now: u64) -> (r: u64)
        ensures
            r == wakeup_after(*state, self.last_heartbeat, now),
    {
        match state.current_state {
            State::LEADER => {
                let since = if now > self.last_heartbeat {
                    now - self.last_heartbeat
                } else {
                    0
                };
                if HEARTBEAT_INTERVAL > since {
                    HEARTBEAT_INTERVAL - since
                } else {
                    0
                }
            },
            State::FOLLOWER => {
                let contact = state.last_leader_contact;
                let timeout = state.election_timeout;
                if now >= contact {
                    let elapsed = now - contact;
                    if elapsed >= timeout {
                        0
                    } else {
                        timeout - elapsed
                    }
                } else {
                    let ahead = contact - now;
                    if ahead <= u64::MAX - timeout {
                        ahead + timeout
                    } else {
                        u64::MAX
                    }
                }
            },
            State::CANDIDATE => 0,
        }
    }

    /// The match indices of the voting cohort, the leader's own last index
    /// first.
    fn cohort_indices(&self, last_index: usize) -> (r: Vec<usize>)
        ensures
            r@ == cohort_match_indices(self.peers@, last_index),
    {
        let mut r: Vec<usize> = Vec::new();
        r.push(last_index);
        let mut i: usize = 0;
        while i < self.peers.len()
            invariant
                i <= self.peers@.len(),
                r@ == seq![last_index].add(voting_match_indices(self.peers@.take(i as int))),
            decreases self.peers@.len() - i,
        {
            assert(self.peers@.take(i + 1).drop_last() =~= self.peers@.take(i as int));
            if self.peers[i].is_voting() {
                r.push(self.peers[i].match_index);
            }
            i = i + 1;
            assert(r@ =~= seq![last_index].add(voting_match_indices(self.peers@.take(i as int))));
        }
        assert(self.peers@.take(self.peers@.len() as int) =~= self.peers@);
        r
    }

    /// Number of voting peers.
    pub fn num_voting_peers(&self) -> (r: usize)
        ensures
            r == voting_count(self.peers@),
    {
        let v = self.cohort_indices(0);
        v.len() - 1
    }

    /// Advances the commit index to the index that a majority of the voting
    /// cohort (this leader included) has replicated, if that is higher and
    /// the entry there is of the current term.
    pub fn update_commit_index(&self, state: &mut ServerState, log: &MemoryLog)
        ensures
            final(state)@ == (ReplicaView {
                commit_index: advanced_commit(
                    old(state).commit_index,
                    quorum_index_of(cohort_match_indices(self.peers@, log@.len() as usize)),
                    log@,
                    old(state).current_term,
                ),
                ..old(state)@
            }),
            final(state).commit_index >= old(state).commit_index,
            final(state).last_leader_contact == old(state).last_leader_contact,
            final(state).leader_hint == old(state).leader_hint,
            final(state).election_timeout == old(state).election_timeout,
    {
        let ms = self.cohort_indices(log.get_last_entry_index());
        let m = quorum_index(&ms);
        if m > state.commit_index {
            match log.term_at(m) {
                Some(t) => {
                    if t == state.current_term {
                        state.commit_index = m;
                    }
                },
                None => {},
            }
        }
    }

    /// Builds the AppendEntries request for every peer, in the order of
    /// `peers`, after bringing each next index into `[1, last_index + 1]`;
    /// records `now` as the time of the last heartbeat.
    pub fn send_append_entries(&mut self, state: &ServerState, log: &MemoryLog, now: u64) -> (r: Vec<
        AppendEntriesMessage,
    >)
        ensures
            final(self).me == old(self).me,
            final(self).last_heartbeat == now,
            final(self).peers@.len() == old(self).peers@.len(),
            r@.len() == old(self).peers@.len(),
            forall|i: int|
                0 <= i < r@.len() ==> {
                    let p = #[trigger] final(self).peers@[i];
                    let q = old(self).peers@[i];
                    &&& p.id == q.id
                    &&& p.match_index == q.match_index
                    &&& p.state == q.state
                    &&& p.next_index == clamp_next(q.next_index, log@.len() as usize)
                    &&& append_entries_for(
                        r@[i],
                        p.next_index,
                        old(self).me,
                        state.commit_index,
                        state.current_term,
                        log@,
                    )
                },
    {
        log.note_wf();
        let last = log.get_last_entry_index();
        let mut r: Vec<AppendEntriesMessage> = Vec::new();
        let mut i: usize = 0;
        let ghost before = self.peers@;
        while i < self.peers.len()
            invariant
                self.me == old(self).me,
                before == old(self).peers@,
                last == log@.len(),
                last < usize::MAX,
                i <= self.peers@.len(),
                self.peers@.len() == before.len(),
                r@.len() == i,
                forall|k: int| i <= k < before.len() ==> #[trigger] self.peers@[k] == before[k],
                forall|k: int|
                    0 <= k < i ==> {
                        let p = #[trigger] self.peers@[k];
                        let q = before[k];
                        &&& p.id == q.id
                        &&& p.match_index == q.match_index
                        &&& p.state == q.state
                        &&& p.next_index == clamp_next(q.next_index, last)
                        &&& append_entries_for(
                            r@[k],
                            p.next_index,
                            self.me,
                            state.commit_index,
                            state.current_term,
                            log@,
                        )
                    },
            decreases before.len() - i,
        {
            let mut p = self.peers[i];
            if p.next_index < 1 {
                p.next_index = 1;
            } else if p.next_index > last + 1 {
                p.next_index = last + 1;
            }
            let m = p.append_entries_nonblocking(
                self.me,
                state.commit_index,
                state.current_term,
                log,
            );
            self.peers.set(i, p);
            r.push(m);
            i = i + 1;
        }
        self.last_heartbeat = now;
        r
    }

    /// Takes leadership after winning the election of the current term: every
    /// peer's next index becomes `last_index + 1` and its match index 0.
    pub fn become_leader(&mut self, state: &mut ServerState, log: &MemoryLog)
        requires
            old(state).current_state == State::CANDIDATE,
        ensures
            final(state)@ == (ReplicaView { role: State::LEADER, ..old(state)@ }),
            final(state).last_leader_contact == old(state).last_leader_contact,
            final(state).leader_hint == old(state).leader_hint,
            final(state).election_timeout == old(state).election_timeout,
            final(self).me == old(self).me,
            final(self).last_heartbeat == old(self).last_heartbeat,
            final(self).peers@.len() == old(self).peers@.len(),
            forall|i: int|
                0 <= i < final(self).peers@.len() ==> {
                    let p = #[trigger] final(self).peers@[i];
                    let q = old(self).peers@[i];
                    &&& p.id == q.id
                    &&& p.state == q.state
                    &&& p.next_index == log@.len() + 1
                    &&& p.match_index == 0
                },
    {
        log.note_wf();
        state.transition_to_leader();
        let next = log.get_last_entry_index() + 1;
        let mut i: usize = 0;
        let ghost before = self.peers@;
        while i < self.peers.len()
            invariant
                self.me == old(self).me,
                self.last_heartbeat == old(self).last_heartbeat,
                before == old(self).peers@,
                next == log@.len() + 1,
                i <= self.peers@.len(),
                self.peers@.len() == before.len(),
                forall|k: int| i <= k < before.len() ==> #[trigger] self.peers@[k] == before[k],
                forall|k: int|
                    0 <= k < i ==> {
                        let p = #[trigger] self.peers@[k];
                        let q = before[k];
                        &&& p.id == q.id
                        &&& p.state == q.state
                        &&& p.next_index == next
                        &&& p.match_index == 0
                    },
            decreases before.len() - i,
        {
            let mut p = self.peers[i];
            p.next_index = next;
            p.match_index = 0;
            self.peers.set(i, p);
            i = i + 1;
        }
    }

    /// The position of peer `id` among the peers, if it is one.
    pub fn get_peer_position(&self, id: u64) -> (r: Option<usize>)
        ensures
            r is Some ==> r.unwrap() < self.peers@.len() && self.peers@[r.unwrap() as int].id == id,
            r is Some ==> forall|k: int| 0 <= k < r.unwrap() ==> #[trigger] self.peers@[k].id != id,
            r is None ==> forall|i: int| 0 <= i < self.peers@.len() ==> #[trigger] self.peers@[i].id != id,
    {
        let mut i: usize = 0;
        while i < self.peers.len()
            invariant
                i <= self.peers@.len(),
                forall|k: int| 0 <= k < i ==> #[trigger] self.peers@[k].id != id,
            decreases self.peers@.len() - i,
        {
            if self.peers[i].id == id {
                return Some(i);
            }
            i = i + 1;
        }
        None
    }
    /// Handles a peer's AppendEntries report as leader at time `now`. A
    /// higher term makes this replica a follower of that term. A report in
    /// the current term moves the peer's cursor: on success its match index
    /// becomes the reported index and its next index the one after, then the
    /// commit index advances and a non-voting peer's round advances, whose
    /// outcome is returned; on failure its next index backs off by one, to no
    /// less than 1. Stale reports, reports of unknown peers, reports received
    /// when not leader, and successes past the end of the log change nothing.
    pub fn handle_append_entries_reply(
        &mut self,
        state: &mut ServerState,
        log: &MemoryLog,
        reply: &AppendEntriesReply,
        now: u64,
    ) -> (r: Option<NonVotingPeerState>)
        ensures
            final(self).me == old(self).me,
            final(self).last_heartbeat == old(self).last_heartbeat,
            final(self).peers@.len() == old(self).peers@.len(),
            final(state).current_term >= old(state).current_term,
            final(state).commit_index >= old(state).commit_index,
            reply.term > old(state).current_term ==> {
                &&& final(state)@ == follower_in(old(state)@, reply.term)
                &&& final(self).peers@ == old(self).peers@
                &&& r is None
            },
            reply.term <= old(state).current_term ==> final(state).current_term == old(
                state,
            ).current_term && final(state).voted_for == old(state).voted_for
                && final(state).current_state == old(state).current_state,
            ({
                let handled = reply.term == old(state).current_term && old(state).current_state
                    == State::LEADER && exists|i: int|
                    0 <= i < old(self).peers@.len() && #[trigger] old(self).peers@[i].id
                        == reply.peer;
                !handled || (reply.success && reply.commit_index > log@.len()) ==> {
                    &&& final(self).peers@ == old(self).peers@
                    &&& r is None
                    &&& reply.term <= old(state).current_term ==> final(state)@ == old(state)@
                }
            }),
            forall|i: int|
                0 <= i < old(self).peers@.len() && reply.term == old(state).current_term
                    && old(state).current_state == State::LEADER && #[trigger] old(
                    self,
                ).peers@[i].id == reply.peer && (forall|k: int|
                    0 <= k < i ==> old(self).peers@[k].id != reply.peer) ==> {
                    let q = old(self).peers@[i];
                    let p = final(self).peers@[i];
                    &&& forall|k: int|
                        0 <= k < old(self).peers@.len() && k != i ==> final(self).peers@[k]
                            == old(self).peers@[k]
                    &&& p.id == q.id
                    &&& reply.success && reply.commit_index <= log@.len() ==> {
                        &&& final(state)@ == (ReplicaView {
                            commit_index: advanced_commit(
                                old(state).commit_index,
                                quorum_index_of(
                                    cohort_match_indices(
                                        old(self).peers@.update(
                                            i,
                                            PeerHandle {
                                                match_index: reply.commit_index,
                                                next_index: (reply.commit_index + 1) as usize,
                                                ..q
                                            },
                                        ),
                                        log@.len() as usize,
                                    ),
                                ),
                                log@,
                                old(state).current_term,
                            ),
                            ..old(state)@
                        })
                        &&& p.match_index == reply.commit_index
                        &&& p.next_index == reply.commit_index + 1
                        &&& (p.state, r.unwrap()) == round_outcome(
                            q.state,
                            p.next_index,
                            log@.len() as usize,
                            now,
                        )
                        &&& r is Some
                    }
                    &&& !reply.success ==> {
                        &&& p.match_index == q.match_index
                        &&& p.state == q.state
                        &&& p.next_index == if q.next_index > 1 {
                            (q.next_index - 1) as usize
                        } else {
                            1
                        }
                        &&& r is None
                        &&& final(state)@ == old(state)@
                    }
                },
    {
        log.note_wf();
        if reply.term > state.current_term {
            state.transition_to_follower(reply.term);
            return None;
        }
        if reply.term < state.current_term || state.current_state != State::LEADER {
            return None;
        }
        let pos = match self.get_peer_position(reply.peer) {
            Some(i) => i,
            None => {
                return None;
            },
        };
        let last = log.get_last_entry_index();
        let mut p = self.peers[pos];
        if reply.success {
            if reply.commit_index > last {
                return None;
            }
            p.match_index = reply.commit_index;
            p.next_index = reply.commit_index + 1;
            self.peers.set(pos, p);
            self.update_commit_index(state, log);
            let mut p2 = self.peers[pos];
            let outcome = p2.advance_non_voting_peer_round(last, now);
            self.peers.set(pos, p2);
            Some(outcome)
        } else {
            if p.next_index > 1 {
                p.next_index = p.next_index - 1;
            } else {
                p.next_index = 1;
            }
            self.peers.set(pos, p);
            None
        }
    }

    /// Starts an election at time `now`, unless this replica leads, or
    /// follows and has heard from a leader within its election timeout.
    /// Otherwise it becomes a candidate of the next term, voting for
    /// itself, and returns the election, which is given up at `now` plus the
    /// freshly drawn timeout, with the RequestVote to send to every voting
    /// peer.
    pub fn start_election(&self, state: &mut ServerState, log: &MemoryLog, now: u64) -> (r: Option<
        (Election, RequestVoteMessage),
    >)
        requires
            old(state).current_term < u64::MAX,
        ensures
            ({
                let starts = old(state).current_state == State::CANDIDATE || (old(state).current_state
                    == State::FOLLOWER && now >= old(state).last_leader_contact && now - old(
                    state,
                ).last_leader_contact >= old(state).election_timeout);
                &&& r is Some <==> starts
                &&& !starts ==> *final(state) == *old(state)
                &&& starts ==> {
                    let (e, m) = r.unwrap();
                    &&& final(state)@ == (ReplicaView {
                        role: State::CANDIDATE,
                        term: (old(state).current_term + 1) as u64,
                        voted_for: Some(self.me),
                        commit_index: old(state).commit_index,
                    })
                    &&& final(state).last_leader_contact == old(state).last_leader_contact
                    &&& final(state).leader_hint == old(state).leader_hint
                    &&& ELECTION_TIMEOUT_MIN <= final(state).election_timeout < ELECTION_TIMEOUT_MAX
                    &&& e.term == final(state).current_term
                    &&& e.votes@.len() == 0
                    &&& e.deadline == if now + final(state).election_timeout <= u64::MAX {
                        (now + final(state).election_timeout) as u64
                    } else {
                        u64::MAX
                    }
                    &&& m == RequestVoteMessage {
                        term: final(state).current_term,
                        candidate_id: self.me,
                        last_log_index: log@.len() as usize,
                        last_log_term: crate::log::last_term(log@),
                    }
                }
            }),
    {
        if state.current_state == State::LEADER {
            return None;
        }
        if state.current_state == State::FOLLOWER && !state.has_election_timeout_occured(now) {
            return None;
        }
        let (last_log_term, last_log_index) = state.transition_to_candidate(self.me, log);
        let deadline = if now <= u64::MAX - state.election_timeout {
            now + state.election_timeout
        } else {
            u64::MAX
        };
        let election = Election { term: state.current_term, deadline, votes: Vec::new() };
        let message = RequestVoteMessage {
            term: state.current_term,
            candidate_id: self.me,
            last_log_index,
            last_log_term,
        };
        Some((election, message))
    }

    /// Whether peer `id` is one of the peers and counts toward quorum.
    pub fn is_voting_peer(&self, id: u64) -> (r: bool)
        ensures
            r == is_voting_peer(self.peers@, id),
    {
        let mut i: usize = 0;
        while i < self.peers.len()
            invariant
                i <= self.peers@.len(),
                forall|k: int|
                    0 <= k < i ==> !(#[trigger] self.peers@[k].id == id && self.peers@[k].state
                        == PeerState::Voting),
            decreases self.peers@.len() - i,
        {
            if self.peers[i].id == id && self.peers[i].is_voting() {
                return true;
            }
            i = i + 1;
        }
        false
    }
}

impl Election {
    /// The election is given up at `now`.
    pub fn has_expired(&self, now: u64) -> (r: bool)
        ensures
            r == (now >= self.deadline),
    {
        now >= self.deadline
    }

    /// Whether `id` has granted its vote in this election.
    pub fn has_vote_of(&self, id: u64) -> (r: bool)
        ensures
            r == self.votes@.contains(id),
    {
        let mut i: usize = 0;
        while i < self.votes.len()
            invariant
                i <= self.votes@.len(),
                forall|k: int| 0 <= k < i ==> self.votes@[k] != id,
            decreases self.votes@.len() - i,
        {
            if self.votes[i] == id {
                assert(self.votes@[i as int] == id);
                return true;
            }
            i = i + 1;
        }
        false
    }

    /// Counts a RequestVote reply. The election is lost once the replica is
    /// no longer the candidate of this term, or when the reply shows a higher
    /// term, which makes it a follower of that term. A vote granted in this
    /// term by a voting peer not yet counted is added; the election is won,
    /// and the replica leads, once the candidate and its votes are a strict
    /// majority of the voting cohort.
    pub fn record_vote(
        &mut self,
        server: &mut Server,
        state: &mut ServerState,
        log: &MemoryLog,
        reply: &RequestVoteReply,
    ) -> (r: ElectionOutcome)
        ensures
            final(self).term == old(self).term,
            final(self).deadline == old(self).deadline,
            old(self).votes@.no_duplicates() ==> final(self).votes@.no_duplicates(),
            final(state).current_term >= old(state).current_term,
            final(state).commit_index == old(state).commit_index,
            final(server).me == old(server).me,
            r != ElectionOutcome::Won ==> final(server).peers@ == old(server).peers@,
            r == ElectionOutcome::Won ==> final(server).peers@.len() == old(server).peers@.len(),
            r == ElectionOutcome::Won ==> forall|i: int|
                0 <= i < final(server).peers@.len() ==> {
                    let p = #[trigger] final(server).peers@[i];
                    let q = old(server).peers@[i];
                    &&& p.id == q.id
                    &&& p.state == q.state
                    &&& p.next_index == log@.len() + 1
                    &&& p.match_index == 0
                },
            ({
                let active = old(state).current_term == old(self).term && old(state).current_state
                    == State::CANDIDATE;
                let counted = active && reply.term == old(self).term && reply.vote_granted
                    && is_voting_peer(old(server).peers@, reply.peer) && !old(
                    self,
                ).votes@.contains(reply.peer);
                &&& !active && reply.term <= old(state).current_term ==> r == ElectionOutcome::Lost
                    && final(state)@ == old(state)@
                &&& reply.term > old(state).current_term ==> r == ElectionOutcome::Lost
                    && final(state)@ == follower_in(old(state)@, reply.term)
                &&& final(self).votes@ == if counted {
                    old(self).votes@.push(reply.peer)
                } else {
                    old(self).votes@
                }
                &&& active && reply.term <= old(state).current_term ==> {
                    &&& (r == ElectionOutcome::Won) == wins_election(
                        final(self).votes@.len(),
                        voting_count(old(server).peers@),
                    )
                    &&& r != ElectionOutcome::Lost
                    &&& r == ElectionOutcome::Won ==> final(state)@ == (ReplicaView {
                        role: State::LEADER,
                        ..old(state)@
                    })
                    &&& r == ElectionOutcome::Pending ==> final(state)@ == old(state)@
                }
            }),
    {
        if reply.term > state.current_term {
            state.transition_to_follower(reply.term);
            return ElectionOutcome::Lost;
        }
        if state.current_term != self.term || state.current_state != State::CANDIDATE {
            return ElectionOutcome::Lost;
        }
        if reply.term == self.term && reply.vote_granted && server.is_voting_peer(reply.peer)
            && !self.has_vote_of(reply.peer) {
            self.votes.push(reply.peer);
        }
        let voting = server.num_voting_peers();
        let votes = self.votes.len();
        if votes >= voting || votes >= voting - votes {
            server.become_leader(state, log);
            ElectionOutcome::Won
        } else {
            ElectionOutcome::Pending
        }
    }
}

} // verus!
