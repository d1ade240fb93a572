use vstd::prelude::*;

verus! {

/// One record of the replicated log: its 1-based position, the term of the
/// leader that created it, and the client payload.
#[derive(Clone, Debug)]
pub struct Entry {
    pub index: u64,
    pub term: u64,
    pub data: Vec<u8>,
}

/// The mathematical value of an [`Entry`].
pub struct EntryView {
    pub index: u64,
    pub term: u64,
    pub data: Seq<u8>,
}

impl View for Entry {
    type V = EntryView;

    open spec fn view(&self) -> EntryView {
        EntryView { index: self.index, term: self.term, data: self.data@ }
    }
}

/// Copies a byte buffer.
pub fn copy_bytes(b: &Vec<u8>) -> (r: Vec<u8>)
    ensures
        r@ == b@,
{
    let mut r: Vec<u8> = Vec::new();
    let mut i: usize = 0;
    while i < b.len()
        invariant
            i <= b@.len(),
            r@ == b@.take(i as int),
        decreases b@.len() - i,
    {
        r.push(b[i]);
        i = i + 1;
        assert(r@ =~= b@.take(i as int));
    }
    assert(b@.take(b@.len() as int) =~= b@);
    r
}

impl Entry {
    pub fn new(index: u64, term: u64, data: Vec<u8>) -> (r: Entry)
        ensures
            r@ == (EntryView { index, term, data: data@ }),
    {
        Entry { index, term, data }
    }

    /// A copy of this entry with the same index, term and payload.
    pub fn duplicate(&self) -> (r: Entry)
        ensures
            r@ == self@,
    {
        Entry { index: self.index, term: self.term, data: copy_bytes(&self.data) }
    }
}

/// The views of a vector of entries.
pub open spec fn entries_view(v: Seq<Entry>) -> Seq<EntryView> {
    v.map_values(|e: Entry| e@)
}

/// Copies a run of entries, `v[from..]`.
pub fn copy_entries_from(v: &Vec<Entry>, from: usize) -> (r: Vec<Entry>)
    requires
        from <= v@.len(),
    ensures
        entries_view(r@) == entries_view(v@).skip(from as int),
{
    let mut r: Vec<Entry> = Vec::new();
    let mut i: usize = from;
    while i < v.len()
        invariant
            from <= i <= v@.len(),
            entries_view(r@) == entries_view(v@).subrange(from as int, i as int),
        decreases v@.len() - i,
    {
        let e = v[i].duplicate();
        let ghost old_r = r@;
        r.push(e);
        assert(r@ == old_r.push(e));
        assert(entries_view(r@) =~= entries_view(old_r).push(e@));
        i = i + 1;
        assert(entries_view(r@) =~= entries_view(v@).subrange(from as int, i as int));
    }
    assert(entries_view(v@).subrange(from as int, v@.len() as int) =~= entries_view(v@).skip(
        from as int,
    ));
    r
}

/// The term of the last entry, 0 for an empty log.
pub open spec fn last_term(log: Seq<EntryView>) -> u64 {
    if log.len() == 0 {
        0
    } else {
        log.last().term
    }
}

/// The term stored at 1-based `index`. Index 0 stands before the first entry
/// and has term 0; an index past the end has none.
pub open spec fn term_at_index(log: Seq<EntryView>, index: int) -> Option<u64> {
    if index == 0 {
        Some(0u64)
    } else if 1 <= index <= log.len() {
        Some(log[index - 1].term)
    } else {
        None
    }
}

/// Indices are dense from 1 and terms never decrease along the log.
pub open spec fn log_wf(log: Seq<EntryView>) -> bool {
    &&& forall|i: int| 0 <= i < log.len() ==> #[trigger] log[i].index == i + 1
    &&& forall|i: int, j: int| 0 <= i <= j < log.len() ==> #[trigger] log[i].term <= #[trigger] log[j].term
}

/// A block of entries that may follow the entry `(prev_index, prev_term)`:
/// contiguous indices right after `prev_index`, terms non-decreasing and not
/// below `prev_term`.
pub open spec fn block_wf(prev_index: int, prev_term: u64, entries: Seq<EntryView>) -> bool {
    &&& forall|j: int| 0 <= j < entries.len() ==> #[trigger] entries[j].index == prev_index + 1 + j
    &&& forall|i: int, j: int|
        0 <= i <= j < entries.len() ==> #[trigger] entries[i].term <= #[trigger] entries[j].term
    &&& entries.len() > 0 ==> prev_term <= entries[0].term
}

/// Lays `entries` over `log` from 0-based position `pos`: entries whose term
/// already stands at their position are kept as they are; at the first
/// position that is past the end or holds another term, the log is cut and
/// the rest of the block is appended.
pub open spec fn merge(log: Seq<EntryView>, pos: int, entries: Seq<EntryView>) -> Seq<EntryView>
    decreases entries.len(),
{
    if entries.len() == 0 {
        log
    } else if 0 <= pos < log.len() && log[pos].term == entries[0].term {
        merge(log, pos + 1, entries.drop_first())
    } else {
        log.take(pos) + entries
    }
}

/// The log after append-with-truncate, or `None` on a mismatch: the entry at
/// `prev_index` is absent or has another term.
pub open spec fn append_with_truncate_result(
    log: Seq<EntryView>,
    prev_index: int,
    prev_term: u64,
    entries: Seq<EntryView>,
) -> Option<Seq<EntryView>> {
    if term_at_index(log, prev_index) == Some(prev_term) {
        Some(merge(log, prev_index, entries))
    } else {
        None
    }
}

/// `merge` leaves the log as it is when each entry of the block already
/// stands at its position with its term.
pub proof fn lemma_merge_present(log: Seq<EntryView>, pos: int, entries: Seq<EntryView>)
    requires
        0 <= pos,
        pos + entries.len() <= log.len(),
        forall|j: int| 0 <= j < entries.len() ==> #[trigger] log[pos + j].term == entries[j].term,
    ensures
        merge(log, pos, entries) == log,
    decreases entries.len(),
{
    if entries.len() > 0 {
        let rest = entries.drop_first();
        assert forall|j: int| 0 <= j < rest.len() implies #[trigger] log[pos + 1 + j].term
            == rest[j].term by {
            assert(log[pos + (j + 1)].term == entries[j + 1].term);
        }
        assert(log[pos + 0].term == entries[0].term);
        assert(log[pos].term == entries[0].term);
        lemma_merge_present(log, pos + 1, rest);
    }
}

/// After `merge` the prefix before `pos` is unchanged and each entry of the
/// block stands at its position with its term.
pub proof fn lemma_merge_places_block(log: Seq<EntryView>, pos: int, entries: Seq<EntryView>)
    requires
        0 <= pos <= log.len(),
    ensures
        merge(log, pos, entries).len() >= pos + entries.len(),
        merge(log, pos, entries).take(pos) == log.take(pos),
        forall|j: int|
            0 <= j < entries.len() ==> #[trigger] merge(log, pos, entries)[pos + j].term
                == entries[j].term,
    decreases entries.len(),
{
    let r = merge(log, pos, entries);
    if entries.len() == 0 {
    } else if 0 <= pos < log.len() && log[pos].term == entries[0].term {
        let rest = entries.drop_first();
        lemma_merge_places_block(log, pos + 1, rest);
        assert(r.take(pos + 1) == log.take(pos + 1));
        assert(r.take(pos) =~= r.take(pos + 1).take(pos));
        assert(log.take(pos) =~= log.take(pos + 1).take(pos));
        assert(r[pos] == r.take(pos + 1)[pos]);
        assert forall|j: int| 0 <= j < entries.len() implies #[trigger] r[pos + j].term
            == entries[j].term by {
            if j > 0 {
                assert(r[pos + 1 + (j - 1)].term == rest[j - 1].term);
            }
        }
    } else {
        assert(r == log.take(pos) + entries);
        assert(r.take(pos) =~= log.take(pos));
        assert forall|j: int| 0 <= j < entries.len() implies #[trigger] r[pos + j].term
            == entries[j].term by {
            assert(r[pos + j] == entries[j]);
        }
    }
}

/// `merge` keeps a log well formed when the block continues the entry before
/// `pos`.
pub proof fn lemma_merge_wf(log: Seq<EntryView>, pos: int, entries: Seq<EntryView>)
    requires
        log_wf(log),
        0 <= pos <= log.len(),
        forall|j: int| 0 <= j < entries.len() ==> #[trigger] entries[j].index == pos + 1 + j,
        forall|i: int, j: int|
            0 <= i <= j < entries.len() ==> #[trigger] entries[i].term <= #[trigger] entries[j].term,
        pos > 0 && entries.len() > 0 ==> log[pos - 1].term <= entries[0].term,
    ensures
        log_wf(merge(log, pos, entries)),
    decreases entries.len(),
{
    if entries.len() == 0 {
    } else if 0 <= pos < log.len() && log[pos].term == entries[0].term {
        let rest = entries.drop_first();
        assert forall|j: int| 0 <= j < rest.len() implies #[trigger] rest[j].index == pos + 1 + 1
            + j by {
            assert(rest[j] == entries[j + 1]);
        }
        assert forall|i: int, j: int| 0 <= i <= j < rest.len() implies #[trigger] rest[i].term
            <= #[trigger] rest[j].term by {
            assert(rest[i] == entries[i + 1]);
            assert(rest[j] == entries[j + 1]);
        }
        if rest.len() > 0 {
            assert(rest[0] == entries[1]);
            assert(entries[0].term <= entries[1].term);
        }
        lemma_merge_wf(log, pos + 1, rest);
    } else {
        let r = log.take(pos) + entries;
        assert forall|i: int| 0 <= i < r.len() implies #[trigger] r[i].index == i + 1 by {
            if i < pos {
                assert(r[i] == log[i]);
            } else {
                assert(r[i] == entries[i - pos]);
            }
        }
        assert forall|i: int, j: int| 0 <= i <= j < r.len() implies #[trigger] r[i].term
            <= #[trigger] r[j].term by {
            if j < pos {
                assert(r[i] == log[i]);
                assert(r[j] == log[j]);
            } else if i >= pos {
                assert(r[i] == entries[i - pos]);
                assert(r[j] == entries[j - pos]);
            } else {
                assert(r[i] == log[i]);
                assert(r[j] == entries[j - pos]);
                assert(log[i].term <= log[pos - 1].term);
                assert(entries[0].term <= entries[j - pos].term);
            }
        }
    }
}

/// Applying append-with-truncate twice with the same arguments gives the
/// same log as applying it once.
pub proof fn lemma_append_with_truncate_idempotent(
    log: Seq<EntryView>,
    prev_index: int,
    prev_term: u64,
    entries: Seq<EntryView>,
)
    requires
        append_with_truncate_result(log, prev_index, prev_term, entries).is_some(),
    ensures
        append_with_truncate_result(
            append_with_truncate_result(log, prev_index, prev_term, entries).unwrap(),
            prev_index,
            prev_term,
            entries,
        ) == append_with_truncate_result(log, prev_index, prev_term, entries),
{
    let r = merge(log, prev_index, entries);
    lemma_merge_places_block(log, prev_index, entries);
    if prev_index > 0 {
        assert(r[prev_index - 1] == r.take(prev_index)[prev_index - 1]);
        assert(log[prev_index - 1] == log.take(prev_index)[prev_index - 1]);
    }
    assert(term_at_index(r, prev_index) == Some(prev_term));
    lemma_merge_present(r, prev_index, entries);
}

/// Once a block is accepted after `(prev_index, prev_term)`, the log up to
/// the block's end is the log up to `prev_index` followed by the block's
/// terms: two replicas that agree up to `prev_index` and accept the same
/// block agree in term at every index of the block.
pub proof fn lemma_accepted_block_terms(
    log: Seq<EntryView>,
    prev_index: int,
    prev_term: u64,
    entries: Seq<EntryView>,
)
    requires
        append_with_truncate_result(log, prev_index, prev_term, entries).is_some(),
    ensures
        ({
            let r = append_with_truncate_result(log, prev_index, prev_term, entries).unwrap();
            &&& r.take(prev_index) == log.take(prev_index)
            &&& forall|j: int|
                0 <= j < entries.len() ==> term_at_index(r, prev_index + 1 + j) == Some(
                    #[trigger] entries[j].term,
                )
        }),
{
    lemma_merge_places_block(log, prev_index, entries);
    let r = merge(log, prev_index, entries);
    assert forall|j: int| 0 <= j < entries.len() implies term_at_index(r, prev_index + 1 + j)
        == Some(#[trigger] entries[j].term) by {
        assert(r[prev_index + j].term == entries[j].term);
    }
}

/// Log matching, one step: two logs that agree up to `prev_index` and both
/// accept the same block after `(prev_index, prev_term)` still agree up to
/// `prev_index`, and hold the same term at every index of the block.
pub proof fn lemma_log_matching_step(
    a: Seq<EntryView>,
    b: Seq<EntryView>,
    prev_index: int,
    prev_term: u64,
    entries: Seq<EntryView>,
)
    requires
        a.take(prev_index) == b.take(prev_index),
        append_with_truncate_result(a, prev_index, prev_term, entries) is Some,
        append_with_truncate_result(b, prev_index, prev_term, entries) is Some,
    ensures
        ({
            let ra = append_with_truncate_result(a, prev_index, prev_term, entries).unwrap();
            let rb = append_with_truncate_result(b, prev_index, prev_term, entries).unwrap();
            &&& ra.take(prev_index) == rb.take(prev_index)
            &&& forall|i: int|
                prev_index < i <= prev_index + entries.len() ==> #[trigger] term_at_index(ra, i)
                    == term_at_index(rb, i)
        }),
{
    lemma_accepted_block_terms(a, prev_index, prev_term, entries);
    lemma_accepted_block_terms(b, prev_index, prev_term, entries);
    let ra = append_with_truncate_result(a, prev_index, prev_term, entries).unwrap();
    let rb = append_with_truncate_result(b, prev_index, prev_term, entries).unwrap();
    assert forall|i: int| prev_index < i <= prev_index + entries.len() implies #[trigger] term_at_index(
        ra,
        i,
    ) == term_at_index(rb, i) by {
        let j = i - prev_index - 1;
        assert(term_at_index(ra, prev_index + 1 + j) == Some(entries[j].term));
        assert(term_at_index(rb, prev_index + 1 + j) == Some(entries[j].term));
    }
}

/// The log's entries with index at least `index`, in order.
pub open spec fn entries_from(log: Seq<EntryView>, index: int) -> Seq<EntryView> {
    if index <= 1 {
        log
    } else if index > log.len() {
        Seq::empty()
    } else {
        log.skip(index - 1)
    }
}

/// A log ending at `(other_last_index, other_last_term)` is at least as up to
/// date as one ending at `(last_index, last_term)`.
pub open spec fn at_least_as_up_to_date(
    last_index: int,
    last_term: int,
    other_last_index: int,
    other_last_term: int,
) -> bool {
    other_last_term > last_term || (other_last_term == last_term && other_last_index >= last_index)
}

/// Compares two logs by their last entries: true iff the other log's last
/// term is greater, or the last terms are equal and the other log is at
/// least as long.
pub fn log_is_more_up_to_date(
    last_index: usize,
    last_term: u64,
    other_last_index: usize,
    other_last_term: u64,
) -> (r: bool)
    ensures
        r == at_least_as_up_to_date(
            last_index as int,
            last_term as int,
            other_last_index as int,
            other_last_term as int,
        ),
{
    other_last_term > last_term || (other_last_term == last_term && other_last_index >= last_index)
}

/// The entries of a log, in a vector.
struct EntryStore {
    entries: Vec<Entry>,
}

impl View for EntryStore {
    type V = Seq<EntryView>;

    closed spec fn view(&self) -> Seq<EntryView> {
        entries_view(self.entries@)
    }
}

impl EntryStore {
    pub open spec fn wf(&self) -> bool {
        &&& log_wf(self@)
        &&& self@.len() < usize::MAX
    }

    pub fn new() -> (r: EntryStore)
        ensures
            r.wf(),
            r@.len() == 0,
    {
        EntryStore { entries: Vec::new() }
    }

    /// The index of the last entry, 0 when the log is empty.
    pub fn get_last_entry_index(&self) -> (r: usize)
        ensures
            r == self@.len(),
    {
        self.entries.len()
    }

    /// The term of the last entry, 0 when the log is empty.
    pub fn get_last_entry_term(&self) -> (r: u64)
        ensures
            r == last_term(self@),
    {
        let n = self.entries.len();
        if n == 0 {
            0
        } else {
            self.entries[n - 1].term
        }
    }

    /// The entry at 1-based `index`, if there is one.
    pub fn get_entry(&self, index: usize) -> (r: Option<&Entry>)
        ensures
            r.is_some() <==> 1 <= index <= self@.len(),
            r.is_some() ==> r.unwrap()@ == self@[index - 1],
    {
        if 1 <= index && index <= self.entries.len() {
            Some(&self.entries[index - 1])
        } else {
            None
        }
    }

    /// The term at 1-based `index`: 0 at index 0, none past the end.
    pub fn term_at(&self, index: usize) -> (r: Option<u64>)
        ensures
            r == term_at_index(self@, index as int),
    {
        if index == 0 {
            Some(0)
        } else if index <= self.entries.len() {
            Some(self.entries[index - 1].term)
        } else {
            None
        }
    }

    /// Copies of the entries whose index is at least `index`, in order.
    pub fn get_entries_from(&self, index: usize) -> (r: Vec<Entry>)
        ensures
            entries_view(r@) == entries_from(self@, index as int),
    {
        if index <= 1 {
            let r = copy_entries_from(&self.entries, 0);
            assert(entries_view(self.entries@).skip(0) =~= self@);
            r
        } else if index > self.entries.len() {
            let r: Vec<Entry> = Vec::new();
            assert(entries_view(r@) =~= Seq::<EntryView>::empty());
            r
        } else {
            copy_entries_from(&self.entries, index - 1)
        }
    }

    /// Appends a block whose first index is `last_index() + 1`.
    pub fn append_entries(&mut self, entries: &Vec<Entry>)
        requires
            old(self).wf(),
            block_wf(old(self)@.len() as int, last_term(old(self)@), entries_view(entries@)),
            old(self)@.len() + entries@.len() < usize::MAX,
        ensures
            final(self).wf(),
            final(self)@ == old(self)@ + entries_view(entries@),
    {
        let ghost start = self@;
        let ghost e = entries_view(entries@);
        let mut k: usize = 0;
        while k < entries.len()
            invariant
                k <= entries@.len(),
                e == entries_view(entries@),
                self@ == start + e.take(k as int),
                start.len() + e.len() < usize::MAX,
            decreases entries@.len() - k,
        {
            let x = entries[k].duplicate();
            let ghost before = self.entries@;
            self.entries.push(x);
            assert(self.entries@ == before.push(x));
            assert(entries_view(self.entries@) =~= entries_view(before).push(x@));
            k = k + 1;
            assert(self@ =~= start + e.take(k as int));
        }
        assert(e.take(e.len() as int) =~= e);
        proof {
            lemma_merge_wf(start, start.len() as int, e);
            assert(merge(start, start.len() as int, e) == start + e) by {
                if e.len() > 0 {
                    assert(start.take(start.len() as int) =~= start);
                }
            }
        }
    }

    /// Appends `entries` after the entry `(prev_index, prev_term)`, cutting
    /// the log where an entry of the block conflicts with it. Returns false,
    /// leaving the log as it was, on a mismatch at `prev_index`.
    pub fn append_with_truncate(&mut self, prev_index: usize, prev_term: u64, entries: &Vec<Entry>) -> (r: bool)
        requires
            old(self).wf(),
            block_wf(prev_index as int, prev_term, entries_view(entries@)),
            prev_index + entries@.len() < usize::MAX,
        ensures
            final(self).wf(),
            r == append_with_truncate_result(
                old(self)@,
                prev_index as int,
                prev_term,
                entries_view(entries@),
            ).is_some(),
            r ==> final(self)@ == append_with_truncate_result(
                old(self)@,
                prev_index as int,
                prev_term,
                entries_view(entries@),
            ).unwrap(),
            !r ==> final(self)@ == old(self)@,
    {
        match self.term_at(prev_index) {
            Some(t) => {
                if t != prev_term {
                    return false;
                }
            },
            None => {
                return false;
            },
        }
        let ghost start = self@;
        let ghost e = entries_view(entries@);
        let ghost target = merge(start, prev_index as int, e);
        proof {
            lemma_merge_wf(start, prev_index as int, e);
        }
        assert(e.skip(0) =~= e);
        assert(append_with_truncate_result(start, prev_index as int, prev_term, e) == Some(target));
        let mut j: usize = 0;
        while j < entries.len()
            invariant
                self.wf(),
                self@ == start,
                start == old(self)@,
                e == entries_view(entries@),
                j <= e.len(),
                prev_index + j <= start.len(),
                prev_index + e.len() < usize::MAX,
                log_wf(target),
                append_with_truncate_result(start, prev_index as int, prev_term, e) == Some(target),
                target == merge(
                    start,
                    prev_index + j,
                    e.skip(j as int),
                ),
            decreases e.len() - j,
        {
            let pos = prev_index + j;
            if pos < self.entries.len() && self.entries[pos].term == entries[j].term {
                assert(e.skip(j as int).drop_first() =~= e.skip(j + 1));
                j = j + 1;
            } else {
                assert(merge(start, pos as int, e.skip(j as int)) == start.take(pos as int) + e.skip(
                    j as int,
                ));
                self.entries.truncate(pos);
                assert(self@ =~= start.take(pos as int));
                let mut k: usize = j;
                while k < entries.len()
                    invariant
                        j <= k <= e.len(),
                        e == entries_view(entries@),
                        prev_index + e.len() < usize::MAX,
                        pos == prev_index + j,
                        start == old(self)@,
                        self@ == start.take(pos as int) + e.subrange(j as int, k as int),
                        target == start.take(pos as int) + e.skip(j as int),
                        log_wf(target),
                        append_with_truncate_result(start, prev_index as int, prev_term, e) == Some(
                            target,
                        ),
                    decreases e.len() - k,
                {
                    let x = entries[k].duplicate();
                    let ghost before = self.entries@;
                    self.entries.push(x);
                    assert(self.entries@ == before.push(x));
                    assert(entries_view(self.entries@) =~= entries_view(before).push(x@));
                    k = k + 1;
                    assert(self@ =~= start.take(pos as int) + e.subrange(j as int, k as int));
                }
                assert(e.subrange(j as int, e.len() as int) =~= e.skip(j as int));
                return true;
            }
        }
        assert(e.skip(j as int).len() == 0);
        true
    }

    /// True iff a log ending at `(other_last_index, other_last_term)` is at
    /// least as up to date as this one.
    pub fn is_other_log_valid(&self, other_last_index: usize, other_last_term: u64) -> (r: bool)
        ensures
            r == at_least_as_up_to_date(
                self@.len() as int,
                last_term(self@) as int,
                other_last_index as int,
                other_last_term as int,
            ),
    {
        log_is_more_up_to_date(
            self.get_last_entry_index(),
            self.get_last_entry_term(),
            other_last_index,
            other_last_term,
        )
    }
}

/// An in-memory log. It is well formed at all times: indices dense from 1,
/// terms non-decreasing, and room for one more index.
pub struct MemoryLog {
    store: EntryStore,
}

impl View for MemoryLog {
    type V = Seq<EntryView>;

    closed spec fn view(&self) -> Seq<EntryView> {
        self.store@
    }
}

impl MemoryLog {
    #[verifier::type_invariant]
    spec fn inv(self) -> bool {
        self.store.wf()
    }

    /// Indices are dense from 1, terms never decrease, and one more index
    /// fits in a `usize`.
    pub open spec fn wf(&self) -> bool {
        &&& log_wf(self@)
        &&& self@.len() < usize::MAX
    }

    /// Brings into a proof that this log, as every log, is well formed;
    /// does nothing at run time.
    pub fn note_wf(&self)
        ensures
            self.wf(),
    {
        proof {
            use_type_invariant(self);
        }
    }

    pub fn new() -> (r: MemoryLog)
        ensures
            r@.len() == 0,
    {
        MemoryLog { store: EntryStore::new() }
    }

    /// The index of the last entry, 0 when the log is empty.
    pub fn get_last_entry_index(&self) -> (r: usize)
        ensures
            r == self@.len(),
    {
        self.store.get_last_entry_index()
    }

    /// The term of the last entry, 0 when the log is empty.
    pub fn get_last_entry_term(&self) -> (r: u64)
        ensures
            r == last_term(self@),
    {
        self.store.get_last_entry_term()
    }

    /// The entry at 1-based `index`, if there is one.
    pub fn get_entry(&self, index: usize) -> (r: Option<&Entry>)
        ensures
            r.is_some() <==> 1 <= index <= self@.len(),
            r.is_some() ==> r.unwrap()@ == self@[index - 1],
    {
        self.store.get_entry(index)
    }

    /// The term at 1-based `index`: 0 at index 0, none past the end.
    pub fn term_at(&self, index: usize) -> (r: Option<u64>)
        ensures
            r == term_at_index(self@, index as int),
    {
        self.store.term_at(index)
    }

    /// Copies of the entries whose index is at least `index`, in order.
    pub fn get_entries_from(&self, index: usize) -> (r: Vec<Entry>)
        ensures
            entries_view(r@) == entries_from(self@, index as int),
    {
        self.store.get_entries_from(index)
    }

    /// Appends a block whose first index is `last_index() + 1`.
    pub fn append_entries(&mut self, entries: &Vec<Entry>)
        requires
            block_wf(old(self)@.len() as int, last_term(old(self)@), entries_view(entries@)),
            old(self)@.len() + entries@.len() < usize::MAX,
        ensures
            final(self)@ == old(self)@ + entries_view(entries@),
    {
        proof {
            use_type_invariant(&*self);
        }
        let mut store = EntryStore::new();
        std::mem::swap(&mut store, &mut self.store);
        store.append_entries(entries);
        self.store = store;
    }

    /// Appends `entries` after the entry `(prev_index, prev_term)`, cutting
    /// the log where an entry of the block conflicts with it. Returns false,
    /// leaving the log as it was, on a mismatch at `prev_index`.
    pub fn append_with_truncate(&mut self, prev_index: usize, prev_term: u64, entries: &Vec<Entry>) -> (r: bool)
        requires
            block_wf(prev_index as int, prev_term, entries_view(entries@)),
            prev_index + entries@.len() < usize::MAX,
        ensures
            r == append_with_truncate_result(
                old(self)@,
                prev_index as int,
                prev_term,
                entries_view(entries@),
            ).is_some(),
            r ==> final(self)@ == append_with_truncate_result(
                old(self)@,
                prev_index as int,
                prev_term,
                entries_view(entries@),
            ).unwrap(),
            !r ==> final(self)@ == old(self)@,
    {
        proof {
            use_type_invariant(&*self);
        }
        let mut store = EntryStore::new();
        std::mem::swap(&mut store, &mut self.store);
        let r = store.append_with_truncate(prev_index, prev_term, entries);
        self.store = store;
        r
    }

    /// True iff a log ending at `(other_last_index, other_last_term)` is at
    /// least as up to date as this one.
    pub fn is_other_log_valid(&self, other_last_index: usize, other_last_term: u64) -> (r: bool)
        ensures
            r == at_least_as_up_to_date(
                self@.len() as int,
                last_term(self@) as int,
                other_last_index as int,
                other_last_term as int,
            ),
    {
        self.store.is_other_log_valid(other_last_index, other_last_term)
    }
}

} // verus!
