use vstd::prelude::*;

use crate::event::{
    copy_event, in_range, lemma_text_le_antisym, lemma_text_le_refl, lemma_text_le_total,
    lemma_text_le_trans, sorted_by_start, text_le, timestamp_le, validate_title, Event,
    Operation, StoreError,
};

verus! {

/// Events whose ids are pairwise distinct.
pub open spec fn unique_ids(s: Seq<Event>) -> bool {
    forall|i: int, j: int| 0 <= i < s.len() && 0 <= j < s.len() && i != j ==> s[i].id != s[j].id
}

/// The events of `s` that start inside `[lo, hi]`, in the order of `s`.
pub open spec fn range_of(s: Seq<Event>, lo: Seq<char>, hi: Seq<char>) -> Seq<Event> {
    s.filter(|e: Event| in_range(e, lo, hi))
}

/// The events of `s` other than the one with the given id.
pub open spec fn without_id(s: Seq<Event>, id: i64) -> Seq<Event> {
    s.filter(|e: Event| e.id != id)
}

/// Where a new event starting at `t` goes: just after the last event,
/// counted from the back, that starts no later than `t`.
pub open spec fn slot(s: Seq<Event>, t: Seq<char>) -> int
    decreases s.len(),
{
    if s.len() == 0 {
        0
    } else if text_le(s.last().start_time@, t) {
        s.len() as int
    } else {
        slot(s.drop_last(), t)
    }
}

/// A slot lies within the sequence or just past its end.
pub proof fn lemma_slot_bounds(s: Seq<Event>, t: Seq<char>)
    ensures
        0 <= slot(s, t) <= s.len(),
    decreases s.len(),
{
    if s.len() > 0 {
        lemma_slot_bounds(s.drop_last(), t);
    }
}

/// What a filter keeps comes from the input, in order: so it stays sorted
/// by start and keeps its ids distinct.
pub proof fn lemma_filter_keeps(s: Seq<Event>, p: spec_fn(Event) -> bool)
    ensures
        forall|i: int| 0 <= i < s.filter(p).len() ==> s.contains(#[trigger] s.filter(p)[i]),
        forall|i: int| 0 <= i < s.filter(p).len() ==> p(#[trigger] s.filter(p)[i]),
        sorted_by_start(s) ==> sorted_by_start(s.filter(p)),
        unique_ids(s) ==> unique_ids(s.filter(p)),
    decreases s.len(),
{
    reveal(Seq::filter);
    if s.len() > 0 {
        let d = s.drop_last();
        lemma_filter_keeps(d, p);
        let fd = d.filter(p);
        assert forall|i: int| 0 <= i < fd.len() implies s.contains(#[trigger] fd[i]) by {
            let k = choose|k: int| 0 <= k < d.len() && d[k] == fd[i];
            assert(s[k] == fd[i]);
        }
        if sorted_by_start(s) {
            assert(sorted_by_start(d));
            if p(s.last()) {
                let f = fd.push(s.last());
                assert forall|i: int, j: int| 0 <= i < j < f.len() implies #[trigger] text_le(
                    f[i].start_time@,
                    f[j].start_time@,
                ) by {
                    if j == f.len() - 1 {
                        let k = choose|k: int| 0 <= k < d.len() && d[k] == fd[i];
                        assert(text_le(s[k].start_time@, s[s.len() - 1].start_time@));
                    } else {
                        assert(f[i] == fd[i] && f[j] == fd[j]);
                    }
                }
            }
        }
        if unique_ids(s) {
            assert(unique_ids(d));
            if p(s.last()) {
                let f = fd.push(s.last());
                assert forall|i: int, j: int|
                    0 <= i < f.len() && 0 <= j < f.len() && i != j implies f[i].id != f[j].id by {
                    if j == f.len() - 1 {
                        let k = choose|k: int| 0 <= k < d.len() && d[k] == fd[i];
                        assert(s[k].id != s[s.len() - 1].id);
                    } else if i == f.len() - 1 {
                        let k = choose|k: int| 0 <= k < d.len() && d[k] == fd[j];
                        assert(s[k].id != s[s.len() - 1].id);
                    } else {
                        assert(f[i] == fd[i] && f[j] == fd[j]);
                    }
                }
            }
        }
    }
}

/// Every event starts inside `[lo, hi]`.
pub open spec fn all_in_range(s: Seq<Event>, lo: Seq<char>, hi: Seq<char>) -> bool {
    forall|i: int| 0 <= i < s.len() ==> in_range(#[trigger] s[i], lo, hi)
}

/// Accepts the rows that a storage backend answered to a range query over
/// `[lo, hi]`, holding them to the query's contract: every row starts inside
/// the window and the rows come in start order. Rows that break it are
/// refused as a storage failure of the query.
pub fn accept_range(rows: Vec<Event>, lo: &str, hi: &str) -> (r: Result<Vec<Event>, StoreError>)
    ensures
        r == (if all_in_range(rows@, lo@, hi@) && sorted_by_start(rows@) {
            Ok::<Vec<Event>, StoreError>(rows)
        } else {
            Err::<Vec<Event>, StoreError>(StoreError::Storage { op: Operation::GetRange })
        }),
{
    let mut i: usize = 0;
    while i < rows.len()
        invariant
            i <= rows@.len(),
            all_in_range(rows@.subrange(0, i as int), lo@, hi@),
            sorted_by_start(rows@.subrange(0, i as int)),
        decreases rows@.len() - i,
    {
        let st = rows[i].start_time.as_str();
        if !(timestamp_le(lo, st) && timestamp_le(st, hi)) {
            assert(!in_range(rows@[i as int], lo@, hi@));
            return Err(StoreError::Storage { op: Operation::GetRange });
        }
        if i > 0 && !timestamp_le(rows[i - 1].start_time.as_str(), st) {
            assert(!text_le(rows@[i - 1].start_time@, rows@[i as int].start_time@));
            return Err(StoreError::Storage { op: Operation::GetRange });
        }
        proof {
            let a = rows@.subrange(0, i as int);
            let b = rows@.subrange(0, i + 1);
            assert forall|j: int| 0 <= j < b.len() implies in_range(#[trigger] b[j], lo@, hi@) by {
                if j < i {
                    assert(b[j] == a[j]);
                }
            }
            assert forall|j: int, k: int| 0 <= j < k < b.len() implies #[trigger] text_le(
                b[j].start_time@,
                b[k].start_time@,
            ) by {
                if k < i {
                    assert(b[j] == a[j] && b[k] == a[k]);
                } else if j < i - 1 {
                    assert(b[j] == a[j] && a[i - 1] == rows@[i - 1]);
                    assert(text_le(a[j].start_time@, a[i - 1].start_time@));
                    lemma_text_le_trans(b[j].start_time@, rows@[i - 1].start_time@, b[k].start_time@);
                }
            }
        }
        i = i + 1;
    }
    assert(rows@.subrange(0, i as int) =~= rows@);
    Ok(rows)
}

/// A store of calendar events held in memory.
///
/// Events are kept sorted by start time, equal starts in the order they were
/// created. Ids are handed out in increasing order and never reused.
pub struct EventStore {
    events: Vec<Event>,
    next_id: i64,
}

impl EventStore {
    /// The events held, in start order.
    pub closed spec fn contents(&self) -> Seq<Event> {
        self.events@
    }

    /// The id that the next created event gets.
    pub closed spec fn next_id_spec(&self) -> i64 {
        self.next_id
    }

    pub closed spec fn wf(&self) -> bool {
        &&& sorted_by_start(self.events@)
        &&& unique_ids(self.events@)
        &&& 1 <= self.next_id
        &&& forall|i: int| 0 <= i < self.events@.len() ==> 1 <= #[trigger] self.events@[i].id < self.next_id
    }

    /// The ids of the events held are distinct.
    pub proof fn lemma_wf_unique(&self)
        requires
            self.wf(),
        ensures
            unique_ids(self.contents()),
    {
    }

    /// An empty store; the first event created gets id 1.
    pub fn new() -> (r: EventStore)
        ensures
            r.wf(),
            r.contents() == Seq::<Event>::empty(),
            r.next_id_spec() == 1,
    {
        EventStore { events: Vec::new(), next_id: 1 }
    }

    /// Adds an event and returns the id it was given.
    ///
    /// An empty title is refused with `Validation`. Once every id has been
    /// handed out the store refuses with a storage error. Otherwise the event
    /// takes its place in start order, after every event that starts no later.
    pub fn create(
        &mut self,
        title: String,
        description: Option<String>,
        start: String,
        end: String,
    ) -> (r: Result<i64, StoreError>)
        requires
            old(self).wf(),
        ensures
            final(self).wf(),
            title@.len() == 0 ==> r == Err::<i64, StoreError>(StoreError::Validation),
            title@.len() > 0 && old(self).next_id_spec() == i64::MAX ==> r == Err::<i64, StoreError>(
                StoreError::Storage { op: Operation::Create },
            ),
            r is Err ==> *final(self) == *old(self),
            title@.len() > 0 && old(self).next_id_spec() < i64::MAX ==> {
                &&& r == Ok::<i64, StoreError>(old(self).next_id_spec())
                &&& final(self).next_id_spec() == old(self).next_id_spec() + 1
                &&& final(self).contents() == old(self).contents().insert(
                    slot(old(self).contents(), start@),
                    Event { id: old(self).next_id_spec(), title, description, start_time: start, end_time: end },
                )
            },
    {
        match validate_title(title.as_str()) {
            Err(e) => { return Err(e); },
            Ok(()) => {},
        }
        if self.next_id == i64::MAX {
            return Err(StoreError::Storage { op: Operation::Create });
        }
        let ghost s = self.events@;
        let mut k: usize = self.events.len();
        assert(s.subrange(0, k as int) =~= s);
        while k > 0 && !timestamp_le(self.events[k - 1].start_time.as_str(), start.as_str())
            invariant
                self.events@ == s,
                k <= s.len(),
                slot(s, start@) == slot(s.subrange(0, k as int), start@),
                forall|j: int| k <= j < s.len() ==> !text_le(#[trigger] s[j].start_time@, start@),
            decreases k,
        {
            assert(s.subrange(0, k as int).drop_last() =~= s.subrange(0, k - 1));
            k = k - 1;
        }
        proof {
            if k > 0 {
                assert(text_le(s[k - 1].start_time@, start@));
                assert(s.subrange(0, k as int).last() == s[k - 1]);
            }
        }
        let id = self.next_id;
        let ev = Event { id, title, description, start_time: start, end_time: end };
        proof {
            let t = ev.start_time@;
            assert forall|i: int| 0 <= i < k implies text_le(#[trigger] s[i].start_time@, t) by {
                if i < k - 1 {
                    assert(text_le(s[i].start_time@, s[k - 1].start_time@));
                    lemma_text_le_trans(s[i].start_time@, s[k - 1].start_time@, t);
                }
            }
            assert forall|j: int| k <= j < s.len() implies text_le(t, #[trigger] s[j].start_time@) by {
                lemma_text_le_total(t, s[j].start_time@);
            }
        }
        self.events.insert(k, ev);
        self.next_id = id + 1;
        proof {
            let n = self.events@;
            let t = start@;
            assert(n == s.insert(k as int, ev));
            assert forall|i: int, j: int| 0 <= i < j < n.len() implies #[trigger] text_le(
                n[i].start_time@,
                n[j].start_time@,
            ) by {
                if j < k {
                    assert(n[i] == s[i] && n[j] == s[j]);
                } else if j == k {
                    assert(n[i] == s[i]);
                } else if i == k {
                    assert(n[j] == s[j - 1]);
                } else if i < k {
                    assert(n[i] == s[i] && n[j] == s[j - 1]);
                    assert(text_le(s[i].start_time@, t));
                    assert(text_le(t, s[j - 1].start_time@));
                    lemma_text_le_trans(s[i].start_time@, t, s[j - 1].start_time@);
                } else {
                    assert(n[i] == s[i - 1] && n[j] == s[j - 1]);
                }
            }
            assert forall|i: int, j: int|
                0 <= i < n.len() && 0 <= j < n.len() && i != j implies n[i].id != n[j].id by {
                if i != k && j != k {
                    let a = if i < k { i } else { i - 1 };
                    let b = if j < k { j } else { j - 1 };
                    assert(n[i] == s[a] && n[j] == s[b]);
                } else if i == k {
                    let b = if j < k { j } else { j - 1 };
                    assert(n[j] == s[b]);
                } else {
                    let a = if i < k { i } else { i - 1 };
                    assert(n[i] == s[a]);
                }
            }
            assert forall|i: int| 0 <= i < n.len() implies 1 <= #[trigger] n[i].id < self.next_id by {
                if i < k {
                    assert(n[i] == s[i]);
                } else if i > k {
                    assert(n[i] == s[i - 1]);
                }
            }
        }
        Ok(id)
    }

    /// The events that start inside `[lo, hi]`, both ends included, in start
    /// order.
    pub fn get_range(&self, lo: &str, hi: &str) -> (r: Vec<Event>)
        requires
            self.wf(),
        ensures
            r@ == range_of(self.contents(), lo@, hi@),
    {
        let mut r: Vec<Event> = Vec::new();
        let mut i: usize = 0;
        while i < self.events.len()
            invariant
                i <= self.events@.len(),
                r@ == range_of(self.events@.subrange(0, i as int), lo@, hi@),
            decreases self.events@.len() - i,
        {
            let e = &self.events[i];
            proof {
                let sub = self.events@.subrange(0, i + 1);
                assert(sub.drop_last() =~= self.events@.subrange(0, i as int));
                assert(sub.last() == *e);
                reveal(Seq::filter);
            }
            if timestamp_le(lo, e.start_time.as_str()) && timestamp_le(e.start_time.as_str(), hi) {
                r.push(copy_event(e));
            }
            i = i + 1;
        }
        assert(self.events@.subrange(0, i as int) =~= self.events@);
        r
    }

    /// Removes the event with the given id. Removing an id that is not held
    /// changes nothing and is no error.
    pub fn delete(&mut self, id: i64) -> (r: Result<(), StoreError>)
        requires
            old(self).wf(),
        ensures
            final(self).wf(),
            r == Ok::<(), StoreError>(()),
            final(self).contents() == without_id(old(self).contents(), id),
            final(self).next_id_spec() == old(self).next_id_spec(),
    {
        let ghost s = self.events@;
        let mut kept: Vec<Event> = Vec::new();
        let mut i: usize = 0;
        while i < self.events.len()
            invariant
                self.events@ == s,
                i <= s.len(),
                kept@ == without_id(s.subrange(0, i as int), id),
            decreases s.len() - i,
        {
            let e = &self.events[i];
            proof {
                let sub = s.subrange(0, i + 1);
                assert(sub.drop_last() =~= s.subrange(0, i as int));
                assert(sub.last() == *e);
                reveal(Seq::filter);
            }
            if e.id != id {
                kept.push(copy_event(e));
            }
            i = i + 1;
        }
        assert(s.subrange(0, i as int) =~= s);
        proof {
            lemma_filter_keeps(s, |e: Event| e.id != id);
            let n = kept@;
            assert forall|j: int| 0 <= j < n.len() implies 1 <= #[trigger] n[j].id < self.next_id by {
                assert(s.contains(n[j]));
            }
        }
        self.events = kept;
        Ok(())
    }

    /// Number of events held.
    pub fn len(&self) -> (r: usize)
        ensures
            r == self.contents().len(),
    {
        self.events.len()
    }
}

/// A filter that every element passes hands the sequence back unchanged.
proof fn lemma_filter_all(s: Seq<Event>, p: spec_fn(Event) -> bool)
    requires
        forall|i: int| 0 <= i < s.len() ==> p(#[trigger] s[i]),
    ensures
        s.filter(p) == s,
    decreases s.len(),
{
    reveal(Seq::filter);
    if s.len() > 0 {
        lemma_filter_all(s.drop_last(), p);
        assert(s.drop_last().push(s.last()) =~= s);
    }
}

/// A filter that no element passes leaves nothing.
proof fn lemma_filter_none(s: Seq<Event>, p: spec_fn(Event) -> bool)
    requires
        forall|i: int| 0 <= i < s.len() ==> !p(#[trigger] s[i]),
    ensures
        s.filter(p) == Seq::<Event>::empty(),
{
    lemma_filter_keeps(s, p);
    if s.filter(p).len() > 0 {
        assert(s.contains(s.filter(p)[0]));
    }
    assert(s.filter(p) =~= Seq::<Event>::empty());
}

/// Round trip: right after an event is created, asking for the window that
/// begins and ends at its start time gives back that event alone, provided no
/// other event held starts at that same time.
pub proof fn lemma_create_then_range(
    store: EventStore,
    id: i64,
    title: String,
    description: Option<String>,
    start: String,
    end: String,
)
    requires
        store.wf(),
        forall|i: int|
            0 <= i < store.contents().len() ==> (#[trigger] store.contents()[i]).start_time@ != start@,
    ensures
        ({
            let ev = Event { id, title, description, start_time: start, end_time: end };
            range_of(store.contents().insert(slot(store.contents(), start@), ev), start@, start@)
                == seq![ev]
        }),
{
    let ev = Event { id, title, description, start_time: start, end_time: end };
    let s = store.contents();
    let t = start@;
    let k = slot(s, t);
    lemma_slot_bounds(s, t);
    let p = |e: Event| in_range(e, t, t);
    let a = s.subrange(0, k);
    let b = s.subrange(k, s.len() as int);
    assert(s.insert(k, ev) =~= a + seq![ev] + b);
    assert forall|i: int| 0 <= i < s.len() implies !p(#[trigger] s[i]) by {
        if p(s[i]) {
            lemma_text_le_antisym(t, s[i].start_time@);
        }
    }
    assert forall|i: int| 0 <= i < a.len() implies !p(#[trigger] a[i]) by {
        assert(a[i] == s[i]);
    }
    assert forall|i: int| 0 <= i < b.len() implies !p(#[trigger] b[i]) by {
        assert(b[i] == s[k + i]);
    }
    lemma_filter_none(a, p);
    lemma_filter_none(b, p);
    lemma_text_le_refl(t);
    lemma_filter_all(seq![ev], p);
    Seq::filter_distributes_over_add(a + seq![ev], b, p);
    Seq::filter_distributes_over_add(a, seq![ev], p);
    assert(Seq::<Event>::empty() + seq![ev] + Seq::<Event>::empty() =~= seq![ev]);
}

/// Ordering: whatever events the store holds, a range query hands them back
/// sorted by start time.
pub proof fn lemma_range_sorted(store: EventStore, lo: Seq<char>, hi: Seq<char>)
    requires
        store.wf(),
    ensures
        sorted_by_start(range_of(store.contents(), lo, hi)),
{
    lemma_filter_keeps(store.contents(), |e: Event| in_range(e, lo, hi));
}

/// Deleting an id a second time finds nothing more to remove: the second
/// call, like the first, succeeds, and leaves the events as they were.
pub proof fn lemma_delete_twice(s: Seq<Event>, id: i64)
    ensures
        without_id(without_id(s, id), id) == without_id(s, id),
{
    let p = |e: Event| e.id != id;
    lemma_filter_keeps(s, p);
    lemma_filter_all(s.filter(p), p);
}

/// Closed bounds: an event held whose start equals either end of a window
/// that is not empty is part of that window's result.
pub proof fn lemma_range_bounds(store: EventStore, lo: Seq<char>, hi: Seq<char>, i: int)
    requires
        store.wf(),
        0 <= i < store.contents().len(),
        text_le(lo, hi),
        store.contents()[i].start_time@ == lo || store.contents()[i].start_time@ == hi,
    ensures
        range_of(store.contents(), lo, hi).contains(store.contents()[i]),
{
    lemma_text_le_refl(lo);
    lemma_text_le_refl(hi);
    store.contents().lemma_filter_contains(|e: Event| in_range(e, lo, hi), i);
}

} // verus!
