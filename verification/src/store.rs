//! The event store: an ordered sequence of events per thread name, in
//! append order, with the threads themselves kept in the order of their
//! first append.

use vstd::prelude::*;
use crate::event::{EventView, TraceEvent, event_wf};
use crate::strutil::str_eq;

verus! {

/// The index of the entry keyed `th`, or the length when there is none.
pub open spec fn key_idx(s: Seq<(Seq<char>, Seq<EventView>)>, th: Seq<char>) -> int {
    choose|i: int| 0 <= i < s.len() && s[i].0 == th
}

/// Whether some entry is keyed `th`.
pub open spec fn has_key(s: Seq<(Seq<char>, Seq<EventView>)>, th: Seq<char>) -> bool {
    exists|i: int| 0 <= i < s.len() && s[i].0 == th
}

/// The events recorded under `th`, in append order; empty when the
/// thread has recorded nothing.
pub open spec fn events_of(s: Seq<(Seq<char>, Seq<EventView>)>, th: Seq<char>) -> Seq<EventView> {
    if has_key(s, th) {
        s[key_idx(s, th)].1
    } else {
        Seq::empty()
    }
}

/// The store after appending `e` under `th`: the event goes to the tail
/// of the thread's sequence, or opens a fresh entry at the end of the
/// store when the thread is new.
pub open spec fn store_append(
    s: Seq<(Seq<char>, Seq<EventView>)>,
    th: Seq<char>,
    e: EventView,
) -> Seq<(Seq<char>, Seq<EventView>)> {
    if has_key(s, th) {
        s.update(key_idx(s, th), (th, s[key_idx(s, th)].1.push(e)))
    } else {
        s.push((th, seq![e]))
    }
}

/// Every event in the store is well formed.
pub open spec fn store_all_wf(s: Seq<(Seq<char>, Seq<EventView>)>) -> bool {
    forall|i: int, k: int|
        0 <= i < s.len() && 0 <= k < s[i].1.len() ==> event_wf(#[trigger] s[i].1[k])
}

/// No two entries share a key.
pub open spec fn distinct_keys(s: Seq<(Seq<char>, Seq<EventView>)>) -> bool {
    forall|i: int, j: int| 0 <= i < j < s.len() ==> s[i].0 != s[j].0
}

/// Appending a well-formed event keeps every stored event well formed.
pub proof fn lemma_append_all_wf(s: Seq<(Seq<char>, Seq<EventView>)>, th: Seq<char>, e: EventView)
    requires
        store_all_wf(s),
        event_wf(e),
    ensures
        store_all_wf(store_append(s, th, e)),
{
    let s2 = store_append(s, th, e);
    assert forall|i: int, k: int|
        0 <= i < s2.len() && 0 <= k < s2[i].1.len() implies event_wf(#[trigger] s2[i].1[k]) by {
        if has_key(s, th) {
            let j = key_idx(s, th);
            if i == j {
                if k < s[i].1.len() {
                    assert(event_wf(s[i].1[k]));
                }
            } else {
                assert(event_wf(s[i].1[k]));
            }
        } else {
            if i < s.len() {
                assert(event_wf(s[i].1[k]));
            }
        }
    }
}

/// Appending never duplicates a thread key.
pub proof fn lemma_store_append_distinct(
    s: Seq<(Seq<char>, Seq<EventView>)>,
    th: Seq<char>,
    e: EventView,
)
    requires
        distinct_keys(s),
    ensures
        distinct_keys(store_append(s, th, e)),
{
    let s2 = store_append(s, th, e);
    if has_key(s, th) {
        let i = key_idx(s, th);
        assert(0 <= i < s.len() && s[i].0 == th);
        assert forall|p: int, q: int| 0 <= p < q < s2.len() implies s2[p].0 != s2[q].0 by {
            assert(s2[p].0 == s[p].0);
            assert(s2[q].0 == s[q].0);
        }
    } else {
        let n = s.len() as int;
        assert forall|p: int, q: int| 0 <= p < q < s2.len() implies s2[p].0 != s2[q].0 by {
            if q < n {
                assert(s2[p].0 == s[p].0);
                assert(s2[q].0 == s[q].0);
            } else {
                assert(s2[q].0 == th);
                assert(s2[p].0 == s[p].0);
                if s[p].0 == th {
                    assert(has_key(s, th));
                }
            }
        }
    }
}

/// Appending under a thread touches exactly that thread's sequence:
/// the event lands at its tail, and every other thread's sequence is
/// unchanged.
pub proof fn lemma_store_append_events(s: Seq<(Seq<char>, Seq<EventView>)>, th: Seq<char>, e: EventView)
    requires
        distinct_keys(s),
    ensures
        events_of(store_append(s, th, e), th) == events_of(s, th).push(e),
        forall|other: Seq<char>|
            other != th ==> #[trigger] events_of(store_append(s, th, e), other) == events_of(
                s,
                other,
            ),
{
    let s2 = store_append(s, th, e);
    if has_key(s, th) {
        let i = key_idx(s, th);
        assert(0 <= i < s.len() && s[i].0 == th);
        assert(s2[i].0 == th);
        assert(has_key(s2, th));
        let i2 = key_idx(s2, th);
        assert(0 <= i2 < s2.len() && s2[i2].0 == th);
        if i2 != i {
            assert(s[i2].0 == th);
            if i < i2 {
                assert(s[i].0 != s[i2].0);
            } else {
                assert(s[i2].0 != s[i].0);
            }
            assert(false);
        }
        assert(events_of(s2, th) == s[i].1.push(e));
        assert(events_of(s, th) == s[i].1);
        assert forall|other: Seq<char>|
            other != th implies #[trigger] events_of(s2, other) == events_of(s, other) by {
            assert(forall|j: int| 0 <= j < s.len() ==> (#[trigger] s2[j]).0 == s[j].0);
            if has_key(s2, other) {
                let j = key_idx(s2, other);
                assert(0 <= j < s.len() && s2[j].0 == other);
                assert(s[j].0 == other);
                assert(has_key(s, other));
                let j2 = key_idx(s, other);
                assert(s[j2].0 == other);
                if j != j2 {
                    if j < j2 {
                        assert(s[j].0 != s[j2].0);
                    } else {
                        assert(s[j2].0 != s[j].0);
                    }
                    assert(false);
                }
                assert(j != i);
                assert(events_of(s2, other) == s2[j].1);
                assert(s2[j].1 == s[j].1);
            } else {
                if has_key(s, other) {
                    let j = key_idx(s, other);
                    assert(s2[j].0 == other);
                    assert(has_key(s2, other));
                }
            }
        }
    } else {
        let n = s.len() as int;
        assert(s2 == s.push((th, seq![e])));
        assert(s2[n].0 == th);
        assert(has_key(s2, th));
        let i2 = key_idx(s2, th);
        assert(0 <= i2 < s2.len() && s2[i2].0 == th);
        if i2 != n {
            assert(s[i2].0 == th);
            assert(has_key(s, th));
            assert(false);
        }
        assert(events_of(s2, th) == seq![e]);
        assert(events_of(s, th) == Seq::<EventView>::empty());
        assert(Seq::<EventView>::empty().push(e) =~= seq![e]);
        assert forall|other: Seq<char>|
            other != th implies #[trigger] events_of(s2, other) == events_of(s, other) by {
            if has_key(s2, other) {
                let j = key_idx(s2, other);
                assert(0 <= j < s2.len() && s2[j].0 == other);
                assert(j != n);
                assert(s[j].0 == other);
                assert(has_key(s, other));
                let j2 = key_idx(s, other);
                assert(s[j2].0 == other);
                if j != j2 {
                    if j < j2 {
                        assert(s[j].0 != s[j2].0);
                    } else {
                        assert(s[j2].0 != s[j].0);
                    }
                    assert(false);
                }
                assert(events_of(s2, other) == s2[j].1);
                assert(s2[j].1 == s[j].1);
            } else {
                if has_key(s, other) {
                    let j = key_idx(s, other);
                    assert(s2[j].0 == other);
                    assert(has_key(s2, other));
                }
            }
        }
    }
}

/// The mathematical contents of a drained store: thread names and
/// event views, in store order.
pub open spec fn entries_view(
    entries: Seq<(String, Vec<TraceEvent>)>,
) -> Seq<(Seq<char>, Seq<EventView>)> {
    entries.map_values(
        |p: (String, Vec<TraceEvent>)| (p.0@, p.1@.map_values(|e: TraceEvent| e@)),
    )
}

/// An ordered store of trace events keyed by thread name.
pub struct EventStore {
    entries: Vec<(String, Vec<TraceEvent>)>,
}

impl View for EventStore {
    type V = Seq<(Seq<char>, Seq<EventView>)>;

    closed spec fn view(&self) -> Seq<(Seq<char>, Seq<EventView>)> {
        entries_view(self.entries@)
    }
}

impl EventStore {
    pub fn new() -> (r: EventStore)
        ensures
            r@ == Seq::<(Seq<char>, Seq<EventView>)>::empty(),
    {
        let r = EventStore { entries: Vec::new() };
        proof {
            assert(r@ =~= Seq::<(Seq<char>, Seq<EventView>)>::empty());
        }
        r
    }

    /// The index of the named thread's entry, if it has one.
    fn find(&self, thread: &str) -> (r: Option<usize>)
        ensures
            match r {
                Some(i) => i < self@.len() && self@[i as int].0 == thread@,
                None => !has_key(self@, thread@),
            },
    {
        let n = self.entries.len();
        let mut i: usize = 0;
        while i < n
            invariant
                n == self.entries@.len(),
                n == self@.len(),
                i <= n,
                forall|j: int| 0 <= j < n ==> self@[j].0 == self.entries@[j].0@,
                forall|j: int| 0 <= j < i ==> self@[j].0 != thread@,
            decreases n - i,
        {
            if str_eq(self.entries[i].0.as_str(), thread) {
                return Some(i);
            }
            i += 1;
        }
        None
    }

    /// Appends an event to the tail of the named thread's sequence,
    /// opening a fresh entry when the thread has not recorded before.
    pub fn append(&mut self, thread: &str, event: TraceEvent)
        requires
            distinct_keys(old(self)@),
        ensures
            distinct_keys(final(self)@),
            final(self)@ == store_append(old(self)@, thread@, event@),
    {
        let ghost old_view = self@;
        match self.find(thread) {
            Some(i) => {
                let (name, mut evs) = self.entries.remove(i);
                evs.push(event);
                self.entries.insert(i, (name, evs));
                proof {
                    let j = key_idx(old_view, thread@);
                    assert(old_view[i as int].0 == thread@);
                    if j != i as int {
                        if j < i as int {
                            assert(old_view[j].0 != old_view[i as int].0);
                        } else {
                            assert(old_view[i as int].0 != old_view[j].0);
                        }
                        assert(false);
                    }
                    assert(self@[i as int].1 =~= old_view[i as int].1.push(event@));
                    assert(self@[i as int] == (thread@, old_view[i as int].1.push(event@)));
                    assert forall|k: int| 0 <= k < old_view.len() && k != i implies self@[k]
                        == old_view[k] by {
                        assert(self.entries@[k] == old(self).entries@[k]);
                    }
                    assert(self@ =~= store_append(old_view, thread@, event@));
                }
            },
            None => {
                let owned = thread.to_owned();
                let mut evs: Vec<TraceEvent> = Vec::new();
                evs.push(event);
                self.entries.push((owned, evs));
                proof {
                    assert(evs@.map_values(|e: TraceEvent| e@) =~= seq![event@]);
                    assert(self@ =~= store_append(old_view, thread@, event@));
                }
            },
        }
    }

    /// Hands the whole store over for serialization.
    pub fn drain(self) -> (r: Vec<(String, Vec<TraceEvent>)>)
        ensures
            entries_view(r@) == self@,
    {
        self.entries
    }
}

} // verus!
