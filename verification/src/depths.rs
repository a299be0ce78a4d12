//! The per-thread nesting-depth registry: a table keyed by thread name
//! holding an unsigned 64-bit counter per thread. The counter wraps on
//! overflow and underflow, exactly as an atomic fetch-add would.

use vstd::prelude::*;
use crate::strutil::str_eq;

verus! {

/// The counter after one increment, wrapping at the top.
pub open spec fn wrap_inc(d: u64) -> u64 {
    if d == u64::MAX {
        0
    } else {
        (d + 1) as u64
    }
}

/// The counter after one decrement, wrapping at the bottom.
pub open spec fn wrap_dec(d: u64) -> u64 {
    if d == 0 {
        u64::MAX
    } else {
        (d - 1) as u64
    }
}

/// The registry after an `increase` by the named thread: a thread not
/// yet seen gets a fresh counter left at zero (its own entry counts as
/// the registration); a seen thread has its counter incremented.
pub open spec fn spec_increase(m: Map<Seq<char>, u64>, th: Seq<char>) -> Map<Seq<char>, u64> {
    if m.contains_key(th) {
        m.insert(th, wrap_inc(m[th]))
    } else {
        m.insert(th, 0)
    }
}

/// The registry after a `decrease` by a seen thread.
pub open spec fn spec_decrease(m: Map<Seq<char>, u64>, th: Seq<char>) -> Map<Seq<char>, u64> {
    m.insert(th, wrap_dec(m[th]))
}

/// The counter a thread observes: its entry, or zero when it has none.
pub open spec fn depth_or_zero(m: Map<Seq<char>, u64>, th: Seq<char>) -> u64 {
    if m.contains_key(th) {
        m[th]
    } else {
        0
    }
}

/// Nesting-depth counters keyed by thread name.
pub struct DepthRegistry {
    entries: Vec<(String, u64)>,
}

impl View for DepthRegistry {
    type V = Map<Seq<char>, u64>;

    closed spec fn view(&self) -> Map<Seq<char>, u64> {
        Map::new(
            |th: Seq<char>| exists|i: int| 0 <= i < self.entries@.len() && self.entries@[i].0@ == th,
            |th: Seq<char>|
                {
                    let i = choose|i: int|
                        0 <= i < self.entries@.len() && self.entries@[i].0@ == th;
                    self.entries@[i].1
                },
        )
    }
}

impl DepthRegistry {
    /// No two entries share a thread name.
    pub closed spec fn wf(self) -> bool {
        forall|i: int, j: int|
            0 <= i < j < self.entries@.len() ==> self.entries@[i].0@ != self.entries@[j].0@
    }

    /// The entry at a given index is what the map view reports.
    proof fn lemma_view_at(self, j: int)
        requires
            self.wf(),
            0 <= j < self.entries@.len(),
        ensures
            self@.contains_key(self.entries@[j].0@),
            self@[self.entries@[j].0@] == self.entries@[j].1,
    {
        let th = self.entries@[j].0@;
        assert(exists|i: int| 0 <= i < self.entries@.len() && self.entries@[i].0@ == th);
        let i = choose|i: int| 0 <= i < self.entries@.len() && self.entries@[i].0@ == th;
        if i < j {
            assert(self.entries@[i].0@ != self.entries@[j].0@);
        } else if j < i {
            assert(self.entries@[j].0@ != self.entries@[i].0@);
        }
    }

    pub fn new() -> (r: DepthRegistry)
        ensures
            r.wf(),
            r@ == Map::<Seq<char>, u64>::empty(),
    {
        let r = DepthRegistry { entries: Vec::new() };
        proof {
            assert(r@ =~= Map::<Seq<char>, u64>::empty());
        }
        r
    }

    /// The index of the named thread's entry, if it has one.
    fn find(&self, thread: &str) -> (r: Option<usize>)
        ensures
            match r {
                Some(i) => i < self.entries@.len() && self.entries@[i as int].0@ == thread@,
                None => forall|j: int|
                    0 <= j < self.entries@.len() ==> self.entries@[j].0@ != thread@,
            },
    {
        let n = self.entries.len();
        let mut i: usize = 0;
        while i < n
            invariant
                n == self.entries@.len(),
                i <= n,
                forall|j: int| 0 <= j < i ==> self.entries@[j].0@ != thread@,
            decreases n - i,
        {
            if str_eq(self.entries[i].0.as_str(), thread) {
                return Some(i);
            }
            i += 1;
        }
        None
    }

    /// Whether the named thread has an entry.
    pub fn contains(&self, thread: &str) -> (b: bool)
        requires
            self.wf(),
        ensures
            b == self@.contains_key(thread@),
    {
        match self.find(thread) {
            Some(i) => {
                proof {
                    self.lemma_view_at(i as int);
                }
                true
            },
            None => {
                proof {
                    if self@.contains_key(thread@) {
                        let i = choose|i: int|
                            0 <= i < self.entries@.len() && self.entries@[i].0@ == thread@;
                        assert(self.entries@[i].0@ == thread@);
                    }
                }
                false
            },
        }
    }

    /// The calling thread's counter, or zero when the thread is unseen.
    pub fn read(&self, thread: &str) -> (d: u64)
        requires
            self.wf(),
        ensures
            d == depth_or_zero(self@, thread@),
    {
        match self.find(thread) {
            Some(i) => {
                proof {
                    self.lemma_view_at(i as int);
                }
                self.entries[i].1
            },
            None => {
                proof {
                    if self@.contains_key(thread@) {
                        let i = choose|i: int|
                            0 <= i < self.entries@.len() && self.entries@[i].0@ == thread@;
                        assert(self.entries@[i].0@ == thread@);
                    }
                }
                0
            },
        }
    }

    /// Registers the calling thread, or increments its counter if it is
    /// already registered. A fresh entry starts at zero, so the first
    /// scoped block a thread ever opens observes depth zero.
    pub fn increase(&mut self, thread: &str)
        requires
            old(self).wf(),
        ensures
            final(self).wf(),
            final(self)@ == spec_increase(old(self)@, thread@),
    {
        let ghost old_self = *old(self);
        match self.find(thread) {
            Some(i) => {
                proof {
                    old_self.lemma_view_at(i as int);
                }
                let entry = self.entries.remove(i);
                let bumped: u64 = if entry.1 == u64::MAX {
                    0
                } else {
                    entry.1 + 1
                };
                self.entries.insert(i, (entry.0, bumped));
                proof {
                    assert(self.entries@ =~= old_self.entries@.update(
                        i as int,
                        (old_self.entries@[i as int].0, wrap_inc(old_self.entries@[i as int].1)),
                    ));
                    self.lemma_same_keys_update(old_self, thread@, i as int);
                }
            },
            None => {
                let owned = thread.to_owned();
                self.entries.push((owned, 0));
                proof {
                    self.lemma_pushed(old_self, thread@, 0);
                }
            },
        }
    }

    /// Decrements the calling thread's counter; calling it for a thread
    /// with no entry is the unmatched decrease the tracer treats as a
    /// fatal programming error, so it is excluded here.
    pub fn decrease(&mut self, thread: &str)
        requires
            old(self).wf(),
            old(self)@.contains_key(thread@),
        ensures
            final(self).wf(),
            final(self)@ == spec_decrease(old(self)@, thread@),
    {
        let ghost old_self = *old(self);
        match self.find(thread) {
            Some(i) => {
                proof {
                    old_self.lemma_view_at(i as int);
                }
                let entry = self.entries.remove(i);
                let lowered: u64 = if entry.1 == 0 {
                    u64::MAX
                } else {
                    entry.1 - 1
                };
                self.entries.insert(i, (entry.0, lowered));
                proof {
                    assert(self.entries@ =~= old_self.entries@.update(
                        i as int,
                        (old_self.entries@[i as int].0, wrap_dec(old_self.entries@[i as int].1)),
                    ));
                    self.lemma_same_keys_update(old_self, thread@, i as int);
                }
            },
            None => {
                proof {
                    let i = choose|i: int|
                        0 <= i < old_self.entries@.len() && old_self.entries@[i].0@ == thread@;
                    assert(old_self.entries@[i].0@ == thread@);
                }
                unreached()
            },
        }
    }

    /// After updating the entry at `i` (same key, new counter), the map
    /// view is the old view with that key's value replaced.
    proof fn lemma_same_keys_update(self, prev: DepthRegistry, th: Seq<char>, i: int)
        requires
            prev.wf(),
            0 <= i < prev.entries@.len(),
            prev.entries@[i].0@ == th,
            self.entries@.len() == prev.entries@.len(),
            forall|j: int|
                0 <= j < prev.entries@.len() && j != i ==> self.entries@[j] == prev.entries@[j],
            self.entries@[i].0@ == th,
        ensures
            self.wf(),
            self@ == prev@.insert(th, self.entries@[i].1),
    {
        assert forall|p: int, q: int|
            0 <= p < q < self.entries@.len() implies self.entries@[p].0@
            != self.entries@[q].0@ by {
            assert(self.entries@[p].0@ == prev.entries@[p].0@);
            assert(self.entries@[q].0@ == prev.entries@[q].0@);
        }
        assert forall|k: Seq<char>| self@.contains_key(k) implies prev@.insert(
            th,
            self.entries@[i].1,
        ).contains_key(k) by {
            let j = choose|j: int| 0 <= j < self.entries@.len() && self.entries@[j].0@ == k;
            if k != th {
                assert(prev.entries@[j].0@ == k);
                prev.lemma_view_at(j);
            }
        }
        assert forall|k: Seq<char>|
            prev@.insert(th, self.entries@[i].1).contains_key(k) implies self@.contains_key(
            k,
        ) by {
            if k == th {
                assert(self.entries@[i].0@ == k);
            } else {
                let j = choose|j: int| 0 <= j < prev.entries@.len() && prev.entries@[j].0@ == k;
                assert(self.entries@[j].0@ == k);
            }
        }
        assert forall|k: Seq<char>| self@.contains_key(k) implies self@[k] == prev@.insert(
            th,
            self.entries@[i].1,
        )[k] by {
            let j = choose|j: int| 0 <= j < self.entries@.len() && self.entries@[j].0@ == k;
            self.lemma_view_at(j);
            if k == th {
                if j != i {
                    assert(prev.entries@[j].0@ == th);
                    assert(false);
                }
            } else {
                assert(j != i);
                assert(prev.entries@[j].0@ == k);
                prev.lemma_view_at(j);
            }
        }
        assert(self@ =~= prev@.insert(th, self.entries@[i].1));
    }

    /// After pushing a fresh entry whose key no other entry holds, the
    /// map view is the old view with that binding added.
    proof fn lemma_pushed(self, prev: DepthRegistry, th: Seq<char>, d: u64)
        requires
            prev.wf(),
            forall|j: int| 0 <= j < prev.entries@.len() ==> prev.entries@[j].0@ != th,
            self.entries@.len() == prev.entries@.len() + 1,
            forall|j: int| 0 <= j < prev.entries@.len() ==> self.entries@[j] == prev.entries@[j],
            self.entries@[prev.entries@.len() as int].0@ == th,
            self.entries@[prev.entries@.len() as int].1 == d,
        ensures
            self.wf(),
            self@ == prev@.insert(th, d),
    {
        let n = prev.entries@.len() as int;
        assert forall|p: int, q: int|
            0 <= p < q < self.entries@.len() implies self.entries@[p].0@
            != self.entries@[q].0@ by {
            if q < n {
                assert(self.entries@[p].0@ == prev.entries@[p].0@);
                assert(self.entries@[q].0@ == prev.entries@[q].0@);
            } else {
                assert(self.entries@[p].0@ == prev.entries@[p].0@);
                assert(self.entries@[q].0@ == th);
            }
        }
        assert forall|k: Seq<char>| self@.contains_key(k) implies prev@.insert(
            th,
            d,
        ).contains_key(k) by {
            let j = choose|j: int| 0 <= j < self.entries@.len() && self.entries@[j].0@ == k;
            if k != th {
                assert(j != n);
                assert(prev.entries@[j].0@ == k);
                prev.lemma_view_at(j);
            }
        }
        assert forall|k: Seq<char>| prev@.insert(th, d).contains_key(k) implies self@.contains_key(
            k,
        ) by {
            if k == th {
                assert(self.entries@[n].0@ == k);
            } else {
                let j = choose|j: int| 0 <= j < prev.entries@.len() && prev.entries@[j].0@ == k;
                assert(self.entries@[j].0@ == k);
            }
        }
        assert forall|k: Seq<char>| self@.contains_key(k) implies self@[k] == prev@.insert(
            th,
            d,
        )[k] by {
            let j = choose|j: int| 0 <= j < self.entries@.len() && self.entries@[j].0@ == k;
            self.lemma_view_at(j);
            if k == th {
                if j != n {
                    assert(prev.entries@[j].0@ == th);
                    assert(false);
                }
            } else {
                assert(j != n);
                assert(prev.entries@[j].0@ == k);
                prev.lemma_view_at(j);
            }
        }
        assert(self@ =~= prev@.insert(th, d));
    }
}

} // verus!
