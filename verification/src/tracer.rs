//! The tracer itself: the start anchor, the per-thread depth registry,
//! the event store, and the two record paths — point events and scoped
//! blocks. The state is a plain value; the recording thread is named
//! explicitly on every call.

use vstd::prelude::*;
use vstd::arithmetic::div_mod::{
    lemma_fundamental_div_mod, lemma_fundamental_div_mod_converse, lemma_mod_bound,
};
use crate::clock::monotonic_clock;
use crate::depths::{
    depth_or_zero, spec_decrease, spec_increase, wrap_dec, wrap_inc, DepthRegistry,
};
use crate::event::{
    dur_of_nanos, duration_from_nanos, elapsed_nanos, event_wf, point_ev, scoped_ev, EventView,
    TraceEvent,
};
use crate::json::{render_report, render_report_doc};
use crate::store::{
    distinct_keys, events_of, lemma_append_all_wf, lemma_store_append_distinct,
    lemma_store_append_events, store_all_wf, store_append, EventStore,
};

verus! {

/// One more than `u64::MAX`: the modulus at which a depth counter wraps.
pub const DEPTH_MODULUS: u128 = 0x1_0000_0000_0000_0000;

/// The mathematical state of a tracer.
pub struct TracerView {
    /// Monotonic-clock reading captured at initialization; the origin
    /// for every relative timestamp.
    pub start: u128,
    /// Per-thread nesting counters.
    pub depths: Map<Seq<char>, u64>,
    /// Per-thread event sequences, in append order.
    pub events: Seq<(Seq<char>, Seq<EventView>)>,
    /// Scoped blocks opened and not yet closed, per thread: a pure
    /// accounting of `begin` minus `finish` calls.
    pub open_scopes: Map<Seq<char>, int>,
}

impl TracerView {
    /// Open scoped blocks of a thread; zero for a thread never seen.
    pub open spec fn open_of(self, th: Seq<char>) -> int {
        if self.open_scopes.contains_key(th) {
            self.open_scopes[th]
        } else {
            0
        }
    }

    /// The tracer invariant: stored events are well formed under
    /// distinct thread keys, and each registered thread's counter reads
    /// its number of open scoped blocks minus one, wrapped to 64 bits —
    /// minus one because registering a thread does not increment.
    pub open spec fn wf(self) -> bool {
        &&& distinct_keys(self.events)
        &&& store_all_wf(self.events)
        &&& forall|th: Seq<char>|
            self.depths.contains_key(th) ==> self.depths[th] as int == (self.open_of(th) - 1) % (
            DEPTH_MODULUS as int)
        &&& forall|th: Seq<char>| !self.depths.contains_key(th) ==> #[trigger] self.open_of(th) == 0
    }
}

/// The state after recording a point event for thread `th`: one event
/// is appended under `th` at the thread's current depth; nothing else
/// changes.
pub open spec fn spec_trace_point(
    v: TracerView,
    th: Seq<char>,
    name: Seq<char>,
    now: u128,
) -> TracerView {
    TracerView {
        events: store_append(
            v.events,
            th,
            point_ev(name, dur_of_nanos(elapsed_nanos(v.start, now)), depth_or_zero(v.depths, th)),
        ),
        ..v
    }
}

/// The state after a scoped block opens on thread `th`: the thread's
/// counter is incremented (or freshly registered at zero), and one more
/// scope is accounted open. No event is appended yet.
pub open spec fn spec_begin(v: TracerView, th: Seq<char>) -> TracerView {
    TracerView {
        depths: spec_increase(v.depths, th),
        open_scopes: v.open_scopes.insert(th, v.open_of(th) + 1),
        ..v
    }
}

/// The mathematical state of a scoped block between open and close.
pub struct BlockView {
    pub start: u128,
    pub event: Seq<char>,
    pub size: u64,
    pub plug: bool,
}

/// The state after the block `b` closes on thread `th` at absolute
/// clock reading `end_now`: exactly one scoped event is appended under
/// `th`, carrying the depth read before the decrement, and the thread's
/// counter is decremented.
pub open spec fn spec_finish(
    v: TracerView,
    b: BlockView,
    th: Seq<char>,
    end_now: u128,
) -> TracerView {
    TracerView {
        events: store_append(
            v.events,
            th,
            scoped_ev(
                b.event,
                dur_of_nanos(elapsed_nanos(v.start, b.start)),
                end_now,
                depth_or_zero(v.depths, th),
                b.size,
                b.plug,
            ),
        ),
        depths: spec_decrease(v.depths, th),
        open_scopes: v.open_scopes.insert(th, v.open_of(th) - 1),
        ..v
    }
}

/// The tracer state: start anchor, depth registry, and event store.
pub struct Tracer {
    start: u128,
    depths: DepthRegistry,
    events: EventStore,
    open_scopes: Ghost<Map<Seq<char>, int>>,
}

impl View for Tracer {
    type V = TracerView;

    closed spec fn view(&self) -> TracerView {
        TracerView {
            start: self.start,
            depths: self.depths@,
            events: self.events@,
            open_scopes: self.open_scopes@,
        }
    }
}

/// Nanoseconds from `start` to `now`; zero when `now` reads earlier.
fn elapsed_exec(start: u128, now: u128) -> (r: u128)
    ensures
        r == elapsed_nanos(start, now),
{
    if now >= start {
        now - start
    } else {
        0
    }
}

impl Tracer {
    /// The registry is internally consistent and the state satisfies
    /// the tracer invariant.
    pub closed spec fn wf(self) -> bool {
        &&& self.depths.wf()
        &&& self@.wf()
    }

    /// The tracer invariant carries down to its mathematical state, so
    /// a caller holding a well-formed tracer can feed the view-level
    /// lemmas.
    pub proof fn lemma_view_wf(&self)
        requires
            self.wf(),
        ensures
            self@.wf(),
    {
    }

    /// A tracer whose start anchor is the given clock reading, with no
    /// events and no registered threads.
    pub fn starting_at(start_nanos: u128) -> (t: Tracer)
        ensures
            t.wf(),
            t@ == (TracerView {
                start: start_nanos,
                depths: Map::empty(),
                events: Seq::empty(),
                open_scopes: Map::empty(),
            }),
    {
        Tracer {
            start: start_nanos,
            depths: DepthRegistry::new(),
            events: EventStore::new(),
            open_scopes: Ghost(Map::empty()),
        }
    }

    /// A tracer anchored at the current monotonic clock.
    pub fn new() -> (t: Tracer)
        ensures
            t.wf(),
            t@.depths == Map::<Seq<char>, u64>::empty(),
            t@.events == Seq::<(Seq<char>, Seq<EventView>)>::empty(),
            t@.open_scopes == Map::<Seq<char>, int>::empty(),
    {
        let start = monotonic_clock();
        Tracer::starting_at(start)
    }

    /// The calling thread's depth counter, or zero if it has none.
    pub fn thread_depth(&self, thread: &str) -> (d: u64)
        requires
            self.wf(),
        ensures
            d == depth_or_zero(self@.depths, thread@),
    {
        self.depths.read(thread)
    }

    /// Whether the named thread has a depth entry.
    pub fn has_thread_depth(&self, thread: &str) -> (b: bool)
        requires
            self.wf(),
        ensures
            b == self@.depths.contains_key(thread@),
    {
        self.depths.contains(thread)
    }

    /// Appends a well-formed event under the named thread.
    fn add_event(&mut self, thread: &str, event: TraceEvent)
        requires
            old(self).wf(),
            event_wf(event@),
        ensures
            final(self).wf(),
            final(self)@ == (TracerView {
                events: store_append(old(self)@.events, thread@, event@),
                ..old(self)@
            }),
    {
        let ghost pre = self@;
        proof {
            lemma_append_all_wf(self@.events, thread@, event@);
        }
        self.events.append(thread, event);
        proof {
            assert forall|th: Seq<char>| self@.depths.contains_key(th) implies self@.depths[th]
                as int == (self@.open_of(th) - 1) % (DEPTH_MODULUS as int) by {
                assert(pre.depths.contains_key(th));
                assert(self@.open_of(th) == pre.open_of(th));
            }
            assert forall|th: Seq<char>| !self@.depths.contains_key(th) implies #[trigger] self@
                .open_of(th) == 0 by {
                assert(!pre.depths.contains_key(th));
                assert(pre.open_of(th) == 0);
                assert(self@.open_of(th) == pre.open_of(th));
            }
        }
    }

    /// Registers or increments the calling thread's depth counter, and
    /// accounts one more open scope.
    fn increase_thread_depth(&mut self, thread: &str)
        requires
            old(self).wf(),
        ensures
            final(self).wf(),
            final(self)@ == spec_begin(old(self)@, thread@),
    {
        let ghost pre = self@;
        self.depths.increase(thread);
        proof {
            self.open_scopes@ = pre.open_scopes.insert(thread@, pre.open_of(thread@) + 1);
            assert(self@ == spec_begin(pre, thread@));
            lemma_begin_preserves_wf(pre, thread@);
        }
    }

    /// Decrements the calling thread's depth counter, and accounts one
    /// scope closed. A thread with no entry has no scope to close: that
    /// is the unmatched decrease the tracer aborts on, excluded here.
    fn decrease_thread_depth(&mut self, thread: &str)
        requires
            old(self).wf(),
            old(self)@.depths.contains_key(thread@),
        ensures
            final(self).wf(),
            final(self)@ == (TracerView {
                depths: spec_decrease(old(self)@.depths, thread@),
                open_scopes: old(self)@.open_scopes.insert(
                    thread@,
                    old(self)@.open_of(thread@) - 1,
                ),
                ..old(self)@
            }),
    {
        let ghost pre = self@;
        self.depths.decrease(thread);
        proof {
            self.open_scopes@ = pre.open_scopes.insert(thread@, pre.open_of(thread@) - 1);
            lemma_wrap_tracks_dec(pre, thread@);
            assert forall|th: Seq<char>| self@.depths.contains_key(th) implies self@.depths[th]
                as int == (self@.open_of(th) - 1) % (DEPTH_MODULUS as int) by {
                if th != thread@ {
                    assert(pre.depths.contains_key(th));
                    assert(self@.open_of(th) == pre.open_of(th));
                }
            }
            assert forall|th: Seq<char>| !self@.depths.contains_key(th) implies #[trigger] self@
                .open_of(th) == 0 by {
                assert(th != thread@);
                assert(!pre.depths.contains_key(th));
                assert(pre.open_of(th) == 0);
                assert(self@.open_of(th) == pre.open_of(th));
            }
        }
    }

    /// Records a point event for the named thread: the event carries
    /// the time elapsed from the start anchor to `now`, the thread's
    /// current depth, and no payload.
    pub fn trace_point_at(&mut self, thread: &str, event: &str, now: u128)
        requires
            old(self).wf(),
        ensures
            final(self).wf(),
            final(self)@ == spec_trace_point(old(self)@, thread@, event@, now),
    {
        let depth = self.thread_depth(thread);
        let elapsed = elapsed_exec(self.start, now);
        let timestamp = duration_from_nanos(elapsed);
        let record = TraceEvent {
            timestamp,
            event: event.to_owned(),
            end_timestamp: 0,
            depth,
            size: None,
            plug: None,
        };
        self.add_event(thread, record);
    }

    /// Finalizes the tracer: the whole state is rendered as the report
    /// document, with the total duration taken from start to `end_now`.
    pub fn end_at(self, end_now: u128) -> (r: String)
        requires
            self.wf(),
        ensures
            r@ == render_report(
                dur_of_nanos(elapsed_nanos(self@.start, end_now)),
                self@.events,
            ),
    {
        let duration = duration_from_nanos(elapsed_exec(self.start, end_now));
        let entries = self.events.drain();
        render_report_doc(&duration, &entries)
    }

    /// Finalizes the tracer at the current monotonic clock.
    pub fn end(self) -> (r: String)
        requires
            self.wf(),
        ensures
            exists|end_now: u128|
                r@ == render_report(
                    dur_of_nanos(elapsed_nanos(self@.start, end_now)),
                    self@.events,
                ),
    {
        let ghost pre = self@;
        let end_now = monotonic_clock();
        let r = self.end_at(end_now);
        proof {
            assert(r@ == render_report(
                dur_of_nanos(elapsed_nanos(pre.start, end_now)),
                pre.events,
            ));
        }
        r
    }

    /// Records a point event at the current monotonic clock.
    pub fn trace_point(&mut self, thread: &str, event: &str)
        requires
            old(self).wf(),
        ensures
            final(self).wf(),
            exists|now: u128|
                final(self)@ == spec_trace_point(old(self)@, thread@, event@, now),
    {
        let ghost pre = self@;
        let now = monotonic_clock();
        self.trace_point_at(thread, event, now);
        proof {
            assert(self@ == spec_trace_point(pre, thread@, event@, now));
        }
    }
}

/// After an increase by `th`, the wrapped counter again reads the open
/// count (now one higher) minus one, modulo two to the sixty-fourth.
proof fn lemma_wrap_tracks_inc(pre: TracerView, th: Seq<char>)
    requires
        pre.wf(),
    ensures
        ({
            let d = if pre.depths.contains_key(th) {
                wrap_inc(pre.depths[th])
            } else {
                0u64
            };
            d as int == ((pre.open_of(th) + 1) - 1) % (DEPTH_MODULUS as int)
        }),
{
    let m = DEPTH_MODULUS as int;
    if pre.depths.contains_key(th) {
        let d = pre.depths[th];
        let n = pre.open_of(th);
        lemma_fundamental_div_mod(n - 1, m);
        lemma_mod_bound(n - 1, m);
        let q = (n - 1) / m;
        assert(n - 1 == q * m + d);
        if d == u64::MAX {
            assert(n == (q + 1) * m + 0) by (nonlinear_arith)
                requires
                    n - 1 == q * m + d,
                    d == m - 1,
            ;
            lemma_fundamental_div_mod_converse(n, m, q + 1, 0);
        } else {
            assert(n == q * m + (d + 1));
            lemma_fundamental_div_mod_converse(n, m, q, d + 1);
        }
    } else {
        assert(pre.open_of(th) == 0);
        lemma_fundamental_div_mod_converse(0, m, 0, 0);
    }
}

/// After a decrease by `th`, the wrapped counter again reads the open
/// count (now one lower) minus one, modulo two to the sixty-fourth.
proof fn lemma_wrap_tracks_dec(pre: TracerView, th: Seq<char>)
    requires
        pre.wf(),
        pre.depths.contains_key(th),
    ensures
        wrap_dec(pre.depths[th]) as int == ((pre.open_of(th) - 1) - 1) % (DEPTH_MODULUS as int),
{
    let m = DEPTH_MODULUS as int;
    let d = pre.depths[th];
    let n = pre.open_of(th);
    lemma_fundamental_div_mod(n - 1, m);
    lemma_mod_bound(n - 1, m);
    let q = (n - 1) / m;
    assert(n - 1 == q * m + d);
    if d == 0 {
        assert(n - 2 == (q - 1) * m + (m - 1)) by (nonlinear_arith)
            requires
                n - 1 == q * m + d,
                d == 0,
        ;
        lemma_fundamental_div_mod_converse(n - 2, m, q - 1, m - 1);
    } else {
        assert(n - 2 == q * m + (d - 1));
        lemma_fundamental_div_mod_converse(n - 2, m, q, d - 1);
    }
}

/// Pairing: opening a scoped block appends no event, and closing it
/// appends exactly one completed event, to the closing thread's
/// sequence and to no other, at that sequence's tail. Blocks closed in
/// some order on a thread therefore appear in that order.
pub proof fn lemma_scoped_pairing(v: TracerView, b: BlockView, th: Seq<char>, end_now: u128)
    requires
        v.wf(),
    ensures
        spec_begin(v, th).events == v.events,
        events_of(spec_finish(v, b, th, end_now).events, th) == events_of(v.events, th).push(
            scoped_ev(
                b.event,
                dur_of_nanos(elapsed_nanos(v.start, b.start)),
                end_now,
                depth_or_zero(v.depths, th),
                b.size,
                b.plug,
            ),
        ),
        forall|other: Seq<char>|
            other != th ==> #[trigger] events_of(spec_finish(v, b, th, end_now).events, other)
                == events_of(v.events, other),
{
    lemma_store_append_events(
        v.events,
        th,
        scoped_ev(
            b.event,
            dur_of_nanos(elapsed_nanos(v.start, b.start)),
            end_now,
            depth_or_zero(v.depths, th),
            b.size,
            b.plug,
        ),
    );
}

/// Recording a point event appends exactly one event, to the recording
/// thread's sequence and to no other, at that sequence's tail.
pub proof fn lemma_point_order(v: TracerView, th: Seq<char>, name: Seq<char>, now: u128)
    requires
        v.wf(),
    ensures
        events_of(spec_trace_point(v, th, name, now).events, th) == events_of(v.events, th).push(
            point_ev(name, dur_of_nanos(elapsed_nanos(v.start, now)), depth_or_zero(v.depths, th)),
        ),
        forall|other: Seq<char>|
            other != th ==> #[trigger] events_of(spec_trace_point(v, th, name, now).events, other)
                == events_of(v.events, other),
{
    lemma_store_append_events(
        v.events,
        th,
        point_ev(name, dur_of_nanos(elapsed_nanos(v.start, now)), depth_or_zero(v.depths, th)),
    );
}

/// Recording a point event keeps the tracer invariant.
pub proof fn lemma_trace_point_preserves_wf(v: TracerView, th: Seq<char>, name: Seq<char>, now: u128)
    requires
        v.wf(),
    ensures
        spec_trace_point(v, th, name, now).wf(),
{
    let e = point_ev(name, dur_of_nanos(elapsed_nanos(v.start, now)), depth_or_zero(v.depths, th));
    crate::event::lemma_dur_of_nanos_wf(elapsed_nanos(v.start, now));
    lemma_store_append_distinct(v.events, th, e);
    lemma_append_all_wf(v.events, th, e);
    let v2 = spec_trace_point(v, th, name, now);
    assert forall|t: Seq<char>| !v2.depths.contains_key(t) implies #[trigger] v2.open_of(t)
        == 0 by {
        assert(!v.depths.contains_key(t));
        assert(v.open_of(t) == 0);
        assert(v2.open_of(t) == v.open_of(t));
    }
}

/// Opening a scoped block keeps the tracer invariant.
pub proof fn lemma_begin_preserves_wf(v: TracerView, th: Seq<char>)
    requires
        v.wf(),
    ensures
        spec_begin(v, th).wf(),
{
    let v2 = spec_begin(v, th);
    lemma_wrap_tracks_inc(v, th);
    assert forall|t: Seq<char>| v2.depths.contains_key(t) implies v2.depths[t] as int == (
    v2.open_of(t) - 1) % (DEPTH_MODULUS as int) by {
        if t != th {
            assert(v.depths.contains_key(t));
            assert(v2.open_of(t) == v.open_of(t));
            assert(v2.depths[t] == v.depths[t]);
        } else {
            assert(v2.open_of(th) == v.open_of(th) + 1);
        }
    }
    assert forall|t: Seq<char>| !v2.depths.contains_key(t) implies #[trigger] v2.open_of(t)
        == 0 by {
        assert(t != th);
        assert(!v.depths.contains_key(t));
        assert(v.open_of(t) == 0);
        assert(v2.open_of(t) == v.open_of(t));
    }
}

/// Closing a scoped block keeps the tracer invariant.
pub proof fn lemma_finish_preserves_wf(v: TracerView, b: BlockView, th: Seq<char>, end_now: u128)
    requires
        v.wf(),
        v.depths.contains_key(th),
        end_now != 0,
    ensures
        spec_finish(v, b, th, end_now).wf(),
{
    let e = scoped_ev(
        b.event,
        dur_of_nanos(elapsed_nanos(v.start, b.start)),
        end_now,
        depth_or_zero(v.depths, th),
        b.size,
        b.plug,
    );
    crate::event::lemma_dur_of_nanos_wf(elapsed_nanos(v.start, b.start));
    lemma_store_append_distinct(v.events, th, e);
    lemma_append_all_wf(v.events, th, e);
    lemma_wrap_tracks_dec(v, th);
    let v2 = spec_finish(v, b, th, end_now);
    assert forall|t: Seq<char>| v2.depths.contains_key(t) implies v2.depths[t] as int == (
    v2.open_of(t) - 1) % (DEPTH_MODULUS as int) by {
        if t != th {
            assert(v.depths.contains_key(t));
            assert(v2.open_of(t) == v.open_of(t));
            assert(v2.depths[t] == v.depths[t]);
        } else {
            assert(v2.open_of(th) == v.open_of(th) - 1);
            assert(v2.depths[th] == wrap_dec(v.depths[th]));
        }
    }
    assert forall|t: Seq<char>| !v2.depths.contains_key(t) implies #[trigger] v2.open_of(t)
        == 0 by {
        assert(t != th);
        assert(!v.depths.contains_key(t));
        assert(v.open_of(t) == 0);
        assert(v2.open_of(t) == v.open_of(t));
    }
}

/// End-timestamp order at the tracer level: two blocks closed one after
/// the other on a thread, with end readings in order, stand in append
/// order at the tail of that thread's sequence and carry those readings
/// as non-decreasing end timestamps. A process's monotonic clock reads
/// in call order, so a thread's non-zero end timestamps never decrease.
pub proof fn lemma_successive_finishes_ordered(
    v: TracerView,
    b1: BlockView,
    b2: BlockView,
    th: Seq<char>,
    n1: u128,
    n2: u128,
)
    requires
        v.wf(),
        v.depths.contains_key(th),
        n1 != 0,
        n2 != 0,
        n1 <= n2,
    ensures
        ({
            let evs = events_of(
                spec_finish(spec_finish(v, b1, th, n1), b2, th, n2).events,
                th,
            );
            &&& evs.len() == events_of(v.events, th).len() + 2
            &&& evs[evs.len() - 2].end_timestamp == n1
            &&& evs[evs.len() - 1].end_timestamp == n2
            &&& evs[evs.len() - 2].end_timestamp <= evs[evs.len() - 1].end_timestamp
        }),
{
    let v1 = spec_finish(v, b1, th, n1);
    lemma_scoped_pairing(v, b1, th, n1);
    lemma_finish_preserves_wf(v, b1, th, n1);
    assert(v1.depths.contains_key(th));
    lemma_scoped_pairing(v1, b2, th, n2);
}

/// Timestamp order at the tracer level: two point events recorded one
/// after the other on a thread, with clock readings in order, stand in
/// append order at the tail of that thread's sequence and carry
/// non-decreasing timestamps. The clock readings of a process's
/// monotonic clock are always in call order, so a thread's recorded
/// timestamps never decrease.
pub proof fn lemma_successive_points_ordered(
    v: TracerView,
    th: Seq<char>,
    name1: Seq<char>,
    n1: u128,
    name2: Seq<char>,
    n2: u128,
)
    requires
        v.wf(),
        n1 <= n2,
    ensures
        ({
            let evs = events_of(
                spec_trace_point(spec_trace_point(v, th, name1, n1), th, name2, n2).events,
                th,
            );
            &&& evs.len() == events_of(v.events, th).len() + 2
            &&& evs[evs.len() - 2].timestamp == dur_of_nanos(elapsed_nanos(v.start, n1))
            &&& evs[evs.len() - 1].timestamp == dur_of_nanos(elapsed_nanos(v.start, n2))
            &&& crate::event::dur_le(evs[evs.len() - 2].timestamp, evs[evs.len() - 1].timestamp)
        }),
{
    let v1 = spec_trace_point(v, th, name1, n1);
    lemma_point_order(v, th, name1, n1);
    lemma_trace_point_preserves_wf(v, th, name1, n1);
    lemma_point_order(v1, th, name2, n2);
    crate::event::lemma_timestamp_monotone(v.start, n1, n2);
}

/// Depth accounting: while a thread has at least one scoped block open
/// (and fewer than two to the sixty-fourth), its registered counter —
/// the depth a closing block records — reads the number of its open
/// blocks minus one. The minus one is the registration quirk: a
/// thread's first block registers a zero counter instead of
/// incrementing, so the recorded depth counts the enclosing blocks
/// only.
pub proof fn lemma_depth_counts_open_scopes(v: TracerView, th: Seq<char>)
    requires
        v.wf(),
        1 <= v.open_of(th) <= DEPTH_MODULUS as int,
    ensures
        v.depths.contains_key(th),
        v.depths[th] as int == v.open_of(th) - 1,
{
    if !v.depths.contains_key(th) {
        assert(v.open_of(th) == 0);
        assert(false);
    }
    vstd::arithmetic::div_mod::lemma_small_mod(
        (v.open_of(th) - 1) as nat,
        DEPTH_MODULUS as nat,
    );
}

/// The round trip at the tracer level: the document a well-formed
/// tracer renders at finalize parses back to the very duration and
/// per-thread events it held.
pub proof fn lemma_end_report_round_trip(v: TracerView, end_now: u128)
    requires
        v.wf(),
    ensures
        crate::reader::parse_report(
            render_report(dur_of_nanos(elapsed_nanos(v.start, end_now)), v.events),
        ) == Some((dur_of_nanos(elapsed_nanos(v.start, end_now)), v.events)),
{
    crate::event::lemma_dur_of_nanos_wf(elapsed_nanos(v.start, end_now));
    crate::reader::lemma_rt_report(dur_of_nanos(elapsed_nanos(v.start, end_now)), v.events);
}

/// Point-event shape: every stored event with a zero end timestamp has
/// no payload fields, and every stored event with a non-zero end
/// timestamp has both.
pub proof fn lemma_event_shape(v: TracerView, i: int, k: int)
    requires
        v.wf(),
        0 <= i < v.events.len(),
        0 <= k < v.events[i].1.len(),
    ensures
        v.events[i].1[k].end_timestamp == 0 ==> v.events[i].1[k].size is None
            && v.events[i].1[k].plug is None,
        v.events[i].1[k].end_timestamp != 0 ==> v.events[i].1[k].size is Some
            && v.events[i].1[k].plug is Some,
{
    assert(event_wf(v.events[i].1[k]));
}

/// A scoped block: opening it increments the opening thread's depth;
/// closing it appends exactly one scoped event and decrements the
/// depth. The surrounding program closes it on every exit path.
pub struct TraceBlock {
    start: u128,
    event: String,
    size: u64,
    plug: bool,
}

impl View for TraceBlock {
    type V = BlockView;

    closed spec fn view(&self) -> BlockView {
        BlockView { start: self.start, event: self.event@, size: self.size, plug: self.plug }
    }
}

impl TraceBlock {
    /// Opens a scoped block on the named thread with the given start
    /// reading: the thread's depth is incremented (or registered), and
    /// no event is appended until the block closes.
    pub fn new_at(
        tracer: &mut Tracer,
        thread: &str,
        event: &str,
        size: u64,
        plug: bool,
        start_now: u128,
    ) -> (b: TraceBlock)
        requires
            old(tracer).wf(),
        ensures
            final(tracer).wf(),
            final(tracer)@ == spec_begin(old(tracer)@, thread@),
            b@ == (BlockView { start: start_now, event: event@, size, plug }),
    {
        tracer.increase_thread_depth(thread);
        TraceBlock { start: start_now, event: event.to_owned(), size, plug }
    }

    /// Opens a scoped block, reading the start instant from the
    /// monotonic clock.
    pub fn new(tracer: &mut Tracer, thread: &str, event: &str, size: u64, plug: bool) -> (b:
        TraceBlock)
        requires
            old(tracer).wf(),
        ensures
            final(tracer).wf(),
            final(tracer)@ == spec_begin(old(tracer)@, thread@),
            b@.event == event@,
            b@.size == size,
            b@.plug == plug,
    {
        tracer.increase_thread_depth(thread);
        let start_now = monotonic_clock();
        TraceBlock { start: start_now, event: event.to_owned(), size, plug }
    }

    /// Closes the block on the named thread at the given non-zero end
    /// reading: appends the one scoped event this block stands for,
    /// then decrements the thread's depth. The thread must have a depth
    /// entry — closing a block on a thread that never opened one is the
    /// unmatched decrease the tracer treats as fatal.
    pub fn finish_at(self, tracer: &mut Tracer, thread: &str, end_now: u128)
        requires
            old(tracer).wf(),
            old(tracer)@.depths.contains_key(thread@),
            end_now != 0,
        ensures
            final(tracer).wf(),
            final(tracer)@ == spec_finish(old(tracer)@, self@, thread@, end_now),
    {
        let ghost pre = tracer@;
        let ghost b = self@;
        let TraceBlock { start, event, size, plug } = self;
        let depth = tracer.thread_depth(thread);
        let elapsed = elapsed_exec(tracer.start, start);
        let timestamp = duration_from_nanos(elapsed);
        let record = TraceEvent {
            timestamp,
            event,
            end_timestamp: end_now,
            depth,
            size: Some(size),
            plug: Some(plug),
        };
        tracer.add_event(thread, record);
        tracer.decrease_thread_depth(thread);
        proof {
            assert(tracer@ == spec_finish(pre, b, thread@, end_now));
        }
    }

    /// Closes the block at the current monotonic clock. A reading of
    /// zero (which a running system's monotonic clock never produces)
    /// is nudged to one so that the end timestamp stays a scoped-event
    /// marker.
    pub fn finish(self, tracer: &mut Tracer, thread: &str)
        requires
            old(tracer).wf(),
            old(tracer)@.depths.contains_key(thread@),
        ensures
            final(tracer).wf(),
            exists|end_now: u128|
                end_now != 0 && final(tracer)@ == spec_finish(
                    old(tracer)@,
                    self@,
                    thread@,
                    end_now,
                ),
    {
        let ghost pre = tracer@;
        let ghost b = self@;
        let raw = monotonic_clock();
        let end_now: u128 = if raw == 0 {
            1
        } else {
            raw
        };
        self.finish_at(tracer, thread, end_now);
        proof {
            assert(end_now != 0 && tracer@ == spec_finish(pre, b, thread@, end_now));
        }
    }
}

} // verus!
