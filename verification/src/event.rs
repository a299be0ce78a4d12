//! The record model: durations split into seconds and nanoseconds, and
//! the trace event itself, which is either a point event (an instant,
//! no payload) or a scoped event (a duration with a payload).

use vstd::prelude::*;

verus! {

pub const NANOS_PER_SEC: u64 = 1_000_000_000;

/// A span of time split into whole seconds and a sub-second remainder,
/// as it appears in the report.
#[derive(Clone, Copy, PartialEq, Eq, Debug)]
pub struct DurationRep {
    pub secs: u64,
    pub nanos: u32,
}

impl DurationRep {
    /// A duration is well formed when the nanosecond part is a proper
    /// sub-second remainder.
    pub open spec fn wf(self) -> bool {
        self.nanos < NANOS_PER_SEC
    }
}

/// Nanoseconds elapsed from `start` to `now` on the same clock; zero if
/// `now` reads earlier than `start` (a monotonic clock never does).
pub open spec fn elapsed_nanos(start: u128, now: u128) -> u128 {
    if now >= start {
        (now - start) as u128
    } else {
        0
    }
}

/// The seconds/nanoseconds split of a nanosecond count. A count whose
/// seconds part overflows `u64` saturates at the largest representable
/// duration; no in-process clock span comes anywhere near it.
pub open spec fn dur_of_nanos(n: u128) -> DurationRep {
    if n / (NANOS_PER_SEC as u128) > u64::MAX as u128 {
        DurationRep { secs: u64::MAX, nanos: (NANOS_PER_SEC - 1) as u32 }
    } else {
        DurationRep { secs: (n / (NANOS_PER_SEC as u128)) as u64, nanos: (n % (NANOS_PER_SEC as u128)) as u32 }
    }
}

/// Splits a nanosecond count into seconds and a sub-second remainder.
pub fn duration_from_nanos(n: u128) -> (d: DurationRep)
    ensures
        d == dur_of_nanos(n),
        d.wf(),
{
    let div: u128 = n / (NANOS_PER_SEC as u128);
    if div > u64::MAX as u128 {
        DurationRep { secs: u64::MAX, nanos: NANOS_PER_SEC as u32 - 1 }
    } else {
        DurationRep { secs: div as u64, nanos: (n % (NANOS_PER_SEC as u128)) as u32 }
    }
}

/// One trace record. `end_timestamp` is `0` exactly on point events,
/// which carry no payload; scoped events carry both payload fields.
#[derive(PartialEq, Eq, Debug)]
pub struct TraceEvent {
    /// Time since tracer start at which the event began.
    pub timestamp: DurationRep,
    /// Short name of the event.
    pub event: String,
    /// Absolute monotonic-clock nanoseconds at which the event ended;
    /// `0` for point events.
    pub end_timestamp: u128,
    /// Nesting depth of the recording thread at record time.
    pub depth: u64,
    /// Payload magnitude; absent for point events.
    pub size: Option<u64>,
    /// Payload polarity flag; absent for point events.
    pub plug: Option<bool>,
}

/// The mathematical shape of a trace event.
pub struct EventView {
    pub timestamp: DurationRep,
    pub event: Seq<char>,
    pub end_timestamp: u128,
    pub depth: u64,
    pub size: Option<u64>,
    pub plug: Option<bool>,
}

impl View for TraceEvent {
    type V = EventView;

    open spec fn view(&self) -> EventView {
        EventView {
            timestamp: self.timestamp,
            event: self.event@,
            end_timestamp: self.end_timestamp,
            depth: self.depth,
            size: self.size,
            plug: self.plug,
        }
    }
}

/// A point event: an instant with no payload.
pub open spec fn point_shaped(e: EventView) -> bool {
    &&& e.end_timestamp == 0
    &&& e.size is None
    &&& e.plug is None
}

/// A scoped event: an ended duration with both payload fields present.
pub open spec fn scoped_shaped(e: EventView) -> bool {
    &&& e.end_timestamp != 0
    &&& e.size is Some
    &&& e.plug is Some
}

/// Every stored event is of one of the two shapes, with a well-formed
/// relative timestamp.
pub open spec fn event_wf(e: EventView) -> bool {
    &&& point_shaped(e) || scoped_shaped(e)
    &&& e.timestamp.wf()
}

/// The point event recorded for `name` at `timestamp` and `depth`.
pub open spec fn point_ev(name: Seq<char>, timestamp: DurationRep, depth: u64) -> EventView {
    EventView {
        timestamp,
        event: name,
        end_timestamp: 0,
        depth,
        size: None,
        plug: None,
    }
}

/// The scoped event recorded for `name`, started at `timestamp`, ended
/// at absolute clock reading `end_timestamp`, with its payload.
pub open spec fn scoped_ev(
    name: Seq<char>,
    timestamp: DurationRep,
    end_timestamp: u128,
    depth: u64,
    size: u64,
    plug: bool,
) -> EventView {
    EventView {
        timestamp,
        event: name,
        end_timestamp,
        depth,
        size: Some(size),
        plug: Some(plug),
    }
}

/// Order on report durations: by seconds, then by the sub-second part.
pub open spec fn dur_le(a: DurationRep, b: DurationRep) -> bool {
    a.secs < b.secs || (a.secs == b.secs && a.nanos <= b.nanos)
}

/// The seconds/nanoseconds split always yields a well-formed duration.
pub proof fn lemma_dur_of_nanos_wf(n: u128)
    ensures
        dur_of_nanos(n).wf(),
{
    vstd::arithmetic::div_mod::lemma_mod_bound(n as int, NANOS_PER_SEC as int);
}

/// The seconds/nanoseconds split preserves order.
pub proof fn lemma_dur_of_nanos_monotone(m1: u128, m2: u128)
    requires
        m1 <= m2,
    ensures
        dur_le(dur_of_nanos(m1), dur_of_nanos(m2)),
{
    let g = NANOS_PER_SEC as int;
    vstd::arithmetic::div_mod::lemma_div_is_ordered(m1 as int, m2 as int, g);
    vstd::arithmetic::div_mod::lemma_fundamental_div_mod(m1 as int, g);
    vstd::arithmetic::div_mod::lemma_fundamental_div_mod(m2 as int, g);
    vstd::arithmetic::div_mod::lemma_mod_bound(m1 as int, g);
    vstd::arithmetic::div_mod::lemma_mod_bound(m2 as int, g);
}

/// Timestamp monotonicity: a later clock reading yields a later (or
/// equal) relative timestamp, both as nanoseconds and as the rendered
/// seconds/nanoseconds split. Events a thread records in call order
/// with a monotone clock therefore carry non-decreasing timestamps,
/// and their non-zero end timestamps are the clock readings themselves,
/// likewise non-decreasing.
pub proof fn lemma_timestamp_monotone(start: u128, n1: u128, n2: u128)
    requires
        n1 <= n2,
    ensures
        elapsed_nanos(start, n1) <= elapsed_nanos(start, n2),
        dur_le(dur_of_nanos(elapsed_nanos(start, n1)), dur_of_nanos(elapsed_nanos(start, n2))),
{
    lemma_dur_of_nanos_monotone(elapsed_nanos(start, n1), elapsed_nanos(start, n2));
}

/// A sequence of events sorted by timestamp stays sorted when an event
/// no earlier than its last is appended.
pub open spec fn ts_sorted(evs: Seq<EventView>) -> bool {
    forall|i: int, j: int|
        0 <= i <= j < evs.len() ==> dur_le((#[trigger] evs[i]).timestamp, (#[trigger] evs[j]).timestamp)
}

/// Appending in timestamp order preserves sortedness.
pub proof fn lemma_sorted_push(evs: Seq<EventView>, e: EventView)
    requires
        ts_sorted(evs),
        evs.len() > 0 ==> dur_le(evs.last().timestamp, e.timestamp),
    ensures
        ts_sorted(evs.push(e)),
{
    let s2 = evs.push(e);
    assert forall|i: int, j: int|
        0 <= i <= j < s2.len() implies dur_le((#[trigger] s2[i]).timestamp, (#[trigger] s2[j]).timestamp) by {
        if j < evs.len() {
            assert(dur_le(evs[i].timestamp, evs[j].timestamp));
        } else if i < evs.len() {
            assert(dur_le(evs[i].timestamp, evs[evs.len() - 1].timestamp));
        } else {
            assert(s2[i] == e);
        }
    }
}

} // verus!
