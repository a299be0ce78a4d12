use tracer::clock::nanos_of_parts;
use tracer::depths::DepthRegistry;
use tracer::store::EventStore;
use tracer::{DurationRep, TraceBlock, TraceEvent, Tracer};

fn parsed(doc: &str) -> serde_json::Value {
    serde_json::from_str(doc).expect("report must be valid JSON")
}

#[test]
fn s1_single_thread_point_events() {
    let mut t = Tracer::starting_at(1_000);
    t.trace_point_at("main", "A", 1_500);
    t.trace_point_at("main", "B", 1_600);
    let doc = t.end_at(2_000);
    let v = parsed(&doc);
    assert_eq!(v["duration"]["secs"], 0);
    assert_eq!(v["duration"]["nanos"], 1_000);
    let evs = v["events"]["main"].as_array().expect("main thread bucket");
    assert_eq!(evs.len(), 2);
    for ev in evs {
        assert_eq!(ev["end_timestamp"], 0);
        assert_eq!(ev["depth"], 0);
        assert!(ev["size"].is_null());
        assert!(ev["plug"].is_null());
    }
    assert_eq!(evs[0]["event"], "A");
    assert_eq!(evs[1]["event"], "B");
    assert_eq!(evs[0]["timestamp"]["nanos"], 500);
    assert_eq!(evs[1]["timestamp"]["nanos"], 600);
}

#[test]
fn s2_nested_scopes_one_thread() {
    let mut t = Tracer::starting_at(0);
    let outer = TraceBlock::new_at(&mut t, "w1", "outer", 4096, true, 10);
    let inner = TraceBlock::new_at(&mut t, "w1", "inner", 64, false, 20);
    inner.finish_at(&mut t, "w1", 100);
    outer.finish_at(&mut t, "w1", 200);
    let doc = t.end_at(300);
    let v = parsed(&doc);
    let evs = v["events"]["w1"].as_array().expect("w1 bucket");
    assert_eq!(evs.len(), 2);
    // The inner block exits first, so its event is appended first.
    assert_eq!(evs[0]["event"], "inner");
    assert_eq!(evs[0]["size"], 64);
    assert_eq!(evs[0]["plug"], false);
    assert_eq!(evs[0]["end_timestamp"], 100);
    assert_eq!(evs[0]["timestamp"]["nanos"], 20);
    assert_eq!(evs[1]["event"], "outer");
    assert_eq!(evs[1]["size"], 4096);
    assert_eq!(evs[1]["plug"], true);
    assert_eq!(evs[1]["end_timestamp"], 200);
    assert_eq!(evs[1]["timestamp"]["nanos"], 10);
    // A thread's first block registers a zero counter instead of
    // incrementing, so the nested block records depth 1 and the
    // outermost depth 0.
    assert_eq!(evs[0]["depth"], 1);
    assert_eq!(evs[1]["depth"], 0);
}

#[test]
fn s3_two_threads_interleaved() {
    let mut t = Tracer::starting_at(0);
    t.trace_point_at("a", "pa", 10);
    t.trace_point_at("b", "pb", 11);
    let ba = TraceBlock::new_at(&mut t, "a", "sa", 1, true, 12);
    let bb = TraceBlock::new_at(&mut t, "b", "sb", 2, false, 13);
    ba.finish_at(&mut t, "a", 20);
    bb.finish_at(&mut t, "b", 21);
    let doc = t.end_at(30);
    let v = parsed(&doc);
    let a = v["events"]["a"].as_array().expect("a bucket");
    let b = v["events"]["b"].as_array().expect("b bucket");
    assert_eq!(a.len(), 2);
    assert_eq!(b.len(), 2);
    assert_eq!(a[0]["event"], "pa");
    assert_eq!(a[1]["event"], "sa");
    assert_eq!(b[0]["event"], "pb");
    assert_eq!(b[1]["event"], "sb");
}

#[test]
fn s5_unnamed_thread_uses_empty_key() {
    let mut t = Tracer::starting_at(0);
    t.trace_point_at("", "first", 1);
    t.trace_point_at("", "second", 2);
    let doc = t.end_at(3);
    let v = parsed(&doc);
    let bucket = v["events"][""].as_array().expect("empty-name bucket");
    assert_eq!(bucket.len(), 2);
    assert_eq!(bucket[0]["event"], "first");
    assert_eq!(bucket[1]["event"], "second");
}

#[test]
fn s4_unseen_thread_has_no_entry_to_decrease() {
    // An unmatched decrease is a fatal error; the tracer exposes the
    // registry state so the caller can detect it before the abort.
    let t = Tracer::starting_at(0);
    assert!(!t.has_thread_depth("w"));
    assert_eq!(t.thread_depth("w"), 0);
}

#[test]
fn first_scope_registers_zero_then_increments() {
    let mut t = Tracer::starting_at(0);
    let b1 = TraceBlock::new_at(&mut t, "w", "one", 0, false, 1);
    assert_eq!(t.thread_depth("w"), 0);
    let b2 = TraceBlock::new_at(&mut t, "w", "two", 0, false, 2);
    assert_eq!(t.thread_depth("w"), 1);
    b2.finish_at(&mut t, "w", 10);
    assert_eq!(t.thread_depth("w"), 0);
    b1.finish_at(&mut t, "w", 11);
    // The counter was registered at zero, so closing the first block
    // wraps it around, exactly as the atomic decrement would.
    assert_eq!(t.thread_depth("w"), u64::MAX);
}

#[test]
fn clock_paths_record_shaped_events() {
    let mut t = Tracer::new();
    t.trace_point("main", "p");
    let b = TraceBlock::new(&mut t, "main", "s", 7, true);
    b.finish(&mut t, "main");
    let doc = t.end();
    let v = parsed(&doc);
    let evs = v["events"]["main"].as_array().expect("main bucket");
    assert_eq!(evs.len(), 2);
    assert_eq!(evs[0]["end_timestamp"], 0);
    assert!(evs[0]["size"].is_null());
    let end = evs[1]["end_timestamp"].as_u64();
    assert!(end.is_some() && end.unwrap() > 0);
    assert_eq!(evs[1]["size"], 7);
    assert_eq!(evs[1]["plug"], true);
    // The monotonic clock never runs backward within a process.
    let t0 = (
        evs[0]["timestamp"]["secs"].as_u64().unwrap(),
        evs[0]["timestamp"]["nanos"].as_u64().unwrap(),
    );
    let t1 = (
        evs[1]["timestamp"]["secs"].as_u64().unwrap(),
        evs[1]["timestamp"]["nanos"].as_u64().unwrap(),
    );
    assert!(t0 <= t1);
}

#[test]
fn noop_variant_is_inert() {
    tracer::start_relative();
    tracer::end_relative();
}

#[test]
fn clock_parts_compose_to_nanoseconds() {
    assert_eq!(nanos_of_parts(0, 0), 0);
    assert_eq!(nanos_of_parts(3, 500), 3_000_000_500);
    assert_eq!(nanos_of_parts(i64::MAX, 999_999_999), 9_223_372_036_854_775_807_999_999_999);
    // A negative seconds part, which a monotonic clock never produces,
    // counts as zero seconds.
    assert_eq!(nanos_of_parts(-5, 7), 7);
}

#[test]
fn registry_counts_and_wraps() {
    let mut r = DepthRegistry::new();
    assert!(!r.contains("a"));
    assert_eq!(r.read("a"), 0);
    r.increase("a");
    assert!(r.contains("a"));
    assert_eq!(r.read("a"), 0);
    r.increase("a");
    assert_eq!(r.read("a"), 1);
    r.decrease("a");
    assert_eq!(r.read("a"), 0);
    r.decrease("a");
    assert_eq!(r.read("a"), u64::MAX);
    assert_eq!(r.read("b"), 0);
}

#[test]
fn store_appends_in_thread_order() {
    let ev = |name: &str, n: u32| TraceEvent {
        timestamp: DurationRep { secs: 0, nanos: n },
        event: name.to_string(),
        end_timestamp: 0,
        depth: 0,
        size: None,
        plug: None,
    };
    let mut s = EventStore::new();
    s.append("b", ev("one", 1));
    s.append("a", ev("two", 2));
    s.append("b", ev("three", 3));
    let entries = s.drain();
    assert_eq!(entries.len(), 2);
    assert_eq!(entries[0].0, "b");
    assert_eq!(entries[0].1.len(), 2);
    assert_eq!(entries[0].1[0].event, "one");
    assert_eq!(entries[0].1[1].event, "three");
    assert_eq!(entries[1].0, "a");
    assert_eq!(entries[1].1[0].event, "two");
}
