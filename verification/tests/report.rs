use tracer::{report_path, TraceBlock, Tracer};

fn parsed(doc: &str) -> serde_json::Value {
    serde_json::from_str(doc).expect("report must be valid JSON")
}

#[test]
fn s6_report_file_name() {
    assert_eq!(
        report_path(1234).as_str(),
        "cloud-hypervisor-1234.virtio-mem-trace"
    );
    assert_eq!(report_path(0).as_str(), "cloud-hypervisor-0.virtio-mem-trace");
    assert_eq!(
        report_path(u32::MAX).as_str(),
        "cloud-hypervisor-4294967295.virtio-mem-trace"
    );
}

#[test]
fn empty_report_exact_text() {
    let t = Tracer::starting_at(5);
    let doc = t.end_at(10);
    assert_eq!(
        doc.as_str(),
        "{\n  \"duration\": {\n    \"secs\": 0,\n    \"nanos\": 5\n  },\n  \"events\": {}\n}"
    );
}

#[test]
fn duration_splits_seconds_and_nanos() {
    let t = Tracer::starting_at(0);
    let doc = t.end_at(3_500_000_042);
    let v = parsed(&doc);
    assert_eq!(v["duration"]["secs"], 3);
    assert_eq!(v["duration"]["nanos"], 500_000_042);
}

#[test]
fn duration_clamps_at_largest_representable() {
    let t = Tracer::starting_at(0);
    let doc = t.end_at(u128::MAX);
    let v = parsed(&doc);
    assert_eq!(v["duration"]["secs"], u64::MAX);
    assert_eq!(v["duration"]["nanos"], 999_999_999);
}

#[test]
fn duration_saturates_when_end_precedes_start() {
    let t = Tracer::starting_at(100);
    let doc = t.end_at(40);
    let v = parsed(&doc);
    assert_eq!(v["duration"]["secs"], 0);
    assert_eq!(v["duration"]["nanos"], 0);
}

#[test]
fn escaped_names_round_trip_through_json() {
    let mut t = Tracer::starting_at(0);
    let name = "a\"b\\c\nd\te\u{1}f";
    t.trace_point_at("thread \"one\"", name, 10);
    let doc = t.end_at(20);
    let v = parsed(&doc);
    let bucket = v["events"]["thread \"one\""]
        .as_array()
        .expect("escaped thread key survives the round trip");
    assert_eq!(bucket.len(), 1);
    assert_eq!(bucket[0]["event"], name);
}

#[test]
fn numbers_render_in_canonical_decimal() {
    let mut t = Tracer::starting_at(0);
    let b = TraceBlock::new_at(&mut t, "w", "big", u64::MAX, true, 7);
    b.finish_at(&mut t, "w", u128::MAX);
    let doc = t.end_at(9);
    assert!(doc.contains("\"size\": 18446744073709551615"));
    assert!(doc.contains("\"end_timestamp\": 340282366920938463463374607431768211455"));
    let v = parsed(&doc);
    assert_eq!(v["events"]["w"][0]["size"], u64::MAX);
}

#[test]
fn full_report_reparses_to_the_snapshot() {
    let mut t = Tracer::starting_at(1_000_000_000);
    t.trace_point_at("main", "boot", 1_000_000_100);
    let b = TraceBlock::new_at(&mut t, "main", "resize", 4096, false, 1_000_000_200);
    b.finish_at(&mut t, "main", 2_000_000_000);
    t.trace_point_at("aux", "tick", 3_000_000_000);
    let doc = t.end_at(4_500_000_000);
    let v = parsed(&doc);

    assert_eq!(v["duration"]["secs"], 3);
    assert_eq!(v["duration"]["nanos"], 500_000_000);

    let main = v["events"]["main"].as_array().unwrap();
    assert_eq!(main.len(), 2);
    assert_eq!(main[0]["event"], "boot");
    assert_eq!(main[0]["timestamp"]["secs"], 0);
    assert_eq!(main[0]["timestamp"]["nanos"], 100);
    assert_eq!(main[0]["end_timestamp"], 0);
    assert_eq!(main[0]["depth"], 0);
    assert!(main[0]["size"].is_null());
    assert!(main[0]["plug"].is_null());
    assert_eq!(main[1]["event"], "resize");
    assert_eq!(main[1]["timestamp"]["nanos"], 200);
    assert_eq!(main[1]["end_timestamp"], 2_000_000_000u64);
    assert_eq!(main[1]["depth"], 0);
    assert_eq!(main[1]["size"], 4096);
    assert_eq!(main[1]["plug"], false);

    let aux = v["events"]["aux"].as_array().unwrap();
    assert_eq!(aux.len(), 1);
    assert_eq!(aux[0]["event"], "tick");
    assert_eq!(aux[0]["timestamp"]["secs"], 2);
}
