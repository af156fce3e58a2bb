use std::collections::BTreeMap;

use garmr::archive::ColdArchive;
use garmr::events::actor::{Actor, Doing, Report};
use garmr::events::columns::{
    build_events_batch, build_events_batch_attributed, event_id_for, events_schema, fold_workers,
    wire_schema, Event, Kind, Run, TextColumn, EVENT_BLOOM_COLUMN, PARALLEL_ROW_THRESHOLD,
    T_EVENTS, V1_COLUMNS,
};
use garmr::events::dedup::Dedup;
use garmr::events::prune::{
    erase_mask, Fate, PrunePlan, PruneStats, RetentionClass, Row, Tombstone, TombstoneMatcher,
};
use garmr::events::spans::Spans;
use garmr::events::wire::{build_events_batch_from_wire, build_wire_batch, WireError};
use garmr::events::writer::{
    compact_threshold, is_orphan, is_scratch, local_dir, query_partitions, reload_failed,
    CompactPolicy, Intake, Reload,
};
use garmr::state::cold::mark_hot_pruned;

const DAY_US: i64 = 86_400_000_000;
const NOW: i64 = 1_755_000_000_000_000;

#[test]
fn query_parallelism_reserves_cpu_headroom() {
    assert_eq!(query_partitions(1), 1);
    assert_eq!(query_partitions(2), 1);
    assert_eq!(query_partitions(3), 1);
    assert_eq!(query_partitions(4), 2);
    assert_eq!(query_partitions(32), 16);
}

#[test]
fn dedup_admits_new_rejects_recent_and_evicts_oldest() {
    let mut d = Dedup::new(3);
    assert!(d.accept("a".into()));
    assert!(d.accept("b".into()));
    assert!(!d.accept("a".into()), "an in-window id is a duplicate");
    assert!(d.accept("c".into()));
    // The order is a, b, c: accepting d forgets a.
    assert!(d.accept("d".into()));
    assert!(d.accept("a".into()));
    assert!(!d.accept("d".into()), "d is still in window");
}

#[test]
fn a_batch_that_comes_again_is_dropped_whole() {
    let ids: Vec<Option<String>> = (0..50).map(|i| Some(format!("id-{i}"))).collect();
    let mut d = Dedup::new(50);
    assert!(d.accept("older".into()));
    assert!(d.mask(&ids).iter().all(|k| *k));
    assert!(d.mask(&ids).iter().all(|k| !*k));
    assert_eq!(
        d.mask(&vec![None, Some("x".into()), None, Some("x".into())]),
        [true, true, true, false]
    );
}

#[test]
fn ingest_dedup_drops_retries_but_keeps_distinct_events() {
    let id = |e: &Event| Some(event_id_for(e));
    let mut dup = ev();
    dup.message = "dup line".into();
    let mut other = ev();
    other.message = "other line".into();
    let mut intake = Intake::new(1024);
    assert_eq!(intake.mask(1, Some(&vec![id(&dup)])), [true]);
    assert_eq!(intake.mask(1, Some(&vec![id(&dup)])), [false], "the retry was dropped");
    assert_eq!(intake.mask(2, Some(&vec![id(&other), id(&dup)])), [true, false]);
    assert_eq!(intake.mask(2, None), [true, true]);
    let mut open = Intake::new(0);
    assert_eq!(open.mask(2, Some(&vec![id(&dup), id(&dup)])), [true, true]);
}

#[test]
fn a_memory_of_nothing_still_knows_the_last_id() {
    let mut d = Dedup::new(0);
    assert!(d.accept("a".into()));
    assert!(!d.accept("a".into()));
    assert!(d.accept("b".into()));
    assert!(d.accept("a".into()));
}

#[test]
fn parallel_threshold_is_reachable_at_production_batch_sizes() {
    const MEASURED_BREAK_EVEN_ROWS: usize = 734;
    const MARGIN: usize = 4;
    assert!(PARALLEL_ROW_THRESHOLD <= MEASURED_BREAK_EVEN_ROWS * MARGIN);
}

#[test]
fn small_batches_are_folded_by_one_worker() {
    assert_eq!(fold_workers(PARALLEL_ROW_THRESHOLD - 1), 1);
    assert_eq!(fold_workers(PARALLEL_ROW_THRESHOLD), 0);
}

fn row(ts: i64, source: &str) -> Row {
    Row { ts_us: Some(ts), source: Some(source.into()), host: None, fields: None }
}

fn arc_at(id: &str, start_us: i64, end_us: i64, held: bool) -> ColdArchive {
    ColdArchive {
        id: id.into(),
        kind: "plain".into(),
        file: format!("{id}.parquet"),
        start_us,
        end_us,
        rows: 1,
        bytes_in: 1,
        bytes_out: 1,
        checksum: "c".into(),
        hot_pruned: false,
        sealed_at_us: NOW,
        legal_hold: held,
    }
}

fn kunai_10d() -> Vec<RetentionClass> {
    vec![RetentionClass { source: "kunai".into(), hot_days: 10 }]
}

fn plan(archives: Vec<ColdArchive>, classes: Vec<RetentionClass>, t: Vec<Tombstone>) -> PrunePlan {
    PrunePlan::build(true, Some(&archives), &classes, Some(t), NOW).expect("a plan")
}

fn kept(plan: &PrunePlan, rows: Vec<Row>) -> (usize, PruneStats) {
    let mut stats = PruneStats::new();
    let mask = plan.mask(&rows, &mut stats);
    (mask.iter().filter(|k| **k).count(), stats)
}

#[test]
fn class_rows_past_their_hot_window_prune_and_other_sources_stay() {
    let p = plan(vec![], kunai_10d(), vec![]);
    let (n, stats) = kept(
        &p,
        vec![
            row(NOW - 12 * DAY_US, "kunai"),
            row(NOW - 12 * DAY_US, "journald"),
            row(NOW - 2 * DAY_US, "kunai"),
        ],
    );
    assert_eq!(n, 2, "only the aged kunai row goes");
    assert_eq!(stats.class, 1);
    assert_eq!(stats.sealed, 0);
}

#[test]
fn a_legal_hold_keeps_class_rows_that_would_otherwise_prune() {
    let held = arc_at("held", NOW - 15 * DAY_US, NOW - 11 * DAY_US, true);
    let p = plan(vec![held], kunai_10d(), vec![]);
    let (n, stats) = kept(
        &p,
        vec![
            row(NOW - 12 * DAY_US, "kunai"),
            row(NOW - 20 * DAY_US, "kunai"),
            row(NOW - 12 * DAY_US, "journald"),
        ],
    );
    assert_eq!(n, 1, "only the held kunai row survives");
    assert_eq!(stats.class, 1);
    assert_eq!(stats.sealed, 1);
}

#[test]
fn per_reason_counters_split_sealed_from_class() {
    let w = arc_at("w", NOW - 30 * DAY_US, NOW - 20 * DAY_US, false);
    let p = plan(vec![w], kunai_10d(), vec![]);
    assert_eq!(p.to_mark(true), vec!["w".to_string()]);
    assert!(p.to_mark(false).is_empty());
    let (n, stats) = kept(
        &p,
        vec![
            row(NOW - 25 * DAY_US, "journald"),
            row(NOW - 25 * DAY_US, "kunai"),
            row(NOW - 12 * DAY_US, "kunai"),
            row(NOW - DAY_US, "journald"),
        ],
    );
    assert_eq!(n, 1);
    assert_eq!(stats.sealed, 1);
    assert_eq!(stats.class, 2);
}

#[test]
fn without_retention_enabled_nothing_ever_prunes() {
    assert!(PrunePlan::build(false, Some(&vec![]), &kunai_10d(), None, NOW).is_none());
}

#[test]
fn without_a_reason_or_a_manifest_nothing_prunes() {
    assert!(PrunePlan::build(true, None, &kunai_10d(), None, NOW).is_none());
    assert!(PrunePlan::build(true, Some(&vec![]), &vec![], None, NOW).is_none());
    assert!(PrunePlan::build(true, Some(&vec![]), &vec![], Some(vec![]), NOW).is_none());
}

#[test]
fn marking_hot_pruned_flips_only_the_named_archives() {
    let mut table: BTreeMap<String, ColdArchive> = BTreeMap::new();
    table.insert("a".into(), arc_at("a", NOW - 30 * DAY_US, NOW - 20 * DAY_US, false));
    table.insert("b".into(), arc_at("b", NOW - 20 * DAY_US, NOW - 10 * DAY_US, false));
    for id in ["a", "missing"] {
        if let Some(a) = mark_hot_pruned(table.get(id).cloned()) {
            table.insert(id.into(), a);
        }
    }
    assert!(table["a"].hot_pruned, "named archive flipped");
    assert!(!table["b"].hot_pruned, "unnamed archive untouched");
    assert!(mark_hot_pruned(table.get("a").cloned()).is_none());
}

fn tombstone(needle: Option<&str>, value: &str) -> Tombstone {
    Tombstone {
        id: "t".into(),
        needle: needle.map(str::to_string),
        value: value.into(),
        from_us: None,
        to_us: None,
        placed_at_us: 0,
        reason: String::new(),
    }
}

#[test]
fn tombstones_strike_what_nothing_else_drops() {
    let w = arc_at("w", 0, 10, false);
    let p = plan(vec![w], kunai_10d(), vec![tombstone(None, "h"), tombstone(Some("\"u\":\"x\""), "x")]);
    let with = |ts: Option<i64>, source: &str, host: &str, fields: Option<&str>| Row {
        ts_us: ts,
        source: Some(source.into()),
        host: Some(host.into()),
        fields: fields.map(str::to_string),
    };
    assert_eq!(p.judge(&with(Some(50), "s", "h", None)), Fate::Erased);
    assert_eq!(p.judge(&with(Some(50), "s", "g", None)), Fate::Kept);
    assert_eq!(p.judge(&with(Some(50), "s", "g", Some("{\"u\":\"x\"}"))), Fate::Erased);
    assert_eq!(p.judge(&with(Some(5), "s", "h", None)), Fate::Sealed);
    assert_eq!(p.judge(&with(None, "s", "h", None)), Fate::Kept);
    assert_eq!(p.judge(&with(Some(NOW), "kunai", "h", None)), Fate::Kept);
}

#[test]
fn a_class_without_days_keeps_rows_for_one() {
    let p = plan(vec![], vec![RetentionClass { source: "s".into(), hot_days: 0 }], vec![]);
    assert_eq!(p.judge(&row(NOW - DAY_US, "s")), Fate::Kept);
    assert_eq!(p.judge(&row(NOW - DAY_US - 1, "s")), Fate::Expired);
    let twice = vec![
        RetentionClass { source: "s".into(), hot_days: 1 },
        RetentionClass { source: "s".into(), hot_days: 9 },
    ];
    assert_eq!(plan(vec![], twice, vec![]).judge(&row(NOW - 5 * DAY_US, "s")), Fate::Kept);
}

#[test]
fn windows_that_overlap_are_all_sealed() {
    let p = plan(vec![arc_at("a", 0, 100, false), arc_at("b", 10, 20, false)], vec![], vec![]);
    assert_eq!(p.judge(&row(50, "s")), Fate::Sealed);
    assert_eq!(p.judge(&row(100, "s")), Fate::Kept);
}

#[test]
fn spans_hold_what_was_put_in() {
    let mut s = Spans::new();
    for (a, b) in [(10, 20), (30, 40), (0, 5), (18, 32), (50, 50), (60, 55)] {
        s.insert(a, b);
    }
    let inside: Vec<i64> = (-5..70).filter(|us| s.has(*us)).collect();
    let want: Vec<i64> = (0..5).chain(10..40).collect();
    assert_eq!(inside, want);
}

#[test]
fn erase_removes_the_subject_and_spares_everyone_else() {
    let needle = "\"src_ip\":\"203.0.113.7\"";
    let m = TombstoneMatcher::new(vec![tombstone(Some(needle), "203.0.113.7")]);
    let with_ip = |msg: &str, ip: &str| {
        let mut e = ev();
        e.message = msg.into();
        e.fields.insert("src_ip".into(), ip.into());
        let b = build_events_batch(&[e], NOW);
        Row {
            ts_us: Some(b.event_ts[0]),
            source: None,
            host: text(&b.host, 0),
            fields: text(&b.fields, 0),
        }
    };
    let rows = vec![
        with_ip("login A one", "203.0.113.7"),
        with_ip("login A two", "203.0.113.7"),
        with_ip("login B", "10.0.0.5"),
    ];
    let (mask, n) = erase_mask(&m, &rows);
    assert_eq!(n, 2, "both of A's rows go");
    assert_eq!(mask, [false, false, true], "B survives");
    let (_, again) = erase_mask(&m, &vec![with_ip("login B", "10.0.0.5")]);
    assert_eq!(again, 0, "re-run is a zero-delta no-op");
    let (mask, late) = erase_mask(
        &m,
        &vec![with_ip("login B", "10.0.0.5"), with_ip("late replay of A", "203.0.113.7")],
    );
    assert_eq!(late, 1);
    assert_eq!(mask, [true, false], "the late arrival converged away");
    assert!(TombstoneMatcher::new(vec![]).is_empty());
    assert!(!m.matches("h", None, 5));
}

fn ev() -> Event {
    Event {
        ts_us: NOW,
        host: "h".into(),
        service: "s".into(),
        source: "syslog".into(),
        environment: "prod".into(),
        severity: "info".into(),
        log_type: "system".into(),
        message: "m".into(),
        fields: BTreeMap::new(),
    }
}

fn copy(e: &Event) -> Event {
    Event {
        ts_us: e.ts_us,
        host: e.host.clone(),
        service: e.service.clone(),
        source: e.source.clone(),
        environment: e.environment.clone(),
        severity: e.severity.clone(),
        log_type: e.log_type.clone(),
        message: e.message.clone(),
        fields: e.fields.clone(),
    }
}

fn text(c: &TextColumn, i: usize) -> Option<String> {
    c.value(i).map(|b| String::from_utf8(b).unwrap())
}

#[test]
fn attributed_stamps_collector_and_trust_unattributed_is_null() {
    let e = ev();
    let batch = build_events_batch_attributed(
        &[(copy(&e), Some("collector-a".into())), (copy(&e), None)],
        NOW,
    );
    assert_eq!(text(&batch.collector_id, 0).as_deref(), Some("collector-a"));
    assert!(text(&batch.collector_id, 1).is_none());
    assert_eq!(text(&batch.source_trust, 0).as_deref(), Some("authenticated"));
    assert_eq!(text(&batch.source_trust, 1).as_deref(), Some("unverified"));

    let plain = build_events_batch(&[e], NOW);
    assert!(text(&plain.collector_id, 0).is_none());
    assert_eq!(text(&plain.source_trust, 0).as_deref(), Some("unverified"));
    assert_eq!(plain.schema_version, [2]);
    assert_eq!(plain.ingest_time, [NOW]);
}

#[test]
fn event_id_is_independent_of_collector_attribution() {
    let e = ev();
    let b = build_events_batch_attributed(&[(copy(&e), Some("x".into()))], NOW);
    assert_eq!(Some(event_id_for(&e)), text(&b.event_id, 0));
}

#[test]
fn an_event_goes_by_the_hash_of_its_content() {
    let mut e = ev();
    e.ts_us = -2;
    e.fields.insert("b".into(), "2".into());
    e.fields.insert("a".into(), "\"1\"".into());
    let mut h = blake3::Hasher::new();
    h.update(&(-2i64).to_le_bytes());
    for part in ["h", "syslog", "s", "m"] {
        h.update(&[0]);
        h.update(part.as_bytes());
    }
    h.update(&[0]);
    h.update(b"{\"a\":\"\\\"1\\\"\",\"b\":\"2\"}");
    assert_eq!(event_id_for(&e), h.finalize().to_hex().to_string());
    let mut other = copy(&e);
    other.severity = "crit".into();
    assert_eq!(event_id_for(&other), event_id_for(&e));
    other.message = "n".into();
    assert_ne!(event_id_for(&other), event_id_for(&e));
}

#[test]
fn parallel_provenance_matches_serial_oracle() {
    assert!(PARALLEL_ROW_THRESHOLD >= 2);
    let n = PARALLEL_ROW_THRESHOLD + 137;
    let events: Vec<Event> = (0..n)
        .map(|i| {
            let mut e = ev();
            e.host = format!("host-{i}");
            e.message = format!("line {i} user=mallory port={}", i % 65535);
            e.fields.insert("src_ip".into(), format!("10.0.{}.{}", i / 256, i % 256));
            e.fields.insert("seq".into(), i.to_string());
            e
        })
        .collect();
    // Folded in runs of uneven length and joined in order.
    let mut whole: Option<Run> = None;
    for part in events.chunks(911) {
        let run = Run::fold(part.iter().map(|e| (e, None)).collect());
        whole = Some(match whole {
            Some(w) => w.join(run),
            None => run,
        });
    }
    let batch = whole.unwrap().into_batch(NOW);
    let serial = build_events_batch(&events, NOW);
    assert_eq!(batch.event_ts.len(), n);
    assert_eq!(batch.event_id.rows.vals, serial.event_id.rows.vals);
    assert_eq!(batch.fields.rows.lens, serial.fields.rows.lens);
    for (i, e) in events.iter().enumerate().step_by(61) {
        assert_eq!(text(&batch.event_id, i), Some(event_id_for(e)), "event_id row {i}");
        assert_eq!(
            text(&batch.raw_payload_hash, i),
            Some(blake3::hash(e.message.as_bytes()).to_hex().to_string()),
            "payload_hash row {i}"
        );
        assert_eq!(
            text(&batch.fields, i),
            Some(serde_json::to_string(&e.fields).unwrap()),
            "fields json row {i}"
        );
        assert_eq!(text(&batch.host, i).as_ref(), Some(&e.host), "host row {i}");
        assert_eq!(text(&batch.service, i).as_ref(), Some(&e.service), "service row {i}");
        assert_eq!(text(&batch.source, i).as_ref(), Some(&e.source), "source row {i}");
        assert_eq!(text(&batch.environment, i).as_ref(), Some(&e.environment), "environment row {i}");
        assert_eq!(text(&batch.severity, i).as_ref(), Some(&e.severity), "severity row {i}");
        assert_eq!(text(&batch.log_type, i).as_ref(), Some(&e.log_type), "log_type row {i}");
        assert_eq!(text(&batch.message, i).as_ref(), Some(&e.message), "message row {i}");
        assert_eq!(text(&batch.parser_name, i).as_ref(), Some(&e.source), "parser_name row {i}");
    }
}

#[test]
fn wire_swallow_matches_native_provenance_and_stamps_collector() {
    let n = PARALLEL_ROW_THRESHOLD + 41;
    let events: Vec<Event> = (0..n)
        .map(|i| {
            let mut e = ev();
            e.host = format!("host-{i}");
            e.source = "flightbeat".into();
            e.message = format!("line {i} from {}", i % 7);
            e.fields.insert("src_ip".into(), format!("10.1.{}.{}", i / 256, i % 256));
            e
        })
        .collect();
    let native = build_events_batch(&events, NOW);
    let mut wire = build_wire_batch(&events);
    let swallowed = build_events_batch_from_wire(&wire, Some("collector-x"), NOW)
        .unwrap_or_else(|e| panic!("{}", e.message()));
    assert_eq!(swallowed.event_ts, native.event_ts);
    for (a, b) in [
        (&swallowed.event_id, &native.event_id),
        (&swallowed.raw_payload_hash, &native.raw_payload_hash),
        (&swallowed.fields, &native.fields),
        (&swallowed.host, &native.host),
        (&swallowed.message, &native.message),
    ] {
        assert_eq!(a.rows.vals, b.rows.vals);
        assert_eq!(a.rows.lens, b.rows.lens);
        assert_eq!(a.valid, b.valid);
    }
    for i in (0..n).step_by(97) {
        assert_eq!(text(&swallowed.source_trust, i).as_deref(), Some("authenticated"));
        assert_eq!(text(&swallowed.collector_id, i).as_deref(), Some("collector-x"));
    }
    let plain = build_events_batch_from_wire(&wire, None, NOW)
        .unwrap_or_else(|e| panic!("{}", e.message()));
    assert_eq!(text(&plain.source_trust, 0).as_deref(), Some("unverified"));
    assert!(text(&plain.collector_id, 0).is_none());

    wire.fields.truncate(3);
    assert!(build_events_batch_from_wire(&wire, None, NOW).is_err());
}

#[test]
fn arriving_batches_of_other_columns_are_refused() {
    let refused = |w| match build_events_batch_from_wire(&w, None, NOW) {
        Ok(_) => panic!("accepted"),
        Err(e) => e.message(),
    };
    let mut w = build_wire_batch(&[ev()]);
    w.fields.truncate(3);
    assert_eq!(refused(w), "wire batch has 3 columns, need the 9 v1 payload columns");

    let mut w = build_wire_batch(&[ev()]);
    w.fields.swap(1, 2);
    assert_eq!(refused(w), "wire column 1 is service:Utf8, expected host:Utf8");

    let mut w = build_wire_batch(&[ev()]);
    w.fields[0].kind = None;
    w.fields[0].shown = "Int64".into();
    assert_eq!(
        refused(w),
        "wire column 0 is event_ts:Int64, expected event_ts:Timestamp(Microsecond, None)"
    );

    let mut w = build_wire_batch(&[ev(), ev()]);
    w.rows[1].message = None;
    assert_eq!(
        refused(w),
        "Invalid argument error: Column 'message' is declared as non-nullable but contains null values"
    );
    let mut w = build_wire_batch(&[ev()]);
    w.rows[0].event_ts = None;
    assert!(matches!(
        build_events_batch_from_wire(&w, None, NOW),
        Err(WireError::Gap { index: 0 })
    ));
    // Columns that may be left out pass through as they are.
    let mut w = build_wire_batch(&[ev()]);
    w.rows[0].source = None;
    w.rows[0].fields = None;
    let b = build_events_batch_from_wire(&w, None, NOW).unwrap_or_else(|e| panic!("{}", e.message()));
    assert_eq!(text(&b.source, 0), None);
    assert_eq!(text(&b.parser_name, 0).as_deref(), Some(""));
    assert_eq!(text(&b.fields, 0), None);
}

#[test]
fn the_columns_of_the_table_keep_their_places() {
    let names: Vec<&str> = events_schema().iter().map(|c| c.name).collect();
    assert_eq!(
        names,
        [
            "event_ts", "host", "service", "source", "environment", "severity", "log_type",
            "message", "fields", "schema_version", "event_id", "ingest_time", "raw_payload_hash",
            "parser_name", "source_trust", "collector_id"
        ]
    );
    assert_eq!(wire_schema().len(), V1_COLUMNS);
    assert!(events_schema()[0].kind == Kind::Time && !events_schema()[0].nullable);
    assert_eq!((T_EVENTS, EVENT_BLOOM_COLUMN), ("events", "event_id"));
}

#[test]
fn rebuilds_wait_for_snapshots_and_cool_down() {
    assert_eq!(compact_threshold(0), 0);
    assert_eq!(compact_threshold(3), 8);
    assert_eq!(compact_threshold(40), 40);
    let mut p = CompactPolicy::new(8);
    assert!(!p.due(true, 8, 0));
    assert!(p.due(true, 9, 0));
    assert!(!p.due(false, 9, 0));
    p.attempted(None, 1_000);
    assert!(!p.due(true, 50, 600_999));
    assert!(p.due(true, 50, 601_000));
    p.attempted(Some(1), 601_000);
    assert!(!p.due(true, 8, 601_000));
    assert!(!CompactPolicy::new(0).due(true, 1_000_000, 0));
}

fn ids(list: &[&str]) -> Vec<Option<String>> {
    list.iter().map(|s| Some(s.to_string())).collect()
}

#[test]
fn submissions_are_answered_with_what_is_new() {
    let mut a = Actor::new(16, 8);
    assert_eq!(a.submitted(3, Some(&ids(&["x", "y", "x"]))), vec![true, true, false]);
    assert!(matches!(a.doing, Doing::Appending { rows: 2 }));
    a.happened(Report::Appended);
    assert!(matches!(a.doing, Doing::Answering { result: Ok(2) }));
    a.happened(Report::Answered { snapshots: 2, now_ms: 0 });
    assert!(matches!(a.doing, Doing::Waiting));
    assert_eq!(a.submitted(1, Some(&ids(&["y"]))), vec![false]);
    assert!(matches!(a.doing, Doing::Answering { result: Ok(0) }), "a retry is acknowledged");
    a.happened(Report::Answered { snapshots: 100, now_ms: 0 });
    assert!(matches!(a.doing, Doing::Waiting), "nothing was stored, so nothing is rebuilt");
    a.happened(Report::Unbuilt { error: "bad".into() });
    match &a.doing {
        Doing::Answering { result: Err(e) } => assert_eq!(e, "bad"),
        _ => panic!("a batch that was not built is refused"),
    }
    a.happened(Report::Answered { snapshots: 100, now_ms: 0 });
    assert_eq!(a.submitted(1, Some(&ids(&["z"]))), vec![true]);
    a.happened(Report::NotAppended { error: "disk".into() });
    match &a.doing {
        Doing::Answering { result: Err(e) } => assert_eq!(e, "disk"),
        _ => panic!("an append that failed is reported"),
    }
}

fn rebuilding() -> Actor {
    let mut a = Actor::new(0, 8);
    assert_eq!(a.submitted(1, None), vec![true]);
    a.happened(Report::Appended);
    a.happened(Report::Answered { snapshots: 9, now_ms: 5 });
    assert!(matches!(a.doing, Doing::Rebuilding));
    a
}

#[test]
fn a_rebuild_is_followed_marked_and_counted_from() {
    let mut a = rebuilding();
    a.happened(Report::Rebuilt);
    assert!(matches!(a.doing, Doing::Following { failures: 0 }));
    a.happened(Report::NotFollowed);
    assert!(matches!(a.doing, Doing::Pausing { failures: 1, secs: 2 }));
    a.happened(Report::Paused);
    a.happened(Report::Followed);
    assert!(matches!(a.doing, Doing::Cleaning));
    a.happened(Report::Cleaned { snapshots: 1 });
    assert!(matches!(a.doing, Doing::Waiting));
    assert_eq!(a.policy.baseline, 1);
    assert_eq!(a.policy.failed_at_ms, None);
}

#[test]
fn a_failed_rebuild_waits_and_a_lost_table_stops() {
    let mut a = rebuilding();
    a.happened(Report::NotRebuilt { now_ms: 7 });
    assert!(matches!(a.doing, Doing::Waiting));
    assert_eq!(a.policy.failed_at_ms, Some(7));
    let mut a = rebuilding();
    a.happened(Report::Rebuilt);
    a.happened(Report::NotFollowed);
    a.happened(Report::Paused);
    a.happened(Report::NotFollowed);
    assert!(matches!(a.doing, Doing::Stopped { code: 70 }));
    a.happened(Report::Followed);
    assert!(matches!(a.doing, Doing::Stopped { code: 70 }));
    assert_eq!(reload_failed(1), Reload::RetryAfter(2));
    assert_eq!(reload_failed(2), Reload::Exit(70));
}

#[test]
fn cleanup_orphans_sweeps_scratch_but_spares_live_and_lookalikes() {
    assert!(is_scratch("events__c123", "events__c"));
    assert!(is_scratch("events__c424242", "events__c"));
    assert!(!is_scratch("events__cold", "events__c"));
    assert!(!is_scratch("events__c", "events__c"));
    assert!(!is_scratch("other__c1", "events__c"));
    assert_eq!(local_dir("file:///w/events").as_deref(), Some("/w/events"));
    assert_eq!(local_dir("s3://b/events"), None);
    let live = Some("/w/events__c9");
    assert!(is_orphan("events", "/w/events", "events", live));
    assert!(is_orphan("events__c1", "/w/events__c1", "events", live));
    assert!(is_orphan("events__c424242", "/w/events__c424242", "events", live));
    assert!(!is_orphan("events__c9", "/w/events__c9", "events", live));
    assert!(!is_orphan("events__cold", "/w/events__cold", "events", live));
    assert!(!is_orphan("events__c1", "/w/events__c1", "events", None));
}
