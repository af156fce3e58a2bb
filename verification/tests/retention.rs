use std::sync::Arc;

use arrow_array::cast::AsArray;
use arrow_array::types::Int32Type;
use arrow_array::{ArrayRef, Int32Array, RecordBatch, StringArray, TimestampMicrosecondArray};
use garmr::archive::ColdArchive;
use garmr::events::prune::{Tombstone, TombstoneMatcher};
use garmr::retention::archiver::{
    kind_from_str, kind_str, make_archiver, Archiver, ColdArchiverKind, PlainArchiver, SealOutcome,
    MEMBER,
};
use garmr::retention::erase::{
    filter_parquet, rewrite_list, strike_and_check, Batch, Rewrite, Step,
};
use garmr::retention::ha::{
    fence_verdict, next_lease, promotion, snapshot, stamp, FenceVerdict, Lease, PutOutcome,
    SyncStatus,
};
use garmr::retention::pass::{
    after_seal, archive_name, begin, bucket_sql, floor_to, parquet_level, seal_sql, sealed_archive,
    staging_name, ts_literal, window_id, window_micros, SealReport, SealStep, Start,
};
use garmr::retention::settings::{
    deletion, prefix_of, store_settings, DeleteOutcome, StoreEnv,
};
use garmr::retention::thaw::{
    check_integrity, is_stale_scratch, may_thaw, overlapping, part_name, Thaw, ThawAction,
};

const DAY_US: i64 = 86_400_000_000;

fn arc(id: &str, start_us: i64, end_us: i64) -> ColdArchive {
    ColdArchive {
        id: id.into(),
        kind: "plain".into(),
        file: format!("{id}.parquet"),
        start_us,
        end_us,
        rows: 42,
        bytes_in: 1000,
        bytes_out: 300,
        checksum: "abc".into(),
        hot_pruned: false,
        sealed_at_us: 0,
        legal_hold: false,
    }
}

#[test]
fn plain_round_trips_and_addresses() {
    let payload = b"PAR1-ish parquet bytes".to_vec();
    let a = PlainArchiver;
    let sealed = a.archive(payload.clone());
    let o = a.outcome(&sealed);
    assert_eq!(o.bytes_out, payload.len() as u64);
    assert_eq!(o.checksum, blake3::hash(&payload).to_hex().to_string());
    assert_eq!(a.archive(sealed), payload);
    assert_eq!(a.extension(), "parquet");
    assert_eq!(a.kind(), ColdArchiverKind::Plain);
    assert_eq!(MEMBER, "events.parquet");
}

#[test]
fn kinds_go_by_their_names() {
    assert_eq!(kind_from_str("plain"), Ok(ColdArchiverKind::Plain));
    assert_eq!(kind_from_str("znippy"), Ok(ColdArchiverKind::Znippy));
    assert_eq!(
        kind_from_str("zip\n").unwrap_err(),
        "unknown cold archiver kind \"zip\\n\""
    );
    assert_eq!(kind_str(ColdArchiverKind::Znippy), "znippy");
    match make_archiver(ColdArchiverKind::Znippy, 6, true).unwrap_or_else(|e| panic!("{e}")) {
        Archiver::Znippy(z) => assert_eq!((z.level, z.extension()), (6, "znippy")),
        Archiver::Plain(_) => panic!("the other kind was asked for"),
    }
    assert!(make_archiver(ColdArchiverKind::Znippy, 6, false)
        .err()
        .unwrap()
        .starts_with("cold archiver \"znippy\" requested but this binary was built without"));
}

#[test]
fn ts_literal_is_datafusion_shaped() {
    assert_eq!(ts_literal(0), "TIMESTAMP '1970-01-01T00:00:00.000000'");
    assert_eq!(
        ts_literal(1_775_606_400_123_456),
        "TIMESTAMP '2026-04-08T00:00:00.123456'"
    );
    assert_eq!(ts_literal(-1), "TIMESTAMP '1969-12-31T23:59:59.999999'");
    assert_eq!(ts_literal(i64::MAX), ts_literal(0));
}

#[test]
fn windows_go_by_the_date_of_their_start() {
    assert_eq!(window_id(1_775_606_400_000_000), "2026-04-08");
    assert_ne!(window_id(0), window_id(DAY_US));
    assert_eq!(window_id(DAY_US - 1), window_id(0));
}

#[test]
fn settings_of_a_pass_are_bounded() {
    assert_eq!(window_micros(0), Ok(DAY_US));
    assert_eq!(window_micros(7), Ok(7 * DAY_US));
    assert_eq!(
        window_micros(u32::MAX).unwrap_err(),
        "retention.window_days is absurdly large"
    );
    assert_eq!(parquet_level(0), 1);
    assert_eq!(parquet_level(99), 22);
    assert_eq!(parquet_level(3), 3);
    assert_eq!(floor_to(2 * DAY_US + 5, DAY_US), 2 * DAY_US);
    assert_eq!(floor_to(-DAY_US - 5, DAY_US), -DAY_US);
    assert_eq!(floor_to(-5, DAY_US), 0);
}

#[test]
fn a_pass_seals_windows_and_moves_the_watermark() {
    let now = 100 * DAY_US + 77;
    let mut pass = match begin(now, 90, DAY_US, Some(5 * DAY_US)) {
        Start::Search(p) => p,
        Start::Idle(_) => panic!("there is something to do"),
    };
    assert_eq!(pass.horizon_us, 10 * DAY_US);
    assert_eq!(pass.window(6), Some((6 * DAY_US, 7 * DAY_US)));
    assert_eq!(pass.window(i64::MAX), None);
    assert_eq!(pass.window(i64::MIN), None);
    pass.sealed(7 * DAY_US, 10, 500);
    assert_eq!(pass.run.watermark_us, Some(7 * DAY_US));
    pass.sealed(9 * DAY_US, 0, 0);
    let run = pass.finish();
    assert_eq!((run.windows, run.rows, run.bytes_out), (1, 10, 500));
    assert_eq!(run.watermark_us, Some(10 * DAY_US));
    match begin(now, 90, DAY_US, run.watermark_us) {
        Start::Idle(r) => assert_eq!((r.windows, r.watermark_us), (0, Some(10 * DAY_US))),
        Start::Search(_) => panic!("a second pass has nothing to do"),
    }
}

#[test]
fn queries_of_a_pass() {
    assert_eq!(
        bucket_sql(None, DAY_US, DAY_US),
        "SELECT DISTINCT CAST(event_ts AS BIGINT) / 86400000000 AS bucket FROM events WHERE event_ts < TIMESTAMP '1970-01-02T00:00:00.000000' ORDER BY bucket"
    );
    assert_eq!(
        bucket_sql(Some(0), DAY_US, DAY_US),
        "SELECT DISTINCT CAST(event_ts AS BIGINT) / 86400000000 AS bucket FROM events WHERE event_ts >= TIMESTAMP '1970-01-01T00:00:00.000000' AND event_ts < TIMESTAMP '1970-01-02T00:00:00.000000' ORDER BY bucket"
    );
    assert_eq!(
        seal_sql(0, DAY_US, &vec![]),
        "SELECT event_ts, host, service, source, environment, severity, log_type, message, fields FROM events WHERE event_ts >= TIMESTAMP '1970-01-01T00:00:00.000000' AND event_ts < TIMESTAMP '1970-01-02T00:00:00.000000'"
    );
    assert!(seal_sql(0, DAY_US, &vec!["kunai".into(), "it's".into()])
        .ends_with(" AND (source IS NULL OR source NOT IN ('kunai', 'it''s'))"));
}

#[test]
fn a_sealed_window_is_recorded() {
    let archiver = Archiver::Plain(PlainArchiver);
    let o = SealOutcome { bytes_out: 9, checksum: "c".into() };
    let a = sealed_archive(&archiver, 0, DAY_US, 3, 20, o, 7);
    assert_eq!((a.id.as_str(), a.kind.as_str(), a.file.as_str()), ("1970-01-01", "plain", "1970-01-01.parquet"));
    assert_eq!((a.rows, a.bytes_in, a.bytes_out, a.sealed_at_us), (3, 20, 9, 7));
    assert!(!a.hot_pruned && !a.legal_hold);
    assert_eq!(staging_name("x"), ".staging-x.parquet");
    assert_eq!(archive_name("x", &archiver), "x.parquet");
}

fn run_seal(rows: u64, broke_off: bool, object_store: bool) -> Vec<SealStep> {
    let mut steps = vec![SealStep::Stage];
    let mut report = SealReport::Staged { rows, broke_off };
    loop {
        let next = after_seal(steps[steps.len() - 1], report, object_store);
        steps.push(next);
        if matches!(next, SealStep::Done { .. } | SealStep::Failed) {
            return steps;
        }
        report = SealReport::Worked;
    }
}

#[test]
fn a_window_is_sealed_step_by_step() {
    assert_eq!(
        run_seal(5, false, true),
        vec![
            SealStep::Stage,
            SealStep::Archive { rows: 5 },
            SealStep::Record { rows: 5 },
            SealStep::Upload { rows: 5 },
            SealStep::DropLocal { rows: 5 },
            SealStep::Done { rows: 5 },
        ]
    );
    assert_eq!(
        run_seal(5, false, false),
        vec![
            SealStep::Stage,
            SealStep::Archive { rows: 5 },
            SealStep::Record { rows: 5 },
            SealStep::Done { rows: 5 },
        ]
    );
    assert_eq!(
        run_seal(0, false, true),
        vec![SealStep::Stage, SealStep::Discard { broke_off: false }, SealStep::Done { rows: 0 }]
    );
    assert_eq!(
        run_seal(5, true, true),
        vec![SealStep::Stage, SealStep::Discard { broke_off: true }, SealStep::Failed]
    );
    let upload = SealStep::Upload { rows: 5 };
    assert_eq!(after_seal(upload, SealReport::Failed, true), SealStep::Failed);
}

#[test]
fn archives_are_chosen_by_overlap() {
    let list = vec![arc("a", 0, 10), arc("b", 10, 20), arc("c", 20, 30)];
    let ids = |from, to| -> Vec<String> {
        overlapping(&list, from, to).into_iter().map(|a| a.id).collect()
    };
    assert_eq!(ids(None, None), ["a", "b", "c"]);
    assert_eq!(ids(Some(10), Some(20)), ["b"]);
    assert_eq!(ids(Some(9), Some(21)), ["a", "b", "c"]);
    assert_eq!(ids(Some(30), None), Vec::<String>::new());
}

#[test]
fn a_query_without_bounds_thaws_only_so_much() {
    let mut a = arc("a", 0, 10);
    a.bytes_in = 4 * 1024 * 1024 * 1024;
    assert!(may_thaw(&vec![a.clone()], None, None).is_ok());
    let list = vec![a, arc("b", 10, 20)];
    assert_eq!(
        may_thaw(&list, None, None).unwrap_err(),
        "unbounded cold query would thaw 2 archives (~4096 MB) to scratch disk — narrow it with --from/--to"
    );
    assert!(may_thaw(&list, Some(0), None).is_ok());
    assert!(may_thaw(&list, None, Some(9)).is_ok());
}

#[test]
fn archives_that_changed_are_not_queried() {
    assert!(check_integrity("/c/a", "x", "x").is_ok());
    assert_eq!(
        check_integrity("/c/a", "x", "y").unwrap_err(),
        "cold archive /c/a failed its integrity check (checksum mismatch) — refusing to query it"
    );
}

#[test]
fn scratch_is_swept_once_it_is_old() {
    assert_eq!(part_name(7), "part-00007.parquet");
    assert_eq!(part_name(123_456), "part-123456.parquet");
    assert!(is_stale_scratch(".thaw-1", Some(86_401)));
    assert!(!is_stale_scratch(".thaw-1", Some(86_400)));
    assert!(!is_stale_scratch(".thaw-1", None));
    assert!(!is_stale_scratch("thaw-1", Some(99_999)));
}

#[test]
fn archives_are_fetched_then_verified_and_only_then_queried() {
    let list = vec![arc("a", 0, 10), arc("b", 10, 20), arc("c", 20, 30)];
    assert!(Thaw::begin(&list, Some(50), None, true).unwrap_or_else(|e| panic!("{e}")).is_none());
    let mut t = Thaw::begin(&list, None, Some(20), true)
        .unwrap_or_else(|e| panic!("{e}"))
        .expect("two archives");
    assert_eq!(t.len(), 2);
    let mut seen = Vec::new();
    loop {
        let a = t.action();
        seen.push(a);
        t = match a {
            ThawAction::Look(i) => t.looked(i == 1),
            ThawAction::Fetch(_) => t.fetched(),
            ThawAction::Hash(_) => t.hashed("/c", "abc".into()).unwrap_or_else(|e| panic!("{e}")),
            ThawAction::Unpack(_, _) => t.unpacked(),
            ThawAction::Query => break,
        };
    }
    assert_eq!(
        seen,
        [
            ThawAction::Look(0),
            ThawAction::Fetch(0),
            ThawAction::Look(1),
            ThawAction::Hash(0),
            ThawAction::Unpack(0, ColdArchiverKind::Plain),
            ThawAction::Hash(1),
            ThawAction::Unpack(1, ColdArchiverKind::Plain),
            ThawAction::Query
        ]
    );
    let begin = || {
        Thaw::begin(&list, None, None, false)
            .unwrap_or_else(|e| panic!("{e}"))
            .expect("archives")
    };
    assert_eq!(begin().current().id, "a");
    assert!(begin().hashed("/c/a", "xyz".into()).err().unwrap().contains("checksum mismatch"));
    let mut odd = arc("odd", 0, 1);
    odd.kind = "zip".into();
    let t = Thaw::begin(&vec![odd], None, None, false)
        .unwrap_or_else(|e| panic!("{e}"))
        .expect("one archive");
    assert_eq!(
        t.hashed("/c/odd", "abc".into()).err().unwrap(),
        "unknown cold archiver kind \"zip\""
    );
}

fn tombstone(needle: Option<&str>, value: &str, from_us: Option<i64>, to_us: Option<i64>) -> Tombstone {
    Tombstone {
        id: "t".into(),
        needle: needle.map(str::to_string),
        value: value.into(),
        from_us,
        to_us,
        placed_at_us: 0,
        reason: "test".into(),
    }
}

#[test]
fn archives_under_a_hold_stop_an_erasure() {
    let mut held = arc("held", 10, 20);
    held.legal_hold = true;
    let list = vec![arc("a", 0, 10), held];
    let early = vec![tombstone(None, "h", None, Some(10))];
    let chosen = rewrite_list(&list, &early).unwrap_or_else(|e| panic!("{e}"));
    assert_eq!(chosen.len(), 1);
    assert_eq!(chosen[0].id, "a");
    let all = vec![tombstone(None, "h", None, None)];
    assert_eq!(
        rewrite_list(&list, &all).err().unwrap(),
        "archive held is under legal hold and overlaps the erasure — refusing"
    );
}

fn parquet_of(rows: &[(Option<i64>, &str, Option<&str>)]) -> Vec<u8> {
    let ts: TimestampMicrosecondArray = rows.iter().map(|r| r.0).collect();
    let host: StringArray = rows.iter().map(|r| Some(r.1)).collect();
    let fields: StringArray = rows.iter().map(|r| r.2).collect();
    let batch = RecordBatch::try_from_iter_with_nullable([
        ("event_ts", Arc::new(ts) as ArrayRef, true),
        ("host", Arc::new(host) as ArrayRef, true),
        ("fields", Arc::new(fields) as ArrayRef, true),
    ])
    .unwrap();
    let mut w = parquet::arrow::ArrowWriter::try_new(Vec::new(), batch.schema(), None).unwrap();
    w.write(&batch).unwrap();
    w.into_inner().unwrap()
}

fn hosts_of(data: Vec<u8>) -> Vec<String> {
    let reader = parquet::arrow::arrow_reader::ParquetRecordBatchReaderBuilder::try_new(
        bytes::Bytes::from(data),
    )
    .unwrap()
    .build()
    .unwrap();
    let mut out = Vec::new();
    for b in reader {
        let b = b.unwrap();
        let a = b.column_by_name("host").unwrap().as_string::<i32>().clone();
        out.extend(a.iter().map(|s| s.unwrap().to_string()));
    }
    out
}

#[test]
fn a_payload_is_rewritten_without_the_struck_rows() {
    let needle = "\"src_ip\":\"203.0.113.7\"";
    let payload = parquet_of(&[
        (Some(1), "a", Some("{\"src_ip\":\"203.0.113.7\"}")),
        (Some(2), "b", Some("{\"src_ip\":\"10.0.0.5\"}")),
        (None, "c", Some("{\"src_ip\":\"203.0.113.7\"}")),
        (Some(3), "d", None),
        (Some(9), "e", Some("{\"src_ip\":\"203.0.113.7\"}")),
    ]);
    let m = TombstoneMatcher::new(vec![tombstone(Some(needle), "203.0.113.7", None, Some(9))]);
    let (data, kept, erased) = filter_parquet(&payload, &m).unwrap();
    assert_eq!((kept, erased), (4, 1));
    assert_eq!(hosts_of(data.clone()), ["b", "c", "d", "e"]);
    let (_, kept, erased) = filter_parquet(&data, &m).unwrap();
    assert_eq!((kept, erased), (4, 0), "nothing is left to erase");

    let by_host = TombstoneMatcher::new(vec![tombstone(None, "d", None, None)]);
    let (data, kept, erased) = filter_parquet(&payload, &by_host).unwrap();
    assert_eq!((kept, erased), (4, 1));
    assert_eq!(hosts_of(data), ["a", "b", "c", "e"]);

    let empty = parquet_of(&[]);
    assert_eq!(filter_parquet(&empty, &m).unwrap(), (empty, 0, 0));
    assert!(filter_parquet(b"no parquet", &m).is_err());
}

#[test]
fn a_rewritten_payload_keeps_its_other_columns() {
    let ts: TimestampMicrosecondArray = [Some(1), Some(2), None].into_iter().collect();
    let host: StringArray = [Some("a"), Some("b"), Some("a")].into_iter().collect();
    let message: StringArray = [Some("m1"), Some("m2"), None].into_iter().collect();
    let batch = RecordBatch::try_from_iter_with_nullable([
        ("event_ts", Arc::new(ts) as ArrayRef, true),
        ("message", Arc::new(message) as ArrayRef, true),
        ("host", Arc::new(host) as ArrayRef, true),
    ])
    .unwrap();
    let mut w = parquet::arrow::ArrowWriter::try_new(Vec::new(), batch.schema(), None).unwrap();
    w.write(&batch).unwrap();
    let by_host = TombstoneMatcher::new(vec![Tombstone {
        id: "t".into(),
        needle: None,
        value: "a".into(),
        from_us: None,
        to_us: None,
        placed_at_us: 0,
        reason: String::new(),
    }]);
    let (data, kept, erased) = filter_parquet(&w.into_inner().unwrap(), &by_host).unwrap();
    assert_eq!((kept, erased), (2, 1), "a row without a time is never struck");
    let reader = parquet::arrow::arrow_reader::ParquetRecordBatchReaderBuilder::try_new(
        bytes::Bytes::from(data),
    )
    .unwrap()
    .build()
    .unwrap();
    let mut messages = Vec::new();
    for b in reader {
        let b = b.unwrap();
        assert_eq!(b.num_columns(), 3);
        let a = b.column_by_name("message").unwrap().as_string::<i32>().clone();
        messages.extend(a.iter().map(|s| s.map(str::to_string)));
    }
    assert_eq!(messages, vec![Some("m2".to_string()), None]);
}

fn numbered(rows: i32) -> RecordBatch {
    let ts: TimestampMicrosecondArray = (0..rows).map(|i| Some(i64::from(i))).collect();
    let host: StringArray =
        (0..rows).map(|i| Some(if i % 3 == 0 || i < 1100 { "gone" } else { "kept" })).collect();
    let version: Int32Array = (0..rows).map(|i| (i % 2 == 0).then_some(i)).collect();
    RecordBatch::try_from_iter_with_nullable([
        ("event_ts", Arc::new(ts) as ArrayRef, true),
        ("host", Arc::new(host) as ArrayRef, true),
        ("schema_version", Arc::new(version) as ArrayRef, true),
    ])
    .unwrap()
}

#[test]
fn a_payload_of_many_batches_is_rewritten_in_order() {
    let batch = numbered(3000);
    let mut w = parquet::arrow::ArrowWriter::try_new(Vec::new(), batch.schema(), None).unwrap();
    w.write(&batch).unwrap();
    let m = TombstoneMatcher::new(vec![tombstone(None, "gone", None, None)]);
    let (data, kept, erased) = filter_parquet(&w.into_inner().unwrap(), &m).unwrap();
    let want: Vec<Option<i32>> =
        (1100..3000).filter(|i| i % 3 != 0).map(|i| (i % 2 == 0).then_some(i)).collect();
    assert_eq!((kept as usize, erased as usize), (want.len(), 3000 - want.len()));
    let reader = parquet::arrow::arrow_reader::ParquetRecordBatchReaderBuilder::try_new(
        bytes::Bytes::from(data),
    )
    .unwrap()
    .build()
    .unwrap();
    let mut versions = Vec::new();
    for b in reader {
        let b = b.unwrap();
        let c = b.column_by_name("schema_version").unwrap();
        versions.extend(c.as_primitive::<Int32Type>().iter());
    }
    assert_eq!(versions, want);
}

#[test]
fn nothing_is_left_to_strike_from_a_batch_that_was_written() {
    let m = TombstoneMatcher::new(vec![tombstone(None, "gone", None, None)]);
    let r = strike_and_check(Batch { columns: numbered(1200) }, &m).unwrap();
    assert_eq!((r.kept, r.erased, r.remaining), (67, 1133, 0));
    assert_eq!(hosts_of(r.data), vec!["kept"; 67]);
    let r = strike_and_check(Batch { columns: numbered(9) }, &m).unwrap();
    assert_eq!((r.kept, r.erased, r.remaining), (0, 9, 0));
}

#[test]
fn a_rewrite_replaces_before_it_records() {
    let (mut w, first) = Rewrite::begin(arc("w", 0, 10), false, true).unwrap_or_else(|e| panic!("{e}"));
    assert_eq!(first, Step::Fetch);
    assert!(w.check("abc").is_ok());
    assert_eq!(
        w.check("xyz").unwrap_err(),
        "archive w fails its checksum (xyz != manifest abc) — refusing to rewrite unverified bytes"
    );
    w.filtered(40, 2);
    let mut step = first;
    let mut seen = Vec::new();
    while step != Step::Done {
        seen.push(step);
        step = w.after(step);
    }
    assert_eq!(
        seen,
        [
            Step::Fetch,
            Step::Verify,
            Step::Filter,
            Step::Seal,
            Step::Install,
            Step::Upload,
            Step::DropLocal,
            Step::Record
        ]
    );
    let sealed = SealOutcome { bytes_out: 250, checksum: "new".into() };
    let a = w.recorded(&sealed);
    assert_eq!((a.rows, a.bytes_out, a.checksum.as_str(), a.bytes_in), (40, 250, "new", 1000));
    let o = w.outcome(Some(&sealed));
    assert_eq!((o.rows_erased, o.old_checksum.as_str(), o.new_checksum.as_str()), (2, "abc", "new"));
    assert_eq!(o.remote_replaced, Some(true));
    assert_eq!(w.staging_name(), ".rewrite-w.tmp");
}

#[test]
fn a_rewrite_that_finds_nothing_leaves_the_archive() {
    let (w, first) = Rewrite::begin(arc("w", 0, 10), true, false).unwrap_or_else(|e| panic!("{e}"));
    assert_eq!(first, Step::Verify);
    assert_eq!(w.after(Step::Filter), Step::Done);
    let o = w.outcome(None);
    assert_eq!((o.rows_erased, o.new_checksum.as_str(), o.remote_replaced), (0, "abc", None));
    let (w, _) = Rewrite::begin(arc("w", 0, 10), true, true).unwrap_or_else(|e| panic!("{e}"));
    assert_eq!(w.outcome(None).remote_replaced, Some(false));
    assert_eq!(
        Rewrite::begin(arc("w", 0, 10), false, false).err().unwrap(),
        "archive w is not on disk and no object store is configured — cannot rewrite"
    );
}

#[test]
fn an_object_store_needs_all_its_settings() {
    let env = |endpoint: &str, region: Option<&str>| StoreEnv {
        endpoint: Some(endpoint.into()),
        bucket: Some("b".into()),
        access_key: Some("a".into()),
        secret_key: Some("s".into()),
        region: region.map(str::to_string),
    };
    let s = store_settings(env("http://minio:9000", None), true).unwrap();
    assert!(s.allow_http);
    assert_eq!(s.region, "us-east-1");
    let s = store_settings(env("https://s3", Some("eu")), true).unwrap();
    assert!(!s.allow_http);
    assert_eq!(s.region, "eu");
    assert!(store_settings(env("https://s3", None), false).is_none());
    let mut part = env("https://s3", None);
    part.secret_key = None;
    assert!(store_settings(part, true).is_none());
    assert_eq!(prefix_of(None), "ha/");
    assert_eq!(prefix_of(Some("x".into())), "x/");
    assert_eq!(prefix_of(Some("x/".into())), "x/");
}

#[test]
fn deleting_what_is_not_there_is_no_error() {
    assert!(deletion("k", DeleteOutcome::Deleted).is_ok());
    assert!(deletion("k", DeleteOutcome::Missing).is_ok());
    assert_eq!(
        deletion("k", DeleteOutcome::Failed("denied".into())).unwrap_err(),
        "S3 delete k: denied"
    );
}

#[test]
fn a_higher_observed_epoch_fences_this_writer() {
    let lease = |e: u64| Lease {
        epoch: e,
        holder: "other".into(),
        acquired_at_us: 0,
    };
    assert_eq!(
        fence_verdict(3, Some(&lease(4))),
        FenceVerdict::SelfFence { observed: 4 }
    );
    assert_eq!(fence_verdict(4, Some(&lease(4))), FenceVerdict::Continue);
    assert_eq!(fence_verdict(4, Some(&lease(2))), FenceVerdict::Continue);
    assert_eq!(fence_verdict(0, None), FenceVerdict::Continue);
}

#[test]
fn promotions_count_up_and_only_one_wins() {
    let first = next_lease(None, "node-a", 100);
    assert_eq!((first.epoch, first.acquired_at_us), (1, 100));
    let second = next_lease(Some(&first), "node-b", 200);
    assert_eq!(second.epoch, 2);
    let won = promotion(second.clone(), PutOutcome::Written).unwrap();
    assert_eq!(won.holder, "node-b");
    assert_eq!(fence_verdict(1, Some(&won)), FenceVerdict::SelfFence { observed: 2 });
    assert!(promotion(second.clone(), PutOutcome::LostRace)
        .unwrap_err()
        .starts_with("HA promote lost the race for epoch 2"));
    assert_eq!(
        promotion(second, PutOutcome::Failed("down".into())).unwrap_err(),
        "HA write lease: down"
    );
}

#[test]
fn the_state_of_replication_is_shown() {
    let mut s = SyncStatus::new();
    assert_eq!(snapshot(&s), (0, 0));
    stamp(&mut s, 77, 3);
    assert_eq!(snapshot(&s), (77, 3));
}
