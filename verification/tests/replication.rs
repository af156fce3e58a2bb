use std::collections::BTreeMap;

use garmr::hash::blake3_bytes;
use garmr::retention::ha::{
    after_copy, copy_name, last_shipped_id, next_lease, object_key, ship_action, slashed,
    CopyStep, Entry, Lease, Manifest, Pull, PullAction, ShipAction, Shipment,
};

type Files = BTreeMap<String, Vec<u8>>;

/// Objects by name, and the manifest, which is written last.
#[derive(Default)]
struct Bucket {
    objects: Files,
    manifest: Option<Manifest>,
}

fn ship(b: &mut Bucket, files: &Files, id: u64, epoch: u64, writer: &str) -> (Manifest, usize) {
    let previous = b.manifest.as_ref().map(|m| m.files.clone()).unwrap_or_default();
    // The order in which the files are found does not matter.
    let mut s = Shipment::new(files.keys().rev().cloned().collect(), previous);
    while let Some(path) = s.next().cloned() {
        let data = &files[&path];
        let remote = b.objects.get(&path).map(|o| o.len() as u64);
        s = s.looked(data.len() as u64, remote);
        s = match s.choice() {
            Some(ShipAction::Keep(_)) => s.kept(),
            Some(ShipAction::Hash) => s.hashed(blake3_bytes(data)),
            _ => {
                b.objects.insert(path, data.clone());
                s.sent(data.len() as u64, blake3_bytes(data))
            }
        };
    }
    let (m, sent) = s.finish(id, epoch, 5, writer);
    b.manifest = Some(m.clone());
    (m, sent)
}

fn pull(b: &Bucket, local: &Files, have: u64, lease: Option<&Lease>) -> Result<Option<Files>, String> {
    let Some(mut p) = Pull::begin(b.manifest.clone(), have, lease) else {
        return Ok(None);
    };
    let mut staged = Files::new();
    loop {
        match p.action() {
            PullAction::Swap => return Ok(Some(staged)),
            PullAction::LookLocal(_) => {
                let n = local.get(&p.current().path).map(|d| d.len() as u64);
                p.looked(n);
            }
            PullAction::CopyLocal(_) => {
                let path = p.current().path.clone();
                let data = local[&path].clone();
                let d = blake3_bytes(&data);
                staged.insert(path, data);
                p.copied(Some(d));
            }
            PullAction::Download(_) => {
                let path = p.current().path.clone();
                let data = b.objects[&path].clone();
                let d = blake3_bytes(&data);
                staged.insert(path, data);
                p.downloaded(d)?;
            }
        }
    }
}

fn files(parts: &[(&str, &str)]) -> Files {
    parts.iter().map(|(k, v)| (k.to_string(), v.as_bytes().to_vec())).collect()
}

#[test]
fn ship_pull_roundtrip_and_snapshot_gating() {
    let mut b = Bucket::default();
    let mut src = files(&[
        ("data/part-00001.parquet", "immutable columnar bytes"),
        ("metadata/v1.metadata.json", "{\"snapshot\":1}"),
        ("catalog.redb", "redb-catalog-v1"),
    ]);
    let (m, uploaded) = ship(&mut b, &src, 1, 1, "test-writer");
    assert_eq!(uploaded, 3, "all three files uploaded on the first ship");
    assert_eq!(m.id, 1);
    let dst = pull(&b, &Files::new(), 0, None).unwrap().unwrap();
    for rel in ["data/part-00001.parquet", "metadata/v1.metadata.json", "catalog.redb"] {
        assert_eq!(dst[rel], src[rel], "{rel} round-trips byte-for-byte");
    }
    assert!(pull(&b, &dst, 1, None).unwrap().is_none(), "already current");
    src.insert("metadata/v2.metadata.json".into(), b"{\"snapshot\":2}".to_vec());
    let (m, uploaded2) = ship(&mut b, &src, 2, 1, "test-writer");
    assert!(uploaded2 < 4, "snapshot 2 skips the unchanged immutable parquet");
    assert_eq!(uploaded2, 3);
    assert_eq!(m.id, 2);
    let dst = pull(&b, &dst, 1, None).unwrap().expect("pull advances to 2");
    assert!(dst.contains_key("metadata/v2.metadata.json"));
    let paths: Vec<&str> = m.files.iter().map(|e| e.path.as_str()).collect();
    assert_eq!(
        paths,
        [
            "catalog.redb",
            "data/part-00001.parquet",
            "metadata/v1.metadata.json",
            "metadata/v2.metadata.json"
        ],
        "the manifest is in the order of the paths"
    );
}

#[test]
fn a_corrupted_object_fails_the_pull_by_name() {
    let mut b = Bucket::default();
    let src = files(&[
        ("data/part-00001.parquet", "real columnar bytes!"),
        ("metadata/v1.metadata.json", "{\"snapshot\":1}"),
    ]);
    ship(&mut b, &src, 1, 1, "test-writer");
    b.objects.insert("data/part-00001.parquet".into(), b"evil replacement byte".to_vec());
    let err = pull(&b, &Files::new(), 0, None).unwrap_err();
    assert!(
        err.contains("data/part-00001.parquet") && err.contains("digest mismatch"),
        "the pull names the corrupted file: {err}"
    );
}

#[test]
fn a_local_file_of_other_content_is_downloaded() {
    let mut b = Bucket::default();
    let src = files(&[("data/a.parquet", "rows")]);
    ship(&mut b, &src, 1, 0, "w");
    let local = files(&[("data/a.parquet", "rowz")]);
    assert_eq!(pull(&b, &local, 0, None).unwrap().unwrap(), src);
}

#[test]
fn the_manifest_records_writer_and_creation_time() {
    let mut b = Bucket::default();
    let (m, _) = ship(&mut b, &files(&[("metadata/v1.metadata.json", "{}")]), 1, 7, "node-alpha");
    assert_eq!(m.writer, "node-alpha");
    assert_eq!(m.epoch, 7);
    assert!(m.created_at_us > 0, "created_at is stamped");
    assert!(m.files.iter().all(|e| e.digest.is_some()), "every entry ships with a digest");
}

#[test]
fn writer_restart_resumes_the_counter_instead_of_starving_the_follower() {
    let mut b = Bucket::default();
    let mut src = files(&[
        ("data/part-00001.parquet", "immutable bytes"),
        ("metadata/v1.metadata.json", "{\"snapshot\":1}"),
    ]);
    for id in 1..=3 {
        ship(&mut b, &src, id, 1, "test-writer");
    }
    let dst = pull(&b, &Files::new(), 0, None).unwrap().unwrap();
    let follower_has = 3u64;
    assert_eq!(last_shipped_id(b.manifest.as_ref()), 3);
    let next = last_shipped_id(b.manifest.as_ref()) + 1;
    src.insert("metadata/v4.metadata.json".into(), b"{\"snapshot\":4}".to_vec());
    let (m, _) = ship(&mut b, &src, next, 1, "test-writer");
    assert_eq!(m.id, 4);
    let dst = pull(&b, &dst, follower_has, None).unwrap().expect("the post-restart snapshot");
    assert!(dst.contains_key("metadata/v4.metadata.json"));
    // A counter that starts over ships an id that the follower is past.
    ship(&mut b, &src, 1, 1, "test-writer");
    assert!(
        pull(&b, &dst, follower_has, None).unwrap().is_none(),
        "a re-shipped low id is silently ignored"
    );
    assert_eq!(last_shipped_id(None), 0);
}

#[test]
fn a_follower_refuses_a_snapshot_from_a_fenced_out_writer() {
    let mut b = Bucket::default();
    let mut src =
        files(&[("data/part-1.parquet", "bytes"), ("metadata/v1.metadata.json", "{}")]);
    let first = next_lease(None, "node-a", 100);
    ship(&mut b, &src, 5, first.epoch, "test-writer");
    assert!(pull(&b, &Files::new(), 0, Some(&first)).unwrap().is_some());
    let second = next_lease(Some(&first), "node-b", 200);
    assert_eq!((first.epoch, second.epoch), (1, 2));
    src.insert("metadata/v2.metadata.json".into(), b"{}".to_vec());
    ship(&mut b, &src, 6, 1, "test-writer");
    assert!(
        pull(&b, &Files::new(), 5, Some(&second)).unwrap().is_none(),
        "a snapshot from a fenced-out epoch must be refused despite its higher id"
    );
    let (m, _) = ship(&mut b, &src, 7, 2, "test-writer");
    assert_eq!(m.id, 7);
    assert!(pull(&b, &Files::new(), 5, Some(&second)).unwrap().is_some());
}

#[test]
fn a_data_file_without_a_known_digest_is_hashed() {
    let previous = vec![Entry { path: "a.parquet".into(), len: 4, digest: None }];
    assert!(matches!(ship_action("a.parquet", 4, Some(4), &previous), ShipAction::Hash));
    assert!(matches!(ship_action("a.parquet", 4, Some(5), &previous), ShipAction::Send));
    assert!(matches!(ship_action("c.redb", 4, Some(4), &previous), ShipAction::SendCopy));
    assert!(matches!(ship_action("m.json", 4, None, &previous), ShipAction::Send));
}

#[test]
fn names_of_objects_and_copies() {
    assert_eq!(object_key("ha/", "a/b"), "ha/a/b");
    assert_eq!(slashed("a\\b"), "a/b");
    assert!(copy_name(1, "a/c.redb", 2) != copy_name(1, "a/c.redb", 3));
    assert_eq!(copy_name(1, "a/c.redb", 2), "garmr-ha-1-a_c.redb-2.redb");
    assert_eq!(after_copy(1, true), CopyStep::Use);
    assert_eq!(after_copy(2, false), CopyStep::Retry);
    assert_eq!(after_copy(3, false), CopyStep::SendUnvalidated);
}
