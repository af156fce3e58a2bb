use garmr::state::dump::{dump_to, restore_dump, Cell, DumpError, DumpReader, Row, Table};
use garmr::state::tables::{ALL_TABLES, SHAPES, shape_of, Shape};

#[test]
fn the_shape_table_covers_exactly_the_registered_schema() {
    let mut shaped: Vec<&str> = SHAPES.iter().map(|(n, _)| *n).collect();
    shaped.sort_unstable();
    let mut registered: Vec<&str> = ALL_TABLES.to_vec();
    registered.sort_unstable();
    assert_eq!(shaped, registered);
}

fn tables() -> Vec<Table> {
    ALL_TABLES
        .iter()
        .map(|name| {
            let rows = match (*name, shape_of(name).unwrap()) {
                ("cold_meta", Shape::I64) => vec![Row {
                    key: "watermark_us".into(),
                    value: Cell::I64(1_755_000_000_000_000),
                }],
                ("budget", Shape::U64) => vec![Row {
                    key: "2026-01-01".into(),
                    value: Cell::U64(u64::MAX),
                }],
                ("templates", Shape::I64) => vec![Row {
                    key: "t".into(),
                    value: Cell::I64(-7),
                }],
                ("cold_archives", Shape::Bytes) => vec![Row {
                    key: "w1".into(),
                    value: Cell::Bytes(b"{\"id\":\"w1\"}".to_vec()),
                }],
                _ => vec![],
            };
            Table { name: name.to_string(), rows }
        })
        .collect()
}

fn found<'a>(tables: &'a [Table], table: &str, key: &str) -> Option<&'a Cell> {
    let t = tables.iter().find(|t| t.name == table)?;
    t.rows.iter().find(|r| r.key == key).map(|r| &r.value)
}

#[test]
fn a_dump_round_trips_every_value_shape() {
    let (bytes, stats) = dump_to(&tables());
    assert_eq!(stats.tables, SHAPES.len());
    assert!(stats.rows >= 2);
    assert_eq!(stats.rows, 4);
    assert_eq!(stats.bytes, (12 + 8) + (10 + 8) + (1 + 8) + (2 + 11));

    let (back, read) = restore_dump(bytes).unwrap();
    assert_eq!(read.tables, SHAPES.len());
    assert_eq!(read.rows, 4);
    assert!(matches!(
        found(&back, "cold_meta", "watermark_us"),
        Some(Cell::I64(1_755_000_000_000_000))
    ));
    assert!(matches!(found(&back, "budget", "2026-01-01"), Some(Cell::U64(u64::MAX))));
    assert!(matches!(found(&back, "templates", "t"), Some(Cell::I64(-7))));
    match found(&back, "cold_archives", "w1") {
        Some(Cell::Bytes(b)) => assert_eq!(b, b"{\"id\":\"w1\"}"),
        _ => panic!("the archive is missing"),
    }
}

#[test]
fn a_dump_is_a_snapshot_writes_during_it_do_not_leak_in() {
    let mut live = tables();
    let (bytes, _) = dump_to(&live);
    live[0].rows.push(Row { key: "after".into(), value: Cell::Bytes(vec![1]) });
    let (back, _) = restore_dump(bytes).unwrap();
    assert!(found(&back, &live[0].name, "after").is_none());
    assert!(found(&live, &live[0].name, "after").is_some());
}

#[test]
fn a_truncated_or_foreign_dump_is_refused() {
    assert!(restore_dump(b"hello world!!!!!".to_vec()).is_err());
    let mut wrong = b"GARMRDMP".to_vec();
    wrong.extend_from_slice(&99u32.to_le_bytes());
    wrong.extend_from_slice(&0u32.to_le_bytes());
    let err = restore_dump(wrong).err().unwrap().message();
    assert!(err.contains("version"), "{err}");
    assert_eq!(
        err,
        "dump format version 99 is not supported (this build reads 1)"
    );

    let (bytes, _) = dump_to(&tables());
    for n in [0, 7, 8, 11, 12, 40, bytes.len() - 1] {
        let e = restore_dump(bytes[..n].to_vec()).err().unwrap();
        assert_eq!(e, DumpError::Truncated, "{n}");
        assert_eq!(e.message(), "failed to fill whole buffer");
    }
}

fn framed(parts: &[&[u8]]) -> Vec<u8> {
    let mut b = b"GARMRDMP".to_vec();
    b.extend_from_slice(&1u32.to_le_bytes());
    b.extend_from_slice(&1u32.to_le_bytes());
    for p in parts {
        b.extend_from_slice(p);
    }
    b
}

fn field(b: &[u8]) -> Vec<u8> {
    let mut v = (b.len() as u64).to_le_bytes().to_vec();
    v.extend_from_slice(b);
    v
}

#[test]
fn each_fault_of_a_dump_is_named() {
    let one = 1u64.to_le_bytes();
    let e = |b: Vec<u8>| restore_dump(b).err().unwrap();
    assert_eq!(e(b"NOTADUMP0000".to_vec()).message(), "not a garmr state dump");
    let x = e(framed(&[&field(b"strange"), &one]));
    assert_eq!(x, DumpError::UnknownTable("strange".into()));
    assert_eq!(x.message(), "dump names unknown table \"strange\"");
    let x = e(framed(&[&(64 * 1024 * 1024 + 1u64).to_le_bytes()]));
    assert_eq!(x.message(), "dump: implausible field length 67108865");
    let x = e(framed(&[&field(&[0xff]), &one]));
    assert_eq!(x.message(), "dump: table name is not utf-8");
    let x = e(framed(&[&field(b"cases"), &one, &field(&[0xff]), &field(b"")]));
    assert_eq!(x.message(), "dump: key is not utf-8");
    let x = e(framed(&[&field(b"budget"), &one, &field(b"d"), &field(b"123")]));
    assert_eq!(x.message(), "dump: scalar value is not 8 bytes");
}

#[test]
fn tables_are_read_one_by_one() {
    let (bytes, _) = dump_to(&tables());
    let mut r = DumpReader::open(bytes).unwrap();
    assert_eq!(r.table_count() as usize, ALL_TABLES.len());
    assert_eq!(r.next_table().unwrap().name, "actions");
}

#[test]
fn table_registry_is_complete() {
    assert_eq!(ALL_TABLES.len(), 31);
    for name in ALL_TABLES {
        assert!(shape_of(name).is_some(), "{name}");
    }
    assert_eq!(shape_of("suppression"), Some(Shape::U64));
    assert_eq!(shape_of("nothing"), None);
}
