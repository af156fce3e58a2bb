//! The columns of the events table and how events become rows of them.
//!
//! The first nine columns are the payload, in an order that never changes; the rest
//! say where a row came from. An event has one id, made of its content, whichever
//! way it arrives.

use std::collections::BTreeMap;
use crate::hash::{self, digest_of, hex_string, write_hex};
use crate::le::{self, put_all, put_le};
use crate::text;
use vstd::prelude::*;
use vstd::utf8;

verus! {

/// The events table.
pub const T_EVENTS: &'static str = "events";

/// The column that carries a bloom filter.
pub const EVENT_BLOOM_COLUMN: &'static str = "event_id";

/// The version stamped on every row. Rows without one are of the first version.
pub const EVENT_SCHEMA_VERSION: i32 = 2;

/// From this many rows on the per-row work is worth spreading over the cores.
pub const PARALLEL_ROW_THRESHOLD: usize = 2048;

/// The payload columns, which come first.
pub const V1_COLUMNS: usize = 9;

/// What a column holds.
#[derive(Clone, Copy, Debug, PartialEq, Eq, Structural)]
pub enum Kind {
    /// Microseconds since the epoch.
    Time,
    Text,
    Int,
}

/// The name that the kind goes by in messages.
pub open spec fn kind_text(k: Kind) -> Seq<char> {
    match k {
        Kind::Time => "Timestamp(Microsecond, None)"@,
        Kind::Text => "Utf8"@,
        Kind::Int => "Int32"@,
    }
}

/// A column of the table.
pub struct ColumnDef {
    pub name: &'static str,
    pub kind: Kind,
    pub nullable: bool,
}

/// The columns: name, kind, and whether a row may leave it out.
pub open spec fn table_columns() -> Seq<(Seq<char>, Kind, bool)> {
    seq![
        ("event_ts"@, Kind::Time, false),
        ("host"@, Kind::Text, false),
        ("service"@, Kind::Text, true),
        ("source"@, Kind::Text, true),
        ("environment"@, Kind::Text, true),
        ("severity"@, Kind::Text, true),
        ("log_type"@, Kind::Text, true),
        ("message"@, Kind::Text, false),
        ("fields"@, Kind::Text, true),
        ("schema_version"@, Kind::Int, true),
        ("event_id"@, Kind::Text, true),
        ("ingest_time"@, Kind::Time, true),
        ("raw_payload_hash"@, Kind::Text, true),
        ("parser_name"@, Kind::Text, true),
        ("source_trust"@, Kind::Text, true),
        ("collector_id"@, Kind::Text, true),
    ]
}

/// The columns of a list of definitions.
pub open spec fn defined(v: Seq<ColumnDef>) -> Seq<(Seq<char>, Kind, bool)> {
    v.map_values(|c: ColumnDef| (c.name@, c.kind, c.nullable))
}

fn column(name: &'static str, kind: Kind, nullable: bool) -> (r: ColumnDef)
    ensures
        r.name@ == name@,
        r.kind == kind,
        r.nullable == nullable,
{
    ColumnDef { name, kind, nullable }
}

/// The columns of the events table. Their order is fixed: later columns are only
/// ever added behind these.
pub fn events_schema() -> (r: Vec<ColumnDef>)
    ensures
        defined(r@) == table_columns(),
{
    let mut r = wire_schema();
    let ghost wire = r@;
    assert(wire.len() == defined(wire).len());
    r.push(column("schema_version", Kind::Int, true));
    r.push(column("event_id", Kind::Text, true));
    r.push(column("ingest_time", Kind::Time, true));
    r.push(column("raw_payload_hash", Kind::Text, true));
    r.push(column("parser_name", Kind::Text, true));
    r.push(column("source_trust", Kind::Text, true));
    r.push(column("collector_id", Kind::Text, true));
    assert forall|i: int| 0 <= i < 9 implies #[trigger] defined(r@)[i] == table_columns()[i] by {
        assert(r@[i] == wire[i]);
        assert(defined(wire)[i] == table_columns().take(9)[i]);
    }
    assert(defined(r@) =~= table_columns());
    r
}

/// The payload columns, which a sender ships.
pub fn wire_schema() -> (r: Vec<ColumnDef>)
    ensures
        defined(r@) == table_columns().take(V1_COLUMNS as int),
{
    let mut r: Vec<ColumnDef> = Vec::new();
    r.push(column("event_ts", Kind::Time, false));
    r.push(column("host", Kind::Text, false));
    r.push(column("service", Kind::Text, true));
    r.push(column("source", Kind::Text, true));
    r.push(column("environment", Kind::Text, true));
    r.push(column("severity", Kind::Text, true));
    r.push(column("log_type", Kind::Text, true));
    r.push(column("message", Kind::Text, false));
    r.push(column("fields", Kind::Text, true));
    assert(defined(r@) =~= table_columns().take(V1_COLUMNS as int));
    r
}

/// A normalised event.
pub struct Event {
    pub ts_us: i64,
    pub host: String,
    pub service: String,
    pub source: String,
    pub environment: String,
    pub severity: String,
    pub log_type: String,
    pub message: String,
    pub fields: BTreeMap<String, String>,
}

/// A map of texts as JSON, or nothing where it cannot be written.
pub uninterp spec fn map_json(fields: Map<String, String>) -> Option<Seq<char>>;

/// `serde_json::to_string` on a map of texts. The result depends on the entries
/// alone.
#[verifier::external_body]
pub(crate) fn json_of(fields: &BTreeMap<String, String>) -> (r: Option<String>)
    ensures
        text::opt_text(r) == map_json(fields@),
{
    serde_json::to_string(fields).ok()
}

/// The 64 bits of a number of microseconds.
pub open spec fn bits(us: i64) -> nat {
    if us >= 0 {
        us as nat
    } else {
        (us + 0x1_0000_0000_0000_0000) as nat
    }
}

fn bits_of(us: i64) -> (r: u64)
    ensures
        r == bits(us),
{
    if us >= 0 {
        us as u64
    } else {
        ((us + i64::MAX) + 1) as u64 + 0x8000_0000_0000_0000u64
    }
}

/// The bytes that name an event: its time, host, source, service and message, a
/// zero byte behind each, and its fields where there are any.
pub open spec fn id_bytes(
    ts_us: i64,
    host: Seq<char>,
    source: Seq<char>,
    service: Seq<char>,
    message: Seq<char>,
    fields: Option<Seq<char>>,
) -> Seq<u8> {
    le::le(bits(ts_us), 8) + seq![0u8] + utf8::encode_utf8(host) + seq![0u8] + utf8::encode_utf8(
        source,
    ) + seq![0u8] + utf8::encode_utf8(service) + seq![0u8] + utf8::encode_utf8(message) + seq![0u8]
        + match fields {
        Some(f) => utf8::encode_utf8(f),
        None => Seq::empty(),
    }
}

/// The digest that names an event.
pub fn hash_id_parts(
    ts_us: i64,
    host: &str,
    source: &str,
    service: &str,
    message: &str,
    fields_json: Option<&str>,
) -> (r: [u8; 32])
    ensures
        r@ == hash::blake3_digest(
            id_bytes(
                ts_us,
                host@,
                source@,
                service@,
                message@,
                match fields_json {
                    Some(f) => Some(f@),
                    None => None,
                },
            ),
        ),
{
    let mut b: Vec<u8> = Vec::new();
    put_le(&mut b, bits_of(ts_us), 8);
    b.push(0);
    put_all(&mut b, host.as_bytes());
    b.push(0);
    put_all(&mut b, source.as_bytes());
    b.push(0);
    put_all(&mut b, service.as_bytes());
    b.push(0);
    put_all(&mut b, message.as_bytes());
    b.push(0);
    if let Some(f) = fields_json {
        put_all(&mut b, f.as_bytes());
    }
    assert(b@ =~= id_bytes(
        ts_us,
        host@,
        source@,
        service@,
        message@,
        match fields_json {
            Some(f) => Some(f@),
            None => None,
        },
    ));
    digest_of(b.as_slice())
}

/// The digest of an event.
pub open spec fn event_digest(e: Event) -> Seq<u8> {
    hash::blake3_digest(
        id_bytes(e.ts_us, e.host@, e.source@, e.service@, e.message@, map_json(e.fields@)),
    )
}

/// The id of an event: the digest of its content in hexadecimal, the same whenever
/// the event comes again.
pub fn event_id_for(e: &Event) -> (r: String)
    ensures
        r@ == hash::hex_text(event_digest(*e)),
{
    let json = json_of(&e.fields);
    let d = hash_id_parts(
        e.ts_us,
        e.host.as_str(),
        e.source.as_str(),
        e.service.as_str(),
        e.message.as_str(),
        match &json {
            Some(j) => Some(j.as_str()),
            None => None,
        },
    );
    hex_string(&d)
}

/// The payload hash of a message.
pub open spec fn payload_digest(message: Seq<char>) -> Seq<u8> {
    hash::blake3_digest(utf8::encode_utf8(message))
}

/// The first `n` bytes less the last `k`, and so on back: the rows of a column whose
/// bytes stand one row behind the other.
pub open spec fn cut(vals: Seq<u8>, lens: Seq<usize>) -> Seq<Seq<u8>>
    decreases lens.len(),
{
    if lens.len() == 0 {
        Seq::empty()
    } else {
        let k = vals.len() - lens.last();
        cut(vals.take(k), lens.drop_last()).push(vals.skip(k))
    }
}

/// The bytes that the rows take.
pub open spec fn total(lens: Seq<usize>) -> nat
    decreases lens.len(),
{
    if lens.len() == 0 {
        0
    } else {
        total(lens.drop_last()) + lens.last() as nat
    }
}

proof fn cut_len(vals: Seq<u8>, lens: Seq<usize>)
    ensures
        cut(vals, lens).len() == lens.len(),
    decreases lens.len(),
{
    if lens.len() > 0 {
        cut_len(vals.take(vals.len() - lens.last()), lens.drop_last());
    }
}

/// A row put behind the others.
proof fn cut_pushed(vals: Seq<u8>, lens: Seq<usize>, row: Seq<u8>, len: usize)
    requires
        row.len() == len,
    ensures
        cut(vals + row, lens.push(len)) == cut(vals, lens).push(row),
        total(lens.push(len)) == total(lens) + len,
{
    let all = vals + row;
    assert(all.take(all.len() - len) =~= vals);
    assert(all.skip(all.len() - len) =~= row);
    assert(lens.push(len).drop_last() =~= lens);
}

/// Columns put one behind the other.
proof fn cut_joined(a: Seq<u8>, la: Seq<usize>, b: Seq<u8>, lb: Seq<usize>)
    requires
        total(lb) == b.len(),
    ensures
        cut(a + b, la + lb) == cut(a, la) + cut(b, lb),
        total(la + lb) == total(la) + total(lb),
    decreases lb.len(),
{
    if lb.len() == 0 {
        assert(a + b =~= a);
        assert(la + lb =~= la);
        assert(cut(a, la) + cut(b, lb) =~= cut(a, la));
    } else {
        let k = b.len() - lb.last();
        let b0 = b.take(k);
        cut_joined(a, la, b0, lb.drop_last());
        let all = a + b;
        assert((la + lb).drop_last() =~= la + lb.drop_last());
        assert(all.take(all.len() - lb.last()) =~= a + b0);
        assert(all.skip(all.len() - lb.last()) =~= b.skip(k));
        assert(cut(a + b, la + lb) =~= cut(a, la) + cut(b, lb));
    }
}

/// A column of texts: the bytes of all rows one behind the other, and the length of
/// each.
pub struct StrCol {
    pub vals: Vec<u8>,
    pub lens: Vec<usize>,
}

impl StrCol {
    /// The lengths account for the bytes.
    pub open spec fn wf(&self) -> bool {
        total(self.lens@) == self.vals@.len()
    }

    /// The bytes of each row.
    pub open spec fn rows(&self) -> Seq<Seq<u8>> {
        cut(self.vals@, self.lens@)
    }

    pub fn new() -> (r: StrCol)
        ensures
            r.wf(),
            r.rows() == Seq::<Seq<u8>>::empty(),
            r.lens@.len() == 0,
    {
        StrCol { vals: Vec::new(), lens: Vec::new() }
    }

    /// Adds a row.
    pub fn push(&mut self, s: &str)
        requires
            old(self).wf(),
        ensures
            final(self).wf(),
            final(self).rows() == old(self).rows().push(utf8::encode_utf8(s@)),
            final(self).lens@.len() == old(self).lens@.len() + 1,
    {
        self.push_bytes(s.as_bytes());
    }

    /// Adds a row of the given bytes.
    pub fn push_bytes(&mut self, b: &[u8])
        requires
            old(self).wf(),
        ensures
            final(self).wf(),
            final(self).rows() == old(self).rows().push(b@),
            final(self).lens@.len() == old(self).lens@.len() + 1,
    {
        let n = b.len();
        proof {
            cut_pushed(self.vals@, self.lens@, b@, n);
        }
        put_all(&mut self.vals, b);
        self.lens.push(n);
    }

    /// Adds the rows of another column.
    pub fn append(&mut self, other: &StrCol)
        requires
            old(self).wf(),
            other.wf(),
        ensures
            final(self).wf(),
            final(self).rows() == old(self).rows() + other.rows(),
            final(self).lens@.len() == old(self).lens@.len() + other.lens@.len(),
    {
        proof {
            cut_joined(self.vals@, self.lens@, other.vals@, other.lens@);
        }
        put_all(&mut self.vals, other.vals.as_slice());
        let mut i: usize = 0;
        let ghost lens = self.lens@;
        assert(lens + other.lens@.take(0) =~= lens);
        while i < other.lens.len()
            invariant
                i <= other.lens.len(),
                self.lens@ == lens + other.lens@.take(i as int),
                self.vals@ == old(self).vals@ + other.vals@,
            decreases other.lens.len() - i,
        {
            self.lens.push(other.lens[i]);
            i += 1;
            assert(self.lens@ =~= lens + other.lens@.take(i as int));
        }
        assert(other.lens@.take(i as int) =~= other.lens@);
    }
}

/// A column of texts that may be absent.
pub struct TextColumn {
    pub rows: StrCol,
    /// Whether each row has a value. A row without one takes no bytes.
    pub valid: Vec<bool>,
}

impl TextColumn {
    pub open spec fn wf(&self) -> bool {
        self.rows.wf() && self.valid@.len() == self.rows.lens@.len()
    }

    /// The bytes of each row that has a value.
    pub open spec fn cells(&self) -> Seq<Option<Seq<u8>>> {
        Seq::new(
            self.valid@.len(),
            |i: int|
                if self.valid@[i] {
                    Some(self.rows.rows()[i])
                } else {
                    None
                },
        )
    }

    pub fn new() -> (r: TextColumn)
        ensures
            r.wf(),
            r.cells() == Seq::<Option<Seq<u8>>>::empty(),
            r.valid@.len() == 0,
    {
        let r = TextColumn { rows: StrCol::new(), valid: Vec::new() };
        assert(r.cells() =~= Seq::empty());
        r
    }

    /// Adds a row.
    pub fn push(&mut self, s: Option<&str>)
        requires
            old(self).wf(),
        ensures
            final(self).wf(),
            final(self).cells() == old(self).cells().push(
                match s {
                    Some(t) => Some(utf8::encode_utf8(t@)),
                    None => None,
                },
            ),
            final(self).valid@.len() == old(self).valid@.len() + 1,
    {
        proof {
            cut_len(self.rows.vals@, self.rows.lens@);
        }
        match s {
            Some(t) => {
                self.rows.push(t);
                self.valid.push(true);
            },
            None => {
                let none: Vec<u8> = Vec::new();
                self.rows.push_bytes(none.as_slice());
                self.valid.push(false);
            },
        }
        assert(self.cells() =~= old(self).cells().push(
            match s {
                Some(t) => Some(utf8::encode_utf8(t@)),
                None => None,
            },
        ));
    }

    /// Adds the rows of another column.
    pub fn append(&mut self, other: &TextColumn)
        requires
            old(self).wf(),
            other.wf(),
        ensures
            final(self).wf(),
            final(self).cells() == old(self).cells() + other.cells(),
            final(self).valid@.len() == old(self).valid@.len() + other.valid@.len(),
    {
        proof {
            cut_len(self.rows.vals@, self.rows.lens@);
            cut_len(other.rows.vals@, other.rows.lens@);
        }
        self.rows.append(&other.rows);
        let ghost valid = self.valid@;
        let ghost rows = self.rows;
        assert(valid + other.valid@.take(0) =~= valid);
        let mut i: usize = 0;
        while i < other.valid.len()
            invariant
                i <= other.valid.len(),
                self.rows == rows,
                self.valid@ == valid + other.valid@.take(i as int),
            decreases other.valid.len() - i,
        {
            self.valid.push(other.valid[i]);
            i += 1;
            assert(self.valid@ =~= valid + other.valid@.take(i as int));
        }
        assert(other.valid@.take(i as int) =~= other.valid@);
        assert(self.cells() =~= old(self).cells() + other.cells());
    }

    /// The bytes of a row, where it has a value.
    pub fn value(&self, i: usize) -> (r: Option<Vec<u8>>)
        requires
            self.wf(),
            i < self.cells().len(),
        ensures
            match r {
                Some(b) => self.cells()[i as int] == Some(b@),
                None => self.cells()[i as int] is None,
            },
    {
        if !self.valid[i] {
            return None;
        }
        let n = self.rows.lens.len();
        let mut end: usize = self.rows.vals.len();
        let mut k: usize = n;
        assert(self.rows.lens@.take(n as int) =~= self.rows.lens@);
        assert(self.rows.vals@.take(end as int) =~= self.rows.vals@);
        proof {
            cut_len(self.rows.vals@, self.rows.lens@);
        }
        while k > i + 1
            invariant
                i < k <= n == self.rows.lens.len(),
                end <= self.rows.vals.len(),
                total(self.rows.lens@.take(k as int)) == end,
                cut(self.rows.vals@.take(end as int), self.rows.lens@.take(k as int)).len() == k,
                cut(self.rows.vals@.take(end as int), self.rows.lens@.take(k as int))[i as int]
                    == self.rows.rows()[i as int],
            decreases k,
        {
            let len = self.rows.lens[k - 1];
            proof {
                let vals = self.rows.vals@.take(end as int);
                let lens = self.rows.lens@.take(k as int);
                assert(lens.drop_last() =~= self.rows.lens@.take(k - 1));
                assert(vals.take(vals.len() - len) =~= self.rows.vals@.take(end - len));
                cut_len(self.rows.vals@.take(end - len), self.rows.lens@.take(k - 1));
            }
            end = end - len;
            k -= 1;
        }
        let len = self.rows.lens[i];
        proof {
            let vals = self.rows.vals@.take(end as int);
            let lens = self.rows.lens@.take(k as int);
            assert(lens.last() == len);
            assert(lens.drop_last() =~= self.rows.lens@.take(k - 1));
            assert(vals.skip(vals.len() - len) =~= self.rows.vals@.subrange(end - len, end as int));
        }
        let mut out: Vec<u8> = Vec::new();
        let mut j: usize = end - len;
        while j < end
            invariant
                len <= end,
                end - len <= j <= end <= self.rows.vals.len(),
                out@ == self.rows.vals@.subrange(end - len, j as int),
            decreases end - j,
        {
            out.push(self.rows.vals[j]);
            j += 1;
            assert(out@ =~= self.rows.vals@.subrange(end - len, j as int));
        }
        Some(out)
    }
}

/// The payload columns of an event as bytes, with what names it.
#[verifier::ext_equal]
pub struct Folded {
    pub host: Seq<u8>,
    pub service: Seq<u8>,
    pub source: Seq<u8>,
    pub environment: Seq<u8>,
    pub severity: Seq<u8>,
    pub log_type: Seq<u8>,
    pub message: Seq<u8>,
    pub fields: Option<Seq<u8>>,
    pub event_id: Seq<u8>,
    pub payload_hash: Seq<u8>,
}

/// What an event is folded to.
pub open spec fn folded(e: Event) -> Folded {
    Folded {
        host: utf8::encode_utf8(e.host@),
        service: utf8::encode_utf8(e.service@),
        source: utf8::encode_utf8(e.source@),
        environment: utf8::encode_utf8(e.environment@),
        severity: utf8::encode_utf8(e.severity@),
        log_type: utf8::encode_utf8(e.log_type@),
        message: utf8::encode_utf8(e.message@),
        fields: match map_json(e.fields@) {
            Some(j) => Some(utf8::encode_utf8(j)),
            None => None,
        },
        event_id: hash::hex_bytes(event_digest(e)),
        payload_hash: hash::hex_bytes(payload_digest(e.message@)),
    }
}

/// What a list of events is folded to, in order.
pub open spec fn folded_all(events: Seq<Event>) -> Seq<Folded> {
    events.map_values(|e: Event| folded(e))
}

/// The columns of one run of events. Runs are folded apart and put together in order.
pub struct ProvSeg {
    host: StrCol,
    service: StrCol,
    source: StrCol,
    environment: StrCol,
    severity: StrCol,
    log_type: StrCol,
    message: StrCol,
    fields: TextColumn,
    event_id: StrCol,
    payload_hash: StrCol,
}

impl ProvSeg {
    /// Every column has a row for every event.
    #[verifier::type_invariant]
    spec fn level(self) -> bool {
        let n = self.host.lens@.len();
        &&& self.host.wf()
        &&& self.service.wf() && self.service.lens@.len() == n
        &&& self.source.wf() && self.source.lens@.len() == n
        &&& self.environment.wf() && self.environment.lens@.len() == n
        &&& self.severity.wf() && self.severity.lens@.len() == n
        &&& self.log_type.wf() && self.log_type.lens@.len() == n
        &&& self.message.wf() && self.message.lens@.len() == n
        &&& self.fields.wf() && self.fields.valid@.len() == n
        &&& self.event_id.wf() && self.event_id.lens@.len() == n
        &&& self.payload_hash.wf() && self.payload_hash.lens@.len() == n
    }

    /// The rows.
    pub closed spec fn rows(&self) -> Seq<Folded> {
        Seq::new(
            self.host.lens@.len(),
            |i: int|
                Folded {
                    host: self.host.rows()[i],
                    service: self.service.rows()[i],
                    source: self.source.rows()[i],
                    environment: self.environment.rows()[i],
                    severity: self.severity.rows()[i],
                    log_type: self.log_type.rows()[i],
                    message: self.message.rows()[i],
                    fields: self.fields.cells()[i],
                    event_id: self.event_id.rows()[i],
                    payload_hash: self.payload_hash.rows()[i],
                },
        )
    }

    pub fn new() -> (r: ProvSeg)
        ensures
            r.rows() == Seq::<Folded>::empty(),
    {
        let r = ProvSeg {
            host: StrCol::new(),
            service: StrCol::new(),
            source: StrCol::new(),
            environment: StrCol::new(),
            severity: StrCol::new(),
            log_type: StrCol::new(),
            message: StrCol::new(),
            fields: TextColumn::new(),
            event_id: StrCol::new(),
            payload_hash: StrCol::new(),
        };
        assert(r.fields.cells().len() == 0);
        assert(r.rows() =~= Seq::empty());
        r
    }

    /// Adds the row of an event. Its fields are written once, for the column and for
    /// the id.
    pub fn absorb(self, e: &Event) -> (r: ProvSeg)
        ensures
            r.rows() == self.rows().push(folded(*e)),
    {
        proof {
            use_type_invariant(&self);
        }
        let ghost before = self.rows();
        let ProvSeg {
            mut host,
            mut service,
            mut source,
            mut environment,
            mut severity,
            mut log_type,
            mut message,
            mut fields,
            mut event_id,
            mut payload_hash,
        } = self;
        let json = json_of(&e.fields);
        let fields_json: Option<&str> = match &json {
            Some(j) => Some(j.as_str()),
            None => None,
        };
        let id = hash_id_parts(
            e.ts_us,
            e.host.as_str(),
            e.source.as_str(),
            e.service.as_str(),
            e.message.as_str(),
            fields_json,
        );
        let mut slot = [0u8; 64];
        write_hex(&mut slot, &id);
        event_id.push_bytes(slot.as_slice());
        let ph = digest_of(e.message.as_str().as_bytes());
        write_hex(&mut slot, &ph);
        payload_hash.push_bytes(slot.as_slice());
        fields.push(fields_json);
        host.push(e.host.as_str());
        service.push(e.service.as_str());
        source.push(e.source.as_str());
        environment.push(e.environment.as_str());
        severity.push(e.severity.as_str());
        log_type.push(e.log_type.as_str());
        message.push(e.message.as_str());
        let r = ProvSeg {
            host,
            service,
            source,
            environment,
            severity,
            log_type,
            message,
            fields,
            event_id,
            payload_hash,
        };
        proof {
            seg_lens(self);
            assert(r.rows() =~= before.push(folded(*e)));
        }
        r
    }

    /// Puts another run behind this one.
    pub fn append(self, other: &ProvSeg) -> (r: ProvSeg)
        ensures
            r.rows() == self.rows() + other.rows(),
    {
        proof {
            use_type_invariant(&self);
            use_type_invariant(other);
        }
        let ghost before = self.rows();
        let ProvSeg {
            mut host,
            mut service,
            mut source,
            mut environment,
            mut severity,
            mut log_type,
            mut message,
            mut fields,
            mut event_id,
            mut payload_hash,
        } = self;
        host.append(&other.host);
        service.append(&other.service);
        source.append(&other.source);
        environment.append(&other.environment);
        severity.append(&other.severity);
        log_type.append(&other.log_type);
        message.append(&other.message);
        fields.append(&other.fields);
        event_id.append(&other.event_id);
        payload_hash.append(&other.payload_hash);
        let r = ProvSeg {
            host,
            service,
            source,
            environment,
            severity,
            log_type,
            message,
            fields,
            event_id,
            payload_hash,
        };
        proof {
            seg_lens(self);
            seg_lens(*other);
            assert(r.rows() =~= before + other.rows());
        }
        r
    }
}

proof fn seg_lens(s: ProvSeg)
    ensures
        s.host.rows().len() == s.host.lens@.len(),
        s.service.rows().len() == s.service.lens@.len(),
        s.source.rows().len() == s.source.lens@.len(),
        s.environment.rows().len() == s.environment.lens@.len(),
        s.severity.rows().len() == s.severity.lens@.len(),
        s.log_type.rows().len() == s.log_type.lens@.len(),
        s.message.rows().len() == s.message.lens@.len(),
        s.event_id.rows().len() == s.event_id.lens@.len(),
        s.payload_hash.rows().len() == s.payload_hash.lens@.len(),
{
    cut_len(s.host.vals@, s.host.lens@);
    cut_len(s.service.vals@, s.service.lens@);
    cut_len(s.source.vals@, s.source.lens@);
    cut_len(s.environment.vals@, s.environment.lens@);
    cut_len(s.severity.vals@, s.severity.lens@);
    cut_len(s.log_type.vals@, s.log_type.lens@);
    cut_len(s.message.vals@, s.message.lens@);
    cut_len(s.event_id.vals@, s.event_id.lens@);
    cut_len(s.payload_hash.vals@, s.payload_hash.lens@);
}

/// A row of the events table: its numbers, and the bytes of its texts.
#[verifier::ext_equal]
pub struct Stored {
    pub event_ts: i64,
    pub host: Option<Seq<u8>>,
    pub service: Option<Seq<u8>>,
    pub source: Option<Seq<u8>>,
    pub environment: Option<Seq<u8>>,
    pub severity: Option<Seq<u8>>,
    pub log_type: Option<Seq<u8>>,
    pub message: Option<Seq<u8>>,
    pub fields: Option<Seq<u8>>,
    pub schema_version: i32,
    pub event_id: Option<Seq<u8>>,
    pub ingest_time: i64,
    pub raw_payload_hash: Option<Seq<u8>>,
    pub parser_name: Option<Seq<u8>>,
    pub source_trust: Option<Seq<u8>>,
    pub collector_id: Option<Seq<u8>>,
}

/// The rows of an events batch, column by column in the order of the table.
pub struct EventsBatch {
    pub event_ts: Vec<i64>,
    pub host: TextColumn,
    pub service: TextColumn,
    pub source: TextColumn,
    pub environment: TextColumn,
    pub severity: TextColumn,
    pub log_type: TextColumn,
    pub message: TextColumn,
    pub fields: TextColumn,
    pub schema_version: Vec<i32>,
    pub event_id: TextColumn,
    pub ingest_time: Vec<i64>,
    pub raw_payload_hash: TextColumn,
    pub parser_name: TextColumn,
    pub source_trust: TextColumn,
    pub collector_id: TextColumn,
}

impl EventsBatch {
    /// Every column has a cell for every row.
    pub open spec fn wf(&self) -> bool {
        let n = self.event_ts@.len();
        &&& self.host.wf() && self.host.valid@.len() == n
        &&& self.service.wf() && self.service.valid@.len() == n
        &&& self.source.wf() && self.source.valid@.len() == n
        &&& self.environment.wf() && self.environment.valid@.len() == n
        &&& self.severity.wf() && self.severity.valid@.len() == n
        &&& self.log_type.wf() && self.log_type.valid@.len() == n
        &&& self.message.wf() && self.message.valid@.len() == n
        &&& self.fields.wf() && self.fields.valid@.len() == n
        &&& self.schema_version@.len() == n
        &&& self.event_id.wf() && self.event_id.valid@.len() == n
        &&& self.ingest_time@.len() == n
        &&& self.raw_payload_hash.wf() && self.raw_payload_hash.valid@.len() == n
        &&& self.parser_name.wf() && self.parser_name.valid@.len() == n
        &&& self.source_trust.wf() && self.source_trust.valid@.len() == n
        &&& self.collector_id.wf() && self.collector_id.valid@.len() == n
    }

    /// The rows.
    pub open spec fn rows(&self) -> Seq<Stored> {
        Seq::new(
            self.event_ts@.len(),
            |i: int|
                Stored {
                    event_ts: self.event_ts@[i],
                    host: self.host.cells()[i],
                    service: self.service.cells()[i],
                    source: self.source.cells()[i],
                    environment: self.environment.cells()[i],
                    severity: self.severity.cells()[i],
                    log_type: self.log_type.cells()[i],
                    message: self.message.cells()[i],
                    fields: self.fields.cells()[i],
                    schema_version: self.schema_version@[i],
                    event_id: self.event_id.cells()[i],
                    ingest_time: self.ingest_time@[i],
                    raw_payload_hash: self.raw_payload_hash.cells()[i],
                    parser_name: self.parser_name.cells()[i],
                    source_trust: self.source_trust.cells()[i],
                    collector_id: self.collector_id.cells()[i],
                },
        )
    }
}

/// The bytes of an optional text.
pub open spec fn encoded(s: Option<Seq<char>>) -> Option<Seq<u8>> {
    match s {
        Some(t) => Some(utf8::encode_utf8(t)),
        None => None,
    }
}

/// How far the source of a row is trusted: an authenticated collector vouches for
/// it, or nobody does.
pub open spec fn trust(collector: Option<Seq<char>>) -> Seq<char> {
    if collector is Some {
        "authenticated"@
    } else {
        "unverified"@
    }
}

/// The row that an event becomes when it is stored.
pub open spec fn stored(e: Event, collector: Option<Seq<char>>, now_us: i64) -> Stored {
    let f = folded(e);
    Stored {
        event_ts: e.ts_us,
        host: Some(f.host),
        service: Some(f.service),
        source: Some(f.source),
        environment: Some(f.environment),
        severity: Some(f.severity),
        log_type: Some(f.log_type),
        message: Some(f.message),
        fields: f.fields,
        schema_version: EVENT_SCHEMA_VERSION,
        event_id: Some(f.event_id),
        ingest_time: now_us,
        raw_payload_hash: Some(f.payload_hash),
        parser_name: Some(f.source),
        source_trust: Some(utf8::encode_utf8(trust(collector))),
        collector_id: encoded(collector),
    }
}

/// The events of attributed rows.
pub open spec fn events_of(rows: Seq<(&Event, Option<&str>)>) -> Seq<Event> {
    rows.map_values(|r: (&Event, Option<&str>)| *r.0)
}

/// The rows that attributed events become.
pub open spec fn stored_all(rows: Seq<(&Event, Option<&str>)>, now_us: i64) -> Seq<Stored> {
    rows.map_values(
        |r: (&Event, Option<&str>)|
            stored(
                *r.0,
                match r.1 {
                    Some(c) => Some(c@),
                    None => None,
                },
                now_us,
            ),
    )
}

/// The cells of a column without gaps.
fn all_valid(rows: StrCol) -> (r: TextColumn)
    requires
        rows.wf(),
    ensures
        r.wf(),
        r.valid@.len() == rows.lens@.len(),
        forall|i: int| 0 <= i < r.valid@.len() ==> (#[trigger] r.cells()[i]) == Some(rows.rows()[i]),
{
    let n = rows.lens.len();
    let mut valid: Vec<bool> = Vec::new();
    let mut i: usize = 0;
    while i < n
        invariant
            i <= n,
            valid@.len() == i,
            forall|j: int| 0 <= j < i ==> #[trigger] valid@[j],
        decreases n - i,
    {
        valid.push(true);
        i += 1;
    }
    TextColumn { rows, valid }
}

/// A run of attributed events with their columns.
pub struct Run<'a> {
    rows: Vec<(&'a Event, Option<&'a str>)>,
    seg: ProvSeg,
}

impl<'a> Run<'a> {
    #[verifier::type_invariant]
    spec fn follows(self) -> bool {
        self.seg.rows() == folded_all(events_of(self.rows@))
    }

    /// The attributed events.
    pub closed spec fn rows(&self) -> Seq<(&'a Event, Option<&'a str>)> {
        self.rows@
    }

    /// Folds the rows, one after the other.
    pub fn fold(rows: Vec<(&'a Event, Option<&'a str>)>) -> (r: Run<'a>)
        ensures
            r.rows() == rows@,
    {
        let mut seg = ProvSeg::new();
        let mut i: usize = 0;
        let ghost all = folded_all(events_of(rows@));
        while i < rows.len()
            invariant
                i <= rows.len(),
                all == folded_all(events_of(rows@)),
                seg.rows() == all.take(i as int),
            decreases rows.len() - i,
        {
            seg = seg.absorb(rows[i].0);
            i += 1;
            assert(all.take(i as int) =~= all.take(i - 1).push(all[i - 1]));
        }
        assert(all.take(i as int) =~= all);
        Run { rows, seg }
    }

    /// Two runs as one. Runs that are folded apart and joined in order give the
    /// columns that one run gives.
    pub fn join(self, other: Run<'a>) -> (r: Run<'a>)
        ensures
            r.rows() == self.rows() + other.rows(),
    {
        proof {
            use_type_invariant(&self);
            use_type_invariant(&other);
        }
        let Run { mut rows, seg } = self;
        let Run { rows: mut more, seg: behind } = other;
        let ghost a = rows@;
        let ghost b = more@;
        let seg = seg.append(&behind);
        rows.append(&mut more);
        assert(folded_all(events_of(a + b)) =~= folded_all(events_of(a)) + folded_all(
            events_of(b),
        ));
        Run { rows, seg }
    }

    /// The batch of the rows, stored at `now_us`.
    pub fn into_batch(self, now_us: i64) -> (r: EventsBatch)
        ensures
            r.wf(),
            r.rows() == stored_all(self.rows(), now_us),
    {
        proof {
            use_type_invariant(&self);
            use_type_invariant(&self.seg);
        }
        let Run { rows, seg } = self;
        let ghost fold = seg.rows();
        let n = rows.len();
        proof {
            assert(fold.len() == n);
            seg_lens(seg);
        }
        let mut event_ts: Vec<i64> = Vec::new();
        let mut schema_version: Vec<i32> = Vec::new();
        let mut ingest_time: Vec<i64> = Vec::new();
        let mut source_trust = TextColumn::new();
        let mut collector_id = TextColumn::new();
        let mut parser_name = TextColumn::new();
        let ghost want = stored_all(rows@, now_us);
        let mut i: usize = 0;
        while i < n
            invariant
                i <= n == rows.len(),
                want == stored_all(rows@, now_us),
                event_ts@.len() == i,
                schema_version@.len() == i,
                ingest_time@.len() == i,
                source_trust.wf() && source_trust.valid@.len() == i,
                collector_id.wf() && collector_id.valid@.len() == i,
                parser_name.wf() && parser_name.valid@.len() == i,
                forall|j: int| 0 <= j < i ==> (#[trigger] event_ts@[j]) == want[j].event_ts,
                forall|j: int| 0 <= j < i ==> (#[trigger] schema_version@[j]) == want[j].schema_version,
                forall|j: int| 0 <= j < i ==> (#[trigger] ingest_time@[j]) == want[j].ingest_time,
                forall|j: int| 0 <= j < i ==> (#[trigger] source_trust.cells()[j]) == want[j].source_trust,
                forall|j: int| 0 <= j < i ==> (#[trigger] collector_id.cells()[j]) == want[j].collector_id,
                forall|j: int| 0 <= j < i ==> (#[trigger] parser_name.cells()[j]) == want[j].parser_name,
            decreases n - i,
        {
            let (e, c) = rows[i];
            event_ts.push(e.ts_us);
            schema_version.push(EVENT_SCHEMA_VERSION);
            ingest_time.push(now_us);
            source_trust.push(
                Some(
                    if c.is_some() {
                        "authenticated"
                    } else {
                        "unverified"
                    },
                ),
            );
            collector_id.push(c);
            parser_name.push(Some(e.source.as_str()));
            i += 1;
        }
        let ProvSeg {
            host,
            service,
            source,
            environment,
            severity,
            log_type,
            message,
            fields,
            event_id,
            payload_hash,
        } = seg;
        let r = EventsBatch {
            event_ts,
            host: all_valid(host),
            service: all_valid(service),
            source: all_valid(source),
            environment: all_valid(environment),
            severity: all_valid(severity),
            log_type: all_valid(log_type),
            message: all_valid(message),
            fields,
            schema_version,
            event_id: all_valid(event_id),
            ingest_time,
            raw_payload_hash: all_valid(payload_hash),
            parser_name,
            source_trust,
            collector_id,
        };
        proof {
            assert forall|k: int| 0 <= k < n implies (#[trigger] r.rows()[k]) == want[k] by {
                assert(fold[k] == folded(*rows@[k].0)) by {
                    assert(events_of(rows@)[k] == *rows@[k].0);
                }
                assert(fold[k].host == host.rows()[k]);
                assert(r.host.cells()[k] == Some(host.rows()[k]));
                assert(r.service.cells()[k] == Some(service.rows()[k]));
                assert(r.source.cells()[k] == Some(source.rows()[k]));
                assert(r.environment.cells()[k] == Some(environment.rows()[k]));
                assert(r.severity.cells()[k] == Some(severity.rows()[k]));
                assert(r.log_type.cells()[k] == Some(log_type.rows()[k]));
                assert(r.message.cells()[k] == Some(message.rows()[k]));
                assert(r.event_id.cells()[k] == Some(event_id.rows()[k]));
                assert(r.raw_payload_hash.cells()[k] == Some(payload_hash.rows()[k]));
            }
            assert(r.rows() =~= want);
        }
        r
    }
}

/// The batch of unattributed events.
pub fn build_events_batch(events: &[Event], now_us: i64) -> (r: EventsBatch)
    ensures
        r.wf(),
        r.rows() == events@.map_values(|e: Event| stored(e, None, now_us)),
{
    let mut rows: Vec<(&Event, Option<&str>)> = Vec::new();
    let mut i: usize = 0;
    while i < events.len()
        invariant
            i <= events@.len(),
            rows@.len() == i,
            forall|j: int|
                0 <= j < i ==> *(#[trigger] rows@[j]).0 == events@[j] && rows@[j].1 is None,
        decreases events.len() - i,
    {
        rows.push((&events[i], None));
        i += 1;
    }
    let r = Run::fold(rows).into_batch(now_us);
    assert(r.rows() =~= events@.map_values(|e: Event| stored(e, None, now_us)));
    r
}

/// The batch of events that each name the authenticated collector that delivered
/// them, if one did.
pub fn build_events_batch_attributed(rows: &[(Event, Option<String>)], now_us: i64) -> (r:
    EventsBatch)
    ensures
        r.wf(),
        r.rows() == rows@.map_values(
            |p: (Event, Option<String>)| stored(p.0, text::opt_text(p.1), now_us),
        ),
{
    let mut refs: Vec<(&Event, Option<&str>)> = Vec::new();
    let mut i: usize = 0;
    while i < rows.len()
        invariant
            i <= rows@.len(),
            refs@.len() == i,
            forall|j: int|
                0 <= j < i ==> *(#[trigger] refs@[j]).0 == rows@[j].0 && (match refs@[j].1 {
                    Some(c) => Some(c@),
                    None => None::<Seq<char>>,
                }) == text::opt_text(rows@[j].1),
        decreases rows.len() - i,
    {
        let c: Option<&str> = match &rows[i].1 {
            Some(c) => Some(c.as_str()),
            None => None,
        };
        refs.push((&rows[i].0, c));
        i += 1;
    }
    let r = Run::fold(refs).into_batch(now_us);
    assert(r.rows() =~= rows@.map_values(
        |p: (Event, Option<String>)| stored(p.0, text::opt_text(p.1), now_us),
    ));
    r
}

/// How many workers fold a batch: all of them, written as zero, or one where
/// starting more costs more than it saves.
pub fn fold_workers(rows: usize) -> (r: usize)
    ensures
        r == if rows >= PARALLEL_ROW_THRESHOLD {
            0usize
        } else {
            1
        },
{
    if rows >= PARALLEL_ROW_THRESHOLD {
        0
    } else {
        1
    }
}

/// Events of different times are named by different bytes.
pub proof fn the_time_names_the_event(
    a: i64,
    b: i64,
    host: Seq<char>,
    source: Seq<char>,
    service: Seq<char>,
    message: Seq<char>,
    fields: Option<Seq<char>>,
)
    ensures
        id_bytes(a, host, source, service, message, fields) == id_bytes(
            b,
            host,
            source,
            service,
            message,
            fields,
        ) <==> a == b,
{
    let x = id_bytes(a, host, source, service, message, fields);
    let y = id_bytes(b, host, source, service, message, fields);
    le::le_len(bits(a), 8);
    le::le_len(bits(b), 8);
    le::ranges();
    le::value_undoes_le(bits(a), 8);
    le::value_undoes_le(bits(b), 8);
    if x == y {
        assert(x.take(8) =~= le::le(bits(a), 8));
        assert(y.take(8) =~= le::le(bits(b), 8));
    }
}

/// Where all else is the same, events of different hosts are named by different bytes.
pub proof fn the_host_names_the_event(
    us: i64,
    a: Seq<char>,
    b: Seq<char>,
    source: Seq<char>,
    service: Seq<char>,
    message: Seq<char>,
    fields: Option<Seq<char>>,
)
    ensures
        id_bytes(us, a, source, service, message, fields) == id_bytes(
            us,
            b,
            source,
            service,
            message,
            fields,
        ) <==> a == b,
{
    let z = seq![0u8];
    let head = le::le(bits(us), 8) + z;
    let tail = z + utf8::encode_utf8(source) + z + utf8::encode_utf8(service) + z
        + utf8::encode_utf8(message) + z + tail_bytes(fields);
    assert(id_bytes(us, a, source, service, message, fields) =~= head + utf8::encode_utf8(a)
        + tail);
    assert(id_bytes(us, b, source, service, message, fields) =~= head + utf8::encode_utf8(b)
        + tail);
    one_part_differs(head, a, b, tail);
}

/// Where all else is the same, events of different sources are named by different bytes.
pub proof fn the_source_names_the_event(
    us: i64,
    host: Seq<char>,
    a: Seq<char>,
    b: Seq<char>,
    service: Seq<char>,
    message: Seq<char>,
    fields: Option<Seq<char>>,
)
    ensures
        id_bytes(us, host, a, service, message, fields) == id_bytes(
            us,
            host,
            b,
            service,
            message,
            fields,
        ) <==> a == b,
{
    let z = seq![0u8];
    let head = le::le(bits(us), 8) + z + utf8::encode_utf8(host) + z;
    let tail = z + utf8::encode_utf8(service) + z + utf8::encode_utf8(message) + z + tail_bytes(
        fields,
    );
    assert(id_bytes(us, host, a, service, message, fields) =~= head + utf8::encode_utf8(a) + tail);
    assert(id_bytes(us, host, b, service, message, fields) =~= head + utf8::encode_utf8(b) + tail);
    one_part_differs(head, a, b, tail);
}

/// Where all else is the same, events of different services are named by different bytes.
pub proof fn the_service_names_the_event(
    us: i64,
    host: Seq<char>,
    source: Seq<char>,
    a: Seq<char>,
    b: Seq<char>,
    message: Seq<char>,
    fields: Option<Seq<char>>,
)
    ensures
        id_bytes(us, host, source, a, message, fields) == id_bytes(
            us,
            host,
            source,
            b,
            message,
            fields,
        ) <==> a == b,
{
    let z = seq![0u8];
    let head = le::le(bits(us), 8) + z + utf8::encode_utf8(host) + z + utf8::encode_utf8(source)
        + z;
    let tail = z + utf8::encode_utf8(message) + z + tail_bytes(fields);
    assert(id_bytes(us, host, source, a, message, fields) =~= head + utf8::encode_utf8(a) + tail);
    assert(id_bytes(us, host, source, b, message, fields) =~= head + utf8::encode_utf8(b) + tail);
    one_part_differs(head, a, b, tail);
}

/// Where all else is the same, events of different messages are named by different bytes.
pub proof fn the_message_names_the_event(
    us: i64,
    host: Seq<char>,
    source: Seq<char>,
    service: Seq<char>,
    a: Seq<char>,
    b: Seq<char>,
    fields: Option<Seq<char>>,
)
    ensures
        id_bytes(us, host, source, service, a, fields) == id_bytes(
            us,
            host,
            source,
            service,
            b,
            fields,
        ) <==> a == b,
{
    let z = seq![0u8];
    let head = le::le(bits(us), 8) + z + utf8::encode_utf8(host) + z + utf8::encode_utf8(source) + z
        + utf8::encode_utf8(service) + z;
    let tail = z + tail_bytes(fields);
    assert(id_bytes(us, host, source, service, a, fields) =~= head + utf8::encode_utf8(a) + tail);
    assert(id_bytes(us, host, source, service, b, fields) =~= head + utf8::encode_utf8(b) + tail);
    one_part_differs(head, a, b, tail);
}

/// Where all else is the same, events of different fields are named by different bytes.
pub proof fn the_fields_name_the_event(
    us: i64,
    host: Seq<char>,
    source: Seq<char>,
    service: Seq<char>,
    message: Seq<char>,
    a: Seq<char>,
    b: Seq<char>,
)
    ensures
        id_bytes(us, host, source, service, message, Some(a)) == id_bytes(
            us,
            host,
            source,
            service,
            message,
            Some(b),
        ) <==> a == b,
{
    let z = seq![0u8];
    let head = le::le(bits(us), 8) + z + utf8::encode_utf8(host) + z + utf8::encode_utf8(source) + z
        + utf8::encode_utf8(service) + z + utf8::encode_utf8(message) + z;
    let tail = Seq::<u8>::empty();
    assert(id_bytes(us, host, source, service, message, Some(a)) =~= head + utf8::encode_utf8(a)
        + tail);
    assert(id_bytes(us, host, source, service, message, Some(b)) =~= head + utf8::encode_utf8(b)
        + tail);
    one_part_differs(head, a, b, tail);
}

spec fn tail_bytes(fields: Option<Seq<char>>) -> Seq<u8> {
    match fields {
        Some(f) => utf8::encode_utf8(f),
        None => Seq::empty(),
    }
}

proof fn one_part_differs(before: Seq<u8>, x: Seq<char>, y: Seq<char>, after: Seq<u8>)
    ensures
        before + utf8::encode_utf8(x) + after == before + utf8::encode_utf8(y) + after ==> x == y,
{
    let p = utf8::encode_utf8(x);
    let q = utf8::encode_utf8(y);
    let a = before + p + after;
    let b = before + q + after;
    if a == b {
        let n = before.len() as int;
        assert(a.len() == before.len() + p.len() + after.len());
        assert(b.len() == before.len() + q.len() + after.len());
        assert(a.subrange(n, n + p.len()) =~= p);
        assert(b.subrange(n, n + q.len()) =~= q);
        utf8::encode_utf8_decode_utf8(x);
        utf8::encode_utf8_decode_utf8(y);
    }
}

/// An event is stored whole: each of its texts in the column of its name, with the version
/// of the table, who delivered it and when it came.
pub proof fn an_event_is_stored_whole(e: Event, collector: Option<Seq<char>>, now_us: i64)
    ensures
        ({
            let r = stored(e, collector, now_us);
            &&& r.event_ts == e.ts_us
            &&& r.ingest_time == now_us
            &&& r.schema_version == 2
            &&& r.host == Some(utf8::encode_utf8(e.host@))
            &&& r.service == Some(utf8::encode_utf8(e.service@))
            &&& r.source == Some(utf8::encode_utf8(e.source@))
            &&& r.parser_name == r.source
            &&& r.environment == Some(utf8::encode_utf8(e.environment@))
            &&& r.severity == Some(utf8::encode_utf8(e.severity@))
            &&& r.log_type == Some(utf8::encode_utf8(e.log_type@))
            &&& r.message == Some(utf8::encode_utf8(e.message@))
            &&& map_json(e.fields@) is None ==> r.fields is None
            &&& map_json(e.fields@) matches Some(j) ==> r.fields == Some(utf8::encode_utf8(j))
            &&& collector is Some ==> r.collector_id == Some(utf8::encode_utf8(collector->0))
                && r.source_trust == Some(utf8::encode_utf8("authenticated"@))
            &&& collector is None ==> r.collector_id is None && r.source_trust == Some(
                utf8::encode_utf8("unverified"@),
            )
            &&& r.event_id == Some(hash::hex_bytes(event_digest(e)))
            &&& r.raw_payload_hash == Some(hash::hex_bytes(payload_digest(e.message@)))
        }),
{
}

} // verus!
