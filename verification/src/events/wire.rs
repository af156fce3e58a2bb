//! Batches that arrive as columns. A sender ships the payload columns; where a row
//! came from is worked out here.

use crate::events::columns::{
    self, EVENT_SCHEMA_VERSION, V1_COLUMNS, events_schema, hash_id_parts, json_of, wire_schema,
    Event, EventsBatch, Kind, Stored, TextColumn,
};
use crate::hash::{self, digest_of, hex_string};
use crate::numerals::{self, decimal};
use crate::text::{self, same};
use vstd::prelude::*;
use vstd::utf8;

verus! {

/// A column that a sender declares.
pub struct WireField {
    pub name: String,
    /// What it holds; nothing where the table has no column of that kind.
    pub kind: Option<Kind>,
    /// The kind as messages show it.
    pub shown: String,
}

/// A row of the payload columns.
pub struct WireRow {
    pub event_ts: Option<i64>,
    pub host: Option<String>,
    pub service: Option<String>,
    pub source: Option<String>,
    pub environment: Option<String>,
    pub severity: Option<String>,
    pub log_type: Option<String>,
    pub message: Option<String>,
    /// The fields as JSON.
    pub fields: Option<String>,
}

/// A batch as it arrives: what the sender declares, and the payload of the rows.
pub struct WireBatch {
    pub fields: Vec<WireField>,
    pub rows: Vec<WireRow>,
}

/// A declared column is the one that the table has at this place.
pub open spec fn fits(f: WireField, i: int) -> bool {
    f.name@ == columns::table_columns()[i].0 && f.kind == Some(columns::table_columns()[i].1)
}

/// A row has a value in the columns that every row must fill: the time, the host and
/// the message.
pub open spec fn filled(r: WireRow, i: int) -> bool {
    &&& i == 0 ==> r.event_ts is Some
    &&& i == 1 ==> r.host is Some
    &&& i == 7 ==> r.message is Some
}

/// Every row has a value in the column.
pub open spec fn without_gaps(rows: Seq<WireRow>, i: int) -> bool {
    forall|k: int| 0 <= k < rows.len() ==> filled(#[trigger] rows[k], i)
}

/// Why a batch is refused.
pub enum WireError {
    /// The payload columns are not all there.
    TooFew { columns: usize },
    /// A column is not the one that stands at this place.
    Column { index: usize, name: String, shown: String },
    /// A row leaves out what every row must have.
    Gap { index: usize },
}

/// A text, or the empty one.
pub open spec fn or_empty(s: Option<String>) -> Seq<char> {
    match s {
        Some(t) => t@,
        None => Seq::empty(),
    }
}

fn str_or_empty(s: &Option<String>) -> (r: &str)
    ensures
        r@ == or_empty(*s),
{
    match s {
        Some(t) => t.as_str(),
        None => {
            proof {
                reveal_strlit("");
            }
            assert(""@ =~= Seq::<char>::empty());
            ""
        },
    }
}

fn as_str(s: &Option<String>) -> (r: Option<&str>)
    ensures
        match r {
            Some(t) => text::opt_text(*s) == Some(t@),
            None => *s is None,
        },
{
    match s {
        Some(t) => Some(t.as_str()),
        None => None,
    }
}

/// The digest that names a row.
pub open spec fn row_digest(r: WireRow) -> Seq<u8> {
    hash::blake3_digest(
        columns::id_bytes(
            r.event_ts->0,
            or_empty(r.host),
            or_empty(r.source),
            or_empty(r.service),
            or_empty(r.message),
            text::opt_text(r.fields),
        ),
    )
}

/// The row that an arriving row becomes when it is stored.
pub open spec fn swallowed(r: WireRow, collector: Option<Seq<char>>, now_us: i64) -> Stored {
    Stored {
        event_ts: r.event_ts->0,
        host: columns::encoded(text::opt_text(r.host)),
        service: columns::encoded(text::opt_text(r.service)),
        source: columns::encoded(text::opt_text(r.source)),
        environment: columns::encoded(text::opt_text(r.environment)),
        severity: columns::encoded(text::opt_text(r.severity)),
        log_type: columns::encoded(text::opt_text(r.log_type)),
        message: columns::encoded(text::opt_text(r.message)),
        fields: columns::encoded(text::opt_text(r.fields)),
        schema_version: EVENT_SCHEMA_VERSION,
        event_id: Some(hash::hex_bytes(row_digest(r))),
        ingest_time: now_us,
        raw_payload_hash: Some(hash::hex_bytes(columns::payload_digest(or_empty(r.message)))),
        parser_name: Some(utf8::encode_utf8(or_empty(r.source))),
        source_trust: Some(utf8::encode_utf8(columns::trust(collector))),
        collector_id: columns::encoded(collector),
    }
}

/// A row that holds the payload of an event.
pub open spec fn carries(r: WireRow, e: Event) -> bool {
    &&& r.event_ts == Some(e.ts_us)
    &&& text::opt_text(r.host) == Some(e.host@)
    &&& text::opt_text(r.service) == Some(e.service@)
    &&& text::opt_text(r.source) == Some(e.source@)
    &&& text::opt_text(r.environment) == Some(e.environment@)
    &&& text::opt_text(r.severity) == Some(e.severity@)
    &&& text::opt_text(r.log_type) == Some(e.log_type@)
    &&& text::opt_text(r.message) == Some(e.message@)
    &&& text::opt_text(r.fields) == columns::map_json(e.fields@)
}

/// An event that arrives as columns is stored as the same event that arrives whole:
/// it has the same id, and the same row altogether.
pub proof fn both_ways_store_alike(
    r: WireRow,
    e: Event,
    collector: Option<Seq<char>>,
    now_us: i64,
)
    requires
        carries(r, e),
    ensures
        row_digest(r) == columns::event_digest(e),
        swallowed(r, collector, now_us) == columns::stored(e, collector, now_us),
{
    assert(swallowed(r, collector, now_us) =~= columns::stored(e, collector, now_us));
}

/// Who delivered an event, and when, has no part in its id.
pub proof fn attribution_leaves_the_id(
    e: Event,
    a: Option<Seq<char>>,
    b: Option<Seq<char>>,
    s: i64,
    t: i64,
)
    ensures
        columns::stored(e, a, s).event_id == columns::stored(e, b, t).event_id,
        columns::stored(e, a, s).event_id == Some(
            utf8::encode_utf8(hash::hex_text(columns::event_digest(e))),
        ),
{
    hash::hex_is_ascii(columns::event_digest(e));
}

/// The first column from `index` on that does not fit, of the payload columns.
fn check_columns(fields: &Vec<WireField>) -> (r: Result<(), WireError>)
    requires
        fields.len() >= V1_COLUMNS,
    ensures
        match r {
            Ok(()) => forall|i: int| 0 <= i < V1_COLUMNS ==> fits(#[trigger] fields@[i], i),
            Err(WireError::Column { index, name, shown }) => {
                &&& index < V1_COLUMNS
                &&& !fits(fields@[index as int], index as int)
                &&& forall|i: int| 0 <= i < index ==> fits(#[trigger] fields@[i], i)
                &&& name@ == fields@[index as int].name@
                &&& shown@ == fields@[index as int].shown@
            },
            Err(_) => false,
        },
{
    let want = events_schema();
    assert(want.len() == columns::defined(want@).len());
    let mut i: usize = 0;
    while i < V1_COLUMNS
        invariant
            i <= V1_COLUMNS <= fields.len(),
            want.len() == 16,
            columns::defined(want@) == columns::table_columns(),
            forall|j: int| 0 <= j < i ==> fits(#[trigger] fields@[j], j),
        decreases V1_COLUMNS - i,
    {
        let f = &fields[i];
        let w = &want[i];
        assert(columns::defined(want@)[i as int] == (w.name@, w.kind, w.nullable));
        let kind_ok = match f.kind {
            Some(k) => k == w.kind,
            None => false,
        };
        if !(same(f.name.as_str(), w.name) && kind_ok) {
            return Err(
                WireError::Column { index: i, name: f.name.clone(), shown: f.shown.clone() },
            );
        }
        i += 1;
    }
    Ok(())
}

/// Whether every row has a value in the column.
fn has_no_gap(rows: &Vec<WireRow>, column: usize) -> (r: bool)
    ensures
        r == without_gaps(rows@, column as int),
{
    let mut i: usize = 0;
    while i < rows.len()
        invariant
            i <= rows.len(),
            forall|k: int| 0 <= k < i ==> filled(#[trigger] rows@[k], column as int),
        decreases rows.len() - i,
    {
        let w = &rows[i];
        let ok = if column == 0 {
            w.event_ts.is_some()
        } else if column == 1 {
            w.host.is_some()
        } else if column == 7 {
            w.message.is_some()
        } else {
            true
        };
        if !ok {
            assert(!filled(rows@[i as int], column as int));
            return false;
        }
        i += 1;
    }
    true
}

/// The batch of arriving rows. The payload passes through as it is; the id and the
/// payload hash are worked out from it, and the collector is the authenticated
/// sender, if there is one. A batch of other columns is refused, and so is one that
/// leaves a gap where the table has none.
pub fn build_events_batch_from_wire(wire: &WireBatch, collector: Option<&str>, now_us: i64) -> (r:
    Result<EventsBatch, WireError>)
    ensures
        match r {
            Ok(b) => {
                &&& wire.fields@.len() >= V1_COLUMNS
                &&& forall|i: int| 0 <= i < V1_COLUMNS ==> fits(#[trigger] wire.fields@[i], i)
                &&& without_gaps(wire.rows@, 0)
                &&& without_gaps(wire.rows@, 1)
                &&& without_gaps(wire.rows@, 7)
                &&& b.wf()
                &&& b.rows() == wire.rows@.map_values(
                    |w: WireRow|
                        swallowed(
                            w,
                            match collector {
                                Some(c) => Some(c@),
                                None => None,
                            },
                            now_us,
                        ),
                )
            },
            Err(WireError::TooFew { columns }) => columns == wire.fields@.len() < V1_COLUMNS,
            Err(WireError::Column { index, name, shown }) => {
                &&& wire.fields@.len() >= V1_COLUMNS
                &&& index < V1_COLUMNS
                &&& !fits(wire.fields@[index as int], index as int)
                &&& forall|i: int| 0 <= i < index ==> fits(#[trigger] wire.fields@[i], i)
                &&& name@ == wire.fields@[index as int].name@
                &&& shown@ == wire.fields@[index as int].shown@
            },
            Err(WireError::Gap { index }) => {
                &&& wire.fields@.len() >= V1_COLUMNS
                &&& forall|i: int| 0 <= i < V1_COLUMNS ==> fits(#[trigger] wire.fields@[i], i)
                &&& index < V1_COLUMNS
                &&& !without_gaps(wire.rows@, index as int)
                &&& forall|i: int| 0 <= i < index ==> #[trigger] without_gaps(wire.rows@, i)
            },
        },
{
    if wire.fields.len() < V1_COLUMNS {
        return Err(WireError::TooFew { columns: wire.fields.len() });
    }
    match check_columns(&wire.fields) {
        Ok(()) => {},
        Err(e) => {
            return Err(e);
        },
    }
    let mut c: usize = 0;
    while c < V1_COLUMNS
        invariant
            c <= V1_COLUMNS,
            wire.fields@.len() >= V1_COLUMNS,
            forall|i: int| 0 <= i < V1_COLUMNS ==> fits(#[trigger] wire.fields@[i], i),
            forall|i: int| 0 <= i < c ==> #[trigger] without_gaps(wire.rows@, i),
        decreases V1_COLUMNS - c,
    {
        if !has_no_gap(&wire.rows, c) {
            return Err(WireError::Gap { index: c });
        }
        c += 1;
    }
    assert(without_gaps(wire.rows@, 0) && without_gaps(wire.rows@, 1) && without_gaps(wire.rows@, 7));
    let ghost who = match collector {
        Some(c) => Some(c@),
        None => None,
    };
    let ghost want = wire.rows@.map_values(|w: WireRow| swallowed(w, who, now_us));
    let mut b = EventsBatch {
        event_ts: Vec::new(),
        host: TextColumn::new(),
        service: TextColumn::new(),
        source: TextColumn::new(),
        environment: TextColumn::new(),
        severity: TextColumn::new(),
        log_type: TextColumn::new(),
        message: TextColumn::new(),
        fields: TextColumn::new(),
        schema_version: Vec::new(),
        event_id: TextColumn::new(),
        ingest_time: Vec::new(),
        raw_payload_hash: TextColumn::new(),
        parser_name: TextColumn::new(),
        source_trust: TextColumn::new(),
        collector_id: TextColumn::new(),
    };
    let mut i: usize = 0;
    assert(b.rows() =~= want.take(0));
    while i < wire.rows.len()
        invariant
            i <= wire.rows.len(),
            who == (match collector {
                Some(c) => Some(c@),
                None => None,
            }),
            want == wire.rows@.map_values(|w: WireRow| swallowed(w, who, now_us)),
            without_gaps(wire.rows@, 0),
            b.wf(),
            b.rows() == want.take(i as int),
        decreases wire.rows.len() - i,
    {
        assert(filled(wire.rows@[i as int], 0));
        swallow(&mut b, &wire.rows[i], collector, now_us);
        i += 1;
        assert(want.take(i as int) =~= want.take(i - 1).push(want[i - 1]));
    }
    assert(want.take(i as int) =~= want);
    Ok(b)
}

/// Adds an arriving row to a batch.
fn swallow(b: &mut EventsBatch, w: &WireRow, collector: Option<&str>, now_us: i64)
    requires
        old(b).wf(),
        w.event_ts is Some,
    ensures
        final(b).wf(),
        final(b).rows() == old(b).rows().push(
            swallowed(
                *w,
                match collector {
                    Some(c) => Some(c@),
                    None => None,
                },
                now_us,
            ),
        ),
{
    let ts = match w.event_ts {
        Some(t) => t,
        None => 0,
    };
    let id = hash_id_parts(
        ts,
        str_or_empty(&w.host),
        str_or_empty(&w.source),
        str_or_empty(&w.service),
        str_or_empty(&w.message),
        as_str(&w.fields),
    );
    let id = hex_string(&id);
    let ph = digest_of(str_or_empty(&w.message).as_bytes());
    let ph = hex_string(&ph);
    proof {
        hash::hex_is_ascii(row_digest(*w));
        hash::hex_is_ascii(columns::payload_digest(or_empty(w.message)));
    }
    b.event_ts.push(ts);
    b.host.push(as_str(&w.host));
    b.service.push(as_str(&w.service));
    b.source.push(as_str(&w.source));
    b.environment.push(as_str(&w.environment));
    b.severity.push(as_str(&w.severity));
    b.log_type.push(as_str(&w.log_type));
    b.message.push(as_str(&w.message));
    b.fields.push(as_str(&w.fields));
    b.schema_version.push(EVENT_SCHEMA_VERSION);
    b.event_id.push(Some(id.as_str()));
    b.ingest_time.push(now_us);
    b.raw_payload_hash.push(Some(ph.as_str()));
    b.parser_name.push(Some(str_or_empty(&w.source)));
    b.source_trust.push(
        Some(
            if collector.is_some() {
                "authenticated"
            } else {
                "unverified"
            },
        ),
    );
    b.collector_id.push(collector);
    assert(b.rows() =~= old(b).rows().push(
        swallowed(
            *w,
            match collector {
                Some(c) => Some(c@),
                None => None,
            },
            now_us,
        ),
    ));
}

/// The batch that a sender ships for some events.
pub fn build_wire_batch(events: &[Event]) -> (r: WireBatch)
    ensures
        r.fields@.len() == V1_COLUMNS,
        forall|i: int| 0 <= i < V1_COLUMNS ==> fits(#[trigger] r.fields@[i], i),
        r.rows@.len() == events@.len(),
        forall|i: int| 0 <= i < events@.len() ==> carries(#[trigger] r.rows@[i], events@[i]),
{
    let want = wire_schema();
    assert(want.len() == columns::defined(want@).len());
    let mut fields: Vec<WireField> = Vec::new();
    let mut i: usize = 0;
    while i < V1_COLUMNS
        invariant
            i <= V1_COLUMNS == want.len(),
            columns::defined(want@) == columns::table_columns().take(V1_COLUMNS as int),
            fields@.len() == i,
            forall|j: int| 0 <= j < i ==> fits(#[trigger] fields@[j], j),
        decreases V1_COLUMNS - i,
    {
        let w = &want[i];
        assert(columns::defined(want@)[i as int] == (w.name@, w.kind, w.nullable));
        let shown = match w.kind {
            Kind::Time => "Timestamp(Microsecond, None)",
            Kind::Text => "Utf8",
            Kind::Int => "Int32",
        };
        fields.push(
            WireField {
                name: String::from_str(w.name),
                kind: Some(w.kind),
                shown: String::from_str(shown),
            },
        );
        i += 1;
    }
    let mut rows: Vec<WireRow> = Vec::new();
    let mut k: usize = 0;
    while k < events.len()
        invariant
            k <= events@.len(),
            rows@.len() == k,
            forall|j: int| 0 <= j < k ==> carries(#[trigger] rows@[j], events@[j]),
        decreases events.len() - k,
    {
        let e = &events[k];
        rows.push(
            WireRow {
                event_ts: Some(e.ts_us),
                host: Some(e.host.clone()),
                service: Some(e.service.clone()),
                source: Some(e.source.clone()),
                environment: Some(e.environment.clone()),
                severity: Some(e.severity.clone()),
                log_type: Some(e.log_type.clone()),
                message: Some(e.message.clone()),
                fields: json_of(&e.fields),
            },
        );
        k += 1;
    }
    WireBatch { fields, rows }
}

/// What is reported of a refused batch.
pub open spec fn wire_message(e: WireError) -> Seq<char> {
    match e {
        WireError::TooFew { columns } => "wire batch has "@ + numerals::numeral(columns as nat)
            + " columns, need the "@ + numerals::numeral(V1_COLUMNS as nat)
            + " v1 payload columns"@,
        WireError::Column { index, name, shown } => "wire column "@ + numerals::numeral(
            index as nat,
        ) + " is "@ + name@ + ":"@ + shown@ + ", expected "@
            + columns::table_columns()[index as int].0 + ":"@ + columns::kind_text(
            columns::table_columns()[index as int].1,
        ),
        WireError::Gap { index } => "Invalid argument error: Column '"@
            + columns::table_columns()[index as int].0
            + "' is declared as non-nullable but contains null values"@,
    }
}

impl WireError {
    /// What is reported of the refused batch.
    pub fn message(&self) -> (r: String)
        requires
            match *self {
                WireError::TooFew { .. } => true,
                WireError::Column { index, .. } => index < V1_COLUMNS,
                WireError::Gap { index } => index < V1_COLUMNS,
            },
        ensures
            r@ == wire_message(*self),
    {
        let want = events_schema();
        assert(want.len() == columns::defined(want@).len());
        match self {
            WireError::TooFew { columns } => {
                let mut m = String::from_str("wire batch has ");
                m.append(decimal(*columns as u64).as_str());
                m.append(" columns, need the ");
                m.append(decimal(V1_COLUMNS as u64).as_str());
                m.append(" v1 payload columns");
                m
            },
            WireError::Column { index, name, shown } => {
                let w = &want[*index];
                assert(columns::defined(want@)[*index as int] == (w.name@, w.kind, w.nullable));
                let mut m = String::from_str("wire column ");
                m.append(decimal(*index as u64).as_str());
                m.append(" is ");
                m.append(name.as_str());
                m.append(":");
                m.append(shown.as_str());
                m.append(", expected ");
                m.append(w.name);
                m.append(":");
                m.append(
                    match w.kind {
                        Kind::Time => "Timestamp(Microsecond, None)",
                        Kind::Text => "Utf8",
                        Kind::Int => "Int32",
                    },
                );
                m
            },
            WireError::Gap { index } => {
                let w = &want[*index];
                assert(columns::defined(want@)[*index as int] == (w.name@, w.kind, w.nullable));
                let mut m = String::from_str("Invalid argument error: Column '");
                m.append(w.name);
                m.append("' is declared as non-nullable but contains null values");
                m
            },
        }
    }
}

/// A row leaves a gap exactly where it has no value in a column that the table does not let
/// be left out: its time, its host or its message.
pub proof fn a_gap_is_a_column_left_out(r: WireRow, i: int)
    requires
        0 <= i < 9,
    ensures
        columns::table_columns()[i].2 ==> filled(r, i),
        !columns::table_columns()[i].2 <==> i == 0 || i == 1 || i == 7,
        filled(r, 0) <==> r.event_ts is Some,
        filled(r, 1) <==> r.host is Some,
        filled(r, 7) <==> r.message is Some,
{
}

/// An arriving row is stored as it came: what it leaves out is left out, and its own parser
/// and id are those of its payload, whoever sends it.
pub proof fn a_row_is_stored_as_it_came(r: WireRow, collector: Option<Seq<char>>, now_us: i64)
    requires
        r.event_ts is Some,
    ensures
        ({
            let s = swallowed(r, collector, now_us);
            &&& s.event_ts == r.event_ts->0
            &&& s.ingest_time == now_us
            &&& s.schema_version == 2
            &&& s.host is Some <==> r.host is Some
            &&& s.service is Some <==> r.service is Some
            &&& s.source is Some <==> r.source is Some
            &&& s.environment is Some <==> r.environment is Some
            &&& s.severity is Some <==> r.severity is Some
            &&& s.log_type is Some <==> r.log_type is Some
            &&& s.message is Some <==> r.message is Some
            &&& s.fields is Some <==> r.fields is Some
            &&& r.host is Some ==> s.host == Some(utf8::encode_utf8(r.host->0@))
            &&& r.service is Some ==> s.service == Some(utf8::encode_utf8(r.service->0@))
            &&& r.source is Some ==> s.source == Some(utf8::encode_utf8(r.source->0@))
                && s.parser_name == s.source
            &&& r.environment is Some ==> s.environment == Some(
                utf8::encode_utf8(r.environment->0@),
            )
            &&& r.severity is Some ==> s.severity == Some(utf8::encode_utf8(r.severity->0@))
            &&& r.log_type is Some ==> s.log_type == Some(utf8::encode_utf8(r.log_type->0@))
            &&& r.message is Some ==> s.message == Some(utf8::encode_utf8(r.message->0@))
            &&& r.fields is Some ==> s.fields == Some(utf8::encode_utf8(r.fields->0@))
            &&& collector is Some ==> s.collector_id == Some(utf8::encode_utf8(collector->0))
                && s.source_trust == Some(utf8::encode_utf8("authenticated"@))
            &&& collector is None ==> s.collector_id is None && s.source_trust == Some(
                utf8::encode_utf8("unverified"@),
            )
        }),
{
}

} // verus!
