//! Erasure from archives: which archives an order concerns, and how an archive is
//! replaced by one without the struck rows.
//!
//! Nothing of an archive is destroyed before its replacement is in place, and the
//! manifest is the last to change.

use arrow_array::{BooleanArray, RecordBatch};
use arrow_array::cast::AsArray;
use arrow_array::types::TimestampMicrosecondType as Micros;
use arrow_select::filter::filter_record_batch;
use crate::archive::ColdArchive;
use crate::events::prune::{self, erase_mask, Row, RowView, Tombstone, TombstoneMatcher};
use crate::retention::archiver::SealOutcome;
use crate::text::{self, same};
use parquet::arrow::ArrowWriter;
use parquet::arrow::arrow_reader::ParquetRecordBatchReaderBuilder;
use parquet::basic::{Compression, ZstdLevel};
use parquet::file::properties::WriterProperties;
use vstd::prelude::*;

verus! {

/// The compression level of a rewritten payload.
pub const REWRITE_LEVEL: i32 = 3;

/// How many rows the parquet reader puts into a batch at most.
pub const READ_ROWS: usize = 1024;

/// A batch of rows in columns, an `arrow_array::RecordBatch`. What it holds is named by
/// `batch_rows`, and what columns it has by `batch_schema`.
#[verifier::external_body]
pub struct Batch {
    pub columns: RecordBatch,
}

/// A parquet writer over a buffer, an `ArrowWriter`. What it was given is named by `given`.
#[verifier::external_body]
pub struct Sink {
    writer: ArrowWriter<Vec<u8>>,
}

/// What a row holds in a column, by the type of the column. What is null is absent.
#[verifier::ext_equal]
pub enum Value {
    /// A time in microseconds.
    Time(Option<i64>),
    /// A text.
    Text(Option<Seq<char>>),
    /// A whole number, with or without a sign, of up to 64 bits.
    Int(Option<int>),
    /// A value of another type, as bytes by which it is told apart.
    Other(Seq<u8>),
}

/// A column of a row.
#[verifier::ext_equal]
pub struct Cell {
    pub column: Seq<char>,
    pub value: Value,
}

/// What a row holds in the first column of a name.
pub open spec fn value_in(row: Seq<Cell>, column: Seq<char>) -> Option<Value>
    decreases row.len(),
{
    if row.len() == 0 {
        None
    } else if row[0].column == column {
        Some(row[0].value)
    } else {
        value_in(row.drop_first(), column)
    }
}

/// The time in a column.
pub open spec fn time_in(row: Seq<Cell>, column: Seq<char>) -> Option<i64> {
    match value_in(row, column) {
        Some(Value::Time(t)) => t,
        _ => None,
    }
}

/// The text in a column.
pub open spec fn text_in(row: Seq<Cell>, column: Seq<char>) -> Option<Seq<char>> {
    match value_in(row, column) {
        Some(Value::Text(t)) => t,
        _ => None,
    }
}

/// What an erasure asks of a row.
pub open spec fn asked(row: Seq<Cell>) -> RowView {
    RowView {
        ts_us: time_in(row, "event_ts"@),
        source: None,
        host: text_in(row, "host"@),
        fields: text_in(row, "fields"@),
    }
}

/// What an erasure asks of each row.
pub open spec fn rows(cells: Seq<Seq<Cell>>) -> Seq<RowView> {
    cells.map_values(|row: Seq<Cell>| asked(row))
}

/// What the rows of a batch hold.
pub uninterp spec fn batch_rows(b: Batch) -> Seq<Seq<Cell>>;

/// The columns of a batch, as bytes by which their names, their types and what else is
/// recorded of them are told apart.
pub uninterp spec fn batch_schema(b: Batch) -> Seq<u8>;

/// Batches of the same columns.
#[verifier::ext_equal]
pub struct Batches {
    pub schema: Seq<u8>,
    /// What the rows of each batch hold.
    pub rows: Seq<Seq<Seq<Cell>>>,
}

/// The batches of a parquet payload, or why it cannot be read.
pub uninterp spec fn parquet_batches(data: Seq<u8>) -> Result<Batches, Seq<char>>;

/// The bytes are a payload that an `ArrowWriter` wrote.
pub uninterp spec fn written(data: Seq<u8>) -> bool;

/// The bytes end in the mark of a parquet payload.
pub open spec fn has_mark(data: Seq<u8>) -> bool {
    &&& data.len() >= 8
    &&& data.subrange(data.len() - 4, data.len() as int) == seq![0x50u8, 0x41, 0x52, 0x31]
        || data.subrange(data.len() - 4, data.len() as int) == seq![0x50u8, 0x41, 0x52, 0x45]
}

/// The parquet reader returns on the bytes: it reads what a writer wrote, and refuses what
/// does not end in the mark.
pub open spec fn reader_takes(data: Seq<u8>) -> bool {
    written(data) || !has_mark(data)
}

/// The rows of batches one behind the other.
pub open spec fn flat(batches: Seq<Seq<Seq<Cell>>>) -> Seq<Seq<Cell>>
    decreases batches.len(),
{
    if batches.len() == 0 {
        Seq::empty()
    } else {
        flat(batches.drop_last()) + batches.last()
    }
}

/// What each batch of a list holds.
pub open spec fn held(v: Seq<Batch>) -> Seq<Seq<Seq<Cell>>> {
    v.map_values(|b: Batch| batch_rows(b))
}

/// The batches of a list have the given columns.
pub open spec fn share(v: Seq<Batch>, schema: Seq<u8>) -> bool {
    forall|i: int| 0 <= i < v.len() ==> batch_schema(#[trigger] v[i]) == schema
}

/// `ParquetRecordBatchReaderBuilder` over a copy of the payload. The batches, or the
/// reader's message, depend on the bytes alone. Together the batches hold the rows of the
/// payload, in order; all have the same columns, and none is empty. The reader may panic on
/// bytes that end like a payload and are none.
#[verifier::external_body]
fn read_batches(data: &[u8]) -> (r: Result<Vec<Batch>, String>)
    requires
        reader_takes(data@),
    ensures
        match r {
            Ok(v) => {
                &&& parquet_batches(data@) is Ok
                &&& parquet_batches(data@)->Ok_0.rows == held(v@)
                &&& share(v@, parquet_batches(data@)->Ok_0.schema)
                &&& forall|i: int| 0 <= i < v@.len() ==> batch_rows(#[trigger] v@[i]).len() > 0
            },
            Err(e) => parquet_batches(data@) == Err::<Batches, Seq<char>>(e@),
        },
{
    ParquetRecordBatchReaderBuilder::try_new(bytes::Bytes::copy_from_slice(data))
        .and_then(|b| b.build())
        .map_err(|e| e.to_string())?
        .map(|b| b.map(|columns| Batch { columns }).map_err(|e| e.to_string()))
        .collect()
}

/// `RecordBatch::column_by_name` and the array's `iter`: the time of each row in a
/// column, absent where it is null, and of every row where the batch has no such column
/// of times.
#[verifier::external_body]
fn times_of(b: &Batch, column: &str) -> (r: Vec<Option<i64>>)
    ensures
        r@.len() == batch_rows(*b).len(),
        forall|i: int| 0 <= i < r@.len() ==> (#[trigger] r@[i]) == time_in(batch_rows(*b)[i], column@),
{
    match b.columns.column_by_name(column).and_then(|c| c.as_primitive_opt::<Micros>()) {
        Some(a) => a.iter().collect(),
        None => vec![None; b.columns.num_rows()],
    }
}

/// `RecordBatch::column_by_name` and the array's `iter`: the text of each row in a
/// column, absent where it is null, and of every row where the batch has no such
/// column of texts.
#[verifier::external_body]
fn texts_of(b: &Batch, column: &str) -> (r: Vec<Option<String>>)
    ensures
        r@.len() == batch_rows(*b).len(),
        forall|i: int|
            0 <= i < r@.len() ==> text::opt_text(#[trigger] r@[i]) == text_in(
                batch_rows(*b)[i],
                column@,
            ),
{
    match b.columns.column_by_name(column).and_then(|c| c.as_string_opt::<i32>()) {
        Some(a) => a.iter().map(|s| s.map(str::to_string)).collect(),
        None => vec![None; b.columns.num_rows()],
    }
}

/// What an erasure asks of each row of a batch.
fn rows_of(b: &Batch) -> (r: Vec<Row>)
    ensures
        prune::row_views(r@) == rows(batch_rows(*b)),
{
    let times = times_of(b, "event_ts");
    let hosts = texts_of(b, "host");
    let fields = texts_of(b, "fields");
    let ghost cells = batch_rows(*b);
    let mut r: Vec<Row> = Vec::new();
    let mut i: usize = 0;
    while i < times.len()
        invariant
            i <= times.len() == hosts.len() == fields.len() == cells.len(),
            forall|j: int|
                0 <= j < cells.len() ==> (#[trigger] times@[j]) == time_in(cells[j], "event_ts"@),
            forall|j: int|
                0 <= j < cells.len() ==> text::opt_text(#[trigger] hosts@[j]) == text_in(
                    cells[j],
                    "host"@,
                ),
            forall|j: int|
                0 <= j < cells.len() ==> text::opt_text(#[trigger] fields@[j]) == text_in(
                    cells[j],
                    "fields"@,
                ),
            r@.len() == i,
            forall|j: int| 0 <= j < i ==> (#[trigger] r@[j])@ == asked(cells[j]),
        decreases times.len() - i,
    {
        let row = Row {
            ts_us: times[i],
            source: None,
            host: copied(&hosts[i]),
            fields: copied(&fields[i]),
        };
        assert(row@ =~= asked(cells[i as int]));
        r.push(row);
        i += 1;
    }
    assert(prune::row_views(r@) =~= rows(cells));
    r
}

fn copied(s: &Option<String>) -> (r: Option<String>)
    ensures
        text::opt_text(r) == text::opt_text(*s),
{
    match s {
        Some(t) => Some(t.clone()),
        None => None,
    }
}

/// The entries of a list at which a mask is set.
pub open spec fn masked<T>(s: Seq<T>, mask: Seq<bool>) -> Seq<T>
    decreases s.len(),
{
    if s.len() == 0 {
        s
    } else {
        let before = masked(s.drop_last(), mask);
        if mask[s.len() - 1] {
            before.push(s.last())
        } else {
            before
        }
    }
}

/// The row has columns, of different names, and each holds times, texts or whole numbers.
pub open spec fn is_plain(row: Seq<Cell>) -> bool {
    &&& row.len() > 0
    &&& forall|i: int| 0 <= i < row.len() ==> !((#[trigger] row[i]).value is Other)
    &&& forall|i: int, j: int|
        0 <= i < j < row.len() ==> (#[trigger] row[i]).column != (#[trigger] row[j]).column
}

/// The bytes of the texts of a row.
pub open spec fn row_bytes(row: Seq<Cell>) -> nat
    decreases row.len(),
{
    if row.len() == 0 {
        0
    } else {
        row_bytes(row.drop_last()) + match row.last().value {
            Value::Text(Some(t)) => text::size(t),
            _ => 0,
        }
    }
}

/// The bytes of the texts of rows.
pub open spec fn text_bytes(cells: Seq<Seq<Cell>>) -> nat
    decreases cells.len(),
{
    if cells.len() == 0 {
        0
    } else {
        text_bytes(cells.drop_last()) + row_bytes(cells.last())
    }
}

/// Rows that can be written and read back: all of them are plain, and those that are
/// written hold at most a gibibyte of texts where as many of them come together as the
/// reader puts into a batch.
pub open spec fn readable_again(all: Seq<Seq<Cell>>, kept: Seq<Seq<Cell>>) -> bool {
    &&& forall|i: int| 0 <= i < all.len() ==> is_plain(#[trigger] all[i])
    &&& forall|i: int, j: int|
        0 <= i <= j <= kept.len() && j - i <= READ_ROWS ==> text_bytes(#[trigger] kept.subrange(i, j))
            <= 0x4000_0000
}

/// Why rows cannot be taken from a batch, where they cannot.
pub uninterp spec fn filter_fault(
    schema: Seq<u8>,
    rows: Seq<Seq<Cell>>,
    mask: Seq<bool>,
) -> Option<Seq<char>>;

/// `filter_record_batch`: the rows of the batch at which the mask is set, in the same
/// columns; or the message, which depends on the batch and the mask alone.
#[verifier::external_body]
fn keep_rows(b: &Batch, mask: Vec<bool>) -> (r: Result<Batch, String>)
    requires
        mask@.len() == batch_rows(*b).len(),
    ensures
        match r {
            Ok(c) => {
                &&& filter_fault(batch_schema(*b), batch_rows(*b), mask@) is None
                &&& batch_schema(c) == batch_schema(*b)
                &&& batch_rows(c) == masked(batch_rows(*b), mask@)
            },
            Err(e) => filter_fault(batch_schema(*b), batch_rows(*b), mask@) == Some(e@),
        },
{
    filter_record_batch(&b.columns, &BooleanArray::from(mask))
        .map(|columns| Batch { columns })
        .map_err(|e| e.to_string())
}

/// `RecordBatch::num_rows`.
#[verifier::external_body]
fn row_count(b: &Batch) -> (r: usize)
    ensures
        r == batch_rows(*b).len(),
{
    b.columns.num_rows()
}

/// What a writer was made for and given.
#[verifier::ext_equal]
pub struct Given {
    pub level: i32,
    pub batches: Batches,
}

/// What a writer was made for, and the batches that it was given.
pub uninterp spec fn given(w: Sink) -> Given;

/// Why no writer can be made, where none can.
pub uninterp spec fn open_fault(schema: Seq<u8>, level: i32) -> Option<Seq<char>>;

/// Why the last of the batches cannot be written behind the others, where it cannot.
pub uninterp spec fn write_fault(g: Given) -> Option<Seq<char>>;

/// What the writer has written in the end, or why it cannot be brought to an end.
pub uninterp spec fn closed(g: Given) -> Result<Seq<u8>, Seq<char>>;

/// `ArrowWriter::try_new` over a buffer, for the columns of a batch and with compression of
/// the given level; or the message, which depends on the columns and the level alone.
#[verifier::external_body]
fn open_writer(b: &Batch, level: i32) -> (r: Result<Sink, String>)
    ensures
        match r {
            Ok(w) => {
                &&& open_fault(batch_schema(*b), level) is None
                &&& given(w).level == level
                &&& given(w).batches.schema == batch_schema(*b)
                &&& given(w).batches.rows == Seq::<Seq<Seq<Cell>>>::empty()
            },
            Err(e) => open_fault(batch_schema(*b), level) == Some(e@),
        },
{
    ZstdLevel::try_new(level)
        .map(|l| WriterProperties::builder().set_compression(Compression::ZSTD(l)).build())
        .and_then(|props| ArrowWriter::try_new(Vec::new(), b.columns.schema(), Some(props)))
        .map(|writer| Sink { writer })
        .map_err(|e| e.to_string())
}

/// What a writer was given, with one more batch.
pub open spec fn given_more(g: Given, rows: Seq<Seq<Cell>>) -> Given {
    Given { batches: Batches { rows: g.batches.rows.push(rows), ..g.batches }, ..g }
}

/// `ArrowWriter::write`: the batch, which has the columns that the writer is for, is
/// written behind the others; or the message, which depends on what was given alone.
#[verifier::external_body]
fn write_batch(w: Sink, b: &Batch) -> (r: Result<Sink, String>)
    requires
        batch_schema(*b) == given(w).batches.schema,
    ensures
        match r {
            Ok(x) => {
                &&& write_fault(given_more(given(w), batch_rows(*b))) is None
                &&& given(x) == given_more(given(w), batch_rows(*b))
            },
            Err(e) => write_fault(given_more(given(w), batch_rows(*b))) == Some(e@),
        },
{
    let mut w = w;
    w.writer.write(&b.columns).map(|_| w).map_err(|e| e.to_string())
}

/// `ArrowWriter::into_inner`: the payload, or the message; either depends on what was given
/// alone. Rows of times, texts and whole numbers, which all columns of the events table
/// hold, are read back from it as they were. Of other columns nothing is said: what comes
/// back of a dictionary, for one, depends on where the batches begin. Nor is it said of
/// texts so long that the offsets of a batch may not hold them.
#[verifier::external_body]
fn close_writer(w: Sink) -> (r: Result<Vec<u8>, String>)
    ensures
        match r {
            Ok(d) => {
                &&& closed(given(w)) == Ok::<Seq<u8>, Seq<char>>(d@)
                &&& written(d@)
                &&& readable_again(flat(given(w).batches.rows), flat(given(w).batches.rows)) ==> {
                    &&& parquet_batches(d@) is Ok
                    &&& flat(parquet_batches(d@)->Ok_0.rows) == flat(given(w).batches.rows)
                }
            },
            Err(e) => closed(given(w)) == Err::<Seq<u8>, Seq<char>>(e@),
        },
{
    w.writer.into_inner().map_err(|e| e.to_string())
}

/// What goes wrong first when the first `n` batches are written, if anything does.
pub open spec fn first_write_fault(g: Given, n: int) -> Option<Seq<char>>
    decreases n,
{
    if n <= 0 {
        None
    } else {
        match first_write_fault(g, n - 1) {
            Some(e) => Some(e),
            None => write_fault(
                Given { batches: Batches { rows: g.batches.rows.take(n), ..g.batches }, ..g },
            ),
        }
    }
}

/// The payload that batches make, or what goes wrong first.
pub open spec fn encoding(g: Given) -> Result<Seq<u8>, Seq<char>> {
    match open_fault(g.batches.schema, g.level) {
        Some(e) => Err(e),
        None => match first_write_fault(g, g.batches.rows.len() as int) {
            Some(e) => Err(e),
            None => closed(g),
        },
    }
}

/// The rows that the orders leave, whole and in order.
pub open spec fn left(cells: Seq<Seq<Cell>>, orders: Seq<Tombstone>) -> Seq<Seq<Cell>>
    decreases cells.len(),
{
    if cells.len() == 0 {
        Seq::empty()
    } else {
        let before = left(cells.drop_last(), orders);
        if asked(cells.last()).erased_by(orders) {
            before
        } else {
            before.push(cells.last())
        }
    }
}

/// Which rows of a batch the orders leave.
pub open spec fn keep_mask(batch: Seq<Seq<Cell>>, orders: Seq<Tombstone>) -> Seq<bool> {
    batch.map_values(|row: Seq<Cell>| !asked(row).erased_by(orders))
}

/// What the orders leave of each batch, but for batches of which they leave nothing.
pub open spec fn kept_batches(batches: Seq<Seq<Seq<Cell>>>, orders: Seq<Tombstone>) -> Seq<
    Seq<Seq<Cell>>,
>
    decreases batches.len(),
{
    if batches.len() == 0 {
        Seq::empty()
    } else {
        let before = kept_batches(batches.drop_last(), orders);
        let rest = left(batches.last(), orders);
        if rest.len() == 0 {
            before
        } else {
            before.push(rest)
        }
    }
}

/// What goes wrong first when rows are taken from the first `n` batches, if anything does.
pub open spec fn first_filter_fault(b: Batches, orders: Seq<Tombstone>, n: int) -> Option<Seq<char>>
    decreases n,
{
    if n <= 0 {
        None
    } else {
        match first_filter_fault(b, orders, n - 1) {
            Some(e) => Some(e),
            None => filter_fault(b.schema, b.rows[n - 1], keep_mask(b.rows[n - 1], orders)),
        }
    }
}

/// Rows that an erasure has left hold nothing that it would erase, so a second erasure
/// leaves them as they are. What is erased and what is left are all the rows there were.
pub proof fn a_rewritten_payload_stays(cells: Seq<Seq<Cell>>, orders: Seq<Tombstone>)
    ensures
        left(left(cells, orders), orders) == left(cells, orders),
        prune::erased_count(rows(left(cells, orders)), orders) == 0,
        prune::erased_count(rows(cells), orders) + left(cells, orders).len() == cells.len(),
    decreases cells.len(),
{
    let now = left(cells, orders);
    if cells.len() > 0 {
        let most = cells.drop_last();
        a_rewritten_payload_stays(most, orders);
        assert(rows(cells).drop_last() =~= rows(most));
        if !asked(cells.last()).erased_by(orders) {
            assert(now.drop_last() =~= left(most, orders));
            assert(rows(now).drop_last() =~= rows(left(most, orders)));
        }
    }
}

proof fn left_apart(a: Seq<Seq<Cell>>, b: Seq<Seq<Cell>>, orders: Seq<Tombstone>)
    ensures
        left(a + b, orders) == left(a, orders) + left(b, orders),
        prune::erased_count(rows(a + b), orders) == prune::erased_count(rows(a), orders)
            + prune::erased_count(rows(b), orders),
    decreases b.len(),
{
    if b.len() == 0 {
        assert(a + b =~= a);
        assert(left(a, orders) + left(b, orders) =~= left(a, orders));
    } else {
        assert((a + b).drop_last() =~= a + b.drop_last());
        left_apart(a, b.drop_last(), orders);
        assert(left(a + b, orders) =~= left(a, orders) + left(b, orders));
        assert(rows(a + b).drop_last() =~= rows(a + b.drop_last()));
        assert(rows(b).drop_last() =~= rows(b.drop_last()));
    }
}

proof fn mask_of_left(cells: Seq<Seq<Cell>>, mask: Seq<bool>, orders: Seq<Tombstone>)
    requires
        mask.len() >= cells.len(),
        forall|i: int|
            0 <= i < cells.len() ==> (#[trigger] mask[i]) == !asked(cells[i]).erased_by(orders),
    ensures
        masked(cells, mask) == left(cells, orders),
    decreases cells.len(),
{
    if cells.len() > 0 {
        mask_of_left(cells.drop_last(), mask, orders);
    }
}

proof fn kept_batches_hold_what_is_left(batches: Seq<Seq<Seq<Cell>>>, orders: Seq<Tombstone>)
    ensures
        flat(kept_batches(batches, orders)) == left(flat(batches), orders),
    decreases batches.len(),
{
    if batches.len() > 0 {
        let before = kept_batches(batches.drop_last(), orders);
        let rest = left(batches.last(), orders);
        kept_batches_hold_what_is_left(batches.drop_last(), orders);
        left_apart(flat(batches.drop_last()), batches.last(), orders);
        if rest.len() == 0 {
            assert(flat(before) + rest =~= flat(before));
        } else {
            assert(before.push(rest).drop_last() =~= before);
        }
    }
}

/// What is left of plain rows is plain.
proof fn left_is_plain(cells: Seq<Seq<Cell>>, orders: Seq<Tombstone>)
    requires
        forall|i: int| 0 <= i < cells.len() ==> is_plain(#[trigger] cells[i]),
    ensures
        forall|i: int|
            0 <= i < left(cells, orders).len() ==> is_plain(#[trigger] left(cells, orders)[i]),
    decreases cells.len(),
{
    if cells.len() > 0 {
        let most = cells.drop_last();
        assert forall|i: int| 0 <= i < most.len() implies is_plain(#[trigger] most[i]) by {
            assert(most[i] == cells[i]);
        }
        left_is_plain(most, orders);
        assert forall|i: int| 0 <= i < left(cells, orders).len() implies is_plain(
            #[trigger] left(cells, orders)[i],
        ) by {
            if i < left(most, orders).len() {
                assert(left(cells, orders)[i] == left(most, orders)[i]);
            } else {
                assert(left(cells, orders)[i] == cells[cells.len() - 1]);
            }
        }
    }
}

proof fn faults_stay(b: Batches, orders: Seq<Tombstone>, n: int, m: int)
    requires
        n <= m,
        first_filter_fault(b, orders, n) is Some,
    ensures
        first_filter_fault(b, orders, m) == first_filter_fault(b, orders, n),
    decreases m - n,
{
    if n < m {
        faults_stay(b, orders, n, m - 1);
    }
}

proof fn write_faults_stay(g: Given, n: int, m: int)
    requires
        n <= m,
        first_write_fault(g, n) is Some,
    ensures
        first_write_fault(g, m) == first_write_fault(g, n),
    decreases m - n,
{
    if n < m {
        write_faults_stay(g, n, m - 1);
    }
}

/// A payload has no fewer rows than its first batches.
proof fn counts_grow(batches: Seq<Seq<Seq<Cell>>>, n: int, orders: Seq<Tombstone>)
    requires
        0 <= n <= batches.len(),
    ensures
        left(flat(batches.take(n)), orders).len() <= left(flat(batches), orders).len(),
        prune::erased_count(rows(flat(batches.take(n))), orders) <= prune::erased_count(
            rows(flat(batches)),
            orders,
        ),
    decreases batches.len() - n,
{
    if n < batches.len() {
        counts_grow(batches, n + 1, orders);
        assert(batches.take(n + 1).drop_last() =~= batches.take(n));
        left_apart(flat(batches.take(n)), batches[n], orders);
    } else {
        assert(batches.take(n) =~= batches);
    }
}

/// What comes of erasing from batches: the payload of what is left, how many rows it keeps
/// and how many were dropped, or what is reported.
pub open spec fn filtered(b: Batches, orders: Seq<Tombstone>) -> Result<
    (Seq<u8>, nat, nat),
    Seq<char>,
> {
    let kept = left(flat(b.rows), orders).len();
    let erased = prune::erased_count(rows(flat(b.rows)), orders);
    match first_filter_fault(b, orders, b.rows.len() as int) {
        Some(e) => Err(e),
        None => if kept > u64::MAX || erased > u64::MAX {
            Err("too many rows"@)
        } else {
            match encoding(
                Given {
                    level: REWRITE_LEVEL,
                    batches: Batches { rows: kept_batches(b.rows, orders), ..b },
                },
            ) {
                Ok(d) => Ok((d, kept, erased)),
                Err(e) => Err(e),
            }
        },
    }
}

/// A payload is what is left of batches: the counts add up, a writer wrote it, and where
/// they can be read back the rows are read back whole.
pub open spec fn holds_the_rest(
    data: Seq<u8>,
    kept: nat,
    erased: nat,
    b: Batches,
    orders: Seq<Tombstone>,
) -> bool {
    let rest = left(flat(b.rows), orders);
    &&& kept + erased == flat(b.rows).len()
    &&& kept == rest.len()
    &&& written(data)
    &&& readable_again(flat(b.rows), rest) ==> {
        &&& parquet_batches(data) is Ok
        &&& flat(parquet_batches(data)->Ok_0.rows) == rest
    }
}

/// The payload that batches of the same columns make.
fn encode(parts: Vec<Batch>, like: &Batch) -> (r: Result<Vec<u8>, String>)
    requires
        share(parts@, batch_schema(*like)),
    ensures
        ({
            let g = Given {
                level: REWRITE_LEVEL,
                batches: Batches { schema: batch_schema(*like), rows: held(parts@) },
            };
            match encoding(g) {
                Ok(d) => {
                    &&& r is Ok
                    &&& r->Ok_0@ == d
                    &&& written(d)
                    &&& readable_again(flat(g.batches.rows), flat(g.batches.rows)) ==> {
                        &&& parquet_batches(d) is Ok
                        &&& flat(parquet_batches(d)->Ok_0.rows) == flat(g.batches.rows)
                    }
                },
                Err(e) => r is Err && r->Err_0@ == e,
            }
        }),
{
    let ghost g = Given {
        level: REWRITE_LEVEL,
        batches: Batches { schema: batch_schema(*like), rows: held(parts@) },
    };
    let mut w = match open_writer(like, REWRITE_LEVEL) {
        Ok(w) => w,
        Err(e) => {
            return Err(e);
        },
    };
    let mut i: usize = 0;
    assert(g.batches.rows.take(0) =~= Seq::empty());
    while i < parts.len()
        invariant
            i <= parts.len() == g.batches.rows.len(),
            g.level == REWRITE_LEVEL,
            g.batches.schema == batch_schema(*like),
            g.batches.rows == held(parts@),
            share(parts@, g.batches.schema),
            given(w) == (Given {
                level: g.level,
                batches: Batches {
                    schema: g.batches.schema,
                    rows: g.batches.rows.take(i as int),
                },
            }),
            open_fault(g.batches.schema, g.level) is None,
            first_write_fault(g, i as int) is None,
        decreases parts.len() - i,
    {
        assert(batch_schema(parts@[i as int]) == g.batches.schema);
        assert(g.batches.rows.take(i as int).push(g.batches.rows[i as int])
            =~= g.batches.rows.take(i + 1));
        assert(given_more(given(w), batch_rows(parts@[i as int])) =~= Given {
            batches: Batches { rows: g.batches.rows.take(i + 1), ..g.batches },
            ..g
        });
        w = match write_batch(w, &parts[i]) {
            Ok(x) => x,
            Err(e) => {
                proof {
                    write_faults_stay(g, i + 1, g.batches.rows.len() as int);
                }
                return Err(e);
            },
        };
        i += 1;
    }
    assert(g.batches.rows.take(i as int) =~= g.batches.rows);
    close_writer(w)
}

/// The payload of what the orders leave of batches, with how many rows it keeps and how
/// many were dropped.
fn strike(batches: &Vec<Batch>, matcher: &TombstoneMatcher) -> (r: Result<
    (Vec<u8>, u64, u64),
    String,
>)
    requires
        batches@.len() > 0,
        share(batches@, batch_schema(batches@[0])),
    ensures
        ({
            let b = Batches { schema: batch_schema(batches@[0]), rows: held(batches@) };
            match filtered(b, matcher.entries@) {
                Err(e) => r is Err && r->Err_0@ == e,
                Ok((data, kept, erased)) => {
                    &&& r is Ok
                    &&& r->Ok_0.0@ == data
                    &&& r->Ok_0.1 == kept
                    &&& r->Ok_0.2 == erased
                    &&& holds_the_rest(data, kept, erased, b, matcher.entries@)
                },
            }
        }),
{
    let ghost orders = matcher.entries@;
    let ghost all = held(batches@);
    let ghost b = Batches { schema: batch_schema(batches@[0]), rows: all };
    let mut parts: Vec<Batch> = Vec::new();
    let mut kept: u64 = 0;
    let mut erased: u64 = 0;
    let mut over: bool = false;
    let mut i: usize = 0;
    let n = batches.len();
    assert(all.take(0) =~= Seq::empty());
    assert(held(parts@) =~= kept_batches(all.take(0), orders));
    while i < n
        invariant
            i <= n == batches.len() == all.len(),
            orders == matcher.entries@,
            all == held(batches@),
            b.rows == all,
            share(batches@, b.schema),
            share(parts@, b.schema),
            held(parts@) == kept_batches(all.take(i as int), orders),
            first_filter_fault(b, orders, i as int) is None,
            !over ==> kept == left(flat(all.take(i as int)), orders).len(),
            !over ==> erased == prune::erased_count(rows(flat(all.take(i as int))), orders),
            over ==> left(flat(all), orders).len() > u64::MAX || prune::erased_count(
                rows(flat(all)),
                orders,
            ) > u64::MAX,
        decreases n - i,
    {
        let ghost here = all[i as int];
        let list = rows_of(&batches[i]);
        let (mask, gone) = erase_mask(matcher, &list);
        proof {
            assert(all.take(i + 1).drop_last() =~= all.take(i as int));
            left_apart(flat(all.take(i as int)), here, orders);
            a_rewritten_payload_stays(here, orders);
            counts_grow(all, i + 1, orders);
            assert(prune::row_views(list@).len() == list@.len());
            assert forall|k: int| 0 <= k < here.len() implies (#[trigger] mask@[k])
                == !asked(here[k]).erased_by(orders) by {
                assert(rows(here)[k] == list@[k]@);
            }
            assert(mask@ =~= keep_mask(here, orders));
            mask_of_left(here, mask@, orders);
            assert(batch_schema(batches@[i as int]) == b.schema);
        }
        let part = match keep_rows(&batches[i], mask) {
            Ok(c) => c,
            Err(e) => {
                proof {
                    faults_stay(b, orders, i + 1, n as int);
                }
                return Err(e);
            },
        };
        let left_here: u64 = list.len() as u64 - gone;
        if over || kept > u64::MAX - left_here || erased > u64::MAX - gone {
            over = true;
        } else {
            kept = kept + left_here;
            erased = erased + gone;
        }
        if row_count(&part) > 0 {
            let ghost was = held(parts@);
            parts.push(part);
            assert(held(parts@) =~= was.push(left(here, orders)));
        }
        i += 1;
    }
    proof {
        assert(all.take(i as int) =~= all);
        kept_batches_hold_what_is_left(all, orders);
        a_rewritten_payload_stays(flat(all), orders);
        if forall|k: int| 0 <= k < flat(all).len() ==> is_plain(#[trigger] flat(all)[k]) {
            left_is_plain(flat(all), orders);
        }
    }
    if over {
        return Err(String::from_str("too many rows"));
    }
    match encode(parts, &batches[0]) {
        Ok(data) => Ok((data, kept, erased)),
        Err(e) => Err(e),
    }
}

/// A payload without the rows that the orders strike, with how many rows it keeps and
/// how many were dropped. A payload that cannot be read is reported in the reader's words,
/// one without rows is returned as it is, and any other is written anew; what the writer
/// reports is handed on. The rows that are left are read back from it whole. The payload
/// must be one that a parquet writer wrote, such as one that has the digest recorded of it:
/// the reader may not return on bytes that only look like one.
pub fn filter_parquet(parquet: &[u8], matcher: &TombstoneMatcher) -> (r: Result<
    (Vec<u8>, u64, u64),
    String,
>)
    requires
        reader_takes(parquet@),
    ensures
        match parquet_batches(parquet@) {
            Err(e) => r is Err && r->Err_0@ == e,
            Ok(b) => if b.rows.len() == 0 {
                r is Ok && r->Ok_0.0@ == parquet@ && r->Ok_0.1 == 0 && r->Ok_0.2 == 0
            } else {
                match filtered(b, matcher.entries@) {
                    Err(e) => r is Err && r->Err_0@ == e,
                    Ok((data, kept, erased)) => {
                        &&& r is Ok
                        &&& r->Ok_0.0@ == data
                        &&& r->Ok_0.1 == kept
                        &&& r->Ok_0.2 == erased
                        &&& holds_the_rest(data, kept, erased, b, matcher.entries@)
                    },
                }
            },
        },
{
    let batches = match read_batches(parquet) {
        Ok(v) => v,
        Err(e) => {
            return Err(e);
        },
    };
    if batches.len() == 0 {
        let mut same: Vec<u8> = Vec::new();
        crate::le::put_all(&mut same, parquet);
        assert(same@ =~= parquet@);
        return Ok((same, 0, 0));
    }
    proof {
        let b = parquet_batches(parquet@)->Ok_0;
        assert(batch_schema(batches@[0]) == b.schema);
        assert(b =~= Batches { schema: batch_schema(batches@[0]), rows: held(batches@) });
    }
    strike(&batches, matcher)
}

/// A batch that was written without the rows that the orders strike.
pub struct Struck {
    pub data: Vec<u8>,
    pub kept: u64,
    pub erased: u64,
    /// How many rows the orders strike from the payload that was written.
    pub remaining: u64,
}

/// Writes a batch without the rows that the orders strike and filters the payload once
/// more. Where the rows can be read back, nothing is left to strike.
pub fn strike_and_check(batch: Batch, matcher: &TombstoneMatcher) -> (r: Result<
    Struck,
    String,
>)
    ensures
        ({
            let b = Batches { schema: batch_schema(batch), rows: seq![batch_rows(batch)] };
            match filtered(b, matcher.entries@) {
                Err(e) => r is Err && r->Err_0@ == e,
                Ok((data, kept, erased)) => {
                    &&& holds_the_rest(data, kept, erased, b, matcher.entries@)
                    &&& match parquet_batches(data) {
                        Err(e) => r is Err && r->Err_0@ == e,
                        Ok(again) => if again.rows.len() > 0 && filtered(
                            again,
                            matcher.entries@,
                        ) is Err {
                            r is Err && r->Err_0@ == filtered(again, matcher.entries@)->Err_0
                        } else {
                            &&& r is Ok
                            &&& r->Ok_0.data@ == data
                            &&& r->Ok_0.kept == kept
                            &&& r->Ok_0.erased == erased
                            &&& r->Ok_0.remaining == if again.rows.len() == 0 {
                                0
                            } else {
                                filtered(again, matcher.entries@)->Ok_0.2
                            }
                            &&& readable_again(
                                flat(b.rows),
                                left(flat(b.rows), matcher.entries@),
                            ) ==> r->Ok_0.remaining == 0
                        },
                    }
                },
            }
        }),
{
    let mut list: Vec<Batch> = Vec::new();
    list.push(batch);
    assert(held(list@) =~= seq![batch_rows(batch)]);
    let (data, kept, erased) = match strike(&list, matcher) {
        Ok(d) => d,
        Err(e) => {
            return Err(e);
        },
    };
    proof {
        a_rewritten_payload_stays(flat(held(list@)), matcher.entries@);
    }
    match filter_parquet(data.as_slice(), matcher) {
        Ok((_, _, remaining)) => Ok(Struck { data, kept, erased, remaining }),
        Err(e) => Err(e),
    }
}

/// Some order covers a part of the archive's window.
pub open spec fn concerned(a: ColdArchive, orders: Seq<Tombstone>) -> bool {
    exists|i: int|
        0 <= i < orders.len() && a.meets((#[trigger] orders[i]).from_us, orders[i].to_us)
}

/// The archives of which some order covers a part.
pub open spec fn concerned_archives(
    archives: Seq<ColdArchive>,
    orders: Seq<Tombstone>,
) -> Seq<ColdArchive>
    decreases archives.len(),
{
    if archives.len() == 0 {
        archives
    } else {
        let before = concerned_archives(archives.drop_last(), orders);
        if concerned(archives.last(), orders) {
            before.push(archives.last())
        } else {
            before
        }
    }
}

/// What is reported of an archive under a legal hold.
pub open spec fn held_message(id: Seq<char>) -> Seq<char> {
    "archive "@ + id + " is under legal hold and overlaps the erasure — refusing"@
}

fn is_concerned(a: &ColdArchive, tombstones: &Vec<Tombstone>) -> (r: bool)
    ensures
        r == concerned(*a, tombstones@),
{
    let mut i: usize = 0;
    while i < tombstones.len()
        invariant
            i <= tombstones.len(),
            forall|j: int|
                0 <= j < i ==> !a.meets((#[trigger] tombstones@[j]).from_us, tombstones@[j].to_us),
        decreases tombstones.len() - i,
    {
        if a.overlaps(tombstones[i].from_us, tombstones[i].to_us) {
            assert(a.meets(tombstones@[i as int].from_us, tombstones@[i as int].to_us));
            return true;
        }
        i += 1;
    }
    false
}

/// The archives to rewrite: those of which some order covers a part. Where one of
/// them is under a legal hold none is rewritten.
pub fn rewrite_list(archives: &Vec<ColdArchive>, tombstones: &Vec<Tombstone>) -> (r: Result<
    Vec<ColdArchive>,
    String,
>)
    ensures
        ({
            let all = concerned_archives(archives@, tombstones@);
            match r {
                Ok(v) => v@ == all && forall|i: int|
                    0 <= i < all.len() ==> !(#[trigger] all[i]).legal_hold,
                Err(e) => exists|i: int|
                    0 <= i < all.len() && (#[trigger] all[i]).legal_hold && e@ == held_message(
                        all[i].id@,
                    ) && forall|j: int| 0 <= j < i ==> !(#[trigger] all[j]).legal_hold,
            }
        }),
{
    let mut v: Vec<ColdArchive> = Vec::new();
    let mut i: usize = 0;
    while i < archives.len()
        invariant
            i <= archives.len(),
            v@ == concerned_archives(archives@.take(i as int), tombstones@),
        decreases archives.len() - i,
    {
        if is_concerned(&archives[i], tombstones) {
            v.push(archives[i].copied());
        }
        i += 1;
        assert(archives@.take(i as int).drop_last() =~= archives@.take(i - 1));
    }
    assert(archives@.take(i as int) =~= archives@);
    let mut k: usize = 0;
    while k < v.len()
        invariant
            k <= v.len(),
            v@ == concerned_archives(archives@, tombstones@),
            forall|j: int| 0 <= j < k ==> !(#[trigger] v@[j]).legal_hold,
        decreases v.len() - k,
    {
        if v[k].legal_hold {
            let mut m = String::from_str("archive ");
            m.append(v[k].id.as_str());
            m.append(" is under legal hold and overlaps the erasure — refusing");
            assert(v@[k as int].legal_hold && m@ == held_message(v@[k as int].id@));
            return Err(m);
        }
        k += 1;
    }
    Ok(v)
}

/// What happened to an archive.
#[derive(Clone, Debug, PartialEq, Eq)]
pub struct RewriteOutcome {
    pub id: String,
    /// Rows that were removed; none where it was looked through and nothing matched.
    pub rows_erased: u64,
    pub old_checksum: String,
    /// The same as before where the archive was left as it is.
    pub new_checksum: String,
    /// Whether the object was replaced, where there is an object store.
    pub remote_replaced: Option<bool>,
}

/// The steps of a rewrite.
#[derive(Clone, Copy, Debug, PartialEq, Eq, Structural)]
pub enum Step {
    /// Fetch the archive from the object store.
    Fetch,
    /// Hash the local file.
    Verify,
    /// Read the payload and drop the struck rows.
    Filter,
    /// Seal what is left into a staging file.
    Seal,
    /// Move the staging file over the archive.
    Install,
    /// Replace the object.
    Upload,
    /// Remove a local file that was fetched.
    DropLocal,
    /// Write the manifest entry.
    Record,
    Done,
}

/// The archive is not there and cannot be fetched.
pub open spec fn unreachable_message(id: Seq<char>) -> Seq<char> {
    "archive "@ + id + " is not on disk and no object store is configured — cannot rewrite"@
}

/// The archive does not hold what was sealed.
pub open spec fn tampered_message(id: Seq<char>, have: Seq<char>, recorded: Seq<char>) -> Seq<
    char,
> {
    "archive "@ + id + " fails its checksum ("@ + have + " != manifest "@ + recorded
        + ") — refusing to rewrite unverified bytes"@
}

/// The rewrite of one archive.
pub struct Rewrite {
    /// The manifest entry as it was.
    pub archive: ColdArchive,
    pub object_store: bool,
    /// The local file was fetched for the rewrite.
    pub fetched: bool,
    pub kept: u64,
    pub erased: u64,
}

/// The step that follows one that went well.
pub open spec fn next_step(r: Rewrite, step: Step) -> Step {
    match step {
        Step::Fetch => Step::Verify,
        Step::Verify => Step::Filter,
        Step::Filter => if r.erased > 0 {
            Step::Seal
        } else if r.fetched {
            Step::DropLocal
        } else {
            Step::Done
        },
        Step::Seal => Step::Install,
        Step::Install => if r.object_store {
            Step::Upload
        } else {
            Step::Record
        },
        Step::Upload => if r.fetched {
            Step::DropLocal
        } else {
            Step::Record
        },
        Step::DropLocal => if r.erased > 0 {
            Step::Record
        } else {
            Step::Done
        },
        Step::Record => Step::Done,
        Step::Done => Step::Done,
    }
}

impl Rewrite {
    /// Starts the rewrite of an archive: with fetching it where its file is missing.
    pub fn begin(archive: ColdArchive, present: bool, object_store: bool) -> (r: Result<
        (Rewrite, Step),
        String,
    >)
        ensures
            match r {
                Ok((w, step)) => {
                    &&& present || object_store
                    &&& w == (Rewrite {
                        archive,
                        object_store,
                        fetched: !present,
                        kept: 0,
                        erased: 0,
                    })
                    &&& step == if present {
                        Step::Verify
                    } else {
                        Step::Fetch
                    }
                },
                Err(e) => !present && !object_store && e@ == unreachable_message(archive.id@),
            },
    {
        if !present && !object_store {
            let mut m = String::from_str("archive ");
            m.append(archive.id.as_str());
            m.append(" is not on disk and no object store is configured — cannot rewrite");
            return Err(m);
        }
        let step = if present {
            Step::Verify
        } else {
            Step::Fetch
        };
        Ok((Rewrite { archive, object_store, fetched: !present, kept: 0, erased: 0 }, step))
    }

    /// Whether the local file holds what was sealed. Other bytes are not rewritten,
    /// since their replacement would pass for genuine.
    pub fn check(&self, have: &str) -> (r: Result<(), String>)
        ensures
            match r {
                Ok(()) => have@ == self.archive.checksum@,
                Err(e) => have@ != self.archive.checksum@ && e@ == tampered_message(
                    self.archive.id@,
                    have@,
                    self.archive.checksum@,
                ),
            },
    {
        if same(have, self.archive.checksum.as_str()) {
            return Ok(());
        }
        let mut m = String::from_str("archive ");
        m.append(self.archive.id.as_str());
        m.append(" fails its checksum (");
        m.append(have);
        m.append(" != manifest ");
        m.append(self.archive.checksum.as_str());
        m.append(") — refusing to rewrite unverified bytes");
        Err(m)
    }

    /// Takes note of what the filter kept and dropped.
    pub fn filtered(&mut self, kept: u64, erased: u64)
        ensures
            *final(self) == (Rewrite { kept, erased, ..*old(self) }),
    {
        self.kept = kept;
        self.erased = erased;
    }

    /// The step that follows one that went well.
    pub fn after(&self, step: Step) -> (r: Step)
        ensures
            r == next_step(*self, step),
    {
        match step {
            Step::Fetch => Step::Verify,
            Step::Verify => Step::Filter,
            Step::Filter => {
                if self.erased > 0 {
                    Step::Seal
                } else if self.fetched {
                    Step::DropLocal
                } else {
                    Step::Done
                }
            },
            Step::Seal => Step::Install,
            Step::Install => {
                if self.object_store {
                    Step::Upload
                } else {
                    Step::Record
                }
            },
            Step::Upload => {
                if self.fetched {
                    Step::DropLocal
                } else {
                    Step::Record
                }
            },
            Step::DropLocal => {
                if self.erased > 0 {
                    Step::Record
                } else {
                    Step::Done
                }
            },
            Step::Record => Step::Done,
            Step::Done => Step::Done,
        }
    }

    /// The staging file of the rewrite.
    pub fn staging_name(&self) -> (r: String)
        ensures
            r@ == ".rewrite-"@ + self.archive.id@ + ".tmp"@,
    {
        let mut r = String::from_str(".rewrite-");
        r.append(self.archive.id.as_str());
        r.append(".tmp");
        r
    }

    /// The manifest entry of the rewritten archive: its rows, size and hash change,
    /// and nothing else.
    pub fn recorded(&self, sealed: &SealOutcome) -> (r: ColdArchive)
        ensures
            r == (ColdArchive {
                rows: self.kept,
                bytes_out: sealed.bytes_out,
                checksum: sealed.checksum,
                ..self.archive
            }),
    {
        let mut r = self.archive.copied();
        r.rows = self.kept;
        r.bytes_out = sealed.bytes_out;
        r.checksum = sealed.checksum.clone();
        r
    }

    /// What is reported of the archive, with what was sealed in its place where rows
    /// were dropped.
    pub fn outcome(&self, sealed: Option<&SealOutcome>) -> (r: RewriteOutcome)
        requires
            sealed is Some <==> self.erased > 0,
        ensures
            r.id == self.archive.id,
            r.rows_erased == self.erased,
            r.old_checksum == self.archive.checksum,
            r.new_checksum == match sealed {
                Some(s) => s.checksum,
                None => self.archive.checksum,
            },
            r.remote_replaced == if self.object_store {
                Some(self.erased > 0)
            } else {
                None
            },
    {
        RewriteOutcome {
            id: self.archive.id.clone(),
            rows_erased: self.erased,
            old_checksum: self.archive.checksum.clone(),
            new_checksum: match sealed {
                Some(s) => s.checksum.clone(),
                None => self.archive.checksum.clone(),
            },
            remote_replaced: if self.object_store {
                Some(self.erased > 0)
            } else {
                None
            },
        }
    }
}

/// The steps of a rewrite from `step` on, `n` of them.
pub open spec fn trail(r: Rewrite, step: Step, n: nat) -> Seq<Step>
    decreases n,
{
    if n == 0 {
        Seq::empty()
    } else {
        seq![step] + trail(r, next_step(r, step), (n - 1) as nat)
    }
}

/// The manifest changes only once the replacement is in place, locally and, where
/// there is one, in the object store.
pub proof fn the_manifest_changes_last(r: Rewrite, i: int)
    requires
        0 <= i < 8,
        trail(r, Step::Verify, 8)[i] == Step::Record,
    ensures
        trail(r, Step::Verify, 8).take(i).contains(Step::Install),
        r.object_store ==> trail(r, Step::Verify, 8).take(i).contains(Step::Upload),
{
    reveal_with_fuel(trail, 9);
    let t = trail(r, Step::Verify, 8);
    assert(t[0] == Step::Verify && t[1] == Step::Filter);
    assert(r.erased > 0) by {
        if r.erased == 0 {
            assert(forall|k: int| 0 <= k < 8 ==> t[k] != Step::Record);
        }
    }
    assert(t[2] == Step::Seal && t[3] == Step::Install);
    assert(t.take(i)[3] == Step::Install);
    if r.object_store {
        assert(t[4] == Step::Upload);
        assert(t.take(i)[4] == Step::Upload);
    }
}

/// Every rewrite ends: from verifying the archive on there are at most seven steps.
pub proof fn a_rewrite_ends(r: Rewrite)
    ensures
        trail(r, Step::Verify, 8)[7] == Step::Done,
        r.erased == 0 ==> !trail(r, Step::Verify, 8).contains(Step::Record),
        r.erased > 0 ==> trail(r, Step::Verify, 8).contains(Step::Record),
{
    reveal_with_fuel(trail, 9);
    let t = trail(r, Step::Verify, 8);
    assert(t[0] == Step::Verify && t[1] == Step::Filter);
    if r.erased > 0 {
        assert(t[2] == Step::Seal && t[3] == Step::Install);
        if !r.object_store {
            assert(t[4] == Step::Record);
        } else if !r.fetched {
            assert(t[5] == Step::Record);
        } else {
            assert(t[6] == Step::Record);
        }
    } else {
        assert(forall|i: int| 0 <= i < 8 ==> t[i] != Step::Record);
    }
}

/// A column of a row is the first of its name: a row without a column of the name holds
/// nothing in it, and columns of other names in front change nothing.
pub proof fn a_column_is_the_first_of_its_name(row: Seq<Cell>, column: Seq<char>, i: int)
    requires
        0 <= i < row.len(),
        row[i].column == column,
        forall|j: int| 0 <= j < i ==> (#[trigger] row[j]).column != column,
    ensures
        value_in(row, column) == Some(row[i].value),
        time_in(row, column) == match row[i].value {
            Value::Time(t) => t,
            _ => None,
        },
        text_in(row, column) == match row[i].value {
            Value::Text(t) => t,
            _ => None,
        },
    decreases row.len(),
{
    if i > 0 {
        let rest = row.drop_first();
        assert(row[0].column != column);
        assert(rest[i - 1] == row[i]);
        assert forall|j: int| 0 <= j < i - 1 implies (#[trigger] rest[j]).column != column by {
            assert(rest[j] == row[j + 1]);
        }
        a_column_is_the_first_of_its_name(rest, column, i - 1);
    }
}

/// A row without a column of the name holds nothing in it.
pub proof fn a_missing_column_holds_nothing(row: Seq<Cell>, column: Seq<char>)
    requires
        forall|j: int| 0 <= j < row.len() ==> (#[trigger] row[j]).column != column,
    ensures
        value_in(row, column) is None,
        time_in(row, column) is None,
        text_in(row, column) is None,
    decreases row.len(),
{
    if row.len() > 0 {
        let rest = row.drop_first();
        assert(row[0].column != column);
        assert forall|j: int| 0 <= j < rest.len() implies (#[trigger] rest[j]).column
            != column by {
            assert(rest[j] == row[j + 1]);
        }
        a_missing_column_holds_nothing(rest, column);
    }
}

/// An erasure leaves the rows that no order strikes by their time, their host and their
/// fields, whole and in their order, and no other.
pub proof fn an_erasure_leaves_the_rows_that_are_not_struck(
    cells: Seq<Seq<Cell>>,
    orders: Seq<Tombstone>,
)
    ensures
        left(cells, orders) == cells.filter(
            |row: Seq<Cell>|
                time_in(row, "event_ts"@) is None || !prune::struck(
                    orders,
                    match text_in(row, "host"@) {
                        Some(h) => h,
                        None => Seq::empty(),
                    },
                    text_in(row, "fields"@),
                    time_in(row, "event_ts"@)->0,
                ),
        ),
    decreases cells.len(),
{
    reveal(Seq::filter);
    if cells.len() > 0 {
        an_erasure_leaves_the_rows_that_are_not_struck(cells.drop_last(), orders);
    }
}

/// A row whose time no order covers is left, whatever it holds, and so is one without a
/// time.
pub proof fn an_erasure_keeps_to_the_time_of_its_orders(
    cells: Seq<Seq<Cell>>,
    orders: Seq<Tombstone>,
    i: int,
)
    requires
        0 <= i < cells.len(),
        time_in(cells[i], "event_ts"@) matches Some(us) ==> forall|k: int|
            0 <= k < orders.len() ==> ((#[trigger] orders[k]).from_us is Some && us
                < orders[k].from_us->0) || (orders[k].to_us is Some && us >= orders[k].to_us->0),
    ensures
        left(cells, orders).contains(cells[i]),
{
    let row = cells[i];
    assert(!asked(row).erased_by(orders)) by {
        if asked(row).erased_by(orders) {
            let us = asked(row).ts_us->0;
            let host = asked(row).host_text();
            let fields = asked(row).fields;
            let k = choose|k: int|
                0 <= k < orders.len() && (#[trigger] orders[k]).strikes(host, fields, us);
            prune::an_order_keeps_to_its_time(orders[k], host, fields, us);
        }
    }
    spared_rows_are_left(cells, orders, i);
}

proof fn spared_rows_are_left(cells: Seq<Seq<Cell>>, orders: Seq<Tombstone>, i: int)
    requires
        0 <= i < cells.len(),
        !asked(cells[i]).erased_by(orders),
    ensures
        left(cells, orders).contains(cells[i]),
    decreases cells.len(),
{
    let most = cells.drop_last();
    let before = left(most, orders);
    let after = left(cells, orders);
    if i < most.len() {
        assert(most[i] == cells[i]);
        spared_rows_are_left(most, orders, i);
        let k = choose|k: int| 0 <= k < before.len() && before[k] == cells[i];
        assert(after[k] == cells[i]);
    } else {
        assert(after[before.len() as int] == cells[i]);
    }
}

/// Batches that stand behind each other have their rows behind each other.
pub proof fn batches_are_read_in_order(a: Seq<Seq<Seq<Cell>>>, b: Seq<Seq<Seq<Cell>>>)
    ensures
        flat(a + b) == flat(a) + flat(b),
        forall|x: Seq<Seq<Cell>>| #[trigger] flat(seq![x]) == x,
    decreases b.len(),
{
    assert forall|x: Seq<Seq<Cell>>| #[trigger] flat(seq![x]) == x by {
        let one = seq![x];
        assert(one.drop_last() =~= Seq::empty());
        assert(flat(one.drop_last()) =~= Seq::empty());
        assert(one.last() == x);
        assert(flat(one) == flat(one.drop_last()) + one.last());
        assert(Seq::<Seq<Cell>>::empty() + x =~= x);
    }
    if b.len() == 0 {
        assert(a + b =~= a);
        assert(flat(a) + flat(b) =~= flat(a));
    } else {
        assert((a + b).drop_last() =~= a + b.drop_last());
        batches_are_read_in_order(a, b.drop_last());
        assert(flat(a + b) =~= flat(a) + flat(b));
    }
}

/// No batch that is written is empty.
pub proof fn no_empty_batch_is_written(batches: Seq<Seq<Seq<Cell>>>, orders: Seq<Tombstone>)
    ensures
        forall|i: int|
            0 <= i < kept_batches(batches, orders).len() ==> (#[trigger] kept_batches(
                batches,
                orders,
            )[i]).len() > 0,
        kept_batches(batches, orders).len() <= batches.len(),
    decreases batches.len(),
{
    if batches.len() > 0 {
        no_empty_batch_is_written(batches.drop_last(), orders);
        let before = kept_batches(batches.drop_last(), orders);
        let after = kept_batches(batches, orders);
        assert forall|i: int| 0 <= i < after.len() implies (#[trigger] after[i]).len() > 0 by {
            if i < before.len() {
                assert(after[i] == before[i]);
            }
        }
    }
}

/// The archives that are rewritten are those that some order's time meets, in their order:
/// one that ends before every order begins, or begins where every order has ended, is not.
pub proof fn archives_are_rewritten_by_their_time(
    archives: Seq<ColdArchive>,
    orders: Seq<Tombstone>,
)
    ensures
        concerned_archives(archives, orders) == archives.filter(
            |a: ColdArchive|
                exists|i: int|
                    0 <= i < orders.len() && ((#[trigger] orders[i]).from_us is Some ==> a.end_us
                        > orders[i].from_us->0) && (orders[i].to_us is Some ==> a.start_us
                        < orders[i].to_us->0),
        ),
    decreases archives.len(),
{
    reveal(Seq::filter);
    if archives.len() > 0 {
        archives_are_rewritten_by_their_time(archives.drop_last(), orders);
        let a = archives.last();
        if concerned(a, orders) {
            let i = choose|i: int|
                0 <= i < orders.len() && a.meets((#[trigger] orders[i]).from_us, orders[i].to_us);
            assert(orders[i].from_us is Some ==> a.end_us > orders[i].from_us->0);
        }
        if exists|i: int|
            0 <= i < orders.len() && ((#[trigger] orders[i]).from_us is Some ==> a.end_us
                > orders[i].from_us->0) && (orders[i].to_us is Some ==> a.start_us
                < orders[i].to_us->0) {
            let i = choose|i: int|
                0 <= i < orders.len() && ((#[trigger] orders[i]).from_us is Some ==> a.end_us
                    > orders[i].from_us->0) && (orders[i].to_us is Some ==> a.start_us
                    < orders[i].to_us->0);
            assert(a.meets(orders[i].from_us, orders[i].to_us));
        }
    }
}

/// An archive that holds a struck row is among those that are rewritten.
pub proof fn an_archive_with_a_struck_row_is_rewritten(
    archives: Seq<ColdArchive>,
    orders: Seq<Tombstone>,
    n: int,
    host: Seq<char>,
    fields: Option<Seq<char>>,
    us: i64,
)
    requires
        0 <= n < archives.len(),
        archives[n].holds(us),
        prune::struck(orders, host, fields, us),
    ensures
        concerned_archives(archives, orders).contains(archives[n]),
    decreases archives.len(),
{
    let a = archives[n];
    let i = choose|i: int| 0 <= i < orders.len() && (#[trigger] orders[i]).strikes(host, fields, us);
    prune::a_struck_row_lies_in_an_archive_concerned(a, orders[i], host, fields, us);
    assert(a.meets(orders[i].from_us, orders[i].to_us));
    let most = archives.drop_last();
    let before = concerned_archives(most, orders);
    let after = concerned_archives(archives, orders);
    if n < most.len() {
        assert(most[n] == a);
        an_archive_with_a_struck_row_is_rewritten(most, orders, n, host, fields, us);
        let k = choose|k: int| 0 <= k < before.len() && before[k] == a;
        assert(after[k] == a);
    } else {
        assert(after[before.len() as int] == a);
    }
}

/// A rewrite that finds nothing to erase changes nothing; one that does seals, moves the new
/// archive into place, replaces the object where there is a store, and writes the manifest
/// last. A file that was fetched is removed again, but not before the object is replaced,
/// and one that was not fetched is never removed.
pub proof fn what_a_rewrite_does(r: Rewrite)
    ensures
        ({
            let t = trail(r, Step::Verify, 8);
            &&& t[0] == Step::Verify
            &&& t[1] == Step::Filter
            &&& r.erased == 0 && !r.fetched ==> t[2] == Step::Done
            &&& r.erased == 0 && r.fetched ==> t[2] == Step::DropLocal && t[3] == Step::Done
            &&& r.erased > 0 ==> t[2] == Step::Seal && t[3] == Step::Install
            &&& r.erased > 0 && r.object_store ==> t[4] == Step::Upload
            &&& r.erased > 0 && r.object_store && r.fetched ==> t[5] == Step::DropLocal && t[6]
                == Step::Record && t[7] == Step::Done
            &&& r.erased > 0 && r.object_store && !r.fetched ==> t[5] == Step::Record && t[6]
                == Step::Done
            &&& r.erased > 0 && !r.object_store ==> t[4] == Step::Record && t[5] == Step::Done
        }),
        next_step(r, Step::Fetch) == Step::Verify,
        next_step(r, Step::Done) == Step::Done,
{
    reveal_with_fuel(trail, 9);
}

} // verus!
