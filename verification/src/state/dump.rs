//! The logical dump of the store: every row of every table in one byte stream.
//!
//! A dump begins with a mark and the version of its format. Each table is its
//! name, the number of its rows and the rows; every name, key and value stands
//! behind its length, and numbers are little-endian. Because the number of rows
//! comes first, a dump that was cut off is refused instead of being restored in
//! part.

use crate::le::{self, get_le, put_all, put_le};
use crate::numerals::{self, decimal};
use crate::state::tables::{self, shape_of, Shape};
use crate::text::{self, debug_text};
use vstd::prelude::*;
use vstd::utf8;

verus! {

/// The version of the format.
pub const DUMP_VERSION: u32 = 1;

/// The longest field that is believed: far more than any row has.
pub const FIELD_MAX: u64 = 67108864;

/// A value of a table.
#[derive(Clone, Debug, PartialEq, Eq)]
pub enum Cell {
    Bytes(Vec<u8>),
    U64(u64),
    I64(i64),
}

/// A row of a table.
#[derive(Clone, Debug, PartialEq, Eq)]
pub struct Row {
    pub key: String,
    pub value: Cell,
}

/// A table with all its rows.
#[derive(Clone, Debug, PartialEq, Eq)]
pub struct Table {
    pub name: String,
    pub rows: Vec<Row>,
}

/// What a value is.
pub enum CellView {
    Bytes(Seq<u8>),
    U64(u64),
    I64(i64),
}

impl View for Cell {
    type V = CellView;

    open spec fn view(&self) -> CellView {
        match *self {
            Cell::Bytes(b) => CellView::Bytes(b@),
            Cell::U64(n) => CellView::U64(n),
            Cell::I64(n) => CellView::I64(n),
        }
    }
}

impl View for Row {
    type V = (Seq<char>, CellView);

    open spec fn view(&self) -> (Seq<char>, CellView) {
        (self.key@, self.value@)
    }
}

/// What the rows of a list are.
pub open spec fn rows_view(rows: Seq<Row>) -> Seq<(Seq<char>, CellView)> {
    rows.map_values(|r: Row| r@)
}

impl View for Table {
    type V = (Seq<char>, Seq<(Seq<char>, CellView)>);

    open spec fn view(&self) -> (Seq<char>, Seq<(Seq<char>, CellView)>) {
        (self.name@, rows_view(self.rows@))
    }
}

/// What the tables of a list are.
pub open spec fn tables_view(ts: Seq<Table>) -> Seq<(Seq<char>, Seq<(Seq<char>, CellView)>)> {
    ts.map_values(|t: Table| t@)
}

/// A field: its length, and its bytes.
pub open spec fn framed(b: Seq<u8>) -> Seq<u8> {
    le::le(b.len(), 8) + b
}

/// The bytes of a value; a number has eight.
pub open spec fn cell_bytes(c: CellView) -> Seq<u8> {
    match c {
        CellView::Bytes(b) => b,
        CellView::U64(n) => le::le(n as nat, 8),
        CellView::I64(n) => le::le((n as u64) as nat, 8),
    }
}

pub open spec fn row_bytes(r: (Seq<char>, CellView)) -> Seq<u8> {
    framed(utf8::encode_utf8(r.0)) + framed(cell_bytes(r.1))
}

pub open spec fn rows_bytes(rows: Seq<(Seq<char>, CellView)>) -> Seq<u8>
    decreases rows.len(),
{
    if rows.len() == 0 {
        Seq::empty()
    } else {
        row_bytes(rows[0]) + rows_bytes(rows.drop_first())
    }
}

pub open spec fn table_bytes(t: (Seq<char>, Seq<(Seq<char>, CellView)>)) -> Seq<u8> {
    framed(utf8::encode_utf8(t.0)) + le::le(t.1.len(), 8) + rows_bytes(t.1)
}

pub open spec fn tables_bytes(ts: Seq<(Seq<char>, Seq<(Seq<char>, CellView)>)>) -> Seq<u8>
    decreases ts.len(),
{
    if ts.len() == 0 {
        Seq::empty()
    } else {
        table_bytes(ts[0]) + tables_bytes(ts.drop_first())
    }
}

/// The mark at the beginning of a dump.
pub open spec fn magic() -> Seq<u8> {
    seq![0x47u8, 0x41, 0x52, 0x4d, 0x52, 0x44, 0x4d, 0x50]
}

/// The dump of the given tables.
pub open spec fn dump_bytes(ts: Seq<(Seq<char>, Seq<(Seq<char>, CellView)>)>) -> Seq<u8> {
    magic() + le::le(DUMP_VERSION as nat, 4) + le::le(ts.len(), 4) + tables_bytes(ts)
}

/// Why a dump is refused.
pub enum Refusal {
    Truncated,
    NotADump,
    Version(u32),
    FieldLength(u64),
    NameNotText,
    UnknownTable(Seq<char>),
    KeyNotText,
    ScalarWidth,
}

/// Why a dump is refused.
#[derive(Clone, Debug, PartialEq, Eq)]
pub enum DumpError {
    /// The dump ends before what it announces.
    Truncated,
    /// It does not begin with the mark.
    NotADump,
    /// It has a version that is not read.
    Version(u32),
    /// A field claims to be longer than any can be.
    FieldLength(u64),
    NameNotText,
    /// It names a table that the store does not have.
    UnknownTable(String),
    KeyNotText,
    /// A number does not have eight bytes.
    ScalarWidth,
}

impl View for DumpError {
    type V = Refusal;

    open spec fn view(&self) -> Refusal {
        match *self {
            DumpError::Truncated => Refusal::Truncated,
            DumpError::NotADump => Refusal::NotADump,
            DumpError::Version(v) => Refusal::Version(v),
            DumpError::FieldLength(n) => Refusal::FieldLength(n),
            DumpError::NameNotText => Refusal::NameNotText,
            DumpError::UnknownTable(s) => Refusal::UnknownTable(s@),
            DumpError::KeyNotText => Refusal::KeyNotText,
            DumpError::ScalarWidth => Refusal::ScalarWidth,
        }
    }
}

/// What is reported of a refused dump.
pub open spec fn refusal_message(e: Refusal) -> Seq<char> {
    match e {
        Refusal::Truncated => "failed to fill whole buffer"@,
        Refusal::NotADump => "not a garmr state dump"@,
        Refusal::Version(v) => "dump format version "@ + numerals::numeral(v as nat)
            + " is not supported (this build reads "@ + numerals::numeral(DUMP_VERSION as nat)
            + ")"@,
        Refusal::FieldLength(n) => "dump: implausible field length "@ + numerals::numeral(n as nat),
        Refusal::NameNotText => "dump: table name is not utf-8"@,
        Refusal::UnknownTable(s) => "dump names unknown table "@ + text::quoted(s),
        Refusal::KeyNotText => "dump: key is not utf-8"@,
        Refusal::ScalarWidth => "dump: scalar value is not 8 bytes"@,
    }
}

impl DumpError {
    /// What is reported of the refused dump.
    pub fn message(&self) -> (r: String)
        ensures
            r@ == refusal_message(self@),
    {
        match self {
            DumpError::Truncated => String::from_str("failed to fill whole buffer"),
            DumpError::NotADump => String::from_str("not a garmr state dump"),
            DumpError::Version(v) => {
                let mut m = String::from_str("dump format version ");
                m.append(decimal(*v as u64).as_str());
                m.append(" is not supported (this build reads ");
                m.append(decimal(DUMP_VERSION as u64).as_str());
                m.append(")");
                m
            },
            DumpError::FieldLength(n) => {
                let mut m = String::from_str("dump: implausible field length ");
                m.append(decimal(*n).as_str());
                m
            },
            DumpError::NameNotText => String::from_str("dump: table name is not utf-8"),
            DumpError::UnknownTable(s) => {
                let mut m = String::from_str("dump names unknown table ");
                m.append(debug_text(s.as_str()).as_str());
                m
            },
            DumpError::KeyNotText => String::from_str("dump: key is not utf-8"),
            DumpError::ScalarWidth => String::from_str("dump: scalar value is not 8 bytes"),
        }
    }
}

/// Reads `n` bytes: these and what is left, where there are as many.
pub open spec fn split(b: Seq<u8>, n: int) -> Option<(Seq<u8>, Seq<u8>)> {
    if n <= b.len() {
        Some((b.take(n), b.skip(n)))
    } else {
        None
    }
}

/// Reads a number of `n` bytes.
pub open spec fn read_number(b: Seq<u8>, n: int) -> Option<(nat, Seq<u8>)> {
    match split(b, n) {
        Some((s, rest)) => Some((le::le_value(s), rest)),
        None => None,
    }
}

/// Reads a field.
pub open spec fn read_field(b: Seq<u8>) -> Result<(Seq<u8>, Seq<u8>), Refusal> {
    match read_number(b, 8) {
        None => Err(Refusal::Truncated),
        Some((n, rest)) => if n > FIELD_MAX {
            Err(Refusal::FieldLength(n as u64))
        } else {
            match split(rest, n as int) {
                Some(r) => Ok(r),
                None => Err(Refusal::Truncated),
            }
        },
    }
}

/// The value of the given type that some bytes are.
pub open spec fn read_cell(b: Seq<u8>, shape: Shape) -> Result<CellView, Refusal> {
    match shape {
        Shape::Bytes => Ok(CellView::Bytes(b)),
        Shape::U64 => if b.len() == 8 {
            Ok(CellView::U64(le::le_value(b) as u64))
        } else {
            Err(Refusal::ScalarWidth)
        },
        Shape::I64 => if b.len() == 8 {
            Ok(CellView::I64((le::le_value(b) as u64) as i64))
        } else {
            Err(Refusal::ScalarWidth)
        },
    }
}

/// Reads a row of a table of the given type.
#[verifier::opaque]
pub open spec fn read_row(b: Seq<u8>, shape: Shape) -> Result<
    ((Seq<char>, CellView), Seq<u8>),
    Refusal,
> {
    match read_field(b) {
        Err(e) => Err(e),
        Ok((k, rest)) => match read_field(rest) {
            Err(e) => Err(e),
            Ok((v, rest)) => if !utf8::valid_utf8(k) {
                Err(Refusal::KeyNotText)
            } else {
                match read_cell(v, shape) {
                    Err(e) => Err(e),
                    Ok(c) => Ok(((utf8::decode_utf8(k), c), rest)),
                }
            },
        },
    }
}

/// Reads `n` rows.
pub open spec fn read_rows(b: Seq<u8>, shape: Shape, n: nat) -> Result<
    (Seq<(Seq<char>, CellView)>, Seq<u8>),
    Refusal,
>
    decreases n,
{
    if n == 0 {
        Ok((Seq::empty(), b))
    } else {
        match read_row(b, shape) {
            Err(e) => Err(e),
            Ok((r, rest)) => match read_rows(rest, shape, (n - 1) as nat) {
                Err(e) => Err(e),
                Ok((rs, rest)) => Ok((seq![r] + rs, rest)),
            },
        }
    }
}

/// Reads a table.
#[verifier::opaque]
pub open spec fn read_table(b: Seq<u8>) -> Result<
    ((Seq<char>, Seq<(Seq<char>, CellView)>), Seq<u8>),
    Refusal,
> {
    match read_field(b) {
        Err(e) => Err(e),
        Ok((name, rest)) => if !utf8::valid_utf8(name) {
            Err(Refusal::NameNotText)
        } else {
            match tables::shape_named(utf8::decode_utf8(name)) {
                None => Err(Refusal::UnknownTable(utf8::decode_utf8(name))),
                Some(shape) => match read_number(rest, 8) {
                    None => Err(Refusal::Truncated),
                    Some((n, rest)) => match read_rows(rest, shape, n) {
                        Err(e) => Err(e),
                        Ok((rows, rest)) => Ok(((utf8::decode_utf8(name), rows), rest)),
                    },
                },
            }
        },
    }
}

/// Reads the head of a dump: how many tables follow.
pub open spec fn read_head(b: Seq<u8>) -> Result<(u32, Seq<u8>), Refusal> {
    match split(b, 8) {
        None => Err(Refusal::Truncated),
        Some((mark, rest)) => if mark != magic() {
            Err(Refusal::NotADump)
        } else {
            match read_number(rest, 4) {
                None => Err(Refusal::Truncated),
                Some((version, rest)) => if version != DUMP_VERSION {
                    Err(Refusal::Version(version as u32))
                } else {
                    match read_number(rest, 4) {
                        None => Err(Refusal::Truncated),
                        Some((n, rest)) => Ok((n as u32, rest)),
                    }
                },
            }
        },
    }
}

/// Reads `n` tables.
pub open spec fn read_tables(b: Seq<u8>, n: nat) -> Result<
    Seq<(Seq<char>, Seq<(Seq<char>, CellView)>)>,
    Refusal,
>
    decreases n,
{
    if n == 0 {
        Ok(Seq::empty())
    } else {
        match read_table(b) {
            Err(e) => Err(e),
            Ok((t, rest)) => match read_tables(rest, (n - 1) as nat) {
                Err(e) => Err(e),
                Ok(ts) => Ok(seq![t] + ts),
            },
        }
    }
}

/// What a dump holds.
pub open spec fn read_dump(b: Seq<u8>) -> Result<
    Seq<(Seq<char>, Seq<(Seq<char>, CellView)>)>,
    Refusal,
> {
    match read_head(b) {
        Err(e) => Err(e),
        Ok((n, rest)) => read_tables(rest, n as nat),
    }
}

/// The value is one of a table of the given type.
pub open spec fn fits(c: CellView, shape: Shape) -> bool {
    match shape {
        Shape::Bytes => c is Bytes,
        Shape::U64 => c is U64,
        Shape::I64 => c is I64,
    }
}

/// A table of the store: its name is known, its values have its type, and no field
/// is longer than is believed.
pub open spec fn is_storable(t: (Seq<char>, Seq<(Seq<char>, CellView)>)) -> bool {
    &&& tables::shape_named(t.0) is Some
    &&& utf8::encode_utf8(t.0).len() <= FIELD_MAX
    &&& t.1.len() <= u64::MAX
    &&& forall|i: int|
        0 <= i < t.1.len() ==> is_storable_row(#[trigger] t.1[i], tables::shape_named(t.0)->0)
}

pub open spec fn is_storable_row(r: (Seq<char>, CellView), shape: Shape) -> bool {
    &&& fits(r.1, shape)
    &&& utf8::encode_utf8(r.0).len() <= FIELD_MAX
    &&& cell_bytes(r.1).len() <= FIELD_MAX
}

proof fn number_reads_back(x: nat, n: nat, rest: Seq<u8>)
    requires
        x < le::bytes_range(n),
    ensures
        read_number(le::le(x, n) + rest, n as int) == Some((x, rest)),
{
    le::le_len(x, n);
    le::value_undoes_le(x, n);
    let b = le::le(x, n) + rest;
    assert(b.take(n as int) =~= le::le(x, n));
    assert(b.skip(n as int) =~= rest);
}

proof fn field_reads_back(x: Seq<u8>, rest: Seq<u8>)
    requires
        x.len() <= FIELD_MAX,
    ensures
        read_field(framed(x) + rest) == Ok::<(Seq<u8>, Seq<u8>), Refusal>((x, rest)),
{
    le::ranges();
    number_reads_back(x.len(), 8, x + rest);
    assert(framed(x) + rest =~= le::le(x.len(), 8) + (x + rest));
    assert((x + rest).take(x.len() as int) =~= x);
    assert((x + rest).skip(x.len() as int) =~= rest);
}

proof fn cell_reads_back(c: CellView, shape: Shape)
    requires
        fits(c, shape),
    ensures
        read_cell(cell_bytes(c), shape) == Ok::<CellView, Refusal>(c),
{
    le::ranges();
    match c {
        CellView::Bytes(b) => {},
        CellView::U64(n) => {
            le::le_len(n as nat, 8);
            le::value_undoes_le(n as nat, 8);
        },
        CellView::I64(n) => {
            le::le_len((n as u64) as nat, 8);
            le::value_undoes_le((n as u64) as nat, 8);
            assert((n as u64) as i64 == n) by (bit_vector);
        },
    }
}

proof fn row_reads_back(r: (Seq<char>, CellView), shape: Shape, rest: Seq<u8>)
    requires
        is_storable_row(r, shape),
    ensures
        read_row(row_bytes(r) + rest, shape) == Ok::<((Seq<char>, CellView), Seq<u8>), Refusal>(
            (r, rest),
        ),
{
    reveal(read_row);
    let k = utf8::encode_utf8(r.0);
    let v = cell_bytes(r.1);
    assert(row_bytes(r) + rest =~= framed(k) + (framed(v) + rest));
    field_reads_back(k, framed(v) + rest);
    field_reads_back(v, rest);
    cell_reads_back(r.1, shape);
    utf8::encode_utf8_valid_utf8(r.0);
    utf8::encode_utf8_decode_utf8(r.0);
}

proof fn rows_read_back(rows: Seq<(Seq<char>, CellView)>, shape: Shape, rest: Seq<u8>)
    requires
        forall|i: int| 0 <= i < rows.len() ==> is_storable_row(#[trigger] rows[i], shape),
    ensures
        read_rows(rows_bytes(rows) + rest, shape, rows.len()) == Ok::<
            (Seq<(Seq<char>, CellView)>, Seq<u8>),
            Refusal,
        >((rows, rest)),
    decreases rows.len(),
{
    if rows.len() == 0 {
        assert(rows_bytes(rows) + rest =~= rest);
        assert(rows =~= Seq::empty());
    } else {
        let more = rows.drop_first();
        assert forall|i: int| 0 <= i < more.len() implies is_storable_row(#[trigger] more[i], shape) by {
            assert(more[i] == rows[i + 1]);
        }
        assert(rows_bytes(rows) + rest =~= row_bytes(rows[0]) + (rows_bytes(more) + rest));
        row_reads_back(rows[0], shape, rows_bytes(more) + rest);
        rows_read_back(more, shape, rest);
        assert(seq![rows[0]] + more =~= rows);
    }
}

proof fn table_reads_back(t: (Seq<char>, Seq<(Seq<char>, CellView)>), rest: Seq<u8>)
    requires
        is_storable(t),
    ensures
        read_table(table_bytes(t) + rest) == Ok::<
            ((Seq<char>, Seq<(Seq<char>, CellView)>), Seq<u8>),
            Refusal,
        >((t, rest)),
{
    reveal(read_table);
    let name = utf8::encode_utf8(t.0);
    let shape = tables::shape_named(t.0)->0;
    le::ranges();
    assert(table_bytes(t) + rest =~= framed(name) + (le::le(t.1.len(), 8) + (rows_bytes(t.1) + rest)));
    field_reads_back(name, le::le(t.1.len(), 8) + (rows_bytes(t.1) + rest));
    utf8::encode_utf8_valid_utf8(t.0);
    utf8::encode_utf8_decode_utf8(t.0);
    number_reads_back(t.1.len(), 8, rows_bytes(t.1) + rest);
    rows_read_back(t.1, shape, rest);
}

proof fn tables_read_back(ts: Seq<(Seq<char>, Seq<(Seq<char>, CellView)>)>, rest: Seq<u8>)
    requires
        forall|i: int| 0 <= i < ts.len() ==> is_storable(#[trigger] ts[i]),
    ensures
        read_tables(tables_bytes(ts) + rest, ts.len()) == Ok::<
            Seq<(Seq<char>, Seq<(Seq<char>, CellView)>)>,
            Refusal,
        >(ts),
    decreases ts.len(),
{
    if ts.len() == 0 {
        assert(ts =~= Seq::empty());
    } else {
        let more = ts.drop_first();
        assert forall|i: int| 0 <= i < more.len() implies is_storable(#[trigger] more[i]) by {
            assert(more[i] == ts[i + 1]);
        }
        assert(tables_bytes(ts) + rest =~= table_bytes(ts[0]) + (tables_bytes(more) + rest));
        table_reads_back(ts[0], tables_bytes(more) + rest);
        tables_read_back(more, rest);
        assert(seq![ts[0]] + more =~= ts);
    }
}

/// A dump gives back every table with every key and every value, whatever follows
/// it in the stream.
pub proof fn a_dump_round_trips(ts: Seq<(Seq<char>, Seq<(Seq<char>, CellView)>)>, rest: Seq<u8>)
    requires
        ts.len() <= u32::MAX,
        forall|i: int| 0 <= i < ts.len() ==> is_storable(#[trigger] ts[i]),
    ensures
        read_dump(dump_bytes(ts) + rest) == Ok::<
            Seq<(Seq<char>, Seq<(Seq<char>, CellView)>)>,
            Refusal,
        >(ts),
{
    le::ranges();
    let v = le::le(DUMP_VERSION as nat, 4);
    let n = le::le(ts.len(), 4);
    let body = tables_bytes(ts) + rest;
    let b = dump_bytes(ts) + rest;
    assert(b =~= magic() + (v + (n + body)));
    assert(b.take(8) =~= magic());
    assert(b.skip(8) =~= v + (n + body));
    number_reads_back(DUMP_VERSION as nat, 4, n + body);
    number_reads_back(ts.len(), 4, body);
    tables_read_back(ts, rest);
}

proof fn field_cut(x: Seq<u8>, k: int)
    requires
        x.len() <= FIELD_MAX,
        0 <= k < framed(x).len(),
    ensures
        read_field(framed(x).take(k)) == Err::<(Seq<u8>, Seq<u8>), Refusal>(Refusal::Truncated),
{
    le::ranges();
    le::le_len(x.len(), 8);
    if k >= 8 {
        let part = x.take(k - 8);
        assert(framed(x).take(k) =~= le::le(x.len(), 8) + part);
        number_reads_back(x.len(), 8, part);
    }
}

proof fn row_cut(r: (Seq<char>, CellView), shape: Shape, k: int)
    requires
        is_storable_row(r, shape),
        0 <= k < row_bytes(r).len(),
    ensures
        read_row(row_bytes(r).take(k), shape) == Err::<((Seq<char>, CellView), Seq<u8>), Refusal>(
            Refusal::Truncated,
        ),
{
    reveal(read_row);
    let a = framed(utf8::encode_utf8(r.0));
    let b = framed(cell_bytes(r.1));
    if k < a.len() {
        assert(row_bytes(r).take(k) =~= a.take(k));
        field_cut(utf8::encode_utf8(r.0), k);
    } else {
        let part = b.take(k - a.len());
        assert(row_bytes(r).take(k) =~= a + part);
        field_reads_back(utf8::encode_utf8(r.0), part);
        field_cut(cell_bytes(r.1), k - a.len());
    }
}

proof fn rows_cut(rows: Seq<(Seq<char>, CellView)>, shape: Shape, k: int)
    requires
        forall|i: int| 0 <= i < rows.len() ==> is_storable_row(#[trigger] rows[i], shape),
        0 <= k < rows_bytes(rows).len(),
    ensures
        read_rows(rows_bytes(rows).take(k), shape, rows.len()) == Err::<
            (Seq<(Seq<char>, CellView)>, Seq<u8>),
            Refusal,
        >(Refusal::Truncated),
    decreases rows.len(),
{
    let more = rows.drop_first();
    let a = row_bytes(rows[0]);
    assert forall|i: int| 0 <= i < more.len() implies is_storable_row(#[trigger] more[i], shape) by {
        assert(more[i] == rows[i + 1]);
    }
    if k < a.len() {
        assert(rows_bytes(rows).take(k) =~= a.take(k));
        row_cut(rows[0], shape, k);
    } else {
        let part = rows_bytes(more).take(k - a.len());
        assert(rows_bytes(rows).take(k) =~= a + part);
        row_reads_back(rows[0], shape, part);
        rows_cut(more, shape, k - a.len());
    }
}

proof fn table_cut(t: (Seq<char>, Seq<(Seq<char>, CellView)>), k: int)
    requires
        is_storable(t),
        0 <= k < table_bytes(t).len(),
    ensures
        read_table(table_bytes(t).take(k)) == Err::<
            ((Seq<char>, Seq<(Seq<char>, CellView)>), Seq<u8>),
            Refusal,
        >(Refusal::Truncated),
{
    reveal(read_table);
    let name = utf8::encode_utf8(t.0);
    let a = framed(name);
    let n = le::le(t.1.len(), 8);
    let shape = tables::shape_named(t.0)->0;
    le::ranges();
    le::le_len(t.1.len(), 8);
    utf8::encode_utf8_valid_utf8(t.0);
    utf8::encode_utf8_decode_utf8(t.0);
    if k < a.len() {
        assert(table_bytes(t).take(k) =~= a.take(k));
        field_cut(name, k);
    } else if k < a.len() + 8 {
        let part = n.take(k - a.len());
        assert(table_bytes(t).take(k) =~= a + part);
        field_reads_back(name, part);
    } else {
        let part = rows_bytes(t.1).take(k - a.len() - 8);
        assert(table_bytes(t).take(k) =~= a + (n + part));
        field_reads_back(name, n + part);
        number_reads_back(t.1.len(), 8, part);
        rows_cut(t.1, shape, k - a.len() - 8);
    }
}

proof fn tables_cut(ts: Seq<(Seq<char>, Seq<(Seq<char>, CellView)>)>, k: int)
    requires
        forall|i: int| 0 <= i < ts.len() ==> is_storable(#[trigger] ts[i]),
        0 <= k < tables_bytes(ts).len(),
    ensures
        read_tables(tables_bytes(ts).take(k), ts.len()) == Err::<
            Seq<(Seq<char>, Seq<(Seq<char>, CellView)>)>,
            Refusal,
        >(Refusal::Truncated),
    decreases ts.len(),
{
    let more = ts.drop_first();
    let a = table_bytes(ts[0]);
    assert forall|i: int| 0 <= i < more.len() implies is_storable(#[trigger] more[i]) by {
        assert(more[i] == ts[i + 1]);
    }
    if k < a.len() {
        assert(tables_bytes(ts).take(k) =~= a.take(k));
        table_cut(ts[0], k);
    } else {
        let part = tables_bytes(more).take(k - a.len());
        assert(tables_bytes(ts).take(k) =~= a + part);
        table_reads_back(ts[0], part);
        tables_cut(more, k - a.len());
    }
}

/// A dump that was cut off, wherever, is refused: no part of it is taken for the whole.
pub proof fn a_cut_dump_is_refused(ts: Seq<(Seq<char>, Seq<(Seq<char>, CellView)>)>, k: int)
    requires
        ts.len() <= u32::MAX,
        forall|i: int| 0 <= i < ts.len() ==> is_storable(#[trigger] ts[i]),
        0 <= k < dump_bytes(ts).len(),
    ensures
        read_dump(dump_bytes(ts).take(k)) == Err::<
            Seq<(Seq<char>, Seq<(Seq<char>, CellView)>)>,
            Refusal,
        >(Refusal::Truncated),
{
    le::ranges();
    let v = le::le(DUMP_VERSION as nat, 4);
    let n = le::le(ts.len(), 4);
    le::le_len(DUMP_VERSION as nat, 4);
    le::le_len(ts.len(), 4);
    let b = dump_bytes(ts).take(k);
    if k >= 8 {
        assert(b.take(8) =~= magic());
        if k < 12 {
            assert(b.skip(8) =~= v.take(k - 8));
        } else if k < 16 {
            let part = n.take(k - 12);
            assert(b.skip(8) =~= v + part);
            number_reads_back(DUMP_VERSION as nat, 4, part);
        } else {
            let part = tables_bytes(ts).take(k - 16);
            assert(b.skip(8) =~= v + (n + part));
            number_reads_back(DUMP_VERSION as nat, 4, n + part);
            number_reads_back(ts.len(), 4, part);
            tables_cut(ts, k - 16);
        }
    }
}

/// How much a dump holds.
#[derive(Clone, Debug, PartialEq, Eq)]
pub struct DumpStats {
    pub tables: usize,
    pub rows: u64,
    /// The bytes of all keys and values.
    pub bytes: u64,
}

impl Default for DumpStats {
    fn default() -> (r: DumpStats)
        ensures
            r.tables == 0 && r.rows == 0 && r.bytes == 0,
    {
        DumpStats { tables: 0, rows: 0, bytes: 0 }
    }
}

/// The rows of all tables.
pub open spec fn row_count(ts: Seq<(Seq<char>, Seq<(Seq<char>, CellView)>)>) -> nat
    decreases ts.len(),
{
    if ts.len() == 0 {
        0
    } else {
        row_count(ts.drop_last()) + ts.last().1.len()
    }
}

/// The bytes of the keys and values of some rows.
pub open spec fn rows_size(rows: Seq<(Seq<char>, CellView)>) -> nat
    decreases rows.len(),
{
    if rows.len() == 0 {
        0
    } else {
        rows_size(rows.drop_last()) + utf8::encode_utf8(rows.last().0).len() + cell_bytes(
            rows.last().1,
        ).len()
    }
}

/// The bytes of the keys and values of all tables.
pub open spec fn dump_size(ts: Seq<(Seq<char>, Seq<(Seq<char>, CellView)>)>) -> nat
    decreases ts.len(),
{
    if ts.len() == 0 {
        0
    } else {
        dump_size(ts.drop_last()) + rows_size(ts.last().1)
    }
}

/// A count that stays at its greatest value.
pub open spec fn capped(n: nat) -> u64 {
    if n > u64::MAX {
        u64::MAX
    } else {
        n as u64
    }
}

proof fn rows_bytes_push(rows: Seq<(Seq<char>, CellView)>, r: (Seq<char>, CellView))
    ensures
        rows_bytes(rows.push(r)) == rows_bytes(rows) + row_bytes(r),
    decreases rows.len(),
{
    let all = rows.push(r);
    if rows.len() == 0 {
        assert(all.drop_first() =~= Seq::empty());
        assert(rows_bytes(all.drop_first()) =~= Seq::empty());
        assert(rows_bytes(all) =~= rows_bytes(rows) + row_bytes(r));
    } else {
        assert(all.drop_first() =~= rows.drop_first().push(r));
        rows_bytes_push(rows.drop_first(), r);
        assert(rows_bytes(all) =~= rows_bytes(rows) + row_bytes(r));
    }
}

proof fn tables_bytes_push(
    ts: Seq<(Seq<char>, Seq<(Seq<char>, CellView)>)>,
    t: (Seq<char>, Seq<(Seq<char>, CellView)>),
)
    ensures
        tables_bytes(ts.push(t)) == tables_bytes(ts) + table_bytes(t),
    decreases ts.len(),
{
    let all = ts.push(t);
    if ts.len() == 0 {
        assert(all.drop_first() =~= Seq::empty());
        assert(tables_bytes(all.drop_first()) =~= Seq::empty());
        assert(tables_bytes(all) =~= tables_bytes(ts) + table_bytes(t));
    } else {
        assert(all.drop_first() =~= ts.drop_first().push(t));
        tables_bytes_push(ts.drop_first(), t);
        assert(tables_bytes(all) =~= tables_bytes(ts) + table_bytes(t));
    }
}

fn put_bytes(out: &mut Vec<u8>, b: &[u8])
    ensures
        final(out)@ == old(out)@ + framed(b@),
{
    put_le(out, b.len() as u64, 8);
    put_all(out, b);
    assert(out@ =~= old(out)@ + framed(b@));
}

fn put_row(out: &mut Vec<u8>, r: &Row) -> (size: u64)
    ensures
        final(out)@ == old(out)@ + row_bytes(r@),
        size == capped(utf8::encode_utf8(r@.0).len() + cell_bytes(r@.1).len()),
{
    let key = r.key.as_str().as_bytes();
    put_bytes(out, key);
    let ghost mid = out@;
    let value_len: u64 = match &r.value {
        Cell::Bytes(b) => {
            put_bytes(out, b.as_slice());
            b.len() as u64
        },
        Cell::U64(n) => {
            put_le(out, 8, 8);
            put_le(out, *n, 8);
            proof {
                le::le_len(*n as nat, 8);
                assert(out@ =~= mid + framed(le::le(*n as nat, 8)));
            }
            8
        },
        Cell::I64(n) => {
            put_le(out, 8, 8);
            put_le(out, *n as u64, 8);
            proof {
                le::le_len((*n as u64) as nat, 8);
                assert(out@ =~= mid + framed(le::le((*n as u64) as nat, 8)));
            }
            8
        },
    };
    assert(out@ =~= old(out)@ + row_bytes(r@));
    (key.len() as u64).saturating_add(value_len)
}

fn put_table(out: &mut Vec<u8>, t: &Table) -> (size: u64)
    ensures
        final(out)@ == old(out)@ + table_bytes(t@),
        size == capped(rows_size(t@.1)),
{
    put_bytes(out, t.name.as_str().as_bytes());
    put_le(out, t.rows.len() as u64, 8);
    let ghost head = out@;
    let ghost all = rows_view(t.rows@);
    let mut size: u64 = 0;
    let mut i: usize = 0;
    assert(all.take(0) =~= Seq::empty());
    assert(out@ =~= head + rows_bytes(all.take(0)));
    while i < t.rows.len()
        invariant
            i <= t.rows.len(),
            all == rows_view(t.rows@),
            out@ == head + rows_bytes(all.take(i as int)),
            size == capped(rows_size(all.take(i as int))),
        decreases t.rows.len() - i,
    {
        let ghost was = out@;
        let n = put_row(out, &t.rows[i]);
        size = size.saturating_add(n);
        proof {
            let done = all.take(i as int);
            let more = all.take(i + 1);
            assert(more =~= done.push(all[i as int]));
            rows_bytes_push(done, all[i as int]);
            assert(more.drop_last() =~= done);
            assert(out@ =~= head + rows_bytes(more));
        }
        i += 1;
    }
    assert(all.take(i as int) =~= all);
    assert(out@ =~= old(out)@ + table_bytes(t@));
    size
}

/// Writes the dump of the given tables, and says how much it holds.
pub fn dump_to(ts: &Vec<Table>) -> (r: (Vec<u8>, DumpStats))
    requires
        ts@.len() <= u32::MAX,
    ensures
        r.0@ == dump_bytes(tables_view(ts@)),
        r.1.tables == ts@.len(),
        r.1.rows == capped(row_count(tables_view(ts@))),
        r.1.bytes == capped(dump_size(tables_view(ts@))),
{
    let mut out: Vec<u8> = vec![0x47u8, 0x41, 0x52, 0x4d, 0x52, 0x44, 0x4d, 0x50];
    assert(out@ =~= magic());
    put_le(&mut out, DUMP_VERSION as u64, 4);
    put_le(&mut out, ts.len() as u64, 4);
    let ghost head = out@;
    let ghost all = tables_view(ts@);
    let mut rows: u64 = 0;
    let mut bytes: u64 = 0;
    let mut i: usize = 0;
    assert(all.take(0) =~= Seq::empty());
    assert(out@ =~= head + tables_bytes(all.take(0)));
    while i < ts.len()
        invariant
            i <= ts.len(),
            all == tables_view(ts@),
            out@ == head + tables_bytes(all.take(i as int)),
            rows == capped(row_count(all.take(i as int))),
            bytes == capped(dump_size(all.take(i as int))),
        decreases ts.len() - i,
    {
        let n = put_table(&mut out, &ts[i]);
        rows = rows.saturating_add(ts[i].rows.len() as u64);
        bytes = bytes.saturating_add(n);
        proof {
            let done = all.take(i as int);
            let more = all.take(i + 1);
            assert(more =~= done.push(all[i as int]));
            tables_bytes_push(done, all[i as int]);
            assert(more.drop_last() =~= done);
            assert(out@ =~= head + tables_bytes(more));
        }
        i += 1;
    }
    assert(all.take(i as int) =~= all);
    let stats = DumpStats { tables: ts.len(), rows, bytes };
    (out, stats)
}

/// `String::from_utf8`: the text that the bytes encode, where they are valid UTF-8,
/// and nothing where they are not.
#[verifier::external_body]
fn text_from_utf8(b: Vec<u8>) -> (r: Option<String>)
    ensures
        match r {
            Some(s) => utf8::valid_utf8(b@) && s@ == utf8::decode_utf8(b@),
            None => !utf8::valid_utf8(b@),
        },
{
    String::from_utf8(b).ok()
}

/// A dump that is being read.
pub struct DumpReader {
    bytes: Vec<u8>,
    at: usize,
    tables: u32,
}

impl DumpReader {
    #[verifier::type_invariant]
    spec fn wf(self) -> bool {
        self.at <= self.bytes@.len()
    }

    /// What is still to be read.
    pub closed spec fn rest(self) -> Seq<u8> {
        self.bytes@.skip(self.at as int)
    }

    /// How many tables the dump announces.
    pub closed spec fn announced(self) -> u32 {
        self.tables
    }

    /// How many tables the dump announces.
    pub fn table_count(&self) -> (r: u32)
        ensures
            r == self.announced(),
    {
        self.tables
    }

    /// Begins to read a dump, after a look at its head.
    pub fn open(bytes: Vec<u8>) -> (r: Result<DumpReader, DumpError>)
        ensures
            match r {
                Ok(d) => read_head(bytes@) == Ok::<(u32, Seq<u8>), Refusal>((d.announced(), d.rest())),
                Err(e) => read_head(bytes@) == Err::<(u32, Seq<u8>), Refusal>(e@),
            },
    {
        proof {
            le::ranges();
        }
        let n: usize = bytes.len();
        if n < 8 {
            return Err(DumpError::Truncated);
        }
        let ghost b = bytes@;
        if !(bytes[0] == 0x47 && bytes[1] == 0x41 && bytes[2] == 0x52 && bytes[3] == 0x4d && bytes[4]
            == 0x52 && bytes[5] == 0x44 && bytes[6] == 0x4d && bytes[7] == 0x50) {
            proof {
                if b.take(8) == magic() {
                    assert(b.take(8)[0] == b[0] && b.take(8)[1] == b[1] && b.take(8)[2] == b[2]);
                    assert(b.take(8)[3] == b[3] && b.take(8)[4] == b[4] && b.take(8)[5] == b[5]);
                    assert(b.take(8)[6] == b[6] && b.take(8)[7] == b[7]);
                }
            }
            return Err(DumpError::NotADump);
        }
        assert(b.take(8) =~= magic());
        let ghost r1 = b.skip(8);
        if n - 8 < 4 {
            return Err(DumpError::Truncated);
        }
        let version = get_le(&bytes, 8, 4);
        assert(b.subrange(8, 12) =~= r1.take(4));
        proof {
            le::value_fits(r1.take(4));
        }
        if version != DUMP_VERSION as u64 {
            return Err(DumpError::Version(version as u32));
        }
        let ghost r2 = r1.skip(4);
        if n - 12 < 4 {
            return Err(DumpError::Truncated);
        }
        let tables = get_le(&bytes, 12, 4);
        assert(b.subrange(12, 16) =~= r2.take(4));
        proof {
            le::value_fits(r2.take(4));
            assert(b.skip(16) =~= r2.skip(4));
        }
        Ok(DumpReader { bytes, at: 16, tables: tables as u32 })
    }

    fn number(&mut self) -> (r: Result<u64, DumpError>)
        ensures
            final(self).announced() == old(self).announced(),
            match r {
                Ok(n) => read_number(old(self).rest(), 8) == Some((n as nat, final(self).rest())),
                Err(e) => read_number(old(self).rest(), 8) is None && e == DumpError::Truncated,
            },
    {
        proof {
            use_type_invariant(&*self);
        }
        if self.bytes.len() - self.at < 8 {
            return Err(DumpError::Truncated);
        }
        let n = get_le(&self.bytes, self.at, 8);
        let ghost was = self.rest();
        assert(self.bytes@.subrange(self.at as int, self.at + 8) =~= was.take(8));
        self.at = self.at + 8;
        assert(self.rest() =~= was.skip(8));
        Ok(n)
    }

    fn field(&mut self) -> (r: Result<Vec<u8>, DumpError>)
        ensures
            final(self).announced() == old(self).announced(),
            match r {
                Ok(v) => read_field(old(self).rest()) == Ok::<(Seq<u8>, Seq<u8>), Refusal>(
                    (v@, final(self).rest()),
                ),
                Err(e) => read_field(old(self).rest()) == Err::<(Seq<u8>, Seq<u8>), Refusal>(e@),
            },
    {
        let n: u64 = match self.number() {
            Ok(n) => n,
            Err(e) => {
                return Err(e);
            },
        };
        if n > FIELD_MAX {
            return Err(DumpError::FieldLength(n));
        }
        proof {
            use_type_invariant(&*self);
        }
        let n: usize = n as usize;
        let ghost was = self.rest();
        if self.bytes.len() - self.at < n {
            return Err(DumpError::Truncated);
        }
        let mut v: Vec<u8> = Vec::new();
        let mut i: usize = 0;
        while i < n
            invariant
                i <= n,
                self.at + n <= self.bytes@.len(),
                self.at + n <= self.bytes.len(),
                v@ == self.bytes@.subrange(self.at as int, self.at + i),
            decreases n - i,
        {
            v.push(self.bytes[self.at + i]);
            i += 1;
            assert(v@ =~= self.bytes@.subrange(self.at as int, self.at + i));
        }
        assert(v@ =~= was.take(n as int));
        self.at = self.at + n;
        assert(self.rest() =~= was.skip(n as int));
        Ok(v)
    }

    fn cell(&self, v: Vec<u8>, shape: Shape) -> (r: Result<Cell, DumpError>)
        ensures
            match r {
                Ok(c) => read_cell(v@, shape) == Ok::<CellView, Refusal>(c@),
                Err(e) => read_cell(v@, shape) == Err::<CellView, Refusal>(e@),
            },
    {
        match shape {
            Shape::Bytes => Ok(Cell::Bytes(v)),
            Shape::U64 => {
                if v.len() != 8 {
                    return Err(DumpError::ScalarWidth);
                }
                assert(v@.subrange(0, 8) =~= v@);
                Ok(Cell::U64(get_le(&v, 0, 8)))
            },
            Shape::I64 => {
                if v.len() != 8 {
                    return Err(DumpError::ScalarWidth);
                }
                assert(v@.subrange(0, 8) =~= v@);
                Ok(Cell::I64(get_le(&v, 0, 8) as i64))
            },
        }
    }

    fn row(&mut self, shape: Shape) -> (r: Result<Row, DumpError>)
        ensures
            final(self).announced() == old(self).announced(),
            match r {
                Ok(row) => read_row(old(self).rest(), shape) == Ok::<
                    ((Seq<char>, CellView), Seq<u8>),
                    Refusal,
                >((row@, final(self).rest())),
                Err(e) => read_row(old(self).rest(), shape) == Err::<
                    ((Seq<char>, CellView), Seq<u8>),
                    Refusal,
                >(e@),
            },
    {
        reveal(read_row);
        let k: Vec<u8> = match self.field() {
            Ok(k) => k,
            Err(e) => {
                return Err(e);
            },
        };
        let v: Vec<u8> = match self.field() {
            Ok(v) => v,
            Err(e) => {
                return Err(e);
            },
        };
        let key: String = match text_from_utf8(k) {
            Some(s) => s,
            None => {
                return Err(DumpError::KeyNotText);
            },
        };
        match self.cell(v, shape) {
            Ok(value) => Ok(Row { key, value }),
            Err(e) => Err(e),
        }
    }

    fn rows(&mut self, shape: Shape, n: u64) -> (r: Result<Vec<Row>, DumpError>)
        ensures
            final(self).announced() == old(self).announced(),
            match r {
                Ok(rows) => read_rows(old(self).rest(), shape, n as nat) == Ok::<
                    (Seq<(Seq<char>, CellView)>, Seq<u8>),
                    Refusal,
                >((rows_view(rows@), final(self).rest())),
                Err(e) => read_rows(old(self).rest(), shape, n as nat) == Err::<
                    (Seq<(Seq<char>, CellView)>, Seq<u8>),
                    Refusal,
                >(e@),
            },
    {
        let mut rows: Vec<Row> = Vec::new();
        let ghost start = self.rest();
        let ghost whole = read_rows(start, shape, n as nat);
        let mut left: u64 = n;
        assert(rows_view(rows@) =~= Seq::empty());
        proof {
            joins_nothing(whole);
        }
        while left > 0
            invariant
                left <= n,
                self.announced() == old(self).announced(),
                whole == joined_rows(rows_view(rows@), read_rows(self.rest(), shape, left as nat)),
                old(self).rest() == start,
                whole == read_rows(start, shape, n as nat),
            decreases left,
        {
            let ghost was = rows_view(rows@);
            let ghost b = self.rest();
            match self.row(shape) {
                Ok(r) => {
                    rows.push(r);
                    left -= 1;
                    proof {
                        assert(rows_view(rows@) =~= was.push(r@));
                        joins_one(was, r@, read_rows(self.rest(), shape, left as nat));
                    }
                },
                Err(e) => {
                    return Err(e);
                },
            }
        }
        assert(rows_view(rows@) + Seq::empty() =~= rows_view(rows@));
        Ok(rows)
    }

    /// Reads the next table.
    pub fn next_table(&mut self) -> (r: Result<Table, DumpError>)
        ensures
            final(self).announced() == old(self).announced(),
            match r {
                Ok(t) => read_table(old(self).rest()) == Ok::<
                    ((Seq<char>, Seq<(Seq<char>, CellView)>), Seq<u8>),
                    Refusal,
                >((t@, final(self).rest())),
                Err(e) => read_table(old(self).rest()) == Err::<
                    ((Seq<char>, Seq<(Seq<char>, CellView)>), Seq<u8>),
                    Refusal,
                >(e@),
            },
    {
        reveal(read_table);
        let name: Vec<u8> = match self.field() {
            Ok(k) => k,
            Err(e) => {
                return Err(e);
            },
        };
        let name: String = match text_from_utf8(name) {
            Some(s) => s,
            None => {
                return Err(DumpError::NameNotText);
            },
        };
        let shape: Shape = match shape_of(name.as_str()) {
            Some(s) => s,
            None => {
                return Err(DumpError::UnknownTable(name));
            },
        };
        let n: u64 = match self.number() {
            Ok(n) => n,
            Err(e) => {
                return Err(e);
            },
        };
        match self.rows(shape, n) {
            Ok(rows) => Ok(Table { name, rows }),
            Err(e) => Err(e),
        }
    }
}

/// Rows that were read, and what reading on gives.
spec fn joined_rows(
    done: Seq<(Seq<char>, CellView)>,
    more: Result<(Seq<(Seq<char>, CellView)>, Seq<u8>), Refusal>,
) -> Result<(Seq<(Seq<char>, CellView)>, Seq<u8>), Refusal> {
    match more {
        Ok((rows, rest)) => Ok((done + rows, rest)),
        Err(e) => Err(e),
    }
}

proof fn joins_nothing(more: Result<(Seq<(Seq<char>, CellView)>, Seq<u8>), Refusal>)
    ensures
        joined_rows(Seq::empty(), more) == more,
{
    match more {
        Ok((rows, rest)) => {
            assert(Seq::<(Seq<char>, CellView)>::empty() + rows =~= rows);
        },
        Err(e) => {},
    }
}

proof fn joins_one(
    done: Seq<(Seq<char>, CellView)>,
    r: (Seq<char>, CellView),
    more: Result<(Seq<(Seq<char>, CellView)>, Seq<u8>), Refusal>,
)
    ensures
        joined_rows(done, joined_rows(seq![r], more)) == joined_rows(done.push(r), more),
{
    match more {
        Ok((rows, rest)) => {
            assert(done + (seq![r] + rows) =~= done.push(r) + rows);
        },
        Err(e) => {},
    }
}

/// Reads a whole dump: its tables, and how much was read.
pub fn restore_dump(bytes: Vec<u8>) -> (r: Result<(Vec<Table>, DumpStats), DumpError>)
    ensures
        match r {
            Ok((ts, stats)) => {
                &&& read_dump(bytes@) == Ok::<
                    Seq<(Seq<char>, Seq<(Seq<char>, CellView)>)>,
                    Refusal,
                >(tables_view(ts@))
                &&& stats.tables == ts@.len()
                &&& stats.rows == capped(row_count(tables_view(ts@)))
                &&& stats.bytes == 0
            },
            Err(e) => read_dump(bytes@) == Err::<
                Seq<(Seq<char>, Seq<(Seq<char>, CellView)>)>,
                Refusal,
            >(e@),
        },
{
    let mut d: DumpReader = match DumpReader::open(bytes) {
        Ok(d) => d,
        Err(e) => {
            return Err(e);
        },
    };
    let n: u32 = d.table_count();
    let mut left: u32 = n;
    let mut ts: Vec<Table> = Vec::new();
    let mut rows: u64 = 0;
    let ghost start = d.rest();
    let ghost whole = read_tables(start, n as nat);
    assert(tables_view(ts@) =~= Seq::empty());
    proof {
        match whole {
            Ok(all) => {
                assert(Seq::<(Seq<char>, Seq<(Seq<char>, CellView)>)>::empty() + all =~= all);
            },
            Err(e) => {},
        }
    }
    while left > 0
        invariant
            left <= n,
            n == ts@.len() + left,
            whole == joined_tables(tables_view(ts@), read_tables(d.rest(), left as nat)),
            whole == read_dump(bytes@),
            rows == capped(row_count(tables_view(ts@))),
        decreases left,
    {
        let ghost was = tables_view(ts@);
        match d.next_table() {
            Ok(t) => {
                rows = rows.saturating_add(t.rows.len() as u64);
                let ghost v = t@;
                ts.push(t);
                left -= 1;
                proof {
                    let now = tables_view(ts@);
                    assert(now =~= was.push(v));
                    assert(now.drop_last() =~= was);
                    match read_tables(d.rest(), left as nat) {
                        Ok(all) => {
                            assert(was + (seq![v] + all) =~= now + all);
                        },
                        Err(e) => {},
                    }
                }
            },
            Err(e) => {
                return Err(e);
            },
        }
    }
    assert(tables_view(ts@) + Seq::empty() =~= tables_view(ts@));
    let stats = DumpStats { tables: ts.len(), rows, bytes: 0 };
    Ok((ts, stats))
}

spec fn joined_tables(
    done: Seq<(Seq<char>, Seq<(Seq<char>, CellView)>)>,
    more: Result<Seq<(Seq<char>, Seq<(Seq<char>, CellView)>)>, Refusal>,
) -> Result<Seq<(Seq<char>, Seq<(Seq<char>, CellView)>)>, Refusal> {
    match more {
        Ok(all) => Ok(done + all),
        Err(e) => Err(e),
    }
}

/// Only bytes that begin with the mark and the version of a dump are read: another mark and
/// another version are told apart.
pub proof fn only_a_dump_is_read(b: Seq<u8>)
    ensures
        read_dump(b) is Ok ==> b.len() >= 16 && b.take(8) == magic() && le::le_value(
            b.subrange(8, 12),
        ) == DUMP_VERSION,
        b.len() >= 8 && b.take(8) != magic() ==> read_dump(b) == Err::<
            Seq<(Seq<char>, Seq<(Seq<char>, CellView)>)>,
            Refusal,
        >(Refusal::NotADump),
        b.len() >= 12 && b.take(8) == magic() && le::le_value(b.subrange(8, 12)) != DUMP_VERSION
            ==> read_dump(b) is Err && read_dump(b)->Err_0 is Version,
        b.len() < 8 ==> read_dump(b) is Err && read_dump(b)->Err_0 is Truncated,
{
    if b.len() >= 12 {
        assert(b.skip(8).take(4) =~= b.subrange(8, 12));
    }
}

/// The rows and the bytes of tables add up, table by table and row by row.
pub proof fn counts_add_up(
    ts: Seq<(Seq<char>, Seq<(Seq<char>, CellView)>)>,
    t: (Seq<char>, Seq<(Seq<char>, CellView)>),
    rows: Seq<(Seq<char>, CellView)>,
    r: (Seq<char>, CellView),
)
    ensures
        row_count(ts.push(t)) - row_count(ts) == t.1.len(),
        dump_size(ts.push(t)) - dump_size(ts) == rows_size(t.1),
        rows_size(rows.push(r)) - rows_size(rows) == utf8::encode_utf8(r.0).len() + cell_bytes(
            r.1,
        ).len(),
        row_count(Seq::empty()) == 0,
        dump_size(Seq::empty()) == 0,
        rows_size(Seq::empty()) == 0,
{
    assert(ts.push(t).drop_last() =~= ts);
    assert(rows.push(r).drop_last() =~= rows);
}

} // verus!
