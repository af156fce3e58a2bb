//! The retention pass: which windows of time leave the hot store, in which order,
//! and what is recorded of each.
//!
//! A pass seals the whole windows that lie between the watermark and the horizon,
//! moves the watermark behind each, and at the end to the horizon. A pass that finds
//! the watermark there does nothing.

use crate::archive::ColdArchive;
use crate::clock::{self, show};
use crate::events::prune::{self, MICROS_PER_DAY, Fate, Grounds, RowView};
use crate::numerals::{self, decimal};
use crate::retention::archiver::{self, kind_str, Archiver, SealOutcome};
use crate::state::environment;
use crate::text::{self, join, replace_char};
use vstd::prelude::*;

verus! {

/// What a pass did.
#[derive(Clone, Debug, PartialEq, Eq)]
pub struct RetentionRun {
    /// Windows that were sealed.
    pub windows: u64,
    /// Rows that were sealed.
    pub rows: u64,
    /// Bytes of archives that were written.
    pub bytes_out: u64,
    /// The watermark after the pass.
    pub watermark_us: Option<i64>,
}

/// The length of a window of so many days, and of at least one.
pub open spec fn window_len(days: u32) -> int {
    (if days == 0 {
        1int
    } else {
        days as int
    }) * MICROS_PER_DAY
}

/// The length of a window in microseconds, where it can be written.
pub fn window_micros(window_days: u32) -> (r: Result<i64, String>)
    ensures
        match r {
            Ok(w) => w == window_len(window_days) && w > 0,
            Err(e) => window_len(window_days) > i64::MAX && e@
                == "retention.window_days is absurdly large"@,
        },
{
    let days: i128 = if window_days == 0 {
        1
    } else {
        window_days as i128
    };
    let w: i128 = days * 86_400_000_000;
    if w > i64::MAX as i128 {
        return Err(String::from_str("retention.window_days is absurdly large"));
    }
    Ok(w as i64)
}

/// The level nearest to the given one that the parquet writer takes.
pub open spec fn level_near(level: i32) -> i32 {
    if level < 1 {
        1
    } else if level > 22 {
        22
    } else {
        level
    }
}

/// A compression level that the parquet writer takes.
pub fn parquet_level(level: i32) -> (r: i32)
    ensures
        r == level_near(level),
{
    if level < 1 {
        1
    } else if level > 22 {
        22
    } else {
        level
    }
}

/// A time rounded to a window boundary, towards the epoch.
pub open spec fn boundary(us: int, window_us: int) -> int {
    if us >= 0 {
        us / window_us * window_us
    } else {
        -((-us) / window_us * window_us)
    }
}

proof fn boundary_near(us: int, window_us: int)
    requires
        window_us > 0,
    ensures
        us >= 0 ==> us - window_us < boundary(us, window_us) <= us,
        us < 0 ==> us <= boundary(us, window_us) < us + window_us,
        us >= 0 ==> boundary(us, window_us) >= 0,
        us < 0 ==> boundary(us, window_us) <= 0,
{
    let u = if us >= 0 {
        us
    } else {
        -us
    };
    assert(u - window_us < u / window_us * window_us <= u && u / window_us * window_us >= 0)
        by (nonlinear_arith)
        requires
            u >= 0,
            window_us > 0,
    ;
}

/// A time rounded to a window boundary: down, for a time behind the epoch.
pub fn floor_to(us: i64, window_us: i64) -> (r: i64)
    requires
        window_us > 0,
    ensures
        r == boundary(us as int, window_us as int),
{
    proof {
        boundary_near(us as int, window_us as int);
    }
    if us >= 0 {
        let q: i64 = us / window_us;
        assert(q == us as int / window_us as int);
        (q * window_us) as i64
    } else {
        let u: i128 = -(us as i128);
        let w: i128 = window_us as i128;
        let q: i128 = u / w;
        assert(0 <= q <= u) by (nonlinear_arith)
            requires
                q == u as int / w as int,
                u >= 0,
                w > 0,
        ;
        assert(0 <= q * w <= u) by (nonlinear_arith)
            requires
                q == u as int / w as int,
                u >= 0,
                w > 0,
        ;
        (-(q * w)) as i64
    }
}

/// The horizon of a pass: the last window boundary that is old enough.
pub open spec fn horizon(now_us: i64, retention_days: u32, window_us: i64) -> int {
    boundary(now_us - retention_days * MICROS_PER_DAY, window_us as int)
}

/// Nothing lies between the watermark and the horizon.
pub open spec fn idle(
    now_us: i64,
    retention_days: u32,
    window_us: i64,
    watermark: Option<i64>,
) -> bool {
    watermark is Some && watermark->0 >= horizon(now_us, retention_days, window_us)
}

/// What a pass has done before it does anything.
pub open spec fn nothing_done(watermark: Option<i64>) -> RetentionRun {
    RetentionRun { windows: 0, rows: 0, bytes_out: 0, watermark_us: watermark }
}

/// What a pass did in the end: the watermark is at the horizon, or behind it where it
/// was there already.
pub open spec fn ended(pass: Pass) -> RetentionRun {
    RetentionRun {
        watermark_us: Some(
            match pass.run.watermark_us {
                Some(w) => if w > pass.horizon_us {
                    w
                } else {
                    pass.horizon_us
                },
                None => pass.horizon_us,
            },
        ),
        ..pass.run
    }
}

/// What a pass did once it has dealt with a window: only one that held rows counts, and
/// the watermark moves behind it either way.
pub open spec fn noted(run: RetentionRun, end_us: i64, rows: u64, bytes_out: u64) -> RetentionRun {
    if rows > 0 {
        RetentionRun {
            windows: (run.windows + 1) as u64,
            rows: (run.rows + rows) as u64,
            bytes_out: (run.bytes_out + bytes_out) as u64,
            watermark_us: Some(end_us),
        }
    } else {
        RetentionRun { watermark_us: Some(end_us), ..run }
    }
}

/// A pass under way.
pub struct Pass {
    pub horizon_us: i64,
    pub window_us: i64,
    pub run: RetentionRun,
}

/// What a pass starts with.
pub enum Start {
    /// Nothing has grown old enough since the last pass.
    Idle(RetentionRun),
    /// Look for windows up to the horizon.
    Search(Pass),
}

/// Starts a pass at `now_us`.
pub fn begin(now_us: i64, retention_days: u32, window_us: i64, watermark: Option<i64>) -> (r: Start)
    requires
        window_us > 0,
        now_us - retention_days * MICROS_PER_DAY >= i64::MIN,
    ensures
        ({
            let run = nothing_done(watermark);
            let h = horizon(now_us, retention_days, window_us);
            if idle(now_us, retention_days, window_us, watermark) {
                r == Start::Idle(run)
            } else {
                r == Start::Search(Pass { horizon_us: h as i64, window_us, run }) && i64::MIN <= h
                    <= i64::MAX
            }
        }),
{
    let days: i128 = retention_days as i128;
    let cutoff: i64 = (now_us as i128 - days * 86_400_000_000) as i64;
    let horizon_us = floor_to(cutoff, window_us);
    let run = RetentionRun { windows: 0, rows: 0, bytes_out: 0, watermark_us: watermark };
    let idle = match watermark {
        Some(w) => w >= horizon_us,
        None => false,
    };
    if idle {
        Start::Idle(run)
    } else {
        Start::Search(Pass { horizon_us, window_us, run })
    }
}

impl Pass {
    /// The window of a bucket: its first microsecond and the first one behind it.
    /// Buckets whose window cannot be written are passed over.
    pub fn window(&self, bucket: i64) -> (r: Option<(i64, i64)>)
        requires
            self.window_us > 0,
        ensures
            match r {
                Some((start, end)) => start == bucket * self.window_us && end == (bucket + 1)
                    * self.window_us,
                None => bucket * self.window_us < i64::MIN || (bucket + 1) * self.window_us
                    > i64::MAX,
            },
    {
        let w: i128 = self.window_us as i128;
        let b: i128 = bucket as i128;
        assert(-0x8000_0000_0000_0000 * 0x7fff_ffff_ffff_ffff <= b * w <= 0x7fff_ffff_ffff_ffff
            * 0x7fff_ffff_ffff_ffff && -0x8000_0000_0000_0000 * 0x7fff_ffff_ffff_ffff <= (b + 1) * w
            <= 0x8000_0000_0000_0000 * 0x7fff_ffff_ffff_ffff && (b + 1) * w > b * w)
            by (nonlinear_arith)
            requires
                -0x8000_0000_0000_0000 <= b <= 0x7fff_ffff_ffff_ffff,
                0 < w <= 0x7fff_ffff_ffff_ffff,
        ;
        let start: i128 = b * w;
        let end: i128 = (b + 1) * w;
        if start < i64::MIN as i128 || end > i64::MAX as i128 {
            return None;
        }
        Some((start as i64, end as i64))
    }

    /// Takes note of a window that was dealt with. Only one that held rows counts; the
    /// watermark moves behind it either way.
    pub fn sealed(&mut self, end_us: i64, rows: u64, bytes_out: u64)
        requires
            old(self).run.windows < u64::MAX,
            old(self).run.rows + rows <= u64::MAX,
            old(self).run.bytes_out + bytes_out <= u64::MAX,
        ensures
            final(self).horizon_us == old(self).horizon_us,
            final(self).window_us == old(self).window_us,
            final(self).run == noted(old(self).run, end_us, rows, bytes_out),
    {
        if rows > 0 {
            self.run.windows = self.run.windows + 1;
            self.run.rows = self.run.rows + rows;
            self.run.bytes_out = self.run.bytes_out + bytes_out;
        }
        self.run.watermark_us = Some(end_us);
    }

    /// Ends the pass.
    pub fn finish(self) -> (r: RetentionRun)
        ensures
            r == ended(self),
    {
        let end: i64 = match self.run.watermark_us {
            Some(w) => if w > self.horizon_us {
                w
            } else {
                self.horizon_us
            },
            None => self.horizon_us,
        };
        RetentionRun {
            windows: self.run.windows,
            rows: self.run.rows,
            bytes_out: self.run.bytes_out,
            watermark_us: Some(end),
        }
    }
}

/// The window of a time between the watermark and the horizon, the boundaries with
/// the numbers `a` and `b`, lies between them whole. So a pass seals no part of a window that an
/// earlier pass has sealed, and none that is not old enough.
pub proof fn windows_lie_between(
    us: int,
    bucket: int,
    window_us: int,
    a: int,
    b: int,
)
    requires
        window_us > 0,
        0 <= a * window_us <= us < b * window_us,
        bucket == us / window_us,
    ensures
        a * window_us <= bucket * window_us <= us < (bucket + 1) * window_us <= b * window_us,
{
    assert(bucket * window_us <= us < (bucket + 1) * window_us) by (nonlinear_arith)
        requires
            bucket == us / window_us,
            window_us > 0,
    ;
    assert(bucket >= a) by (nonlinear_arith)
        requires
            (bucket + 1) * window_us > a * window_us,
            window_us > 0,
    ;
    assert(bucket < b) by (nonlinear_arith)
        requires
            bucket * window_us < b * window_us,
            window_us > 0,
    ;
    assert(a * window_us <= bucket * window_us && (bucket + 1) * window_us <= b * window_us)
        by (nonlinear_arith)
        requires
            a <= bucket,
            bucket + 1 <= b,
            window_us > 0,
    ;
}

/// A window that a pass deals with: a time in it, and what was sealed of it.
pub struct Dealt {
    pub us: i64,
    pub rows: u64,
    pub bytes_out: u64,
}

/// Where the window of a time ends.
pub open spec fn window_end(us: i64, window_us: i64) -> int {
    (us as int / window_us as int + 1) * window_us
}

/// What a pass did that has dealt with windows one after the other.
pub open spec fn dealt_with(run: RetentionRun, window_us: i64, list: Seq<Dealt>) -> RetentionRun
    decreases list.len(),
{
    if list.len() == 0 {
        run
    } else {
        let d = list.last();
        noted(
            dealt_with(run, window_us, list.drop_last()),
            window_end(d.us, window_us) as i64,
            d.rows,
            d.bytes_out,
        )
    }
}

/// What a whole pass does that finds the given windows. One that has nothing to do looks
/// for none.
pub open spec fn whole_pass(
    now_us: i64,
    retention_days: u32,
    window_us: i64,
    watermark: Option<i64>,
    list: Seq<Dealt>,
) -> RetentionRun {
    if idle(now_us, retention_days, window_us, watermark) {
        nothing_done(watermark)
    } else {
        ended(
            Pass {
                horizon_us: horizon(now_us, retention_days, window_us) as i64,
                window_us,
                run: dealt_with(nothing_done(watermark), window_us, list),
            },
        )
    }
}

/// The watermark that is stored behind windows, each of which moves it.
pub open spec fn stored_behind(watermark: Option<i64>, window_us: i64, list: Seq<Dealt>) -> Option<i64>
    decreases list.len(),
{
    if list.len() == 0 {
        watermark
    } else {
        let before = stored_behind(watermark, window_us, list.drop_last());
        Some(environment::moved(before, window_end(list.last().us, window_us) as i64))
    }
}

proof fn windows_end_at_the_horizon(us: i64, window_us: i64, cutoff: int)
    requires
        window_us > 0,
        0 <= us < boundary(cutoff, window_us as int),
    ensures
        0 <= window_end(us, window_us) <= boundary(cutoff, window_us as int),
{
    boundary_near(cutoff, window_us as int);
    let b = cutoff / window_us as int;
    assert(0int * window_us == 0);
    windows_lie_between(us as int, us as int / window_us as int, window_us as int, 0, b);
}

proof fn watermarks_stay_below(
    watermark: Option<i64>,
    window_us: i64,
    list: Seq<Dealt>,
    cutoff: int,
)
    requires
        window_us > 0,
        boundary(cutoff, window_us as int) <= i64::MAX,
        watermark is Some ==> watermark->0 < boundary(cutoff, window_us as int),
        forall|i: int|
            0 <= i < list.len() ==> 0 <= (#[trigger] list[i]).us < boundary(
                cutoff,
                window_us as int,
            ),
    ensures
        ({
            let h = boundary(cutoff, window_us as int);
            let run = dealt_with(nothing_done(watermark), window_us, list).watermark_us;
            let kept = stored_behind(watermark, window_us, list);
            &&& run is Some ==> run->0 <= h
            &&& kept is Some ==> kept->0 <= h
        }),
    decreases list.len(),
{
    if list.len() > 0 {
        watermarks_stay_below(watermark, window_us, list.drop_last(), cutoff);
        windows_end_at_the_horizon(list.last().us, window_us, cutoff);
    }
}

/// A pass leaves the watermark at the horizon, or where it was if that is later, and that
/// is what is stored. A second pass at the same time then deals with no window, whatever it
/// could find, and leaves the watermark where it is. The horizon lies behind the epoch, and
/// the windows are those of times between the epoch and the horizon.
pub proof fn a_second_pass_does_nothing(
    now_us: i64,
    retention_days: u32,
    window_us: i64,
    watermark: Option<i64>,
    first: Seq<Dealt>,
    second: Seq<Dealt>,
)
    requires
        window_us > 0,
        0 <= horizon(now_us, retention_days, window_us) <= i64::MAX,
        forall|i: int|
            0 <= i < first.len() ==> 0 <= (#[trigger] first[i]).us < horizon(
                now_us,
                retention_days,
                window_us,
            ),
    ensures
        ({
            let h = horizon(now_us, retention_days, window_us) as i64;
            let once = whole_pass(now_us, retention_days, window_us, watermark, first);
            let twice = whole_pass(now_us, retention_days, window_us, once.watermark_us, second);
            let idle = idle(now_us, retention_days, window_us, watermark);
            let stored = if idle {
                watermark
            } else {
                Some(environment::moved(stored_behind(watermark, window_us, first), h))
            };
            &&& once.watermark_us == Some(environment::moved(watermark, h))
            &&& stored == once.watermark_us
            &&& twice == nothing_done(once.watermark_us)
        }),
{
    let cutoff = now_us - retention_days * MICROS_PER_DAY;
    if !idle(now_us, retention_days, window_us, watermark) {
        watermarks_stay_below(watermark, window_us, first, cutoff);
    }
}

/// The watermark never moves back, neither behind a window nor at the end.
pub proof fn the_watermark_only_grows(pass: Pass)
    ensures
        ended(pass).watermark_us is Some,
        pass.run.watermark_us is Some ==> ended(pass).watermark_us->0 >= pass.run.watermark_us->0,
{
}

/// A time as a literal of a query.
pub open spec fn literal(us: i64) -> Seq<char> {
    "TIMESTAMP '"@ + clock::shown(us, clock::literal_form()) + "'"@
}

/// A time as a literal of a query, such as `TIMESTAMP '2026-04-08T00:00:00.000000'`.
pub fn ts_literal(us: i64) -> (r: String)
    ensures
        r@ == literal(us),
{
    let mut r = String::from_str("TIMESTAMP '");
    r.append(show(us, "%Y-%m-%dT%H:%M:%S%.6f").as_str());
    r.append("'");
    r
}

/// The name of a window: the date on which it begins. No window that begins on another
/// day has it.
pub fn window_id(start_us: i64) -> (r: String)
    ensures
        r@ == clock::shown(start_us, clock::date_form()),
        clock::utc_text(start_us, clock::date_form()) is Some ==> forall|other: i64|
            #![trigger clock::utc_text(other, clock::date_form())]
            clock::utc_text(other, clock::date_form()) == Some(r@) ==> clock::day_of(other) == clock::day_of(start_us),
{
    show(start_us, "%Y-%m-%d")
}

/// The query for the buckets that hold rows between the watermark and the horizon.
pub open spec fn bucket_query(watermark: Option<i64>, horizon_us: i64, window_us: i64) -> Seq<char> {
    "SELECT DISTINCT CAST(event_ts AS BIGINT) / "@ + numerals::numeral(window_us as nat)
        + " AS bucket FROM events WHERE "@ + match watermark {
        Some(w) => "event_ts >= "@ + literal(w) + " AND "@,
        None => Seq::empty(),
    } + "event_ts < "@ + literal(horizon_us) + " ORDER BY bucket"@
}

/// The query for the buckets that hold rows between the watermark and the horizon.
pub fn bucket_sql(watermark: Option<i64>, horizon_us: i64, window_us: i64) -> (r: String)
    requires
        window_us > 0,
    ensures
        r@ == bucket_query(watermark, horizon_us, window_us),
{
    let mut r = String::from_str("SELECT DISTINCT CAST(event_ts AS BIGINT) / ");
    r.append(decimal(window_us as u64).as_str());
    r.append(" AS bucket FROM events WHERE ");
    let ghost front = r@;
    let mut lower = String::new();
    if let Some(w) = watermark {
        lower.append("event_ts >= ");
        lower.append(ts_literal(w).as_str());
        lower.append(" AND ");
        assert(lower@ =~= "event_ts >= "@ + literal(w) + " AND "@);
    } else {
        assert(lower@ =~= Seq::<char>::empty());
    }
    r.append(lower.as_str());
    r.append("event_ts < ");
    r.append(ts_literal(horizon_us).as_str());
    r.append(" ORDER BY bucket");
    r
}

/// A text as a literal of a query: in quotes, with each quote in it doubled.
pub open spec fn sql_text(s: Seq<char>) -> Seq<char> {
    "'"@ + text::replaced(s, '\'', "''"@) + "'"@
}

/// Texts as literals of a query.
pub open spec fn sql_texts(v: Seq<Seq<char>>) -> Seq<Seq<char>> {
    v.map_values(|s: Seq<char>| sql_text(s))
}

/// Texts as literals of a query.
pub fn sql_list(v: &[String]) -> (r: Vec<String>)
    ensures
        text::texts(r@) == sql_texts(text::texts(v@)),
{
    let mut r: Vec<String> = Vec::new();
    let ghost all = sql_texts(text::texts(v@));
    let mut i: usize = 0;
    assert(text::texts(r@) =~= all.take(0));
    while i < v.len()
        invariant
            i <= v.len(),
            all == sql_texts(text::texts(v@)),
            text::texts(r@) == all.take(i as int),
        decreases v.len() - i,
    {
        let ghost was = text::texts(r@);
        let mut q = String::from_str("'");
        q.append(replace_char(v[i].as_str(), '\'', "''").as_str());
        q.append("'");
        assert(q@ == all[i as int]);
        r.push(q);
        assert(text::texts(r@) =~= was.push(all[i as int]));
        i += 1;
        assert(all.take(i as int) =~= all.take(i - 1).push(all[i - 1]));
    }
    assert(all.take(i as int) =~= all);
    r
}

/// What a quoted text holds whose opening quote has been read, and what stands behind it: two
/// quotes stand for one, a single one ends it.
pub open spec fn unquoted(t: Seq<char>, q: char) -> Option<(Seq<char>, Seq<char>)>
    decreases t.len(),
{
    if t.len() == 0 {
        None
    } else if t[0] != q {
        match unquoted(t.skip(1), q) {
            Some((s, rest)) => Some((seq![t[0]] + s, rest)),
            None => None,
        }
    } else if t.len() > 1 && t[1] == q {
        match unquoted(t.skip(2), q) {
            Some((s, rest)) => Some((seq![q] + s, rest)),
            None => None,
        }
    } else {
        Some((Seq::empty(), t.skip(1)))
    }
}

/// What stands behind a quoted text is shorter than it.
pub proof fn unquoted_shortens(t: Seq<char>, q: char)
    ensures
        unquoted(t, q) matches Some((_, rest)) ==> rest.len() < t.len(),
    decreases t.len(),
{
    if t.len() > 0 {
        if t[0] != q {
            unquoted_shortens(t.skip(1), q);
        } else if t.len() > 1 && t[1] == q {
            unquoted_shortens(t.skip(2), q);
        }
    }
}

/// The texts that a list of literals holds, as a query reads it.
pub open spec fn literals(t: Seq<char>) -> Option<Seq<Seq<char>>>
    decreases t.len(),
{
    proof {
        unquoted_shortens(t.skip(1), '\'');
    }
    if t.len() == 0 || t[0] != '\'' {
        None
    } else {
        match unquoted(t.skip(1), '\'') {
            None => None,
            Some((s, rest)) => if rest.len() == 0 {
                Some(seq![s])
            } else if rest.len() > 2 && rest[0] == ',' && rest[1] == ' ' {
                match literals(rest.skip(2)) {
                    Some(v) => Some(seq![s] + v),
                    None => None,
                }
            } else {
                None
            },
        }
    }
}

/// A text with its quotes doubled, between quotes, reads as the text, whatever it holds.
pub proof fn doubled_quotes_read_back(s: Seq<char>, q: char, rest: Seq<char>)
    requires
        rest.len() > 0 ==> rest[0] != q,
    ensures
        unquoted(text::replaced(s, q, seq![q, q]) + seq![q] + rest, q) == Some((s, rest)),
    decreases s.len(),
{
    let t = text::replaced(s, q, seq![q, q]) + seq![q] + rest;
    if s.len() == 0 {
        assert(t =~= seq![q] + rest);
        assert(t.skip(1) =~= rest);
        assert(s =~= Seq::empty());
    } else {
        let one = seq![s[0]];
        let more = s.skip(1);
        assert(s =~= one + more);
        text::replaced_apart(one, more, q, seq![q, q]);
        doubled_quotes_read_back(more, q, rest);
        let u = text::replaced(more, q, seq![q, q]) + seq![q] + rest;
        assert(s =~= seq![s[0]] + more);
        if s[0] == q {
            assert(text::replaced(one, q, seq![q, q]) == seq![q, q]);
            assert(t =~= seq![q, q] + u);
            assert(t.skip(2) =~= u);
        } else {
            assert(text::replaced(one, q, seq![q, q]) == one);
            assert(t =~= one + u);
            assert(t.skip(1) =~= u);
        }
    }
}

/// A list of texts, written as literals with a comma between each two, reads as that list:
/// as many literals as there are texts, each of them the text at its place.
pub proof fn a_list_reads_back(v: Seq<Seq<char>>)
    requires
        v.len() > 0,
    ensures
        literals(text::joined(sql_texts(v), ", "@)) == Some(v),
    decreases v.len(),
{
    let parts = sql_texts(v);
    let first = v[0];
    reveal_strlit("'");
    reveal_strlit("''");
    reveal_strlit(", ");
    assert("'"@ =~= seq!['\'']);
    assert("''"@ =~= seq!['\'', '\'']);
    assert(", "@ =~= seq![',', ' ']);
    let body = text::replaced(first, '\'', seq!['\'', '\'']);
    assert(parts[0] == seq!['\''] + body + seq!['\'']);
    let t = text::joined(parts, ", "@);
    if v.len() == 1 {
        doubled_quotes_read_back(first, '\'', Seq::empty());
        assert(t.skip(1) =~= body + seq!['\''] + Seq::<char>::empty());
        assert(seq![first] =~= v);
    } else {
        let more = v.skip(1);
        a_list_reads_back(more);
        let head = seq![parts[0]];
        let tail = sql_texts(more);
        assert(parts =~= head + tail);
        text::joined_apart(head, tail, ", "@);
        let u = text::joined(tail, ", "@);
        let rest = seq![',', ' '] + u;
        assert(u.len() > 0);
        doubled_quotes_read_back(first, '\'', rest);
        assert(text::joined(head, ", "@) == parts[0]);
        assert(t =~= parts[0] + seq![',', ' '] + u);
        assert(t.skip(1) =~= body + seq!['\''] + rest);
        assert(rest.skip(2) =~= u);
        assert(seq![first] + more =~= v);
    }
}

/// The query for the rows of a window, without the sources that are never sealed.
pub open spec fn seal_query(start_us: i64, end_us: i64, excluded: Seq<Seq<char>>) -> Seq<char> {
    "SELECT event_ts, host, service, source, environment, severity, log_type, message, fields FROM events WHERE event_ts >= "@
        + literal(start_us) + " AND event_ts < "@ + literal(end_us) + if excluded.len() == 0 {
        Seq::empty()
    } else {
        " AND (source IS NULL OR source NOT IN ("@ + text::joined(sql_texts(excluded), ", "@) + "))"@
    }
}

/// The rows that the query asks for: those of the window whose source is none of the
/// excluded ones, or is not known.
pub open spec fn selected(row: RowView, start_us: i64, end_us: i64, excluded: Seq<Seq<char>>) -> bool {
    &&& row.ts_us is Some
    &&& start_us <= row.ts_us->0 < end_us
    &&& row.source is Some ==> !excluded.contains(row.source->0)
}

/// A row that a rebuild drops for being sealed is one that the seal of its window asked
/// for, where the sources that are never sealed have classes.
pub proof fn what_is_dropped_as_sealed_was_selected(
    g: Grounds,
    row: RowView,
    excluded: Seq<Seq<char>>,
)
    requires
        prune::fate(g, row) == Fate::Sealed,
        forall|s: Seq<char>| #[trigger]
            excluded.contains(s) ==> prune::class_of(g.classes, s) is Some,
    ensures
        exists|i: int|
            0 <= i < g.archives.len() && selected(
                row,
                (#[trigger] g.archives[i]).start_us,
                g.archives[i].end_us,
                excluded,
            ),
{
    let us = row.ts_us->0;
    let i = choose|i: int| 0 <= i < g.archives.len() && (#[trigger] g.archives[i]).holds(us);
    assert(selected(row, g.archives[i].start_us, g.archives[i].end_us, excluded));
}

/// The query for the rows of a window, without the sources that are never sealed.
pub fn seal_sql(start_us: i64, end_us: i64, excluded: &[String]) -> (r: String)
    ensures
        r@ == seal_query(start_us, end_us, text::texts(excluded@)),
{
    let mut r = String::from_str(
        "SELECT event_ts, host, service, source, environment, severity, log_type, message, fields FROM events WHERE event_ts >= ",
    );
    r.append(ts_literal(start_us).as_str());
    r.append(" AND event_ts < ");
    r.append(ts_literal(end_us).as_str());
    let mut without = String::new();
    if excluded.len() > 0 {
        without.append(" AND (source IS NULL OR source NOT IN (");
        without.append(join(&sql_list(excluded), ", ").as_str());
        without.append("))");
        assert(without@ =~= " AND (source IS NULL OR source NOT IN ("@ + text::joined(
            sql_texts(text::texts(excluded@)),
            ", "@,
        ) + "))"@);
    } else {
        assert(without@ =~= Seq::<char>::empty());
    }
    r.append(without.as_str());
    r
}

/// The file into which the rows of a window are staged.
pub fn staging_name(id: &str) -> (r: String)
    ensures
        r@ == ".staging-"@ + id@ + ".parquet"@,
{
    let mut r = String::from_str(".staging-");
    r.append(id);
    r.append(".parquet");
    r
}

/// The file of an archive.
pub fn archive_name(id: &str, archiver: &Archiver) -> (r: String)
    ensures
        r@ == id@ + "."@ + Archiver::ending(archiver.sort()),
{
    let mut r = String::from_str(id);
    r.append(".");
    r.append(archiver.extension());
    r
}

/// The manifest entry of a window that was sealed. The hot store still holds its
/// rows, and no hold is on it.
pub fn sealed_archive(
    archiver: &Archiver,
    start_us: i64,
    end_us: i64,
    rows: u64,
    bytes_in: u64,
    outcome: SealOutcome,
    now_us: i64,
) -> (r: ColdArchive)
    ensures
        r.id@ == clock::shown(start_us, clock::date_form()),
        r.kind@ == archiver::kind_name(archiver.sort()),
        r.file@ == r.id@ + "."@ + Archiver::ending(archiver.sort()),
        r.start_us == start_us,
        r.end_us == end_us,
        r.rows == rows,
        r.bytes_in == bytes_in,
        r.bytes_out == outcome.bytes_out,
        r.checksum == outcome.checksum,
        !r.hot_pruned,
        r.sealed_at_us == now_us,
        !r.legal_hold,
{
    let id = window_id(start_us);
    let file = archive_name(id.as_str(), archiver);
    ColdArchive {
        id,
        kind: String::from_str(kind_str(archiver.kind())),
        file,
        start_us,
        end_us,
        rows,
        bytes_in,
        bytes_out: outcome.bytes_out,
        checksum: outcome.checksum,
        hot_pruned: false,
        sealed_at_us: now_us,
        legal_hold: false,
    }
}

/// How a window is sealed, step by step.
#[derive(Clone, Copy, Debug, PartialEq, Eq, Structural)]
pub enum SealStep {
    /// Stream the rows of the window into the staging file.
    Stage,
    /// Remove the staging file, whose rows are not to be archived: there are none, or the
    /// scan broke off.
    Discard { broke_off: bool },
    /// Make an archive of the staging file.
    Archive { rows: u64 },
    /// Write the manifest entry.
    Record { rows: u64 },
    /// Upload the archive to the object store.
    Upload { rows: u64 },
    /// Remove the local copy.
    DropLocal { rows: u64 },
    /// The window is sealed, or was empty.
    Done { rows: u64 },
    /// It could not be sealed.
    Failed,
}

/// What came of a step.
#[derive(Clone, Copy, Debug, PartialEq, Eq, Structural)]
pub enum SealReport {
    /// So many rows were staged, and the scan went to its end or broke off.
    Staged { rows: u64, broke_off: bool },
    Worked,
    Failed,
}

/// The step that follows. A file that cannot be removed holds nothing up.
pub open spec fn sealing(step: SealStep, report: SealReport, object_store: bool) -> SealStep {
    match (step, report) {
        (SealStep::Stage, SealReport::Staged { rows, broke_off }) => if broke_off || rows == 0 {
            SealStep::Discard { broke_off }
        } else {
            SealStep::Archive { rows }
        },
        (SealStep::Discard { broke_off }, _) => if broke_off {
            SealStep::Failed
        } else {
            SealStep::Done { rows: 0 }
        },
        (SealStep::Archive { rows }, SealReport::Worked) => SealStep::Record { rows },
        (SealStep::Record { rows }, SealReport::Worked) => if object_store {
            SealStep::Upload { rows }
        } else {
            SealStep::Done { rows }
        },
        (SealStep::Upload { rows }, SealReport::Worked) => SealStep::DropLocal { rows },
        (SealStep::DropLocal { rows }, _) => SealStep::Done { rows },
        (SealStep::Done { rows }, _) => SealStep::Done { rows },
        _ => SealStep::Failed,
    }
}

/// The step that follows in sealing a window.
pub fn after_seal(step: SealStep, report: SealReport, object_store: bool) -> (r: SealStep)
    ensures
        r == sealing(step, report, object_store),
{
    match (step, report) {
        (SealStep::Stage, SealReport::Staged { rows, broke_off }) => {
            if broke_off || rows == 0 {
                SealStep::Discard { broke_off }
            } else {
                SealStep::Archive { rows }
            }
        },
        (SealStep::Discard { broke_off }, _) => {
            if broke_off {
                SealStep::Failed
            } else {
                SealStep::Done { rows: 0 }
            }
        },
        (SealStep::Archive { rows }, SealReport::Worked) => SealStep::Record { rows },
        (SealStep::Record { rows }, SealReport::Worked) => {
            if object_store {
                SealStep::Upload { rows }
            } else {
                SealStep::Done { rows }
            }
        },
        (SealStep::Upload { rows }, SealReport::Worked) => SealStep::DropLocal { rows },
        (SealStep::DropLocal { rows }, _) => SealStep::Done { rows },
        (SealStep::Done { rows }, _) => SealStep::Done { rows },
        _ => SealStep::Failed,
    }
}

/// Only rows of a scan that went to its end are archived, only what is archived is
/// recorded, only what is recorded is uploaded, and only what is uploaded loses its local
/// copy.
pub proof fn nothing_is_dropped_before_it_is_safe(
    step: SealStep,
    report: SealReport,
    object_store: bool,
)
    requires
        sealing(step, report, object_store) != step,
    ensures
        match sealing(step, report, object_store) {
            SealStep::Archive { rows } => step is Stage && report == (SealReport::Staged {
                rows,
                broke_off: false,
            }) && rows > 0,
            SealStep::Record { rows } => step == (SealStep::Archive { rows }) && report
                == SealReport::Worked,
            SealStep::Upload { rows } => step == (SealStep::Record { rows }) && report
                == SealReport::Worked,
            SealStep::DropLocal { rows } => step == (SealStep::Upload { rows }) && report
                == SealReport::Worked,
            SealStep::Done { rows } => rows > 0 ==> step == (SealStep::DropLocal { rows }) || (step
                == (SealStep::Record { rows }) && report == SealReport::Worked && !object_store),
            _ => true,
        },
{
}

/// Windows of at least a day that begin at different boundaries begin on different
/// days, so that their dates tell them apart.
pub proof fn windows_begin_on_different_days(a: i64, b: i64, window_us: i64, j: int, k: int)
    requires
        window_us >= MICROS_PER_DAY,
        a == j * window_us,
        b == k * window_us,
        a != b,
    ensures
        clock::day_of(a) != clock::day_of(b),
{
    assert(j != k);
    assert(a - b >= window_us || b - a >= window_us) by (nonlinear_arith)
        requires
            a == j * window_us,
            b == k * window_us,
            j != k,
            window_us > 0,
    ;
}

/// A window lasts so many days, and one at least.
pub proof fn a_window_lasts_whole_days(days: u32)
    ensures
        days >= 1 ==> window_len(days) == days * (24 * 3600 * 1_000_000),
        window_len(0) == window_len(1),
{
}

/// A boundary is a multiple of the window's length, it is the last one that is not behind a
/// time after the epoch, and times that lie in one window have one boundary.
pub proof fn a_boundary_is_the_last_multiple(us: int, window_us: int)
    requires
        window_us > 0,
        us >= 0,
    ensures
        boundary(us, window_us) % window_us == 0,
        boundary(us, window_us) <= us < boundary(us, window_us) + window_us,
        boundary(boundary(us, window_us), window_us) == boundary(us, window_us),
        boundary(-us, window_us) == -boundary(us, window_us),
{
    boundary_near(us, window_us);
    let b = boundary(us, window_us);
    let k = us / window_us;
    assert(b == k * window_us);
    assert((k * window_us) % window_us == 0) by (nonlinear_arith)
        requires
            window_us > 0,
    ;
    assert((k * window_us) / window_us == k) by (nonlinear_arith)
        requires
            window_us > 0,
    ;
}

/// What is sealed is older than the retention: the horizon does not lie behind the moment so
/// many days ago, and less than a window before it.
pub proof fn the_horizon_keeps_the_retention(now_us: i64, retention_days: u32, window_us: i64)
    requires
        window_us > 0,
        now_us >= retention_days * (24 * 3600 * 1_000_000),
    ensures
        ({
            let h = horizon(now_us, retention_days, window_us);
            let cutoff = now_us - retention_days * (24 * 3600 * 1_000_000);
            &&& 0 <= h <= cutoff < h + window_us
            &&& h % (window_us as int) == 0
        }),
{
    let cutoff = now_us - retention_days * MICROS_PER_DAY;
    boundary_near(cutoff, window_us as int);
    a_boundary_is_the_last_multiple(cutoff, window_us as int);
}

/// A pass has nothing to do exactly where the watermark is at the horizon or behind it.
pub proof fn a_pass_is_idle_behind_the_horizon(
    now_us: i64,
    retention_days: u32,
    window_us: i64,
    watermark: Option<i64>,
)
    ensures
        watermark is None ==> !idle(now_us, retention_days, window_us, watermark),
        watermark matches Some(w) ==> (idle(now_us, retention_days, window_us, watermark) <==> w
            >= horizon(now_us, retention_days, window_us)),
{
}

/// A window counts where it held rows, with its rows and bytes, and the watermark moves
/// behind it in any case.
pub proof fn a_window_with_rows_counts(run: RetentionRun, end_us: i64, rows: u64, bytes_out: u64)
    requires
        run.windows < u64::MAX,
        run.rows + rows <= u64::MAX,
        run.bytes_out + bytes_out <= u64::MAX,
    ensures
        ({
            let after = noted(run, end_us, rows, bytes_out);
            &&& after.watermark_us == Some(end_us)
            &&& after.rows - run.rows == rows
            &&& rows > 0 ==> after.windows - run.windows == 1 && after.bytes_out - run.bytes_out
                == bytes_out
            &&& rows == 0 ==> after.windows == run.windows && after.bytes_out == run.bytes_out
        }),
{
}

/// A pass ends with the watermark at the horizon or, where that is later, where it was, and
/// its counts as they were.
pub proof fn a_pass_ends_at_the_horizon(pass: Pass)
    ensures
        ended(pass).watermark_us is Some,
        ended(pass).watermark_us->0 >= pass.horizon_us,
        ended(pass).watermark_us == Some(pass.horizon_us) || ended(pass).watermark_us
            == pass.run.watermark_us,
        (ended(pass).windows, ended(pass).rows, ended(pass).bytes_out) == (
            pass.run.windows,
            pass.run.rows,
            pass.run.bytes_out,
        ),
{
}

/// The query for a window asks for the rows from its first moment up to, not at, its end,
/// and leaves out the excluded sources and no others: the list that it compares the source
/// with reads as those, and rows without a source are asked for.
pub proof fn the_query_of_a_window_leaves_out_the_excluded(
    start_us: i64,
    end_us: i64,
    excluded: Seq<Seq<char>>,
)
    ensures
        ({
            let head =
                "SELECT event_ts, host, service, source, environment, severity, log_type, message, fields FROM events WHERE event_ts >= "@
                + ("TIMESTAMP '"@ + clock::shown(start_us, clock::literal_form()) + "'"@)
                + " AND event_ts < "@ + ("TIMESTAMP '"@ + clock::shown(
                end_us,
                clock::literal_form(),
            ) + "'"@);
            &&& excluded.len() == 0 ==> seal_query(start_us, end_us, excluded) == head
            &&& excluded.len() > 0 ==> exists|list: Seq<char>|
                {
                    &&& seal_query(start_us, end_us, excluded) == #[trigger] (head
                        + " AND (source IS NULL OR source NOT IN ("@ + list + "))"@)
                    &&& literals(list) == Some(excluded)
                }
        }),
{
    let head =
        "SELECT event_ts, host, service, source, environment, severity, log_type, message, fields FROM events WHERE event_ts >= "@
        + literal(start_us) + " AND event_ts < "@ + literal(end_us);
    if excluded.len() == 0 {
        assert(seal_query(start_us, end_us, excluded) =~= head);
    } else {
        let list = text::joined(sql_texts(excluded), ", "@);
        a_list_reads_back(excluded);
        assert(seal_query(start_us, end_us, excluded) =~= head
            + " AND (source IS NULL OR source NOT IN ("@ + list + "))"@);
    }
}

/// The query for the buckets asks for the rows from the watermark on, where there is one,
/// up to, not at, the horizon.
pub proof fn the_query_of_the_buckets_is_bounded(
    watermark: Option<i64>,
    horizon_us: i64,
    window_us: i64,
)
    ensures
        text::ends(
            bucket_query(watermark, horizon_us, window_us),
            "event_ts < "@ + ("TIMESTAMP '"@ + clock::shown(horizon_us, clock::literal_form())
                + "'"@) + " ORDER BY bucket"@,
        ),
        watermark matches Some(w) ==> text::ends(
            bucket_query(watermark, horizon_us, window_us),
            "event_ts >= "@ + ("TIMESTAMP '"@ + clock::shown(w, clock::literal_form()) + "'"@)
                + " AND "@ + ("event_ts < "@ + ("TIMESTAMP '"@ + clock::shown(
                horizon_us,
                clock::literal_form(),
            ) + "'"@) + " ORDER BY bucket"@),
        ),
        text::starts(
            bucket_query(watermark, horizon_us, window_us),
            "SELECT DISTINCT CAST(event_ts AS BIGINT) / "@ + numerals::numeral(window_us as nat),
        ),
{
    let q = bucket_query(watermark, horizon_us, window_us);
    let front = "SELECT DISTINCT CAST(event_ts AS BIGINT) / "@ + numerals::numeral(
        window_us as nat,
    );
    let mid = " AS bucket FROM events WHERE "@;
    let lower = match watermark {
        Some(w) => "event_ts >= "@ + literal(w) + " AND "@,
        None => Seq::empty(),
    };
    let tail = "event_ts < "@ + literal(horizon_us) + " ORDER BY bucket"@;
    assert(q =~= (front + mid + lower) + tail);
    text::starts_and_ends_are_parts(q, tail);
    assert(q =~= front + (mid + lower + tail));
    text::starts_and_ends_are_parts(q, front);
    if let Some(w) = watermark {
        assert(q =~= (front + mid) + (lower + tail));
        text::starts_and_ends_are_parts(q, lower + tail);
    }
}

/// A window with rows is staged, archived, recorded and, where there is an object store,
/// uploaded before its local copy is removed; that all went well, it is sealed with its
/// rows. An empty one is done, one whose scan broke off failed, and so is one of which a step
/// failed that matters.
pub proof fn a_window_is_sealed_step_by_step(rows: u64, last: SealReport)
    requires
        rows > 0,
    ensures
        ({
            let ok = SealReport::Worked;
            let staged = SealReport::Staged { rows, broke_off: false };
            forall|store: bool|
                {
                    let a = #[trigger] sealing(SealStep::Stage, staged, store);
                    let b = sealing(a, ok, store);
                    let c = sealing(b, ok, store);
                    &&& a == (SealStep::Archive { rows })
                    &&& b == (SealStep::Record { rows })
                    &&& !store ==> c == (SealStep::Done { rows })
                    &&& store ==> c == (SealStep::Upload { rows }) && sealing(
                        sealing(c, ok, store),
                        last,
                        store,
                    ) == (SealStep::Done { rows }) && sealing(c, ok, store) == (
                    SealStep::DropLocal { rows })
                    &&& sealing(a, SealReport::Failed, store) == SealStep::Failed
                    &&& sealing(b, SealReport::Failed, store) == SealStep::Failed
                    &&& store ==> sealing(c, SealReport::Failed, store) == SealStep::Failed
                }
        }),
        forall|store: bool|
            sealing(
                #[trigger] sealing(
                    SealStep::Stage,
                    SealReport::Staged { rows: 0, broke_off: false },
                    store,
                ),
                last,
                store,
            ) == (SealStep::Done { rows: 0 }),
        forall|store: bool, n: u64|
            sealing(
                #[trigger] sealing(
                    SealStep::Stage,
                    SealReport::Staged { rows: n, broke_off: true },
                    store,
                ),
                last,
                store,
            ) == SealStep::Failed,
        forall|store: bool|
            #[trigger] sealing(SealStep::Stage, SealReport::Failed, store) == SealStep::Failed,
        forall|store: bool|
            #[trigger] sealing(SealStep::Failed, last, store) == SealStep::Failed,
{
}

/// A level within the writer's range is used as it is; any other gives the nearest that is
/// in it.
pub proof fn a_level_is_the_nearest(level: i32, other: i32)
    requires
        1 <= other && other <= 22,
    ensures
        1 <= level_near(level) <= 22,
        1 <= level && level <= 22 ==> level_near(level) == level,
        level <= level_near(level) ==> level >= 1 || level_near(level) <= other,
        level >= level_near(level) ==> level <= 22 || level_near(level) >= other,
{
}

} // verus!
