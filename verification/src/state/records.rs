//! Records that are only ever appended: predictions, decisions, outcomes, misses.
//!
//! The records of a case are stored under keys that begin with the case and go on
//! with the time, so that they read back in order, and bounded.

use crate::numerals::{self, decimal_padded, parse_u64};
use crate::order::{self, oldest_first, Dated};
use crate::state::cases::Disposition;
use crate::text::{self, same};
use vstd::prelude::*;

verus! {

/// The most records of each kind that the view of a case holds.
pub const CASE_VIEW_MAX_PER_LIST: usize = 1000;

/// The bound on the view of a case: the configured one, where it is a positive
/// number.
pub open spec fn view_cap(configured: Option<Seq<char>>) -> usize {
    match configured {
        Some(s) => match numerals::read_u64(s) {
            Some(n) => if 0 < n <= usize::MAX {
                n as usize
            } else {
                CASE_VIEW_MAX_PER_LIST
            },
            None => CASE_VIEW_MAX_PER_LIST,
        },
        None => CASE_VIEW_MAX_PER_LIST,
    }
}

/// The bound on the view of a case: the configured one, where it is a positive
/// number.
pub fn case_view_cap(configured: Option<&str>) -> (r: usize)
    ensures
        r == view_cap(
            match configured {
                Some(s) => Some(s@),
                None => None,
            },
        ),
{
    if let Some(s) = configured {
        if let Some(n) = parse_u64(s) {
            if 0 < n && n <= usize::MAX as u64 {
                return n as usize;
            }
        }
    }
    CASE_VIEW_MAX_PER_LIST
}

/// A number of nanoseconds in twenty characters, the sign among them.
pub open spec fn nanos_text(n: i64) -> Seq<char> {
    if n >= 0 {
        numerals::padded(n as nat, 20)
    } else {
        "-"@ + numerals::padded((-n) as nat, 19)
    }
}

/// A number of nanoseconds in twenty characters.
pub fn show_nanos(n: i64) -> (r: String)
    ensures
        r@ == nanos_text(n),
{
    if n >= 0 {
        decimal_padded(n as u64, 20)
    } else {
        let m: u64 = (-(n as i128)) as u64;
        let mut r = String::from_str("-");
        r.append(decimal_padded(m, 19).as_str());
        r
    }
}

/// The key of a record: its scope, the time, and its id.
pub open spec fn key_of(scope: Seq<char>, nanos: i64, id: Seq<char>) -> Seq<char> {
    scope + "|"@ + nanos_text(nanos) + "|"@ + id
}

/// The key of a record: the case, the fact or the host that it belongs to, the time,
/// and its id.
pub fn record_key(scope: &str, nanos: i64, id: &str) -> (r: String)
    ensures
        r@ == key_of(scope@, nanos, id@),
{
    let mut r = String::from_str(scope);
    r.append("|");
    r.append(show_nanos(nanos).as_str());
    r.append("|");
    r.append(id);
    r
}

/// The key of a record without a time: its scope and its id.
pub fn content_key(scope: &str, id: &str) -> (r: String)
    ensures
        r@ == scope@ + "|"@ + id@,
{
    let mut r = String::from_str(scope);
    r.append("|");
    r.append(id);
    r
}

/// The first key that the records of a scope can have, and the last.
pub fn scope_range(scope: &str) -> (r: (String, String))
    ensures
        r.0@ == scope@ + "|"@,
        r.1@ == scope@ + "|"@ + "\u{10ffff}"@,
{
    let mut from = String::from_str(scope);
    from.append("|");
    let mut to = from.clone();
    to.append("\u{10ffff}");
    (from, to)
}

/// A key lies between the first and the last that the records of a scope can have.
pub open spec fn in_scope(key: Seq<char>, scope: Seq<char>) -> bool {
    &&& !text::text_lt(key, scope + "|"@)
    &&& !text::text_lt(scope + "|"@ + "\u{10ffff}"@, key)
}

proof fn prefix_is_in_scope(key: Seq<char>, scope: Seq<char>)
    requires
        in_scope(key, scope),
    ensures
        text::starts(key, scope + "|"@),
{
    let p = scope + "|"@;
    let last = p + "\u{10ffff}"@;
    if !text::starts(key, p) {
        // The first place where the key leaves the prefix puts it before the first
        // key or behind the last.
        let k = first_difference(key, p, 0);
        if k == key.len() {
            assert(text::below_at(key, p, k));
            assert(text::text_lt(key, p));
        } else if key[k] < p[k] {
            assert(text::below_at(key, p, k));
            assert(text::text_lt(key, p));
        } else {
            assert(last[k] == p[k]);
            assert forall|j: int| 0 <= j < k implies last[j] == key[j] by {
                assert(last[j] == p[j]);
            }
            assert(text::below_at(last, key, k));
            assert(text::text_lt(last, key));
        }
    }
}

/// The first place from `k` on where a text differs from a prefix that it does not
/// begin with.
proof fn first_difference(s: Seq<char>, p: Seq<char>, k: int) -> (r: int)
    requires
        0 <= k <= s.len(),
        k <= p.len(),
        forall|j: int| 0 <= j < k ==> s[j] == p[j],
        !text::starts(s, p),
    ensures
        k <= r <= s.len(),
        r < p.len(),
        forall|j: int| 0 <= j < r ==> s[j] == p[j],
        r == s.len() || s[r] != p[r],
    decreases p.len() - k,
{
    if k == p.len() {
        assert(s.take(p.len() as int) =~= p);
        k
    } else if k == s.len() || s[k] != p[k] {
        k
    } else {
        first_difference(s, p, k + 1)
    }
}

/// The range of a case holds the keys of its records, and of no other case's, even
/// where the name of one case begins with that of another.
pub proof fn ranges_hold_their_records(
    case: Seq<char>,
    scope: Seq<char>,
    nanos: i64,
    id: Seq<char>,
)
    requires
        !text::has_char(case, '|'),
        !text::has_char(scope, '|'),
    ensures
        in_scope(key_of(case, nanos, id), scope) <==> case == scope,
{
    reveal_strlit("|");
    reveal_strlit("-");
    reveal_strlit("\u{10ffff}");
    let key = key_of(case, nanos, id);
    let p = scope + "|"@;
    let last = p + "\u{10ffff}"@;
    nanos_len(nanos);
    if case == scope {
        let n = p.len() as int;
        assert(key.take(n) =~= p);
        assert(forall|j: int| 0 <= j < n ==> key[j] == p[j]);
        if text::text_lt(key, p) {
            let k = choose|k: int| text::below_at(key, p, k);
            assert(key[k] == p[k]);
        }
        if text::text_lt(last, key) {
            let k = choose|k: int| text::below_at(last, key, k);
            if k < n {
                assert(last[k] == p[k]);
            } else if k == n {
                assert(last[n] == '\u{10ffff}');
                assert(key[n] == nanos_text(nanos)[0]);
            } else {
                assert(last[n] == key[n]);
                assert(key[n] == nanos_text(nanos)[0]);
                assert(last[n] == '\u{10ffff}');
            }
        }
    } else if in_scope(key, scope) {
        prefix_is_in_scope(key, scope);
        let n = scope.len() as int;
        let m = case.len() as int;
        assert(key.take(p.len() as int) == p);
        assert(forall|j: int| 0 <= j <= n ==> key[j] == p[j]) by {
            assert forall|j: int| 0 <= j <= n implies key[j] == p[j] by {
                assert(key.take(p.len() as int)[j] == p[j]);
            }
        }
        assert(key[m] == '|');
        assert(p[n] == '|');
        if m < n {
            assert(scope[m] == p[m]);
            assert(text::has_char(scope, '|'));
        } else if m > n {
            assert(case[n] == key[n]);
            assert(text::has_char(case, '|'));
        } else {
            assert(case =~= scope) by {
                assert forall|j: int| 0 <= j < n implies case[j] == scope[j] by {
                    assert(key[j] == case[j] && p[j] == scope[j]);
                }
            }
        }
    }
}

proof fn nanos_len(n: i64)
    ensures
        nanos_text(n).len() > 0,
        nanos_text(n)[0] == '-' || numerals::is_digit(nanos_text(n)[0]),
{
    reveal_strlit("-");
    if n >= 0 {
        numerals::padded_digits(n as nat, 20);
    }
}

/// Within a case the order of the keys is that of the times, for times behind the
/// epoch.
pub proof fn keys_follow_time(case: Seq<char>, s: i64, t: i64, a: Seq<char>, b: Seq<char>)
    requires
        0 <= s < t,
    ensures
        text::text_lt(key_of(case, s, a), key_of(case, t, b)),
{
    let x = nanos_text(s);
    let y = nanos_text(t);
    numerals::padded_order(s as u64, t as u64);
    numerals::twenty_digits(s as u64);
    numerals::twenty_digits(t as u64);
    let k = choose|k: int| text::below_at(x, y, k);
    let p = case + "|"@;
    let n = p.len() as int;
    let u = key_of(case, s, a);
    let v = key_of(case, t, b);
    assert(k < 20);
    assert forall|j: int| 0 <= j < n + k implies u[j] == v[j] by {
        if j < n {
            assert(u[j] == p[j] && v[j] == p[j]);
        } else {
            assert(u[j] == x[j - n] && v[j] == y[j - n]);
        }
    }
    assert(u[n + k] == x[k] && v[n + k] == y[k]);
    assert(text::below_at(u, v, n + k));
}

/// A record, with what the listings ask of it and its whole content.
pub struct Record {
    pub id: String,
    pub case_id: Option<String>,
    pub created_at_us: i64,
    pub disposition: Disposition,
    pub body: Vec<u8>,
}

impl Dated for Record {
    open spec fn time(&self) -> i64 {
        self.created_at_us
    }

    fn when(&self) -> (r: i64) {
        self.created_at_us
    }
}

/// The records that can be read, of rows in some order.
pub open spec fn readable(rows: Seq<Option<Record>>) -> Seq<Record>
    decreases rows.len(),
{
    if rows.len() == 0 {
        Seq::empty()
    } else {
        match rows.last() {
            Some(r) => readable(rows.drop_last()).push(r),
            None => readable(rows.drop_last()),
        }
    }
}

/// The first entries of a list, at most `limit` of them.
pub open spec fn at_most<T>(s: Seq<T>, limit: nat) -> Seq<T> {
    if s.len() <= limit {
        s
    } else {
        s.take(limit as int)
    }
}

/// The records that can be read; a row that cannot is passed over.
pub fn scan_tolerant(rows: Vec<Option<Record>>) -> (r: Vec<Record>)
    ensures
        r@ == readable(rows@),
{
    let mut r: Vec<Record> = Vec::new();
    for row in it: rows
        invariant
            it.seq() == rows@,
            r@ == readable(rows@.take(it.index())),
    {
        assert(rows@.take(it.index() + 1).drop_last() =~= rows@.take(it.index()));
        if let Some(x) = row {
            r.push(x);
        }
    }
    assert(rows@.take(rows@.len() as int) =~= rows@);
    r
}

/// The first records that can be read, at most `limit` of them.
pub fn scan_limited(rows: Vec<Option<Record>>, limit: usize) -> (r: Vec<Record>)
    ensures
        r@ == at_most(readable(rows@), limit as nat),
{
    let mut r: Vec<Record> = Vec::new();
    for row in it: rows
        invariant
            it.seq() == rows@,
            r@.len() <= limit,
            r@ == at_most(readable(rows@.take(it.index())), limit as nat),
    {
        assert(rows@.take(it.index() + 1).drop_last() =~= rows@.take(it.index()));
        if r.len() < limit {
            if let Some(x) = row {
                r.push(x);
            }
        }
        assert(r@ =~= at_most(readable(rows@.take(it.index() + 1)), limit as nat));
    }
    assert(rows@.take(rows@.len() as int) =~= rows@);
    r
}

/// The record belongs to the case.
pub open spec fn of_case(r: Record, case: Seq<char>) -> bool {
    text::opt_text(r.case_id) == Some(case)
}

/// The records of a case.
pub open spec fn case_records(rows: Seq<Record>, case: Seq<char>) -> Seq<Record>
    decreases rows.len(),
{
    if rows.len() == 0 {
        rows
    } else {
        let before = case_records(rows.drop_last(), case);
        if of_case(rows.last(), case) {
            before.push(rows.last())
        } else {
            before
        }
    }
}

fn belongs(r: &Record, case: &str) -> (b: bool)
    ensures
        b == of_case(*r, case@),
{
    match &r.case_id {
        Some(c) => same(c.as_str(), case),
        None => false,
    }
}

/// The records of a case, in the order of the rows.
pub fn records_for_case(rows: Vec<Record>, case: &str) -> (r: Vec<Record>)
    ensures
        r@ == case_records(rows@, case@),
{
    let mut r: Vec<Record> = Vec::new();
    for x in it: rows
        invariant
            it.seq() == rows@,
            r@ == case_records(rows@.take(it.index()), case@),
    {
        assert(rows@.take(it.index() + 1).drop_last() =~= rows@.take(it.index()));
        if belongs(&x, case) {
            r.push(x);
        }
    }
    assert(rows@.take(rows@.len() as int) =~= rows@);
    r
}

/// The records of a case, the oldest in front.
pub fn case_history(rows: Vec<Record>, case: &str) -> (r: Vec<Record>)
    ensures
        r@ == order::ascending(case_records(rows@, case@)),
{
    oldest_first(records_for_case(rows, case))
}

/// The place of the oldest record; of several it is the first.
pub open spec fn oldest_at(s: Seq<Record>) -> int
    decreases s.len(),
{
    if s.len() <= 1 {
        0
    } else {
        let k = oldest_at(s.drop_last());
        if s.last().created_at_us < s[k].created_at_us {
            s.len() - 1
        } else {
            k
        }
    }
}

/// The newest records, at most `limit` of them, in the order in which they stand.
pub open spec fn newest(s: Seq<Record>, limit: nat) -> Seq<Record>
    decreases s.len(),
{
    if s.len() <= limit {
        s
    } else {
        proof {
            oldest_is_oldest(s);
        }
        newest(s.remove(oldest_at(s)), limit)
    }
}

/// No record is older than the oldest.
pub proof fn oldest_is_oldest(s: Seq<Record>)
    requires
        s.len() > 0,
    ensures
        0 <= oldest_at(s) < s.len(),
        forall|i: int|
            0 <= i < s.len() ==> s[oldest_at(s)].created_at_us <= (#[trigger] s[i]).created_at_us,
    decreases s.len(),
{
    if s.len() > 1 {
        let most = s.drop_last();
        oldest_is_oldest(most);
        assert forall|i: int| 0 <= i < s.len() implies s[oldest_at(s)].created_at_us <= (
        #[trigger] s[i]).created_at_us by {
            if i < most.len() {
                assert(most[i] == s[i]);
            }
        }
    }
}

/// The newest records are as many as there may be, they are among the records, and what
/// is left out is no newer than what stays.
pub proof fn the_newest_stay(s: Seq<Record>, limit: nat)
    ensures
        newest(s, limit).len() == if s.len() <= limit {
            s.len()
        } else {
            limit
        },
        forall|x: Record| #[trigger] newest(s, limit).contains(x) ==> s.contains(x),
        forall|x: Record, y: Record| #[trigger]
            newest(s, limit).contains(x) && #[trigger] s.contains(y) ==> newest(s, limit).contains(
                y,
            ) || y.created_at_us <= x.created_at_us,
    decreases s.len(),
{
    if s.len() > limit {
        let k = oldest_at(s);
        oldest_is_oldest(s);
        let rest = s.remove(k);
        the_newest_stay(rest, limit);
        assert forall|x: Record| rest.contains(x) implies #[trigger] s.contains(x) by {
            let i = rest.index_of(x);
            assert(rest[i] == x);
            assert(s[if i < k {
                i
            } else {
                i + 1
            }] == x);
        }
        assert forall|x: Record, y: Record| #[trigger]
            newest(s, limit).contains(x) && #[trigger] s.contains(y) implies newest(
            s,
            limit,
        ).contains(y) || y.created_at_us <= x.created_at_us by {
            let i = s.index_of(y);
            assert(s[i] == y);
            if i == k {
                assert(s.contains(x));
                let j = s.index_of(x);
                assert(s[j] == x);
            } else {
                assert(rest[if i < k {
                    i
                } else {
                    i - 1
                }] == y);
                assert(rest.contains(y));
            }
        }
    }
}

fn find_oldest(v: &Vec<Record>) -> (r: usize)
    requires
        v.len() > 0,
    ensures
        r == oldest_at(v@),
        r < v.len(),
{
    let mut k: usize = 0;
    let mut i: usize = 1;
    while i < v.len()
        invariant
            1 <= i <= v.len(),
            k < i,
            k == oldest_at(v@.take(i as int)),
        decreases v.len() - i,
    {
        assert(v@.take(i + 1).drop_last() =~= v@.take(i as int));
        if v[i].created_at_us < v[k].created_at_us {
            k = i;
        }
        i += 1;
    }
    assert(v@.take(i as int) =~= v@);
    k
}

/// The newest records of a case, at most `limit` of them, in the order of the rows.
pub fn case_limited(rows: Vec<Option<Record>>, case: &str, limit: usize) -> (r: Vec<Record>)
    ensures
        r@ == newest(case_records(readable(rows@), case@), limit as nat),
{
    let mut r = records_for_case(scan_tolerant(rows), case);
    let ghost all = r@;
    while r.len() > limit
        invariant
            newest(r@, limit as nat) == newest(all, limit as nat),
        decreases r.len(),
    {
        let k = find_oldest(&r);
        let _ = r.remove(k);
    }
    r
}

/// The last entries of a list, at most `limit` of them.
pub open spec fn at_most_last<T>(s: Seq<T>, limit: nat) -> Seq<T> {
    if s.len() <= limit {
        s
    } else {
        s.skip(s.len() - limit)
    }
}

/// The last records that can be read, at most `limit` of them.
pub fn scan_last(rows: Vec<Option<Record>>, limit: usize) -> (r: Vec<Record>)
    ensures
        r@ == at_most_last(readable(rows@), limit as nat),
{
    let all = scan_tolerant(rows);
    let n = all.len();
    if n <= limit {
        return all;
    }
    let skip: usize = n - limit;
    let mut r: Vec<Record> = Vec::new();
    let mut i: usize = 0;
    for x in it: all
        invariant
            it.seq() == all@,
            n == all@.len(),
            skip == n - limit,
            i == it.index(),
            it.index() <= n,
            r@ == all@.subrange(
                if it.index() < skip {
                    it.index()
                } else {
                    skip as int
                },
                it.index(),
            ),
    {
        if i >= skip {
            r.push(x);
        }
        i += 1;
        assert(r@ =~= all@.subrange(
            if it.index() + 1 < skip {
                it.index() + 1
            } else {
                skip as int
            },
            it.index() + 1,
        ));
    }
    assert(r@ =~= all@.skip(skip as int));
    r
}

/// What was predicted, decided and found of a case.
pub struct CaseDecisionView {
    pub case_id: String,
    pub predictions: Vec<Record>,
    pub decisions: Vec<Record>,
    pub outcomes: Vec<Record>,
    pub false_negatives: Vec<Record>,
}

/// The view of a case, each list of it bounded to the newest. Predictions and decisions
/// come from the case's own range in the order of their keys, which is that of time, and
/// are shown so; outcomes and misses are those of all cases, and outcomes are shown with
/// the oldest in front.
pub fn case_view(
    case_id: &str,
    predictions: Vec<Option<Record>>,
    decisions: Vec<Option<Record>>,
    outcomes: Vec<Option<Record>>,
    false_negatives: Vec<Option<Record>>,
    cap: usize,
) -> (r: CaseDecisionView)
    ensures
        r.case_id@ == case_id@,
        r.predictions@ == at_most_last(readable(predictions@), cap as nat),
        r.decisions@ == at_most_last(readable(decisions@), cap as nat),
        r.outcomes@ == order::ascending(
            newest(case_records(readable(outcomes@), case_id@), cap as nat),
        ),
        r.false_negatives@ == newest(case_records(readable(false_negatives@), case_id@), cap as nat),
{
    CaseDecisionView {
        case_id: String::from_str(case_id),
        predictions: scan_last(predictions, cap),
        decisions: scan_last(decisions, cap),
        outcomes: oldest_first(case_limited(outcomes, case_id, cap)),
        false_negatives: case_limited(false_negatives, case_id, cap),
    }
}

/// No list of a view is longer than its bound.
pub proof fn views_are_bounded(rows: Seq<Option<Record>>, case: Seq<char>, cap: nat)
    ensures
        at_most_last(readable(rows), cap).len() <= cap,
        newest(case_records(readable(rows), case), cap).len() <= cap,
        order::ascending(newest(case_records(readable(rows), case), cap)).len() <= cap,
{
    let list = newest(case_records(readable(rows), case), cap);
    the_newest_stay(case_records(readable(rows), case), cap);
    order::oldest_first_is_ordered(list);
    list.to_multiset_ensures();
    order::ascending(list).to_multiset_ensures();
}

/// The records of a case are the rows that name the case, in the order of the rows.
pub proof fn the_records_of_a_case_name_it(rows: Seq<Record>, case: Seq<char>)
    ensures
        case_records(rows, case) == rows.filter(
            |r: Record| r.case_id is Some && r.case_id->0@ == case,
        ),
    decreases rows.len(),
{
    reveal(Seq::filter);
    if rows.len() > 0 {
        the_records_of_a_case_name_it(rows.drop_last(), case);
    }
}

/// The rows that can be read are read, each once and in their order.
pub proof fn what_can_be_read_is_read(rows: Seq<Option<Record>>)
    ensures
        readable(rows) == rows.filter(|o: Option<Record>| o is Some).map_values(
            |o: Option<Record>| o->0,
        ),
    decreases rows.len(),
{
    reveal(Seq::filter);
    let there = |o: Option<Record>| o is Some;
    let open = |o: Option<Record>| o->0;
    if rows.len() > 0 {
        let most = rows.drop_last();
        what_can_be_read_is_read(most);
        if rows.last() is Some {
            assert(rows.filter(there) == most.filter(there).push(rows.last()));
            assert(rows.filter(there).map_values(open) =~= most.filter(there).map_values(open).push(
                rows.last()->0,
            ));
        }
    } else {
        assert(rows.filter(there).map_values(open) =~= Seq::empty());
    }
}

/// A bound from the front keeps the first entries, one from the back the last, and either
/// keeps as many as it may.
pub proof fn bounds_keep_an_end<T>(s: Seq<T>, limit: nat)
    ensures
        at_most(s, limit).len() == if s.len() < limit {
            s.len()
        } else {
            limit
        },
        at_most_last(s, limit).len() == at_most(s, limit).len(),
        forall|i: int| 0 <= i < at_most(s, limit).len() ==> at_most(s, limit)[i] == s[i],
        forall|i: int|
            0 < i <= at_most_last(s, limit).len() ==> #[trigger] at_most_last(s, limit)[at_most_last(
                s,
                limit,
            ).len() - i] == s[s.len() - i],
{
    let last = at_most_last(s, limit);
    assert forall|i: int| 0 < i <= last.len() implies #[trigger] last[last.len() - i] == s[s.len()
        - i] by {}
}

/// Of several records of the oldest time the first is given up, and what stays keeps its
/// order.
pub proof fn the_first_of_the_oldest_goes(s: Seq<Record>, limit: nat)
    requires
        s.len() > limit,
    ensures
        ({
            let k = oldest_at(s);
            &&& 0 <= k < s.len()
            &&& forall|i: int| 0 <= i < k ==> (#[trigger] s[i]).created_at_us > s[k].created_at_us
            &&& forall|i: int|
                k < i < s.len() ==> (#[trigger] s[i]).created_at_us >= s[k].created_at_us
            &&& newest(s, limit) == newest(s.take(k) + s.skip(k + 1), limit)
        }),
{
    oldest_is_oldest(s);
    the_oldest_is_the_first(s);
    let k = oldest_at(s);
    assert(s.remove(k) =~= s.take(k) + s.skip(k + 1));
}

proof fn the_oldest_is_the_first(s: Seq<Record>)
    requires
        s.len() > 0,
    ensures
        0 <= oldest_at(s) < s.len(),
        forall|i: int|
            0 <= i < oldest_at(s) ==> (#[trigger] s[i]).created_at_us
                > s[oldest_at(s)].created_at_us,
    decreases s.len(),
{
    if s.len() > 1 {
        let most = s.drop_last();
        the_oldest_is_the_first(most);
        oldest_is_oldest(most);
        assert forall|i: int| 0 <= i < oldest_at(s) implies (#[trigger] s[i]).created_at_us
            > s[oldest_at(s)].created_at_us by {
            assert(most[i] == s[i]);
        }
    }
}

/// The keys of two records of a scope differ where their times or their ids do.
pub proof fn keys_tell_records_apart(
    scope: Seq<char>,
    s: i64,
    t: i64,
    a: Seq<char>,
    b: Seq<char>,
)
    requires
        0 <= s,
        0 <= t,
    ensures
        key_of(scope, s, a) == key_of(scope, t, b) <==> s == t && a == b,
{
    if key_of(scope, s, a) == key_of(scope, t, b) {
        if s < t {
            keys_follow_time(scope, s, t, a, b);
            text::text_lt_asymmetric(key_of(scope, s, a), key_of(scope, t, b));
        } else if t < s {
            keys_follow_time(scope, t, s, b, a);
            text::text_lt_asymmetric(key_of(scope, t, b), key_of(scope, s, a));
        }
        let u = key_of(scope, s, a);
        let v = key_of(scope, t, b);
        let n = u.len() - a.len();
        assert(u.skip(n) =~= a);
        assert(v.skip(n) =~= b);
    }
}

/// The bound on a view is what was configured, where that is a number that is not zero, and
/// never zero.
pub proof fn a_view_has_room(configured: Option<Seq<char>>)
    ensures
        view_cap(configured) > 0,
        configured is None ==> view_cap(configured) == 1000,
        configured is Some && numerals::read_u64(configured->0) is None ==> view_cap(configured)
            == 1000,
        configured matches Some(s) ==> match numerals::read_u64(s) {
            Some(n) => 0 < n <= usize::MAX ==> view_cap(configured) == n,
            None => true,
        },
{
}

} // verus!
