//! Tracking of the sequence numbers that collectors stamp on their batches.
//!
//! Batches may be observed out of order. A number that is skipped is therefore
//! only *outstanding* at first: it is resolved when it arrives late, and counts as
//! lost once so many later ones have arrived that it no longer fits the bounded
//! set of outstanding numbers.

use crate::numerals::{self, decimal_padded, parse_u64};
use crate::order::{self, newest_first, Dated};
use crate::text::{self, chars_of, rsplit_once, same};
use vstd::prelude::*;

verus! {

/// How many outstanding numbers are kept per collector and epoch.
pub const MISSING_CAP: usize = 4096;

/// How many epochs are kept per collector.
pub const EPOCHS_PER_COLLECTOR_CAP: usize = 16;

/// The sequence of one collector in one epoch.
#[derive(Clone, Debug, PartialEq, Eq)]
pub struct SeqState {
    pub first_seq: u64,
    /// The highest number observed.
    pub high: u64,
    /// Numbers below `high` that have not been seen, ascending.
    pub missing: Vec<u64>,
    /// Numbers that are counted as lost.
    pub gaps: u64,
    pub replays: u64,
    pub updated_us: i64,
}

impl SeqState {
    /// The outstanding numbers are below the highest one, ascending, and not too
    /// many.
    pub open spec fn wf(self) -> bool {
        &&& self.missing@.len() <= MISSING_CAP
        &&& forall|i: int| 0 <= i < self.missing@.len() ==> #[trigger] self.missing@[i] < self.high
        &&& forall|i: int, j: int|
            0 <= i < j < self.missing@.len() ==> self.missing@[i] < self.missing@[j]
    }
}

impl Default for SeqState {
    fn default() -> (r: SeqState)
        ensures
            r.wf(),
            r.missing@.len() == 0,
            r.first_seq == 0 && r.high == 0 && r.gaps == 0 && r.replays == 0 && r.updated_us == 0,
    {
        SeqState { first_seq: 0, high: 0, missing: Vec::new(), gaps: 0, replays: 0, updated_us: 0 }
    }
}

/// The classification of one observed number.
#[derive(Clone, Copy, Debug, PartialEq, Eq, Structural)]
pub enum SeqVerdict {
    /// The first observation of its epoch.
    FirstOfEpoch,
    /// The next number, or a jump ahead whose skipped numbers are outstanding.
    Advance,
    /// A lower number that was outstanding.
    Reordered,
    /// A lower number that was not outstanding: a retry or a duplicate.
    Replay,
    /// Outstanding numbers were given up as lost.
    Gap { newly_lost: u64 },
}

impl SeqVerdict {
    /// Whether the verdict deserves a line in the audit log.
    pub fn is_gap(&self) -> (r: bool)
        ensures
            r == (*self is Gap),
    {
        matches!(self, SeqVerdict::Gap { .. })
    }
}

/// The numbers between two, both excluded.
pub open spec fn between(low: u64, high: u64) -> Seq<u64> {
    if low < high {
        Seq::new((high - low - 1) as nat, |i: int| (low + 1 + i) as u64)
    } else {
        Seq::empty()
    }
}

/// A count that stays at its greatest value.
pub open spec fn raised(n: u64, by: int) -> u64 {
    if n + by > u64::MAX {
        u64::MAX
    } else {
        (n + by) as u64
    }
}

/// The outstanding numbers after a jump ahead to `seq`, before the oldest of them
/// are given up.
pub open spec fn outstanding_after(s: SeqState, seq: u64) -> Seq<u64> {
    s.missing@ + between(s.high, seq)
}

/// How many of `n` outstanding numbers are too many.
pub open spec fn excess(n: nat) -> int {
    if n > MISSING_CAP {
        n - MISSING_CAP
    } else {
        0
    }
}

/// What observing `seq` makes of a sequence, and the verdict on it.
pub open spec fn observed(was: SeqState, seq: u64, is_new: bool, now: SeqState, v: SeqVerdict) -> bool {
    if is_new {
        &&& v == SeqVerdict::FirstOfEpoch
        &&& now.first_seq == seq && now.high == seq
        &&& now.missing@ == was.missing@ && now.gaps == was.gaps && now.replays == was.replays
    } else if seq <= was.high {
        &&& now.first_seq == was.first_seq && now.high == was.high && now.gaps == was.gaps
        &&& if was.missing@.contains(seq) {
            &&& v == SeqVerdict::Reordered
            &&& now.missing@ == was.missing@.remove(was.missing@.index_of(seq))
            &&& now.replays == was.replays
        } else {
            &&& v == SeqVerdict::Replay
            &&& now.missing@ == was.missing@
            &&& now.replays == raised(was.replays, 1)
        }
    } else {
        let open = outstanding_after(was, seq);
        let lost = excess(open.len());
        &&& now.first_seq == was.first_seq && now.high == seq && now.replays == was.replays
        &&& now.missing@ == open.skip(lost)
        &&& now.gaps == raised(was.gaps, lost)
        &&& v == if lost > 0 {
            SeqVerdict::Gap { newly_lost: lost as u64 }
        } else {
            SeqVerdict::Advance
        }
    }
}

fn position(v: &Vec<u64>, x: u64) -> (r: Option<usize>)
    requires
        forall|i: int, j: int| 0 <= i < j < v@.len() ==> v@[i] < v@[j],
    ensures
        match r {
            Some(i) => i < v@.len() && v@[i as int] == x,
            None => !v@.contains(x),
        },
{
    let mut low: usize = 0;
    let mut high: usize = v.len();
    while low < high
        invariant
            low <= high <= v.len(),
            forall|i: int, j: int| 0 <= i < j < v@.len() ==> v@[i] < v@[j],
            forall|i: int| 0 <= i < low ==> #[trigger] v@[i] < x,
            forall|i: int| high <= i < v@.len() ==> #[trigger] v@[i] > x,
        decreases high - low,
    {
        let mid: usize = low + (high - low) / 2;
        if v[mid] == x {
            return Some(mid);
        }
        if v[mid] < x {
            low = mid + 1;
        } else {
            high = mid;
        }
    }
    None
}

/// Classifies `seq` against a sequence and records it there. `is_new` tells that
/// nothing was recorded before, so that a first number of zero is not taken for a
/// repeated one.
pub fn classify(s: &mut SeqState, seq: u64, is_new: bool) -> (v: SeqVerdict)
    requires
        old(s).wf(),
        is_new ==> old(s).missing@.len() == 0,
    ensures
        observed(*old(s), seq, is_new, *final(s), v),
        final(s).wf(),
        final(s).updated_us == old(s).updated_us,
{
    if is_new {
        s.first_seq = seq;
        s.high = seq;
        return SeqVerdict::FirstOfEpoch;
    }
    if seq <= s.high {
        match position(&s.missing, seq) {
            Some(i) => {
                proof {
                    let m = s.missing@;
                    assert(m.contains(seq));
                    let k = m.index_of(seq);
                    assert(0 <= k < m.len() && m[k] == seq) by {
                        assert(m.contains(seq));
                    }
                    assert(k == i);
                }
                s.missing.remove(i);
                return SeqVerdict::Reordered;
            },
            None => {
                s.replays = s.replays.saturating_add(1);
                return SeqVerdict::Replay;
            },
        }
    }
    // Only the last numbers of a long jump can stay outstanding, so the ones that
    // would be given up at once are counted without being listed.
    let ghost was = *s;
    let ghost open = outstanding_after(*s, seq);
    let skipped: u64 = seq - s.high - 1;
    let had: usize = s.missing.len();
    let total: u128 = had as u128 + skipped as u128;
    let lost: u128 = if total > MISSING_CAP as u128 {
        total - MISSING_CAP as u128
    } else {
        0
    };
    let mut kept: Vec<u64> = Vec::new();
    let mut k: usize = if lost < had as u128 {
        lost as usize
    } else {
        had
    };
    assert(open.len() == total);
    let ghost from = if lost < had { lost as int } else { had as int };
    while k < had
        invariant
            0 <= from <= k <= had,
            had == s.missing@.len(),
            *s == was,
            kept@ == s.missing@.subrange(from, k as int),
        decreases had - k,
    {
        kept.push(s.missing[k]);
        k += 1;
        assert(kept@ =~= s.missing@.subrange(from, k as int));
    }
    let first: u64 = if lost > had as u128 {
        s.high + 1 + (lost - had as u128) as u64
    } else {
        s.high + 1
    };
    let ghost base = kept@;
    let mut n: u64 = first;
    while n < seq
        invariant
            first <= n <= seq,
            kept@ == base + Seq::new((n - first) as nat, |i: int| (first + i) as u64),
        decreases seq - n,
    {
        kept.push(n);
        n += 1;
        assert(kept@ =~= base + Seq::new((n - first) as nat, |i: int| (first + i) as u64));
    }
    assert(kept@ =~= open.skip(lost as int));
    s.missing = kept;
    s.high = seq;
    proof {
        assert(s.missing@.len() == total - lost);
        assert forall|i: int| 0 <= i < s.missing@.len() implies #[trigger] s.missing@[i] < seq by {
            assert(s.missing@[i] == open[lost + i]);
        }
        assert forall|i: int, j: int| 0 <= i < j < s.missing@.len() implies s.missing@[i]
            < s.missing@[j] by {
            assert(s.missing@[i] == open[lost + i]);
            assert(s.missing@[j] == open[lost + j]);
        }
    }
    if lost > 0 {
        assert(lost <= skipped);
        let newly_lost: u64 = lost as u64;
        s.gaps = s.gaps.saturating_add(newly_lost);
        SeqVerdict::Gap { newly_lost }
    } else {
        SeqVerdict::Advance
    }
}

impl SeqState {
    /// Whether a sequence that was stored can be gone on with.
    pub fn is_wf(&self) -> (r: bool)
        ensures
            r == self.wf(),
    {
        if self.missing.len() > MISSING_CAP {
            return false;
        }
        let mut i: usize = 0;
        while i < self.missing.len()
            invariant
                i <= self.missing.len(),
                self.missing.len() <= MISSING_CAP,
                forall|a: int| 0 <= a < i ==> #[trigger] self.missing@[a] < self.high,
                forall|a: int, b: int| 0 <= a < b < i ==> self.missing@[a] < self.missing@[b],
            decreases self.missing.len() - i,
        {
            if self.missing[i] >= self.high {
                return false;
            }
            if i > 0 && self.missing[i - 1] >= self.missing[i] {
                assert(!(self.missing@[i - 1] < self.missing@[i as int]));
                return false;
            }
            i += 1;
        }
        true
    }
}

/// Observes a number at a time, given what is stored for its collector and epoch:
/// what is to be stored now, and the verdict.
pub fn observe(stored: Option<SeqState>, seq: u64, now_us: i64) -> (r: (SeqState, SeqVerdict))
    requires
        stored is Some ==> stored->0.wf(),
    ensures
        r.0.wf(),
        r.0.updated_us == now_us,
        match stored {
            Some(s) => observed(s, seq, false, r.0, r.1),
            None => {
                &&& r.1 == SeqVerdict::FirstOfEpoch
                &&& r.0.first_seq == seq && r.0.high == seq
                &&& r.0.missing@.len() == 0 && r.0.gaps == 0 && r.0.replays == 0
            },
        },
{
    let is_new = stored.is_none();
    let mut s: SeqState = match stored {
        Some(s) => s,
        None => Default::default(),
    };
    let v = classify(&mut s, seq, is_new);
    s.updated_us = now_us;
    (s, v)
}

/// Observing a number never lowers the highest one, the count of lost numbers or
/// the count of replays.
pub proof fn counts_never_fall(was: SeqState, seq: u64, now: SeqState, v: SeqVerdict)
    requires
        was.wf(),
        observed(was, seq, false, now, v),
    ensures
        now.high >= was.high,
        now.gaps >= was.gaps,
        now.replays >= was.replays,
        now.first_seq == was.first_seq,
{
}

/// A number that has been observed is a replay when it comes again: it is not
/// above the highest one and not outstanding.
pub proof fn a_retry_is_a_replay(was: SeqState, seq: u64, now: SeqState, v: SeqVerdict, is_new: bool)
    requires
        was.wf(),
        is_new ==> was.missing@.len() == 0,
        observed(was, seq, is_new, now, v),
    ensures
        seq <= now.high,
        !now.missing@.contains(seq),
{
    if is_new {
    } else if seq <= was.high {
        if was.missing@.contains(seq) {
            let k = was.missing@.index_of(seq);
            assert(was.missing@[k] == seq);
            assert forall|i: int| 0 <= i < now.missing@.len() implies now.missing@[i] != seq by {
                if i < k {
                    assert(now.missing@[i] == was.missing@[i]);
                } else {
                    assert(now.missing@[i] == was.missing@[i + 1]);
                }
            }
        }
    } else {
        let open = outstanding_after(was, seq);
        let lost = excess(open.len());
        assert forall|i: int| 0 <= i < now.missing@.len() implies now.missing@[i] != seq by {
            assert(now.missing@[i] == open[lost + i]);
            if lost + i < was.missing@.len() {
                assert(was.missing@[lost + i] < was.high);
            }
        }
    }
}

/// A jump ahead that leaves no more outstanding numbers than are kept is no gap,
/// and each number that it skips is a resolved reorder when it comes late.
pub proof fn a_late_number_is_no_gap(was: SeqState, seq: u64, now: SeqState, v: SeqVerdict, late: u64)
    requires
        was.wf(),
        observed(was, seq, false, now, v),
        was.high < late < seq,
        was.missing@.len() + (seq - was.high - 1) <= MISSING_CAP,
    ensures
        v == SeqVerdict::Advance,
        now.gaps == was.gaps,
        now.missing@.contains(late),
{
    let open = outstanding_after(was, seq);
    let i = was.missing@.len() + (late - was.high - 1);
    assert(open[i] == late);
    assert(now.missing@[i] == late);
}

/// No number is forgotten by a jump ahead: what is outstanding or lost afterwards
/// is what was outstanding before and what the jump skipped.
pub proof fn skipped_numbers_are_accounted_for(was: SeqState, seq: u64, now: SeqState, v: SeqVerdict)
    requires
        was.wf(),
        observed(was, seq, false, now, v),
        seq > was.high,
        was.gaps + was.missing@.len() + (seq - was.high - 1) <= u64::MAX,
    ensures
        now.gaps + now.missing@.len() == was.gaps + was.missing@.len() + (seq - was.high - 1),
{
}

/// What every row of a collector begins with.
pub open spec fn prefix_of(collector: Seq<char>) -> Seq<char> {
    collector + "|"@
}

/// The key of a collector and an epoch.
pub open spec fn key_of(collector: Seq<char>, epoch: u64) -> Seq<char> {
    prefix_of(collector) + numerals::padded(epoch as nat, 20)
}

/// What every row of a collector begins with.
pub fn seq_prefix(collector_id: &str) -> (r: String)
    ensures
        r@ == prefix_of(collector_id@),
{
    let mut r = String::from_str(collector_id);
    r.append("|");
    r
}

/// The key of a collector and an epoch. The epoch is padded, so that the keys of a
/// collector are ordered like its epochs.
pub fn seq_key(collector_id: &str, epoch: u64) -> (r: String)
    ensures
        r@ == key_of(collector_id@, epoch),
{
    let mut r = seq_prefix(collector_id);
    let e = decimal_padded(epoch, 20);
    r.append(e.as_str());
    r
}

/// The keys of one collector are ordered like its epochs.
pub proof fn keys_follow_epochs(collector: Seq<char>, m: u64, n: u64)
    requires
        m < n,
    ensures
        text::text_lt(key_of(collector, m), key_of(collector, n)),
{
    numerals::padded_order(m, n);
    let p = prefix_of(collector);
    let a = numerals::padded(m as nat, 20);
    let b = numerals::padded(n as nat, 20);
    let k = choose|k: int| text::below_at(a, b, k);
    assert(text::below_at(p + a, p + b, p.len() + k)) by {
        assert forall|j: int| 0 <= j < p.len() + k implies (p + a)[j] == (p + b)[j] by {
            if j >= p.len() {
                assert(a[j - p.len()] == b[j - p.len()]);
            }
        }
    }
}

/// A text without its leading zeros.
pub open spec fn bare(s: Seq<char>) -> Seq<char>
    decreases s.len(),
{
    if s.len() > 0 && s[0] == '0' {
        bare(s.drop_first())
    } else {
        s
    }
}

/// The epoch that a key shows, zero where it shows none.
pub open spec fn epoch_shown(s: Seq<char>) -> u64 {
    match numerals::read_u64(bare(s)) {
        Some(n) => n,
        None => 0,
    }
}

fn read_epoch(s: &str) -> (r: u64)
    ensures
        r == epoch_shown(s@),
{
    let v = chars_of(s);
    let mut k: usize = 0;
    assert(s@.skip(0) =~= s@);
    while k < v.len() && v[k] == '0'
        invariant
            k <= v.len(),
            v@ == s@,
            bare(s@.skip(k as int)) == bare(s@),
        decreases v.len() - k,
    {
        assert(s@.skip(k as int).drop_first() =~= s@.skip(k + 1));
        k += 1;
    }
    let mut d = String::new();
    let mut i: usize = k;
    while i < v.len()
        invariant
            k <= i <= v.len(),
            v@ == s@,
            d@ == s@.subrange(k as int, i as int),
        decreases v.len() - i,
    {
        d.push(v[i]);
        i += 1;
        assert(d@ =~= s@.subrange(k as int, i as int));
    }
    assert(d@ =~= s@.skip(k as int));
    match parse_u64(d.as_str()) {
        Some(n) => n,
        None => 0,
    }
}

/// The state of one sequence as an operator sees it.
#[derive(Clone, Debug, PartialEq, Eq)]
pub struct SeqHealth {
    pub collector_id: String,
    pub epoch: u64,
    pub first_seq: u64,
    pub high_seq: u64,
    /// Numbers counted as lost.
    pub gaps: u64,
    /// Numbers below the highest one that have not been seen.
    pub outstanding: u64,
    pub replays: u64,
    pub updated_us: i64,
}

impl Dated for SeqHealth {
    open spec fn time(&self) -> i64 {
        self.updated_us
    }

    fn when(&self) -> (r: i64) {
        self.updated_us
    }
}

/// `h` shows the sequence `s` that is stored under `key`.
pub open spec fn shows(h: SeqHealth, key: Seq<char>, s: SeqState) -> bool {
    &&& exists|e: Seq<char>|
        key == #[trigger] (h.collector_id@ + seq!['|'] + e) && !text::has_char(e, '|') && h.epoch
            == epoch_shown(e)
    &&& h.first_seq == s.first_seq
    &&& h.high_seq == s.high
    &&& h.gaps == s.gaps
    &&& h.outstanding == s.missing@.len()
    &&& h.replays == s.replays
    &&& h.updated_us == s.updated_us
}

/// What an operator sees of the sequence stored under `key`, where the key is one
/// of a collector and an epoch.
pub fn health_row(key: &str, s: &SeqState) -> (r: Option<SeqHealth>)
    ensures
        match r {
            Some(h) => shows(h, key@, *s),
            None => !text::has_char(key@, '|'),
        },
{
    match rsplit_once(key, '|') {
        Some((collector_id, e)) => {
            let epoch = read_epoch(e.as_str());
            let outstanding: u64 = s.missing.len() as u64;
            let h = SeqHealth {
                collector_id,
                epoch,
                first_seq: s.first_seq,
                high_seq: s.high,
                gaps: s.gaps,
                outstanding,
                replays: s.replays,
                updated_us: s.updated_us,
            };
            assert(key@ == h.collector_id@ + seq!['|'] + e@);
            Some(h)
        },
        None => None,
    }
}

/// The rows of all sequences, most recently updated first.
pub fn ingest_seq_health(rows: Vec<SeqHealth>) -> (r: Vec<SeqHealth>)
    ensures
        r@ == order::descending(rows@),
{
    newest_first(rows)
}

proof fn bare_numeral(s: Seq<char>)
    requires
        forall|i: int| 0 <= i < s.len() ==> numerals::is_digit(#[trigger] s[i]),
    ensures
        numerals::value_of(bare(s)) == numerals::value_of(s),
        forall|i: int| 0 <= i < bare(s).len() ==> numerals::is_digit(#[trigger] bare(s)[i]),
    decreases s.len(),
{
    if s.len() > 0 && s[0] == '0' {
        let d = s.drop_first();
        assert forall|i: int| 0 <= i < d.len() implies numerals::is_digit(#[trigger] d[i]) by {
            assert(d[i] == s[i + 1]);
        }
        bare_numeral(d);
        numerals::zeros_add_nothing(1, d);
        assert(s =~= numerals::zeros(1) + d);
    }
}

/// The row of a collector and an epoch shows that collector and that epoch.
pub proof fn health_shows_its_key(h: SeqHealth, collector: Seq<char>, epoch: u64, s: SeqState)
    requires
        shows(h, key_of(collector, epoch), s),
    ensures
        h.collector_id@ == collector,
        h.epoch == epoch,
{
    let key = key_of(collector, epoch);
    let p = numerals::padded(epoch as nat, 20);
    let e = choose|e: Seq<char>|
        key == #[trigger] (h.collector_id@ + seq!['|'] + e) && !text::has_char(e, '|') && h.epoch
            == epoch_shown(e);
    reveal_strlit("|");
    assert("|"@ =~= seq!['|']);
    numerals::reading_undoes_padding(epoch, 20);
    numerals::padded_digits(epoch as nat, 20);
    assert(!text::has_char(p, '|'));
    assert(key == collector + seq!['|'] + p);
    text::last_split_is_unique(h.collector_id@, e, collector, p, '|');
    bare_numeral(p);
    let b = bare(p);
    if b.len() > 0 {
        assert(numerals::is_digit(b[0]));
    } else {
        assert(numerals::value_of(b) == 0);
    }
    assert(numerals::unsigned(b) == b);
}

/// A stored sequence with its key; one that does not decode has no state.
pub struct EpochRow {
    pub key: String,
    pub state: Option<SeqState>,
}

/// What is to be done to keep the epochs of a collector few.
pub struct Eviction {
    /// The rows to remove, by their place.
    pub victims: Vec<usize>,
    /// The row that takes over the outstanding numbers of the removed ones as lost,
    /// by its place, and what is to be stored there.
    pub rewritten: Option<(usize, SeqState)>,
}

/// How many of the first `n` rows are not the one to keep.
pub open spec fn others(rows: Seq<EpochRow>, keep: Seq<char>, n: int) -> int
    decreases n,
{
    if n <= 0 {
        0
    } else {
        others(rows, keep, n - 1) + if rows[n - 1].key@ != keep {
            1int
        } else {
            0
        }
    }
}

/// Row `i` is one of the oldest that have to go: rows are in the order of their
/// epochs, and the one to keep is passed over.
pub open spec fn is_victim(rows: Seq<EpochRow>, keep: Seq<char>, i: int) -> bool {
    &&& 0 <= i < rows.len()
    &&& rows[i].key@ != keep
    &&& others(rows, keep, i) < rows.len() - EPOCHS_PER_COLLECTOR_CAP
}

/// How many rows go: as many as there are too many, as far as there are others
/// than the one to keep.
pub open spec fn victim_count(rows: Seq<EpochRow>, keep: Seq<char>) -> int {
    let excess = if rows.len() > EPOCHS_PER_COLLECTOR_CAP {
        rows.len() - EPOCHS_PER_COLLECTOR_CAP
    } else {
        0
    };
    if others(rows, keep, rows.len() as int) < excess {
        others(rows, keep, rows.len() as int)
    } else {
        excess
    }
}

/// Where each key occurs once, no more epochs are kept than the cap allows.
pub proof fn epochs_stay_few(rows: Seq<EpochRow>, keep: Seq<char>)
    requires
        forall|i: int, j: int|
            0 <= i < j < rows.len() ==> (#[trigger] rows[i]).key@ != (#[trigger] rows[j]).key@,
    ensures
        rows.len() - victim_count(rows, keep) <= EPOCHS_PER_COLLECTOR_CAP,
{
    nearly_all_others(rows, keep, rows.len() as int);
}

proof fn nearly_all_others(rows: Seq<EpochRow>, keep: Seq<char>, n: int)
    requires
        0 <= n <= rows.len(),
        forall|i: int, j: int|
            0 <= i < j < rows.len() ==> (#[trigger] rows[i]).key@ != (#[trigger] rows[j]).key@,
    ensures
        others(rows, keep, n) >= n - 1,
        (forall|j: int| 0 <= j < n ==> (#[trigger] rows[j]).key@ != keep) ==> others(rows, keep, n) == n,
    decreases n,
{
    if n > 0 {
        nearly_all_others(rows, keep, n - 1);
        if rows[n - 1].key@ == keep {
            assert forall|j: int| 0 <= j < n - 1 implies (#[trigger] rows[j]).key@ != keep by {
                assert(rows[j].key@ != rows[n - 1].key@);
            }
        }
    }
}

/// The outstanding numbers of the victims among the first `n` rows.
pub open spec fn orphaned(rows: Seq<EpochRow>, keep: Seq<char>, n: int) -> int
    decreases n,
{
    if n <= 0 {
        0
    } else {
        orphaned(rows, keep, n - 1) + if is_victim(rows, keep, n - 1) {
            match rows[n - 1].state {
                Some(s) => s.missing@.len() as int,
                None => 0,
            }
        } else {
            0
        }
    }
}

/// Row `i` is the oldest that stays.
pub open spec fn is_oldest_kept(rows: Seq<EpochRow>, keep: Seq<char>, i: int) -> bool {
    &&& 0 <= i < rows.len()
    &&& !is_victim(rows, keep, i)
    &&& forall|j: int| 0 <= j < i ==> is_victim(rows, keep, j)
}

/// A sequence with `n` more numbers counted as lost.
pub open spec fn with_losses(s: SeqState, n: int, r: SeqState) -> bool {
    &&& r.first_seq == s.first_seq && r.high == s.high && r.missing@ == s.missing@
    &&& r.replays == s.replays && r.updated_us == s.updated_us
    &&& r.gaps == raised(s.gaps, n)
}

/// Decides which epochs of a collector go. The rows are all of its rows in the
/// order of their keys, and `keep_key` is the one that was just written. What was
/// outstanding in an epoch that goes is counted as lost in the oldest that stays.
pub fn evict_stale_epochs(rows: &Vec<EpochRow>, keep_key: &str) -> (r: Eviction)
    ensures
        forall|i: int| is_victim(rows@, keep_key@, i) == r.victims@.contains(i as usize) || i < 0 || i
            > usize::MAX,
        forall|k: int| 0 <= k < r.victims@.len() ==> is_victim(rows@, keep_key@, #[trigger] r.victims@[k] as int),
        forall|k: int, m: int| 0 <= k < m < r.victims@.len() ==> r.victims@[k] < r.victims@[m],
        r.victims@.len() == victim_count(rows@, keep_key@),
        match r.rewritten {
            Some((i, s)) => {
                &&& orphaned(rows@, keep_key@, rows@.len() as int) > 0
                &&& is_oldest_kept(rows@, keep_key@, i as int)
                &&& rows@[i as int].state is Some
                &&& with_losses(
                    rows@[i as int].state->0,
                    orphaned(rows@, keep_key@, rows@.len() as int),
                    s,
                )
            },
            None => orphaned(rows@, keep_key@, rows@.len() as int) == 0 || exists|i: int|
                #[trigger] is_oldest_kept(rows@, keep_key@, i) && rows@[i].state is None,
        },
{
    let n: usize = rows.len();
    let ghost keep = keep_key@;
    let excess: usize = if n > EPOCHS_PER_COLLECTOR_CAP {
        n - EPOCHS_PER_COLLECTOR_CAP
    } else {
        0
    };
    let mut victims: Vec<usize> = Vec::new();
    let mut kept: Option<usize> = None;
    let mut seen: usize = 0;
    let mut lost: u64 = 0;
    let mut i: usize = 0;
    while i < n
        invariant
            i <= n == rows@.len(),
            keep == keep_key@,
            excess == if n > EPOCHS_PER_COLLECTOR_CAP {
                n - EPOCHS_PER_COLLECTOR_CAP
            } else {
                0
            },
            seen == others(rows@, keep, i as int),
            seen <= i,
            victims@.len() == if seen < excess {
                seen
            } else {
                excess
            },
            lost == raised(0, orphaned(rows@, keep, i as int)),
            orphaned(rows@, keep, i as int) >= 0,
            forall|j: int| 0 <= j < i ==> is_victim(rows@, keep, j) == victims@.contains(j as usize),
            forall|k: int|
                0 <= k < victims@.len() ==> victims@[k] < i && is_victim(
                    rows@,
                    keep,
                    #[trigger] victims@[k] as int,
                ),
            forall|k: int, m: int| 0 <= k < m < victims@.len() ==> victims@[k] < victims@[m],
            match kept {
                Some(k) => k < i && is_oldest_kept(rows@, keep, k as int),
                None => forall|j: int| 0 <= j < i ==> is_victim(rows@, keep, j),
            },
        decreases n - i,
    {
        let ghost before = victims@;
        let other = !same(rows[i].key.as_str(), keep_key);
        if other && seen < excess {
            victims.push(i);
            proof {
                assert(victims@[victims@.len() - 1] == i);
                assert forall|j: int| 0 <= j < i + 1 implies is_victim(rows@, keep, j)
                    == victims@.contains(j as usize) by {
                    if j < i {
                        if before.contains(j as usize) {
                            let k = choose|k: int| 0 <= k < before.len() && before[k] == j as usize;
                            assert(victims@[k] == j as usize);
                        }
                        if victims@.contains(j as usize) {
                            let k = choose|k: int| 0 <= k < victims@.len() && victims@[k] == j as usize;
                            assert(before[k] == j as usize);
                        }
                    }
                }
            }
            match &rows[i].state {
                Some(s) => {
                    lost = lost.saturating_add(s.missing.len() as u64);
                },
                None => {},
            }
        } else {
            if kept.is_none() {
                kept = Some(i);
            }
        }
        if other {
            seen += 1;
        }
        i += 1;
    }
    proof {
        assert forall|j: int| 0 <= j <= usize::MAX implies is_victim(rows@, keep, j)
            == victims@.contains(j as usize) by {
            if j >= n {
                if victims@.contains(j as usize) {
                    let k = choose|k: int| 0 <= k < victims@.len() && victims@[k] == j as usize;
                    assert(victims@[k] < n);
                }
            }
        }
        if kept is None && n > 0 {
            victims_are_few(rows@, keep, n as int);
        }
    }
    let mut rewritten: Option<(usize, SeqState)> = None;
    if lost > 0 {
        match kept {
            Some(k) => {
                match &rows[k].state {
                    Some(s) => {
                        let folded = SeqState {
                            first_seq: s.first_seq,
                            high: s.high,
                            missing: s.missing.clone(),
                            gaps: s.gaps.saturating_add(lost),
                            replays: s.replays,
                            updated_us: s.updated_us,
                        };
                        assert(folded.missing@ =~= s.missing@);
                        rewritten = Some((k, folded));
                    },
                    None => {},
                }
            },
            None => {},
        }
    }
    Eviction { victims, rewritten }
}

proof fn victims_are_few(rows: Seq<EpochRow>, keep: Seq<char>, n: int)
    requires
        0 < n <= rows.len(),
        n == rows.len(),
    ensures
        exists|j: int| 0 <= j < n && !is_victim(rows, keep, j),
{
    if forall|j: int| 0 <= j < n ==> is_victim(rows, keep, j) {
        all_others(rows, keep, n - 1);
        assert(is_victim(rows, keep, n - 1));
        assert(false);
    }
}

proof fn all_others(rows: Seq<EpochRow>, keep: Seq<char>, n: int)
    requires
        0 <= n <= rows.len(),
        forall|j: int| 0 <= j < n ==> is_victim(rows, keep, j),
    ensures
        others(rows, keep, n) == n,
    decreases n,
{
    if n > 0 {
        assert(is_victim(rows, keep, n - 1));
        all_others(rows, keep, n - 1);
    }
}

/// The verdicts. The first number of an epoch begins it. The next number advances and leaves
/// nothing else changed. A lower number that is outstanding is resolved, it alone; any other
/// lower number is a replay, and counted as one. A jump ahead makes the numbers in between
/// outstanding, and the oldest that are too many are lost, as many as the verdict says.
pub proof fn what_a_number_means(was: SeqState, seq: u64, is_new: bool, now: SeqState, v: SeqVerdict)
    requires
        was.wf(),
        observed(was, seq, is_new, now, v),
    ensures
        v is FirstOfEpoch <==> is_new,
        is_new ==> now.first_seq == seq && now.high == seq && now.gaps == was.gaps,
        !is_new && seq == was.high + 1 ==> v == SeqVerdict::Advance && now.high == seq
            && now.missing@ == was.missing@ && now.gaps == was.gaps && now.replays == was.replays,
        !is_new && seq > was.high ==> now.high == seq && now.replays == was.replays,
        !is_new && seq <= was.high ==> now.high == was.high && now.gaps == was.gaps,
        v is Reordered <==> !is_new && seq <= was.high && was.missing@.contains(seq),
        v is Reordered ==> now.replays == was.replays && now.missing@.len() == was.missing@.len()
            - 1,
        v is Reordered ==> forall|n: u64| #[trigger]
            now.missing@.contains(n) <==> was.missing@.contains(n) && n != seq,
        v is Replay <==> !is_new && seq <= was.high && !was.missing@.contains(seq),
        v is Replay ==> now.missing@ == was.missing@ && (was.replays < u64::MAX ==> now.replays
            == was.replays + 1),
        v is Gap <==> !is_new && seq > was.high && was.missing@.len() + (seq - was.high - 1)
            > 4096,
        v is Gap ==> v->newly_lost == was.missing@.len() + (seq - was.high - 1) - 4096,
        v is Gap ==> now.missing@.len() == 4096,
        v is Gap && was.gaps + v->newly_lost <= u64::MAX ==> now.gaps - was.gaps == v->newly_lost,
        v is Gap ==> forall|n: u64|
            was.high < n && n < seq && !#[trigger] now.missing@.contains(n) ==> forall|i: int|
                0 <= i < now.missing@.len() ==> now.missing@[i] > n,
{
    if v is Reordered {
        let k = was.missing@.index_of(seq);
        assert(was.missing@[k] == seq);
        assert forall|n: u64| #[trigger] now.missing@.contains(n) <==> was.missing@.contains(n) && n
            != seq by {
            if now.missing@.contains(n) {
                let i = now.missing@.index_of(n);
                assert(now.missing@[i] == n);
                if i < k {
                    assert(was.missing@[i] == n);
                } else {
                    assert(was.missing@[i + 1] == n);
                }
            }
            if was.missing@.contains(n) && n != seq {
                let i = was.missing@.index_of(n);
                assert(was.missing@[i] == n);
                if i < k {
                    assert(now.missing@[i] == n);
                } else {
                    assert(now.missing@[i - 1] == n);
                }
            }
        }
    }
    if !is_new && seq > was.high {
        let open = outstanding_after(was, seq);
        let lost = excess(open.len());
        if seq == was.high + 1 {
            assert(open =~= was.missing@);
            assert(open.skip(0) =~= open);
        }
        if v is Gap {
            assert forall|n: u64| was.high < n && n < seq && !#[trigger] now.missing@.contains(
                n,
            ) implies forall|i: int| 0 <= i < now.missing@.len() ==> now.missing@[i] > n by {
                let j = was.missing@.len() + (n - was.high - 1);
                assert(open[j] == n);
                if j >= lost {
                    assert(now.missing@[j - lost] == n);
                }
                assert forall|i: int| 0 <= i < now.missing@.len() implies now.missing@[i] > n by {
                    assert(now.missing@[i] == open[lost + i]);
                }
            }
        }
    }
}

/// The epochs that go are the oldest but for the one that was just written, which never
/// goes, and none goes while there are sixteen or fewer.
pub proof fn the_oldest_epochs_go(rows: Seq<EpochRow>, keep: Seq<char>, i: int, j: int)
    requires
        0 <= j < i < rows.len(),
    ensures
        rows[i].key@ == keep ==> !is_victim(rows, keep, i),
        is_victim(rows, keep, i) && rows[j].key@ != keep ==> is_victim(rows, keep, j),
        rows.len() <= 16 ==> !is_victim(rows, keep, i) && !is_victim(rows, keep, j),
        rows.len() > 16 && rows[0].key@ != keep ==> is_victim(rows, keep, 0),
        victim_count(rows, keep) <= if rows.len() > 16 {
            rows.len() - 16
        } else {
            0
        },
{
    others_grow(rows, keep, j, i);
    others_grow(rows, keep, 0, i);
    others_grow(rows, keep, 0, j);
}

proof fn others_grow(rows: Seq<EpochRow>, keep: Seq<char>, m: int, n: int)
    requires
        0 <= m <= n <= rows.len(),
    ensures
        0 <= others(rows, keep, m) <= others(rows, keep, n),
    decreases n,
{
    if m < n {
        others_grow(rows, keep, m, n - 1);
    } else if n > 0 {
        others_grow(rows, keep, m - 1, n - 1);
    }
}

/// Numbers that are taken over as lost are added to the count, as far as it goes, and change
/// nothing else.
pub proof fn losses_are_added(s: SeqState, n: int, r: SeqState)
    requires
        with_losses(s, n, r),
        n >= 0,
    ensures
        s.gaps + n <= u64::MAX ==> r.gaps - s.gaps == n,
        s.gaps + n > u64::MAX ==> r.gaps == u64::MAX,
        (r.first_seq, r.high, r.replays, r.updated_us) == (
            s.first_seq,
            s.high,
            s.replays,
            s.updated_us,
        ),
        r.missing@ == s.missing@,
{
}

} // verus!
