//! The decisions of the writer that owns the events table: what becomes of a
//! submission, when the table is rebuilt, and what a rebuild leaves to clean up.

use crate::events::dedup::{self, Dedup};
use crate::numerals;
use crate::text::{self, same, starts_with};
use vstd::prelude::*;

verus! {

/// How long after a failed rebuild none is tried, in milliseconds.
pub const COMPACT_FAIL_COOLDOWN_MS: u64 = 600_000;

/// The least number of snapshots that sets off a rebuild. A rebuilt table starts
/// over with one, so that a smaller number would rebuild after nearly every append.
pub const COMPACT_THRESHOLD_FLOOR: usize = 8;

/// Half of the cores, and at least one.
pub open spec fn partitions(available: usize) -> int {
    if available / 2 == 0 {
        1
    } else {
        available as int / 2
    }
}

/// The cores that one analytical query may use: half of them, and at least one.
pub fn query_partitions(available: usize) -> (r: usize)
    ensures
        r == partitions(available),
        available >= 2 ==> 2 * r <= available,
{
    let half: usize = available / 2;
    if half == 0 {
        1
    } else {
        half
    }
}

/// The threshold that a configured number of snapshots stands for.
pub open spec fn threshold_of(configured: u32) -> int {
    if configured == 0 {
        0
    } else if configured < COMPACT_THRESHOLD_FLOOR {
        COMPACT_THRESHOLD_FLOOR as int
    } else {
        configured as int
    }
}

/// The threshold that a configured number of snapshots stands for: none, which
/// switches rebuilds off, or at least the floor.
pub fn compact_threshold(configured: u32) -> (r: usize)
    ensures
        r == threshold_of(configured),
{
    let n: usize = configured as usize;
    if n == 0 {
        0
    } else if n < COMPACT_THRESHOLD_FLOOR {
        COMPACT_THRESHOLD_FLOOR
    } else {
        n
    }
}

/// What the writer remembers between submissions: the ids that it admitted last, where
/// repeats are dropped at all.
pub struct Intake {
    dedup: Option<Dedup>,
}

impl Intake {
    /// The remembered ids and how many are remembered at most, where repeats are
    /// dropped.
    pub closed spec fn memory(&self) -> Option<(Seq<Seq<char>>, nat)> {
        match self.dedup {
            Some(d) => Some((d.recent(), d.capacity())),
            None => None,
        }
    }

    /// An intake that remembers `cap` ids; with none it drops nothing.
    pub fn new(cap: usize) -> (r: Intake)
        ensures
            r.memory() == if cap > 0 {
                Some((Seq::<Seq<char>>::empty(), cap as nat))
            } else {
                None
            },
    {
        if cap > 0 {
            Intake { dedup: Some(Dedup::new(cap)) }
        } else {
            Intake { dedup: None }
        }
    }

    /// Which rows of a batch to keep, by their ids. Without ids, or where repeats are
    /// not dropped, every row is kept.
    pub fn mask(&mut self, rows: usize, ids: Option<&Vec<Option<String>>>) -> (r: Vec<bool>)
        requires
            ids is Some ==> ids->0.len() == rows,
        ensures
            r.len() == rows,
            match (old(self).memory(), ids) {
                (Some(m), Some(v)) => {
                    &&& forall|i: int|
                        0 <= i < rows ==> (#[trigger] r@[i]) == dedup::kept(
                            m.0,
                            m.1,
                            dedup::id_texts(v@),
                            i,
                        )
                    &&& final(self).memory() == Some(
                        (dedup::remembered_all(m.0, m.1, dedup::id_texts(v@)), m.1),
                    )
                },
                _ => {
                    &&& forall|i: int| 0 <= i < rows ==> #[trigger] r@[i]
                    &&& final(self).memory() == old(self).memory()
                },
            },
    {
        if let Some(v) = ids {
            if let Some(d) = &mut self.dedup {
                return d.mask(v);
            }
        }
        let mut r: Vec<bool> = Vec::new();
        let mut i: usize = 0;
        while i < rows
            invariant
                i <= rows,
                r@.len() == i,
                forall|j: int| 0 <= j < i ==> #[trigger] r@[j],
            decreases rows - i,
        {
            r.push(true);
            i += 1;
        }
        r
    }
}

/// When the writer rebuilds its table. Snapshots count from the last rebuild on, so
/// that a table of any size comes to rest, and a failed attempt is not repeated at
/// once.
pub struct CompactPolicy {
    /// Rebuild at this many snapshots since the last rebuild; never where it is zero.
    pub threshold: usize,
    /// The snapshots that the last rebuild left.
    pub baseline: usize,
    /// When the last attempt failed, if no later one succeeded.
    pub failed_at_ms: Option<u64>,
}

impl CompactPolicy {
    /// A rebuild is due.
    pub open spec fn wants(&self, appended: bool, snapshots: usize, now_ms: u64) -> bool {
        &&& appended
        &&& self.threshold > 0
        &&& snapshots >= self.baseline + self.threshold
        &&& self.failed_at_ms is Some ==> now_ms >= self.failed_at_ms->0 + COMPACT_FAIL_COOLDOWN_MS
    }

    pub fn new(threshold: usize) -> (r: CompactPolicy)
        ensures
            r == (CompactPolicy { threshold, baseline: 1, failed_at_ms: None }),
    {
        CompactPolicy { threshold, baseline: 1, failed_at_ms: None }
    }

    /// Whether to rebuild now, after an append or none.
    pub fn due(&self, appended: bool, snapshots: usize, now_ms: u64) -> (r: bool)
        ensures
            r == self.wants(appended, snapshots, now_ms),
    {
        if !appended || self.threshold == 0 {
            return false;
        }
        let since: usize = if snapshots >= self.baseline {
            snapshots - self.baseline
        } else {
            0
        };
        let cooled = match self.failed_at_ms {
            Some(t) => now_ms >= t && now_ms - t >= COMPACT_FAIL_COOLDOWN_MS,
            None => true,
        };
        since >= self.threshold && cooled
    }

    /// Takes note of an attempt: the snapshots that a rebuild left, or when it
    /// failed.
    pub fn attempted(&mut self, rebuilt: Option<usize>, now_ms: u64)
        ensures
            *final(self) == match rebuilt {
                Some(snapshots) => CompactPolicy {
                    threshold: old(self).threshold,
                    baseline: snapshots,
                    failed_at_ms: None,
                },
                None => CompactPolicy {
                    threshold: old(self).threshold,
                    baseline: old(self).baseline,
                    failed_at_ms: Some(now_ms),
                },
            },
    {
        match rebuilt {
            Some(snapshots) => {
                self.baseline = snapshots;
                self.failed_at_ms = None;
            },
            None => {
                self.failed_at_ms = Some(now_ms);
            },
        }
    }
}

/// After a rebuild the next one waits for as many appends as the threshold names,
/// each of which adds one snapshot.
pub proof fn rebuilds_wait_for_appends(p: CompactPolicy, appends: nat, snapshots: usize, now_ms: u64)
    requires
        p.failed_at_ms is None,
        p.threshold > 0,
        snapshots == p.baseline + appends,
    ensures
        p.wants(true, snapshots, now_ms) == (appends >= p.threshold),
{
}

/// After a failed attempt no other is made before the cooldown is over.
pub proof fn a_failure_is_not_repeated_at_once(
    p: CompactPolicy,
    failed_ms: u64,
    appended: bool,
    snapshots: usize,
    now_ms: u64,
)
    requires
        p.failed_at_ms == Some(failed_ms),
        now_ms < failed_ms + COMPACT_FAIL_COOLDOWN_MS,
    ensures
        !p.wants(appended, snapshots, now_ms),
{
}

/// What to do about a table handle that has to follow a swapped table.
#[derive(Clone, Copy, Debug, PartialEq, Eq, Structural)]
pub enum Reload {
    /// Try again after so many seconds.
    RetryAfter(u64),
    /// Leave with this status and be restarted: an append through the old handle
    /// would go into files that are about to be removed.
    Exit(i32),
}

/// What to do once reloading the handle failed for the given time in a row.
pub fn reload_failed(failures: u32) -> (r: Reload)
    ensures
        r == if failures <= 1 {
            Reload::RetryAfter(2)
        } else {
            Reload::Exit(70)
        },
{
    if failures <= 1 {
        Reload::RetryAfter(2)
    } else {
        Reload::Exit(70)
    }
}

/// A name made of the prefix and at least one digit behind it, and nothing else.
pub open spec fn scratch(candidate: Seq<char>, prefix: Seq<char>) -> bool {
    &&& text::starts(candidate, prefix)
    &&& candidate.len() > prefix.len()
    &&& forall|i: int|
        prefix.len() <= i < candidate.len() ==> numerals::is_digit(#[trigger] candidate[i])
}

/// Whether a name is that of a scratch table. A table that merely shares the prefix
/// is none.
pub fn is_scratch(candidate: &str, scratch_prefix: &str) -> (r: bool)
    ensures
        r == scratch(candidate@, scratch_prefix@),
{
    if !starts_with(candidate, scratch_prefix) {
        return false;
    }
    let c = text::chars_of(candidate);
    let p = text::chars_of(scratch_prefix);
    if c.len() <= p.len() {
        return false;
    }
    let mut i: usize = p.len();
    while i < c.len()
        invariant
            p.len() <= i <= c.len(),
            c@ == candidate@,
            p@ == scratch_prefix@,
            forall|j: int| p.len() <= j < i ==> numerals::is_digit(#[trigger] c@[j]),
        decreases c.len() - i,
    {
        if !('0' <= c[i] && c[i] <= '9') {
            assert(!numerals::is_digit(c@[i as int]));
            return false;
        }
        i += 1;
    }
    true
}

/// The prefix of the scratch tables of a table.
pub fn scratch_prefix(table: &str) -> (r: String)
    ensures
        r@ == table@ + "__c"@,
{
    let mut r = String::from_str(table);
    r.append("__c");
    r
}

/// The directory of a table's location, where it is a local one.
pub open spec fn local_path(location: Seq<char>) -> Option<Seq<char>> {
    if text::starts(location, "file://"@) {
        Some(location.skip("file://"@.len() as int))
    } else {
        None
    }
}

/// The directory of a table's location, where it is a local one.
pub fn local_dir(location: &str) -> (r: Option<String>)
    ensures
        text::opt_text(r) == local_path(location@),
{
    if !starts_with(location, "file://") {
        return None;
    }
    let c = text::chars_of(location);
    let n: usize = text::chars_of("file://").len();
    let mut r = String::new();
    let mut i: usize = n;
    while i < c.len()
        invariant
            n == "file://"@.len(),
            n <= i <= c.len(),
            c@ == location@,
            r@ == c@.subrange(n as int, i as int),
        decreases c.len() - i,
    {
        r.push(c[i]);
        i += 1;
        assert(r@ =~= c@.subrange(n as int, i as int));
    }
    assert(r@ =~= location@.skip(n as int));
    Some(r)
}

/// A directory is left over from a rebuild of a table: it has the table's name or
/// that of a scratch table, and it is not the live one. Where the live one is not
/// known, none is.
pub open spec fn orphan(
    name: Seq<char>,
    path: Seq<char>,
    table: Seq<char>,
    live_dir: Option<Seq<char>>,
) -> bool {
    live_dir is Some && (name == table || scratch(name, table + "__c"@)) && path != live_dir->0
}

/// Whether a directory is left over from a rebuild of a table.
pub fn is_orphan(name: &str, path: &str, table: &str, live_dir: Option<&str>) -> (r: bool)
    ensures
        r == orphan(
            name@,
            path@,
            table@,
            match live_dir {
                Some(d) => Some(d@),
                None => None,
            },
        ),
{
    match live_dir {
        None => false,
        Some(live) => {
            let prefix = scratch_prefix(table);
            (same(name, table) || is_scratch(name, prefix.as_str())) && !same(path, live)
        },
    }
}

/// The live directory of a table is never taken for a leftover.
pub proof fn the_live_directory_stays(name: Seq<char>, table: Seq<char>, live: Option<Seq<char>>)
    ensures
        live is Some ==> !orphan(name, live->0, table, live),
        forall|path: Seq<char>| live is None ==> !#[trigger] orphan(name, path, table, live),
{
}

/// A rebuild is due exactly where rows were appended, rebuilds are not switched off, as many
/// snapshots as the threshold names came since the last, and ten minutes have passed since an
/// attempt failed, if one did.
pub proof fn when_a_rebuild_is_due(p: CompactPolicy, appended: bool, snapshots: usize, now_ms: u64)
    ensures
        p.wants(appended, snapshots, now_ms) <==> {
            &&& appended
            &&& p.threshold != 0
            &&& snapshots - p.baseline >= p.threshold
            &&& p.failed_at_ms is None || now_ms - p.failed_at_ms->0 >= 10 * 60 * 1000
        },
{
}

/// The name of a scratch table is the prefix with a numeral behind it, and no other name
/// is.
pub proof fn scratch_names_end_in_a_numeral(candidate: Seq<char>, prefix: Seq<char>)
    ensures
        scratch(candidate, prefix) <==> exists|n: Seq<char>|
            candidate == #[trigger] (prefix + n) && numerals::is_numeral(n),
{
    if scratch(candidate, prefix) {
        text::starts_and_ends_are_parts(candidate, prefix);
        let n = choose|n: Seq<char>| candidate == #[trigger] (prefix + n);
        assert forall|i: int| 0 <= i < n.len() implies numerals::is_digit(#[trigger] n[i]) by {
            assert(candidate[prefix.len() + i] == n[i]);
        }
        assert(numerals::is_numeral(n));
    }
    if exists|n: Seq<char>| candidate == #[trigger] (prefix + n) && numerals::is_numeral(n) {
        let n = choose|n: Seq<char>| candidate == #[trigger] (prefix + n) && numerals::is_numeral(n);
        text::starts_and_ends_are_parts(candidate, prefix);
        assert forall|i: int| prefix.len() <= i < candidate.len() implies numerals::is_digit(
            #[trigger] candidate[i],
        ) by {
            assert(candidate[i] == n[i - prefix.len()]);
        }
    }
}

/// The directory of a local location is what stands behind the scheme, and a location of
/// another scheme has none.
pub proof fn a_local_location_names_its_directory(location: Seq<char>, dir: Seq<char>)
    ensures
        local_path("file://"@ + dir) == Some(dir),
        local_path(location) == Some(dir) ==> location == "file://"@ + dir,
        local_path(location) is None <==> forall|rest: Seq<char>|
            location != #[trigger] ("file://"@ + rest),
{
    let p = "file://"@;
    assert((p + dir).take(p.len() as int) =~= p);
    assert((p + dir).skip(p.len() as int) =~= dir);
    text::starts_and_ends_are_parts(location, p);
    if local_path(location) is Some {
        let rest = choose|rest: Seq<char>| location == #[trigger] (p + rest);
        assert(location.skip(p.len() as int) =~= rest);
    }
}

/// A directory is a leftover only where it bears the name of the table or of one of its
/// scratch tables, the live directory is known, and it is another one. Every such directory
/// is.
pub proof fn leftovers_bear_the_name_of_the_table(
    name: Seq<char>,
    path: Seq<char>,
    table: Seq<char>,
    live: Seq<char>,
)
    ensures
        orphan(name, path, table, Some(live)) <==> path != live && (name == table || exists|
            n: Seq<char>,
        | name == #[trigger] (table + "__c"@ + n) && numerals::is_numeral(n)),
{
    scratch_names_end_in_a_numeral(name, table + "__c"@);
    if exists|n: Seq<char>| name == #[trigger] (table + "__c"@ + n) && numerals::is_numeral(n) {
        let n = choose|n: Seq<char>|
            name == #[trigger] (table + "__c"@ + n) && numerals::is_numeral(n);
        assert(name == (table + "__c"@) + n);
    }
    if scratch(name, table + "__c"@) {
        let n = choose|n: Seq<char>|
            name == #[trigger] ((table + "__c"@) + n) && numerals::is_numeral(n);
        assert(name == table + "__c"@ + n);
    }
}

/// A query uses half of the cores, and one where there are not two.
pub proof fn a_query_uses_half_of_the_cores(available: usize)
    ensures
        partitions(available) >= 1,
        available >= 2 ==> 2 * partitions(available) <= available < 2 * partitions(available) + 2,
        available < 2 ==> partitions(available) == 1,
{
}

/// No configured number switches rebuilds off but zero, and none sets them off sooner than
/// after eight snapshots. From there on the number is taken as it is.
pub proof fn a_threshold_is_eight_at_least(configured: u32)
    ensures
        threshold_of(configured) == 0 <==> configured == 0,
        configured > 0 ==> threshold_of(configured) >= 8 && threshold_of(configured) >= configured,
        configured >= 8 ==> threshold_of(configured) == configured,
        0 < configured && configured <= 8 ==> threshold_of(configured) == 8,
{
}

} // verus!
