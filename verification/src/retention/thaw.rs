//! Reading archives back: which of them a query touches, and what keeps it from
//! touching them.

use crate::archive::ColdArchive;
use crate::numerals::{self, decimal, decimal_padded};
use crate::retention::archiver::{self, kind_from_str, ColdArchiverKind};
use crate::text::{self, same, starts_with};
use vstd::prelude::*;

verus! {

/// The most bytes that a query without bounds may thaw.
pub const UNBOUNDED_THAW_BUDGET: u64 = 4_294_967_296;

/// Scratch directories older than this many seconds belong to no running query.
pub const STALE_SCRATCH_SECS: u64 = 86_400;

/// The archives whose window meets the given one.
pub open spec fn met(
    archives: Seq<ColdArchive>,
    from_us: Option<i64>,
    to_us: Option<i64>,
) -> Seq<ColdArchive>
    decreases archives.len(),
{
    if archives.len() == 0 {
        archives
    } else {
        let before = met(archives.drop_last(), from_us, to_us);
        if archives.last().meets(from_us, to_us) {
            before.push(archives.last())
        } else {
            before
        }
    }
}

/// The archives whose window meets the given one, in their order.
pub fn overlapping(archives: &Vec<ColdArchive>, from_us: Option<i64>, to_us: Option<i64>) -> (r: Vec<
    ColdArchive,
>)
    ensures
        r@ == met(archives@, from_us, to_us),
{
    let mut r: Vec<ColdArchive> = Vec::new();
    let mut i: usize = 0;
    while i < archives.len()
        invariant
            i <= archives.len(),
            r@ == met(archives@.take(i as int), from_us, to_us),
        decreases archives.len() - i,
    {
        if archives[i].overlaps(from_us, to_us) {
            r.push(archives[i].copied());
        }
        i += 1;
        assert(archives@.take(i as int).drop_last() =~= archives@.take(i - 1));
    }
    assert(archives@.take(i as int) =~= archives@);
    r
}

/// The bytes of the payloads of some archives.
pub open spec fn payload_bytes(archives: Seq<ColdArchive>) -> nat
    decreases archives.len(),
{
    if archives.len() == 0 {
        0
    } else {
        payload_bytes(archives.drop_last()) + archives.last().bytes_in as nat
    }
}

proof fn payload_grows(archives: Seq<ColdArchive>, i: int)
    requires
        0 <= i <= archives.len(),
    ensures
        payload_bytes(archives.take(i)) <= payload_bytes(archives),
    decreases archives.len() - i,
{
    if i < archives.len() {
        payload_grows(archives, i + 1);
        assert(archives.take(i + 1).drop_last() =~= archives.take(i));
    } else {
        assert(archives.take(i) =~= archives);
    }
}

/// What is reported of a query that would thaw too much.
pub open spec fn too_much(archives: Seq<ColdArchive>) -> Seq<char> {
    "unbounded cold query would thaw "@ + numerals::numeral(archives.len()) + " archives (~"@
        + numerals::numeral(payload_bytes(archives) / 1_048_576)
        + " MB) to scratch disk — narrow it with --from/--to"@
}

/// A query that names an end of its range may thaw any number of bytes, another one only so
/// many.
pub open spec fn thawable(bytes: nat, from_us: Option<i64>, to_us: Option<i64>) -> bool {
    from_us is Some || to_us is Some || bytes <= UNBOUNDED_THAW_BUDGET
}

/// Whether a query may thaw the archives that it meets. One with a bound may, since
/// its range was named; one without may where they are small enough.
pub fn may_thaw(archives: &Vec<ColdArchive>, from_us: Option<i64>, to_us: Option<i64>) -> (r: Result<
    (),
    String,
>)
    requires
        payload_bytes(archives@) <= u64::MAX,
    ensures
        match r {
            Ok(()) => thawable(payload_bytes(archives@), from_us, to_us),
            Err(e) => !thawable(payload_bytes(archives@), from_us, to_us) && e@ == too_much(
                archives@,
            ),
        },
{
    if from_us.is_some() || to_us.is_some() {
        return Ok(());
    }
    let mut total: u64 = 0;
    let mut i: usize = 0;
    while i < archives.len()
        invariant
            i <= archives.len(),
            payload_bytes(archives@) <= u64::MAX,
            total == payload_bytes(archives@.take(i as int)),
        decreases archives.len() - i,
    {
        assert(archives@.take(i + 1).drop_last() =~= archives@.take(i as int));
        proof {
            payload_grows(archives@, i + 1);
        }
        total = total + archives[i].bytes_in;
        i += 1;
    }
    assert(archives@.take(i as int) =~= archives@);
    if total > UNBOUNDED_THAW_BUDGET {
        let mut m = String::from_str("unbounded cold query would thaw ");
        m.append(decimal(archives.len() as u64).as_str());
        m.append(" archives (~");
        m.append(decimal(total / 1_048_576).as_str());
        m.append(" MB) to scratch disk — narrow it with --from/--to");
        return Err(m);
    }
    Ok(())
}

/// Whether an archive's bytes are those that were sealed. Others are not read.
pub fn check_integrity(path: &str, actual: &str, recorded: &str) -> (r: Result<(), String>)
    ensures
        match r {
            Ok(()) => actual@ == recorded@,
            Err(e) => actual@ != recorded@ && e@ == "cold archive "@ + path@
                + " failed its integrity check (checksum mismatch) — refusing to query it"@,
        },
{
    if same(actual, recorded) {
        return Ok(());
    }
    let mut m = String::from_str("cold archive ");
    m.append(path);
    m.append(" failed its integrity check (checksum mismatch) — refusing to query it");
    Err(m)
}

/// The scratch file of the archive at a place of the list.
pub fn part_name(i: usize) -> (r: String)
    ensures
        r@ == "part-"@ + numerals::padded(i as nat, 5) + ".parquet"@,
{
    let mut r = String::from_str("part-");
    r.append(decimal_padded(i as u64, 5).as_str());
    r.append(".parquet");
    r
}

/// Different archives have different scratch files.
pub proof fn part_names_differ(i: u64, j: u64)
    requires
        i != j,
    ensures
        "part-"@ + numerals::padded(i as nat, 5) + ".parquet"@ != "part-"@ + numerals::padded(
            j as nat,
            5,
        ) + ".parquet"@,
{
    let a = "part-"@ + numerals::padded(i as nat, 5) + ".parquet"@;
    let b = "part-"@ + numerals::padded(j as nat, 5) + ".parquet"@;
    if a == b {
        let n = "part-"@.len() as int;
        let m = ".parquet"@.len() as int;
        assert(a.subrange(n, a.len() - m) =~= numerals::padded(i as nat, 5));
        assert(b.subrange(n, b.len() - m) =~= numerals::padded(j as nat, 5));
        numerals::reading_undoes_padding(i, 5);
        numerals::reading_undoes_padding(j, 5);
    }
}

/// The directory has the name of scratch, and is known to be old.
pub open spec fn stale_scratch(name: Seq<char>, age_secs: Option<u64>) -> bool {
    text::starts(name, ".thaw-"@) && age_secs is Some && age_secs->0 > STALE_SCRATCH_SECS
}

/// Whether a directory is scratch that no query uses any more: it has the name of
/// scratch, and is known to be old.
pub fn is_stale_scratch(name: &str, age_secs: Option<u64>) -> (r: bool)
    ensures
        r == stale_scratch(name@, age_secs),
{
    match age_secs {
        Some(age) => starts_with(name, ".thaw-") && age > STALE_SCRATCH_SECS,
        None => false,
    }
}

/// What a cold query does next. The number is the place of an archive.
#[derive(Clone, Copy, Debug, PartialEq, Eq, Structural)]
pub enum ThawAction {
    /// Look whether its file is there.
    Look(usize),
    /// Fetch its file from the object store.
    Fetch(usize),
    /// Hash its file.
    Hash(usize),
    /// Unpack its payload into its scratch file, with the archiver of this kind.
    Unpack(usize, ColdArchiverKind),
    /// Run the query over the scratch files.
    Query,
}

/// Where a cold query stands.
enum Phase {
    Look,
    Fetch,
    Hash,
    Unpack(ColdArchiverKind),
}

/// A cold query that reads archives back, one after the other: first those that are
/// missing are fetched, then each is verified before it is unpacked.
pub struct Thaw {
    archives: Vec<ColdArchive>,
    phase: Phase,
    at: usize,
    /// The hash of the file of each archive that was verified.
    verified: Vec<String>,
}

/// What the first archives of a query hold is what was sealed.
pub open spec fn genuine(archives: Seq<ColdArchive>, hashes: Seq<String>) -> bool {
    hashes.len() <= archives.len() && forall|i: int|
        0 <= i < hashes.len() ==> (#[trigger] hashes[i])@ == archives[i].checksum@
}

impl Thaw {
    #[verifier::type_invariant]
    spec fn wf(self) -> bool {
        &&& genuine(self.archives@, self.verified@)
        &&& match self.phase {
            Phase::Look => self.at < self.archives@.len() && self.verified@.len() == 0,
            Phase::Fetch => self.at < self.archives@.len() && self.verified@.len() == 0,
            Phase::Hash => self.at <= self.archives@.len() && self.verified@.len() == self.at,
            Phase::Unpack(_) => self.at < self.archives@.len() && self.verified@.len() == self.at
                + 1,
        }
    }

    /// The archives that the query reads.
    pub closed spec fn list(&self) -> Seq<ColdArchive> {
        self.archives@
    }

    /// The hashes of the archives that were verified, in order.
    pub closed spec fn hashes(&self) -> Seq<String> {
        self.verified@
    }

    /// What comes next.
    pub closed spec fn next(&self) -> ThawAction {
        match self.phase {
            Phase::Look => ThawAction::Look(self.at),
            Phase::Fetch => ThawAction::Fetch(self.at),
            Phase::Hash => if self.at < self.archives@.len() {
                ThawAction::Hash(self.at)
            } else {
                ThawAction::Query
            },
            Phase::Unpack(k) => ThawAction::Unpack(self.at, k),
        }
    }

    /// Begins a query over the archives whose window meets the given one. Where none
    /// does there is nothing to read.
    pub fn begin(
        archives: &Vec<ColdArchive>,
        from_us: Option<i64>,
        to_us: Option<i64>,
        object_store: bool,
    ) -> (r: Result<Option<Thaw>, String>)
        requires
            payload_bytes(met(archives@, from_us, to_us)) <= u64::MAX,
        ensures
            ({
                let list = met(archives@, from_us, to_us);
                match r {
                    Ok(None) => list.len() == 0,
                    Ok(Some(t)) => {
                        &&& list.len() > 0
                        &&& thawable(payload_bytes(list), from_us, to_us)
                        &&& t.list() == list
                        &&& t.hashes().len() == 0
                        &&& t.next() == if object_store {
                            ThawAction::Look(0)
                        } else {
                            ThawAction::Hash(0)
                        }
                    },
                    Err(e) => !thawable(payload_bytes(list), from_us, to_us) && e@ == too_much(
                        list,
                    ),
                }
            }),
    {
        let list = overlapping(archives, from_us, to_us);
        if list.len() == 0 {
            return Ok(None);
        }
        match may_thaw(&list, from_us, to_us) {
            Ok(()) => {},
            Err(e) => {
                return Err(e);
            },
        }
        let phase = if object_store {
            Phase::Look
        } else {
            Phase::Hash
        };
        Ok(Some(Thaw { archives: list, phase, at: 0, verified: Vec::new() }))
    }

    /// What is to be done next. The query runs only once every archive was verified.
    pub fn action(&self) -> (r: ThawAction)
        ensures
            r == self.next(),
            r is Query ==> self.hashes().len() == self.list().len() && genuine(
                self.list(),
                self.hashes(),
            ),
    {
        proof {
            use_type_invariant(self);
        }
        match self.phase {
            Phase::Look => ThawAction::Look(self.at),
            Phase::Fetch => ThawAction::Fetch(self.at),
            Phase::Hash => {
                if self.at < self.archives.len() {
                    ThawAction::Hash(self.at)
                } else {
                    ThawAction::Query
                }
            },
            Phase::Unpack(k) => ThawAction::Unpack(self.at, k),
        }
    }

    /// The archive that is being dealt with.
    pub fn current(&self) -> (r: &ColdArchive)
        requires
            !(self.next() is Query),
        ensures
            *r == self.list()[match self.next() {
                ThawAction::Look(i) => i,
                ThawAction::Fetch(i) => i,
                ThawAction::Hash(i) => i,
                ThawAction::Unpack(i, _) => i,
                ThawAction::Query => 0,
            } as int],
    {
        proof {
            use_type_invariant(self);
        }
        &self.archives[self.at]
    }

    /// How many archives the query reads.
    pub fn len(&self) -> (r: usize)
        ensures
            r == self.list().len(),
    {
        self.archives.len()
    }

    /// The file of an archive was looked for: where it is missing it is fetched.
    pub fn looked(self, present: bool) -> (r: Thaw)
        requires
            self.next() is Look,
        ensures
            r.list() == self.list(),
            r.hashes() == self.hashes(),
            r.next() == if present {
                after_file(self.next()->Look_0, self.list().len())
            } else {
                ThawAction::Fetch(self.next()->Look_0)
            },
    {
        proof {
            use_type_invariant(&self);
        }
        if present {
            self.step()
        } else {
            Thaw {
                archives: self.archives,
                phase: Phase::Fetch,
                at: self.at,
                verified: self.verified,
            }
        }
    }

    /// The file of an archive was fetched.
    pub fn fetched(self) -> (r: Thaw)
        requires
            self.next() is Fetch,
        ensures
            r.list() == self.list(),
            r.hashes() == self.hashes(),
            r.next() == after_file(self.next()->Fetch_0, self.list().len()),
    {
        self.step()
    }

    fn step(self) -> (r: Thaw)
        requires
            self.next() is Look || self.next() is Fetch,
        ensures
            r.list() == self.list(),
            r.hashes() == self.hashes(),
            r.next() == after_file(
                match self.next() {
                    ThawAction::Look(i) => i,
                    ThawAction::Fetch(i) => i,
                    _ => 0,
                },
                self.list().len(),
            ),
    {
        proof {
            use_type_invariant(&self);
        }
        assert(self.at < self.archives.len());
        if self.at + 1 < self.archives.len() {
            Thaw {
                archives: self.archives,
                phase: Phase::Look,
                at: self.at + 1,
                verified: self.verified,
            }
        } else {
            Thaw { archives: self.archives, phase: Phase::Hash, at: 0, verified: self.verified }
        }
    }

    /// The file of an archive was hashed. One that is not what was sealed ends the
    /// query, and so does an archiver that is not known.
    pub fn hashed(self, path: &str, digest: String) -> (r: Result<Thaw, String>)
        requires
            self.next() is Hash,
        ensures
            ({
                let i = self.next()->Hash_0;
                let a = self.list()[i as int];
                match r {
                    Ok(t) => {
                        &&& digest@ == a.checksum@
                        &&& t.list() == self.list()
                        &&& t.hashes() == self.hashes().push(digest)
                        &&& t.next() is Unpack && t.next()->Unpack_0 == i
                        &&& a.kind@ == archiver::kind_name(t.next()->Unpack_1)
                    },
                    Err(e) => {
                        ||| digest@ != a.checksum@ && e@ == "cold archive "@ + path@
                            + " failed its integrity check (checksum mismatch) — refusing to query it"@
                        ||| digest@ == a.checksum@ && (forall|k: ColdArchiverKind|
                            a.kind@ != #[trigger] archiver::kind_name(k)) && e@
                            == "unknown cold archiver kind "@ + text::quoted(a.kind@)
                    },
                }
            }),
    {
        proof {
            use_type_invariant(&self);
        }
        let a = &self.archives[self.at];
        match check_integrity(path, digest.as_str(), a.checksum.as_str()) {
            Ok(()) => {},
            Err(e) => {
                return Err(e);
            },
        }
        let kind = match kind_from_str(a.kind.as_str()) {
            Ok(k) => k,
            Err(e) => {
                return Err(e);
            },
        };
        let Thaw { archives, phase: _, at, mut verified } = self;
        verified.push(digest);
        Ok(Thaw { archives, phase: Phase::Unpack(kind), at, verified })
    }

    /// The payload of an archive was unpacked.
    pub fn unpacked(self) -> (r: Thaw)
        requires
            self.next() is Unpack,
        ensures
            r.list() == self.list(),
            r.hashes() == self.hashes(),
            r.next() == if self.next()->Unpack_0 + 1 < self.list().len() {
                ThawAction::Hash((self.next()->Unpack_0 + 1) as usize)
            } else {
                ThawAction::Query
            },
    {
        proof {
            use_type_invariant(&self);
        }
        assert(self.at < self.archives.len());
        Thaw {
            archives: self.archives,
            phase: Phase::Hash,
            at: self.at + 1,
            verified: self.verified,
        }
    }
}

/// What comes once the file of an archive is there: the next one is looked for, or,
/// where it was the last, the first is verified.
pub open spec fn after_file(i: usize, n: nat) -> ThawAction {
    if i + 1 < n {
        ThawAction::Look((i + 1) as usize)
    } else {
        ThawAction::Hash(0)
    }
}

/// A query reads the archives whose window has a moment of its range in it, and no other
/// archive: one that ends at or before the range begins, or begins at or after it ends, is
/// not read.
pub proof fn a_query_reads_the_archives_of_its_range(
    archives: Seq<ColdArchive>,
    from_us: Option<i64>,
    to_us: Option<i64>,
)
    ensures
        forall|i: int|
            0 <= i < archives.len() && (from_us is Some ==> (#[trigger] archives[i]).end_us
                > from_us->0) && (to_us is Some ==> archives[i].start_us < to_us->0) ==> met(
                archives,
                from_us,
                to_us,
            ).contains(archives[i]),
        forall|a: ColdArchive| #[trigger]
            met(archives, from_us, to_us).contains(a) ==> archives.contains(a) && (from_us is Some
                ==> a.end_us > from_us->0) && (to_us is Some ==> a.start_us < to_us->0),
        forall|i: int, us: i64|
            #![trigger archives[i].holds(us)]
            0 <= i < archives.len() && archives[i].holds(us) && (from_us is Some ==> from_us->0
                <= us) && (to_us is Some ==> us < to_us->0) ==> met(
                archives,
                from_us,
                to_us,
            ).contains(archives[i]),
        met(archives, None, None) == archives,
        met(archives, from_us, to_us).len() <= archives.len(),
    decreases archives.len(),
{
    if archives.len() > 0 {
        let most = archives.drop_last();
        let n = archives.len() - 1;
        a_query_reads_the_archives_of_its_range(most, from_us, to_us);
        let m = met(archives, from_us, to_us);
        let b = met(most, from_us, to_us);
        assert(archives =~= most.push(archives.last()));
        assert forall|a: ColdArchive| b.contains(a) implies #[trigger] m.contains(a) by {
            let k = choose|k: int| 0 <= k < b.len() && b[k] == a;
            assert(m[k] == a);
        }
        assert forall|i: int|
            0 <= i < archives.len() && (from_us is Some ==> (#[trigger] archives[i]).end_us
                > from_us->0) && (to_us is Some ==> archives[i].start_us
                < to_us->0) implies m.contains(archives[i]) by {
            if i < n {
                assert(most[i] == archives[i]);
                assert(b.contains(most[i]));
            } else {
                assert(m[b.len() as int] == archives[n]);
            }
        }
        assert forall|a: ColdArchive| #[trigger] m.contains(a) implies archives.contains(a) && (
        from_us is Some ==> a.end_us > from_us->0) && (to_us is Some ==> a.start_us
            < to_us->0) by {
            let k = choose|k: int| 0 <= k < m.len() && m[k] == a;
            if k < b.len() {
                assert(b[k] == a);
                assert(b.contains(a));
                let i = choose|i: int| 0 <= i < most.len() && most[i] == a;
                assert(archives[i] == a);
            } else {
                assert(archives[n] == a);
            }
        }
    }
}

/// The bytes of some archives are the sum of the bytes of each.
pub proof fn payloads_add_up(a: Seq<ColdArchive>, b: Seq<ColdArchive>)
    ensures
        payload_bytes(a + b) == payload_bytes(a) + payload_bytes(b),
        forall|x: ColdArchive| #[trigger] payload_bytes(seq![x]) == x.bytes_in,
        payload_bytes(Seq::empty()) == 0,
    decreases b.len(),
{
    assert forall|x: ColdArchive| #[trigger] payload_bytes(seq![x]) == x.bytes_in by {
        let one = seq![x];
        assert(one.drop_last() =~= Seq::empty());
        assert(one.last() == x);
        assert(payload_bytes(one.drop_last()) == 0);
    }
    if b.len() == 0 {
        assert(a + b =~= a);
    } else {
        assert((a + b).drop_last() =~= a + b.drop_last());
        payloads_add_up(a, b.drop_last());
    }
}

/// A query that names an end of its range is never refused for size; one that names none is,
/// where the archives hold more than four gibibytes together.
pub proof fn only_a_query_without_bounds_is_refused(
    bytes: nat,
    from_us: Option<i64>,
    to_us: Option<i64>,
)
    ensures
        from_us is Some ==> thawable(bytes, from_us, to_us),
        to_us is Some ==> thawable(bytes, from_us, to_us),
        thawable(bytes, None, None) <==> bytes <= 4 * 1024 * 1024 * 1024,
{
}

/// The files are looked for one by one, each once, and only then is the first one hashed.
pub proof fn files_are_looked_for_one_by_one(i: usize, n: nat)
    requires
        i < n <= usize::MAX,
    ensures
        forall|j: usize| after_file(i, n) == ThawAction::Look(j) <==> j == i + 1 && j < n,
        after_file(i, n) is Hash <==> i == n - 1,
        after_file(i, n) is Hash ==> after_file(i, n) == ThawAction::Hash(0),
{
}

/// A directory is removed as scratch only where it is named so and known to be more than a
/// day old.
pub proof fn scratch_in_use_stays(name: Seq<char>, age_secs: Option<u64>)
    ensures
        stale_scratch(name, age_secs) <==> {
            &&& age_secs is Some
            &&& age_secs->0 > 24 * 3600
            &&& exists|rest: Seq<char>| name == #[trigger] (".thaw-"@ + rest)
        },
{
    text::starts_and_ends_are_parts(name, ".thaw-"@);
}

} // verus!
