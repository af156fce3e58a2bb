//! Replication of the warehouse over an object store.
//!
//! A writer ships every file of a snapshot and the manifest that names them last;
//! a follower reads the manifest first, stages exactly the files that it names and
//! only then swaps them in. The lease in the store carries an epoch that only
//! grows, and a snapshot of an older epoch is refused.

use crate::names::{self, NameSet};
use crate::numerals::{self, decimal};
use crate::text::{self, ends_with, replace_char, same};
use vstd::prelude::*;

verus! {

/// The writer lease.
#[derive(Clone, Debug, PartialEq, Eq)]
pub struct Lease {
    /// Grows with every promotion. A snapshot of a lower epoch comes from a writer
    /// that has been fenced out.
    pub epoch: u64,
    /// Who holds it, for operators that read the bucket.
    pub holder: String,
    pub acquired_at_us: i64,
}

/// What a writer does about an observed lease.
#[derive(Clone, Copy, Debug, PartialEq, Eq, Structural)]
pub enum FenceVerdict {
    /// The node still holds the lease.
    Continue,
    /// Another node was promoted: stop.
    SelfFence { observed: u64 },
}

/// What a writer of epoch `mine` does about a lease of the given epoch.
pub open spec fn fence(mine: u64, observed: Option<u64>) -> FenceVerdict {
    match observed {
        Some(epoch) => if epoch > mine {
            FenceVerdict::SelfFence { observed: epoch }
        } else {
            FenceVerdict::Continue
        },
        None => FenceVerdict::Continue,
    }
}

/// What a writer of epoch `mine` does about the lease that it observed. Where there
/// is no lease nothing was ever promoted, and the writer goes on.
pub fn fence_verdict(mine: u64, observed: Option<&Lease>) -> (r: FenceVerdict)
    ensures
        r == fence(
            mine,
            match observed {
                Some(l) => Some(l.epoch),
                None => None,
            },
        ),
{
    match observed {
        Some(l) => {
            if l.epoch > mine {
                FenceVerdict::SelfFence { observed: l.epoch }
            } else {
                FenceVerdict::Continue
            }
        },
        None => FenceVerdict::Continue,
    }
}

/// The epoch of the next promotion.
pub open spec fn next_epoch(current: Option<u64>) -> int {
    match current {
        Some(e) => e + 1,
        None => 1,
    }
}

/// The lease that a promotion tries to write: the next epoch, or the first.
pub fn next_lease(current: Option<&Lease>, holder: &str, now_us: i64) -> (r: Lease)
    requires
        current is Some ==> current->0.epoch < u64::MAX,
    ensures
        r.epoch == next_epoch(
            match current {
                Some(l) => Some(l.epoch),
                None => None,
            },
        ),
        r.holder@ == holder@,
        r.acquired_at_us == now_us,
{
    let epoch: u64 = match current {
        Some(l) => l.epoch + 1,
        None => 1,
    };
    Lease { epoch, holder: String::from_str(holder), acquired_at_us: now_us }
}

/// How the conditional write of a lease went.
pub enum PutOutcome {
    Written,
    /// Another node wrote first.
    LostRace,
    Failed(String),
}

/// What a promotion reports when it lost the race for an epoch.
pub open spec fn lost_race(epoch: u64) -> Seq<char> {
    "HA promote lost the race for epoch "@ + numerals::numeral(epoch as nat)
        + " — another node promoted                      first. This node must NOT become a writer."@
}

/// The result of a promotion.
pub open spec fn promoted(lease: Lease, outcome: PutOutcome) -> Result<Lease, Seq<char>> {
    match outcome {
        PutOutcome::Written => Ok(lease),
        PutOutcome::LostRace => Err(lost_race(lease.epoch)),
        PutOutcome::Failed(e) => Err("HA write lease: "@ + e@),
    }
}

/// The result of a promotion: the lease only where it was written.
pub fn promotion(lease: Lease, outcome: PutOutcome) -> (r: Result<Lease, String>)
    ensures
        match promoted(lease, outcome) {
            Ok(l) => r == Ok::<Lease, String>(l),
            Err(e) => r is Err && r->Err_0@ == e,
        },
{
    match outcome {
        PutOutcome::Written => Ok(lease),
        PutOutcome::LostRace => {
            let mut m = String::from_str("HA promote lost the race for epoch ");
            let n = decimal(lease.epoch);
            m.append(n.as_str());
            m.append(" — another node promoted                      first. This node must NOT become a writer.");
            Err(m)
        },
        PutOutcome::Failed(e) => {
            let mut m = String::from_str("HA write lease: ");
            m.append(e.as_str());
            Err(m)
        },
    }
}

/// A promotion fences out the writer that held the lease before, and no promotion
/// fences itself out.
pub proof fn a_promotion_fences_its_predecessor(was: Lease, now: Lease)
    requires
        now.epoch == was.epoch + 1,
    ensures
        fence(was.epoch, Some(now.epoch)) == (FenceVerdict::SelfFence { observed: now.epoch }),
        fence(now.epoch, Some(now.epoch)) == FenceVerdict::Continue,
{
}

/// A file of a snapshot: its path below the warehouse, its length, and the hash of
/// its content where the writer recorded one.
#[derive(Clone, Debug, PartialEq, Eq)]
pub struct Entry {
    pub path: String,
    pub len: u64,
    pub digest: Option<String>,
}

/// The pointer to a snapshot.
#[derive(Clone, Debug, PartialEq, Eq)]
pub struct Manifest {
    /// Grows with every snapshot of a writer.
    pub id: u64,
    pub files: Vec<Entry>,
    /// The epoch of the writer; zero where the manifest is older than epochs.
    pub epoch: u64,
    pub created_at_us: i64,
    pub writer: String,
}

/// The identifier of the newest shipped snapshot, zero where there is none.
pub fn last_shipped_id(manifest: Option<&Manifest>) -> (r: u64)
    ensures
        r == match manifest {
            Some(m) => m.id,
            None => 0,
        },
{
    match manifest {
        Some(m) => m.id,
        None => 0,
    }
}

/// The place of the entry of a path; the last one counts.
pub open spec fn entry_at(files: Seq<Entry>, path: Seq<char>) -> Option<int>
    decreases files.len(),
{
    if files.len() == 0 {
        None
    } else if files.last().path@ == path {
        Some(files.len() - 1)
    } else {
        entry_at(files.drop_last(), path)
    }
}

/// The digest that the previous manifest recorded for a file of that length.
pub open spec fn known_digest(files: Seq<Entry>, path: Seq<char>, len: u64) -> Option<Seq<char>> {
    match entry_at(files, path) {
        Some(i) => if files[i].len == len {
            text::opt_text(files[i].digest)
        } else {
            None
        },
        None => None,
    }
}

fn find_digest(files: &Vec<Entry>, path: &str, len: u64) -> (r: Option<String>)
    ensures
        text::opt_text(r) == known_digest(files@, path@, len),
{
    let mut k: usize = files.len();
    assert(files@.take(k as int) =~= files@);
    while k > 0
        invariant
            k <= files.len(),
            entry_at(files@, path@) == entry_at(files@.take(k as int), path@),
        decreases k,
    {
        assert(files@.take(k as int).drop_last() =~= files@.take(k - 1));
        k -= 1;
        if same(files[k].path.as_str(), path) {
            if files[k].len != len {
                return None;
            }
            return match &files[k].digest {
                Some(d) => Some(d.clone()),
                None => None,
            };
        }
    }
    None
}

/// Data files never change once they are written.
pub open spec fn immutable(path: Seq<char>) -> bool {
    text::ends(path, ".parquet"@)
}

/// What is to be done about a file when a snapshot is shipped.
pub enum ShipAction {
    /// The object is there; its digest is known.
    Keep(String),
    /// The object is there; hash the local file.
    Hash,
    /// A catalog, which may change while it is read: send a validated copy.
    SendCopy,
    /// Send the file.
    Send,
}

/// What is to be done about a file.
pub open spec fn ship_choice(
    path: Seq<char>,
    len: u64,
    remote_len: Option<u64>,
    previous: Seq<Entry>,
    a: ShipAction,
) -> bool {
    if immutable(path) && remote_len == Some(len) {
        match known_digest(previous, path, len) {
            Some(d) => a is Keep && a->0@ == d,
            None => a is Hash,
        }
    } else if text::ends(path, ".redb"@) {
        a is SendCopy
    } else {
        a is Send
    }
}

/// Decides what is to be done about a file, given its length, that of the object of
/// the same name where there is one, and the entries of the previous manifest.
pub fn ship_action(path: &str, len: u64, remote_len: Option<u64>, previous: &Vec<Entry>) -> (r:
    ShipAction)
    ensures
        ship_choice(path@, len, remote_len, previous@, r),
{
    if ends_with(path, ".parquet") && remote_len == Some(len) {
        match find_digest(previous, path, len) {
            Some(d) => ShipAction::Keep(d),
            None => ShipAction::Hash,
        }
    } else if ends_with(path, ".redb") {
        ShipAction::SendCopy
    } else {
        ShipAction::Send
    }
}

/// The file is sent: it may have changed, or the store does not have it at its length.
pub open spec fn is_sent(path: Seq<char>, len: u64, remote_len: Option<u64>) -> bool {
    !(immutable(path) && remote_len == Some(len))
}

/// How many of the first `n` files are sent, by their lengths here and in the store.
pub open spec fn sent_count(paths: Seq<String>, seen: Seq<(u64, Option<u64>)>, n: int) -> nat
    decreases n,
{
    if n <= 0 {
        0
    } else {
        sent_count(paths, seen, n - 1) + if is_sent(paths[n - 1]@, seen[n - 1].0, seen[n - 1].1) {
            1nat
        } else {
            0
        }
    }
}

proof fn counts_look_back(
    paths: Seq<String>,
    a: Seq<(u64, Option<u64>)>,
    b: Seq<(u64, Option<u64>)>,
    n: int,
)
    requires
        n <= a.len(),
        n <= b.len(),
        forall|i: int| 0 <= i < n ==> (#[trigger] a[i]) == b[i],
    ensures
        sent_count(paths, a, n) == sent_count(paths, b, n),
    decreases n,
{
    if n > 0 {
        counts_look_back(paths, a, b, n - 1);
        assert(a[n - 1] == b[n - 1]);
    }
}

/// A snapshot that is being shipped, file by file in the order of their paths.
pub struct Shipment {
    paths: Vec<String>,
    previous: Vec<Entry>,
    /// The length of each file that was looked at, here and in the store.
    seen: Vec<(u64, Option<u64>)>,
    /// What is to be done about the file that was looked at last, until it is done.
    choice: Option<ShipAction>,
    entries: Vec<Entry>,
    uploaded: usize,
}

impl Shipment {
    #[verifier::type_invariant]
    spec fn wf(self) -> bool {
        let k = self.entries@.len() as int;
        &&& names::lists(self.paths@, names::members(self.paths@))
        &&& k <= self.seen@.len() <= self.paths@.len()
        &&& self.seen@.len() == k + if self.choice is Some {
            1int
        } else {
            0
        }
        &&& self.choice is Some ==> ship_choice(
            self.paths@[k]@,
            self.seen@[k].0,
            self.seen@[k].1,
            self.previous@,
            self.choice->0,
        )
        &&& forall|i: int|
            0 <= i < k ==> (#[trigger] self.entries@[i]).path@ == self.paths@[i]@
                && self.entries@[i].digest is Some
        &&& self.uploaded == sent_count(self.paths@, self.seen@, k)
        &&& self.uploaded <= k
    }

    /// The files of the snapshot, in order.
    pub closed spec fn files(self) -> Seq<String> {
        self.paths@
    }

    /// The entries of the previous manifest.
    pub closed spec fn known(self) -> Seq<Entry> {
        self.previous@
    }

    /// The lengths of the files that were looked at, here and in the store.
    pub closed spec fn lengths(self) -> Seq<(u64, Option<u64>)> {
        self.seen@
    }

    /// What is to be done about the file that was looked at last, until it is done.
    pub closed spec fn chosen(self) -> Option<ShipAction> {
        self.choice
    }

    /// The entries of the files that are done.
    pub closed spec fn done(self) -> Seq<Entry> {
        self.entries@
    }

    /// Begins to ship the given files, in the order of their paths. `previous` are the
    /// entries of the manifest before.
    pub fn new(paths: Vec<String>, previous: Vec<Entry>) -> (r: Shipment)
        ensures
            names::lists(r.files(), text::texts(paths@).to_set()),
            r.known() == previous@,
            r.lengths().len() == 0,
            r.chosen() is None,
            r.done().len() == 0,
    {
        let mut set = NameSet::new();
        set.insert_all(&paths);
        assert(set@ =~= text::texts(paths@).to_set());
        let list = set.into_list();
        Shipment {
            paths: list,
            previous,
            seen: Vec::new(),
            choice: None,
            entries: Vec::new(),
            uploaded: 0,
        }
    }

    /// The next file, where one is left.
    pub fn next(&self) -> (r: Option<&String>)
        ensures
            self.done().len() <= self.files().len(),
            match r {
                Some(p) => self.done().len() < self.files().len() && *p
                    == self.files()[self.done().len() as int],
                None => self.done().len() == self.files().len(),
            },
    {
        proof {
            use_type_invariant(self);
        }
        if self.entries.len() < self.paths.len() {
            Some(&self.paths[self.entries.len()])
        } else {
            None
        }
    }

    /// What is to be done about the file that was looked at last.
    pub fn choice(&self) -> (r: Option<&ShipAction>)
        ensures
            match r {
                Some(c) => self.chosen() == Some(*c),
                None => self.chosen() is None,
            },
    {
        match &self.choice {
            Some(c) => Some(c),
            None => None,
        }
    }

    /// The next file was looked at: it has this length, and its object in the store that
    /// one, where there is an object.
    pub fn looked(self, len: u64, remote_len: Option<u64>) -> (r: Shipment)
        requires
            self.done().len() < self.files().len(),
            self.chosen() is None,
        ensures
            r.files() == self.files(),
            r.known() == self.known(),
            r.lengths() == self.lengths().push((len, remote_len)),
            r.done() == self.done(),
            r.chosen() is Some,
            ship_choice(
                self.files()[self.done().len() as int]@,
                len,
                remote_len,
                self.known(),
                r.chosen()->0,
            ),
    {
        proof {
            use_type_invariant(&self);
        }
        let k: usize = self.entries.len();
        let action = ship_action(self.paths[k].as_str(), len, remote_len, &self.previous);
        let mut seen = self.seen;
        let ghost was = seen@;
        seen.push((len, remote_len));
        proof {
            counts_look_back(self.paths@, was, seen@, k as int);
        }
        Shipment {
            paths: self.paths,
            previous: self.previous,
            seen,
            choice: Some(action),
            entries: self.entries,
            uploaded: self.uploaded,
        }
    }

    /// Takes note that the file which was looked at is in the store with this length and
    /// digest.
    fn noted(self, len: u64, digest: String) -> (r: Shipment)
        requires
            self.chosen() is Some,
        ensures
            r.files() == self.files(),
            r.known() == self.known(),
            r.lengths() == self.lengths(),
            r.chosen() is None,
            r.done().len() == self.done().len() + 1,
            r.done().drop_last() == self.done(),
            r.done().last().path@ == self.files()[self.done().len() as int]@,
            r.done().last().len == len,
            r.done().last().digest == Some(digest),
    {
        proof {
            use_type_invariant(&self);
        }
        let k: usize = self.entries.len();
        let sent = match &self.choice {
            Some(ShipAction::SendCopy) => true,
            Some(ShipAction::Send) => true,
            _ => false,
        };
        assert(self.uploaded <= k < self.paths.len());
        let e = Entry { path: self.paths[k].clone(), len, digest: Some(digest) };
        let mut entries = self.entries;
        let ghost was = entries@;
        entries.push(e);
        assert(entries@.drop_last() =~= was);
        let uploaded: usize = if sent {
            self.uploaded + 1
        } else {
            self.uploaded
        };
        Shipment {
            paths: self.paths,
            previous: self.previous,
            seen: self.seen,
            choice: None,
            entries,
            uploaded,
        }
    }

    /// The file is in the store already, with the digest that is known: it is kept.
    pub fn kept(self) -> (r: Shipment)
        requires
            self.chosen() is Some,
            self.chosen()->0 is Keep,
        ensures
            r.files() == self.files(),
            r.known() == self.known(),
            r.lengths() == self.lengths(),
            r.chosen() is None,
            r.done().len() == self.done().len() + 1,
            r.done().drop_last() == self.done(),
            r.done().last().path@ == self.files()[self.done().len() as int]@,
            r.done().last().len == self.lengths().last().0,
            text::opt_text(r.done().last().digest) == Some(self.chosen()->0->0@),
    {
        proof {
            use_type_invariant(&self);
        }
        let len: u64 = self.seen[self.seen.len() - 1].0;
        let digest = match &self.choice {
            Some(ShipAction::Keep(d)) => d.clone(),
            _ => String::new(),
        };
        self.noted(len, digest)
    }

    /// The file is in the store already, and has this digest here.
    pub fn hashed(self, digest: String) -> (r: Shipment)
        requires
            self.chosen() == Some(ShipAction::Hash),
        ensures
            r.files() == self.files(),
            r.known() == self.known(),
            r.lengths() == self.lengths(),
            r.chosen() is None,
            r.done().len() == self.done().len() + 1,
            r.done().drop_last() == self.done(),
            r.done().last().path@ == self.files()[self.done().len() as int]@,
            r.done().last().len == self.lengths().last().0,
            r.done().last().digest == Some(digest),
    {
        proof {
            use_type_invariant(&self);
        }
        let len: u64 = self.seen[self.seen.len() - 1].0;
        self.noted(len, digest)
    }

    /// The file was sent, with this length and digest.
    pub fn sent(self, len: u64, digest: String) -> (r: Shipment)
        requires
            self.chosen() == Some(ShipAction::Send) || self.chosen() == Some(ShipAction::SendCopy),
        ensures
            r.files() == self.files(),
            r.known() == self.known(),
            r.lengths() == self.lengths(),
            r.chosen() is None,
            r.done().len() == self.done().len() + 1,
            r.done().drop_last() == self.done(),
            r.done().last().path@ == self.files()[self.done().len() as int]@,
            r.done().last().len == len,
            r.done().last().digest == Some(digest),
    {
        self.noted(len, digest)
    }

    /// The manifest, which can only be had once every file is in the store, and how many
    /// files were sent: all but the data files that the store had at their length.
    pub fn finish(self, id: u64, epoch: u64, created_at_us: i64, writer: &str) -> (r: (
        Manifest,
        usize,
    ))
        requires
            self.done().len() == self.files().len(),
        ensures
            r.0.id == id,
            r.0.epoch == epoch,
            r.0.created_at_us == created_at_us,
            r.0.writer@ == writer@,
            r.0.files@ == self.done(),
            names::lists(self.files(), names::members(self.files())),
            forall|i: int|
                0 <= i < r.0.files@.len() ==> (#[trigger] r.0.files@[i]).path@ == self.files()[i]@
                    && r.0.files@[i].digest is Some,
            self.lengths().len() == self.files().len(),
            r.1 == sent_count(self.files(), self.lengths(), self.files().len() as int),
    {
        proof {
            use_type_invariant(&self);
        }
        let uploaded: usize = self.uploaded;
        let m = Manifest {
            id,
            files: self.entries,
            epoch,
            created_at_us,
            writer: String::from_str(writer),
        };
        (m, uploaded)
    }
}

/// Whether a snapshot is to be applied by a follower that has `have_id`: it is
/// newer, and its writer has not been fenced out.
pub open spec fn acceptable(m: Manifest, have_id: u64, lease: Option<&Lease>) -> bool {
    m.id > have_id && (lease is Some ==> m.epoch >= lease->0.epoch)
}

/// What a follower does next.
#[derive(Clone, Copy, Debug, PartialEq, Eq, Structural)]
pub enum PullAction {
    /// Look whether the file of this place is there already, and how long it is.
    LookLocal(usize),
    /// Copy the local file into the staging directory, hashing it.
    CopyLocal(usize),
    /// Download the file into the staging directory, hashing it.
    Download(usize),
    /// Everything is staged: swap it in.
    Swap,
}

#[derive(Clone, Copy, Debug, PartialEq, Eq, Structural)]
enum Stage {
    Look,
    Copy,
    Fetch,
}

/// The staged content is what the manifest names.
pub open spec fn digest_holds(e: Entry, digest: Seq<char>) -> bool {
    e.digest is Some ==> e.digest->0@ == digest
}

/// A snapshot that is being pulled, file by file.
pub struct Pull {
    manifest: Manifest,
    stage: Stage,
    /// The hash of each file that is staged.
    staged: Vec<String>,
}

impl Pull {
    #[verifier::type_invariant]
    spec fn wf(self) -> bool {
        &&& self.staged@.len() <= self.manifest.files@.len()
        &&& self.stage is Copy ==> self.staged@.len() < self.manifest.files@.len()
        &&& self.stage is Fetch ==> self.staged@.len() < self.manifest.files@.len()
        &&& forall|i: int|
            0 <= i < self.staged@.len() ==> digest_holds(
                self.manifest.files@[i],
                (#[trigger] self.staged@[i])@,
            )
    }

    /// The manifest that is pulled.
    pub closed spec fn snapshot(self) -> Manifest {
        self.manifest
    }

    /// The hash of each file that is staged, in the order of the manifest.
    pub closed spec fn hashes(self) -> Seq<String> {
        self.staged@
    }

    /// What comes next.
    pub closed spec fn next_action(self) -> PullAction {
        if self.staged@.len() >= self.manifest.files@.len() {
            PullAction::Swap
        } else {
            match self.stage {
                Stage::Look => PullAction::LookLocal(self.staged@.len() as usize),
                Stage::Copy => PullAction::CopyLocal(self.staged@.len() as usize),
                Stage::Fetch => PullAction::Download(self.staged@.len() as usize),
            }
        }
    }

    /// Begins to pull a snapshot, where there is one that is to be applied.
    pub fn begin(manifest: Option<Manifest>, have_id: u64, lease: Option<&Lease>) -> (r: Option<Pull>)
        ensures
            match manifest {
                Some(m) => {
                    &&& (r is Some) == acceptable(m, have_id, lease)
                    &&& r is Some ==> r->0.snapshot() == m && r->0.hashes().len() == 0
                    &&& r is Some ==> r->0.next_action() == if m.files@.len() == 0 {
                        PullAction::Swap
                    } else {
                        PullAction::LookLocal(0)
                    }
                },
                None => r is None,
            },
    {
        match manifest {
            Some(m) => {
                if m.id <= have_id {
                    return None;
                }
                match lease {
                    Some(l) => {
                        if m.epoch < l.epoch {
                            return None;
                        }
                    },
                    None => {},
                }
                Some(Pull { manifest: m, stage: Stage::Look, staged: Vec::new() })
            },
            None => None,
        }
    }

    /// What is to be done next. A swap comes only when every file of the manifest
    /// is staged with the content that the manifest names.
    pub fn action(&self) -> (r: PullAction)
        ensures
            r == self.next_action(),
            r == PullAction::Swap ==> {
                &&& self.hashes().len() == self.snapshot().files@.len()
                &&& forall|i: int|
                    0 <= i < self.hashes().len() ==> digest_holds(
                        self.snapshot().files@[i],
                        (#[trigger] self.hashes()[i])@,
                    )
            },
    {
        proof {
            use_type_invariant(self);
        }
        let k: usize = self.staged.len();
        if k >= self.manifest.files.len() {
            PullAction::Swap
        } else {
            match self.stage {
                Stage::Look => PullAction::LookLocal(k),
                Stage::Copy => PullAction::CopyLocal(k),
                Stage::Fetch => PullAction::Download(k),
            }
        }
    }

    /// The entry of the file that comes next.
    pub fn current(&self) -> (r: &Entry)
        requires
            self.next_action() != PullAction::Swap,
        ensures
            self.hashes().len() < self.snapshot().files@.len(),
            *r == self.snapshot().files@[self.hashes().len() as int],
    {
        &self.manifest.files[self.staged.len()]
    }

    /// The local file was looked at: it is copied where it can be the one that the
    /// manifest names, a data file of that length, and downloaded otherwise.
    pub fn looked(&mut self, local_len: Option<u64>)
        requires
            old(self).next_action() is LookLocal,
        ensures
            final(self).snapshot() == old(self).snapshot(),
            final(self).hashes() == old(self).hashes(),
            ({
                let k = old(self).hashes().len();
                let e = old(self).snapshot().files@[k as int];
                final(self).next_action() == if immutable(e.path@) && local_len == Some(e.len) {
                    PullAction::CopyLocal(k as usize)
                } else {
                    PullAction::Download(k as usize)
                }
            }),
    {
        proof {
            use_type_invariant(&*self);
        }
        let k: usize = self.staged.len();
        let reuse = ends_with(self.manifest.files[k].path.as_str(), ".parquet") && local_len == Some(
            self.manifest.files[k].len,
        );
        self.stage = if reuse {
            Stage::Copy
        } else {
            Stage::Fetch
        };
    }

    /// The local file was copied, with this hash, or could not be. It stays only
    /// where the hash is the one that the manifest names, or the manifest names
    /// none; otherwise the file is downloaded.
    pub fn copied(&mut self, digest: Option<String>)
        requires
            old(self).next_action() is CopyLocal,
        ensures
            final(self).snapshot() == old(self).snapshot(),
            ({
                let k = old(self).hashes().len();
                let e = old(self).snapshot().files@[k as int];
                if digest is Some && digest_holds(e, digest->0@) {
                    &&& final(self).hashes() == old(self).hashes().push(digest->0)
                    &&& final(self).next_action() == if k + 1 == old(self).snapshot().files@.len() {
                        PullAction::Swap
                    } else {
                        PullAction::LookLocal((k + 1) as usize)
                    }
                } else {
                    &&& final(self).hashes() == old(self).hashes()
                    &&& final(self).next_action() == PullAction::Download(k as usize)
                }
            }),
    {
        proof {
            use_type_invariant(&*self);
        }
        let k: usize = self.staged.len();
        match digest {
            Some(d) => {
                let good = match &self.manifest.files[k].digest {
                    Some(want) => same(want.as_str(), d.as_str()),
                    None => true,
                };
                if good {
                    self.stage = Stage::Look;
                    self.push_staged(d);
                } else {
                    self.stage = Stage::Fetch;
                }
            },
            None => {
                self.stage = Stage::Fetch;
            },
        }
    }

    fn push_staged(&mut self, d: String)
        requires
            old(self).hashes().len() < old(self).snapshot().files@.len(),
            digest_holds(old(self).snapshot().files@[old(self).hashes().len() as int], d@),
            old(self).next_action() is LookLocal,
        ensures
            final(self).snapshot() == old(self).snapshot(),
            final(self).hashes() == old(self).hashes().push(d),
            final(self).next_action() == if old(self).hashes().len() + 1
                == old(self).snapshot().files@.len() {
                PullAction::Swap
            } else {
                PullAction::LookLocal((old(self).hashes().len() + 1) as usize)
            },
    {
        proof {
            use_type_invariant(&*self);
        }
        let mut staged: Vec<String> = Vec::new();
        std::mem::swap(&mut staged, &mut self.staged);
        staged.push(d);
        self.staged = staged;
    }

    /// The file was downloaded, with this hash. Where the manifest names another
    /// hash the whole pull is refused.
    pub fn downloaded(&mut self, digest: String) -> (r: Result<(), String>)
        requires
            old(self).next_action() is Download,
        ensures
            final(self).snapshot() == old(self).snapshot(),
            ({
                let k = old(self).hashes().len();
                let e = old(self).snapshot().files@[k as int];
                if digest_holds(e, digest@) {
                    &&& r is Ok
                    &&& final(self).hashes() == old(self).hashes().push(digest)
                    &&& final(self).next_action() == if k + 1 == old(self).snapshot().files@.len() {
                        PullAction::Swap
                    } else {
                        PullAction::LookLocal((k + 1) as usize)
                    }
                } else {
                    &&& r is Err
                    &&& r->Err_0@ == mismatch(e.path@, e.digest->0@, digest@)
                    &&& final(self).hashes() == old(self).hashes()
                    &&& final(self).next_action() == old(self).next_action()
                }
            }),
    {
        proof {
            use_type_invariant(&*self);
        }
        let k: usize = self.staged.len();
        match &self.manifest.files[k].digest {
            Some(want) => {
                if !same(want.as_str(), digest.as_str()) {
                    let mut m = String::from_str("HA pull: digest mismatch for ");
                    m.append(self.manifest.files[k].path.as_str());
                    m.append(" (manifest ");
                    m.append(want.as_str());
                    m.append(", downloaded ");
                    m.append(digest.as_str());
                    m.append(") — refusing to apply the snapshot");
                    return Err(m);
                }
            },
            None => {},
        }
        self.stage = Stage::Look;
        self.push_staged(digest);
        Ok(())
    }
}

/// The report of a file whose content is not what the manifest names.
pub open spec fn mismatch(path: Seq<char>, want: Seq<char>, got: Seq<char>) -> Seq<char> {
    "HA pull: digest mismatch for "@ + path + " (manifest "@ + want + ", downloaded "@ + got
        + ") — refusing to apply the snapshot"@
}

/// A snapshot of a writer that has been fenced out is not applied, however high
/// its identifier.
pub proof fn fenced_out_snapshots_are_refused(m: Manifest, have_id: u64, lease: Lease)
    requires
        m.epoch < lease.epoch,
    ensures
        !acceptable(m, have_id, Some(&lease)),
{
}

/// A writer that counts on from what it shipped last, and that holds the lease where
/// there is one, is not ignored by a follower that has applied it.
pub proof fn a_resumed_counter_is_followed(
    last: Manifest,
    next: Manifest,
    have_id: u64,
    lease: Option<&Lease>,
)
    requires
        have_id <= last.id,
        next.id > last.id,
        lease is Some ==> next.epoch >= lease->0.epoch,
    ensures
        acceptable(next, have_id, lease),
{
}

/// The last snapshot that a process shipped or applied.
#[derive(Clone, Copy, Debug, PartialEq, Eq, Structural)]
pub struct SyncStatus {
    pub at_us: i64,
    pub id: u64,
}

impl SyncStatus {
    /// Nothing was shipped or applied yet.
    pub fn new() -> (r: SyncStatus)
        ensures
            r.at_us == 0,
            r.id == 0,
    {
        SyncStatus { at_us: 0, id: 0 }
    }
}

/// Records a snapshot that was shipped or applied.
pub fn stamp(status: &mut SyncStatus, at_us: i64, id: u64)
    ensures
        final(status).at_us == at_us,
        final(status).id == id,
{
    status.at_us = at_us;
    status.id = id;
}

/// The time and the identifier of the last snapshot, zeros before the first.
pub fn snapshot(status: &SyncStatus) -> (r: (i64, u64))
    ensures
        r == (status.at_us, status.id),
{
    (status.at_us, status.id)
}

/// What follows an attempt to copy a catalog.
#[derive(Clone, Copy, Debug, PartialEq, Eq, Structural)]
pub enum CopyStep {
    /// The copy opened: send it.
    Use,
    /// It was torn: copy again.
    Retry,
    /// No copy opened: send one as it is.
    SendUnvalidated,
}

/// How often a catalog is copied before it is sent as it is.
pub const COPY_ATTEMPTS: u32 = 3;

/// What follows the given attempt, counted from one.
pub open spec fn copy_step(attempt: u32, opened: bool) -> CopyStep {
    if opened {
        CopyStep::Use
    } else if attempt < COPY_ATTEMPTS {
        CopyStep::Retry
    } else {
        CopyStep::SendUnvalidated
    }
}

/// What follows the given attempt, counted from one.
pub fn after_copy(attempt: u32, opened: bool) -> (r: CopyStep)
    ensures
        r == copy_step(attempt, opened),
{
    if opened {
        CopyStep::Use
    } else if attempt < COPY_ATTEMPTS {
        CopyStep::Retry
    } else {
        CopyStep::SendUnvalidated
    }
}

/// The name of the private copy of a catalog.
pub fn copy_name(process: u32, rel: &str, attempt: u32) -> (r: String)
    ensures
        r@ == "garmr-ha-"@ + numerals::numeral(process as nat) + "-"@ + text::replaced(
            text::replaced(rel@, '/', "_"@),
            '\\',
            "_"@,
        ) + "-"@ + numerals::numeral(attempt as nat) + ".redb"@,
{
    let mut r = String::from_str("garmr-ha-");
    let p = decimal(process as u64);
    r.append(p.as_str());
    r.append("-");
    let a = replace_char(rel, '/', "_");
    let b = replace_char(a.as_str(), '\\', "_");
    r.append(b.as_str());
    r.append("-");
    let n = decimal(attempt as u64);
    r.append(n.as_str());
    r.append(".redb");
    r
}

/// The path of a file below the warehouse, with slashes.
pub fn slashed(rel: &str) -> (r: String)
    ensures
        r@ == text::replaced(rel@, '\\', "/"@),
{
    replace_char(rel, '\\', "/")
}

/// The object that stands for a file of the warehouse.
pub fn object_key(prefix: &str, rel: &str) -> (r: String)
    ensures
        r@ == prefix@ + rel@,
{
    let mut r = String::from_str(prefix);
    r.append(rel);
    r
}

/// A writer goes on unless it observes a lease of a later epoch than its own, and what it
/// then reports is that epoch.
pub proof fn a_writer_stops_for_a_later_epoch(mine: u64, observed: Option<u64>)
    ensures
        fence(mine, observed) is Continue <==> observed is None || observed->0 <= mine,
        fence(mine, observed) matches FenceVerdict::SelfFence { observed: e } ==> observed
            == Some(e) && e > mine,
{
}

/// The epoch of a promotion fences out every writer before it, and there is no epoch below
/// the first.
pub proof fn a_promotion_is_a_later_epoch(current: u64)
    requires
        current < u64::MAX,
    ensures
        next_epoch(Some(current)) == current + 1,
        fence(current, Some(next_epoch(Some(current)) as u64)) is SelfFence,
        fence(0, Some(next_epoch(None) as u64)) is SelfFence,
        next_epoch(None) == 1,
{
}

/// The entry of a path is the last that names it.
pub proof fn the_last_entry_of_a_path_counts(files: Seq<Entry>, path: Seq<char>)
    ensures
        entry_at(files, path) matches Some(i) ==> 0 <= i < files.len() && files[i].path@ == path
            && forall|j: int| i < j < files.len() ==> (#[trigger] files[j]).path@ != path,
        entry_at(files, path) is None ==> forall|j: int|
            0 <= j < files.len() ==> (#[trigger] files[j]).path@ != path,
    decreases files.len(),
{
    if files.len() > 0 && files.last().path@ != path {
        let most = files.drop_last();
        the_last_entry_of_a_path_counts(most, path);
        assert forall|j: int| 0 <= j < most.len() implies #[trigger] files[j] == most[j] by {}
    }
}

/// A file is not sent only where it is a data file that the store has at its length: it is
/// then kept with the digest that the previous manifest has for it at that length, or hashed
/// where there is none. Every other file is sent, and a catalog as a copy.
pub proof fn only_a_data_file_in_the_store_is_not_sent(
    path: Seq<char>,
    len: u64,
    remote_len: Option<u64>,
    previous: Seq<Entry>,
    a: ShipAction,
)
    requires
        ship_choice(path, len, remote_len, previous, a),
    ensures
        a is Keep || a is Hash ==> remote_len == Some(len) && exists|stem: Seq<char>|
            path == #[trigger] (stem + ".parquet"@),
        a is Keep ==> exists|i: int|
            {
                &&& 0 <= i < previous.len()
                &&& (#[trigger] previous[i]).path@ == path
                &&& previous[i].len == len
                &&& previous[i].digest is Some
                &&& previous[i].digest->0@ == a->0@
                &&& forall|j: int| i < j < previous.len() ==> (#[trigger] previous[j]).path@ != path
            },
        remote_len != Some(len) ==> a is Send || a is SendCopy,
        !text::ends(path, ".parquet"@) ==> a is Send || a is SendCopy,
        a is SendCopy ==> exists|stem: Seq<char>| path == #[trigger] (stem + ".redb"@),
        a is Send ==> !text::ends(path, ".redb"@),
        is_sent(path, len, remote_len) <==> a is Send || a is SendCopy,
        remote_len == Some(len) && text::ends(path, ".parquet"@) ==> (a is Keep <==> known_digest(
            previous,
            path,
            len,
        ) is Some),
{
    text::starts_and_ends_are_parts(path, ".parquet"@);
    text::starts_and_ends_are_parts(path, ".redb"@);
    the_last_entry_of_a_path_counts(previous, path);
    if a is Keep {
        let i = entry_at(previous, path)->0;
        assert(previous[i].path@ == path);
    }
}

/// A digest is known of a file exactly where the last entry of its path has its length and
/// names one.
pub proof fn a_digest_is_known_at_its_length(files: Seq<Entry>, path: Seq<char>, len: u64, i: int)
    requires
        0 <= i < files.len(),
        files[i].path@ == path,
        forall|j: int| i < j < files.len() ==> (#[trigger] files[j]).path@ != path,
    ensures
        files[i].len != len ==> known_digest(files, path, len) is None,
        files[i].len == len ==> known_digest(files, path, len) == text::opt_text(files[i].digest),
{
    the_last_entry_of_a_path_counts(files, path);
    if let Some(k) = entry_at(files, path) {
        if k < i {
            assert(files[i].path@ != path);
        } else if i < k {
            assert(files[k].path@ != path);
        }
    } else {
        assert(files[i].path@ != path);
    }
}

/// The files that are sent are counted one by one: a data file that the store has at its
/// length does not count, every other one does.
pub proof fn sent_files_are_counted(paths: Seq<String>, seen: Seq<(u64, Option<u64>)>, n: int)
    requires
        0 <= n < paths.len(),
        n < seen.len(),
    ensures
        sent_count(paths, seen, 0) == 0,
        sent_count(paths, seen, n + 1) - sent_count(paths, seen, n) == if text::ends(
            paths[n]@,
            ".parquet"@,
        ) && seen[n].1 == Some(seen[n].0) {
            0int
        } else {
            1
        },
        sent_count(paths, seen, n) <= n,
    decreases n,
{
    if n > 0 {
        sent_files_are_counted(paths, seen, n - 1);
    }
}

/// A follower applies a snapshot exactly where it is newer than what it has and no lease of
/// a later epoch stands against its writer.
pub proof fn what_a_follower_applies(m: Manifest, have_id: u64, lease: Option<&Lease>)
    ensures
        acceptable(m, have_id, lease) ==> m.id > have_id,
        m.id > have_id && lease is None ==> acceptable(m, have_id, lease),
        m.id > have_id ==> (lease matches Some(l) ==> (acceptable(m, have_id, lease) <==> m.epoch
            >= l.epoch)),
        !acceptable(m, m.id, lease),
{
}

/// A file whose digest is named holds only with that digest, and one whose digest is not
/// named with any.
pub proof fn a_named_digest_must_be_met(e: Entry, digest: Seq<char>)
    ensures
        e.digest is None ==> digest_holds(e, digest),
        e.digest matches Some(d) ==> (digest_holds(e, digest) <==> d@ == digest),
{
}

/// A copy that opens is used, and one that does not is made again until it was tried three
/// times.
pub proof fn a_copy_is_tried_three_times(attempt: u32)
    ensures
        copy_step(attempt, true) is Use,
        copy_step(attempt, false) is Retry <==> attempt < 3,
        copy_step(attempt, false) is SendUnvalidated <==> attempt >= 3,
{
}

/// A node is promoted only where its lease was written: neither a lost race nor a failed
/// write makes it the writer.
pub proof fn only_a_written_lease_promotes(lease: Lease, outcome: PutOutcome)
    ensures
        promoted(lease, outcome) is Ok <==> outcome is Written,
        promoted(lease, outcome) matches Ok(l) ==> l == lease,
{
}

} // verus!
