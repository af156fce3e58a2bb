//! The manifest of sealed archives, and what is kept of those that were deleted.

use crate::archive::ColdArchive;
use crate::events::prune::Tombstone;
use crate::order::{self, oldest_first, Dated};
use vstd::prelude::*;

verus! {

impl Dated for ColdArchive {
    open spec fn time(&self) -> i64 {
        self.start_us
    }

    fn when(&self) -> (r: i64) {
        self.start_us
    }
}

impl Dated for Tombstone {
    open spec fn time(&self) -> i64 {
        self.placed_at_us
    }

    fn when(&self) -> (r: i64) {
        self.placed_at_us
    }
}

/// The archives, the oldest window in front.
pub fn list_cold_archives(archives: Vec<ColdArchive>) -> (r: Vec<ColdArchive>)
    ensures
        r@ == order::ascending(archives@),
{
    oldest_first(archives)
}

/// The tombstones, the one that was placed first in front.
pub fn list_tombstones(tombstones: Vec<Tombstone>) -> (r: Vec<Tombstone>)
    ensures
        r@ == order::ascending(tombstones@),
{
    oldest_first(tombstones)
}

/// What is kept of an archive that was deleted.
#[derive(Clone, Debug, PartialEq, Eq)]
pub struct ColdDeletion {
    pub id: String,
    pub checksum: String,
    pub rows: u64,
    pub bytes_out: u64,
    pub start_us: i64,
    pub end_us: i64,
    pub deleted_at_us: i64,
    pub reason: String,
    pub local_removed: bool,
    /// Whether the object was removed, where there is an object store.
    pub remote_removed: Option<bool>,
}

impl Dated for ColdDeletion {
    open spec fn time(&self) -> i64 {
        self.start_us
    }

    fn when(&self) -> (r: i64) {
        self.start_us
    }
}

impl ColdDeletion {
    /// No copy is left that lasts.
    pub open spec fn complete(&self) -> bool {
        match self.remote_removed {
            Some(gone) => gone,
            None => self.local_removed,
        }
    }

    /// Whether no copy is left. Where there is an object store its copy counts, since
    /// the local one may be gone long since.
    pub fn is_complete(&self) -> (r: bool)
        ensures
            r == self.complete(),
    {
        match self.remote_removed {
            Some(gone) => gone,
            None => self.local_removed,
        }
    }
}

/// The deletions, the oldest window in front.
pub fn list_cold_deletions(deletions: Vec<ColdDeletion>) -> (r: Vec<ColdDeletion>)
    ensures
        r@ == order::ascending(deletions@),
{
    oldest_first(deletions)
}

/// The archive to store once its rows have left the hot store.
pub open spec fn pruned(archive: Option<ColdArchive>) -> Option<ColdArchive> {
    match archive {
        Some(a) => if a.hot_pruned {
            None
        } else {
            Some(ColdArchive { hot_pruned: true, ..a })
        },
        None => None,
    }
}

/// The archive to store once its rows have left the hot store; none where it is
/// missing or marked.
pub fn mark_hot_pruned(archive: Option<ColdArchive>) -> (r: Option<ColdArchive>)
    ensures
        r == pruned(archive),
{
    match archive {
        Some(a) => {
            if a.hot_pruned {
                return None;
            }
            let mut a = a;
            a.hot_pruned = true;
            Some(a)
        },
        None => None,
    }
}

/// The archive with a hold placed or cleared, and whether that changed anything.
pub open spec fn with_hold(archive: Option<ColdArchive>, hold: bool) -> (Option<ColdArchive>, bool) {
    match archive {
        Some(a) => (Some(ColdArchive { legal_hold: hold, ..a }), a.legal_hold != hold),
        None => (None, false),
    }
}

/// The archive to store where a hold is placed or cleared, and whether that changes
/// anything. An archive that is missing is no error.
pub fn set_legal_hold(archive: Option<ColdArchive>, hold: bool) -> (r: (Option<ColdArchive>, bool))
    ensures
        r == with_hold(archive, hold),
{
    match archive {
        Some(a) => {
            let changed = a.legal_hold != hold;
            let mut a = a;
            a.legal_hold = hold;
            (Some(a), changed)
        },
        None => (None, false),
    }
}

/// A hold that is placed again changes nothing, one that is cleared leaves the archive as
/// it was, and a hold touches nothing else of an archive.
pub proof fn holds_are_placed_once(archive: Option<ColdArchive>, hold: bool)
    ensures
        with_hold(with_hold(archive, hold).0, hold) == (with_hold(archive, hold).0, false),
        archive is Some && archive->0.legal_hold != hold ==> with_hold(
            with_hold(archive, hold).0,
            !hold,
        ) == (archive, true),
        (with_hold(archive, hold).0 is Some) == (archive is Some),
{
}

/// A hold that is placed or cleared is what the archive then has, and the change is told
/// exactly where there was one. The rest of the archive stays.
pub proof fn a_hold_is_what_was_asked(a: ColdArchive, hold: bool)
    ensures
        with_hold(Some(a), hold).0 is Some,
        ({
            let b = with_hold(Some(a), hold).0->0;
            &&& b.legal_hold == hold
            &&& with_hold(Some(a), hold).1 <==> a.legal_hold != b.legal_hold
            &&& (b.id, b.kind, b.file, b.checksum) == (a.id, a.kind, a.file, a.checksum)
            &&& (b.start_us, b.end_us, b.rows, b.hot_pruned) == (
                a.start_us,
                a.end_us,
                a.rows,
                a.hot_pruned,
            )
            &&& (b.bytes_in, b.bytes_out, b.sealed_at_us) == (
                a.bytes_in,
                a.bytes_out,
                a.sealed_at_us,
            )
        }),
{
}

/// An archive is marked once, a mark changes nothing else of it, and one that is marked is
/// not stored again.
pub proof fn archives_are_marked_once(a: ColdArchive)
    ensures
        pruned(Some(a)) is Some <==> !a.hot_pruned,
        pruned(Some(a)) is Some ==> {
            let b = pruned(Some(a))->0;
            &&& b.hot_pruned
            &&& pruned(Some(b)) is None
            &&& (b.id, b.kind, b.file, b.checksum) == (a.id, a.kind, a.file, a.checksum)
            &&& (b.start_us, b.end_us, b.rows, b.legal_hold) == (
                a.start_us,
                a.end_us,
                a.rows,
                a.legal_hold,
            )
            &&& (b.bytes_in, b.bytes_out, b.sealed_at_us) == (
                a.bytes_in,
                a.bytes_out,
                a.sealed_at_us,
            )
        },
        pruned(None) is None,
{
}

/// A deletion is complete only where the copy that lasts is gone: that of the object store
/// where there is one, else the local one.
pub proof fn a_deletion_is_complete_without_a_copy(d: ColdDeletion)
    ensures
        d.remote_removed is None ==> (d.complete() <==> d.local_removed),
        d.remote_removed == Some(false) ==> !d.complete(),
        d.remote_removed == Some(true) ==> d.complete(),
{
}

} // verus!
