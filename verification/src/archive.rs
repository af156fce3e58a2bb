//! Sealed archives of the cold store and the windows of time that they cover.

use vstd::prelude::*;

verus! {

/// The manifest entry of one sealed archive.
#[derive(Clone, Debug, PartialEq, Eq)]
pub struct ColdArchive {
    pub id: String,
    /// The archiver that sealed it.
    pub kind: String,
    /// The file below the archive directory.
    pub file: String,
    /// The first microsecond of its window.
    pub start_us: i64,
    /// The first microsecond behind its window.
    pub end_us: i64,
    pub rows: u64,
    pub bytes_in: u64,
    pub bytes_out: u64,
    pub checksum: String,
    /// The hot store holds no row of the window any more.
    pub hot_pruned: bool,
    pub sealed_at_us: i64,
    /// Held archives neither expire nor are rewritten.
    pub legal_hold: bool,
}

impl ColdArchive {
    /// A moment inside the archive's window.
    pub open spec fn holds(&self, us: i64) -> bool {
        self.start_us <= us < self.end_us
    }

    /// The window of the archive meets the given one. A bound that is absent is no
    /// bound.
    pub open spec fn meets(&self, from_us: Option<i64>, to_us: Option<i64>) -> bool {
        &&& from_us is Some ==> self.end_us > from_us->0
        &&& to_us is Some ==> self.start_us < to_us->0
    }

    /// Whether the archive's window meets the given one.
    pub fn overlaps(&self, from_us: Option<i64>, to_us: Option<i64>) -> (r: bool)
        ensures
            r == self.meets(from_us, to_us),
    {
        let from_ok = match from_us {
            Some(f) => self.end_us > f,
            None => true,
        };
        let to_ok = match to_us {
            Some(t) => self.start_us < t,
            None => true,
        };
        from_ok && to_ok
    }

    /// A copy of the entry.
    pub fn copied(&self) -> (r: ColdArchive)
        ensures
            r == *self,
    {
        ColdArchive {
            id: self.id.clone(),
            kind: self.kind.clone(),
            file: self.file.clone(),
            start_us: self.start_us,
            end_us: self.end_us,
            rows: self.rows,
            bytes_in: self.bytes_in,
            bytes_out: self.bytes_out,
            checksum: self.checksum.clone(),
            hot_pruned: self.hot_pruned,
            sealed_at_us: self.sealed_at_us,
            legal_hold: self.legal_hold,
        }
    }
}

/// Where an archive holds a moment, every window with that moment in it meets the archive.
/// Where it meets a window that is not empty, and holds some moment, the two have a moment
/// in common.
pub proof fn windows_meet_in_a_moment(
    a: ColdArchive,
    from_us: Option<i64>,
    to_us: Option<i64>,
    us: i64,
)
    ensures
        a.holds(us) && (from_us is Some ==> from_us->0 <= us) && (to_us is Some ==> us < to_us->0)
            ==> a.meets(from_us, to_us),
        a.meets(from_us, to_us) && a.start_us < a.end_us && (from_us is Some && to_us is Some
            ==> from_us->0 < to_us->0) ==> exists|m: i64|
            {
                &&& #[trigger] a.holds(m)
                &&& from_us is Some ==> from_us->0 <= m
                &&& to_us is Some ==> m < to_us->0
            },
{
    if a.meets(from_us, to_us) && a.start_us < a.end_us && (from_us is Some && to_us is Some
        ==> from_us->0 < to_us->0) {
        let m = if from_us is Some && from_us->0 > a.start_us {
            from_us->0
        } else {
            a.start_us
        };
        assert(a.holds(m));
    }
}

/// An archive holds the first moment of its window and none before it, and the one before
/// its end and none from there on.
pub proof fn a_window_begins_and_ends(a: ColdArchive, us: i64)
    ensures
        us < a.start_us ==> !a.holds(us),
        us >= a.end_us ==> !a.holds(us),
        a.start_us < a.end_us ==> a.holds(a.start_us) && a.holds((a.end_us - 1) as i64),
        us >= a.start_us && us < a.end_us ==> a.holds(us),
{
}

} // verus!
