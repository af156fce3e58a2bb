//! The two ways to seal a window, and what is recorded of a seal.

use crate::hash::{self, blake3_bytes};
use crate::text::{self, debug_text, same};
use vstd::prelude::*;

verus! {

/// The member under which an archive stores its payload.
pub const MEMBER: &'static str = "events.parquet";

/// The archivers.
#[derive(Clone, Copy, Debug, PartialEq, Eq, Structural)]
pub enum ColdArchiverKind {
    /// The parquet file is the archive.
    Plain,
    /// The parquet file is a member of a content-addressed archive.
    Znippy,
}

/// What a seal wrote.
#[derive(Clone, Debug, PartialEq, Eq)]
pub struct SealOutcome {
    pub bytes_out: u64,
    /// The hash of the archive file, in hexadecimal.
    pub checksum: String,
}

/// The name of a kind in the manifest.
pub open spec fn kind_name(kind: ColdArchiverKind) -> Seq<char> {
    match kind {
        ColdArchiverKind::Plain => "plain"@,
        ColdArchiverKind::Znippy => "znippy"@,
    }
}

/// The name of a kind in the manifest.
pub fn kind_str(kind: ColdArchiverKind) -> (r: &'static str)
    ensures
        r@ == kind_name(kind),
{
    match kind {
        ColdArchiverKind::Plain => "plain",
        ColdArchiverKind::Znippy => "znippy",
    }
}

/// The kind of a name in the manifest. Other names are reported.
pub fn kind_from_str(s: &str) -> (r: Result<ColdArchiverKind, String>)
    ensures
        match r {
            Ok(k) => s@ == kind_name(k),
            Err(e) => (forall|k: ColdArchiverKind| s@ != #[trigger] kind_name(k)) && e@
                == "unknown cold archiver kind "@ + text::quoted(s@),
        },
{
    if same(s, "plain") {
        return Ok(ColdArchiverKind::Plain);
    }
    if same(s, "znippy") {
        return Ok(ColdArchiverKind::Znippy);
    }
    let mut m = String::from_str("unknown cold archiver kind ");
    m.append(debug_text(s).as_str());
    Err(m)
}

/// The name of a kind gives the kind back.
pub proof fn names_tell_kinds_apart(a: ColdArchiverKind, b: ColdArchiverKind)
    requires
        kind_name(a) == kind_name(b),
    ensures
        a == b,
{
    reveal_strlit("plain");
    reveal_strlit("znippy");
    assert("plain"@.len() != "znippy"@.len());
}

/// The archiver to use.
pub enum Archiver {
    Plain(PlainArchiver),
    Znippy(ZnippyArchiver),
}

/// What is reported where the content-addressed archiver is not built in.
pub open spec fn not_built_in() -> Seq<char> {
    "cold archiver \"znippy\" requested but this binary was built without the `znippy` feature — set retention.archiver = \"plain\" or rebuild with the feature enabled"@
}

/// The archiver of a kind, where it is built in.
pub fn make_archiver(kind: ColdArchiverKind, compression_level: i32, znippy_built: bool) -> (r:
    Result<Archiver, String>)
    ensures
        match kind {
            ColdArchiverKind::Plain => r == Ok::<Archiver, String>(Archiver::Plain(PlainArchiver)),
            ColdArchiverKind::Znippy => if znippy_built {
                r == Ok::<Archiver, String>(
                    Archiver::Znippy(ZnippyArchiver { level: compression_level }),
                )
            } else {
                r is Err && r->Err_0@ == not_built_in()
            },
        },
{
    match kind {
        ColdArchiverKind::Plain => Ok(Archiver::Plain(PlainArchiver)),
        ColdArchiverKind::Znippy => {
            if znippy_built {
                Ok(Archiver::Znippy(ZnippyArchiver { level: compression_level }))
            } else {
                Err(
                    String::from_str(
                        "cold archiver \"znippy\" requested but this binary was built without the `znippy` feature — set retention.archiver = \"plain\" or rebuild with the feature enabled",
                    ),
                )
            }
        },
    }
}

/// The archiver whose archive is the parquet file.
pub struct PlainArchiver;

impl PlainArchiver {
    pub fn kind(&self) -> (r: ColdArchiverKind)
        ensures
            r == ColdArchiverKind::Plain,
    {
        ColdArchiverKind::Plain
    }

    /// The extension of its archives.
    pub fn extension(&self) -> (r: &'static str)
        ensures
            r@ == "parquet"@,
    {
        "parquet"
    }

    /// What is recorded of an archive that holds these bytes: how many there are, and
    /// their hash.
    pub fn outcome(&self, archive: &[u8]) -> (r: SealOutcome)
        ensures
            r.bytes_out == archive@.len(),
            r.checksum@ == hash::blake3_hex(archive@),
    {
        SealOutcome { bytes_out: archive.len() as u64, checksum: blake3_bytes(archive) }
    }

    /// The archive of a payload, and the payload of an archive: the same bytes.
    pub fn archive(&self, parquet: Vec<u8>) -> (r: Vec<u8>)
        ensures
            r == parquet,
    {
        parquet
    }
}

/// The archiver that makes content-addressed archives.
pub struct ZnippyArchiver {
    pub level: i32,
}

impl ZnippyArchiver {
    pub fn kind(&self) -> (r: ColdArchiverKind)
        ensures
            r == ColdArchiverKind::Znippy,
    {
        ColdArchiverKind::Znippy
    }

    /// The extension of its archives.
    pub fn extension(&self) -> (r: &'static str)
        ensures
            r@ == "znippy"@,
    {
        "znippy"
    }
}

impl Archiver {
    pub open spec fn sort(&self) -> ColdArchiverKind {
        match *self {
            Archiver::Plain(_) => ColdArchiverKind::Plain,
            Archiver::Znippy(_) => ColdArchiverKind::Znippy,
        }
    }

    /// The extension of the archives of a kind.
    pub open spec fn ending(kind: ColdArchiverKind) -> Seq<char> {
        match kind {
            ColdArchiverKind::Plain => "parquet"@,
            ColdArchiverKind::Znippy => "znippy"@,
        }
    }

    pub fn kind(&self) -> (r: ColdArchiverKind)
        ensures
            r == self.sort(),
    {
        match self {
            Archiver::Plain(a) => a.kind(),
            Archiver::Znippy(a) => a.kind(),
        }
    }

    pub fn extension(&self) -> (r: &'static str)
        ensures
            r@ == Archiver::ending(self.sort()),
    {
        match self {
            Archiver::Plain(a) => a.extension(),
            Archiver::Znippy(a) => a.extension(),
        }
    }
}

/// Archives of different kinds have different endings, so that a file shows its kind: that
/// of a parquet file, or the name of the archiver.
pub proof fn endings_tell_kinds_apart(a: ColdArchiverKind, b: ColdArchiverKind)
    ensures
        Archiver::ending(a) == Archiver::ending(b) <==> a == b,
        Archiver::ending(ColdArchiverKind::Znippy) == kind_name(ColdArchiverKind::Znippy),
        a is Plain ==> text::ends(MEMBER@, "."@ + Archiver::ending(a)),
{
    reveal_strlit("parquet");
    reveal_strlit("znippy");
    reveal_strlit(".");
    reveal_strlit("events.parquet");
    assert("parquet"@.len() == 7 && "znippy"@.len() == 6);
    let end = "."@ + "parquet"@;
    assert(MEMBER@ == "events.parquet"@);
    assert("events.parquet"@.skip(6) =~= end);
}

} // verus!
