//! Versioned records that never change once they are registered, and the promotions
//! that decide which of them is in force.

use crate::order::{self, oldest_first, Dated};
use crate::state::records::{self, show_nanos};
use crate::text::{self, same};
use vstd::prelude::*;

verus! {

/// What became of a registration.
#[derive(Clone, Debug, PartialEq, Eq)]
pub enum RegisterOutcome {
    /// The version is new and stored.
    Inserted,
    /// The version is there with the same content.
    AlreadyIdentical,
    /// The version is there with other content, and stays.
    Conflict { existing_digest: String },
}

/// A character of a name in a key: the separator and the escape are escaped.
pub open spec fn escaped_char(c: char) -> Seq<char> {
    if c == '\\' {
        seq!['\\', '\\']
    } else if c == '|' {
        seq!['\\', '|']
    } else {
        seq![c]
    }
}

/// A name in a key.
pub open spec fn escaped(s: Seq<char>) -> Seq<char>
    decreases s.len(),
{
    if s.len() == 0 {
        Seq::empty()
    } else {
        escaped_char(s[0]) + escaped(s.drop_first())
    }
}

/// A name in a key, where it cannot be taken for two.
pub fn esc(s: &str) -> (r: String)
    ensures
        r@ == escaped(s@),
{
    let v = text::chars_of(s);
    let mut r = String::new();
    let mut i: usize = 0;
    assert(r@ + escaped(v@.skip(0)) =~= escaped(v@)) by {
        assert(v@.skip(0) =~= v@);
    }
    while i < v.len()
        invariant
            i <= v.len(),
            v@ == s@,
            r@ + escaped(v@.skip(i as int)) == escaped(v@),
        decreases v.len() - i,
    {
        let c = v[i];
        let ghost was = r@;
        assert(v@.skip(i as int)[0] == c);
        assert(v@.skip(i as int).drop_first() =~= v@.skip(i + 1));
        if c == '\\' {
            r.push('\\');
            r.push('\\');
        } else if c == '|' {
            r.push('\\');
            r.push('|');
        } else {
            r.push(c);
        }
        assert(r@ =~= was + escaped_char(c));
        assert(r@ + escaped(v@.skip(i + 1)) =~= was + (escaped_char(c) + escaped(v@.skip(i + 1))));
        i += 1;
    }
    assert(escaped(v@.skip(i as int)) =~= Seq::<char>::empty());
    assert(r@ =~= escaped(v@));
    r
}

proof fn escaped_start(s: Seq<char>)
    requires
        s.len() > 0,
    ensures
        escaped(s).len() > 0,
        escaped(s)[0] == if s[0] == '\\' || s[0] == '|' {
            '\\'
        } else {
            s[0]
        },
        escaped(s)[0] != '|',
        (s[0] == '\\' || s[0] == '|') ==> escaped(s).len() > 1 && escaped(s)[1] == s[0],
{
}

/// A name in front of a separator can be told from what is behind it.
proof fn escaped_splits(a: Seq<char>, x: Seq<char>, b: Seq<char>, y: Seq<char>)
    requires
        escaped(a) + seq!['|'] + x == escaped(b) + seq!['|'] + y,
    ensures
        a == b,
        x == y,
    decreases a.len(),
{
    let u = escaped(a) + seq!['|'] + x;
    let v = escaped(b) + seq!['|'] + y;
    if a.len() == 0 {
        assert(u[0] == '|');
        if b.len() > 0 {
            escaped_start(b);
            assert(v[0] == escaped(b)[0]);
        }
        assert(u.skip(1) =~= x);
        assert(v.skip(1) =~= y);
        assert(a =~= b);
    } else {
        escaped_start(a);
        assert(u[0] == escaped(a)[0]);
        if b.len() == 0 {
            assert(v[0] == '|');
        } else {
            escaped_start(b);
            assert(v[0] == escaped(b)[0]);
            if a[0] == '\\' || a[0] == '|' {
                assert(u[1] == escaped(a)[1]);
                if b[0] == '\\' || b[0] == '|' {
                    assert(v[1] == escaped(b)[1]);
                }
            }
            assert(a[0] == b[0]);
            let k = escaped_char(a[0]).len() as int;
            assert(u.skip(k) =~= escaped(a.drop_first()) + seq!['|'] + x);
            assert(v.skip(k) =~= escaped(b.drop_first()) + seq!['|'] + y);
            escaped_splits(a.drop_first(), x, b.drop_first(), y);
            assert(a =~= seq![a[0]] + a.drop_first());
            assert(b =~= seq![b[0]] + b.drop_first());
        }
    }
}

proof fn escaped_is_injective(a: Seq<char>, b: Seq<char>)
    requires
        escaped(a) == escaped(b),
    ensures
        a == b,
{
    escaped_splits(a, Seq::empty(), b, Seq::empty());
}

/// The key of a version: what kind it is of, its name, and the version.
pub open spec fn version_key(kind: Seq<char>, name: Seq<char>, version: Seq<char>) -> Seq<char> {
    kind + "|"@ + escaped(name) + "|"@ + escaped(version)
}

/// The key of a version.
pub fn rec_key(kind: &str, name: &str, version: &str) -> (r: String)
    ensures
        r@ == version_key(kind@, name@, version@),
{
    let mut r = String::from_str(kind);
    r.append("|");
    r.append(esc(name).as_str());
    r.append("|");
    r.append(esc(version).as_str());
    r
}

/// A key stands for one version: whatever separators the names hold, different
/// versions have different keys.
pub proof fn keys_tell_versions_apart(
    k: Seq<char>,
    n: Seq<char>,
    v: Seq<char>,
    l: Seq<char>,
    m: Seq<char>,
    w: Seq<char>,
)
    requires
        !text::has_char(k, '|'),
        !text::has_char(l, '|'),
        version_key(k, n, v) == version_key(l, m, w),
    ensures
        k == l,
        n == m,
        v == w,
{
    reveal_strlit("|");
    let a = version_key(k, n, v);
    let b = version_key(l, m, w);
    assert("|"@ =~= seq!['|']);
    assert(a[k.len() as int] == '|');
    assert(b[l.len() as int] == '|');
    if k.len() < l.len() {
        assert(b[k.len() as int] == l[k.len() as int]);
        assert(text::has_char(l, '|'));
    } else if l.len() < k.len() {
        assert(a[l.len() as int] == k[l.len() as int]);
        assert(text::has_char(k, '|'));
    }
    assert(a.take(k.len() as int) =~= k);
    assert(b.take(l.len() as int) =~= l);
    let n0 = k.len() + 1;
    assert(a.skip(n0 as int) =~= escaped(n) + seq!['|'] + escaped(v));
    assert(b.skip(n0 as int) =~= escaped(m) + seq!['|'] + escaped(w));
    escaped_splits(n, escaped(v), m, escaped(w));
    escaped_is_injective(v, w);
}

/// The key of a promotion: what kind it concerns, the name, the time, and its id.
pub fn promo_key(kind: &str, name: &str, at_nanos: i64, id: &str) -> (r: String)
    ensures
        r@ == kind@ + "|"@ + escaped(name@) + "|"@ + records::nanos_text(at_nanos) + "|"@ + id@,
{
    let mut r = String::from_str(kind);
    r.append("|");
    r.append(esc(name).as_str());
    r.append("|");
    r.append(show_nanos(at_nanos).as_str());
    r.append("|");
    r.append(id);
    r
}

/// What becomes of a registration, by digests.
#[verifier::ext_equal]
pub enum Registration {
    Inserted,
    Identical,
    Conflict { digest: Seq<char> },
}

/// What becomes of a registration whose content has the digest, where the version is there
/// with the digest `existing`, or not.
pub open spec fn registration(existing: Option<Seq<char>>, digest: Seq<char>) -> Registration {
    match existing {
        None => Registration::Inserted,
        Some(d) => if d == digest {
            Registration::Identical
        } else {
            Registration::Conflict { digest: d }
        },
    }
}

/// The digest that is stored after a registration.
pub open spec fn stored_digest(existing: Option<Seq<char>>, digest: Seq<char>) -> Seq<char> {
    match registration(existing, digest) {
        Registration::Inserted => digest,
        _ => existing->0,
    }
}

impl RegisterOutcome {
    /// What became of the registration, by digests.
    pub open spec fn said(self) -> Registration {
        match self {
            RegisterOutcome::Inserted => Registration::Inserted,
            RegisterOutcome::AlreadyIdentical => Registration::Identical,
            RegisterOutcome::Conflict { existing_digest } => Registration::Conflict {
                digest: existing_digest@,
            },
        }
    }
}

/// What becomes of a registration whose content has the given digest, where the
/// version is there with the digest `existing`, or not. Only a version that is not
/// there is stored.
pub fn register_record(existing: Option<&str>, digest: &str) -> (r: RegisterOutcome)
    ensures
        r.said() == registration(
            match existing {
                Some(d) => Some(d@),
                None => None,
            },
            digest@,
        ),
{
    match existing {
        None => RegisterOutcome::Inserted,
        Some(d) => {
            if same(d, digest) {
                RegisterOutcome::AlreadyIdentical
            } else {
                RegisterOutcome::Conflict { existing_digest: String::from_str(d) }
            }
        },
    }
}

/// A version or a promotion, with what the listings ask of it and its whole content.
pub struct Entry {
    pub kind: String,
    pub name: String,
    pub at_us: i64,
    pub body: Vec<u8>,
}

impl Dated for Entry {
    open spec fn time(&self) -> i64 {
        self.at_us
    }

    fn when(&self) -> (r: i64) {
        self.at_us
    }
}

/// The entries of a kind, and of a name where one is given.
pub open spec fn selected(
    entries: Seq<Entry>,
    kind: Seq<char>,
    name: Option<Seq<char>>,
) -> Seq<Entry>
    decreases entries.len(),
{
    if entries.len() == 0 {
        entries
    } else {
        let before = selected(entries.drop_last(), kind, name);
        let e = entries.last();
        if e.kind@ == kind && (name is None || e.name@ == name->0) {
            before.push(e)
        } else {
            before
        }
    }
}

fn select(entries: Vec<Entry>, kind: &str, name: Option<&str>) -> (r: Vec<Entry>)
    ensures
        r@ == selected(
            entries@,
            kind@,
            match name {
                Some(n) => Some(n@),
                None => None,
            },
        ),
{
    let ghost want = match name {
        Some(n) => Some(n@),
        None => None,
    };
    let mut r: Vec<Entry> = Vec::new();
    for e in it: entries
        invariant
            it.seq() == entries@,
            want == (match name {
                Some(n) => Some(n@),
                None => None,
            }),
            r@ == selected(entries@.take(it.index()), kind@, want),
    {
        assert(entries@.take(it.index() + 1).drop_last() =~= entries@.take(it.index()));
        let named = match name {
            Some(n) => same(e.name.as_str(), n),
            None => true,
        };
        if same(e.kind.as_str(), kind) && named {
            r.push(e);
        }
    }
    assert(entries@.take(entries@.len() as int) =~= entries@);
    r
}

/// The entries of a kind.
pub fn list_kind(entries: Vec<Entry>, kind: &str) -> (r: Vec<Entry>)
    ensures
        r@ == selected(entries@, kind@, None),
{
    select(entries, kind, None)
}

/// The entries of a kind and a name.
pub fn records_for_name(entries: Vec<Entry>, kind: &str, name: &str) -> (r: Vec<Entry>)
    ensures
        r@ == selected(entries@, kind@, Some(name@)),
{
    select(entries, kind, Some(name))
}

/// The promotions of a kind and a name, the oldest in front.
pub fn promotions_for(entries: Vec<Entry>, kind: &str, name: &str) -> (r: Vec<Entry>)
    ensures
        r@ == order::ascending(selected(entries@, kind@, Some(name@))),
{
    oldest_first(select(entries, kind, Some(name)))
}

/// A version that is there stays: only one that is not there is stored, and a registration
/// that is repeated with the same content is no conflict.
pub proof fn a_version_never_changes(existing: Option<Seq<char>>, digest: Seq<char>)
    ensures
        stored_digest(existing, digest) == if existing is Some {
            existing->0
        } else {
            digest
        },
        registration(existing, digest) == Registration::Inserted <==> existing is None,
        registration(existing, digest) == Registration::Identical <==> existing == Some(digest),
        registration(Some(stored_digest(existing, digest)), digest) == Registration::Identical
            <==> existing is None || existing == Some(digest),
        registration(existing, digest) is Conflict ==> registration(existing, digest)->digest
            == existing->0,
{
}

/// The entries of a kind, and of a name where one is given, are those that carry it, in
/// their order.
pub proof fn listings_hold_their_kind(
    entries: Seq<Entry>,
    kind: Seq<char>,
    name: Seq<char>,
)
    ensures
        selected(entries, kind, None) == entries.filter(|e: Entry| e.kind@ == kind),
        selected(entries, kind, Some(name)) == entries.filter(
            |e: Entry| e.kind@ == kind && e.name@ == name,
        ),
    decreases entries.len(),
{
    reveal(Seq::filter);
    if entries.len() > 0 {
        listings_hold_their_kind(entries.drop_last(), kind, name);
    }
}

} // verus!
