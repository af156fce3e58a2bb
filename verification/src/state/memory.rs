//! What has been seen before: templates of messages, stored plans and datasets, and
//! lists of entries by time.

use crate::order::{self, newest_first, Dated};
use crate::text::same;
use vstd::prelude::*;

verus! {

/// What is stored of a template, and whether it is new.
pub open spec fn first_noted(known: Option<i64>, first_seen_us: i64) -> (i64, bool) {
    match known {
        Some(t) => (t, false),
        None => (first_seen_us, true),
    }
}

/// What is stored of a template, and whether it is new. The first time that it was
/// seen stays.
pub fn note_template(known: Option<i64>, first_seen_us: i64) -> (r: (i64, bool))
    ensures
        r == first_noted(known, first_seen_us),
{
    match known {
        Some(t) => (t, false),
        None => (first_seen_us, true),
    }
}

/// What became of a dataset.
#[derive(Clone, Copy, Debug, PartialEq, Eq, Structural)]
pub enum DatasetPutOutcome {
    /// It is new and stored.
    Inserted,
    /// It is there.
    AlreadyIdentical,
    /// Something else is there under its digest, and stays.
    Conflict,
}

/// What becomes of a dataset; nothing where it is refused.
pub open spec fn dataset_put(verified: bool, existing: Option<bool>) -> Option<DatasetPutOutcome> {
    if !verified {
        None
    } else {
        Some(
            match existing {
                None => DatasetPutOutcome::Inserted,
                Some(true) => DatasetPutOutcome::AlreadyIdentical,
                Some(false) => DatasetPutOutcome::Conflict,
            },
        )
    }
}

/// What becomes of a dataset. `verified` says whether its digest is that of its
/// content, and `existing` what is stored under the digest, if anything, compared with
/// it.
pub fn put_dataset(verified: bool, existing: Option<bool>) -> (r: Result<
    DatasetPutOutcome,
    String,
>)
    ensures
        match dataset_put(verified, existing) {
            None => r is Err && r->Err_0@
                == "refusing to store a dataset snapshot that fails digest verification"@,
            Some(o) => r == Ok::<DatasetPutOutcome, String>(o),
        },
{
    if !verified {
        return Err(
            String::from_str("refusing to store a dataset snapshot that fails digest verification"),
        );
    }
    Ok(
        match existing {
            None => DatasetPutOutcome::Inserted,
            Some(true) => DatasetPutOutcome::AlreadyIdentical,
            Some(false) => DatasetPutOutcome::Conflict,
        },
    )
}

/// An entry of a list that is shown by time, with its whole content.
pub struct Entry {
    /// What it is about, where it is about a host.
    pub host: String,
    pub at_us: i64,
    pub body: Vec<u8>,
}

impl Dated for Entry {
    open spec fn time(&self) -> i64 {
        self.at_us
    }

    fn when(&self) -> (r: i64) {
        self.at_us
    }
}

/// The entries, the newest in front.
pub fn list_newest_first(entries: Vec<Entry>) -> (r: Vec<Entry>)
    ensures
        r@ == order::descending(entries@),
{
    newest_first(entries)
}

/// The entries about a host.
pub open spec fn about(entries: Seq<Entry>, host: Seq<char>) -> Seq<Entry>
    decreases entries.len(),
{
    if entries.len() == 0 {
        entries
    } else {
        let before = about(entries.drop_last(), host);
        if entries.last().host@ == host {
            before.push(entries.last())
        } else {
            before
        }
    }
}

/// The findings about a host, in their order.
pub fn findings_for_entity(entries: Vec<Entry>, host: &str) -> (r: Vec<Entry>)
    ensures
        r@ == about(entries@, host@),
{
    let mut r: Vec<Entry> = Vec::new();
    for e in it: entries
        invariant
            it.seq() == entries@,
            r@ == about(entries@.take(it.index()), host@),
    {
        assert(entries@.take(it.index() + 1).drop_last() =~= entries@.take(it.index()));
        if same(e.host.as_str(), host) {
            r.push(e);
        }
    }
    assert(entries@.take(entries@.len() as int) =~= entries@);
    r
}

/// The value under a key: the one that is stored, or else a new one, which is then to
/// be stored.
pub fn get_or_init(stored: Option<Vec<u8>>, fresh: Vec<u8>) -> (r: (Vec<u8>, bool))
    ensures
        match stored {
            Some(v) => r == (v, false),
            None => r == (fresh, true),
        },
{
    match stored {
        Some(v) => (v, false),
        None => (fresh, true),
    }
}

/// A template is new once: the first time that it was seen stays, whenever it is seen again.
pub proof fn a_template_is_new_once(known: Option<i64>, first_us: i64, again_us: i64)
    ensures
        first_noted(known, first_us).1 <==> known is None,
        known is None ==> first_noted(known, first_us).0 == first_us,
        known is Some ==> first_noted(known, first_us).0 == known->0,
        first_noted(Some(first_noted(known, first_us).0), again_us) == (
            first_noted(known, first_us).0,
            false,
        ),
{
}

/// The findings about a host are those that name it, in their order.
pub proof fn findings_name_their_host(entries: Seq<Entry>, host: Seq<char>)
    ensures
        about(entries, host) == entries.filter(|e: Entry| e.host@ == host),
    decreases entries.len(),
{
    reveal(Seq::filter);
    if entries.len() > 0 {
        findings_name_their_host(entries.drop_last(), host);
    }
}

/// A dataset is stored only where its digest is that of its content and nothing is stored
/// under it; what is stored stays, and other content under the digest is a conflict.
pub proof fn a_dataset_is_stored_once(verified: bool, existing: Option<bool>)
    ensures
        dataset_put(verified, existing) == Some(DatasetPutOutcome::Inserted) <==> verified
            && existing is None,
        dataset_put(verified, existing) is None <==> !verified,
        verified && existing == Some(true) ==> dataset_put(verified, existing) == Some(
            DatasetPutOutcome::AlreadyIdentical,
        ),
        verified && existing == Some(false) ==> dataset_put(verified, existing) == Some(
            DatasetPutOutcome::Conflict,
        ),
{
}

} // verus!
