//! Cases and how writers share them.
//!
//! A triage loop holds its copy of a case for minutes while people work on it. So a
//! case is not overwritten but merged: what the stored case has and the copy lacks is
//! kept.

use crate::numerals::{self, decimal};
use crate::order::{self, newest_first, oldest_first, Dated};
use crate::text::{self, contains, is_listed, same, unicode_lower};
use vstd::prelude::*;

verus! {

/// How far a case has come.
#[derive(Clone, Copy, Debug, PartialEq, Eq, Structural)]
pub enum CaseState {
    New,
    Investigating,
    Triaged,
    Escalated,
    NeedsHuman,
    Closed,
}

/// What was made of a case.
#[derive(Clone, Copy, Debug, PartialEq, Eq, Structural)]
pub enum Disposition {
    Malicious,
    Suspicious,
    Benign,
    Unknown,
}

/// An entry of a case's transcript.
#[derive(Clone, Debug, PartialEq, Eq)]
pub struct TranscriptEntry {
    pub at_us: i64,
    pub actor: String,
    pub detail: String,
    /// Tells the entry from others; empty for those that are only ever appended.
    pub entry_id: String,
}

impl TranscriptEntry {
    /// A copy of the entry.
    pub fn copied(&self) -> (r: TranscriptEntry)
        ensures
            r == *self,
    {
        TranscriptEntry {
            at_us: self.at_us,
            actor: self.actor.clone(),
            detail: self.detail.clone(),
            entry_id: self.entry_id.clone(),
        }
    }
}

impl Dated for TranscriptEntry {
    open spec fn time(&self) -> i64 {
        self.at_us
    }

    fn when(&self) -> (r: i64) {
        self.at_us
    }
}

/// The verdict of a triage.
#[derive(Clone, Debug, PartialEq, Eq)]
pub struct Verdict {
    pub disposition: Disposition,
    pub rationale: String,
}

/// A case.
pub struct Case {
    pub id: String,
    pub state: CaseState,
    pub opened_at_us: i64,
    pub updated_at_us: i64,
    /// When the state was last another one.
    pub state_changed_at_us: Option<i64>,
    pub event_count: u64,
    pub assignee: Option<String>,
    pub tags: Vec<String>,
    pub linked_cases: Vec<String>,
    pub transcript: Vec<TranscriptEntry>,
    /// The rule that opened it.
    pub rule_id: String,
    /// The host of the event that opened it.
    pub host: String,
    pub src_ip: Option<String>,
    pub db_user: Option<String>,
    pub user: Option<String>,
    pub verdict: Option<Verdict>,
}

impl Dated for Case {
    open spec fn time(&self) -> i64 {
        self.opened_at_us
    }

    fn when(&self) -> (r: i64) {
        self.opened_at_us
    }
}

/// A list with what another has and it lacks behind it.
pub open spec fn with_missing(a: Seq<String>, b: Seq<String>) -> Seq<String>
    decreases b.len(),
{
    if b.len() == 0 {
        a
    } else {
        let before = with_missing(a, b.drop_last());
        if text::listed(before, b.last()@) {
            before
        } else {
            before.push(b.last())
        }
    }
}

fn add_missing(a: Vec<String>, b: &Vec<String>) -> (r: Vec<String>)
    ensures
        r@ == with_missing(a@, b@),
{
    let mut r = a;
    let mut i: usize = 0;
    assert(b@.take(0) =~= Seq::<String>::empty());
    while i < b.len()
        invariant
            i <= b.len(),
            r@ == with_missing(a@, b@.take(i as int)),
        decreases b.len() - i,
    {
        assert(b@.take(i + 1).drop_last() =~= b@.take(i as int));
        if !is_listed(&r, b[i].as_str()) {
            r.push(b[i].clone());
        }
        i += 1;
    }
    assert(b@.take(i as int) =~= b@);
    r
}

/// The entry has an id, and it is the given one.
pub open spec fn has_entry(entries: Seq<TranscriptEntry>, id: Seq<char>) -> bool {
    exists|i: int|
        0 <= i < entries.len() && (#[trigger] entries[i]).entry_id@ == id && id.len() > 0
}

/// The entries with an id that another transcript lacks.
pub open spec fn missing_entries(
    stored: Seq<TranscriptEntry>,
    have: Seq<TranscriptEntry>,
) -> Seq<TranscriptEntry>
    decreases stored.len(),
{
    if stored.len() == 0 {
        stored
    } else {
        let before = missing_entries(stored.drop_last(), have);
        let e = stored.last();
        if e.entry_id@.len() > 0 && !has_entry(have, e.entry_id@) {
            before.push(e)
        } else {
            before
        }
    }
}

/// A transcript with the entries that it lacks of a stored one, in order of time. One
/// that lacks none stays as it is.
pub open spec fn merged_transcript(
    stored: Seq<TranscriptEntry>,
    incoming: Seq<TranscriptEntry>,
) -> Seq<TranscriptEntry> {
    let missing = missing_entries(stored, incoming);
    if missing.len() == 0 {
        incoming
    } else {
        order::ascending(incoming + missing)
    }
}

fn is_entry(entries: &Vec<TranscriptEntry>, id: &str) -> (r: bool)
    requires
        id@.len() > 0,
    ensures
        r == has_entry(entries@, id@),
{
    let mut i: usize = 0;
    while i < entries.len()
        invariant
            i <= entries.len(),
            id@.len() > 0,
            forall|j: int| 0 <= j < i ==> (#[trigger] entries@[j]).entry_id@ != id@,
        decreases entries.len() - i,
    {
        if same(entries[i].entry_id.as_str(), id) {
            assert(entries@[i as int].entry_id@ == id@ && id@.len() > 0);
            return true;
        }
        i += 1;
    }
    false
}

fn merge_transcript(stored: &Vec<TranscriptEntry>, incoming: Vec<TranscriptEntry>) -> (r: Vec<
    TranscriptEntry,
>)
    ensures
        r@ == merged_transcript(stored@, incoming@),
{
    let mut all = incoming;
    let mut missing: Vec<TranscriptEntry> = Vec::new();
    let mut i: usize = 0;
    while i < stored.len()
        invariant
            i <= stored.len(),
            all@ == incoming@,
            missing@ == missing_entries(stored@.take(i as int), incoming@),
        decreases stored.len() - i,
    {
        assert(stored@.take(i + 1).drop_last() =~= stored@.take(i as int));
        let named = text::chars_of(stored[i].entry_id.as_str()).len() > 0;
        if named && !is_entry(&all, stored[i].entry_id.as_str()) {
            missing.push(stored[i].copied());
        }
        i += 1;
    }
    assert(stored@.take(i as int) =~= stored@);
    if missing.len() == 0 {
        return all;
    }
    all.append(&mut missing);
    oldest_first(all)
}

/// A case merged into the stored one.
pub open spec fn merged(stored: Case, c: Case, r: Case, now_us: i64) -> bool {
    &&& r.id == c.id
    &&& r.state == c.state
    &&& r.opened_at_us == c.opened_at_us
    &&& r.updated_at_us == c.updated_at_us
    &&& r.rule_id == c.rule_id
    &&& r.host == c.host
    &&& r.src_ip == c.src_ip
    &&& r.db_user == c.db_user
    &&& r.user == c.user
    &&& r.verdict == c.verdict
    &&& r.event_count == if c.event_count >= stored.event_count {
        c.event_count
    } else {
        stored.event_count
    }
    &&& r.assignee == if c.assignee is Some {
        c.assignee
    } else {
        stored.assignee
    }
    &&& r.tags@ == with_missing(c.tags@, stored.tags@)
    &&& r.linked_cases@ == with_missing(c.linked_cases@, stored.linked_cases@)
    &&& r.transcript@ == merged_transcript(stored.transcript@, c.transcript@)
    &&& r.state_changed_at_us == if c.state == stored.state {
        if stored.state_changed_at_us is Some {
            stored.state_changed_at_us
        } else {
            c.state_changed_at_us
        }
    } else {
        Some(now_us)
    }
}

/// What the store holds under the id of a case.
pub enum Stored {
    Nothing,
    /// Something that is no case.
    Unreadable,
    Case(Case),
}

/// The case that is stored where one is put.
pub open spec fn is_put(stored: Stored, case: Case, r: Case, now_us: i64) -> bool {
    match stored {
        Stored::Nothing => r == (Case {
            state_changed_at_us: if case.state_changed_at_us is Some {
                case.state_changed_at_us
            } else {
                Some(case.opened_at_us)
            },
            ..case
        }),
        Stored::Unreadable => r == case,
        Stored::Case(s) => merged(s, case, r, now_us),
    }
}

/// The case to store. It takes over from the stored one what it lacks: a count that
/// has grown, an assignee, tags, links, and the entries that carry an id. The time of
/// the state is that of the stored case, or now where the state changes.
pub fn put_case(stored: Stored, case: Case, now_us: i64) -> (r: Case)
    ensures
        is_put(stored, case, r, now_us),
{
    match stored {
        Stored::Nothing => {
            let mut c = case;
            if c.state_changed_at_us.is_none() {
                c.state_changed_at_us = Some(c.opened_at_us);
            }
            c
        },
        Stored::Unreadable => case,
        Stored::Case(s) => {
            let event_count = if case.event_count >= s.event_count {
                case.event_count
            } else {
                s.event_count
            };
            let state_changed_at_us = if case.state == s.state {
                if s.state_changed_at_us.is_some() {
                    s.state_changed_at_us
                } else {
                    case.state_changed_at_us
                }
            } else {
                Some(now_us)
            };
            let assignee = if case.assignee.is_some() {
                case.assignee
            } else {
                s.assignee
            };
            Case {
                id: case.id,
                state: case.state,
                opened_at_us: case.opened_at_us,
                updated_at_us: case.updated_at_us,
                state_changed_at_us,
                event_count,
                assignee,
                tags: add_missing(case.tags, &s.tags),
                linked_cases: add_missing(case.linked_cases, &s.linked_cases),
                transcript: merge_transcript(&s.transcript, case.transcript),
                rule_id: case.rule_id,
                host: case.host,
                src_ip: case.src_ip,
                db_user: case.db_user,
                user: case.user,
                verdict: case.verdict,
            }
        },
    }
}

proof fn missing_keeps_all(a: Seq<String>, b: Seq<String>, s: Seq<char>)
    ensures
        text::listed(with_missing(a, b), s) == (text::listed(a, s) || text::listed(b, s)),
    decreases b.len(),
{
    if b.len() > 0 {
        let most = b.drop_last();
        let before = with_missing(a, most);
        missing_keeps_all(a, most, s);
        missing_keeps_all(a, most, b.last()@);
        if text::listed(most, s) {
            let i = choose|i: int| 0 <= i < most.len() && (#[trigger] most[i])@ == s;
            assert(b[i]@ == s);
        }
        if s == b.last()@ {
            assert(b[b.len() - 1]@ == s);
        }
        if text::listed(b, s) && s != b.last()@ {
            let i = choose|i: int| 0 <= i < b.len() && (#[trigger] b[i])@ == s;
            assert(most[i]@ == s);
        }
        if !text::listed(before, b.last()@) {
            let after = before.push(b.last());
            if text::listed(before, s) {
                let i = choose|i: int| 0 <= i < before.len() && (#[trigger] before[i])@ == s;
                assert(after[i]@ == s);
            }
            if s == b.last()@ {
                assert(after[before.len() as int]@ == s);
            }
            if text::listed(after, s) && s != b.last()@ {
                let i = choose|i: int| 0 <= i < after.len() && (#[trigger] after[i])@ == s;
                assert(before[i]@ == s);
            }
        }
    } else {
        assert(!text::listed(b, s));
    }
}

proof fn missing_are_kept(
    stored: Seq<TranscriptEntry>,
    have: Seq<TranscriptEntry>,
    e: TranscriptEntry,
)
    requires
        stored.contains(e),
        e.entry_id@.len() > 0,
        !has_entry(have, e.entry_id@),
    ensures
        missing_entries(stored, have).contains(e),
    decreases stored.len(),
{
    let most = stored.drop_last();
    let before = missing_entries(most, have);
    if stored.last() == e {
        assert(missing_entries(stored, have)[before.len() as int] == e);
    } else {
        let i = stored.index_of(e);
        assert(most[i] == e);
        missing_are_kept(most, have, e);
        let k = before.index_of(e);
        assert(missing_entries(stored, have)[k] == e);
    }
}

/// A write from an old copy of a case loses nothing of what others did meanwhile: not
/// the assignee, no tag, no link, no entry that carries an id, and no count. What the
/// copy brings is not lost either.
pub proof fn a_stale_write_loses_nothing(stored: Case, c: Case, r: Case, now_us: i64)
    requires
        merged(stored, c, r, now_us),
    ensures
        r.event_count >= stored.event_count,
        r.event_count >= c.event_count,
        stored.assignee is Some ==> r.assignee is Some,
        stored.assignee is Some && c.assignee is None ==> r.assignee == stored.assignee,
        forall|s: Seq<char>| #[trigger]
            text::listed(r.tags@, s) == (text::listed(c.tags@, s) || text::listed(stored.tags@, s)),
        forall|s: Seq<char>| #[trigger]
            text::listed(r.linked_cases@, s) == (text::listed(c.linked_cases@, s) || text::listed(
                stored.linked_cases@,
                s,
            )),
        forall|e: TranscriptEntry|
            c.transcript@.contains(e) ==> #[trigger] r.transcript@.contains(e),
        forall|e: TranscriptEntry|
            stored.transcript@.contains(e) && e.entry_id@.len() > 0 && !has_entry(
                c.transcript@,
                e.entry_id@,
            ) ==> #[trigger] r.transcript@.contains(e),
{
    assert forall|s: Seq<char>| #[trigger]
        text::listed(r.tags@, s) == (text::listed(c.tags@, s) || text::listed(stored.tags@, s)) by {
        missing_keeps_all(c.tags@, stored.tags@, s);
    }
    assert forall|s: Seq<char>| #[trigger]
        text::listed(r.linked_cases@, s) == (text::listed(c.linked_cases@, s) || text::listed(
            stored.linked_cases@,
            s,
        )) by {
        missing_keeps_all(c.linked_cases@, stored.linked_cases@, s);
    }
    let missing = missing_entries(stored.transcript@, c.transcript@);
    let all = c.transcript@ + missing;
    if missing.len() > 0 {
        order::oldest_first_is_ordered(all);
        assert forall|e: TranscriptEntry| all.contains(e) implies r.transcript@.contains(e) by {
            sorting_keeps(all, r.transcript@, e);
        }
    }
    assert forall|e: TranscriptEntry| c.transcript@.contains(e) implies
        #[trigger] r.transcript@.contains(e) by {
        let i = c.transcript@.index_of(e);
        assert(all[i] == e);
        assert(all.contains(e));
    }
    assert forall|e: TranscriptEntry|
        stored.transcript@.contains(e) && e.entry_id@.len() > 0 && !has_entry(
            c.transcript@,
            e.entry_id@,
        ) implies #[trigger] r.transcript@.contains(e) by {
        missing_are_kept(stored.transcript@, c.transcript@, e);
        let k = missing.index_of(e);
        assert(all[c.transcript@.len() + k] == e);
        assert(all.contains(e));
    }
}

proof fn sorting_keeps(a: Seq<TranscriptEntry>, b: Seq<TranscriptEntry>, e: TranscriptEntry)
    requires
        a.to_multiset() == b.to_multiset(),
        a.contains(e),
    ensures
        b.contains(e),
{
    a.to_multiset_ensures();
    b.to_multiset_ensures();
    assert(a.to_multiset().count(e) > 0);
    assert(b.to_multiset().count(e) > 0);
}

/// A write in the same state leaves the time of the state, and one in another state
/// sets it.
pub proof fn the_state_clock_runs_on(stored: Case, c: Case, r: Case, now_us: i64)
    requires
        merged(stored, c, r, now_us),
        stored.state_changed_at_us is Some,
    ensures
        c.state == stored.state ==> r.state_changed_at_us == stored.state_changed_at_us,
        c.state != stored.state ==> r.state_changed_at_us == Some(now_us),
{
}

/// A case with one more event.
pub fn bump_event_count(case: Case, at_us: i64) -> (r: Case)
    requires
        case.event_count < u64::MAX,
    ensures
        r == (Case { event_count: (case.event_count + 1) as u64, updated_at_us: at_us, ..case }),
{
    let mut c = case;
    c.event_count = c.event_count + 1;
    c.updated_at_us = at_us;
    c
}

/// A case that was changed, to be stored.
pub fn touched(case: Case, now_us: i64) -> (r: Case)
    ensures
        r == (Case { updated_at_us: now_us, ..case }),
{
    let mut c = case;
    c.updated_at_us = now_us;
    c
}

/// The cases, the one that was opened last in front.
pub fn list_cases(cases: Vec<Case>) -> (r: Vec<Case>)
    ensures
        r@ == order::descending(cases@),
{
    newest_first(cases)
}

/// A case with a link to another.
pub open spec fn linked_to(c: Case, id: String, now_us: i64, r: Case) -> bool {
    &&& r.linked_cases@ == if text::listed(c.linked_cases@, id@) {
        c.linked_cases@
    } else {
        c.linked_cases@.push(id)
    }
    &&& r == (Case { linked_cases: r.linked_cases, updated_at_us: now_us, ..c })
}

/// Links two cases in both directions. Nothing is to be stored where they are one
/// case, where one of them is missing, or where both links are there.
pub fn link_cases(a: Option<Case>, b: Option<Case>, now_us: i64) -> (r: Option<(Case, Case)>)
    ensures
        match r {
            Some((x, y)) => {
                &&& a is Some && b is Some
                &&& a->0.id@ != b->0.id@
                &&& !text::listed(a->0.linked_cases@, b->0.id@) || !text::listed(
                    b->0.linked_cases@,
                    a->0.id@,
                )
                &&& linked_to(a->0, b->0.id, now_us, x)
                &&& linked_to(b->0, a->0.id, now_us, y)
            },
            None => a is None || b is None || a->0.id@ == b->0.id@ || (text::listed(
                a->0.linked_cases@,
                b->0.id@,
            ) && text::listed(b->0.linked_cases@, a->0.id@)),
        },
{
    match (a, b) {
        (Some(mut x), Some(mut y)) => {
            if same(x.id.as_str(), y.id.as_str()) {
                return None;
            }
            let has_y = is_listed(&x.linked_cases, y.id.as_str());
            let has_x = is_listed(&y.linked_cases, x.id.as_str());
            if has_x && has_y {
                return None;
            }
            if !has_y {
                x.linked_cases.push(y.id.clone());
            }
            if !has_x {
                y.linked_cases.push(x.id.clone());
            }
            x.updated_at_us = now_us;
            y.updated_at_us = now_us;
            Some((x, y))
        },
        _ => None,
    }
}

/// Links point both ways, and a pair that is linked is not linked again: a case with the
/// link stays as it is but for when it was written.
pub proof fn links_point_both_ways(a: Case, b: Case, x: Case, y: Case, now_us: i64)
    requires
        linked_to(a, b.id, now_us, x),
        linked_to(b, a.id, now_us, y),
    ensures
        text::listed(x.linked_cases@, b.id@),
        text::listed(y.linked_cases@, a.id@),
        forall|z: Case, then_us: i64| #[trigger]
            linked_to(x, b.id, then_us, z) ==> z.linked_cases@ == x.linked_cases@,
{
    if !text::listed(a.linked_cases@, b.id@) {
        assert(x.linked_cases@[a.linked_cases@.len() as int]@ == b.id@);
    }
    if !text::listed(b.linked_cases@, a.id@) {
        assert(y.linked_cases@[b.linked_cases@.len() as int]@ == a.id@);
    }
}

/// How long a case may wait, in minutes; zero is for ever.
#[derive(Clone, Copy, Debug, PartialEq, Eq, Structural)]
pub struct SlaConfig {
    pub ack_minutes: u64,
    pub resolve_minutes: u64,
}

/// Which of its times a case has let pass.
#[derive(Clone, Copy, Debug, PartialEq, Eq, Structural)]
pub struct SlaStatus {
    pub ack_breached: bool,
    pub resolve_breached: bool,
}

/// The acknowledgement of the case is overdue and not marked.
pub open spec fn ack_due(c: Case, s: SlaStatus) -> bool {
    s.ack_breached && !text::listed(c.tags@, "sla:ack"@)
}

/// The resolution of the case is overdue and not marked.
pub open spec fn resolve_due(c: Case, s: SlaStatus) -> bool {
    s.resolve_breached && !text::listed(c.tags@, "sla:resolve"@)
}

/// The entry of an overdue acknowledgement.
pub open spec fn is_ack_entry(e: TranscriptEntry, id: Seq<char>, cfg: SlaConfig, now_us: i64) -> bool {
    &&& e.at_us == now_us
    &&& e.actor@ == "sla"@
    &&& e.detail@ == "ack SLA breached — unassigned in the human queue past "@
        + numerals::numeral(cfg.ack_minutes as nat) + " min"@
    &&& e.entry_id@ == "sla:ack:"@ + id
}

/// The entry of an overdue resolution.
pub open spec fn is_resolve_entry(
    e: TranscriptEntry,
    id: Seq<char>,
    cfg: SlaConfig,
    now_us: i64,
) -> bool {
    &&& e.at_us == now_us
    &&& e.actor@ == "sla"@
    &&& e.detail@ == "resolve SLA breached — open past "@ + numerals::numeral(
        cfg.resolve_minutes as nat,
    ) + " min"@
    &&& e.entry_id@ == "sla:resolve:"@ + id
}

/// A case with the marks of what is overdue: a tag and an entry for each.
pub open spec fn marked(
    c: Case,
    s: SlaStatus,
    cfg: SlaConfig,
    now_us: i64,
    written_us: i64,
    r: Case,
) -> bool {
    let n = c.tags@.len() as int;
    let m = c.transcript@.len() as int;
    let a: int = if ack_due(c, s) {
        1
    } else {
        0
    };
    let b: int = if resolve_due(c, s) {
        1
    } else {
        0
    };
    &&& r.tags@.len() == n + a + b
    &&& r.tags@.take(n) == c.tags@
    &&& a == 1 ==> r.tags@[n]@ == "sla:ack"@
    &&& b == 1 ==> r.tags@[n + a]@ == "sla:resolve"@
    &&& r.transcript@.len() == m + a + b
    &&& r.transcript@.take(m) == c.transcript@
    &&& a == 1 ==> is_ack_entry(r.transcript@[m], c.id@, cfg, now_us)
    &&& b == 1 ==> is_resolve_entry(r.transcript@[m + a], c.id@, cfg, now_us)
    &&& r == (Case {
        tags: r.tags,
        transcript: r.transcript,
        updated_at_us: written_us,
        ..c
    })
}

/// Marks a case that has let a time pass. Where nothing is overdue, or all of it is
/// marked, there is nothing to store; nor where no times are set.
pub fn mark_breaches(
    case: Case,
    status: Option<SlaStatus>,
    cfg: SlaConfig,
    now_us: i64,
    written_us: i64,
) -> (r: Option<Case>)
    ensures
        match r {
            Some(c) => {
                &&& status is Some
                &&& cfg.ack_minutes > 0 || cfg.resolve_minutes > 0
                &&& ack_due(case, status->0) || resolve_due(case, status->0)
                &&& marked(case, status->0, cfg, now_us, written_us, c)
            },
            None => status is None || (cfg.ack_minutes == 0 && cfg.resolve_minutes == 0) || (
            !ack_due(case, status->0) && !resolve_due(case, status->0)),
        },
{
    if cfg.ack_minutes == 0 && cfg.resolve_minutes == 0 {
        return None;
    }
    let s = match status {
        Some(s) => s,
        None => {
            return None;
        },
    };
    let ack = s.ack_breached && !is_listed(&case.tags, "sla:ack");
    let resolve = s.resolve_breached && !is_listed(&case.tags, "sla:resolve");
    if !ack && !resolve {
        return None;
    }
    let mut c = case;
    if ack {
        c.tags.push(String::from_str("sla:ack"));
        let mut detail = String::from_str(
            "ack SLA breached — unassigned in the human queue past ",
        );
        detail.append(decimal(cfg.ack_minutes).as_str());
        detail.append(" min");
        let mut entry_id = String::from_str("sla:ack:");
        entry_id.append(c.id.as_str());
        c.transcript.push(
            TranscriptEntry { at_us: now_us, actor: String::from_str("sla"), detail, entry_id },
        );
    }
    if resolve {
        c.tags.push(String::from_str("sla:resolve"));
        let mut detail = String::from_str("resolve SLA breached — open past ");
        detail.append(decimal(cfg.resolve_minutes).as_str());
        detail.append(" min");
        let mut entry_id = String::from_str("sla:resolve:");
        entry_id.append(c.id.as_str());
        c.transcript.push(
            TranscriptEntry { at_us: now_us, actor: String::from_str("sla"), detail, entry_id },
        );
    }
    c.updated_at_us = written_us;
    assert(c.tags@.take(case.tags@.len() as int) =~= case.tags@);
    assert(c.transcript@.take(case.transcript@.len() as int) =~= case.transcript@);
    Some(c)
}

/// The cases that have let a time pass and are not marked, each with what it let pass.
pub open spec fn due_cases(
    cases: Seq<Case>,
    statuses: Seq<Option<SlaStatus>>,
    cfg: SlaConfig,
) -> Seq<(Case, SlaStatus)>
    decreases cases.len(),
{
    if cases.len() == 0 || (cfg.ack_minutes == 0 && cfg.resolve_minutes == 0) {
        Seq::empty()
    } else {
        let before = due_cases(cases.drop_last(), statuses, cfg);
        let c = cases.last();
        match statuses[cases.len() - 1] {
            Some(s) => if ack_due(c, s) || resolve_due(c, s) {
                before.push((c, s))
            } else {
                before
            },
            None => before,
        }
    }
}

/// Marks the cases that have let a time pass, and returns those that are to be
/// stored, in their order, each with what it let pass.
pub fn apply_sla_breaches(
    cases: Vec<Case>,
    statuses: &Vec<Option<SlaStatus>>,
    cfg: SlaConfig,
    now_us: i64,
    written_us: i64,
) -> (r: Vec<(Case, SlaStatus)>)
    requires
        statuses.len() == cases.len(),
    ensures
        all_marked(cases@, statuses@, cfg, now_us, written_us, r@),
{
    let mut r: Vec<(Case, SlaStatus)> = Vec::new();
    let mut i: usize = 0;
    for c in it: cases
        invariant
            i == it.index(),
            it.seq() == cases@,
            statuses.len() == cases.len(),
            all_marked(cases@.take(i as int), statuses@, cfg, now_us, written_us, r@),
    {
        assert(cases@.take(i + 1).drop_last() =~= cases@.take(i as int));
        let status = statuses[i];
        if let Some(m) = mark_breaches(c, status, cfg, now_us, written_us) {
            if let Some(s) = status {
                r.push((m, s));
            }
        }
        i += 1;
    }
    assert(cases@.take(i as int) =~= cases@);
    r
}

/// A case that was marked is not marked again.
pub proof fn breaches_are_marked_once(
    c: Case,
    s: SlaStatus,
    cfg: SlaConfig,
    now_us: i64,
    written_us: i64,
    r: Case,
)
    requires
        marked(c, s, cfg, now_us, written_us, r),
    ensures
        !ack_due(r, s),
        !resolve_due(r, s),
{
    let n = c.tags@.len() as int;
    if s.ack_breached {
        if ack_due(c, s) {
            assert(r.tags@[n]@ == "sla:ack"@);
        } else {
            let i = choose|i: int| 0 <= i < n && (#[trigger] c.tags@[i])@ == "sla:ack"@;
            assert(r.tags@.take(n)[i] == c.tags@[i]);
            assert(r.tags@[i]@ == "sla:ack"@);
        }
    }
    if s.resolve_breached {
        if resolve_due(c, s) {
            let a: int = if ack_due(c, s) {
                1
            } else {
                0
            };
            assert(r.tags@[n + a]@ == "sla:resolve"@);
        } else {
            let i = choose|i: int| 0 <= i < n && (#[trigger] c.tags@[i])@ == "sla:resolve"@;
            assert(r.tags@.take(n)[i] == c.tags@[i]);
            assert(r.tags@[i]@ == "sla:resolve"@);
        }
    }
}

/// The case has let a time pass that is not marked.
pub open spec fn is_due(c: Case, status: Option<SlaStatus>, cfg: SlaConfig) -> bool {
    &&& cfg.ack_minutes > 0 || cfg.resolve_minutes > 0
    &&& status is Some
    &&& ack_due(c, status->0) || resolve_due(c, status->0)
}

/// A list of cases after a run: those that were due are marked, and no other has changed.
pub open spec fn run_over(
    cases: Seq<Case>,
    statuses: Seq<Option<SlaStatus>>,
    cfg: SlaConfig,
    now_us: i64,
    written_us: i64,
    after: Seq<Case>,
) -> bool {
    &&& after.len() == cases.len()
    &&& forall|i: int|
        0 <= i < cases.len() ==> if is_due(cases[i], statuses[i], cfg) {
            marked(cases[i], statuses[i]->0, cfg, now_us, written_us, #[trigger] after[i])
        } else {
            after[i] == cases[i]
        }
}

proof fn none_due(cases: Seq<Case>, statuses: Seq<Option<SlaStatus>>, cfg: SlaConfig)
    requires
        cases.len() <= statuses.len(),
        forall|i: int| 0 <= i < cases.len() ==> !is_due(#[trigger] cases[i], statuses[i], cfg),
    ensures
        due_cases(cases, statuses, cfg).len() == 0,
    decreases cases.len(),
{
    if cases.len() > 0 {
        let most = cases.drop_last();
        assert forall|i: int| 0 <= i < most.len() implies !is_due(
            #[trigger] most[i],
            statuses[i],
            cfg,
        ) by {
            assert(most[i] == cases[i]);
        }
        none_due(most, statuses, cfg);
        assert(!is_due(cases[cases.len() - 1], statuses[cases.len() - 1], cfg));
    }
}

/// A list of cases with the marked ones in the place of those that were due.
pub open spec fn put_back(
    cases: Seq<Case>,
    statuses: Seq<Option<SlaStatus>>,
    cfg: SlaConfig,
    marked: Seq<(Case, SlaStatus)>,
) -> Seq<Case>
    decreases cases.len(),
{
    if cases.len() == 0 {
        Seq::empty()
    } else if is_due(cases.last(), statuses[cases.len() - 1], cfg) {
        put_back(cases.drop_last(), statuses, cfg, marked.drop_last()).push(marked.last().0)
    } else {
        put_back(cases.drop_last(), statuses, cfg, marked).push(cases.last())
    }
}

/// A run returns a case for each that is due, marked, with what it let pass.
pub open spec fn all_marked(
    cases: Seq<Case>,
    statuses: Seq<Option<SlaStatus>>,
    cfg: SlaConfig,
    now_us: i64,
    written_us: i64,
    r: Seq<(Case, SlaStatus)>,
) -> bool {
    let due = due_cases(cases, statuses, cfg);
    &&& r.len() == due.len()
    &&& forall|k: int|
        0 <= k < r.len() ==> marked(due[k].0, due[k].1, cfg, now_us, written_us, (#[trigger] r[k]).0)
            && r[k].1 == due[k].1
}

/// Where the marked cases are put back, those that were due are marked and no other has
/// changed.
pub proof fn a_run_changes_what_is_due(
    cases: Seq<Case>,
    statuses: Seq<Option<SlaStatus>>,
    cfg: SlaConfig,
    now_us: i64,
    written_us: i64,
    r: Seq<(Case, SlaStatus)>,
)
    requires
        cases.len() <= statuses.len(),
        all_marked(cases, statuses, cfg, now_us, written_us, r),
    ensures
        run_over(cases, statuses, cfg, now_us, written_us, put_back(cases, statuses, cfg, r)),
    decreases cases.len(),
{
    if cases.len() > 0 {
        let most = cases.drop_last();
        let due = due_cases(cases, statuses, cfg);
        let last = is_due(cases.last(), statuses[cases.len() - 1], cfg);
        let before = if last {
            r.drop_last()
        } else {
            r
        };
        if last {
            assert(due.drop_last() =~= due_cases(most, statuses, cfg));
            assert(marked(due.last().0, due.last().1, cfg, now_us, written_us, r[r.len() - 1].0));
            assert forall|k: int| 0 <= k < before.len() implies marked(
                due_cases(most, statuses, cfg)[k].0,
                due_cases(most, statuses, cfg)[k].1,
                cfg,
                now_us,
                written_us,
                (#[trigger] before[k]).0,
            ) && before[k].1 == due_cases(most, statuses, cfg)[k].1 by {
                assert(before[k] == r[k]);
                assert(due[k] == due.drop_last()[k]);
            }
        } else {
            assert(due =~= due_cases(most, statuses, cfg));
        }
        a_run_changes_what_is_due(most, statuses, cfg, now_us, written_us, before);
        let after = put_back(cases, statuses, cfg, r);
        let rest = put_back(most, statuses, cfg, before);
        assert forall|i: int| 0 <= i < cases.len() implies if is_due(cases[i], statuses[i], cfg) {
            marked(cases[i], statuses[i]->0, cfg, now_us, written_us, #[trigger] after[i])
        } else {
            after[i] == cases[i]
        } by {
            if i < most.len() {
                assert(most[i] == cases[i]);
                assert(after[i] == rest[i]);
            }
        }
    }
}

/// A second run, over the list with the marked cases put back and by the same statuses,
/// finds nothing to mark. Where no times are set the first finds nothing either.
pub proof fn a_second_run_marks_nothing(
    cases: Seq<Case>,
    statuses: Seq<Option<SlaStatus>>,
    cfg: SlaConfig,
    now_us: i64,
    written_us: i64,
    r: Seq<(Case, SlaStatus)>,
)
    requires
        statuses.len() == cases.len(),
        all_marked(cases, statuses, cfg, now_us, written_us, r),
    ensures
        due_cases(put_back(cases, statuses, cfg, r), statuses, cfg).len() == 0,
        cfg.ack_minutes == 0 && cfg.resolve_minutes == 0 ==> r.len() == 0 && put_back(
            cases,
            statuses,
            cfg,
            r,
        ) =~= cases,
{
    let after = put_back(cases, statuses, cfg, r);
    a_run_changes_what_is_due(cases, statuses, cfg, now_us, written_us, r);
    assert forall|i: int| 0 <= i < after.len() implies !is_due(
        #[trigger] after[i],
        statuses[i],
        cfg,
    ) by {
        if is_due(cases[i], statuses[i], cfg) {
            breaches_are_marked_once(
                cases[i],
                statuses[i]->0,
                cfg,
                now_us,
                written_us,
                after[i],
            );
        }
    }
    none_due(after, statuses, cfg);
    if cfg.ack_minutes == 0 && cfg.resolve_minutes == 0 {
        assert forall|i: int| 0 <= i < cases.len() implies after[i] == cases[i] by {}
    }
}

/// What is searched of a case.
pub open spec fn haystack(c: Case) -> Seq<char> {
    c.host@ + " "@ + match c.src_ip {
        Some(ip) => ip@,
        None => Seq::empty(),
    } + " "@ + c.rule_id@ + " "@ + match c.verdict {
        Some(v) => v.rationale@,
        None => Seq::empty(),
    }
}

/// A case matches a search.
pub open spec fn search_hit(c: Case, needle: Seq<char>) -> bool {
    text::within(text::lowercase(haystack(c)), text::lowercase(needle))
}

/// Whether the lower-case text of a case holds a lower-case needle.
pub fn is_hit(haystack: &str, needle: &str) -> (r: bool)
    ensures
        r == text::within(haystack@, needle@),
{
    contains(haystack, needle)
}

/// Whether a case matches a search: the needle is part of its host, address, rule or
/// rationale, whatever the case of the letters.
pub fn matches_search(c: &Case, needle: &str) -> (r: bool)
    ensures
        r == search_hit(*c, needle@),
{
    let mut h = c.host.clone();
    h.append(" ");
    let ghost a = h@;
    if let Some(ip) = &c.src_ip {
        h.append(ip.as_str());
    } else {
        assert(h@ =~= a + Seq::<char>::empty());
    }
    h.append(" ");
    h.append(c.rule_id.as_str());
    h.append(" ");
    let ghost b = h@;
    if let Some(v) = &c.verdict {
        h.append(v.rationale.as_str());
    } else {
        assert(h@ =~= b + Seq::<char>::empty());
    }
    assert(h@ =~= haystack(*c));
    let low = unicode_lower(h.as_str());
    let want = unicode_lower(needle);
    is_hit(low.as_str(), want.as_str())
}

/// The cases that match a search.
pub open spec fn hits(cases: Seq<Case>, needle: Seq<char>) -> Seq<Case>
    decreases cases.len(),
{
    if cases.len() == 0 {
        cases
    } else {
        let before = hits(cases.drop_last(), needle);
        if search_hit(cases.last(), needle) {
            before.push(cases.last())
        } else {
            before
        }
    }
}

/// The cases that match a search, the one that was opened last in front.
pub fn search_cases(cases: Vec<Case>, needle: &str) -> (r: Vec<Case>)
    ensures
        r@ == hits(order::descending(cases@), needle@),
{
    let listed = newest_first(cases);
    let mut r: Vec<Case> = Vec::new();
    for c in it: listed
        invariant
            it.seq() == listed@,
            r@ == hits(listed@.take(it.index()), needle@),
    {
        assert(listed@.take(it.index() + 1).drop_last() =~= listed@.take(it.index()));
        if matches_search(&c, needle) {
            r.push(c);
        }
    }
    assert(listed@.take(listed@.len() as int) =~= listed@);
    r
}

/// What a write says of the case itself stands: its state, its verdict and its times are
/// those of the write, and so is the assignee where the write has one. The count is one of
/// the two counts.
pub proof fn a_write_takes_effect(stored: Case, c: Case, r: Case, now_us: i64)
    requires
        merged(stored, c, r, now_us),
    ensures
        r.id == c.id,
        r.state == c.state,
        r.verdict == c.verdict,
        r.opened_at_us == c.opened_at_us,
        r.updated_at_us == c.updated_at_us,
        (r.rule_id, r.host) == (c.rule_id, c.host),
        (r.src_ip, r.db_user, r.user) == (c.src_ip, c.db_user, c.user),
        c.assignee is Some ==> r.assignee == c.assignee,
        r.assignee == c.assignee || r.assignee == stored.assignee,
        r.event_count == c.event_count || r.event_count == stored.event_count,
        stored.state == c.state && stored.state_changed_at_us is None ==> r.state_changed_at_us
            == c.state_changed_at_us,
        stored.state != c.state ==> r.state_changed_at_us == Some(now_us),
{
}

/// A list that takes over what it lacks begins with what it had, and nothing is put behind
/// that twice: what it takes over, it lacked.
pub proof fn what_is_lacking_is_put_behind(a: Seq<String>, b: Seq<String>)
    ensures
        with_missing(a, b).len() >= a.len(),
        with_missing(a, b).take(a.len() as int) == a,
        forall|i: int, j: int|
            a.len() <= i < with_missing(a, b).len() && 0 <= j < i ==> (#[trigger] with_missing(
                a,
                b,
            )[i])@ != (#[trigger] with_missing(a, b)[j])@,
        forall|i: int|
            a.len() <= i < with_missing(a, b).len() ==> b.contains(
                #[trigger] with_missing(a, b)[i],
            ),
    decreases b.len(),
{
    if b.len() == 0 {
        assert(a.take(a.len() as int) =~= a);
    } else {
        let most = b.drop_last();
        what_is_lacking_is_put_behind(a, most);
        let before = with_missing(a, most);
        let after = with_missing(a, b);
        assert(after.take(a.len() as int) =~= before.take(a.len() as int));
        assert forall|i: int| a.len() <= i < after.len() implies b.contains(
            #[trigger] after[i],
        ) by {
            if i < before.len() {
                assert(after[i] == before[i]);
                assert(most.contains(before[i]));
                let k = choose|k: int| 0 <= k < most.len() && most[k] == before[i];
                assert(b[k] == before[i]);
            } else {
                assert(b[b.len() - 1] == after[i]);
            }
        }
        assert forall|i: int, j: int| a.len() <= i < after.len() && 0 <= j < i implies (
        #[trigger] after[i])@ != (#[trigger] after[j])@ by {
            if i < before.len() {
                assert(after[i] == before[i] && after[j] == before[j]);
            } else {
                assert(after[j] == before[j]);
            }
        }
    }
}

/// A merge invents no entry: each entry of the merged transcript is one of the copy, or one
/// of the stored case that carries an id which no entry of the copy has.
pub proof fn a_merge_invents_no_entry(
    stored: Seq<TranscriptEntry>,
    incoming: Seq<TranscriptEntry>,
    e: TranscriptEntry,
)
    requires
        merged_transcript(stored, incoming).contains(e),
    ensures
        incoming.contains(e) || (stored.contains(e) && e.entry_id@.len() > 0 && forall|i: int|
            0 <= i < incoming.len() ==> (#[trigger] incoming[i]).entry_id@ != e.entry_id@),
{
    let missing = missing_entries(stored, incoming);
    let all = incoming + missing;
    if missing.len() > 0 && !incoming.contains(e) {
        order::oldest_first_is_ordered(all);
        sorting_keeps(order::ascending(all), all, e);
        let k = choose|k: int| 0 <= k < all.len() && all[k] == e;
        if k < incoming.len() {
            assert(incoming[k] == e);
        } else {
            assert(missing[k - incoming.len()] == e);
        }
        missing_were_stored(stored, incoming, e);
        assert forall|i: int| 0 <= i < incoming.len() implies (#[trigger] incoming[i]).entry_id@
            != e.entry_id@ by {
            if incoming[i].entry_id@ == e.entry_id@ {
                assert(has_entry(incoming, e.entry_id@));
            }
        }
    }
}

proof fn missing_were_stored(
    stored: Seq<TranscriptEntry>,
    have: Seq<TranscriptEntry>,
    e: TranscriptEntry,
)
    requires
        missing_entries(stored, have).contains(e),
    ensures
        stored.contains(e),
        e.entry_id@.len() > 0,
        !has_entry(have, e.entry_id@),
    decreases stored.len(),
{
    if stored.len() > 0 {
        let most = stored.drop_last();
        let before = missing_entries(most, have);
        let k = choose|k: int|
            0 <= k < missing_entries(stored, have).len() && missing_entries(stored, have)[k] == e;
        if k < before.len() {
            assert(before[k] == e);
            missing_were_stored(most, have, e);
            let i = choose|i: int| 0 <= i < most.len() && most[i] == e;
            assert(stored[i] == e);
        } else {
            assert(stored[stored.len() - 1] == e);
        }
    }
}

/// A transcript that took entries over is in order of time.
pub proof fn a_merged_transcript_is_in_order(
    stored: Seq<TranscriptEntry>,
    incoming: Seq<TranscriptEntry>,
    e: TranscriptEntry,
)
    requires
        stored.contains(e),
        e.entry_id@.len() > 0,
        forall|i: int|
            0 <= i < incoming.len() ==> (#[trigger] incoming[i]).entry_id@ != e.entry_id@,
    ensures
        forall|i: int, j: int|
            0 <= i < j < merged_transcript(stored, incoming).len() ==> (
            #[trigger] merged_transcript(stored, incoming)[i]).at_us <= (
            #[trigger] merged_transcript(stored, incoming)[j]).at_us,
{
    assert(!has_entry(incoming, e.entry_id@));
    missing_are_kept(stored, incoming, e);
    let missing = missing_entries(stored, incoming);
    order::oldest_first_is_ordered(incoming + missing);
    assert(missing.len() > 0);
    let m = merged_transcript(stored, incoming);
    assert forall|i: int, j: int| 0 <= i < j < m.len() implies (#[trigger] m[i]).at_us <= (
    #[trigger] m[j]).at_us by {
        assert(m[i].time() <= m[j].time());
    }
}

/// A link adds the other case to the links and keeps those there were; of the rest of the
/// case only the time of the write changes.
pub proof fn a_link_adds_one_case(c: Case, id: String, now_us: i64, r: Case)
    requires
        linked_to(c, id, now_us, r),
    ensures
        forall|s: Seq<char>| #[trigger]
            text::listed(r.linked_cases@, s) <==> text::listed(c.linked_cases@, s) || s == id@,
        r.updated_at_us == now_us,
        (r.id, r.state, r.assignee, r.event_count) == (c.id, c.state, c.assignee, c.event_count),
        (r.tags, r.transcript, r.verdict) == (c.tags, c.transcript, c.verdict),
        r.state_changed_at_us == c.state_changed_at_us,
        r.opened_at_us == c.opened_at_us,
{
    assert forall|s: Seq<char>| #[trigger]
        text::listed(r.linked_cases@, s) <==> text::listed(c.linked_cases@, s) || s == id@ by {
        let before = c.linked_cases@;
        let after = r.linked_cases@;
        if text::listed(before, s) {
            let i = choose|i: int| 0 <= i < before.len() && (#[trigger] before[i])@ == s;
            assert(after[i]@ == s);
        }
        if !text::listed(before, id@) {
            assert(after[before.len() as int]@ == id@);
        }
        if text::listed(after, s) {
            let i = choose|i: int| 0 <= i < after.len() && (#[trigger] after[i])@ == s;
            if i < before.len() {
                assert(before[i]@ == s);
            }
        }
    }
}

/// A run finds a case due exactly where times are set and the case has let one pass that
/// none of its tags names, and it finds each such case with its own status.
pub proof fn cases_are_due_until_they_are_tagged(
    cases: Seq<Case>,
    statuses: Seq<Option<SlaStatus>>,
    cfg: SlaConfig,
)
    requires
        cases.len() <= statuses.len(),
    ensures
        forall|i: int|
            0 <= i < cases.len() && (cfg.ack_minutes > 0 || cfg.resolve_minutes > 0)
                && statuses[i] is Some && ((statuses[i]->0.ack_breached && !text::listed(
                (#[trigger] cases[i]).tags@,
                "sla:ack"@,
            )) || (statuses[i]->0.resolve_breached && !text::listed(
                cases[i].tags@,
                "sla:resolve"@,
            ))) ==> due_cases(cases, statuses, cfg).contains((cases[i], statuses[i]->0)),
        forall|d: (Case, SlaStatus)| #[trigger]
            due_cases(cases, statuses, cfg).contains(d) ==> (cfg.ack_minutes > 0
                || cfg.resolve_minutes > 0) && ((d.1.ack_breached && !text::listed(
                d.0.tags@,
                "sla:ack"@,
            )) || (d.1.resolve_breached && !text::listed(d.0.tags@, "sla:resolve"@))) && exists|
                i: int,
            |
                0 <= i < cases.len() && #[trigger] cases[i] == d.0 && statuses[i] == Some(d.1),
    decreases cases.len(),
{
    if cases.len() > 0 && (cfg.ack_minutes > 0 || cfg.resolve_minutes > 0) {
        let most = cases.drop_last();
        let n = cases.len() - 1;
        cases_are_due_until_they_are_tagged(most, statuses, cfg);
        let before = due_cases(most, statuses, cfg);
        let after = due_cases(cases, statuses, cfg);
        assert forall|i: int|
            0 <= i < cases.len() && statuses[i] is Some && ((statuses[i]->0.ack_breached
                && !text::listed((#[trigger] cases[i]).tags@, "sla:ack"@)) || (
            statuses[i]->0.resolve_breached && !text::listed(
                cases[i].tags@,
                "sla:resolve"@,
            ))) implies after.contains((cases[i], statuses[i]->0)) by {
            if i < n {
                assert(most[i] == cases[i]);
                assert(before.contains((most[i], statuses[i]->0)));
                let k = choose|k: int|
                    0 <= k < before.len() && before[k] == (most[i], statuses[i]->0);
                assert(after[k] == before[k]);
            } else {
                assert(after[before.len() as int] == (cases[n], statuses[n]->0));
            }
        }
        assert forall|d: (Case, SlaStatus)| #[trigger] after.contains(d) implies ((d.1.ack_breached
            && !text::listed(d.0.tags@, "sla:ack"@)) || (d.1.resolve_breached && !text::listed(
            d.0.tags@,
            "sla:resolve"@,
        ))) && exists|i: int|
            0 <= i < cases.len() && #[trigger] cases[i] == d.0 && statuses[i] == Some(d.1) by {
            let k = choose|k: int| 0 <= k < after.len() && after[k] == d;
            if k < before.len() {
                assert(before[k] == d);
                assert(before.contains(d));
                let i = choose|i: int|
                    0 <= i < most.len() && #[trigger] most[i] == d.0 && statuses[i] == Some(d.1);
                assert(cases[i] == d.0);
            } else {
                assert(cases[n] == d.0 && statuses[n] == Some(d.1));
            }
        }
    }
}

/// Marking adds a tag for what is overdue and no other, and keeps the tags and entries that
/// there were.
pub proof fn marks_name_what_is_overdue(
    c: Case,
    s: SlaStatus,
    cfg: SlaConfig,
    now_us: i64,
    written_us: i64,
    r: Case,
)
    requires
        marked(c, s, cfg, now_us, written_us, r),
    ensures
        forall|t: Seq<char>| #[trigger]
            text::listed(r.tags@, t) <==> {
                ||| text::listed(c.tags@, t)
                ||| t == "sla:ack"@ && s.ack_breached
                ||| t == "sla:resolve"@ && s.resolve_breached
            },
        forall|i: int|
            0 <= i < c.transcript@.len() ==> r.transcript@[i] == #[trigger] c.transcript@[i],
        forall|i: int|
            c.transcript@.len() <= i < r.transcript@.len() ==> (#[trigger] r.transcript@[i]).at_us
                == now_us,
        r.updated_at_us == written_us,
        (r.id, r.state, r.assignee, r.event_count) == (c.id, c.state, c.assignee, c.event_count),
{
    let n = c.tags@.len() as int;
    let m = c.transcript@.len() as int;
    assert forall|i: int| 0 <= i < m implies r.transcript@[i] == #[trigger] c.transcript@[i] by {
        assert(r.transcript@.take(m)[i] == c.transcript@[i]);
    }
    assert forall|i: int| 0 <= i < n implies r.tags@[i] == #[trigger] c.tags@[i] by {
        assert(r.tags@.take(n)[i] == c.tags@[i]);
    }
    breaches_are_marked_once(c, s, cfg, now_us, written_us, r);
    assert forall|t: Seq<char>| #[trigger]
        text::listed(r.tags@, t) <==> {
            ||| text::listed(c.tags@, t)
            ||| t == "sla:ack"@ && s.ack_breached
            ||| t == "sla:resolve"@ && s.resolve_breached
        } by {
        if text::listed(c.tags@, t) {
            let i = choose|i: int| 0 <= i < n && (#[trigger] c.tags@[i])@ == t;
            assert(r.tags@[i]@ == t);
        }
        if text::listed(r.tags@, t) {
            let i = choose|i: int| 0 <= i < r.tags@.len() && (#[trigger] r.tags@[i])@ == t;
            if i < n {
                assert(c.tags@[i]@ == t);
            }
        }
    }
}

/// A search looks at the host of a case, its address, its rule and its rationale.
pub proof fn a_search_looks_at_four_texts(c: Case)
    ensures
        text::within(haystack(c), c.host@),
        text::within(haystack(c), c.rule_id@),
        c.src_ip is Some ==> text::within(haystack(c), c.src_ip->0@),
        c.verdict is Some ==> text::within(haystack(c), c.verdict->0.rationale@),
{
    let h = haystack(c);
    let ip = match c.src_ip {
        Some(ip) => ip@,
        None => Seq::empty(),
    };
    let why = match c.verdict {
        Some(v) => v.rationale@,
        None => Seq::empty(),
    };
    let sp = " "@;
    assert(h =~= Seq::<char>::empty() + c.host@ + (sp + ip + sp + c.rule_id@ + sp + why));
    text::within_is_between(h, c.host@);
    assert(h =~= (c.host@ + sp) + ip + (sp + c.rule_id@ + sp + why));
    text::within_is_between(h, ip);
    assert(h =~= (c.host@ + sp + ip + sp) + c.rule_id@ + (sp + why));
    text::within_is_between(h, c.rule_id@);
    assert(h =~= (c.host@ + sp + ip + sp + c.rule_id@ + sp) + why + Seq::<char>::empty());
    text::within_is_between(h, why);
}

/// A search finds the cases that match, all of them and no other.
pub proof fn a_search_finds_what_matches(cases: Seq<Case>, needle: Seq<char>)
    ensures
        forall|i: int|
            0 <= i < cases.len() && text::within(
                text::lowercase(haystack(#[trigger] cases[i])),
                text::lowercase(needle),
            ) ==> hits(cases, needle).contains(cases[i]),
        forall|c: Case| #[trigger]
            hits(cases, needle).contains(c) ==> cases.contains(c) && text::within(
                text::lowercase(haystack(c)),
                text::lowercase(needle),
            ),
        hits(cases, needle).len() <= cases.len(),
    decreases cases.len(),
{
    if cases.len() > 0 {
        let most = cases.drop_last();
        let n = cases.len() - 1;
        a_search_finds_what_matches(most, needle);
        let before = hits(most, needle);
        let after = hits(cases, needle);
        assert forall|i: int|
            0 <= i < cases.len() && text::within(
                text::lowercase(haystack(#[trigger] cases[i])),
                text::lowercase(needle),
            ) implies after.contains(cases[i]) by {
            if i < n {
                assert(most[i] == cases[i]);
                assert(before.contains(most[i]));
                let k = choose|k: int| 0 <= k < before.len() && before[k] == most[i];
                assert(after[k] == before[k]);
            } else {
                assert(after[before.len() as int] == cases[n]);
            }
        }
        assert forall|c: Case| #[trigger] after.contains(c) implies cases.contains(c)
            && text::within(text::lowercase(haystack(c)), text::lowercase(needle)) by {
            let k = choose|k: int| 0 <= k < after.len() && after[k] == c;
            if k < before.len() {
                assert(before[k] == c);
                assert(before.contains(c));
                let i = choose|i: int| 0 <= i < most.len() && most[i] == c;
                assert(cases[i] == c);
            } else {
                assert(cases[n] == c);
            }
        }
    }
}

/// Whatever is stored under the id of a case, the case that is put says what it is: its
/// state, its verdict and the times are its own. A new case begins its state when it was
/// opened, unless it says otherwise, and is not changed otherwise.
pub proof fn a_case_is_put_as_it_is(stored: Stored, case: Case, r: Case, now_us: i64)
    requires
        is_put(stored, case, r, now_us),
    ensures
        (r.id, r.state, r.verdict) == (case.id, case.state, case.verdict),
        (r.opened_at_us, r.updated_at_us) == (case.opened_at_us, case.updated_at_us),
        !(stored is Case) ==> (r.tags, r.linked_cases, r.transcript) == (
            case.tags,
            case.linked_cases,
            case.transcript,
        ) && (r.assignee, r.event_count) == (case.assignee, case.event_count),
        stored is Nothing && case.state_changed_at_us is None ==> r.state_changed_at_us == Some(
            case.opened_at_us,
        ),
        !(stored is Case) && case.state_changed_at_us is Some ==> r.state_changed_at_us
            == case.state_changed_at_us,
        stored is Unreadable ==> r == case,
        stored matches Stored::Case(s) ==> r.event_count >= s.event_count && (s.state
            != case.state ==> r.state_changed_at_us == Some(now_us)),
{
}

} // verus!
