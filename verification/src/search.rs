//! Full-text search: which documents a search admits, as clauses that must all hold.
//!
//! The sources that a credential may read are a clause of their own, beside the
//! sources that the caller asks for. So no request widens what its credential may
//! read, and a credential that may read nothing finds nothing.

use crate::events::columns::Event;
use crate::text::{self, is_listed};
use vstd::prelude::*;

verus! {

/// A label by which documents are told apart, matched exactly.
#[derive(Clone, Copy, Debug, PartialEq, Eq, Structural)]
pub enum Label {
    Host,
    Service,
    Source,
    Severity,
    LogType,
}

/// The field of the index that holds a label.
pub fn label_field(label: Label) -> (r: &'static str)
    ensures
        r@ == match label {
            Label::Host => "host"@,
            Label::Service => "service"@,
            Label::Source => "source"@,
            Label::Severity => "severity"@,
            Label::LogType => "log_type"@,
        },
{
    match label {
        Label::Host => "host",
        Label::Service => "service",
        Label::Source => "source",
        Label::Severity => "severity",
        Label::LogType => "log_type",
    }
}

/// One condition of a search.
pub enum Clause {
    /// The words of the query.
    Text,
    /// The label has one of the values. Where there are none, no document holds.
    AnyOf { label: Label, values: Vec<String> },
    /// The time lies in the window. A bound that is absent is no bound.
    Window { from_us: Option<i64>, to_us: Option<i64> },
}

/// What clauses read of a document. Whether its words match the query is up to the
/// index.
#[verifier::ext_equal]
pub struct Document {
    pub matches_text: bool,
    pub ts_us: i64,
    pub host: Seq<char>,
    pub service: Seq<char>,
    pub source: Seq<char>,
    pub severity: Seq<char>,
    pub log_type: Seq<char>,
}

/// The label of a document.
pub open spec fn label_of(d: Document, label: Label) -> Seq<char> {
    match label {
        Label::Host => d.host,
        Label::Service => d.service,
        Label::Source => d.source,
        Label::Severity => d.severity,
        Label::LogType => d.log_type,
    }
}

/// The time lies in the window.
pub open spec fn in_window(us: i64, from_us: Option<i64>, to_us: Option<i64>) -> bool {
    &&& from_us is Some ==> from_us->0 <= us
    &&& to_us is Some ==> us < to_us->0
}

/// A clause holds of a document.
pub open spec fn holds(c: Clause, d: Document) -> bool {
    match c {
        Clause::Text => d.matches_text,
        Clause::AnyOf { label, values } => text::listed(values@, label_of(d, label)),
        Clause::Window { from_us, to_us } => in_window(d.ts_us, from_us, to_us),
    }
}

/// Every clause holds of a document.
pub open spec fn admitted(clauses: Seq<Clause>, d: Document) -> bool {
    forall|i: int| 0 <= i < clauses.len() ==> holds(#[trigger] clauses[i], d)
}

/// The labels that a search asks for. A list that is empty asks for nothing.
pub struct Filter {
    pub host: Vec<String>,
    pub service: Vec<String>,
    pub source: Vec<String>,
    pub severity: Vec<String>,
    pub log_type: Vec<String>,
}

/// A label is not asked for, or is one of those asked for.
pub open spec fn wanted(values: Seq<String>, label: Seq<char>) -> bool {
    values.len() == 0 || text::listed(values, label)
}

/// A document that a search asks for and the credential may read.
pub open spec fn found(
    f: Filter,
    from_us: Option<i64>,
    to_us: Option<i64>,
    scope: Option<Seq<String>>,
    d: Document,
) -> bool {
    &&& d.matches_text
    &&& wanted(f.host@, d.host)
    &&& wanted(f.service@, d.service)
    &&& wanted(f.source@, d.source)
    &&& wanted(f.severity@, d.severity)
    &&& wanted(f.log_type@, d.log_type)
    &&& in_window(d.ts_us, from_us, to_us)
    &&& scope is Some ==> text::listed(scope->0, d.source)
}

/// A search, ready to run.
pub struct Plan {
    pub clauses: Vec<Clause>,
    /// How many hits to return.
    pub limit: usize,
}

/// What is reported where an old index is asked for a window.
pub open spec fn no_windows() -> Seq<char> {
    "this full-text index predates time-range filtering — run `garmr reindex` (with `serve` stopped) to rebuild it; searching without a range still works"@
}

fn copies(v: &Vec<String>) -> (r: Vec<String>)
    ensures
        r@ == v@,
{
    let mut r: Vec<String> = Vec::new();
    let mut i: usize = 0;
    while i < v.len()
        invariant
            i <= v.len(),
            r@ == v@.take(i as int),
        decreases v.len() - i,
    {
        r.push(v[i].clone());
        i += 1;
        assert(v@.take(i as int) =~= v@.take(i - 1).push(v@[i - 1]));
    }
    assert(v@.take(i as int) =~= v@);
    r
}

fn ask(clauses: &mut Vec<Clause>, label: Label, values: &Vec<String>)
    ensures
        forall|d: Document| #[trigger]
            admitted(final(clauses)@, d) == (admitted(old(clauses)@, d) && wanted(
                values@,
                label_of(d, label),
            )),
{
    if values.len() == 0 {
        return;
    }
    let ghost before = clauses@;
    let c = Clause::AnyOf { label, values: copies(values) };
    clauses.push(c);
    proof {
        admitted_pushed(before, c);
    }
}

proof fn admitted_pushed(before: Seq<Clause>, c: Clause)
    ensures
        forall|d: Document| #[trigger]
            admitted(before.push(c), d) == (admitted(before, d) && holds(c, d)),
{
    assert forall|d: Document| #[trigger]
        admitted(before.push(c), d) == (admitted(before, d) && holds(c, d)) by {
        let after = before.push(c);
        if admitted(after, d) {
            assert(holds(after[before.len() as int], d));
            assert forall|i: int| 0 <= i < before.len() implies holds(#[trigger] before[i], d) by {
                assert(holds(after[i], d));
            }
        }
    }
}

/// The plan of a search for the given labels in the window `[from_us, to_us)`, within
/// the sources that a credential may read where it is limited. A window cannot be
/// had of an index without columns of times. At least one hit is asked for.
pub fn plan(
    filter: &Filter,
    limit: usize,
    from_us: Option<i64>,
    to_us: Option<i64>,
    scope: Option<&Vec<String>>,
    supports_windows: bool,
) -> (r: Result<Plan, String>)
    ensures
        match r {
            Ok(p) => {
                &&& supports_windows || (from_us is None && to_us is None)
                &&& forall|d: Document| #[trigger]
                    admitted(p.clauses@, d) == found(
                        *filter,
                        from_us,
                        to_us,
                        match scope {
                            Some(s) => Some(s@),
                            None => None,
                        },
                        d,
                    )
                &&& p.limit == if limit == 0 {
                    1
                } else {
                    limit
                }
            },
            Err(e) => !supports_windows && (from_us is Some || to_us is Some) && e@ == no_windows(),
        },
{
    let mut clauses: Vec<Clause> = Vec::new();
    let ghost none = clauses@;
    assert(forall|d: Document| #[trigger] admitted(none, d));
    clauses.push(Clause::Text);
    proof {
        admitted_pushed(none, Clause::Text);
    }
    ask(&mut clauses, Label::Host, &filter.host);
    ask(&mut clauses, Label::Service, &filter.service);
    ask(&mut clauses, Label::Source, &filter.source);
    ask(&mut clauses, Label::Severity, &filter.severity);
    ask(&mut clauses, Label::LogType, &filter.log_type);
    if from_us.is_some() || to_us.is_some() {
        if !supports_windows {
            return Err(
                String::from_str(
                    "this full-text index predates time-range filtering — run `garmr reindex` (with `serve` stopped) to rebuild it; searching without a range still works",
                ),
            );
        }
        let ghost before = clauses@;
        let c = Clause::Window { from_us, to_us };
        clauses.push(c);
        proof {
            admitted_pushed(before, c);
        }
    }
    if let Some(allowed) = scope {
        let ghost before = clauses@;
        let c = Clause::AnyOf { label: Label::Source, values: copies(allowed) };
        clauses.push(c);
        proof {
            admitted_pushed(before, c);
        }
    }
    let limit: usize = if limit == 0 {
        1
    } else {
        limit
    };
    Ok(Plan { clauses, limit })
}

/// Whatever a search asks for, it finds only what the credential may read.
pub proof fn a_scope_cannot_be_widened(
    f: Filter,
    from_us: Option<i64>,
    to_us: Option<i64>,
    scope: Seq<String>,
    d: Document,
)
    requires
        found(f, from_us, to_us, Some(scope), d),
    ensures
        text::listed(scope, d.source),
        found(f, from_us, to_us, None, d),
{
}

/// A credential that may read no source finds nothing.
pub proof fn an_empty_scope_finds_nothing(
    f: Filter,
    from_us: Option<i64>,
    to_us: Option<i64>,
    d: Document,
)
    ensures
        !found(f, from_us, to_us, Some(Seq::empty()), d),
{
}

/// A caller who asks for sources outside the scope finds nothing.
pub proof fn sources_outside_the_scope_are_not_found(
    f: Filter,
    from_us: Option<i64>,
    to_us: Option<i64>,
    scope: Seq<String>,
    d: Document,
)
    requires
        f.source@.len() > 0,
        forall|s: Seq<char>| #[trigger] text::listed(f.source@, s) ==> !text::listed(scope, s),
    ensures
        !found(f, from_us, to_us, Some(scope), d),
{
}

/// What is reported where the documents before a time cannot be found.
pub open spec fn no_pruning() -> Seq<char> {
    "this full-text index predates ts-range support — run `garmr reindex` (with `serve` stopped) to rebuild it before pruning can work"@
}

/// Whether documents can be pruned by time. On an old index nothing would be found,
/// which must not pass for pruning.
pub fn may_prune(supports_windows: bool) -> (r: Result<(), String>)
    ensures
        match r {
            Ok(()) => supports_windows,
            Err(e) => !supports_windows && e@ == no_pruning(),
        },
{
    if supports_windows {
        return Ok(());
    }
    Err(
        String::from_str(
            "this full-text index predates ts-range support — run `garmr reindex` (with `serve` stopped) to rebuild it before pruning can work",
        ),
    )
}

/// Whether an index can be written to.
pub fn may_write(writable: bool) -> (r: Result<(), String>)
    ensures
        match r {
            Ok(()) => writable,
            Err(e) => !writable && e@ == "search index opened read-only"@,
        },
{
    if writable {
        Ok(())
    } else {
        Err(String::from_str("search index opened read-only"))
    }
}

/// What is reported of an index without a field.
pub fn missing_field(name: &str) -> (r: String)
    ensures
        r@ == "the full-text index has no '"@ + name@
            + "' field — run `garmr reindex` (with `serve` stopped) to rebuild it with the current schema"@,
{
    let mut m = String::from_str("the full-text index has no '");
    m.append(name);
    m.append(
        "' field — run `garmr reindex` (with `serve` stopped) to rebuild it with the current schema",
    );
    m
}

/// The events whose source is not excluded.
pub open spec fn included(events: Seq<Event>, excluded: Seq<String>) -> Seq<Event>
    decreases events.len(),
{
    if events.len() == 0 {
        events
    } else {
        let before = included(events.drop_last(), excluded);
        if text::listed(excluded, events.last().source@) {
            before
        } else {
            before.push(events.last())
        }
    }
}

/// The events to index: those whose source is not excluded, in order.
pub fn to_index(events: Vec<Event>, excluded: &Vec<String>) -> (r: Vec<Event>)
    ensures
        r@ == included(events@, excluded@),
{
    let mut left = events;
    let mut r: Vec<Event> = Vec::new();
    let ghost all = left@;
    let n = left.len();
    // The events are taken from the end and turned round afterwards.
    let mut back: Vec<Event> = Vec::new();
    let mut i: usize = 0;
    while i < n
        invariant
            i <= n == all.len(),
            left@ == all.take(n - i),
            back@ == all.skip(n - i).reverse(),
        decreases n - i,
    {
        match left.pop() {
            Some(e) => {
                let ghost was = back@;
                back.push(e);
                assert(all.skip(n - i - 1).reverse() =~= was.push(all[n - i - 1]));
                assert(left@ =~= all.take(n - i - 1));
            },
            None => {},
        }
        i += 1;
    }
    assert(all.skip(0) =~= all);
    let mut k: usize = 0;
    while k < n
        invariant
            k <= n == all.len(),
            back@ == all.skip(k as int).reverse(),
            r@ == included(all.take(k as int), excluded@),
        decreases n - k,
    {
        assert(all.take(k + 1).drop_last() =~= all.take(k as int));
        match back.pop() {
            Some(e) => {
                assert(e == all[k as int]);
                assert(back@ =~= all.skip(k + 1).reverse());
                if !is_listed(excluded, e.source.as_str()) {
                    r.push(e);
                }
            },
            None => {},
        }
        k += 1;
    }
    assert(all.take(k as int) =~= all);
    r
}

/// A search finds a document exactly where the words match, each label that is asked for is
/// one of those asked for, its time is not before the window and not at or behind its end,
/// and the credential may read its source.
pub proof fn what_a_search_finds(
    f: Filter,
    from_us: Option<i64>,
    to_us: Option<i64>,
    scope: Option<Seq<String>>,
    d: Document,
)
    ensures
        found(f, from_us, to_us, scope, d) <==> {
            &&& d.matches_text
            &&& f.host@.len() > 0 ==> exists|i: int|
                0 <= i < f.host@.len() && (#[trigger] f.host@[i])@ == d.host
            &&& f.service@.len() > 0 ==> exists|i: int|
                0 <= i < f.service@.len() && (#[trigger] f.service@[i])@ == d.service
            &&& f.source@.len() > 0 ==> exists|i: int|
                0 <= i < f.source@.len() && (#[trigger] f.source@[i])@ == d.source
            &&& f.severity@.len() > 0 ==> exists|i: int|
                0 <= i < f.severity@.len() && (#[trigger] f.severity@[i])@ == d.severity
            &&& f.log_type@.len() > 0 ==> exists|i: int|
                0 <= i < f.log_type@.len() && (#[trigger] f.log_type@[i])@ == d.log_type
            &&& from_us is Some ==> d.ts_us >= from_us->0
            &&& to_us is Some ==> d.ts_us < to_us->0
            &&& scope is Some ==> exists|i: int|
                0 <= i < scope->0.len() && (#[trigger] scope->0[i])@ == d.source
        },
{
}

/// The clauses of a search hold of a document one by one: a clause more admits the documents
/// of which it holds too.
pub proof fn clauses_hold_one_by_one(clauses: Seq<Clause>, c: Clause, d: Document)
    ensures
        admitted(clauses.push(c), d) <==> admitted(clauses, d) && holds(c, d),
        admitted(Seq::empty(), d),
        c matches Clause::AnyOf { label, values } ==> values@.len() == 0 ==> !holds(c, d),
        c matches Clause::Window { from_us, to_us } ==> (holds(c, d) <==> (from_us is None
            || from_us->0 <= d.ts_us) && (to_us is None || d.ts_us < to_us->0)),
        c matches Clause::AnyOf { label: Label::Source, values } ==> (holds(c, d)
            <==> text::listed(values@, d.source)),
        c matches Clause::AnyOf { label: Label::Host, values } ==> (holds(c, d) <==> text::listed(
            values@,
            d.host,
        )),
{
    admitted_pushed(clauses, c);
}

/// The events that are indexed are those whose source is none of the excluded ones, in their
/// order.
pub proof fn excluded_sources_are_not_indexed(events: Seq<Event>, excluded: Seq<String>)
    ensures
        included(events, excluded) == events.filter(
            |e: Event|
                forall|i: int|
                    0 <= i < excluded.len() ==> (#[trigger] excluded[i])@ != e.source@,
        ),
    decreases events.len(),
{
    reveal(Seq::filter);
    if events.len() > 0 {
        excluded_sources_are_not_indexed(events.drop_last(), excluded);
        let s = events.last().source@;
        assert(text::listed(excluded, s) <==> !(forall|i: int|
            0 <= i < excluded.len() ==> (#[trigger] excluded[i])@ != s));
    }
}

} // verus!
