//! What SQL may be run: one statement that only reads, and, under a credential that
//! is limited to some sources, no row of any other source.
//!
//! A limited query has each of its references to the events table replaced by a
//! subquery that holds the rows of the allowed sources alone. A reference to any other
//! table refuses the query, unless the query itself defines the name.

use std::ops::ControlFlow;
use crate::retention::pass::{self, sql_list};
use crate::sql::parsable::{self, NOT_PARSED, is_parsable};
use crate::sql::token::{self, tokenize, Flavour};
use crate::text::{self, is_listed, join, replace_char, same, to_lower};
use sqlparser::ast::{Query, SetExpr, Statement, TableFactor, VisitMut, VisitorMut};
use sqlparser::dialect::GenericDialect;
use sqlparser::parser::Parser;
use vstd::prelude::*;

verus! {

/// The table that a limited query may read.
pub const EVENTS_TABLE: &'static str = "events";

/// What a statement is, as far as the guard asks.
#[derive(Clone, Copy, Debug, PartialEq, Eq, Structural)]
pub enum Kind {
    Query,
    Explain,
    Other,
}

/// The statements of a text, each with those that it explains behind it, or why the
/// text cannot be parsed.
pub uninterp spec fn statement_kinds(sql: Seq<char>) -> Result<Seq<Seq<Kind>>, Seq<char>>;

/// The kinds of each chain of a list.
pub open spec fn chains(v: Seq<Vec<Kind>>) -> Seq<Seq<Kind>> {
    v.map_values(|c: Vec<Kind>| c@)
}

/// `Parser::parse_sql` with the generic dialect: the kind of each statement, followed
/// by the kind of the statement that it explains, and so on; or the parser's message.
/// The result depends on the text alone. A text whose tree is too deep for the stack
/// aborts the process.
#[verifier::external_body]
fn parse_kinds(sql: &str) -> (r: Result<Vec<Vec<Kind>>, String>)
    requires
        parsable::parser_takes(Flavour::Generic, token::lexed(Flavour::Generic, sql@)),
    ensures
        match r {
            Ok(v) => statement_kinds(sql@) == Ok::<Seq<Seq<Kind>>, Seq<char>>(chains(v@)),
            Err(e) => statement_kinds(sql@) == Err::<Seq<Seq<Kind>>, Seq<char>>(e@),
        },
{
    let chain = |s: &Statement| std::iter::successors(Some(s), |s| match s {
        Statement::Explain { statement, .. } => Some(statement.as_ref()),
        _ => None,
    }).map(|s| match s {
        Statement::Query(_) => Kind::Query,
        Statement::Explain { .. } => Kind::Explain,
        _ => Kind::Other,
    }).collect();
    let parsed = Parser::parse_sql(&GenericDialect {}, sql).map_err(|e| e.to_string())?;
    Ok(parsed.iter().map(chain).collect())
}

/// The statements of a text as `statement_kinds` gives them, but an error where the text is
/// not handed to the parser.
pub open spec fn read_kinds(sql: Seq<char>) -> Result<Seq<Seq<Kind>>, Seq<char>> {
    if parsable::parser_takes(Flavour::Generic, token::lexed(Flavour::Generic, sql)) {
        statement_kinds(sql)
    } else {
        Err(NOT_PARSED@)
    }
}

/// The statements of a text, or why it cannot be parsed.
fn kinds_of(sql: &str) -> (r: Result<Vec<Vec<Kind>>, String>)
    ensures
        outcome(r) == read_kinds(sql@),
        r is Ok ==> parsable::parser_takes(Flavour::Generic, token::lexed(Flavour::Generic, sql@)),
{
    let taken = match tokenize(Flavour::Generic, sql) {
        Ok(tokens) => is_parsable(Flavour::Generic, &tokens),
        Err(_) => true,
    };
    if taken {
        parse_kinds(sql)
    } else {
        Err(String::from_str(NOT_PARSED))
    }
}

/// A chain that ends in a query and only explains before it.
pub open spec fn reads_only(chain: Seq<Kind>) -> bool
    decreases chain.len(),
{
    chain.len() > 0 && match chain[0] {
        Kind::Query => true,
        Kind::Explain => reads_only(chain.drop_first()),
        Kind::Other => false,
    }
}

/// Whether a chain ends in a query and only explains before it.
pub fn is_read_only(chain: &Vec<Kind>) -> (r: bool)
    ensures
        r == reads_only(chain@),
{
    let mut i: usize = 0;
    assert(chain@.skip(0) =~= chain@);
    while i < chain.len()
        invariant
            i <= chain.len(),
            reads_only(chain@) == reads_only(chain@.skip(i as int)),
        decreases chain.len() - i,
    {
        assert(chain@.skip(i as int)[0] == chain@[i as int]);
        assert(chain@.skip(i as int).drop_first() =~= chain@.skip(i + 1));
        match chain[i] {
            Kind::Query => {
                return true;
            },
            Kind::Explain => {},
            Kind::Other => {
                return false;
            },
        }
        i += 1;
    }
    false
}

/// What is reported of a text that may not be run, if anything.
pub open spec fn readonly_error(parsed: Result<Seq<Seq<Kind>>, Seq<char>>) -> Option<Seq<char>> {
    match parsed {
        Err(e) => Some("could not parse SQL: "@ + e),
        Ok(v) => if v.len() != 1 {
            Some("exactly one SQL statement is allowed"@)
        } else if !reads_only(v[0]) {
            Some("only a single SELECT/WITH query (optionally via EXPLAIN) is allowed"@)
        } else {
            None
        },
    }
}

/// What the parser gave, in terms of its texts.
pub open spec fn outcome(parsed: Result<Vec<Vec<Kind>>, String>) -> Result<
    Seq<Seq<Kind>>,
    Seq<char>,
> {
    match parsed {
        Ok(v) => Ok(chains(v@)),
        Err(e) => Err(e@),
    }
}

/// Whether what the parser gave is a single statement that only reads.
pub fn check_readonly(parsed: &Result<Vec<Vec<Kind>>, String>) -> (r: Result<(), String>)
    ensures
        match readonly_error(outcome(*parsed)) {
            Some(e) => r is Err && r->Err_0@ == e,
            None => r is Ok,
        },
{
    match parsed {
        Err(e) => {
            let mut m = String::from_str("could not parse SQL: ");
            m.append(e.as_str());
            Err(m)
        },
        Ok(v) => {
            if v.len() != 1 {
                return Err(String::from_str("exactly one SQL statement is allowed"));
            }
            assert(chains(v@)[0] == v@[0]@);
            if is_read_only(&v[0]) {
                Ok(())
            } else {
                Err(
                    String::from_str(
                        "only a single SELECT/WITH query (optionally via EXPLAIN) is allowed",
                    ),
                )
            }
        },
    }
}

/// Refuses anything but a single query, or the explanation of one.
pub fn reject_non_readonly(sql: &str) -> (r: Result<(), String>)
    ensures
        match readonly_error(read_kinds(sql@)) {
            Some(e) => r is Err && r->Err_0@ == e,
            None => r is Ok,
        },
{
    let parsed = kinds_of(sql);
    check_readonly(&parsed)
}

/// What is met on the way through a query, in order.
pub enum Step {
    /// A query begins, which defines these names. The queries that define them come
    /// first in it, one for each.
    Enter { names: Vec<String> },
    /// The query ends that began last.
    Leave,
    /// A table is read: the parts of its name and the name as they are written, and the
    /// name that the query gives to it.
    Table { parts: Vec<String>, shown: String, alias: Option<String> },
    /// A `TABLE` stands in the place of a `SELECT`: the parts of the name behind it.
    Body { parts: Vec<String> },
    /// Something else stands there, whose own parts are met one by one.
    Part,
    /// Something else is read.
    Other,
}

/// The texts of a step.
#[verifier::ext_equal]
pub enum StepView {
    Enter { names: Seq<Seq<char>> },
    Leave,
    Table { parts: Seq<Seq<char>>, shown: Seq<char>, alias: Option<Seq<char>> },
    Body { parts: Seq<Seq<char>> },
    Part,
    Other,
}

impl View for Step {
    type V = StepView;

    open spec fn view(&self) -> StepView {
        match *self {
            Step::Enter { names } => StepView::Enter { names: text::texts(names@) },
            Step::Leave => StepView::Leave,
            Step::Table { parts, shown, alias } => StepView::Table {
                parts: text::texts(parts@),
                shown: shown@,
                alias: text::opt_text(alias),
            },
            Step::Body { parts } => StepView::Body { parts: text::texts(parts@) },
            Step::Part => StepView::Part,
            Step::Other => StepView::Other,
        }
    }
}

/// The texts of each step of a list.
pub open spec fn step_views(v: Seq<Step>) -> Seq<StepView> {
    v.map_values(|s: Step| s@)
}

/// A query of the parser.
#[verifier::external_type_specification]
#[verifier::external_body]
pub struct ExQuery(sqlparser::ast::Query);

/// What a query reads from, in the parser's terms.
#[verifier::external_type_specification]
#[verifier::external_body]
pub struct ExTableFactor(sqlparser::ast::TableFactor);

/// Takes note of what is met on the way through a statement.
struct Walk {
    steps: Vec<Step>,
}

impl VisitorMut for Walk {
    type Break = ();

    /// `VisitorMut::pre_visit_query`: the names are those of `Query::with`.
    #[verifier::external_body]
    fn pre_visit_query(&mut self, q: &mut Query) -> ControlFlow<()> {
        let names = q.with.iter().flat_map(|w| &w.cte_tables);
        self.steps.push(Step::Enter { names: names.map(|c| c.alias.name.value.clone()).collect() });
        ControlFlow::Continue(())
    }

    /// `VisitorMut::post_visit_query`: what the body of the query is made of, from left to
    /// right, and then the end of the query.
    #[verifier::external_body]
    fn post_visit_query(&mut self, q: &mut Query) -> ControlFlow<()> {
        let mut bodies: Vec<&SetExpr> = vec![&q.body];
        while let Some(b) = bodies.pop() {
            match b {
                SetExpr::SetOperation { left, right, .. } => bodies.extend([&**right, &**left]),
                SetExpr::Table(t) => self.steps.push(Step::Body {
                    parts: t.schema_name.iter().chain(&t.table_name).cloned().collect(),
                }),
                _ => self.steps.push(Step::Part),
            }
        }
        self.steps.push(Step::Leave);
        ControlFlow::Continue(())
    }

    /// `VisitorMut::pre_visit_table_factor`: subqueries and joins are met by their
    /// parts.
    #[verifier::external_body]
    fn pre_visit_table_factor(&mut self, f: &mut TableFactor) -> ControlFlow<()> {
        match f {
            TableFactor::Table { .. } => {},
            TableFactor::Derived { .. } => {},
            TableFactor::NestedJoin { .. } => {},
            _ => self.steps.push(Step::Other),
        }
        ControlFlow::Continue(())
    }

    /// `VisitorMut::post_visit_table_factor`.
    #[verifier::external_body]
    fn post_visit_table_factor(&mut self, f: &mut TableFactor) -> ControlFlow<()> {
        if let TableFactor::Table { name, alias, .. } = f {
            self.steps.push(Step::Table {
                parts: name.0.iter().map(|p| p.to_string()).collect(),
                shown: name.to_string(),
                alias: alias.as_ref().map(|a| a.name.value.clone()),
            });
        }
        ControlFlow::Continue(())
    }
}

/// What is met on the way through the statements of a text.
pub uninterp spec fn statement_steps(sql: Seq<char>) -> Seq<StepView>;

/// `Parser::parse_sql` with the generic dialect and `VisitMut::visit`: what is met on
/// the way through the statements, nothing where the text cannot be parsed. The
/// result depends on the text alone. A text whose tree is too deep for the stack aborts
/// the process.
#[verifier::external_body]
fn parse_steps(sql: &str) -> (r: Vec<Step>)
    requires
        parsable::parser_takes(Flavour::Generic, token::lexed(Flavour::Generic, sql@)),
        statement_kinds(sql@) is Ok,
    ensures
        step_views(r@) == statement_steps(sql@),
{
    let mut walk = Walk { steps: Vec::new() };
    let mut parsed = Parser::parse_sql(&GenericDialect {}, sql).unwrap_or_default();
    let _ = parsed.visit(&mut walk);
    walk.steps
}

/// A query that has begun and not ended.
#[verifier::ext_equal]
pub struct Open {
    /// The names that it defines and that are not in force yet.
    pub pending: Seq<Seq<char>>,
    /// How many names were in force when it began.
    pub mark: int,
    /// It defines the next pending name of the query around it.
    pub defines: bool,
}

/// The queries that have begun and not ended, and the names in force.
#[verifier::ext_equal]
pub struct Place {
    pub open: Seq<Open>,
    pub names: Seq<Seq<char>>,
}

/// Outside any query.
pub open spec fn outside() -> Place {
    Place { open: Seq::empty(), names: Seq::empty() }
}

/// Names in lower case, in which they are told apart.
pub open spec fn lowered(names: Seq<Seq<char>>) -> Seq<Seq<char>> {
    names.map_values(|n: Seq<char>| text::lower(n))
}

/// A text without the quotes that it ends in.
pub open spec fn unquoted_end(s: Seq<char>) -> Seq<char>
    decreases s.len(),
{
    if s.len() > 0 && s.last() == '"' {
        unquoted_end(s.drop_last())
    } else {
        s
    }
}

/// A text without the quotes that it begins with.
pub open spec fn unquoted_start(s: Seq<char>) -> Seq<char>
    decreases s.len(),
{
    if s.len() > 0 && s[0] == '"' {
        unquoted_start(s.drop_first())
    } else {
        s
    }
}

/// What a part of a name is compared by: the part without quotes, in lower case.
pub open spec fn plain(part: Seq<char>) -> Seq<char> {
    text::lower(unquoted_start(unquoted_end(part)))
}

fn plain_part(part: &str) -> (r: String)
    ensures
        r@ == plain(part@),
{
    let v = text::chars_of(part);
    let mut end: usize = v.len();
    assert(v@.take(end as int) =~= v@);
    while end > 0 && v[end - 1] == '"'
        invariant
            end <= v.len(),
            unquoted_end(v@.take(end as int)) == unquoted_end(v@),
        decreases end,
    {
        assert(v@.take(end as int).drop_last() =~= v@.take(end - 1));
        end -= 1;
    }
    assert(end > 0 ==> v@.take(end as int).last() == v@[end - 1]);
    let mut start: usize = 0;
    assert(v@.subrange(0, end as int) =~= v@.take(end as int));
    while start < end && v[start] == '"'
        invariant
            start <= end <= v.len(),
            unquoted_start(v@.subrange(start as int, end as int)) == unquoted_start(
                unquoted_end(v@),
            ),
        decreases end - start,
    {
        assert(v@.subrange(start as int, end as int).drop_first() =~= v@.subrange(
            start + 1,
            end as int,
        ));
        start += 1;
    }
    let mut kept: Vec<char> = Vec::new();
    let mut i: usize = start;
    while i < end
        invariant
            start <= i <= end <= v.len(),
            kept@ == v@.subrange(start as int, i as int),
        decreases end - i,
    {
        kept.push(v[i]);
        i += 1;
        assert(kept@ =~= v@.subrange(start as int, i as int));
    }
    to_lower(text::text_of(&kept).as_str())
}

/// The place behind a step. A name that a query defines is in force from the end of
/// the query that defines it to the end of the query that it belongs to.
pub open spec fn behind(p: Place, s: StepView) -> Place {
    match s {
        StepView::Enter { names } => Place {
            open: p.open.push(
                Open {
                    pending: lowered(names),
                    mark: p.names.len() as int,
                    defines: p.open.len() > 0 && p.open.last().pending.len() > 0,
                },
            ),
            names: p.names,
        },
        StepView::Leave => if p.open.len() == 0 {
            p
        } else {
            let o = p.open.last();
            let rest = p.open.drop_last();
            let names = p.names.take(
                if o.mark <= p.names.len() {
                    o.mark
                } else {
                    p.names.len() as int
                },
            );
            if o.defines && rest.len() > 0 && rest.last().pending.len() > 0 {
                let around = rest.last();
                Place {
                    open: rest.drop_last().push(
                        Open { pending: around.pending.drop_first(), ..around },
                    ),
                    names: names.push(around.pending[0]),
                }
            } else {
                Place { open: rest, names }
            }
        },
        _ => p,
    }
}

/// The place behind the first `n` steps.
pub open spec fn place_at(steps: Seq<StepView>, n: int) -> Place
    decreases n,
{
    if n <= 0 {
        outside()
    } else {
        behind(place_at(steps, n - 1), steps[n - 1])
    }
}

/// The table is a name that the query defines.
pub open spec fn defined_here(p: Place, parts: Seq<Seq<char>>) -> bool {
    parts.len() == 1 && p.names.contains(plain(parts[0]))
}

/// The table is the events table, however its name is qualified.
pub open spec fn is_events(parts: Seq<Seq<char>>) -> bool {
    parts.len() > 0 && plain(parts.last()) == "events"@
}

/// What is reported of a table that a limited query may not read.
pub open spec fn unreadable(shown: Seq<char>) -> Seq<char> {
    "table `"@ + shown + "` is not readable under a source-scoped credential; only `events` is"@
}

/// What is reported of a step that a limited query may not take.
pub open spec fn step_error(p: Place, s: StepView) -> Option<Seq<char>> {
    match s {
        StepView::Table { parts, shown, alias } => if defined_here(p, parts) || is_events(parts) {
            None
        } else {
            Some(unreadable(shown))
        },
        StepView::Body { parts } => if defined_here(p, parts) || is_events(parts) {
            None
        } else {
            Some(unreadable(text::joined(parts, "."@)))
        },
        StepView::Other => Some(
            "this FROM construct is not available to a source-scoped credential"@,
        ),
        _ => None,
    }
}

/// The rows of the allowed sources. Where there are none, no row.
pub open spec fn allowed_rows(allowed: Seq<Seq<char>>) -> Seq<char> {
    if allowed.len() == 0 {
        "SELECT * FROM events WHERE 1 = 0"@
    } else {
        "SELECT * FROM events WHERE source IN ("@ + text::joined(pass::sql_texts(allowed), ", "@)
            + ")"@
    }
}

/// The subquery that stands in the place of a table: the rows of the allowed sources,
/// under the name that the table had.
pub open spec fn template(allowed: Seq<Seq<char>>, alias: Option<Seq<char>>) -> Seq<char> {
    "("@ + allowed_rows(allowed) + ") AS \""@ + text::replaced(
        match alias {
            Some(a) => a,
            None => "events"@,
        },
        '"',
        "\"\""@,
    ) + "\""@
}

/// The query that stands in the place of a `TABLE`: the rows of the allowed sources.
pub open spec fn body_template(allowed: Seq<Seq<char>>) -> Seq<char> {
    "SELECT * FROM "@ + template(allowed, None)
}

/// What stands in the place of a `TABLE`, where its name is not one that the query defines.
pub open spec fn body_replacement(
    p: Place,
    allowed: Seq<Seq<char>>,
    parts: Seq<Seq<char>>,
) -> Option<Seq<char>> {
    if defined_here(p, parts) {
        None
    } else {
        Some(body_template(allowed))
    }
}

/// What stands in the place of a table, where it is not one that the query defines.
pub open spec fn replacement(
    p: Place,
    allowed: Seq<Seq<char>>,
    parts: Seq<Seq<char>>,
    alias: Option<Seq<char>>,
) -> Option<Seq<char>> {
    if defined_here(p, parts) {
        None
    } else {
        Some(template(allowed, alias))
    }
}

/// What stands in the place of each table that is read, in the order in which they
/// are met; or what is reported of the first step that may not be taken.
pub open spec fn replacements(steps: Seq<StepView>, allowed: Seq<Seq<char>>, n: int) -> Result<
    Seq<Option<Seq<char>>>,
    Seq<char>,
>
    decreases n,
{
    if n <= 0 {
        Ok(Seq::empty())
    } else {
        match replacements(steps, allowed, n - 1) {
            Err(e) => Err(e),
            Ok(v) => match step_error(place_at(steps, n - 1), steps[n - 1]) {
                Some(e) => Err(e),
                None => match steps[n - 1] {
                    StepView::Table { parts, shown, alias } => Ok(
                        v.push(replacement(place_at(steps, n - 1), allowed, parts, alias)),
                    ),
                    StepView::Body { parts } => Ok(
                        v.push(body_replacement(place_at(steps, n - 1), allowed, parts)),
                    ),
                    _ => Ok(v),
                },
            },
        }
    }
}

/// The query that has begun and not ended, with its texts.
struct OpenQuery {
    pending: Vec<String>,
    bound: usize,
    mark: usize,
    defines: bool,
}

impl OpenQuery {
    spec fn wf(&self) -> bool {
        self.bound <= self.pending@.len()
    }

    spec fn open(&self) -> Open {
        Open {
            pending: text::texts(self.pending@).skip(self.bound as int),
            mark: self.mark as int,
            defines: self.defines,
        }
    }
}

/// Where a walk through a query stands.
struct Scope {
    open: Vec<OpenQuery>,
    names: Vec<String>,
}

impl Scope {
    spec fn wf(&self) -> bool {
        forall|i: int| 0 <= i < self.open@.len() ==> (#[trigger] self.open@[i]).wf()
    }

    spec fn place(&self) -> Place {
        Place {
            open: self.open@.map_values(|o: OpenQuery| o.open()),
            names: text::texts(self.names@),
        }
    }

    fn enter(&mut self, names: &Vec<String>)
        requires
            old(self).wf(),
        ensures
            final(self).wf(),
            final(self).place() == behind(
                old(self).place(),
                (StepView::Enter { names: text::texts(names@) }),
            ),
    {
        let n = self.open.len();
        let defines = n > 0 && self.open[n - 1].bound < self.open[n - 1].pending.len();
        let mut pending: Vec<String> = Vec::new();
        let mut i: usize = 0;
        while i < names.len()
            invariant
                i <= names.len(),
                text::texts(pending@) == lowered(text::texts(names@)).take(i as int),
            decreases names.len() - i,
        {
            let ghost was = text::texts(pending@);
            pending.push(to_lower(names[i].as_str()));
            i += 1;
            assert(text::texts(pending@) =~= was.push(text::lower(names@[i - 1]@)));
            assert(lowered(text::texts(names@)).take(i as int) =~= was.push(
                text::lower(names@[i - 1]@),
            ));
        }
        let o = OpenQuery { pending, bound: 0, mark: self.names.len(), defines };
        self.open.push(o);
        proof {
            assert(o.open().pending =~= lowered(text::texts(names@)));
            if n > 0 {
                assert(old(self).open@[n - 1].wf());
                assert(old(self).place().open.last() == old(self).open@[n - 1].open());
            }
            assert(self.place() =~= behind(
                old(self).place(),
                (StepView::Enter { names: text::texts(names@) }),
            ));
        }
    }

    fn leave(&mut self)
        requires
            old(self).wf(),
        ensures
            final(self).wf(),
            final(self).place() == behind(old(self).place(), StepView::Leave),
    {
        let ghost before = self.place();
        let ghost list = self.open@;
        let o = match self.open.pop() {
            Some(o) => o,
            None => {
                return;
            },
        };
        proof {
            assert(before.open.last() == o.open());
            assert(before.open.drop_last() =~= self.open@.map_values(|q: OpenQuery| q.open()));
        }
        let ghost names = text::texts(self.names@);
        if o.mark < self.names.len() {
            self.names.truncate(o.mark);
        }
        let ghost cut = text::texts(self.names@);
        assert(cut =~= names.take(
            if o.mark <= names.len() {
                o.mark as int
            } else {
                names.len() as int
            },
        ));
        let n = self.open.len();
        if o.defines && n > 0 {
            let around = match self.open.pop() {
                Some(q) => q,
                None => {
                    return;
                },
            };
            assert(list[n - 1] == around);
            assert(around.wf());
            if around.bound < around.pending.len() {
                self.names.push(around.pending[around.bound].clone());
                let ghost was = around.open();
                let next = OpenQuery {
                    bound: around.bound + 1,
                    pending: around.pending,
                    mark: around.mark,
                    defines: around.defines,
                };
                proof {
                    assert(next.open().pending =~= was.pending.drop_first());
                    assert(was.pending[0] == around.pending@[around.bound as int]@);
                }
                self.open.push(next);
                proof {
                    let rest = before.open.drop_last();
                    assert(rest.last() == was);
                    assert(self.place().open =~= rest.drop_last().push(next.open()));
                    assert(self.place().names =~= cut.push(was.pending[0]));
                    assert(self.place() =~= behind(before, StepView::Leave));
                }
                return;
            }
            self.open.push(around);
            assert(before.open.drop_last().last() == around.open());
            assert(around.open().pending.len() == 0);
        }
        assert(self.place().open =~= before.open.drop_last());
        assert(self.place() =~= behind(before, StepView::Leave));
    }
}

/// The texts of what stands in the place of tables.
pub open spec fn plan_view(v: Seq<Option<String>>) -> Seq<Option<Seq<char>>> {
    v.map_values(|o: Option<String>| text::opt_text(o))
}

fn template_for(allowed: &[String], alias: &Option<String>) -> (r: String)
    ensures
        r@ == template(text::texts(allowed@), text::opt_text(*alias)),
{
    let mut rows = String::new();
    if allowed.len() == 0 {
        rows.append("SELECT * FROM events WHERE 1 = 0");
        assert(rows@ =~= "SELECT * FROM events WHERE 1 = 0"@);
    } else {
        rows.append("SELECT * FROM events WHERE source IN (");
        rows.append(join(&sql_list(allowed), ", ").as_str());
        rows.append(")");
        assert(rows@ =~= "SELECT * FROM events WHERE source IN ("@ + text::joined(
            pass::sql_texts(text::texts(allowed@)),
            ", "@,
        ) + ")"@);
    }
    let name: &str = match alias {
        Some(a) => a.as_str(),
        None => "events",
    };
    let mut m = String::from_str("(");
    m.append(rows.as_str());
    m.append(") AS \"");
    m.append(replace_char(name, '"', "\"\"").as_str());
    m.append("\"");
    m
}

/// What a table is to a limited query.
#[derive(Clone, Copy, PartialEq, Eq, Structural)]
enum Standing {
    Defined,
    Events,
    Unknown,
}

fn standing(scope: &Scope, parts: &Vec<String>) -> (r: Standing)
    ensures
        r == if defined_here(scope.place(), text::texts(parts@)) {
            Standing::Defined
        } else if is_events(text::texts(parts@)) {
            Standing::Events
        } else {
            Standing::Unknown
        },
{
    let n = parts.len();
    if n == 0 {
        return Standing::Unknown;
    }
    let last = plain_part(parts[n - 1].as_str());
    proof {
        assert(text::texts(parts@).last() == parts@[n - 1]@);
        assert(n == 1 ==> text::texts(parts@)[0] == parts@[0]@);
        listed_contains(scope.names@, last@);
    }
    if n == 1 && is_listed(&scope.names, last.as_str()) {
        Standing::Defined
    } else if same(last.as_str(), EVENTS_TABLE) {
        Standing::Events
    } else {
        Standing::Unknown
    }
}

fn refusal(shown: &str) -> (r: String)
    ensures
        r@ == unreadable(shown@),
{
    let mut m = String::from_str("table `");
    m.append(shown);
    m.append("` is not readable under a source-scoped credential; only `events` is");
    m
}

/// What stands in the place of each table that is read, in the order in which they
/// are met; or what is reported of the first step that a limited query may not take.
pub fn plan(steps: &Vec<Step>, allowed: &[String]) -> (r: Result<Vec<Option<String>>, String>)
    ensures
        match replacements(step_views(steps@), text::texts(allowed@), steps@.len() as int) {
            Ok(v) => r is Ok && plan_view(r->Ok_0@) == v,
            Err(e) => r is Err && r->Err_0@ == e,
        },
{
    let ghost views = step_views(steps@);
    let ghost sources = text::texts(allowed@);
    let mut scope = Scope { open: Vec::new(), names: Vec::new() };
    let mut out: Vec<Option<String>> = Vec::new();
    let mut i: usize = 0;
    assert(scope.place() =~= outside());
    assert(plan_view(out@) =~= Seq::<Option<Seq<char>>>::empty());
    while i < steps.len()
        invariant
            i <= steps.len(),
            views == step_views(steps@),
            sources == text::texts(allowed@),
            scope.wf(),
            scope.place() == place_at(views, i as int),
            replacements(views, sources, i as int) == Ok::<Seq<Option<Seq<char>>>, Seq<char>>(
                plan_view(out@),
            ),
        decreases steps.len() - i,
    {
        assert(views[i as int] == steps@[i as int]@);
        let ghost was = plan_view(out@);
        match &steps[i] {
            Step::Enter { names } => {
                scope.enter(names);
            },
            Step::Leave => {
                scope.leave();
            },
            Step::Table { parts, shown, alias } => {
                let r: Option<String> = match standing(&scope, parts) {
                    Standing::Defined => None,
                    Standing::Events => Some(template_for(allowed, alias)),
                    Standing::Unknown => {
                        proof {
                            failed_stays_failed(views, sources, i + 1, steps@.len() as int);
                        }
                        return Err(refusal(shown.as_str()));
                    },
                };
                out.push(r);
                assert(plan_view(out@) =~= was.push(text::opt_text(r)));
            },
            Step::Body { parts } => {
                let r: Option<String> = match standing(&scope, parts) {
                    Standing::Defined => None,
                    Standing::Events => {
                        let mut m = String::from_str("SELECT * FROM ");
                        m.append(template_for(allowed, &None).as_str());
                        Some(m)
                    },
                    Standing::Unknown => {
                        proof {
                            failed_stays_failed(views, sources, i + 1, steps@.len() as int);
                        }
                        return Err(refusal(join(parts, ".").as_str()));
                    },
                };
                out.push(r);
                assert(plan_view(out@) =~= was.push(text::opt_text(r)));
            },
            Step::Part => {},
            Step::Other => {
                proof {
                    failed_stays_failed(views, sources, i + 1, steps@.len() as int);
                }
                return Err(
                    String::from_str(
                        "this FROM construct is not available to a source-scoped credential",
                    ),
                );
            },
        }
        i += 1;
    }
    Ok(out)
}

proof fn listed_contains(v: Seq<String>, s: Seq<char>)
    ensures
        text::listed(v, s) == text::texts(v).contains(s),
{
    if text::listed(v, s) {
        let i = choose|i: int| 0 <= i < v.len() && (#[trigger] v[i])@ == s;
        assert(text::texts(v)[i] == s);
    }
    if text::texts(v).contains(s) {
        let i = text::texts(v).index_of(s);
        assert(v[i]@ == s);
    }
}

proof fn failed_stays_failed(steps: Seq<StepView>, allowed: Seq<Seq<char>>, n: int, m: int)
    requires
        n <= m,
        replacements(steps, allowed, n) is Err,
    ensures
        replacements(steps, allowed, m) == replacements(steps, allowed, n),
    decreases m - n,
{
    if n < m {
        failed_stays_failed(steps, allowed, n, m - 1);
    }
}

/// The number of tables that are read in the first `n` steps.
pub open spec fn tables_before(steps: Seq<StepView>, n: int) -> int
    decreases n,
{
    if n <= 0 {
        0
    } else {
        tables_before(steps, n - 1) + if steps[n - 1] is Table || steps[n - 1] is Body {
            1int
        } else {
            0
        }
    }
}

/// Where a limited query is not refused, every table that is met in it is a name that it
/// defines itself or is replaced by the rows of the allowed sources, one behind a `TABLE` in
/// the place of a `SELECT` too, and nothing else is met.
pub proof fn every_table_is_limited(
    steps: Seq<StepView>,
    allowed: Seq<Seq<char>>,
    n: int,
    i: int,
)
    requires
        0 <= i < n <= steps.len(),
        replacements(steps, allowed, n) is Ok,
    ensures
        !(steps[i] is Other),
        steps[i] matches StepView::Body { parts } ==> {
            let k = tables_before(steps, i);
            let plan = replacements(steps, allowed, n)->Ok_0;
            &&& 0 <= k < plan.len()
            &&& defined_here(place_at(steps, i), parts) ==> plan[k] is None
            &&& !defined_here(place_at(steps, i), parts) ==> is_events(parts) && plan[k] == Some(
                body_template(allowed),
            )
        },
        steps[i] matches StepView::Table { parts, shown, alias } ==> {
            let k = tables_before(steps, i);
            let plan = replacements(steps, allowed, n)->Ok_0;
            &&& 0 <= k < plan.len()
            &&& defined_here(place_at(steps, i), parts) ==> plan[k] is None
            &&& !defined_here(place_at(steps, i), parts) ==> is_events(parts) && plan[k] == Some(
                template(allowed, alias),
            )
        },
    decreases n,
{
    plan_counts_tables(steps, allowed, n);
    plan_counts_tables(steps, allowed, n - 1);
    if i < n - 1 {
        every_table_is_limited(steps, allowed, n - 1, i);
    }
}

proof fn plan_counts_tables(steps: Seq<StepView>, allowed: Seq<Seq<char>>, n: int)
    requires
        0 <= n <= steps.len(),
        replacements(steps, allowed, n) is Ok,
    ensures
        replacements(steps, allowed, n)->Ok_0.len() == tables_before(steps, n),
        n > 0 ==> replacements(steps, allowed, n - 1) is Ok,
    decreases n,
{
    if n > 0 {
        plan_counts_tables(steps, allowed, n - 1);
    }
}

/// A text with its tables replaced, or why it could not be done.
pub uninterp spec fn rewritten(sql: Seq<char>, plan: Seq<Option<Seq<char>>>) -> Result<
    Seq<char>,
    Seq<char>,
>;

/// Puts what a plan says in the place of the tables of a statement.
struct Rewriter {
    plan: std::vec::IntoIter<Option<String>>,
}

impl VisitorMut for Rewriter {
    type Break = String;

    /// `VisitorMut::post_visit_query` and `Parser::parse_query`: each `SetExpr::Table` of
    /// the body of the query is met in the order of the plan.
    #[verifier::external_body]
    fn post_visit_query(&mut self, q: &mut Query) -> ControlFlow<String> {
        let mut bodies: Vec<&mut SetExpr> = vec![&mut q.body];
        while let Some(b) = bodies.pop() {
            match b {
                SetExpr::SetOperation { left, right, .. } => bodies.extend([&mut **right, &mut **left]),
                SetExpr::Table(_) => if let Some(Some(text)) = self.plan.next() {
                    let parser = Parser::new(&GenericDialect {}).try_with_sql(&text);
                    match parser.and_then(|mut p| p.parse_query()) {
                        Ok(inner) => *b = *inner.body,
                        Err(e) => return ControlFlow::Break(e.to_string()),
                    }
                },
                _ => {},
            }
        }
        ControlFlow::Continue(())
    }

    /// `VisitorMut::post_visit_table_factor` and `Parser::parse_table_factor`: the
    /// tables are met in the order of the plan.
    #[verifier::external_body]
    fn post_visit_table_factor(&mut self, f: &mut TableFactor) -> ControlFlow<String> {
        if let TableFactor::Table { .. } = f {
            if let Some(Some(template)) = self.plan.next() {
                let parser = Parser::new(&GenericDialect {}).try_with_sql(&template);
                match parser.and_then(|mut p| p.parse_table_factor()) {
                    Ok(source) => *f = source,
                    Err(e) => return ControlFlow::Break(e.to_string()),
                }
            }
        }
        ControlFlow::Continue(())
    }
}

/// `Parser::parse_sql` with the generic dialect, `VisitMut::visit` and the display of
/// the statements: each table that the plan replaces has given way to the subquery of
/// the plan; or the parser's message about such a subquery. The result depends on the
/// text and the plan alone. A text whose tree is too deep for the stack aborts the
/// process.
#[verifier::external_body]
fn rewrite(sql: &str, plan: Vec<Option<String>>) -> (r: Result<String, String>)
    requires
        parsable::parser_takes(Flavour::Generic, token::lexed(Flavour::Generic, sql@)),
        statement_kinds(sql@) is Ok,
        plan@.len() == tables_before(statement_steps(sql@), statement_steps(sql@).len() as int),
    ensures
        match r {
            Ok(t) => rewritten(sql@, plan_view(plan@)) == Ok::<Seq<char>, Seq<char>>(t@),
            Err(e) => rewritten(sql@, plan_view(plan@)) == Err::<Seq<char>, Seq<char>>(e@),
        },
{
    let mut parsed = Parser::parse_sql(&GenericDialect {}, sql).map_err(|e| e.to_string())?;
    match parsed.visit(&mut Rewriter { plan: plan.into_iter() }) {
        ControlFlow::Break(e) => Err(e),
        ControlFlow::Continue(()) => Ok(parsed.iter().map(|s| s.to_string()).collect()),
    }
}

/// What is reported of a text that cannot be limited, if anything, before its tables
/// are looked at: it must be a single query, or the explanation of one.
pub open spec fn limit_error(parsed: Result<Seq<Seq<Kind>>, Seq<char>>) -> Option<Seq<char>> {
    match parsed {
        Err(e) => Some("could not parse SQL: "@ + e),
        Ok(v) => if v.len() != 1 {
            Some("exactly one SQL statement is allowed"@)
        } else if (v[0].len() > 0 && v[0][0] == Kind::Query) || (v[0].len() > 1 && v[0][0]
            == Kind::Explain && v[0][1] == Kind::Query) {
            None
        } else {
            Some("only a single SELECT/WITH query is allowed"@)
        },
    }
}

/// Whether what the parser gave is a single query, or the explanation of one.
pub fn check_limitable(parsed: &Result<Vec<Vec<Kind>>, String>) -> (r: Result<(), String>)
    ensures
        match limit_error(outcome(*parsed)) {
            Some(e) => r is Err && r->Err_0@ == e,
            None => r is Ok,
        },
{
    match parsed {
        Err(e) => {
            let mut m = String::from_str("could not parse SQL: ");
            m.append(e.as_str());
            Err(m)
        },
        Ok(v) => {
            if v.len() != 1 {
                return Err(String::from_str("exactly one SQL statement is allowed"));
            }
            assert(chains(v@)[0] == v@[0]@);
            let c = &v[0];
            let query = c.len() > 0 && c[0] == Kind::Query;
            let explained = c.len() > 1 && c[0] == Kind::Explain && c[1] == Kind::Query;
            if query || explained {
                Ok(())
            } else {
                Err(String::from_str("only a single SELECT/WITH query is allowed"))
            }
        },
    }
}

/// What a text becomes under a credential that is limited to some sources.
pub open spec fn limited(
    parsed: Result<Seq<Seq<Kind>>, Seq<char>>,
    steps: Seq<StepView>,
    sql: Seq<char>,
    allowed: Seq<Seq<char>>,
) -> Result<Seq<char>, Seq<char>> {
    match limit_error(parsed) {
        Some(e) => Err(e),
        None => match replacements(steps, allowed, steps.len() as int) {
            Err(e) => Err(e),
            Ok(plan) => match rewritten(sql, plan) {
                Ok(t) => Ok(t),
                Err(e) => Err("internal: scoped-subquery template failed to parse: "@ + e),
            },
        },
    }
}

/// The text under a credential that is limited to some sources: each of its
/// references to the events table reads the rows of these sources alone. A reference
/// to another table is refused.
pub fn constrain_sources(sql: &str, allowed: &[String]) -> (r: Result<String, String>)
    ensures
        match limited(read_kinds(sql@), statement_steps(sql@), sql@, text::texts(allowed@)) {
            Ok(t) => r is Ok && r->Ok_0@ == t,
            Err(e) => r is Err && r->Err_0@ == e,
        },
{
    let parsed = kinds_of(sql);
    match check_limitable(&parsed) {
        Ok(()) => {},
        Err(e) => {
            return Err(e);
        },
    }
    let steps = parse_steps(sql);
    assert(step_views(steps@).len() == steps@.len());
    match plan(&steps, allowed) {
        Ok(p) => {
            proof {
                plan_counts_tables(
                    statement_steps(sql@),
                    text::texts(allowed@),
                    statement_steps(sql@).len() as int,
                );
            }
            match rewrite(sql, p) {
                Ok(t) => Ok(t),
                Err(e) => {
                    let mut m = String::from_str(
                        "internal: scoped-subquery template failed to parse: ",
                    );
                    m.append(e.as_str());
                    Err(m)
                },
            }
        },
        Err(e) => Err(e),
    }
}

/// The subquery that stands for a table reads the rows of the allowed sources and no others:
/// the list that it compares the source with reads as those sources, one literal for each,
/// whatever characters they hold. Without any it reads no row.
pub proof fn the_subquery_admits_exactly_the_allowed(allowed: Seq<Seq<char>>)
    ensures
        allowed.len() == 0 ==> allowed_rows(allowed) == "SELECT * FROM events WHERE 1 = 0"@,
        allowed.len() > 0 ==> exists|list: Seq<char>|
            {
                &&& allowed_rows(allowed) == #[trigger] ("SELECT * FROM events WHERE source IN ("@
                    + list + ")"@)
                &&& pass::literals(list) == Some(allowed)
            },
{
    if allowed.len() > 0 {
        let list = text::joined(pass::sql_texts(allowed), ", "@);
        pass::a_list_reads_back(allowed);
        assert(allowed_rows(allowed) == "SELECT * FROM events WHERE source IN ("@ + list + ")"@);
    }
}

/// Other sources give another subquery.
pub proof fn other_sources_give_another_subquery(a: Seq<Seq<char>>, b: Seq<Seq<char>>)
    ensures
        allowed_rows(a) == allowed_rows(b) <==> a == b,
{
    let head = "SELECT * FROM events WHERE source IN ("@;
    let none = "SELECT * FROM events WHERE 1 = 0"@;
    the_subquery_admits_exactly_the_allowed(a);
    the_subquery_admits_exactly_the_allowed(b);
    reveal_strlit("SELECT * FROM events WHERE source IN (");
    reveal_strlit("SELECT * FROM events WHERE 1 = 0");
    reveal_strlit(")");
    assert(head[27] != none[27]);
    if a.len() == 0 && b.len() == 0 {
        assert(a =~= b);
    } else if a.len() > 0 && b.len() > 0 && allowed_rows(a) == allowed_rows(b) {
        let x = choose|list: Seq<char>|
            allowed_rows(a) == #[trigger] (head + list + ")"@) && pass::literals(list) == Some(a);
        let y = choose|list: Seq<char>|
            allowed_rows(b) == #[trigger] (head + list + ")"@) && pass::literals(list) == Some(b);
        let s = allowed_rows(a);
        assert(s.subrange(head.len() as int, s.len() - 1) =~= x);
        assert(s.subrange(head.len() as int, s.len() - 1) =~= y);
    } else if a.len() > 0 && b.len() == 0 {
        assert(allowed_rows(a)[27] == head[27]);
    } else if b.len() > 0 && a.len() == 0 {
        assert(allowed_rows(b)[27] == head[27]);
    }
}

/// The subquery stands in brackets under the name that the table had in the query, or under
/// that of the events table: what is quoted behind it reads as that name, whatever characters
/// it holds.
pub proof fn the_subquery_keeps_the_name(allowed: Seq<Seq<char>>, alias: Option<Seq<char>>)
    ensures
        exists|name: Seq<char>|
            {
                &&& template(allowed, alias) == #[trigger] ("("@ + allowed_rows(allowed)
                    + ") AS \""@ + name)
                &&& pass::unquoted(name, '"') == Some(
                    (
                        if alias is Some {
                            alias->0
                        } else {
                            "events"@
                        },
                        Seq::<char>::empty(),
                    ),
                )
            },
        body_template(allowed) == "SELECT * FROM "@ + template(allowed, None),
{
    let shown = match alias {
        Some(a) => a,
        None => "events"@,
    };
    reveal_strlit("\"\"");
    reveal_strlit("\"");
    assert("\"\""@ =~= seq!['"', '"']);
    assert("\""@ =~= seq!['"']);
    pass::doubled_quotes_read_back(shown, '"', Seq::empty());
    let body = text::replaced(shown, '"', seq!['"', '"']);
    let name = body + seq!['"'];
    assert(body + seq!['"'] + Seq::<char>::empty() =~= name);
    assert(template(allowed, alias) =~= "("@ + allowed_rows(allowed) + ") AS \""@ + name);
}

/// Quotes around a part of a name and the case of its letters do not matter; anything else in
/// it does.
pub proof fn quotes_and_case_do_not_matter(part: Seq<char>)
    ensures
        plain(part.push('"')) == plain(part),
        plain(text::upper(part)) == plain(part),
        part.len() > 0 && part[0] != '"' && part.last() != '"' ==> plain(part) == text::lower(part)
            && plain(seq!['"'] + part + seq!['"']) == text::lower(part),
{
    assert(part.push('"').drop_last() =~= part);
    upper_keeps_quotes_end(part);
    let e = unquoted_end(part);
    upper_keeps_quotes_start(e);
    let u = unquoted_start(e);
    if u.len() > 0 {
        text::case_is_of_ascii_letters(u, 0);
    } else {
        assert(text::upper(u) =~= u);
    }
    if part.len() > 0 && part[0] != '"' && part.last() != '"' {
        let s = seq!['"'] + part + seq!['"'];
        assert(s.last() == '"');
        assert(s.drop_last() =~= seq!['"'] + part);
        assert((seq!['"'] + part).last() == part.last());
        assert(unquoted_end(seq!['"'] + part) == seq!['"'] + part);
        assert(unquoted_end(s) == unquoted_end(s.drop_last()));
        assert((seq!['"'] + part).drop_first() =~= part);
        assert(unquoted_start(seq!['"'] + part) == unquoted_start(part));
    }
}

proof fn upper_keeps_quotes_end(s: Seq<char>)
    ensures
        unquoted_end(text::upper(s)) == text::upper(unquoted_end(s)),
    decreases s.len(),
{
    if s.len() > 0 {
        assert(text::upper(s).last() == text::upper_char(s.last()));
        assert(text::upper(s).drop_last() =~= text::upper(s.drop_last()));
        assert(text::upper_char(s.last()) == '"' <==> s.last() == '"');
        upper_keeps_quotes_end(s.drop_last());
    }
}

proof fn upper_keeps_quotes_start(s: Seq<char>)
    ensures
        unquoted_start(text::upper(s)) == text::upper(unquoted_start(s)),
    decreases s.len(),
{
    if s.len() > 0 {
        assert(text::upper(s)[0] == text::upper_char(s[0]));
        assert(text::upper(s).drop_first() =~= text::upper(s.drop_first()));
        assert(text::upper_char(s[0]) == '"' <==> s[0] == '"');
        upper_keeps_quotes_start(s.drop_first());
    }
}

/// The names of a table that a limited query reads without being refused: a single one that
/// is in force, or any whose last part is that of the events table.
pub open spec fn readable(p: Place, parts: Seq<Seq<char>>) -> bool {
    ||| parts.len() == 1 && exists|i: int|
        0 <= i < p.names.len() && #[trigger] p.names[i] == plain(parts[0])
    ||| parts.len() >= 1 && plain(parts[parts.len() - 1]) == "events"@
}

/// A limited query is refused exactly where it reads a table that is not readable where it
/// stands, or something that is no table; otherwise each table in it is replaced by the rows
/// of the allowed sources, except for a single name that the query defines itself.
pub proof fn a_limited_query_reads_only_the_events(steps: Seq<StepView>, allowed: Seq<Seq<char>>)
    ensures
        replacements(steps, allowed, steps.len() as int) is Ok <==> forall|i: int|
            0 <= i < steps.len() ==> match #[trigger] steps[i] {
                StepView::Table { parts, shown, alias } => readable(place_at(steps, i), parts),
                StepView::Body { parts } => readable(place_at(steps, i), parts),
                StepView::Other => false,
                _ => true,
            },
        forall|i: int|
            0 <= i < steps.len() && replacements(steps, allowed, steps.len() as int) is Ok
                ==> match #[trigger] steps[i] {
                StepView::Table { parts, shown, alias } => replacements(
                    steps,
                    allowed,
                    steps.len() as int,
                )->Ok_0[tables_before(steps, i)] == if parts.len() == 1 && place_at(
                    steps,
                    i,
                ).names.contains(plain(parts[0])) {
                    None
                } else {
                    Some(template(allowed, alias))
                },
                StepView::Body { parts } => replacements(
                    steps,
                    allowed,
                    steps.len() as int,
                )->Ok_0[tables_before(steps, i)] == if parts.len() == 1 && place_at(
                    steps,
                    i,
                ).names.contains(plain(parts[0])) {
                    None
                } else {
                    Some("SELECT * FROM "@ + template(allowed, None))
                },
                _ => true,
            },
{
    refused_for_a_step(steps, allowed, steps.len() as int);
    if replacements(steps, allowed, steps.len() as int) is Ok {
        assert forall|i: int| 0 <= i < steps.len() implies match #[trigger] steps[i] {
            StepView::Table { parts, shown, alias } => replacements(
                steps,
                allowed,
                steps.len() as int,
            )->Ok_0[tables_before(steps, i)] == if parts.len() == 1 && place_at(
                steps,
                i,
            ).names.contains(plain(parts[0])) {
                None
            } else {
                Some(template(allowed, alias))
            },
            StepView::Body { parts } => replacements(
                steps,
                allowed,
                steps.len() as int,
            )->Ok_0[tables_before(steps, i)] == if parts.len() == 1 && place_at(
                steps,
                i,
            ).names.contains(plain(parts[0])) {
                None
            } else {
                Some("SELECT * FROM "@ + template(allowed, None))
            },
            _ => true,
        } by {
            every_table_is_limited(steps, allowed, steps.len() as int, i);
        }
    }
}

proof fn refused_for_a_step(steps: Seq<StepView>, allowed: Seq<Seq<char>>, n: int)
    requires
        0 <= n <= steps.len(),
    ensures
        replacements(steps, allowed, n) is Ok <==> forall|i: int|
            0 <= i < n ==> match #[trigger] steps[i] {
                StepView::Table { parts, shown, alias } => readable(place_at(steps, i), parts),
                StepView::Body { parts } => readable(place_at(steps, i), parts),
                StepView::Other => false,
                _ => true,
            },
    decreases n,
{
    if n > 0 {
        refused_for_a_step(steps, allowed, n - 1);
        let p = place_at(steps, n - 1);
        let s = steps[n - 1];
        assert(step_error(p, s) is None <==> match s {
            StepView::Table { parts, shown, alias } => readable(p, parts),
            StepView::Body { parts } => readable(p, parts),
            StepView::Other => false,
            _ => true,
        });
    }
}

/// A name is in force only where a query that has begun defines it, and outside every query
/// none is.
pub proof fn names_come_from_the_queries(steps: Seq<StepView>, n: int)
    requires
        0 <= n <= steps.len(),
    ensures
        forall|k: int|
            0 <= k < place_at(steps, n).names.len() ==> introduced(
                steps,
                n,
                #[trigger] place_at(steps, n).names[k],
            ),
        place_at(steps, n).open.len() == 0 ==> place_at(steps, n).names.len() == 0,
{
    names_and_marks(steps, n);
}

/// One of the first `n` steps begins a query that defines the name, in whatever case.
pub open spec fn introduced(steps: Seq<StepView>, n: int, name: Seq<char>) -> bool {
    exists|i: int|
        0 <= i < n && i < steps.len() && match #[trigger] steps[i] {
            StepView::Enter { names } => exists|j: int|
                0 <= j < names.len() && text::lower(#[trigger] names[j]) == name,
            _ => false,
        }
}

proof fn names_and_marks(steps: Seq<StepView>, n: int)
    requires
        0 <= n <= steps.len(),
    ensures
        ({
            let p = place_at(steps, n);
            &&& forall|k: int| 0 <= k < p.names.len() ==> introduced(steps, n, #[trigger] p.names[k])
            &&& forall|k: int, j: int|
                0 <= k < p.open.len() && 0 <= j < p.open[k].pending.len() ==> introduced(
                    steps,
                    n,
                    #[trigger] p.open[k].pending[j],
                )
            &&& forall|k: int| 0 <= k < p.open.len() ==> 0 <= (#[trigger] p.open[k]).mark
            &&& p.open.len() == 0 ==> p.names.len() == 0
            &&& p.open.len() > 0 ==> p.open[0].mark == 0 && !p.open[0].defines
        }),
    decreases n,
{
    if n > 0 {
        names_and_marks(steps, n - 1);
        let p = place_at(steps, n - 1);
        let q = place_at(steps, n);
        assert forall|name: Seq<char>| introduced(steps, n - 1, name) implies #[trigger] introduced(
            steps,
            n,
            name,
        ) by {
            let i = choose|i: int|
                0 <= i < n - 1 && i < steps.len() && match #[trigger] steps[i] {
                    StepView::Enter { names } => exists|j: int|
                        0 <= j < names.len() && text::lower(#[trigger] names[j]) == name,
                    _ => false,
                };
            assert(steps[i] is Enter);
        }
        match steps[n - 1] {
            StepView::Enter { names } => {
                assert forall|j: int| 0 <= j < names.len() implies introduced(
                    steps,
                    n,
                    #[trigger] lowered(names)[j],
                ) by {
                    assert(text::lower(names[j]) == lowered(names)[j]);
                    assert(steps[n - 1] is Enter);
                }
                assert forall|k: int, j: int|
                    0 <= k < q.open.len() && 0 <= j < q.open[k].pending.len() implies introduced(
                    steps,
                    n,
                    #[trigger] q.open[k].pending[j],
                ) by {
                    if k < p.open.len() {
                        assert(q.open[k] == p.open[k]);
                    } else {
                        assert(q.open[k].pending == lowered(names));
                        assert(introduced(steps, n, lowered(names)[j]));
                    }
                }
            },
            StepView::Leave => {
                if p.open.len() > 0 {
                    let o = p.open.last();
                    let rest = p.open.drop_last();
                    assert forall|k: int, j: int|
                        0 <= k < q.open.len() && 0 <= j < q.open[k].pending.len() implies introduced(
                        steps,
                        n,
                        #[trigger] q.open[k].pending[j],
                    ) by {
                        if q.open[k] == p.open[k] {
                            assert(introduced(steps, n - 1, p.open[k].pending[j]));
                        } else {
                            assert(q.open[k].pending[j] == p.open[k].pending[j + 1]);
                        }
                    }
                    assert forall|k: int| 0 <= k < q.names.len() implies introduced(
                        steps,
                        n,
                        #[trigger] q.names[k],
                    ) by {
                        if k < p.names.len() && q.names[k] == p.names[k] {
                        } else {
                            assert(q.names[k] == p.open[p.open.len() - 2].pending[0]);
                        }
                    }
                }
            },
            _ => {},
        }
    }
}

/// A query leaves no name behind: where it ends, the names in force are those from before it
/// began, and where the query around it is waiting for a definition, the name that it
/// defines.
pub proof fn a_query_leaves_only_the_name_it_defines(steps: Seq<StepView>, i: int, j: int)
    requires
        0 <= i < j < steps.len(),
        steps[i] is Enter,
        steps[j] is Leave,
        forall|k: int|
            i < k <= j ==> (#[trigger] place_at(steps, k)).open.len() > place_at(
                steps,
                i,
            ).open.len(),
        place_at(steps, j).open.len() == place_at(steps, i).open.len() + 1,
    ensures
        ({
            let before = place_at(steps, i);
            let after = place_at(steps, j + 1);
            &&& after.open.len() == before.open.len()
            &&& before.open.len() > 0 && before.open.last().pending.len() > 0 ==> after.names
                == before.names.push(before.open.last().pending[0])
            &&& before.open.len() == 0 || before.open.last().pending.len() == 0 ==> after
                == before
        }),
{
    inside_a_query(steps, i, j);
    let p = place_at(steps, i);
    let q = place_at(steps, j);
    let d = p.open.len() as int;
    assert(place_at(steps, j + 1) == behind(q, steps[j]));
    assert(q.open.drop_last() =~= q.open.take(d));
    assert(q.open.last() == q.open[d]);
    if d > 0 {
        assert(q.open.take(d).last() == p.open.last());
    }
    if p.open.len() == 0 || p.open.last().pending.len() == 0 {
        assert(place_at(steps, j + 1) =~= p);
    }
}

proof fn inside_a_query(steps: Seq<StepView>, i: int, k: int)
    requires
        0 <= i < k <= steps.len(),
        steps[i] is Enter,
        forall|m: int|
            i < m <= k ==> (#[trigger] place_at(steps, m)).open.len() > place_at(
                steps,
                i,
            ).open.len(),
    ensures
        ({
            let p = place_at(steps, i);
            let q = place_at(steps, k);
            let d = p.open.len() as int;
            &&& q.open.len() > d
            &&& q.open.take(d) == p.open
            &&& q.open[d].mark == p.names.len()
            &&& q.open[d].defines == (d > 0 && p.open.last().pending.len() > 0)
            &&& p.names.len() <= q.names.len()
            &&& q.names.take(p.names.len() as int) == p.names
            &&& forall|m: int| d <= m < q.open.len() ==> (#[trigger] q.open[m]).mark
                >= p.names.len()
        }),
    decreases k - i,
{
    let p = place_at(steps, i);
    let q = place_at(steps, k);
    let d = p.open.len() as int;
    let w = p.names.len() as int;
    if k == i + 1 {
        assert(q == behind(p, steps[i]));
        assert(q.open.take(d) =~= p.open);
        assert(q.names.take(w) =~= p.names);
    } else {
        assert(place_at(steps, k - 1).open.len() > d);
        inside_a_query(steps, i, k - 1);
        let o = place_at(steps, k - 1);
        assert(q == behind(o, steps[k - 1]));
        assert(place_at(steps, k).open.len() > d);
        match steps[k - 1] {
            StepView::Enter { names } => {
                assert(q.open.take(d) =~= o.open.take(d));
            },
            StepView::Leave => {
                assert(o.open.len() > d + 1);
                assert(q.open.take(d) =~= o.open.take(d));
                assert(o.open.last().mark >= w);
                let cut = o.names.take(
                    if o.open.last().mark <= o.names.len() {
                        o.open.last().mark
                    } else {
                        o.names.len() as int
                    },
                );
                assert(cut.len() >= w);
                assert(cut.take(w) =~= o.names.take(w));
                assert(q.names.take(w) =~= cut.take(w));
            },
            _ => {},
        }
    }
}

/// A query stands at the place in a chain, and nothing but explanations before it.
pub open spec fn query_at(chain: Seq<Kind>, k: int) -> bool {
    &&& 0 <= k < chain.len()
    &&& chain[k] == Kind::Query
    &&& forall|j: int| 0 <= j < k ==> #[trigger] chain[j] == Kind::Explain
}

/// A text is only read where it is a single statement, a query behind nothing but
/// explanations, and one that can be limited is one that is only read, with one explanation
/// at most.
pub proof fn what_may_run_only_reads(parsed: Result<Seq<Seq<Kind>>, Seq<char>>)
    ensures
        readonly_error(parsed) is None <==> parsed is Ok && parsed->Ok_0.len() == 1 && exists|
            k: int,
        | #[trigger] query_at(parsed->Ok_0[0], k),
        limit_error(parsed) is None <==> parsed is Ok && parsed->Ok_0.len() == 1 && (query_at(
            parsed->Ok_0[0],
            0,
        ) || query_at(parsed->Ok_0[0], 1)),
        limit_error(parsed) is None ==> readonly_error(parsed) is None,
{
    if parsed is Ok && parsed->Ok_0.len() == 1 {
        a_query_behind_explanations(parsed->Ok_0[0]);
    }
}

proof fn a_query_behind_explanations(c: Seq<Kind>)
    ensures
        reads_only(c) <==> exists|k: int| #[trigger] query_at(c, k),
    decreases c.len(),
{
    if c.len() > 0 {
        let r = c.drop_first();
        if c[0] == Kind::Explain {
            a_query_behind_explanations(r);
            if reads_only(r) {
                let k = choose|k: int| #[trigger] query_at(r, k);
                assert(query_at(c, k + 1)) by {
                    assert(c[k + 1] == r[k]);
                    assert forall|j: int| 0 <= j < k + 1 implies #[trigger] c[j]
                        == Kind::Explain by {
                        if j > 0 {
                            assert(r[j - 1] == c[j]);
                        }
                    }
                }
            }
            if exists|k: int| #[trigger] query_at(c, k) {
                let k = choose|k: int| #[trigger] query_at(c, k);
                assert(query_at(r, k - 1)) by {
                    assert(c[k] == r[k - 1]);
                    assert forall|j: int| 0 <= j < k - 1 implies #[trigger] r[j]
                        == Kind::Explain by {
                        assert(c[j + 1] == r[j]);
                    }
                }
            }
        } else if c[0] == Kind::Query {
            assert(query_at(c, 0));
        } else {
            assert forall|k: int| !#[trigger] query_at(c, k) by {
                if query_at(c, k) && k > 0 {
                    assert(c[0] == Kind::Explain);
                }
            }
        }
    }
}

} // verus!
