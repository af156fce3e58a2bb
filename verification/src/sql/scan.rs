//! The structural scan of a statement: one pass over its tokens that collects the
//! objects it touches and how it touches them.

use crate::names::NameSet;
use crate::numerals::{self, parse_u64};
use crate::sql::analysis::StatementType;
use crate::sql::keyword::{is_object_class_kw, stmt_type_from_kw, Kw};
use crate::sql::reader::{
    self, any_word, at_kw, at_sym, is_word, kw, read_name, read_one_table, read_table_list,
    scan_ctes, skip_parens,
};
use crate::sql::token::{self, Lexeme, Tok};
use crate::text::{self, contains_char, ends_with, same, to_upper};
use vstd::prelude::*;

verus! {

/// The part of a statement in which the scan is, by which a column reference is
/// attributed.
#[derive(Clone, Copy, Debug, PartialEq, Eq, Structural)]
pub enum Region {
    Projection,
    Predicate,
    Elsewhere,
}

/// What a scan has found so far.
pub struct Found {
    pub region: Region,
    /// The table that a `DELETE` names has been read.
    pub target_taken: bool,
    pub statement_type: StatementType,
    pub read: Set<Seq<char>>,
    pub written: Set<Seq<char>>,
    pub objects: Set<Seq<char>>,
    pub columns: Set<Seq<char>>,
    pub functions: Set<Seq<char>>,
    pub procedures: Set<Seq<char>>,
    pub joined: Set<Seq<char>>,
    pub predicates: Set<Seq<char>>,
    pub ctes: Set<Seq<char>>,
    pub privileges: Set<Seq<char>>,
    pub roles: Set<Seq<char>>,
    pub ddl: Set<Seq<char>>,
    pub has_where: bool,
    pub grouping: bool,
    pub ordering: bool,
    pub wildcard: bool,
    pub limit: Option<u64>,
    pub subqueries: nat,
    pub copy_source: Option<Seq<char>>,
    pub copy_destination: Option<Seq<char>>,
}

/// The first keyword from `i` on.
pub open spec fn first_kw(t: Seq<Lexeme>, i: int) -> Option<Kw>
    decreases t.len() - i,
{
    if i >= t.len() {
        None
    } else if reader::kw_at(t, i) is Some {
        reader::kw_at(t, i)
    } else {
        first_kw(t, i + 1)
    }
}

/// A word that takes a parenthesis without being a function, in upper case.
pub open spec fn is_control(name: Seq<char>) -> bool {
    name == "IN"@ || name == "VALUES"@ || name == "EXISTS"@ || name == "ARRAY"@ || name == "ROW"@
        || name == "ALL"@ || name == "ANY"@ || name == "SOME"@ || name == "OVER"@ || name
        == "FILTER"@ || name == "USING"@ || name == "ON"@ || name == "AND"@ || name == "OR"@ || name
        == "NOT"@ || name == "CASE"@ || name == "SELECT"@ || name == "TABLE"@ || name == "WHEN"@
        || name == "FROM"@ || name == "WHERE"@
}

/// The function that is called at `i`: a word directly before a parenthesis.
pub open spec fn function_called(t: Seq<Lexeme>, i: int) -> Option<Seq<char>> {
    if reader::sym_at(t, i + 1, "("@) {
        match reader::word_at(t, i) {
            Some(name) => if is_control(text::upper(name)) {
                None
            } else {
                Some(name)
            },
            None => None,
        }
    } else {
        None
    }
}

/// What every token adds, whatever comes of it: a sub-select that it opens and a
/// function that it calls.
pub open spec fn noticed(t: Seq<Lexeme>, i: int, f: Found) -> Found {
    let g = if reader::sym_at(t, i, "("@) && reader::kw_at(t, i + 1) == Some(Kw::Select) {
        Found { subqueries: f.subqueries + 1, ..f }
    } else {
        f
    };
    match function_called(t, i) {
        Some(name) => Found { functions: g.functions.insert(name), ..g },
        None => g,
    }
}

/// A token that is no keyword: a `*` in the projection, or a name, of which a
/// qualified one that is not called is a column.
pub open spec fn at_word(t: Seq<Lexeme>, i: int, f: Found) -> (Found, int) {
    let g = if reader::sym_at(t, i, "*"@) && f.region is Projection {
        Found { wildcard: true, ..f }
    } else {
        f
    };
    match reader::name_at(t, i) {
        Some((name, next)) => {
            if text::has_char(name, '.') && !text::ends(name, ".*"@) && !reader::sym_at(t, next, "("@) {
                match f.region {
                    Region::Projection => (Found { columns: g.columns.insert(name), ..g }, next),
                    Region::Predicate => (
                        Found {
                            columns: g.columns.insert(name),
                            predicates: g.predicates.insert(name),
                            ..g
                        },
                        next,
                    ),
                    Region::Elsewhere => (g, next),
                }
            } else {
                (g, next)
            }
        },
        None => (g, i + 1),
    }
}

/// `FROM`: the tables of its list are read, but those of the first list of a
/// `DELETE` are written. The list of a `REVOKE` names grantees, no tables.
pub open spec fn at_from(t: Seq<Lexeme>, i: int, first: Option<Kw>, f: Found) -> (Found, int) {
    let g = Found { region: Region::Elsewhere, ..f };
    if first == Some(Kw::Revoke) {
        (g, i + 1)
    } else {
        let (names, next) = reader::table_list(t, i + 1);
        let objects = g.objects.union(names.to_set());
        if first == Some(Kw::Delete) && !g.target_taken {
            (Found { objects, written: g.written.union(names.to_set()), target_taken: true, ..g }, next)
        } else {
            (Found { objects, read: g.read.union(names.to_set()), target_taken: true, ..g }, next)
        }
    }
}

/// `JOIN` and `USING`: the table is read, and joined.
pub open spec fn at_join(t: Seq<Lexeme>, i: int, f: Found) -> (Found, int) {
    match reader::table_at(t, i + 1) {
        Some((name, next)) => (
            Found {
                objects: f.objects.insert(name),
                read: f.read.insert(name),
                joined: f.joined.insert(name),
                ..f
            },
            next,
        ),
        None => (f, i + 1),
    }
}

/// `INTO` and `UPDATE`: the table is written.
pub open spec fn at_target(t: Seq<Lexeme>, i: int, f: Found) -> (Found, int) {
    match reader::table_at(t, i + 1) {
        Some((name, next)) => (
            Found { objects: f.objects.insert(name), written: f.written.insert(name), ..f },
            next,
        ),
        None => (f, i + 1),
    }
}

pub open spec fn grants(first: Option<Kw>) -> bool {
    first == Some(Kw::Grant) || first == Some(Kw::Revoke)
}

/// The place past an `IF EXISTS` or `IF NOT EXISTS` at `j`.
pub open spec fn past_condition(t: Seq<Lexeme>, j: int) -> int {
    if reader::word_at(t, j) != Some("if"@) {
        j
    } else if reader::word_at(t, j + 1) == Some("exists"@) {
        j + 2
    } else if reader::word_at(t, j + 1) == Some("not"@) && reader::word_at(t, j + 2) == Some(
        "exists"@,
    ) {
        j + 3
    } else {
        j
    }
}

/// `TABLE`: in a privilege statement its target, and otherwise a table whose
/// definition changes.
pub open spec fn at_table(t: Seq<Lexeme>, i: int, first: Option<Kw>, f: Found) -> (Found, int) {
    match reader::name_at(t, past_condition(t, i + 1)) {
        Some((name, next)) => if grants(first) {
            (Found { objects: f.objects.insert(name), privileges: f.privileges.insert(name), ..f }, next)
        } else {
            (
                Found {
                    objects: f.objects.insert(name),
                    ddl: f.ddl.insert(name),
                    written: f.written.insert(name),
                    ..f
                },
                next,
            )
        },
        None => (f, i + 1),
    }
}

/// `VIEW` and `INDEX`: an object whose definition changes.
pub open spec fn at_definition(t: Seq<Lexeme>, i: int, f: Found) -> (Found, int) {
    match reader::name_at(t, past_condition(t, i + 1)) {
        Some((name, next)) => (
            Found { objects: f.objects.insert(name), ddl: f.ddl.insert(name), ..f },
            next,
        ),
        None => (f, i + 1),
    }
}

/// `TRUNCATE`, with or without `TABLE`: each table is written and redefined.
pub open spec fn at_truncate(t: Seq<Lexeme>, i: int, f: Found) -> (Found, int) {
    let j = if reader::kw_at(t, i + 1) == Some(Kw::Table) {
        i + 2
    } else {
        i + 1
    };
    let (names, next) = reader::table_list(t, j);
    (
        Found {
            objects: f.objects.union(names.to_set()),
            ddl: f.ddl.union(names.to_set()),
            written: f.written.union(names.to_set()),
            ..f
        },
        next,
    )
}

/// `COPY`: out of a subquery or a table, or into a table. A subquery is read like the
/// rest of the statement. Where the direction is not to be told it counts as out. A token
/// that names nothing is passed over.
pub open spec fn at_copy(t: Seq<Lexeme>, i: int, f: Found) -> (Found, int) {
    if reader::sym_at(t, i + 1, "("@) {
        (Found { copy_source: Some("(subquery)"@), ..f }, i + 1)
    } else {
        match reader::name_at(t, i + 1) {
            None => (f, if i + 1 < t.len() { i + 2 } else { i + 1 }),
            Some((name, j)) => {
                let next = if reader::sym_at(t, j, "("@) {
                    reader::past_parens(t, j)
                } else {
                    j
                };
                let objects = f.objects.insert(name);
                if reader::kw_at(t, next) == Some(Kw::From) {
                    (
                        Found {
                            objects,
                            written: f.written.insert(name),
                            copy_destination: Some(name),
                            ..f
                        },
                        next,
                    )
                } else {
                    (
                        Found { objects, read: f.read.insert(name), copy_source: Some(name), ..f },
                        next,
                    )
                }
            },
        }
    }
}

/// `CALL` and `EXECUTE`: a procedure is called.
pub open spec fn at_call(t: Seq<Lexeme>, i: int, f: Found) -> (Found, int) {
    match reader::name_at(t, i + 1) {
        Some((name, next)) => (Found { procedures: f.procedures.insert(name), ..f }, next),
        None => (f, i + 1),
    }
}

/// `ROLE` and `AUTHORIZATION` of a `SET`: the role is changed.
pub open spec fn at_role(t: Seq<Lexeme>, i: int, f: Found) -> (Found, int) {
    let g = Found { statement_type: StatementType::SetRole, ..f };
    match reader::name_at(t, i + 1) {
        Some((name, next)) => (Found { roles: g.roles.insert(name), ..g }, next),
        None => (g, i + 1),
    }
}

/// Where a search from `j` for `SCHEMA` ends: there, or at `TO`, `FROM`, a
/// semicolon or the end of the statement.
pub open spec fn schema_from(t: Seq<Lexeme>, j: int) -> int
    decreases t.len() - j,
{
    if j >= t.len() || reader::kw_at(t, j) == Some(Kw::Schema) || reader::sym_at(t, j, ";"@) || reader::kw_at(t, j) == Some(
        Kw::To,
    ) || reader::kw_at(t, j) == Some(Kw::From) {
        j
    } else {
        schema_from(t, j + 1)
    }
}

/// The comma-separated names at `j`, and where they end.
pub open spec fn name_list(t: Seq<Lexeme>, j: int) -> (Seq<Seq<char>>, int)
    decreases t.len() - j,
{
    proof {
        reader::name_advances(t, j);
    }
    match reader::name_at(t, j) {
        Some((name, next)) => if reader::sym_at(t, next, ","@) {
            let rest = name_list(t, next + 1);
            (seq![name] + rest.0, rest.1)
        } else {
            (seq![name], next)
        },
        None => (Seq::empty(), j),
    }
}

/// `ON` of a `GRANT` or `REVOKE`: the targets, behind the keyword of their class
/// where one is given. Of `ON ALL .. IN SCHEMA s` the target is the schema.
pub open spec fn at_privilege(t: Seq<Lexeme>, i: int, f: Found) -> (Found, int) {
    if reader::kw_at(t, i + 1) == Some(Kw::All) {
        let j = schema_from(t, i + 1);
        if reader::kw_at(t, j) == Some(Kw::Schema) && reader::name_at(t, j + 1) is Some {
            let (name, next) = reader::name_at(t, j + 1)->0;
            (Found { objects: f.objects.insert(name), privileges: f.privileges.insert(name), ..f }, next)
        } else {
            (f, j)
        }
    } else {
        let j = if reader::kw_at(t, i + 1) is Some && (reader::kw_at(t, i + 1)->0).object_class() {
            i + 2
        } else {
            i + 1
        };
        let (names, next) = name_list(t, j);
        (
            Found {
                objects: f.objects.union(names.to_set()),
                privileges: f.privileges.union(names.to_set()),
                ..f
            },
            next,
        )
    }
}

/// `WITH`: the names that it introduces. Their definitions are read like the
/// rest of the statement.
pub open spec fn at_with(t: Seq<Lexeme>, i: int, f: Found) -> (Found, int) {
    let j = if reader::kw_at(t, i + 1) == Some(Kw::Recursive) {
        i + 2
    } else {
        i + 1
    };
    (
        Found { ctes: f.ctes.union(reader::cte_names(t, j).to_set()), region: Region::Projection, ..f },
        i + 1,
    )
}

/// The number behind `LIMIT`, where a number stands there.
pub open spec fn limit_at(t: Seq<Lexeme>, i: int, was: Option<u64>) -> Option<u64> {
    if 0 <= i < t.len() {
        match t[i] {
            Lexeme::Number(digits) => numerals::read_u64(digits),
            _ => was,
        }
    } else {
        was
    }
}

/// What the keyword at `i` adds, and where the scan goes on.
pub open spec fn at_keyword(t: Seq<Lexeme>, i: int, first: Option<Kw>, k: Kw, f: Found) -> (
    Found,
    int,
) {
    match k {
        Kw::With => at_with(t, i, f),
        Kw::Select => (Found { region: Region::Projection, ..f }, i + 1),
        Kw::Where => (Found { has_where: true, region: Region::Predicate, ..f }, i + 1),
        Kw::Group => (Found { grouping: true, region: Region::Elsewhere, ..f }, i + 1),
        Kw::Order => (Found { ordering: true, region: Region::Elsewhere, ..f }, i + 1),
        Kw::Having => (Found { region: Region::Elsewhere, ..f }, i + 1),
        Kw::Limit => (
            Found { limit: limit_at(t, i + 1, f.limit), region: Region::Elsewhere, ..f },
            i + 1,
        ),
        Kw::From => at_from(t, i, first, f),
        Kw::Join | Kw::Using => at_join(t, i, f),
        Kw::Into | Kw::Update => at_target(t, i, f),
        Kw::Table => at_table(t, i, first, f),
        Kw::View | Kw::Index => at_definition(t, i, f),
        Kw::Truncate => at_truncate(t, i, f),
        Kw::Copy => at_copy(t, i, f),
        Kw::Call | Kw::Execute => at_call(t, i, f),
        Kw::Role | Kw::Authorization => if first == Some(Kw::SetWord) {
            at_role(t, i, f)
        } else {
            (f, i + 1)
        },
        Kw::On => if grants(first) {
            at_privilege(t, i, f)
        } else {
            (f, i + 1)
        },
        _ => (f, i + 1),
    }
}

/// One step of the scan.
pub open spec fn step(t: Seq<Lexeme>, i: int, first: Option<Kw>, f: Found) -> (Found, int) {
    let g = noticed(t, i, f);
    match reader::kw_at(t, i) {
        Some(k) => at_keyword(t, i, first, k, g),
        None => at_word(t, i, g),
    }
}

/// What the scan has found at the end of the statement, from `i` on.
pub open spec fn scanned(t: Seq<Lexeme>, i: int, first: Option<Kw>, f: Found) -> Found
    decreases t.len() - i,
{
    if 0 <= i < t.len() {
        proof {
            step_advances(t, i, first, f);
        }
        let (g, next) = step(t, i, first, f);
        scanned(t, next, first, g)
    } else {
        f
    }
}

/// What a scan begins with.
pub open spec fn nothing_found(t: Seq<Lexeme>) -> Found {
    let first = first_kw(t, 0);
    Found {
        region: if first == Some(Kw::Select) || first == Some(Kw::With) {
            Region::Projection
        } else {
            Region::Elsewhere
        },
        target_taken: false,
        statement_type: match first {
            Some(k) => k.statement(),
            None => StatementType::Unknown,
        },
        read: Set::empty(),
        written: Set::empty(),
        objects: Set::empty(),
        columns: Set::empty(),
        functions: Set::empty(),
        procedures: Set::empty(),
        joined: Set::empty(),
        predicates: Set::empty(),
        ctes: Set::empty(),
        privileges: Set::empty(),
        roles: Set::empty(),
        ddl: Set::empty(),
        has_where: false,
        grouping: false,
        ordering: false,
        wildcard: false,
        limit: None,
        subqueries: 0,
        copy_source: None,
        copy_destination: None,
    }
}

/// What a whole statement does.
pub open spec fn findings(t: Seq<Lexeme>) -> Found {
    scanned(t, 0, first_kw(t, 0), nothing_found(t))
}

proof fn schema_advances(t: Seq<Lexeme>, j: int)
    requires
        0 <= j <= t.len(),
    ensures
        j <= schema_from(t, j) <= t.len(),
    decreases t.len() - j,
{
    if !(j >= t.len() || reader::kw_at(t, j) == Some(Kw::Schema) || reader::sym_at(t, j, ";"@) || reader::kw_at(t, j) == Some(
        Kw::To,
    ) || reader::kw_at(t, j) == Some(Kw::From)) {
        schema_advances(t, j + 1);
    }
}

proof fn names_advance(t: Seq<Lexeme>, j: int)
    requires
        0 <= j <= t.len(),
    ensures
        j <= name_list(t, j).1 <= t.len(),
    decreases t.len() - j,
{
    reader::name_advances(t, j);
    match reader::name_at(t, j) {
        Some((name, next)) => {
            if reader::sym_at(t, next, ","@) {
                names_advance(t, next + 1);
            }
        },
        None => {},
    }
}

/// Every step of the scan moves on.
pub proof fn step_advances(t: Seq<Lexeme>, i: int, first: Option<Kw>, f: Found)
    requires
        0 <= i < t.len(),
    ensures
        i < step(t, i, first, f).1 <= t.len(),
{
    reader::name_advances(t, i);
    reader::name_advances(t, i + 1);
    reader::name_advances(t, past_condition(t, i + 1));
    reader::table_advances(t, i + 1);
    reader::list_advances(t, i + 1);
    if i + 2 <= t.len() {
        reader::list_advances(t, i + 2);
        names_advance(t, i + 2);
    }
    names_advance(t, i + 1);
    reader::parens_advance(t, i + 1, 0);
    match reader::name_at(t, i + 1) {
        Some((name, j)) => {
            reader::parens_advance(t, j, 0);
        },
        None => {},
    }
    schema_advances(t, i + 1);
    reader::name_advances(t, schema_from(t, i + 1) + 1);
}

/// The state of a scan.
pub struct Scan {
    pub region: Region,
    pub target_taken: bool,
    pub statement_type: StatementType,
    pub read: NameSet,
    pub written: NameSet,
    pub objects: NameSet,
    pub columns: NameSet,
    pub functions: NameSet,
    pub procedures: NameSet,
    pub joined: NameSet,
    pub predicates: NameSet,
    pub ctes: NameSet,
    pub privileges: NameSet,
    pub roles: NameSet,
    pub ddl: NameSet,
    pub has_where: bool,
    pub grouping: bool,
    pub ordering: bool,
    pub wildcard: bool,
    pub limit: Option<u64>,
    pub subqueries: usize,
    pub copy_source: Option<String>,
    pub copy_destination: Option<String>,
}

impl View for Scan {
    type V = Found;

    open spec fn view(&self) -> Found {
        Found {
            region: self.region,
            target_taken: self.target_taken,
            statement_type: self.statement_type,
            read: self.read@,
            written: self.written@,
            objects: self.objects@,
            columns: self.columns@,
            functions: self.functions@,
            procedures: self.procedures@,
            joined: self.joined@,
            predicates: self.predicates@,
            ctes: self.ctes@,
            privileges: self.privileges@,
            roles: self.roles@,
            ddl: self.ddl@,
            has_where: self.has_where,
            grouping: self.grouping,
            ordering: self.ordering,
            wildcard: self.wildcard,
            limit: self.limit,
            subqueries: self.subqueries as nat,
            copy_source: text::opt_text(self.copy_source),
            copy_destination: text::opt_text(self.copy_destination),
        }
    }
}

/// The place past an `IF EXISTS` or `IF NOT EXISTS` at `j`.
fn skip_condition(t: &Vec<Tok>, j: usize) -> (r: usize)
    requires
        j <= t.len(),
    ensures
        r == past_condition(token::lexemes(t@), j as int),
        j <= r <= t.len(),
{
    if j >= t.len() || !is_word(t, j, "if") || j + 1 >= t.len() {
        return j;
    }
    if is_word(t, j + 1, "exists") {
        return j + 2;
    }
    if j + 2 < t.len() && is_word(t, j + 1, "not") && is_word(t, j + 2, "exists") {
        return j + 3;
    }
    j
}

/// Whether the word, in upper case, takes a parenthesis without being a function.
fn control_word(name: &str) -> (r: bool)
    ensures
        r == is_control(name@),
{
    same(name, "IN") || same(name, "VALUES") || same(name, "EXISTS") || same(name, "ARRAY") || same(
        name,
        "ROW",
    ) || same(name, "ALL") || same(name, "ANY") || same(name, "SOME") || same(name, "OVER") || same(
        name,
        "FILTER",
    ) || same(name, "USING") || same(name, "ON") || same(name, "AND") || same(name, "OR") || same(
        name,
        "NOT",
    ) || same(name, "CASE") || same(name, "SELECT") || same(name, "TABLE") || same(name, "WHEN")
        || same(name, "FROM") || same(name, "WHERE")
}

/// The function that is called at `i`, where one is.
pub fn function_at(t: &Vec<Tok>, i: usize) -> (r: Option<String>)
    ensures
        text::opt_text(r) == function_called(token::lexemes(t@), i as int),
{
    if i >= t.len() || !at_sym(t, i + 1, "(") {
        return None;
    }
    match any_word(t, i) {
        Some(name) => {
            let up = to_upper(name.as_str());
            if control_word(up.as_str()) {
                None
            } else {
                Some(name)
            }
        },
        None => None,
    }
}

fn leading_kw(t: &Vec<Tok>) -> (r: Option<Kw>)
    ensures
        r == first_kw(token::lexemes(t@), 0),
{
    let mut i: usize = 0;
    while i < t.len()
        invariant
            i <= t.len(),
            first_kw(token::lexemes(t@), 0) == first_kw(token::lexemes(t@), i as int),
        decreases t.len() - i,
    {
        let k = kw(t, i);
        if k.is_some() {
            return k;
        }
        i += 1;
    }
    None
}

fn read_names(t: &Vec<Tok>, start: usize) -> (r: (Vec<String>, usize))
    requires
        start <= t.len(),
    ensures
        (text::texts(r.0@), r.1 as int) == name_list(token::lexemes(t@), start as int),
{
    let ghost l = token::lexemes(t@);
    let ghost whole = name_list(l, start as int);
    let mut names: Vec<String> = Vec::new();
    let mut j: usize = start;
    assert(text::texts(names@) + name_list(l, j as int).0 =~= whole.0);
    loop
        invariant_except_break
            text::texts(names@) + name_list(l, j as int).0 == whole.0,
            name_list(l, j as int).1 == whole.1,
        invariant
            l == token::lexemes(t@),
            j <= t.len(),
        ensures
            text::texts(names@) == whole.0,
            j == whole.1,
        decreases t.len() - j,
    {
        proof {
            reader::name_advances(l, j as int);
        }
        match read_name(t, j) {
            Some((name, next)) => {
                let ghost was = text::texts(names@);
                let ghost n = name@;
                names.push(name);
                assert(text::texts(names@) =~= was + seq![n]);
                if at_sym(t, next, ",") {
                    assert(was + (seq![n] + name_list(l, next + 1).0) =~= text::texts(names@) + name_list(
                        l,
                        next + 1,
                    ).0);
                    j = next + 1;
                } else {
                    j = next;
                    break;
                }
            },
            None => {
                assert(text::texts(names@) + Seq::<Seq<char>>::empty() =~= text::texts(names@));
                break;
            },
        }
    }
    (names, j)
}

fn find_schema(t: &Vec<Tok>, start: usize) -> (r: usize)
    requires
        start <= t.len(),
    ensures
        r == schema_from(token::lexemes(t@), start as int),
        start <= r <= t.len(),
{
    let mut j: usize = start;
    while j < t.len() && !at_kw(t, j, Kw::Schema) && !at_sym(t, j, ";") && !at_kw(t, j, Kw::To)
        && !at_kw(t, j, Kw::From)
        invariant
            start <= j <= t.len(),
            schema_from(token::lexemes(t@), start as int) == schema_from(token::lexemes(t@), j as int),
        decreases t.len() - j,
    {
        j += 1;
    }
    j
}

impl Scan {
    fn start(first: Option<Kw>, Ghost(l): Ghost<Seq<Lexeme>>) -> (r: Scan)
        requires
            first == first_kw(l, 0),
        ensures
            r@ == nothing_found(l),
    {
        let region = match first {
            Some(Kw::Select) | Some(Kw::With) => Region::Projection,
            _ => Region::Elsewhere,
        };
        let statement_type = match first {
            Some(k) => stmt_type_from_kw(k),
            None => StatementType::Unknown,
        };
        Scan {
            region,
            target_taken: false,
            statement_type,
            read: NameSet::new(),
            written: NameSet::new(),
            objects: NameSet::new(),
            columns: NameSet::new(),
            functions: NameSet::new(),
            procedures: NameSet::new(),
            joined: NameSet::new(),
            predicates: NameSet::new(),
            ctes: NameSet::new(),
            privileges: NameSet::new(),
            roles: NameSet::new(),
            ddl: NameSet::new(),
            has_where: false,
            grouping: false,
            ordering: false,
            wildcard: false,
            limit: None,
            subqueries: 0,
            copy_source: None,
            copy_destination: None,
        }
    }

    fn notice(&mut self, t: &Vec<Tok>, i: usize)
        requires
            i < t.len(),
            old(self).subqueries <= i,
        ensures
            final(self)@ == noticed(token::lexemes(t@), i as int, old(self)@),
    {
        if at_sym(t, i, "(") && at_kw(t, i + 1, Kw::Select) {
            self.subqueries = self.subqueries + 1;
        }
        match function_at(t, i) {
            Some(name) => {
                self.functions.insert(name);
            },
            None => {},
        }
    }

    fn word(&mut self, t: &Vec<Tok>, i: usize) -> (next: usize)
        requires
            i < t.len(),
        ensures
            (final(self)@, next as int) == at_word(token::lexemes(t@), i as int, old(self)@),
    {
        if at_sym(t, i, "*") && self.region == Region::Projection {
            self.wildcard = true;
        }
        match read_name(t, i) {
            Some((name, next)) => {
                if contains_char(name.as_str(), '.') && !ends_with(name.as_str(), ".*") && !at_sym(
                    t,
                    next,
                    "(",
                ) {
                    match self.region {
                        Region::Projection => {
                            self.columns.insert(name);
                        },
                        Region::Predicate => {
                            self.columns.insert(name.clone());
                            self.predicates.insert(name);
                        },
                        Region::Elsewhere => {},
                    }
                }
                next
            },
            None => i + 1,
        }
    }

    fn from_clause(&mut self, t: &Vec<Tok>, i: usize, first: Option<Kw>) -> (next: usize)
        requires
            i < t.len(),
        ensures
            (final(self)@, next as int) == at_from(token::lexemes(t@), i as int, first, old(self)@),
    {
        self.region = Region::Elsewhere;
        if first == Some(Kw::Revoke) {
            return i + 1;
        }
        let (names, next) = read_table_list(t, i + 1);
        self.objects.insert_all(&names);
        if first == Some(Kw::Delete) && !self.target_taken {
            self.written.insert_all(&names);
        } else {
            self.read.insert_all(&names);
        }
        self.target_taken = true;
        next
    }

    fn join_clause(&mut self, t: &Vec<Tok>, i: usize) -> (next: usize)
        requires
            i < t.len(),
        ensures
            (final(self)@, next as int) == at_join(token::lexemes(t@), i as int, old(self)@),
    {
        match read_one_table(t, i + 1) {
            Some((name, next)) => {
                self.objects.insert(name.clone());
                self.read.insert(name.clone());
                self.joined.insert(name);
                next
            },
            None => i + 1,
        }
    }

    fn target_clause(&mut self, t: &Vec<Tok>, i: usize) -> (next: usize)
        requires
            i < t.len(),
        ensures
            (final(self)@, next as int) == at_target(token::lexemes(t@), i as int, old(self)@),
    {
        match read_one_table(t, i + 1) {
            Some((name, next)) => {
                self.objects.insert(name.clone());
                self.written.insert(name);
                next
            },
            None => i + 1,
        }
    }

    fn table_clause(&mut self, t: &Vec<Tok>, i: usize, first: Option<Kw>) -> (next: usize)
        requires
            i < t.len(),
        ensures
            (final(self)@, next as int) == at_table(token::lexemes(t@), i as int, first, old(self)@),
    {
        match read_name(t, skip_condition(t, i + 1)) {
            Some((name, next)) => {
                self.objects.insert(name.clone());
                if first == Some(Kw::Grant) || first == Some(Kw::Revoke) {
                    self.privileges.insert(name);
                } else {
                    self.ddl.insert(name.clone());
                    self.written.insert(name);
                }
                next
            },
            None => i + 1,
        }
    }

    fn definition_clause(&mut self, t: &Vec<Tok>, i: usize) -> (next: usize)
        requires
            i < t.len(),
        ensures
            (final(self)@, next as int) == at_definition(token::lexemes(t@), i as int, old(self)@),
    {
        match read_name(t, skip_condition(t, i + 1)) {
            Some((name, next)) => {
                self.objects.insert(name.clone());
                self.ddl.insert(name);
                next
            },
            None => i + 1,
        }
    }

    fn truncate_clause(&mut self, t: &Vec<Tok>, i: usize) -> (next: usize)
        requires
            i < t.len(),
        ensures
            (final(self)@, next as int) == at_truncate(token::lexemes(t@), i as int, old(self)@),
    {
        let mut j: usize = i + 1;
        if at_kw(t, j, Kw::Table) {
            j += 1;
        }
        let (names, next) = read_table_list(t, j);
        self.objects.insert_all(&names);
        self.ddl.insert_all(&names);
        self.written.insert_all(&names);
        next
    }

    fn scan_copy(&mut self, t: &Vec<Tok>, i: usize) -> (next: usize)
        requires
            i < t.len(),
        ensures
            (final(self)@, next as int) == at_copy(token::lexemes(t@), i as int, old(self)@),
    {
        let start: usize = i + 1;
        if at_sym(t, start, "(") {
            let mut source = String::new();
            source.append("(subquery)");
            assert(source@ =~= "(subquery)"@);
            self.copy_source = Some(source);
            return start;
        }
        match read_name(t, start) {
            None => {
                if start < t.len() {
                    start + 1
                } else {
                    start
                }
            },
            Some((name, j)) => {
                let next: usize = if at_sym(t, j, "(") {
                    skip_parens(t, j)
                } else {
                    j
                };
                self.objects.insert(name.clone());
                if at_kw(t, next, Kw::From) {
                    self.written.insert(name.clone());
                    self.copy_destination = Some(name);
                } else {
                    self.read.insert(name.clone());
                    self.copy_source = Some(name);
                }
                next
            },
        }
    }

    fn call_clause(&mut self, t: &Vec<Tok>, i: usize) -> (next: usize)
        requires
            i < t.len(),
        ensures
            (final(self)@, next as int) == at_call(token::lexemes(t@), i as int, old(self)@),
    {
        match read_name(t, i + 1) {
            Some((name, next)) => {
                self.procedures.insert(name);
                next
            },
            None => i + 1,
        }
    }

    fn role_clause(&mut self, t: &Vec<Tok>, i: usize) -> (next: usize)
        requires
            i < t.len(),
        ensures
            (final(self)@, next as int) == at_role(token::lexemes(t@), i as int, old(self)@),
    {
        self.statement_type = StatementType::SetRole;
        match read_name(t, i + 1) {
            Some((name, next)) => {
                self.roles.insert(name);
                next
            },
            None => i + 1,
        }
    }

    fn privilege_clause(&mut self, t: &Vec<Tok>, i: usize) -> (next: usize)
        requires
            i < t.len(),
        ensures
            (final(self)@, next as int) == at_privilege(token::lexemes(t@), i as int, old(self)@),
    {
        if at_kw(t, i + 1, Kw::All) {
            let j = find_schema(t, i + 1);
            if at_kw(t, j, Kw::Schema) {
                match read_name(t, j + 1) {
                    Some((name, next)) => {
                        self.objects.insert(name.clone());
                        self.privileges.insert(name);
                        return next;
                    },
                    None => {},
                }
            }
            j
        } else {
            let mut j: usize = i + 1;
            match kw(t, j) {
                Some(k) => {
                    if is_object_class_kw(k) {
                        j += 1;
                    }
                },
                None => {},
            }
            let (names, next) = read_names(t, j);
            self.objects.insert_all(&names);
            self.privileges.insert_all(&names);
            next
        }
    }

    fn with_clause(&mut self, t: &Vec<Tok>, i: usize) -> (next: usize)
        requires
            i < t.len(),
        ensures
            (final(self)@, next as int) == at_with(token::lexemes(t@), i as int, old(self)@),
    {
        let mut j: usize = i + 1;
        if at_kw(t, j, Kw::Recursive) {
            j += 1;
        }
        let names = scan_ctes(t, j);
        self.ctes.insert_all(&names);
        self.region = Region::Projection;
        i + 1
    }

    fn limit_clause(&mut self, t: &Vec<Tok>, i: usize)
        requires
            i < t.len(),
        ensures
            final(self)@ == (Found {
                limit: limit_at(token::lexemes(t@), i + 1, old(self)@.limit),
                region: Region::Elsewhere,
                ..old(self)@
            }),
    {
        self.region = Region::Elsewhere;
        if i + 1 < t.len() {
            match &t[i + 1] {
                Tok::Number(digits) => {
                    self.limit = parse_u64(digits.as_str());
                },
                _ => {},
            }
        }
    }

    fn keyword(&mut self, t: &Vec<Tok>, i: usize, first: Option<Kw>, k: Kw) -> (next: usize)
        requires
            i < t.len(),
        ensures
            (final(self)@, next as int) == at_keyword(token::lexemes(t@), i as int, first, k, old(self)@),
    {
        match k {
            Kw::With => {
                return self.with_clause(t, i);
            },
            Kw::Select => {
                self.region = Region::Projection;
            },
            Kw::Where => {
                self.has_where = true;
                self.region = Region::Predicate;
            },
            Kw::Group => {
                self.grouping = true;
                self.region = Region::Elsewhere;
            },
            Kw::Order => {
                self.ordering = true;
                self.region = Region::Elsewhere;
            },
            Kw::Having => {
                self.region = Region::Elsewhere;
            },
            Kw::Limit => {
                self.limit_clause(t, i);
            },
            Kw::From => {
                return self.from_clause(t, i, first);
            },
            Kw::Join | Kw::Using => {
                return self.join_clause(t, i);
            },
            Kw::Into | Kw::Update => {
                return self.target_clause(t, i);
            },
            Kw::Table => {
                return self.table_clause(t, i, first);
            },
            Kw::View | Kw::Index => {
                return self.definition_clause(t, i);
            },
            Kw::Truncate => {
                return self.truncate_clause(t, i);
            },
            Kw::Copy => {
                return self.scan_copy(t, i);
            },
            Kw::Call | Kw::Execute => {
                return self.call_clause(t, i);
            },
            Kw::Role | Kw::Authorization => {
                if first == Some(Kw::SetWord) {
                    return self.role_clause(t, i);
                }
            },
            Kw::On => {
                if first == Some(Kw::Grant) || first == Some(Kw::Revoke) {
                    return self.privilege_clause(t, i);
                }
            },
            _ => {},
        }
        i + 1
    }
}

/// Scans a statement whose tokens hold no white space.
pub fn scan(t: &Vec<Tok>) -> (r: Scan)
    ensures
        r@ == findings(token::lexemes(t@)),
{
    let ghost l = token::lexemes(t@);
    let first = leading_kw(t);
    let mut s = Scan::start(first, Ghost(l));
    let mut i: usize = 0;
    while i < t.len()
        invariant
            l == token::lexemes(t@),
            first == first_kw(l, 0),
            i <= t.len(),
            s.subqueries <= i,
            findings(l) == scanned(l, i as int, first, s@),
        decreases t.len() - i,
    {
        let ghost f = s@;
        proof {
            step_advances(l, i as int, first, f);
            subqueries_bounded(l, i as int, first, f);
        }
        s.notice(t, i);
        i = match kw(t, i) {
            Some(k) => s.keyword(t, i, first, k),
            None => s.word(t, i),
        };
    }
    s
}

proof fn subqueries_bounded(t: Seq<Lexeme>, i: int, first: Option<Kw>, f: Found)
    ensures
        step(t, i, first, f).0.subqueries <= f.subqueries + 1,
{
}

} // verus!
