//! What holds of every analysis, in terms of the tokens of the statement alone.

use crate::names;
use crate::sql::analysis::{self, SqlAccessAnalysis, StatementType};
use crate::sql::keyword::{self, Kw};
use crate::sql::reader;
use crate::sql::scan::{self, Found};
use crate::sql::token::Lexeme;
use crate::text;
use vstd::prelude::*;

verus! {

/// The word stands at `i` as a keyword: unquoted, in whatever case.
pub open spec fn keyword_at(t: Seq<Lexeme>, i: int, word: Seq<char>) -> bool {
    0 <= i < t.len() && match t[i] {
        Lexeme::Word { value, quoted, keyword } => !quoted && keyword && text::upper(value) == word,
        _ => false,
    }
}

/// The keywords that govern what the scan finds are spelled like this.
pub proof fn keywords_are_spelled()
    ensures
        keyword::kw_of("SELECT"@) is Select,
        keyword::kw_of("WITH"@) is With,
        keyword::kw_of("WHERE"@) is Where,
        keyword::kw_of("GROUP"@) is Group,
        keyword::kw_of("ORDER"@) is Order,
        keyword::kw_of("LIMIT"@) is Limit,
        keyword::kw_of("FROM"@) is From,
        keyword::kw_of("JOIN"@) is Join,
        keyword::kw_of("INTO"@) is Into,
        keyword::kw_of("UPDATE"@) is Update,
        keyword::kw_of("TABLE"@) is Table,
        keyword::kw_of("VIEW"@) is View,
        keyword::kw_of("INDEX"@) is Index,
        keyword::kw_of("TRUNCATE"@) is Truncate,
        keyword::kw_of("USING"@) is Using,
        keyword::kw_of("COPY"@) is Copy,
        keyword::kw_of("CALL"@) is Call,
        keyword::kw_of("EXECUTE"@) is Execute,
        keyword::kw_of("ROLE"@) is Role,
        keyword::kw_of("AUTHORIZATION"@) is Authorization,
        keyword::kw_of("ON"@) is On,
        keyword::kw_of("AS"@) is As,
        keyword::kw_of("SET"@) is SetWord,
        keyword::kw_of("INSERT"@) is Insert,
        keyword::kw_of("DELETE"@) is Delete,
        keyword::kw_of("GRANT"@) is Grant,
        keyword::kw_of("REVOKE"@) is Revoke,
        keyword::kw_of("MERGE"@) is Merge,
        keyword::kw_of("CREATE"@) is Create,
        keyword::kw_of("ALTER"@) is Alter,
        keyword::kw_of("DROP"@) is Drop,
        keyword::kw_of("ANALYZE"@) is Analyze,
        keyword::kw_of("EXPLAIN"@) is Explain,
        keyword::kw_of("HAVING"@) is Having,
        keyword::kw_of("OFFSET"@) is Offset,
        keyword::kw_of("ALL"@) is All,
        keyword::kw_of("SCHEMA"@) is Schema,
        keyword::kw_of("TO"@) is To,
        keyword::kw_of("ONLY"@) is Only,
        keyword::kw_of("RECURSIVE"@) is Recursive,
        keyword::kw_of("VALUES"@) is Values,
        keyword::kw_of("AND"@) is And,
        keyword::kw_of("OR"@) is Or,
        keyword::kw_of("UNION"@) is Union,
        keyword::kw_of("WHEN"@) is When,
        keyword::kw_of("THEN"@) is Then,
        keyword::kw_of("SEQUENCE"@) is Sequence,
        keyword::kw_of("FUNCTION"@) is Function,
        keyword::kw_of("PROCEDURE"@) is Procedure,
        keyword::kw_of("DATABASE"@) is Database,
        keyword::kw_of("DOMAIN"@) is Domain,
        keyword::kw_of("TYPE"@) is Type,
{
    reveal_strlit("SELECT");
    assert("SELECT"@.len() == 6 && "SELECT"@[0] == 'S' && "SELECT"@[1] == 'E' && "SELECT"@[2] == 'L');
    reveal_strlit("WITH");
    assert("WITH"@.len() == 4 && "WITH"@[0] == 'W' && "WITH"@[1] == 'I' && "WITH"@[2] == 'T');
    reveal_strlit("WHERE");
    assert("WHERE"@.len() == 5 && "WHERE"@[0] == 'W' && "WHERE"@[1] == 'H' && "WHERE"@[2] == 'E');
    reveal_strlit("GROUP");
    assert("GROUP"@.len() == 5 && "GROUP"@[0] == 'G' && "GROUP"@[1] == 'R' && "GROUP"@[2] == 'O');
    reveal_strlit("ORDER");
    assert("ORDER"@.len() == 5 && "ORDER"@[0] == 'O' && "ORDER"@[1] == 'R' && "ORDER"@[2] == 'D');
    reveal_strlit("HAVING");
    assert("HAVING"@.len() == 6 && "HAVING"@[0] == 'H' && "HAVING"@[1] == 'A' && "HAVING"@[2] == 'V');
    reveal_strlit("LIMIT");
    assert("LIMIT"@.len() == 5 && "LIMIT"@[0] == 'L' && "LIMIT"@[1] == 'I' && "LIMIT"@[2] == 'M');
    reveal_strlit("OFFSET");
    assert("OFFSET"@.len() == 6 && "OFFSET"@[0] == 'O' && "OFFSET"@[1] == 'F' && "OFFSET"@[2] == 'F');
    reveal_strlit("FROM");
    assert("FROM"@.len() == 4 && "FROM"@[0] == 'F' && "FROM"@[1] == 'R' && "FROM"@[2] == 'O');
    reveal_strlit("JOIN");
    assert("JOIN"@.len() == 4 && "JOIN"@[0] == 'J' && "JOIN"@[1] == 'O' && "JOIN"@[2] == 'I');
    reveal_strlit("INTO");
    assert("INTO"@.len() == 4 && "INTO"@[0] == 'I' && "INTO"@[1] == 'N' && "INTO"@[2] == 'T');
    reveal_strlit("UPDATE");
    assert("UPDATE"@.len() == 6 && "UPDATE"@[0] == 'U' && "UPDATE"@[1] == 'P' && "UPDATE"@[2] == 'D');
    reveal_strlit("TABLE");
    assert("TABLE"@.len() == 5 && "TABLE"@[0] == 'T' && "TABLE"@[1] == 'A' && "TABLE"@[2] == 'B');
    reveal_strlit("VIEW");
    assert("VIEW"@.len() == 4 && "VIEW"@[0] == 'V' && "VIEW"@[1] == 'I' && "VIEW"@[2] == 'E');
    reveal_strlit("INDEX");
    assert("INDEX"@.len() == 5 && "INDEX"@[0] == 'I' && "INDEX"@[1] == 'N' && "INDEX"@[2] == 'D');
    reveal_strlit("TRUNCATE");
    assert("TRUNCATE"@.len() == 8 && "TRUNCATE"@[0] == 'T' && "TRUNCATE"@[1] == 'R' && "TRUNCATE"@[2] == 'U');
    reveal_strlit("USING");
    assert("USING"@.len() == 5 && "USING"@[0] == 'U' && "USING"@[1] == 'S' && "USING"@[2] == 'I');
    reveal_strlit("COPY");
    assert("COPY"@.len() == 4 && "COPY"@[0] == 'C' && "COPY"@[1] == 'O' && "COPY"@[2] == 'P');
    reveal_strlit("CALL");
    assert("CALL"@.len() == 4 && "CALL"@[0] == 'C' && "CALL"@[1] == 'A' && "CALL"@[2] == 'L');
    reveal_strlit("EXECUTE");
    assert("EXECUTE"@.len() == 7 && "EXECUTE"@[0] == 'E' && "EXECUTE"@[1] == 'X' && "EXECUTE"@[2] == 'E');
    reveal_strlit("ROLE");
    assert("ROLE"@.len() == 4 && "ROLE"@[0] == 'R' && "ROLE"@[1] == 'O' && "ROLE"@[2] == 'L');
    reveal_strlit("AUTHORIZATION");
    assert("AUTHORIZATION"@.len() == 13 && "AUTHORIZATION"@[0] == 'A' && "AUTHORIZATION"@[1] == 'U' && "AUTHORIZATION"@[2] == 'T');
    reveal_strlit("ON");
    assert("ON"@.len() == 2 && "ON"@[0] == 'O' && "ON"@[1] == 'N');
    reveal_strlit("ALL");
    assert("ALL"@.len() == 3 && "ALL"@[0] == 'A' && "ALL"@[1] == 'L' && "ALL"@[2] == 'L');
    reveal_strlit("SCHEMA");
    assert("SCHEMA"@.len() == 6 && "SCHEMA"@[0] == 'S' && "SCHEMA"@[1] == 'C' && "SCHEMA"@[2] == 'H');
    reveal_strlit("TO");
    assert("TO"@.len() == 2 && "TO"@[0] == 'T' && "TO"@[1] == 'O');
    reveal_strlit("AS");
    assert("AS"@.len() == 2 && "AS"@[0] == 'A' && "AS"@[1] == 'S');
    reveal_strlit("ONLY");
    assert("ONLY"@.len() == 4 && "ONLY"@[0] == 'O' && "ONLY"@[1] == 'N' && "ONLY"@[2] == 'L');
    reveal_strlit("RECURSIVE");
    assert("RECURSIVE"@.len() == 9 && "RECURSIVE"@[0] == 'R' && "RECURSIVE"@[1] == 'E' && "RECURSIVE"@[2] == 'C');
    reveal_strlit("SET");
    assert("SET"@.len() == 3 && "SET"@[0] == 'S' && "SET"@[1] == 'E' && "SET"@[2] == 'T');
    reveal_strlit("VALUES");
    assert("VALUES"@.len() == 6 && "VALUES"@[0] == 'V' && "VALUES"@[1] == 'A' && "VALUES"@[2] == 'L');
    reveal_strlit("AND");
    assert("AND"@.len() == 3 && "AND"@[0] == 'A' && "AND"@[1] == 'N' && "AND"@[2] == 'D');
    reveal_strlit("OR");
    assert("OR"@.len() == 2 && "OR"@[0] == 'O' && "OR"@[1] == 'R');
    reveal_strlit("UNION");
    assert("UNION"@.len() == 5 && "UNION"@[0] == 'U' && "UNION"@[1] == 'N' && "UNION"@[2] == 'I');
    reveal_strlit("WHEN");
    assert("WHEN"@.len() == 4 && "WHEN"@[0] == 'W' && "WHEN"@[1] == 'H' && "WHEN"@[2] == 'E');
    reveal_strlit("THEN");
    assert("THEN"@.len() == 4 && "THEN"@[0] == 'T' && "THEN"@[1] == 'H' && "THEN"@[2] == 'E');
    reveal_strlit("SEQUENCE");
    assert("SEQUENCE"@.len() == 8 && "SEQUENCE"@[0] == 'S' && "SEQUENCE"@[1] == 'E' && "SEQUENCE"@[2] == 'Q');
    reveal_strlit("FUNCTION");
    assert("FUNCTION"@.len() == 8 && "FUNCTION"@[0] == 'F' && "FUNCTION"@[1] == 'U' && "FUNCTION"@[2] == 'N');
    reveal_strlit("PROCEDURE");
    assert("PROCEDURE"@.len() == 9 && "PROCEDURE"@[0] == 'P' && "PROCEDURE"@[1] == 'R' && "PROCEDURE"@[2] == 'O');
    reveal_strlit("DATABASE");
    assert("DATABASE"@.len() == 8 && "DATABASE"@[0] == 'D' && "DATABASE"@[1] == 'A' && "DATABASE"@[2] == 'T');
    reveal_strlit("DOMAIN");
    assert("DOMAIN"@.len() == 6 && "DOMAIN"@[0] == 'D' && "DOMAIN"@[1] == 'O' && "DOMAIN"@[2] == 'M');
    reveal_strlit("TYPE");
    assert("TYPE"@.len() == 4 && "TYPE"@[0] == 'T' && "TYPE"@[1] == 'Y' && "TYPE"@[2] == 'P');
    reveal_strlit("INSERT");
    assert("INSERT"@.len() == 6 && "INSERT"@[0] == 'I' && "INSERT"@[1] == 'N' && "INSERT"@[2] == 'S');
    reveal_strlit("DELETE");
    assert("DELETE"@.len() == 6 && "DELETE"@[0] == 'D' && "DELETE"@[1] == 'E' && "DELETE"@[2] == 'L');
    reveal_strlit("GRANT");
    assert("GRANT"@.len() == 5 && "GRANT"@[0] == 'G' && "GRANT"@[1] == 'R' && "GRANT"@[2] == 'A');
    reveal_strlit("REVOKE");
    assert("REVOKE"@.len() == 6 && "REVOKE"@[0] == 'R' && "REVOKE"@[1] == 'E' && "REVOKE"@[2] == 'V');
    reveal_strlit("MERGE");
    assert("MERGE"@.len() == 5 && "MERGE"@[0] == 'M' && "MERGE"@[1] == 'E' && "MERGE"@[2] == 'R');
    reveal_strlit("ANALYZE");
    assert("ANALYZE"@.len() == 7 && "ANALYZE"@[0] == 'A' && "ANALYZE"@[1] == 'N' && "ANALYZE"@[2] == 'A');
    reveal_strlit("EXPLAIN");
    assert("EXPLAIN"@.len() == 7 && "EXPLAIN"@[0] == 'E' && "EXPLAIN"@[1] == 'X' && "EXPLAIN"@[2] == 'P');
    reveal_strlit("CREATE");
    assert("CREATE"@.len() == 6 && "CREATE"@[0] == 'C' && "CREATE"@[1] == 'R' && "CREATE"@[2] == 'E');
    reveal_strlit("ALTER");
    assert("ALTER"@.len() == 5 && "ALTER"@[0] == 'A' && "ALTER"@[1] == 'L' && "ALTER"@[2] == 'T');
    reveal_strlit("DROP");
    assert("DROP"@.len() == 4 && "DROP"@[0] == 'D' && "DROP"@[1] == 'R' && "DROP"@[2] == 'O');
}

/// A reserved keyword at `i` that is no part of a qualified name: a scan never passes over
/// it.
spec fn firm(t: Seq<Lexeme>, i: int) -> bool {
    &&& reader::kw_at(t, i) is Some
    &&& (reader::kw_at(t, i)->0).reserved()
    &&& !(reader::kw_at(t, i)->0 is As)
    &&& !reader::sym_at(t, i - 1, "."@)
    &&& reader::word_at(t, i) != Some("if"@)
    &&& reader::word_at(t, i) != Some("not"@)
    &&& reader::word_at(t, i) != Some("exists"@)
}

proof fn tail_stops(t: Seq<Lexeme>, j: int, i: int)
    requires
        0 <= j <= i,
        firm(t, i),
    ensures
        reader::name_tail(t, j).1 <= i,
    decreases i - j,
{
    if reader::sym_at(t, j, "."@) && !reader::sym_at(t, j + 1, "*"@) && reader::word_at(t, j + 1)
        is Some {
        assert(j != i);
        assert(j + 1 != i);
        tail_stops(t, j + 2, i);
    }
}

proof fn name_stops(t: Seq<Lexeme>, j: int, i: int)
    requires
        0 <= j <= i,
        firm(t, i),
    ensures
        reader::name_at(t, j) is Some ==> (reader::name_at(t, j)->0).1 <= i,
{
    if j < i {
        tail_stops(t, j + 1, i);
    }
}

proof fn table_stops(t: Seq<Lexeme>, j: int, i: int)
    requires
        0 <= j <= i,
        firm(t, i),
    ensures
        reader::table_at(t, j) is Some ==> (reader::table_at(t, j)->0).1 <= i,
{
    name_stops(t, j, i);
    if j < i {
        name_stops(t, j + 1, i);
    }
}

proof fn list_stops(t: Seq<Lexeme>, j: int, i: int)
    requires
        0 <= j <= i,
        firm(t, i),
    ensures
        reader::table_list(t, j).1 <= i,
    decreases i - j,
{
    table_stops(t, j, i);
    reader::table_advances(t, j);
    if !reader::sym_at(t, j, "("@) {
        match reader::table_at(t, j) {
            Some((name, k)) => {
                if reader::sym_at(t, k, ","@) {
                    assert(k != i);
                    list_stops(t, k + 1, i);
                }
            },
            None => {},
        }
    }
}

#[verifier::spinoff_prover]
#[verifier::rlimit(40)]
proof fn step_stops(t: Seq<Lexeme>, j: int, i: int, first: Option<Kw>, f: Found)
    requires
        0 <= j < i,
        firm(t, i),
        reader::kw_at(t, j) != Some(Kw::Copy),
        !scan::grants(first),
    ensures
        scan::step(t, j, first, f).1 <= i,
{
    name_stops(t, j, i);
    name_stops(t, j + 1, i);
    table_stops(t, j + 1, i);
    list_stops(t, j + 1, i);
    if j + 2 <= i {
        list_stops(t, j + 2, i);
    }
    assert(scan::past_condition(t, j + 1) <= i);
    name_stops(t, scan::past_condition(t, j + 1), i);
}

/// What a scan from `j` has found when it comes to `i`.
spec fn arrived(t: Seq<Lexeme>, j: int, i: int, first: Option<Kw>, f: Found) -> Found
    decreases t.len() - j,
{
    if 0 <= j < i && i <= t.len() {
        proof {
            scan::step_advances(t, j, first, f);
        }
        let (g, next) = scan::step(t, j, first, f);
        arrived(t, next, i, first, g)
    } else {
        f
    }
}

proof fn scan_arrives(t: Seq<Lexeme>, j: int, i: int, first: Option<Kw>, f: Found)
    requires
        0 <= j <= i,
        firm(t, i),
        forall|k: int| j <= k < i ==> reader::kw_at(t, k) != Some(Kw::Copy),
        !scan::grants(first),
    ensures
        scan::scanned(t, j, first, f) == scan::scanned(t, i, first, arrived(t, j, i, first, f)),
    decreases i - j,
{
    if j < i {
        scan::step_advances(t, j, first, f);
        step_stops(t, j, i, first, f);
        let (g, next) = scan::step(t, j, first, f);
        scan_arrives(t, next, i, first, g);
    }
}

/// What was found stays found.
#[verifier::opaque]
spec fn keeps(f: Found, g: Found) -> bool {
    &&& f.read.subset_of(g.read)
    &&& f.written.subset_of(g.written)
    &&& f.objects.subset_of(g.objects)
    &&& f.columns.subset_of(g.columns)
    &&& f.functions.subset_of(g.functions)
    &&& f.procedures.subset_of(g.procedures)
    &&& f.joined.subset_of(g.joined)
    &&& f.predicates.subset_of(g.predicates)
    &&& f.ctes.subset_of(g.ctes)
    &&& f.privileges.subset_of(g.privileges)
    &&& f.roles.subset_of(g.roles)
    &&& f.ddl.subset_of(g.ddl)
    &&& f.has_where ==> g.has_where
    &&& f.grouping ==> g.grouping
    &&& f.ordering ==> g.ordering
    &&& f.wildcard ==> g.wildcard
    &&& f.subqueries <= g.subqueries
    &&& f.copy_source is Some ==> g.copy_source is Some
    &&& f.copy_destination is Some ==> g.copy_destination is Some
    &&& f.target_taken ==> g.target_taken
    &&& f.statement_type is SetRole ==> g.statement_type is SetRole
}

proof fn word_keeps(t: Seq<Lexeme>, i: int, f: Found)
    ensures
        keeps(f, scan::at_word(t, i, f).0),
{
    reveal(keeps);
}

proof fn from_keeps(t: Seq<Lexeme>, i: int, first: Option<Kw>, f: Found)
    ensures
        keeps(f, scan::at_from(t, i, first, f).0),
{
    reveal(keeps);
}

proof fn join_keeps(t: Seq<Lexeme>, i: int, f: Found)
    ensures
        keeps(f, scan::at_join(t, i, f).0),
{
    reveal(keeps);
}

proof fn target_keeps(t: Seq<Lexeme>, i: int, f: Found)
    ensures
        keeps(f, scan::at_target(t, i, f).0),
{
    reveal(keeps);
}

proof fn table_keeps(t: Seq<Lexeme>, i: int, first: Option<Kw>, f: Found)
    ensures
        keeps(f, scan::at_table(t, i, first, f).0),
{
    reveal(keeps);
}

proof fn definition_keeps(t: Seq<Lexeme>, i: int, f: Found)
    ensures
        keeps(f, scan::at_definition(t, i, f).0),
{
    reveal(keeps);
}

proof fn truncate_keeps(t: Seq<Lexeme>, i: int, f: Found)
    ensures
        keeps(f, scan::at_truncate(t, i, f).0),
{
    reveal(keeps);
}

proof fn copy_keeps(t: Seq<Lexeme>, i: int, f: Found)
    ensures
        keeps(f, scan::at_copy(t, i, f).0),
{
    reveal(keeps);
}

proof fn call_keeps(t: Seq<Lexeme>, i: int, f: Found)
    ensures
        keeps(f, scan::at_call(t, i, f).0),
{
    reveal(keeps);
}

proof fn role_keeps(t: Seq<Lexeme>, i: int, f: Found)
    ensures
        keeps(f, scan::at_role(t, i, f).0),
{
    reveal(keeps);
}

proof fn privilege_keeps(t: Seq<Lexeme>, i: int, f: Found)
    ensures
        keeps(f, scan::at_privilege(t, i, f).0),
{
    reveal(keeps);
}

proof fn with_keeps(t: Seq<Lexeme>, i: int, f: Found)
    ensures
        keeps(f, scan::at_with(t, i, f).0),
{
    reveal(keeps);
}

proof fn noticing_keeps(t: Seq<Lexeme>, i: int, f: Found)
    ensures
        keeps(f, scan::noticed(t, i, f)),
{
    reveal(keeps);
}

proof fn keeps_on(f: Found, g: Found, h: Found)
    requires
        keeps(f, g),
        keeps(g, h),
    ensures
        keeps(f, h),
{
    reveal(keeps);
}

proof fn keyword_keeps(t: Seq<Lexeme>, i: int, first: Option<Kw>, k: Kw, f: Found)
    ensures
        keeps(f, scan::at_keyword(t, i, first, k, f).0),
{
    match k {
        Kw::With => with_keeps(t, i, f),
        Kw::From => from_keeps(t, i, first, f),
        Kw::Join | Kw::Using => join_keeps(t, i, f),
        Kw::Into | Kw::Update => target_keeps(t, i, f),
        Kw::Table => table_keeps(t, i, first, f),
        Kw::View | Kw::Index => definition_keeps(t, i, f),
        Kw::Truncate => truncate_keeps(t, i, f),
        Kw::Copy => copy_keeps(t, i, f),
        Kw::Call | Kw::Execute => call_keeps(t, i, f),
        Kw::Role | Kw::Authorization => {
            role_keeps(t, i, f);
            reveal(keeps);
        },
        Kw::On => {
            privilege_keeps(t, i, f);
            reveal(keeps);
        },
        _ => {
            reveal(keeps);
        },
    }
}

proof fn step_keeps(t: Seq<Lexeme>, i: int, first: Option<Kw>, f: Found)
    ensures
        keeps(f, scan::step(t, i, first, f).0),
{
    let g = scan::noticed(t, i, f);
    noticing_keeps(t, i, f);
    match reader::kw_at(t, i) {
        Some(k) => {
            keyword_keeps(t, i, first, k, g);
            keeps_on(f, g, scan::at_keyword(t, i, first, k, g).0);
        },
        None => {
            word_keeps(t, i, g);
            keeps_on(f, g, scan::at_word(t, i, g).0);
        },
    }
}

proof fn scan_keeps(t: Seq<Lexeme>, i: int, first: Option<Kw>, f: Found)
    ensures
        keeps(f, scan::scanned(t, i, first, f)),
    decreases t.len() - i,
{
    if 0 <= i < t.len() {
        scan::step_advances(t, i, first, f);
        step_keeps(t, i, first, f);
        let (g, next) = scan::step(t, i, first, f);
        scan_keeps(t, next, first, g);
        keeps_on(f, g, scan::scanned(t, next, first, g));
    } else {
        reveal(keeps);
    }
}

/// The first keyword of the statement is the word.
pub open spec fn begins_with(t: Seq<Lexeme>, word: Seq<char>) -> bool {
    exists|p: int| #[trigger]
        keyword_at(t, p, word) && forall|q: int| 0 <= q < p ==> !is_keyword(#[trigger] t[q])
}

/// A word that is spelled like a keyword and unquoted.
pub open spec fn is_keyword(l: Lexeme) -> bool {
    match l {
        Lexeme::Word { value, quoted, keyword } => !quoted && keyword,
        _ => false,
    }
}

proof fn first_keyword(t: Seq<Lexeme>, i: int)
    requires
        0 <= i,
    ensures
        match scan::first_kw(t, i) {
            Some(k) => exists|p: int|
                i <= p < t.len() && #[trigger] reader::kw_at(t, p) == Some(k) && forall|q: int|
                    i <= q < p ==> !is_keyword(#[trigger] t[q]),
            None => forall|q: int| i <= q < t.len() ==> !is_keyword(#[trigger] t[q]),
        },
    decreases t.len() - i,
{
    if i < t.len() {
        if reader::kw_at(t, i) is Some {
            assert(reader::kw_at(t, i) == scan::first_kw(t, i));
        } else {
            first_keyword(t, i + 1);
            assert(!is_keyword(t[i]));
            if scan::first_kw(t, i + 1) is Some {
                let k = scan::first_kw(t, i + 1)->0;
                let p = choose|p: int|
                    i + 1 <= p < t.len() && #[trigger] reader::kw_at(t, p) == Some(k) && forall|
                        q: int,
                    |
                        i + 1 <= q < p ==> !is_keyword(#[trigger] t[q]);
                assert(reader::kw_at(t, p) == Some(k));
            }
        }
    }
}

/// What the statement begins with decides what the scan begins with.
proof fn beginnings(t: Seq<Lexeme>)
    ensures
        begins_with(t, "DELETE"@) == (scan::first_kw(t, 0) == Some(Kw::Delete)),
        begins_with(t, "GRANT"@) == (scan::first_kw(t, 0) == Some(Kw::Grant)),
        begins_with(t, "REVOKE"@) == (scan::first_kw(t, 0) == Some(Kw::Revoke)),
        begins_with(t, "INSERT"@) == (scan::first_kw(t, 0) == Some(Kw::Insert)),
        begins_with(t, "SELECT"@) == (scan::first_kw(t, 0) == Some(Kw::Select)),
        begins_with(t, "WITH"@) == (scan::first_kw(t, 0) == Some(Kw::With)),
        begins_with(t, "UPDATE"@) == (scan::first_kw(t, 0) == Some(Kw::Update)),
        begins_with(t, "COPY"@) == (scan::first_kw(t, 0) == Some(Kw::Copy)),
        begins_with(t, "SET"@) == (scan::first_kw(t, 0) == Some(Kw::SetWord)),
        begins_with(t, "MERGE"@) == (scan::first_kw(t, 0) == Some(Kw::Merge)),
        begins_with(t, "TRUNCATE"@) == (scan::first_kw(t, 0) == Some(Kw::Truncate)),
        begins_with(t, "CALL"@) == (scan::first_kw(t, 0) == Some(Kw::Call)),
        begins_with(t, "EXECUTE"@) == (scan::first_kw(t, 0) == Some(Kw::Execute)),
        begins_with(t, "CREATE"@) == (scan::first_kw(t, 0) == Some(Kw::Create)),
        begins_with(t, "ALTER"@) == (scan::first_kw(t, 0) == Some(Kw::Alter)),
        begins_with(t, "DROP"@) == (scan::first_kw(t, 0) == Some(Kw::Drop)),
        begins_with(t, "ANALYZE"@) == (scan::first_kw(t, 0) == Some(Kw::Analyze)),
        begins_with(t, "EXPLAIN"@) == (scan::first_kw(t, 0) == Some(Kw::Explain)),
{
    keywords_are_spelled();
    begins(t, "DELETE"@, Kw::Delete);
    begins(t, "GRANT"@, Kw::Grant);
    begins(t, "REVOKE"@, Kw::Revoke);
    begins(t, "INSERT"@, Kw::Insert);
    begins(t, "SELECT"@, Kw::Select);
    begins(t, "WITH"@, Kw::With);
    begins(t, "UPDATE"@, Kw::Update);
    begins(t, "COPY"@, Kw::Copy);
    begins(t, "SET"@, Kw::SetWord);
    begins(t, "MERGE"@, Kw::Merge);
    begins(t, "TRUNCATE"@, Kw::Truncate);
    begins(t, "CALL"@, Kw::Call);
    begins(t, "EXECUTE"@, Kw::Execute);
    begins(t, "CREATE"@, Kw::Create);
    begins(t, "ALTER"@, Kw::Alter);
    begins(t, "DROP"@, Kw::Drop);
    begins(t, "ANALYZE"@, Kw::Analyze);
    begins(t, "EXPLAIN"@, Kw::Explain);
}

proof fn begins(t: Seq<Lexeme>, word: Seq<char>, k: Kw)
    requires
        keyword::kw_of(word) == k,
        forall|w: Seq<char>| #[trigger] keyword::kw_of(w) == k ==> w == word,
    ensures
        begins_with(t, word) == (scan::first_kw(t, 0) == Some(k)),
{
    first_keyword(t, 0);
    if begins_with(t, word) {
        let p = choose|p: int| #[trigger]
            keyword_at(t, p, word) && forall|q: int| 0 <= q < p ==> !is_keyword(#[trigger] t[q]);
        assert(is_keyword(t[p]));
        assert(reader::kw_at(t, p) == Some(k));
        match scan::first_kw(t, 0) {
            Some(m) => {
                let r = choose|r: int|
                    0 <= r < t.len() && #[trigger] reader::kw_at(t, r) == Some(m) && forall|q: int|
                        0 <= q < r ==> !is_keyword(#[trigger] t[q]);
                assert(is_keyword(t[r]));
                assert(p == r);
            },
            None => {},
        }
    }
    if scan::first_kw(t, 0) == Some(k) {
        let r = choose|r: int|
            0 <= r < t.len() && #[trigger] reader::kw_at(t, r) == Some(k) && forall|q: int|
                0 <= q < r ==> !is_keyword(#[trigger] t[q]);
        assert(keyword_at(t, r, word));
    }
}

/// The tokens that are not white space.
pub open spec fn tokens(l: Seq<Lexeme>) -> Seq<Lexeme> {
    l.filter(|x: Lexeme| !(x is Space))
}

/// The scan goes over all tokens but white space.
pub proof fn only_space_is_left_out(l: Seq<Lexeme>)
    ensures
        reader::unspaced(l) == tokens(l),
    decreases l.len(),
{
    reveal(Seq::filter);
    if l.len() > 0 {
        only_space_is_left_out(l.drop_last());
    }
}

/// A keyword that begins a clause stands at `m`, and not behind a dot.
pub open spec fn clause_word(t: Seq<Lexeme>, m: int) -> bool {
    &&& keyword_at(t, m, "FROM"@) || keyword_at(t, m, "JOIN"@) || keyword_at(t, m, "USING"@)
        || keyword_at(t, m, "INTO"@) || keyword_at(t, m, "WHERE"@) || keyword_at(t, m, "ORDER"@)
        || keyword_at(t, m, "GROUP"@) || keyword_at(t, m, "LIMIT"@)
    &&& m > 0 ==> t[m - 1] != Lexeme::Symbol("."@)
}

/// The name stands at `j` behind the keyword at `i`, with no other clause between them
/// but in a subquery.
pub open spec fn stands(t: Seq<Lexeme>, i: int, j: int, word: Seq<char>, name: Seq<char>) -> bool {
    &&& keyword_at(t, i, word)
    &&& i < j < t.len()
    &&& reader::name_at(t, j) is Some
    &&& (reader::name_at(t, j)->0).0 == name
    &&& (exists|p: int| i < p < j && #[trigger] t[p] == Lexeme::Symbol("("@)) || (forall|m: int|
        i < m < j ==> !#[trigger] clause_word(t, m))
}

/// The name stands behind the keyword.
pub open spec fn behind(t: Seq<Lexeme>, word: Seq<char>, name: Seq<char>) -> bool {
    exists|i: int, j: int| #[trigger] stands(t, i, j, word, name)
}

proof fn clauses_stand_firm(t: Seq<Lexeme>, m: int)
    requires
        clause_word(t, m),
    ensures
        firm(t, m),
{
    keywords_are_spelled();
    reveal_strlit("FROM");
    reveal_strlit("JOIN");
    reveal_strlit("INTO");
    reveal_strlit("USING");
    reveal_strlit("WHERE");
    reveal_strlit("ORDER");
    reveal_strlit("GROUP");
    reveal_strlit("LIMIT");
    reveal_strlit("if");
    reveal_strlit("not");
    reveal_strlit("exists");
    assert("FROM"@.len() == 4 && "JOIN"@.len() == 4 && "INTO"@.len() == 4 && "USING"@.len() == 5
        && "WHERE"@.len() == 5 && "ORDER"@.len() == 5 && "GROUP"@.len() == 5 && "LIMIT"@.len() == 5
        && "if"@.len() == 2 && "not"@.len() == 3 && "exists"@.len() == 6);
    match t[m] {
        Lexeme::Word { value, quoted, keyword } => {
            assert(text::upper(value).len() == value.len());
            assert(text::lower(value).len() == value.len());
        },
        _ => {},
    }
}

/// Where a name of a list stands.
spec fn in_list(t: Seq<Lexeme>, s: int, j: int, name: Seq<char>) -> bool {
    &&& s <= j < t.len()
    &&& reader::name_at(t, j) is Some
    &&& (reader::name_at(t, j)->0).0 == name
    &&& (exists|p: int| s <= p < j && #[trigger] t[p] == Lexeme::Symbol("("@)) || (forall|m: int|
        s <= m < j ==> !#[trigger] clause_word(t, m))
}

proof fn table_is_placed(t: Seq<Lexeme>, s: int)
    requires
        0 <= s,
        reader::table_at(t, s) is Some,
    ensures
        exists|j: int| #[trigger] in_list(t, s, j, (reader::table_at(t, s)->0).0),
        forall|m: int| s <= m < (reader::table_at(t, s)->0).1 ==> !#[trigger] clause_word(t, m),
{
    let name = (reader::table_at(t, s)->0).0;
    let j = if reader::kw_at(t, s) == Some(Kw::Only) {
        s + 1
    } else {
        s
    };
    assert forall|m: int| s <= m < (reader::table_at(t, s)->0).1 implies !#[trigger] clause_word(
        t,
        m,
    ) by {
        if clause_word(t, m) {
            clauses_stand_firm(t, m);
            table_stops(t, s, m);
        }
    }
    reader::name_advances(t, j);
    table_runs_on(t, s);
    assert(in_list(t, s, j, name));
}

proof fn table_runs_on(t: Seq<Lexeme>, s: int)
    requires
        reader::table_at(t, s) is Some,
        0 <= s,
    ensures
        ({
            let j = if reader::kw_at(t, s) == Some(Kw::Only) {
                s + 1
            } else {
                s
            };
            j < (reader::table_at(t, s)->0).1
        }),
{
    reader::name_advances(t, s);
    reader::name_advances(t, s + 1);
}

proof fn later_tables_are_placed(t: Seq<Lexeme>, j: int, name: Seq<char>)
    requires
        0 <= j,
        reader::tables_after(t, j).contains(name),
    ensures
        exists|k: int|
            j < k < t.len() && reader::name_at(t, k) is Some && (#[trigger] reader::name_at(t, k)->0).0
                == name,
    decreases t.len() - j,
{
    reader::parens_advance(t, j + 1, 0);
    reader::table_advances(t, j + 1);
    if !reader::sym_at(t, j, ","@) {
    } else if reader::sym_at(t, j + 1, "("@) {
        later_tables_are_placed(
            t,
            reader::past_alias(t, reader::past_parens(t, j + 1)),
            name,
        );
    } else {
        match reader::table_at(t, j + 1) {
            Some((first, next)) => {
                if first == name {
                    table_is_placed(t, j + 1);
                    let k = choose|k: int| #[trigger] in_list(t, j + 1, k, name);
                    assert((reader::name_at(t, k)->0).0 == name);
                } else {
                    let rest = reader::tables_after(t, next);
                    assert(rest.contains(name)) by {
                        let all = seq![first] + rest;
                        let x = choose|x: int| 0 <= x < all.len() && all[x] == name;
                        assert(rest[x - 1] == name);
                    }
                    later_tables_are_placed(t, next, name);
                }
            },
            None => {},
        }
    }
}

proof fn list_is_placed(t: Seq<Lexeme>, s: int, name: Seq<char>)
    requires
        0 <= s,
        reader::table_list(t, s).0.contains(name),
    ensures
        exists|j: int| #[trigger] in_list(t, s, j, name),
    decreases t.len() - s,
{
    reader::table_advances(t, s);
    if reader::sym_at(t, s, "("@) {
        reader::parens_advance(t, s, 0);
        later_tables_are_placed(t, reader::past_alias(t, reader::past_parens(t, s)), name);
        let past = reader::past_alias(t, reader::past_parens(t, s));
        let k = choose|k: int|
            past < k < t.len() && reader::name_at(t, k) is Some && (#[trigger] reader::name_at(
                t,
                k,
            )->0).0 == name;
        assert(t[s] == Lexeme::Symbol("("@));
        assert(in_list(t, s, k, name));
    } else {
        match reader::table_at(t, s) {
            Some((first, k)) => {
                table_is_placed(t, s);
                if first == name {
                } else if reader::sym_at(t, k, ","@) {
                    let rest = reader::table_list(t, k + 1).0;
                    assert(rest.contains(name)) by {
                        let all = seq![first] + rest;
                        let x = choose|x: int| 0 <= x < all.len() && all[x] == name;
                        assert(rest[x - 1] == name);
                    }
                    list_is_placed(t, k + 1, name);
                    let j = choose|j: int| #[trigger] in_list(t, k + 1, j, name);
                    if exists|p: int| k + 1 <= p < j && #[trigger] t[p] == Lexeme::Symbol("("@) {
                        let p = choose|p: int|
                            k + 1 <= p < j && #[trigger] t[p] == Lexeme::Symbol("("@);
                        assert(s <= p < j);
                    } else {
                        assert forall|m: int| s <= m < j implies !#[trigger] clause_word(t, m) by {
                            if m == k {
                                assert(t[k] == Lexeme::Symbol(","@));
                            }
                        }
                    }
                    assert(in_list(t, s, j, name));
                }
            },
            None => {},
        }
    }
}

/// The name stands somewhere behind the keyword.
pub open spec fn after(t: Seq<Lexeme>, word: Seq<char>, name: Seq<char>) -> bool {
    exists|i: int, j: int| #[trigger] follows(t, i, j, word, name)
}

/// The name stands at `j` and the keyword before it at `i`.
pub open spec fn follows(t: Seq<Lexeme>, i: int, j: int, word: Seq<char>, name: Seq<char>) -> bool {
    &&& keyword_at(t, i, word)
    &&& i < j < t.len()
    &&& reader::name_at(t, j) is Some
    &&& (reader::name_at(t, j)->0).0 == name
}

/// Where a name may stand that is written.
pub open spec fn written_place(t: Seq<Lexeme>, name: Seq<char>) -> bool {
    ||| behind(t, "INTO"@, name)
    ||| behind(t, "UPDATE"@, name)
    ||| behind(t, "TABLE"@, name)
    ||| behind(t, "TRUNCATE"@, name)
    ||| behind(t, "COPY"@, name)
    ||| begins_with(t, "DELETE"@) && behind(t, "FROM"@, name)
}

/// Where a name may stand that is read.
pub open spec fn read_place(t: Seq<Lexeme>, name: Seq<char>) -> bool {
    ||| behind(t, "FROM"@, name) && !begins_with(t, "REVOKE"@)
    ||| behind(t, "JOIN"@, name)
    ||| behind(t, "USING"@, name)
    ||| behind(t, "COPY"@, name)
}

/// The word stands somewhere as a keyword.
pub open spec fn has_keyword(t: Seq<Lexeme>, word: Seq<char>) -> bool {
    exists|i: int| #[trigger] keyword_at(t, i, word)
}

/// The number behind some `LIMIT`.
pub open spec fn limited_to(t: Seq<Lexeme>, n: u64) -> bool {
    exists|i: int| #[trigger]
        keyword_at(t, i, "LIMIT"@) && i + 1 < t.len() && match t[i + 1] {
            Lexeme::Number(d) => crate::numerals::read_u64(d) == Some(n),
            _ => false,
        }
}

/// The qualified name stands somewhere and is not called.
pub open spec fn column_place(t: Seq<Lexeme>, name: Seq<char>) -> bool {
    &&& text::has_char(name, '.')
    &&& exists|j: int|
        reader::name_at(t, j) is Some && (#[trigger] reader::name_at(t, j)->0).0 == name
            && !reader::sym_at(t, (reader::name_at(t, j)->0).1, "("@)
}

/// The word stands directly before a parenthesis.
pub open spec fn called_place(t: Seq<Lexeme>, name: Seq<char>) -> bool {
    exists|j: int|
        #[trigger] reader::word_at(t, j) == Some(name) && reader::sym_at(t, j + 1, "("@)
}

#[verifier::opaque]
spec fn placed(t: Seq<Lexeme>, f: Found) -> bool {
    &&& forall|n: Seq<char>| #[trigger] f.written.contains(n) ==> written_place(t, n)
    &&& forall|n: Seq<char>| #[trigger] f.read.contains(n) ==> read_place(t, n)
    &&& forall|n: Seq<char>| #[trigger]
        f.joined.contains(n) ==> (behind(t, "JOIN"@, n) || behind(t, "USING"@, n)) && f.read.contains(n)
    &&& forall|n: Seq<char>| #[trigger]
        f.ddl.contains(n) ==> behind(t, "TABLE"@, n) || behind(t, "VIEW"@, n) || behind(
            t,
            "INDEX"@,
            n,
        ) || behind(t, "TRUNCATE"@, n)
    &&& forall|n: Seq<char>| #[trigger]
        f.procedures.contains(n) ==> behind(t, "CALL"@, n) || behind(t, "EXECUTE"@, n)
    &&& forall|n: Seq<char>| #[trigger]
        f.roles.contains(n) ==> begins_with(t, "SET"@) && (behind(t, "ROLE"@, n) || behind(
            t,
            "AUTHORIZATION"@,
            n,
        ))
    &&& forall|n: Seq<char>| #[trigger]
        f.privileges.contains(n) ==> (begins_with(t, "GRANT"@) || begins_with(t, "REVOKE"@)) && (
        after(t, "ON"@, n) || after(t, "TABLE"@, n))
    &&& forall|n: Seq<char>| #[trigger]
        f.objects.contains(n) == (f.read.contains(n) || f.written.contains(n) || f.ddl.contains(n)
            || f.privileges.contains(n))
    &&& forall|n: Seq<char>| #[trigger] f.columns.contains(n) ==> column_place(t, n)
    &&& forall|n: Seq<char>| #[trigger]
        f.predicates.contains(n) ==> f.columns.contains(n) && f.has_where
    &&& forall|n: Seq<char>| #[trigger] f.functions.contains(n) ==> called_place(t, n)
    &&& f.region is Predicate ==> f.has_where
    &&& f.has_where ==> has_keyword(t, "WHERE"@)
    &&& f.grouping ==> has_keyword(t, "GROUP"@)
    &&& f.ordering ==> has_keyword(t, "ORDER"@)
    &&& f.wildcard ==> exists|i: int| 0 <= i < t.len() && #[trigger] t[i] == Lexeme::Symbol("*"@)
    &&& f.limit is Some ==> limited_to(t, f.limit->0)
    &&& f.copy_source is Some ==> has_keyword(t, "COPY"@)
    &&& f.copy_source is Some && f.copy_source->0 != "(subquery)"@ ==> behind(
        t,
        "COPY"@,
        f.copy_source->0,
    )
    &&& f.copy_destination is Some ==> behind(t, "COPY"@, f.copy_destination->0)
        && f.written.contains(f.copy_destination->0)
    &&& f.statement_type is SetRole ==> begins_with(t, "SET"@)
}

/// The keyword at `i`, by its spelling.
proof fn spelled_at(t: Seq<Lexeme>, i: int, k: Kw, word: Seq<char>)
    requires
        reader::kw_at(t, i) == Some(k),
        forall|w: Seq<char>| #[trigger] keyword::kw_of(w) == k ==> w == word,
    ensures
        keyword_at(t, i, word),
{
}

proof fn table_stands(t: Seq<Lexeme>, i: int, word: Seq<char>)
    requires
        keyword_at(t, i, word),
        reader::table_at(t, i + 1) is Some,
    ensures
        behind(t, word, (reader::table_at(t, i + 1)->0).0),
{
    let name = (reader::table_at(t, i + 1)->0).0;
    table_is_placed(t, i + 1);
    let j = choose|j: int| #[trigger] in_list(t, i + 1, j, name);
    assert(stands(t, i, j, word, name));
}

proof fn list_stands(t: Seq<Lexeme>, i: int, s: int, word: Seq<char>, name: Seq<char>)
    requires
        keyword_at(t, i, word),
        s == i + 1 || (s == i + 2 && !clause_word(t, i + 1)),
        reader::table_list(t, s).0.contains(name),
    ensures
        behind(t, word, name),
{
    list_is_placed(t, s, name);
    let j = choose|j: int| #[trigger] in_list(t, s, j, name);
    if exists|p: int| s <= p < j && #[trigger] t[p] == Lexeme::Symbol("("@) {
        let p = choose|p: int| s <= p < j && #[trigger] t[p] == Lexeme::Symbol("("@);
        assert(i < p < j);
    }
    assert(stands(t, i, j, word, name));
}

proof fn name_stands(t: Seq<Lexeme>, i: int, word: Seq<char>)
    requires
        keyword_at(t, i, word),
        reader::name_at(t, i + 1) is Some,
    ensures
        behind(t, word, (reader::name_at(t, i + 1)->0).0),
{
    reader::name_advances(t, i + 1);
    assert(stands(t, i, i + 1, word, (reader::name_at(t, i + 1)->0).0));
}

proof fn conditional_name_stands(t: Seq<Lexeme>, i: int, word: Seq<char>)
    requires
        keyword_at(t, i, word),
        reader::name_at(t, scan::past_condition(t, i + 1)) is Some,
    ensures
        behind(t, word, (reader::name_at(t, scan::past_condition(t, i + 1))->0).0),
        after(t, word, (reader::name_at(t, scan::past_condition(t, i + 1))->0).0),
{
    let j = scan::past_condition(t, i + 1);
    let name = (reader::name_at(t, j)->0).0;
    reader::name_advances(t, j);
    assert forall|m: int| i < m < j implies !#[trigger] clause_word(t, m) by {
        if clause_word(t, m) {
            clauses_stand_firm(t, m);
        }
    }
    assert(stands(t, i, j, word, name));
    assert(follows(t, i, j, word, name));
}

proof fn noticing_places(t: Seq<Lexeme>, i: int, f: Found)
    requires
        placed(t, f),
    ensures
        placed(t, scan::noticed(t, i, f)),
{
    reveal(placed);
    if scan::function_called(t, i) is Some {
        assert(called_place(t, scan::function_called(t, i)->0));
    }
}

proof fn word_places(t: Seq<Lexeme>, i: int, f: Found)
    requires
        placed(t, f),
        0 <= i < t.len(),
    ensures
        placed(t, scan::at_word(t, i, f).0),
{
    reveal(placed);
    if reader::sym_at(t, i, "*"@) {
        assert(t[i] == Lexeme::Symbol("*"@));
    }
    match reader::name_at(t, i) {
        Some((name, next)) => {
            if text::has_char(name, '.') && !reader::sym_at(t, next, "("@) {
                assert((reader::name_at(t, i)->0).0 == name);
                assert(column_place(t, name));
            }
        },
        None => {},
    }
}

proof fn from_places(t: Seq<Lexeme>, i: int, f: Found)
    requires
        placed(t, f),
        keyword_at(t, i, "FROM"@),
    ensures
        placed(t, scan::at_from(t, i, scan::first_kw(t, 0), f).0),
{
    reveal(placed);
    beginnings(t);
    let first = scan::first_kw(t, 0);
    let (names, next) = reader::table_list(t, i + 1);
    assert forall|n: Seq<char>| #[trigger] names.to_set().contains(n) implies behind(
        t,
        "FROM"@,
        n,
    ) by {
        assert(names.contains(n));
        list_stands(t, i, i + 1, "FROM"@, n);
    }
}

proof fn join_places(t: Seq<Lexeme>, i: int, f: Found)
    requires
        placed(t, f),
        keyword_at(t, i, "JOIN"@) || keyword_at(t, i, "USING"@),
    ensures
        placed(t, scan::at_join(t, i, f).0),
{
    reveal(placed);
    if reader::table_at(t, i + 1) is Some {
        if keyword_at(t, i, "JOIN"@) {
            table_stands(t, i, "JOIN"@);
        } else {
            table_stands(t, i, "USING"@);
        }
    }
}

proof fn target_places(t: Seq<Lexeme>, i: int, f: Found)
    requires
        placed(t, f),
        keyword_at(t, i, "INTO"@) || keyword_at(t, i, "UPDATE"@),
    ensures
        placed(t, scan::at_target(t, i, f).0),
{
    reveal(placed);
    if reader::table_at(t, i + 1) is Some {
        if keyword_at(t, i, "INTO"@) {
            table_stands(t, i, "INTO"@);
        } else {
            table_stands(t, i, "UPDATE"@);
        }
    }
}

proof fn table_places(t: Seq<Lexeme>, i: int, f: Found)
    requires
        placed(t, f),
        keyword_at(t, i, "TABLE"@),
    ensures
        placed(t, scan::at_table(t, i, scan::first_kw(t, 0), f).0),
{
    reveal(placed);
    beginnings(t);
    if reader::name_at(t, scan::past_condition(t, i + 1)) is Some {
        conditional_name_stands(t, i, "TABLE"@);
    }
}

proof fn definition_places(t: Seq<Lexeme>, i: int, f: Found)
    requires
        placed(t, f),
        keyword_at(t, i, "VIEW"@) || keyword_at(t, i, "INDEX"@),
    ensures
        placed(t, scan::at_definition(t, i, f).0),
{
    reveal(placed);
    if reader::name_at(t, scan::past_condition(t, i + 1)) is Some {
        if keyword_at(t, i, "VIEW"@) {
            conditional_name_stands(t, i, "VIEW"@);
        } else {
            conditional_name_stands(t, i, "INDEX"@);
        }
    }
}

proof fn truncate_places(t: Seq<Lexeme>, i: int, f: Found)
    requires
        placed(t, f),
        keyword_at(t, i, "TRUNCATE"@),
    ensures
        placed(t, scan::at_truncate(t, i, f).0),
{
    reveal(placed);
    let j = if reader::kw_at(t, i + 1) == Some(Kw::Table) {
        i + 2
    } else {
        i + 1
    };
    let (names, next) = reader::table_list(t, j);
    if clause_word(t, i + 1) {
        clauses_stand_firm(t, i + 1);
    }
    assert forall|n: Seq<char>| #[trigger] names.to_set().contains(n) implies behind(
        t,
        "TRUNCATE"@,
        n,
    ) by {
        assert(names.contains(n));
        list_stands(t, i, j, "TRUNCATE"@, n);
    }
}

proof fn copy_places(t: Seq<Lexeme>, i: int, f: Found)
    requires
        placed(t, f),
        keyword_at(t, i, "COPY"@),
    ensures
        placed(t, scan::at_copy(t, i, f).0),
{
    reveal(placed);
    if reader::name_at(t, i + 1) is Some {
        name_stands(t, i, "COPY"@);
    }
}

proof fn call_places(t: Seq<Lexeme>, i: int, f: Found)
    requires
        placed(t, f),
        keyword_at(t, i, "CALL"@) || keyword_at(t, i, "EXECUTE"@),
    ensures
        placed(t, scan::at_call(t, i, f).0),
{
    reveal(placed);
    if reader::name_at(t, i + 1) is Some {
        if keyword_at(t, i, "CALL"@) {
            name_stands(t, i, "CALL"@);
        } else {
            name_stands(t, i, "EXECUTE"@);
        }
    }
}

proof fn role_places(t: Seq<Lexeme>, i: int, f: Found)
    requires
        placed(t, f),
        keyword_at(t, i, "ROLE"@) || keyword_at(t, i, "AUTHORIZATION"@),
        begins_with(t, "SET"@),
    ensures
        placed(t, scan::at_role(t, i, f).0),
{
    reveal(placed);
    if reader::name_at(t, i + 1) is Some {
        if keyword_at(t, i, "ROLE"@) {
            name_stands(t, i, "ROLE"@);
        } else {
            name_stands(t, i, "AUTHORIZATION"@);
        }
    }
}

proof fn names_follow(t: Seq<Lexeme>, i: int, j: int, name: Seq<char>)
    requires
        keyword_at(t, i, "ON"@),
        i < j,
        scan::name_list(t, j).0.contains(name),
    ensures
        after(t, "ON"@, name),
    decreases t.len() - j,
{
    reader::name_advances(t, j);
    match reader::name_at(t, j) {
        Some((first, next)) => {
            if first == name {
                assert(follows(t, i, j, "ON"@, name));
            } else {
                let rest = scan::name_list(t, next + 1).0;
                assert(rest.contains(name)) by {
                    let all = seq![first] + rest;
                    let x = choose|x: int| 0 <= x < scan::name_list(t, j).0.len() && scan::name_list(
                        t,
                        j,
                    ).0[x] == name;
                    assert(reader::sym_at(t, next, ","@));
                    assert(all[x] == name);
                    assert(rest[x - 1] == name);
                }
                names_follow(t, i, next + 1, name);
            }
        },
        None => {},
    }
}

proof fn schema_is_behind(t: Seq<Lexeme>, j: int)
    ensures
        j <= scan::schema_from(t, j),
    decreases t.len() - j,
{
    if !(j >= t.len() || reader::kw_at(t, j) == Some(Kw::Schema) || reader::sym_at(t, j, ";"@)
        || reader::kw_at(t, j) == Some(Kw::To) || reader::kw_at(t, j) == Some(Kw::From)) {
        schema_is_behind(t, j + 1);
    }
}

proof fn privilege_places(t: Seq<Lexeme>, i: int, f: Found)
    requires
        placed(t, f),
        keyword_at(t, i, "ON"@),
        begins_with(t, "GRANT"@) || begins_with(t, "REVOKE"@),
    ensures
        placed(t, scan::at_privilege(t, i, f).0),
{
    reveal(placed);
    if reader::kw_at(t, i + 1) == Some(Kw::All) {
        let j = scan::schema_from(t, i + 1);
        schema_is_behind(t, i + 1);
        if reader::name_at(t, j + 1) is Some {
            reader::name_advances(t, j + 1);
            assert(follows(t, i, j + 1, "ON"@, (reader::name_at(t, j + 1)->0).0));
        }
    } else {
        let j = if reader::kw_at(t, i + 1) is Some && (reader::kw_at(t, i + 1)->0).object_class() {
            i + 2
        } else {
            i + 1
        };
        let (names, next) = scan::name_list(t, j);
        assert forall|n: Seq<char>| #[trigger] names.to_set().contains(n) implies after(
            t,
            "ON"@,
            n,
        ) by {
            assert(names.contains(n));
            names_follow(t, i, j, n);
        }
    }
}

proof fn keyword_places(t: Seq<Lexeme>, i: int, k: Kw, f: Found)
    requires
        placed(t, f),
        reader::kw_at(t, i) == Some(k),
    ensures
        placed(t, scan::at_keyword(t, i, scan::first_kw(t, 0), k, f).0),
{
    let first = scan::first_kw(t, 0);
    beginnings(t);
    match k {
        Kw::With => {
            reveal(placed);
        },
        Kw::From => {
            spelled_at(t, i, k, "FROM"@);
            from_places(t, i, f);
        },
        Kw::Join => {
            spelled_at(t, i, k, "JOIN"@);
            join_places(t, i, f);
        },
        Kw::Using => {
            spelled_at(t, i, k, "USING"@);
            join_places(t, i, f);
        },
        Kw::Into => {
            spelled_at(t, i, k, "INTO"@);
            target_places(t, i, f);
        },
        Kw::Update => {
            spelled_at(t, i, k, "UPDATE"@);
            target_places(t, i, f);
        },
        Kw::Table => {
            spelled_at(t, i, k, "TABLE"@);
            table_places(t, i, f);
        },
        Kw::View => {
            spelled_at(t, i, k, "VIEW"@);
            definition_places(t, i, f);
        },
        Kw::Index => {
            spelled_at(t, i, k, "INDEX"@);
            definition_places(t, i, f);
        },
        Kw::Truncate => {
            spelled_at(t, i, k, "TRUNCATE"@);
            truncate_places(t, i, f);
        },
        Kw::Copy => {
            spelled_at(t, i, k, "COPY"@);
            copy_places(t, i, f);
        },
        Kw::Call => {
            spelled_at(t, i, k, "CALL"@);
            call_places(t, i, f);
        },
        Kw::Execute => {
            spelled_at(t, i, k, "EXECUTE"@);
            call_places(t, i, f);
        },
        Kw::Role => {
            spelled_at(t, i, k, "ROLE"@);
            if first == Some(Kw::SetWord) {
                role_places(t, i, f);
            }
        },
        Kw::Authorization => {
            spelled_at(t, i, k, "AUTHORIZATION"@);
            if first == Some(Kw::SetWord) {
                role_places(t, i, f);
            }
        },
        Kw::On => {
            spelled_at(t, i, k, "ON"@);
            if scan::grants(first) {
                privilege_places(t, i, f);
            }
        },
        Kw::Where => {
            spelled_at(t, i, k, "WHERE"@);
            reveal(placed);
        },
        Kw::Group => {
            spelled_at(t, i, k, "GROUP"@);
            reveal(placed);
        },
        Kw::Order => {
            spelled_at(t, i, k, "ORDER"@);
            reveal(placed);
        },
        Kw::Limit => {
            spelled_at(t, i, k, "LIMIT"@);
            reveal(placed);
        },
        _ => {
            reveal(placed);
        },
    }
}

proof fn scan_places(t: Seq<Lexeme>, i: int, f: Found)
    requires
        placed(t, f),
        0 <= i,
    ensures
        placed(t, scan::scanned(t, i, scan::first_kw(t, 0), f)),
    decreases t.len() - i,
{
    let first = scan::first_kw(t, 0);
    if i < t.len() {
        scan::step_advances(t, i, first, f);
        let g = scan::noticed(t, i, f);
        noticing_places(t, i, f);
        match reader::kw_at(t, i) {
            Some(k) => keyword_places(t, i, k, g),
            None => word_places(t, i, g),
        }
        let (h, next) = scan::step(t, i, first, f);
        scan_places(t, next, h);
    }
}

proof fn findings_are_placed(t: Seq<Lexeme>)
    ensures
        placed(t, scan::findings(t)),
{
    let f = scan::nothing_found(t);
    beginnings(t);
    assert(placed(t, f)) by {
        reveal(placed);
    }
    scan_places(t, 0, f);
}

/// A table is reported as written only where its name stands behind `INTO`, `UPDATE`,
/// `TABLE`, `TRUNCATE` or `COPY`, or behind a `FROM` of a `DELETE`, and as read only where it
/// stands behind a `FROM` of another statement than a `REVOKE`, or behind `JOIN`, `USING` or
/// `COPY`. A joined table is also read.
pub proof fn access_follows_the_words(
    a: SqlAccessAnalysis,
    l: Seq<Lexeme>,
    trees: Result<Seq<analysis::Tree>, Seq<char>>,
    name: Seq<char>,
)
    requires
        analysis::describes(a, l, trees),
    ensures
        text::listed(a.written_tables@, name) ==> written_place(tokens(l), name),
        text::listed(a.read_tables@, name) ==> read_place(tokens(l), name),
        text::listed(a.joined_resources@, name) ==> (behind(tokens(l), "JOIN"@, name) || behind(
            tokens(l),
            "USING"@,
            name,
        )) && (text::listed(a.read_tables@, name) || text::listed(a.ctes@, name)),
{
    only_space_is_left_out(l);
    findings_are_placed(tokens(l));
    reveal(placed);
    members_of(a, l, trees, name);
}

proof fn members_of(
    a: SqlAccessAnalysis,
    l: Seq<Lexeme>,
    trees: Result<Seq<analysis::Tree>, Seq<char>>,
    name: Seq<char>,
)
    requires
        analysis::describes(a, l, trees),
    ensures
        ({
            let f = scan::findings(reader::unspaced(l));
            let own = f.ctes.contains(name);
            &&& text::listed(a.ctes@, name) == own
            &&& text::listed(a.read_tables@, name) == (f.read.contains(name) && !own)
            &&& text::listed(a.written_tables@, name) == (f.written.contains(name) && !own)
            &&& text::listed(a.referenced_objects@, name) == (f.objects.contains(name) && !own)
            &&& text::listed(a.referenced_columns@, name) == f.columns.contains(name)
            &&& text::listed(a.referenced_functions@, name) == f.functions.contains(name)
            &&& text::listed(a.called_procedures@, name) == f.procedures.contains(name)
            &&& text::listed(a.joined_resources@, name) == f.joined.contains(name)
            &&& text::listed(a.predicates@, name) == f.predicates.contains(name)
            &&& text::listed(a.privilege_targets@, name) == f.privileges.contains(name)
            &&& text::listed(a.role_changes@, name) == f.roles.contains(name)
            &&& text::listed(a.ddl_objects@, name) == f.ddl.contains(name)
        }),
{
    assert(names::members(a.ctes@).contains(name) == text::listed(a.ctes@, name));
    assert(names::members(a.read_tables@).contains(name) == text::listed(a.read_tables@, name));
    assert(names::members(a.written_tables@).contains(name) == text::listed(
        a.written_tables@,
        name,
    ));
    assert(names::members(a.referenced_objects@).contains(name) == text::listed(
        a.referenced_objects@,
        name,
    ));
    assert(names::members(a.referenced_columns@).contains(name) == text::listed(
        a.referenced_columns@,
        name,
    ));
    assert(names::members(a.referenced_functions@).contains(name) == text::listed(
        a.referenced_functions@,
        name,
    ));
    assert(names::members(a.called_procedures@).contains(name) == text::listed(
        a.called_procedures@,
        name,
    ));
    assert(names::members(a.joined_resources@).contains(name) == text::listed(
        a.joined_resources@,
        name,
    ));
    assert(names::members(a.predicates@).contains(name) == text::listed(a.predicates@, name));
    assert(names::members(a.privilege_targets@).contains(name) == text::listed(
        a.privilege_targets@,
        name,
    ));
    assert(names::members(a.role_changes@).contains(name) == text::listed(a.role_changes@, name));
    assert(names::members(a.ddl_objects@).contains(name) == text::listed(a.ddl_objects@, name));
}

/// Whatever else is reported stands in the statement too: a defined object behind `TABLE`,
/// `VIEW`, `INDEX` or `TRUNCATE`, a procedure behind `CALL` or `EXECUTE`, a role behind the
/// `ROLE` or `AUTHORIZATION` of a `SET`, a privilege's target behind the `ON` or `TABLE` of a
/// `GRANT` or `REVOKE`, a function before a parenthesis. A column is a qualified name. The
/// objects are the tables, the defined objects and the targets together.
pub proof fn other_findings_follow_the_words(
    a: SqlAccessAnalysis,
    l: Seq<Lexeme>,
    trees: Result<Seq<analysis::Tree>, Seq<char>>,
    name: Seq<char>,
)
    requires
        analysis::describes(a, l, trees),
    ensures
        text::listed(a.ddl_objects@, name) ==> behind(tokens(l), "TABLE"@, name) || behind(
            tokens(l),
            "VIEW"@,
            name,
        ) || behind(tokens(l), "INDEX"@, name) || behind(tokens(l), "TRUNCATE"@, name),
        text::listed(a.called_procedures@, name) ==> behind(tokens(l), "CALL"@, name) || behind(
            tokens(l),
            "EXECUTE"@,
            name,
        ),
        text::listed(a.role_changes@, name) ==> begins_with(tokens(l), "SET"@) && (behind(
            tokens(l),
            "ROLE"@,
            name,
        ) || behind(tokens(l), "AUTHORIZATION"@, name)),
        text::listed(a.privilege_targets@, name) ==> (begins_with(tokens(l), "GRANT"@)
            || begins_with(tokens(l), "REVOKE"@)) && (after(tokens(l), "ON"@, name) || after(
            tokens(l),
            "TABLE"@,
            name,
        )),
        text::listed(a.referenced_functions@, name) ==> called_place(tokens(l), name),
        text::listed(a.referenced_columns@, name) ==> column_place(tokens(l), name),
        text::listed(a.predicates@, name) ==> text::listed(a.referenced_columns@, name)
            && a.has_where,
        !text::listed(a.ctes@, name) ==> text::listed(a.referenced_objects@, name) == (
        text::listed(a.read_tables@, name) || text::listed(a.written_tables@, name) || text::listed(
            a.ddl_objects@,
            name,
        ) || text::listed(a.privilege_targets@, name)),
        text::listed(a.ctes@, name) ==> !text::listed(a.referenced_objects@, name),
{
    only_space_is_left_out(l);
    findings_are_placed(tokens(l));
    reveal(placed);
    members_of(a, l, trees, name);
}

/// A flag is set only where the statement has what it tells: a `WHERE`, a `GROUP`, an
/// `ORDER`, a `*`, a `COPY`. The limit is the number behind a `LIMIT`. A table that is copied
/// stands behind `COPY`, and one that is filled by it is written.
pub proof fn flags_follow_the_words(
    a: SqlAccessAnalysis,
    l: Seq<Lexeme>,
    trees: Result<Seq<analysis::Tree>, Seq<char>>,
)
    requires
        analysis::describes(a, l, trees),
    ensures
        a.has_where ==> has_keyword(tokens(l), "WHERE"@),
        a.grouping ==> has_keyword(tokens(l), "GROUP"@),
        a.ordering ==> has_keyword(tokens(l), "ORDER"@),
        a.wildcard_columns ==> exists|i: int|
            0 <= i < tokens(l).len() && #[trigger] tokens(l)[i] == Lexeme::Symbol("*"@),
        a.limit is Some ==> limited_to(tokens(l), a.limit->0),
        a.copy_source is Some ==> has_keyword(tokens(l), "COPY"@),
        a.copy_source is Some && a.copy_source->0@ != "(subquery)"@ ==> behind(
            tokens(l),
            "COPY"@,
            a.copy_source->0@,
        ),
        a.copy_destination is Some ==> behind(tokens(l), "COPY"@, a.copy_destination->0@) && (
        text::listed(a.written_tables@, a.copy_destination->0@) || text::listed(
            a.ctes@,
            a.copy_destination->0@,
        )),
        a.parameterized == exists|i: int| 0 <= i < l.len() && #[trigger] l[i] is Placeholder,
{
    only_space_is_left_out(l);
    findings_are_placed(tokens(l));
    reveal(placed);
    if a.copy_destination is Some {
        members_of(a, l, trees, a.copy_destination->0@);
    }
}

/// An unquoted word that is no keyword stands at `i`.
pub open spec fn plain_at(t: Seq<Lexeme>, i: int, value: Seq<char>) -> bool {
    0 <= i < t.len() && t[i] == (Lexeme::Word { value, quoted: false, keyword: false })
}

/// No dot stands behind `i`.
pub open spec fn ends_at(t: Seq<Lexeme>, i: int) -> bool {
    i + 1 < t.len() ==> t[i + 1] != Lexeme::Symbol("."@)
}

/// The keyword begins a clause at `i`. It is no part of a qualified name, no `COPY` stands
/// before it, and the statement is about no privileges.
pub open spec fn clause_at(t: Seq<Lexeme>, i: int, word: Seq<char>) -> bool {
    &&& keyword_at(t, i, word)
    &&& i > 0 ==> t[i - 1] != Lexeme::Symbol("."@)
    &&& forall|k: int| 0 <= k < i ==> !#[trigger] keyword_at(t, k, "COPY"@)
    &&& !begins_with(t, "GRANT"@)
    &&& !begins_with(t, "REVOKE"@)
}

/// The `k`th of the plain names that stand behind `i`, with commas between them.
pub open spec fn entry(t: Seq<Lexeme>, i: int, k: int, value: Seq<char>) -> bool {
    &&& 0 <= k
    &&& plain_at(t, i + 1 + 2 * k, value)
    &&& ends_at(t, i + 1 + 2 * k)
    &&& forall|m: int|
        0 <= m < k ==> #[trigger] is_plain(t, i + 1 + 2 * m) && t[i + 2 + 2 * m] == Lexeme::Symbol(
            ","@,
        )
}

pub open spec fn is_plain(t: Seq<Lexeme>, i: int) -> bool {
    0 <= i < t.len() && match t[i] {
        Lexeme::Word { value, quoted, keyword } => !quoted && !keyword,
        _ => false,
    }
}

proof fn symbols_differ()
    ensures
        "."@ != ","@,
        "."@ != "("@,
        ","@ != "("@,
{
    reveal_strlit(".");
    reveal_strlit(",");
    reveal_strlit("(");
    assert("."@[0] == '.' && ","@[0] == ',' && "("@[0] == '(');
}

/// A plain name with no dot behind it is a table of its own.
proof fn plain_table(t: Seq<Lexeme>, i: int, value: Seq<char>)
    requires
        plain_at(t, i, value),
        ends_at(t, i),
    ensures
        reader::name_at(t, i) == Some((text::lower(value), i + 1)),
        reader::table_at(t, i) is Some,
        (reader::table_at(t, i)->0).0 == text::lower(value),
        reader::sym_at(t, i + 1, ","@) ==> (reader::table_at(t, i)->0).1 == i + 1,
{
    symbols_differ();
    assert(text::lower(value) + Seq::<char>::empty() =~= text::lower(value));
}

proof fn entry_is_listed(t: Seq<Lexeme>, i: int, k: int, value: Seq<char>)
    requires
        0 <= i + 1,
        entry(t, i, k, value),
    ensures
        reader::table_list(t, i + 1).0.contains(text::lower(value)),
    decreases k,
{
    symbols_differ();
    if k == 0 {
        plain_table(t, i + 1, value);
        assert(reader::table_list(t, i + 1).0[0] == text::lower(value));
    } else {
        assert(is_plain(t, i + 1 + 2 * 0));
        let v = t[i + 1]->value;
        assert(plain_at(t, i + 1, v));
        plain_table(t, i + 1, v);
        assert forall|m: int| 0 <= m < k - 1 implies #[trigger] is_plain(t, (i + 2) + 1 + 2 * m)
            && t[(i + 2) + 2 + 2 * m] == Lexeme::Symbol(","@) by {
            assert(is_plain(t, i + 1 + 2 * (m + 1)));
        }
        assert(i + 2 + 1 + 2 * (k - 1) == i + 1 + 2 * k);
        entry_is_listed(t, i + 2, k - 1, value);
        let rest = reader::table_list(t, i + 3).0;
        let x = choose|x: int| 0 <= x < rest.len() && rest[x] == text::lower(value);
        assert(reader::table_list(t, i + 1).0[x + 1] == text::lower(value));
    }
}

proof fn arrival_keeps(t: Seq<Lexeme>, j: int, i: int, first: Option<Kw>, f: Found)
    ensures
        keeps(f, arrived(t, j, i, first, f)),
    decreases t.len() - j,
{
    if 0 <= j < i && i <= t.len() {
        scan::step_advances(t, j, first, f);
        step_keeps(t, j, first, f);
        let (g, next) = scan::step(t, j, first, f);
        arrival_keeps(t, next, i, first, g);
        keeps_on(f, g, arrived(t, next, i, first, g));
    } else {
        reveal(keeps);
    }
}

#[verifier::spinoff_prover]
#[verifier::rlimit(40)]
proof fn step_untaken(t: Seq<Lexeme>, j: int, first: Option<Kw>, f: Found)
    requires
        reader::kw_at(t, j) != Some(Kw::From),
    ensures
        scan::step(t, j, first, f).0.target_taken == f.target_taken,
{
}

#[verifier::spinoff_prover]
#[verifier::rlimit(40)]
proof fn step_keeps_limit(t: Seq<Lexeme>, j: int, first: Option<Kw>, f: Found)
    requires
        reader::kw_at(t, j) != Some(Kw::Limit),
    ensures
        scan::step(t, j, first, f).0.limit == f.limit,
{
}

#[verifier::spinoff_prover]
#[verifier::rlimit(40)]
proof fn step_keeps_class(t: Seq<Lexeme>, j: int, first: Option<Kw>, f: Found)
    ensures
        first != Some(Kw::SetWord) ==> scan::step(t, j, first, f).0.statement_type
            == f.statement_type,
        f.statement_type is SetVariable || f.statement_type is SetRole ==> scan::step(
            t,
            j,
            first,
            f,
        ).0.statement_type is SetVariable || scan::step(t, j, first, f).0.statement_type is SetRole,
{
}

proof fn arrival_untaken(t: Seq<Lexeme>, j: int, i: int, first: Option<Kw>, f: Found)
    requires
        forall|k: int| j <= k < i ==> reader::kw_at(t, k) != Some(Kw::From),
        0 <= j,
    ensures
        arrived(t, j, i, first, f).target_taken == f.target_taken,
    decreases t.len() - j,
{
    if 0 <= j < i && i <= t.len() {
        scan::step_advances(t, j, first, f);
        let (g, next) = scan::step(t, j, first, f);
        step_untaken(t, j, first, f);
        arrival_untaken(t, next, i, first, g);
    }
}

/// What the scan has found when it comes to a clause, and that it comes to it.
proof fn clause_is_reached(t: Seq<Lexeme>, i: int, word: Seq<char>)
    requires
        clause_at(t, i, word),
        clause_word(t, i),
    ensures
        scan::findings(t) == scan::scanned(
            t,
            i,
            scan::first_kw(t, 0),
            arrived(t, 0, i, scan::first_kw(t, 0), scan::nothing_found(t)),
        ),
        ({
            let g = arrived(t, 0, i, scan::first_kw(t, 0), scan::nothing_found(t));
            keeps(scan::step(t, i, scan::first_kw(t, 0), g).0, scan::findings(t))
        }),
{
    let first = scan::first_kw(t, 0);
    let f = scan::nothing_found(t);
    clauses_stand_firm(t, i);
    beginnings(t);
    assert forall|k: int| 0 <= k < i implies reader::kw_at(t, k) != Some(Kw::Copy) by {
        assert(!keyword_at(t, k, "COPY"@));
    }
    scan_arrives(t, 0, i, first, f);
    let g = arrived(t, 0, i, first, f);
    scan::step_advances(t, i, first, g);
    let (h, next) = scan::step(t, i, first, g);
    scan_keeps(t, next, first, h);
}

/// Every table of the plain list behind a `FROM` is read, and is one of the objects; but in
/// a `DELETE` those behind the first `FROM` are written.
pub proof fn tables_behind_from_are_found(
    a: SqlAccessAnalysis,
    l: Seq<Lexeme>,
    trees: Result<Seq<analysis::Tree>, Seq<char>>,
    i: int,
    k: int,
    value: Seq<char>,
)
    requires
        analysis::describes(a, l, trees),
        clause_at(tokens(l), i, "FROM"@),
        entry(tokens(l), i, k, value),
        !text::listed(a.ctes@, text::lower(value)),
    ensures
        text::listed(a.referenced_objects@, text::lower(value)),
        !begins_with(tokens(l), "DELETE"@) ==> text::listed(a.read_tables@, text::lower(value)),
        begins_with(tokens(l), "DELETE"@) && (forall|p: int|
            0 <= p < i ==> !#[trigger] keyword_at(tokens(l), p, "FROM"@)) ==> text::listed(
            a.written_tables@,
            text::lower(value),
        ),
        begins_with(tokens(l), "DELETE"@) && (exists|p: int|
            0 <= p < i && #[trigger] clause_at(tokens(l), p, "FROM"@)) ==> text::listed(
            a.read_tables@,
            text::lower(value),
        ),
{
    only_space_is_left_out(l);
    let t = tokens(l);
    let n = text::lower(value);
    let first = scan::first_kw(t, 0);
    let f = scan::nothing_found(t);
    members_of(a, l, trees, n);
    keywords_are_spelled();
    beginnings(t);
    clause_is_reached(t, i, "FROM"@);
    entry_is_listed(t, i, k, value);
    let g = arrived(t, 0, i, first, f);
    let names = reader::table_list(t, i + 1).0;
    assert(names.to_set().contains(n));
    reveal(keeps);
    if begins_with(t, "DELETE"@) {
        if forall|p: int| 0 <= p < i ==> !#[trigger] keyword_at(t, p, "FROM"@) {
            assert forall|p: int| 0 <= p < i implies reader::kw_at(t, p) != Some(Kw::From) by {
                assert(!keyword_at(t, p, "FROM"@));
            }
            arrival_untaken(t, 0, i, first, f);
        }
        if exists|p: int| 0 <= p < i && #[trigger] clause_at(t, p, "FROM"@) {
            let p = choose|p: int| 0 <= p < i && #[trigger] clause_at(t, p, "FROM"@);
            second_from_is_taken(t, p, i);
        }
    }
}

/// Behind a first `FROM` the target of a `DELETE` is taken, so what the next one lists is
/// read.
proof fn second_from_is_taken(t: Seq<Lexeme>, p: int, i: int)
    requires
        0 <= p < i,
        clause_at(t, p, "FROM"@),
        clause_at(t, i, "FROM"@),
    ensures
        reader::table_list(t, i + 1).0.to_set().subset_of(scan::findings(t).read),
{
    let first = scan::first_kw(t, 0);
    let f = scan::nothing_found(t);
    keywords_are_spelled();
    beginnings(t);
    clause_is_reached(t, p, "FROM"@);
    clauses_stand_firm(t, i);
    let g = arrived(t, 0, p, first, f);
    let (h, next) = scan::step(t, p, first, g);
    assert(h.target_taken);
    scan::step_advances(t, p, first, g);
    step_stops(t, p, i, first, g);
    assert forall|k: int| next <= k < i implies reader::kw_at(t, k) != Some(Kw::Copy) by {
        assert(!keyword_at(t, k, "COPY"@));
    }
    scan_arrives(t, next, i, first, h);
    arrival_keeps(t, next, i, first, h);
    let q = arrived(t, next, i, first, h);
    assert(q.target_taken) by {
        reveal(keeps);
    }
    let (r, after) = scan::step(t, i, first, q);
    scan::step_advances(t, i, first, q);
    scan_keeps(t, after, first, r);
    assert(r.read.subset_of(scan::findings(t).read)) by {
        reveal(keeps);
    }
}

/// The table behind a `JOIN` or `USING` is read and joined, and the one behind an `INTO` is
/// written.
pub proof fn tables_behind_join_and_into_are_found(
    a: SqlAccessAnalysis,
    l: Seq<Lexeme>,
    trees: Result<Seq<analysis::Tree>, Seq<char>>,
    i: int,
    value: Seq<char>,
)
    requires
        analysis::describes(a, l, trees),
        plain_at(tokens(l), i + 1, value),
        ends_at(tokens(l), i + 1),
        !text::listed(a.ctes@, text::lower(value)),
    ensures
        clause_at(tokens(l), i, "JOIN"@) || clause_at(tokens(l), i, "USING"@) ==> text::listed(
            a.read_tables@,
            text::lower(value),
        ) && text::listed(a.joined_resources@, text::lower(value)),
        clause_at(tokens(l), i, "INTO"@) ==> text::listed(a.written_tables@, text::lower(value)),
{
    only_space_is_left_out(l);
    let t = tokens(l);
    members_of(a, l, trees, text::lower(value));
    keywords_are_spelled();
    plain_table(t, i + 1, value);
    if clause_at(t, i, "JOIN"@) {
        clause_is_reached(t, i, "JOIN"@);
    }
    if clause_at(t, i, "USING"@) {
        clause_is_reached(t, i, "USING"@);
    }
    if clause_at(t, i, "INTO"@) {
        clause_is_reached(t, i, "INTO"@);
    }
    reveal(keeps);
}

/// A `WHERE`, a `GROUP` or an `ORDER` that begins a clause is noted. A number behind a
/// `LIMIT` that is the only one is the limit.
pub proof fn clauses_are_noted(
    a: SqlAccessAnalysis,
    l: Seq<Lexeme>,
    trees: Result<Seq<analysis::Tree>, Seq<char>>,
    i: int,
)
    requires
        analysis::describes(a, l, trees),
    ensures
        clause_at(tokens(l), i, "WHERE"@) ==> a.has_where,
        clause_at(tokens(l), i, "GROUP"@) ==> a.grouping,
        clause_at(tokens(l), i, "ORDER"@) ==> a.ordering,
        clause_at(tokens(l), i, "LIMIT"@) && (forall|k: int|
            i < k < tokens(l).len() ==> !#[trigger] keyword_at(tokens(l), k, "LIMIT"@)) && i + 1
            < tokens(l).len() && tokens(l)[i + 1] is Number ==> a.limit
            == crate::numerals::read_u64(tokens(l)[i + 1]->Number_0),
{
    only_space_is_left_out(l);
    let t = tokens(l);
    let first = scan::first_kw(t, 0);
    keywords_are_spelled();
    if clause_at(t, i, "WHERE"@) {
        clause_is_reached(t, i, "WHERE"@);
    }
    if clause_at(t, i, "GROUP"@) {
        clause_is_reached(t, i, "GROUP"@);
    }
    if clause_at(t, i, "ORDER"@) {
        clause_is_reached(t, i, "ORDER"@);
    }
    if clause_at(t, i, "LIMIT"@) && (forall|k: int|
        i < k < t.len() ==> !#[trigger] keyword_at(t, k, "LIMIT"@)) && i + 1 < t.len() && t[i + 1]
        is Number {
        clause_is_reached(t, i, "LIMIT"@);
        let g = arrived(t, 0, i, first, scan::nothing_found(t));
        let (h, next) = scan::step(t, i, first, g);
        scan::step_advances(t, i, first, g);
        assert forall|k: int| next <= k < t.len() implies reader::kw_at(t, k) != Some(Kw::Limit) by {
            assert(!keyword_at(t, k, "LIMIT"@));
        }
        limit_stays(t, next, first, h);
    }
    reveal(keeps);
}

proof fn limit_stays(t: Seq<Lexeme>, i: int, first: Option<Kw>, f: Found)
    requires
        0 <= i,
        forall|k: int| i <= k < t.len() ==> reader::kw_at(t, k) != Some(Kw::Limit),
    ensures
        scan::scanned(t, i, first, f).limit == f.limit,
    decreases t.len() - i,
{
    if i < t.len() {
        scan::step_advances(t, i, first, f);
        let (g, next) = scan::step(t, i, first, f);
        step_keeps_limit(t, i, first, f);
        limit_stays(t, next, first, g);
    }
}

proof fn beginning_is_scanned(t: Seq<Lexeme>)
    requires
        t.len() > 0,
    ensures
        keeps(
            scan::step(t, 0, scan::first_kw(t, 0), scan::nothing_found(t)).0,
            scan::findings(t),
        ),
{
    let first = scan::first_kw(t, 0);
    let f = scan::nothing_found(t);
    scan::step_advances(t, 0, first, f);
    let (g, next) = scan::step(t, 0, first, f);
    scan_keeps(t, next, first, g);
}

proof fn second_is_scanned(t: Seq<Lexeme>)
    requires
        t.len() > 1,
        scan::step(t, 0, scan::first_kw(t, 0), scan::nothing_found(t)).1 == 1,
    ensures
        ({
            let first = scan::first_kw(t, 0);
            let g = scan::step(t, 0, first, scan::nothing_found(t)).0;
            keeps(scan::step(t, 1, first, g).0, scan::findings(t))
        }),
{
    let first = scan::first_kw(t, 0);
    let g = scan::step(t, 0, first, scan::nothing_found(t)).0;
    assert(scan::findings(t) == scan::scanned(t, 1, first, g));
    scan::step_advances(t, 1, first, g);
    let (h, next) = scan::step(t, 1, first, g);
    assert(scan::scanned(t, 1, first, g) == scan::scanned(t, next, first, h));
    scan_keeps(t, next, first, h);
}

/// What a statement names that begins with its operation: `UPDATE t` and `TRUNCATE t` write
/// the table, `CALL p` and `EXECUTE p` call the procedure, `COPY t FROM` fills the table and
/// any other `COPY t` reads and exports it.
pub proof fn what_an_operation_names_is_found(
    a: SqlAccessAnalysis,
    l: Seq<Lexeme>,
    trees: Result<Seq<analysis::Tree>, Seq<char>>,
    value: Seq<char>,
)
    requires
        analysis::describes(a, l, trees),
        plain_at(tokens(l), 1, value),
        ends_at(tokens(l), 1),
        !text::listed(a.ctes@, text::lower(value)),
    ensures
        keyword_at(tokens(l), 0, "UPDATE"@) ==> text::listed(a.written_tables@, text::lower(value)),
        keyword_at(tokens(l), 0, "TRUNCATE"@) ==> text::listed(
            a.written_tables@,
            text::lower(value),
        ) && text::listed(a.ddl_objects@, text::lower(value)),
        keyword_at(tokens(l), 0, "CALL"@) || keyword_at(tokens(l), 0, "EXECUTE"@) ==> text::listed(
            a.called_procedures@,
            text::lower(value),
        ),
        keyword_at(tokens(l), 0, "COPY"@) && keyword_at(tokens(l), 2, "FROM"@) ==> text::listed(
            a.written_tables@,
            text::lower(value),
        ) && a.copy_destination is Some,
        keyword_at(tokens(l), 0, "COPY"@) && keyword_at(tokens(l), 2, "TO"@) ==> text::listed(
            a.read_tables@,
            text::lower(value),
        ) && a.copy_source is Some && a.estimated_bulk,
{
    only_space_is_left_out(l);
    let t = tokens(l);
    let n = text::lower(value);
    members_of(a, l, trees, n);
    keywords_are_spelled();
    symbols_differ();
    plain_table(t, 1, value);
    beginning_is_scanned(t);
    reveal(keeps);
    if keyword_at(t, 0, "TRUNCATE"@) {
        assert(entry(t, 0, 0, value));
        entry_is_listed(t, 0, 0, value);
        assert(reader::table_list(t, 1).0.to_set().contains(n));
    }
    if keyword_at(t, 0, "COPY"@) && keyword_at(t, 2, "TO"@) {
        reveal_strlit("TO");
        assert("TO"@.len() == 2);
        reveal_strlit("FROM");
        assert("FROM"@.len() == 4);
        assert(reader::kw_at(t, 2) != Some(Kw::From));
    }
}

/// A `COPY` of a subquery exports, and is a bulk operation.
pub proof fn an_exported_subquery_is_bulk(
    a: SqlAccessAnalysis,
    l: Seq<Lexeme>,
    trees: Result<Seq<analysis::Tree>, Seq<char>>,
)
    requires
        analysis::describes(a, l, trees),
        keyword_at(tokens(l), 0, "COPY"@),
        tokens(l).len() > 1,
        tokens(l)[1] == Lexeme::Symbol("("@),
    ensures
        a.copy_source is Some,
        a.estimated_bulk,
{
    only_space_is_left_out(l);
    keywords_are_spelled();
    beginning_is_scanned(tokens(l));
    reveal(keeps);
}

/// `CREATE`, `ALTER` and `DROP` of a table define and write it, of a view or an index they
/// define it. `SET ROLE r` and `SET AUTHORIZATION r` change the role, and are of that class
/// whatever the parser makes of them.
pub proof fn definitions_and_roles_are_found(
    a: SqlAccessAnalysis,
    l: Seq<Lexeme>,
    trees: Result<Seq<analysis::Tree>, Seq<char>>,
    value: Seq<char>,
)
    requires
        analysis::describes(a, l, trees),
        plain_at(tokens(l), 2, value),
        ends_at(tokens(l), 2),
        text::lower(value) != "if"@,
        !text::listed(a.ctes@, text::lower(value)),
    ensures
        ({
            let t = tokens(l);
            let n = text::lower(value);
            let defines = keyword_at(t, 0, "CREATE"@) || keyword_at(t, 0, "ALTER"@) || keyword_at(
                t,
                0,
                "DROP"@,
            );
            &&& defines && keyword_at(t, 1, "TABLE"@) ==> text::listed(a.ddl_objects@, n)
                && text::listed(a.written_tables@, n)
            &&& defines && (keyword_at(t, 1, "VIEW"@) || keyword_at(t, 1, "INDEX"@))
                ==> text::listed(a.ddl_objects@, n)
            &&& keyword_at(t, 0, "SET"@) && (keyword_at(t, 1, "ROLE"@) || keyword_at(
                t,
                1,
                "AUTHORIZATION"@,
            )) ==> text::listed(a.role_changes@, n) && a.statement_type is SetRole
        }),
{
    only_space_is_left_out(l);
    let t = tokens(l);
    let n = text::lower(value);
    members_of(a, l, trees, n);
    keywords_are_spelled();
    symbols_differ();
    plain_table(t, 2, value);
    assert(reader::word_at(t, 2) == Some(n));
    let first = scan::first_kw(t, 0);
    if keyword_at(t, 0, "CREATE"@) || keyword_at(t, 0, "ALTER"@) || keyword_at(t, 0, "DROP"@)
        || keyword_at(t, 0, "SET"@) {
        assert(first == reader::kw_at(t, 0));
        second_is_scanned(t);
        reveal(keeps);
    }
}

proof fn class_stays(t: Seq<Lexeme>, i: int, first: Option<Kw>, f: Found)
    requires
        first != Some(Kw::SetWord),
        0 <= i,
    ensures
        scan::scanned(t, i, first, f).statement_type == f.statement_type,
    decreases t.len() - i,
{
    if i < t.len() {
        scan::step_advances(t, i, first, f);
        let (g, next) = scan::step(t, i, first, f);
        step_keeps_class(t, i, first, f);
        class_stays(t, next, first, g);
    }
}

/// A statement that is not parsed has the class that its first keyword announces.
pub proof fn an_unparsed_statement_has_the_class_of_its_first_keyword(
    a: SqlAccessAnalysis,
    l: Seq<Lexeme>,
    error: Seq<char>,
)
    requires
        analysis::describes(a, l, Err(error)),
    ensures
        begins_with(tokens(l), "SELECT"@) ==> a.statement_type is Select,
        begins_with(tokens(l), "WITH"@) ==> a.statement_type is Select,
        begins_with(tokens(l), "INSERT"@) ==> a.statement_type is Insert,
        begins_with(tokens(l), "UPDATE"@) ==> a.statement_type is Update,
        begins_with(tokens(l), "DELETE"@) ==> a.statement_type is Delete,
        begins_with(tokens(l), "COPY"@) ==> a.statement_type is Copy,
        begins_with(tokens(l), "TRUNCATE"@) ==> a.statement_type is Truncate,
        begins_with(tokens(l), "GRANT"@) ==> a.statement_type is Grant,
        begins_with(tokens(l), "REVOKE"@) ==> a.statement_type is Revoke,
        begins_with(tokens(l), "CALL"@) ==> a.statement_type is Call,
        begins_with(tokens(l), "EXECUTE"@) ==> a.statement_type is Call,
        begins_with(tokens(l), "MERGE"@) ==> a.statement_type is Merge,
        begins_with(tokens(l), "ANALYZE"@) ==> a.statement_type is Analyze,
        begins_with(tokens(l), "EXPLAIN"@) ==> a.statement_type is Explain,
        begins_with(tokens(l), "CREATE"@) ==> a.statement_type is CreateTable,
        begins_with(tokens(l), "ALTER"@) ==> a.statement_type is AlterTable,
        begins_with(tokens(l), "DROP"@) ==> a.statement_type is Drop,
        begins_with(tokens(l), "SET"@) ==> a.statement_type is SetVariable
            || a.statement_type is SetRole,
        (forall|i: int| 0 <= i < tokens(l).len() ==> !is_keyword(#[trigger] tokens(l)[i]))
            ==> a.statement_type is Unknown,
{
    only_space_is_left_out(l);
    let t = tokens(l);
    beginnings(t);
    first_keyword(t, 0);
    let first = scan::first_kw(t, 0);
    if first != Some(Kw::SetWord) {
        class_stays(t, 0, first, scan::nothing_found(t));
    } else {
        set_class(t, 0, scan::nothing_found(t));
    }
    if forall|i: int| 0 <= i < t.len() ==> !is_keyword(#[trigger] t[i]) {
        assert(first is None);
    }
}

proof fn set_class(t: Seq<Lexeme>, i: int, f: Found)
    requires
        f.statement_type is SetVariable || f.statement_type is SetRole,
        0 <= i,
    ensures
        ({
            let r = scan::scanned(t, i, Some(Kw::SetWord), f).statement_type;
            r is SetVariable || r is SetRole
        }),
    decreases t.len() - i,
{
    let first = Some(Kw::SetWord);
    if i < t.len() {
        scan::step_advances(t, i, first, f);
        let (g, next) = scan::step(t, i, first, f);
        step_keeps_class(t, i, first, f);
        set_class(t, next, g);
    }
}

/// The tree of a statement and its first keyword announce the same class.
pub proof fn the_tree_and_the_first_keyword_agree()
    ensures
        analysis::class_of(analysis::Tree::Query) == Kw::Select.statement(),
        analysis::class_of(analysis::Tree::Query) == Kw::With.statement(),
        analysis::class_of(analysis::Tree::Insert) == Kw::Insert.statement(),
        analysis::class_of(analysis::Tree::Update) == Kw::Update.statement(),
        analysis::class_of(analysis::Tree::Delete) == Kw::Delete.statement(),
        analysis::class_of(analysis::Tree::Copy) == Kw::Copy.statement(),
        analysis::class_of(analysis::Tree::Merge) == Kw::Merge.statement(),
        analysis::class_of(analysis::Tree::Truncate) == Kw::Truncate.statement(),
        analysis::class_of(analysis::Tree::Call) == Kw::Call.statement(),
        analysis::class_of(analysis::Tree::Analyze) == Kw::Analyze.statement(),
        analysis::class_of(analysis::Tree::Explain) == Kw::Explain.statement(),
        analysis::class_of(analysis::Tree::ExplainTable) == Kw::Explain.statement(),
        analysis::class_of(analysis::Tree::CreateTable) == Kw::Create.statement(),
        analysis::class_of(analysis::Tree::AlterTable) == Kw::Alter.statement(),
        analysis::class_of(analysis::Tree::Drop) == Kw::Drop.statement(),
        analysis::class_of(analysis::Tree::Grant) == Kw::Grant.statement(),
        analysis::class_of(analysis::Tree::Revoke) == Kw::Revoke.statement(),
        analysis::class_of(analysis::Tree::CreateView) is CreateView,
        analysis::class_of(analysis::Tree::CreateIndex) is CreateIndex,
        analysis::class_of(analysis::Tree::CreateSchema) is CreateSchema,
        analysis::class_of(analysis::Tree::CreateFunction) is CreateFunction,
        analysis::class_of(analysis::Tree::AlterRole) is AlterRole,
        analysis::class_of(analysis::Tree::Other) is Other,
{
}

/// A parsed statement has the class of its tree, unless the tree has none of the named
/// classes or the statement changes the role.
pub proof fn a_parsed_statement_has_the_class_of_its_tree(
    a: SqlAccessAnalysis,
    l: Seq<Lexeme>,
    trees: Seq<analysis::Tree>,
)
    requires
        analysis::describes(a, l, Ok(trees)),
        trees.len() > 0,
        !begins_with(tokens(l), "SET"@),
    ensures
        !(trees[0] is Other) ==> a.statement_type == analysis::class_of(trees[0]),
        trees[0] is Query ==> a.statement_type is Select,
        trees[0] is Insert ==> a.statement_type is Insert,
        trees[0] is Update ==> a.statement_type is Update,
        trees[0] is Delete ==> a.statement_type is Delete,
        trees[0] is Grant ==> a.statement_type is Grant,
        trees[0] is Drop ==> a.statement_type is Drop,
        a.parse_error is None,
        a.unresolved_objects@.len() == 0,
{
    only_space_is_left_out(l);
    let t = tokens(l);
    beginnings(t);
    class_stays(t, 0, scan::first_kw(t, 0), scan::nothing_found(t));
    findings_are_placed(t);
    reveal(placed);
}

/// The coarse class of an audit record is named like the keyword that the statement begins
/// with.
pub proof fn the_coarse_class_is_named_like_the_keyword()
    ensures
        keyword::kw_of("SELECT"@).statement().query_type().name() == text::lower("SELECT"@),
        keyword::kw_of("INSERT"@).statement().query_type().name() == text::lower("INSERT"@),
        keyword::kw_of("UPDATE"@).statement().query_type().name() == text::lower("UPDATE"@),
        keyword::kw_of("DELETE"@).statement().query_type().name() == text::lower("DELETE"@),
        keyword::kw_of("COPY"@).statement().query_type().name() == text::lower("COPY"@),
        keyword::kw_of("TRUNCATE"@).statement().query_type().name() == text::lower("TRUNCATE"@),
        keyword::kw_of("GRANT"@).statement().query_type().name() == text::lower("GRANT"@),
        keyword::kw_of("REVOKE"@).statement().query_type().name() == text::lower("REVOKE"@),
        keyword::kw_of("CALL"@).statement().query_type().name() == text::lower("CALL"@),
        keyword::kw_of("CREATE"@).statement().query_type().name() == text::lower("CREATE"@),
        keyword::kw_of("ALTER"@).statement().query_type().name() == text::lower("ALTER"@),
        keyword::kw_of("DROP"@).statement().query_type().name() == text::lower("DROP"@),
{
    keywords_are_spelled();
    reveal_strlit("SELECT");
    reveal_strlit("select");
    assert(text::lower("SELECT"@) =~= "select"@);
    reveal_strlit("INSERT");
    reveal_strlit("insert");
    assert(text::lower("INSERT"@) =~= "insert"@);
    reveal_strlit("UPDATE");
    reveal_strlit("update");
    assert(text::lower("UPDATE"@) =~= "update"@);
    reveal_strlit("DELETE");
    reveal_strlit("delete");
    assert(text::lower("DELETE"@) =~= "delete"@);
    reveal_strlit("COPY");
    reveal_strlit("copy");
    assert(text::lower("COPY"@) =~= "copy"@);
    reveal_strlit("TRUNCATE");
    reveal_strlit("truncate");
    assert(text::lower("TRUNCATE"@) =~= "truncate"@);
    reveal_strlit("GRANT");
    reveal_strlit("grant");
    assert(text::lower("GRANT"@) =~= "grant"@);
    reveal_strlit("REVOKE");
    reveal_strlit("revoke");
    assert(text::lower("REVOKE"@) =~= "revoke"@);
    reveal_strlit("CALL");
    reveal_strlit("call");
    assert(text::lower("CALL"@) =~= "call"@);
    reveal_strlit("CREATE");
    reveal_strlit("create");
    assert(text::lower("CREATE"@) =~= "create"@);
    reveal_strlit("ALTER");
    reveal_strlit("alter");
    assert(text::lower("ALTER"@) =~= "alter"@);
    reveal_strlit("DROP");
    reveal_strlit("drop");
    assert(text::lower("DROP"@) =~= "drop"@);
}

/// Statements that create or alter something share the coarse class of the keyword, and the
/// names of the coarse classes are told apart by a privilege, a change or a read.
pub proof fn coarse_classes_group_the_classes(s: StatementType)
    ensures
        s is CreateTable || s is CreateView || s is CreateIndex || s is CreateSchema
            || s is CreateFunction <==> s.query_type() is Create,
        s is AlterTable || s is AlterRole <==> s.query_type() is Alter,
        s is Select || s is Analyze || s is Explain <==> s.query_type() is Select,
        s is Insert || s is Merge <==> s.query_type() is Insert,
        s is Grant <==> s.query_type() is Grant,
        s is Revoke <==> s.query_type() is Revoke,
        s is SetRole <==> s.query_type() is SetRole,
        s.ddl() <==> s.query_type() is Create || s is AlterTable || s.query_type() is Drop
            || s.query_type() is Truncate,
{
}

/// A read is a bulk operation where nothing bounds it: a `SELECT` or `COPY` without `WHERE`
/// and without a limit that reads a table. An export always is. Nothing else is.
pub proof fn bulk_is_an_export_or_a_read_without_bound(
    a: SqlAccessAnalysis,
    l: Seq<Lexeme>,
    trees: Result<Seq<analysis::Tree>, Seq<char>>,
)
    requires
        analysis::describes(a, l, trees),
    ensures
        a.copy_source is Some ==> a.estimated_bulk,
        a.estimated_bulk ==> a.copy_source is Some || (!a.has_where && a.limit is None
            && a.read_tables@.len() > 0),
        a.estimated_bulk && a.copy_source is None ==> begins_with(tokens(l), "SELECT"@)
            || begins_with(tokens(l), "WITH"@) || begins_with(tokens(l), "COPY"@),
        (begins_with(tokens(l), "SELECT"@) || begins_with(tokens(l), "WITH"@)) && !a.has_where
            && a.limit is None && a.read_tables@.len() > 0 ==> a.estimated_bulk,
{
    only_space_is_left_out(l);
    let t = tokens(l);
    let f = scan::findings(t);
    beginnings(t);
    first_keyword(t, 0);
    let first = scan::first_kw(t, 0);
    if first != Some(Kw::SetWord) {
        class_stays(t, 0, first, scan::nothing_found(t));
    } else {
        set_class(t, 0, scan::nothing_found(t));
    }
    let rest = f.read.difference(f.ctes);
    if a.read_tables@.len() > 0 {
        let n = a.read_tables@[0]@;
        assert(text::listed(a.read_tables@, n));
        assert(names::members(a.read_tables@).contains(n));
        assert(rest.contains(n));
        assert(rest != Set::<Seq<char>>::empty());
    } else {
        assert(names::members(a.read_tables@) =~= Set::<Seq<char>>::empty());
    }
}

/// A word as it stands in names: a quoted one as it is written, in quotes, and any other in
/// lower case.
pub open spec fn named(l: Lexeme) -> Seq<char> {
    match l {
        Lexeme::Word { value, quoted, keyword } => if quoted {
            seq!['"'] + value + seq!['"']
        } else {
            text::lower(value)
        },
        _ => Seq::empty(),
    }
}

/// A name is its words with dots between them: one, two or three of them, of which the first
/// is no keyword.
pub proof fn a_name_is_its_words(t: Seq<Lexeme>, i: int)
    requires
        0 <= i < t.len(),
        t[i] is Word,
        !is_keyword(t[i]),
    ensures
        ({
            let dot = Lexeme::Symbol("."@);
            let one = i + 2 < t.len() && t[i + 1] == dot && t[i + 2] is Word;
            let two = one && i + 4 < t.len() && t[i + 3] == dot && t[i + 4] is Word;
            let three = two && i + 5 < t.len() && t[i + 5] == dot;
            &&& (i + 1 < t.len() ==> t[i + 1] != dot) ==> reader::name_at(t, i) == Some(
                (named(t[i]), i + 1),
            )
            &&& one && (i + 3 < t.len() ==> t[i + 3] != dot) ==> reader::name_at(t, i) == Some(
                (named(t[i]) + "."@ + named(t[i + 2]), i + 3),
            )
            &&& two && !three ==> reader::name_at(t, i) == Some(
                (named(t[i]) + "."@ + named(t[i + 2]) + "."@ + named(t[i + 4]), i + 5),
            )
        }),
{
    reveal_strlit(".");
    assert("."@ =~= seq!['.']);
    let e = Seq::<char>::empty();
    let dot = Lexeme::Symbol("."@);
    assert(named(t[i]) + e =~= named(t[i]));
    if i + 2 < t.len() && t[i + 1] == dot && t[i + 2] is Word {
        let w1 = named(t[i + 2]);
        assert(!reader::sym_at(t, i + 2, "*"@));
        if i + 3 < t.len() ==> t[i + 3] != dot {
            assert(reader::name_tail(t, i + 3) == (e, i + 3));
            assert(reader::name_tail(t, i + 1).0 =~= "."@ + w1);
            assert(named(t[i]) + ("."@ + w1) =~= named(t[i]) + "."@ + w1);
        } else if i + 4 < t.len() && t[i + 4] is Word {
            let w2 = named(t[i + 4]);
            assert(!reader::sym_at(t, i + 4, "*"@));
            if !(i + 5 < t.len() && t[i + 5] == dot) {
                assert(reader::name_tail(t, i + 5) == (e, i + 5));
                assert(reader::name_tail(t, i + 3).0 =~= "."@ + w2);
                assert(reader::name_tail(t, i + 1).0 =~= "."@ + w1 + "."@ + w2);
                assert(named(t[i]) + ("."@ + w1 + "."@ + w2) =~= named(t[i]) + "."@ + w1 + "."@ + w2);
            }
        }
    }
}

/// An alias is passed over, with or without `AS`, and so is an `ONLY` before the table: the
/// list goes on behind them.
pub proof fn an_alias_is_no_table(t: Seq<Lexeme>, i: int, value: Seq<char>, alias: Seq<char>)
    requires
        0 <= i,
        plain_at(t, i, value),
    ensures
        plain_at(t, i + 1, alias) ==> reader::table_at(t, i) == Some((text::lower(value), i + 2)),
        keyword_at(t, i + 1, "AS"@) && plain_at(t, i + 2, alias) ==> reader::table_at(t, i) == Some(
            (text::lower(value), i + 3),
        ),
        (plain_at(t, i + 1, alias) && i + 3 < t.len() && t[i + 2] == Lexeme::Symbol(","@)
            && is_plain(t, i + 3) && ends_at(t, i + 3)) ==> reader::table_list(t, i).0.contains(
            named(t[i + 3]),
        ),
{
    keywords_are_spelled();
    symbols_differ();
    assert(text::lower(value) + Seq::<char>::empty() =~= text::lower(value));
    if plain_at(t, i + 1, alias) && i + 3 < t.len() && t[i + 2] == Lexeme::Symbol(","@) && is_plain(
        t,
        i + 3,
    ) && ends_at(t, i + 3) {
        let v = t[i + 3]->value;
        assert(plain_at(t, i + 3, v));
        plain_table(t, i + 3, v);
        let rest = reader::table_list(t, i + 3).0;
        assert(rest[0] == named(t[i + 3]));
        assert(reader::table_list(t, i).0[1] == named(t[i + 3]));
    }
}

/// `INSERT INTO x SELECT * FROM y` writes the one table and reads the other, and no more.
#[verifier::spinoff_prover]
#[verifier::rlimit(40)]
pub proof fn a_copy_of_rows_reads_one_table_and_writes_the_other(
    a: SqlAccessAnalysis,
    l: Seq<Lexeme>,
    trees: Result<Seq<analysis::Tree>, Seq<char>>,
    x: Seq<char>,
    y: Seq<char>,
    name: Seq<char>,
)
    requires
        analysis::describes(a, l, trees),
        ({
            let t = tokens(l);
            &&& t.len() == 7
            &&& keyword_at(t, 0, "INSERT"@)
            &&& keyword_at(t, 1, "INTO"@)
            &&& plain_at(t, 2, x)
            &&& keyword_at(t, 3, "SELECT"@)
            &&& t[4] == Lexeme::Symbol("*"@)
            &&& keyword_at(t, 5, "FROM"@)
            &&& plain_at(t, 6, y)
        }),
    ensures
        text::listed(a.read_tables@, name) == (name == text::lower(y)),
        text::listed(a.written_tables@, name) == (name == text::lower(x)),
{
    only_space_is_left_out(l);
    let t = tokens(l);
    keywords_are_spelled();
    symbols_differ();
    members_of(a, l, trees, name);
    let first = scan::first_kw(t, 0);
    assert(first == Some(Kw::Insert));
    let f0 = scan::nothing_found(t);
    let e = Seq::<char>::empty();
    assert(text::lower(x) + e =~= text::lower(x));
    assert(text::lower(y) + e =~= text::lower(y));
    let f1 = scan::step(t, 0, first, f0).0;
    assert(scan::step(t, 0, first, f0).1 == 1);
    let f3 = scan::step(t, 1, first, f1).0;
    assert(scan::step(t, 1, first, f1).1 == 3);
    let f4 = scan::step(t, 3, first, f3).0;
    assert(scan::step(t, 3, first, f3).1 == 4);
    let f5 = scan::step(t, 4, first, f4).0;
    assert(scan::step(t, 4, first, f4).1 == 5);
    let f7 = scan::step(t, 5, first, f5).0;
    assert(reader::table_list(t, 6) == (seq![text::lower(y)], 7int));
    assert(scan::step(t, 5, first, f5).1 == 7);
    assert(scan::scanned(t, 0, first, f0) == scan::scanned(t, 1, first, f1));
    assert(scan::scanned(t, 1, first, f1) == scan::scanned(t, 3, first, f3));
    assert(scan::scanned(t, 3, first, f3) == scan::scanned(t, 4, first, f4));
    assert(scan::scanned(t, 4, first, f4) == scan::scanned(t, 5, first, f5));
    assert(scan::scanned(t, 5, first, f5) == scan::scanned(t, 7, first, f7));
    assert(scan::findings(t) == f7);
    assert(seq![text::lower(y)].to_set().contains(name) == (name == text::lower(y))) by {
        assert(seq![text::lower(y)][0] == text::lower(y));
    }
    assert(f7.read.contains(name) == (name == text::lower(y)));
    assert(f7.written.contains(name) == (name == text::lower(x)));
    assert(!f7.ctes.contains(name));
}

/// A qualified name in the projection is a column, one in the predicate also a predicate; a
/// `*` in the projection is noted, and a name that a `WITH` defines too.
#[verifier::spinoff_prover]
#[verifier::rlimit(40)]
pub proof fn columns_and_definitions_are_found(
    a: SqlAccessAnalysis,
    l: Seq<Lexeme>,
    trees: Result<Seq<analysis::Tree>, Seq<char>>,
    i: int,
    x: Seq<char>,
    y: Seq<char>,
)
    requires
        analysis::describes(a, l, trees),
    ensures
        ({
            let t = tokens(l);
            let dotted = plain_at(t, i + 1, x) && i + 3 < t.len() && t[i + 2] == Lexeme::Symbol(
                "."@,
            ) && plain_at(t, i + 3, y) && ends_at(t, i + 3) && (i + 4 < t.len() ==> t[i + 4]
                != Lexeme::Symbol("("@));
            let name = text::lower(x) + "."@ + text::lower(y);
            &&& keyword_at(t, 0, "SELECT"@) && i == 0 && dotted && text::has_char(name, '.')
                && !text::ends(name, ".*"@) ==> text::listed(a.referenced_columns@, name)
            &&& clause_at(t, i, "WHERE"@) && dotted && text::has_char(name, '.') && !text::ends(
                name,
                ".*"@,
            ) ==> text::listed(a.referenced_columns@, name) && text::listed(a.predicates@, name)
            &&& keyword_at(t, 0, "SELECT"@) && t.len() > 1 && t[1] == Lexeme::Symbol("*"@)
                ==> a.wildcard_columns
            &&& keyword_at(t, 0, "WITH"@) && plain_at(t, 1, x) && keyword_at(t, 2, "AS"@)
                && t.len() > 3 && t[3] == Lexeme::Symbol("("@) ==> text::listed(
                a.ctes@,
                text::lower(x),
            )
        }),
{
    only_space_is_left_out(l);
    let t = tokens(l);
    let name = text::lower(x) + "."@ + text::lower(y);
    let first = scan::first_kw(t, 0);
    members_of(a, l, trees, name);
    members_of(a, l, trees, text::lower(x));
    keywords_are_spelled();
    symbols_differ();
    reveal(keeps);
    if plain_at(t, i + 1, x) && i + 3 < t.len() && t[i + 2] == Lexeme::Symbol("."@) && plain_at(
        t,
        i + 3,
        y,
    ) && ends_at(t, i + 3) {
        a_name_is_its_words(t, i + 1);
    }
    if keyword_at(t, 0, "SELECT"@) && t.len() > 1 {
        second_is_scanned(t);
    }
    if clause_at(t, i, "WHERE"@) && i + 1 < t.len() {
        clause_is_reached(t, i, "WHERE"@);
        let g = arrived(t, 0, i, first, scan::nothing_found(t));
        let (h, next) = scan::step(t, i, first, g);
        assert(next == i + 1 && h.region is Predicate);
        scan::step_advances(t, i + 1, first, h);
        let (q, after) = scan::step(t, i + 1, first, h);
        assert(scan::scanned(t, i, first, g) == scan::scanned(t, i + 1, first, h));
        assert(scan::scanned(t, i + 1, first, h) == scan::scanned(t, after, first, q));
        scan_keeps(t, after, first, q);
    }
    if keyword_at(t, 0, "WITH"@) && plain_at(t, 1, x) && keyword_at(t, 2, "AS"@) && t.len() > 3
        && t[3] == Lexeme::Symbol("("@) {
        beginning_is_scanned(t);
        assert(reader::cte_names(t, 1)[0] == text::lower(x));
        assert(reader::cte_names(t, 1).to_set().contains(text::lower(x)));
    }
}

/// The target of `GRANT p ON t` or `REVOKE p ON t` is a target of privileges, where `p` is
/// one word.
#[verifier::spinoff_prover]
#[verifier::rlimit(40)]
pub proof fn privilege_targets_are_found(
    a: SqlAccessAnalysis,
    l: Seq<Lexeme>,
    trees: Result<Seq<analysis::Tree>, Seq<char>>,
    value: Seq<char>,
)
    requires
        analysis::describes(a, l, trees),
        keyword_at(tokens(l), 0, "GRANT"@) || keyword_at(tokens(l), 0, "REVOKE"@),
        keyword_at(tokens(l), 1, "SELECT"@) || is_plain(tokens(l), 1),
        keyword_at(tokens(l), 2, "ON"@),
        plain_at(tokens(l), 3, value),
        ends_at(tokens(l), 3),
    ensures
        text::listed(a.privilege_targets@, text::lower(value)),
{
    only_space_is_left_out(l);
    let t = tokens(l);
    let n = text::lower(value);
    members_of(a, l, trees, n);
    keywords_are_spelled();
    symbols_differ();
    plain_table(t, 3, value);
    let first = scan::first_kw(t, 0);
    assert(first == reader::kw_at(t, 0));
    let f0 = scan::nothing_found(t);
    let f1 = scan::step(t, 0, first, f0).0;
    assert(scan::step(t, 0, first, f0).1 == 1);
    if is_plain(t, 1) {
        a_name_is_its_words(t, 1);
    }
    let f2 = scan::step(t, 1, first, f1).0;
    assert(scan::step(t, 1, first, f1).1 == 2);
    scan::step_advances(t, 2, first, f2);
    let (f3, next) = scan::step(t, 2, first, f2);
    assert(scan::scanned(t, 0, first, f0) == scan::scanned(t, 1, first, f1));
    assert(scan::scanned(t, 1, first, f1) == scan::scanned(t, 2, first, f2));
    assert(scan::scanned(t, 2, first, f2) == scan::scanned(t, next, first, f3));
    assert(scan::name_list(t, 3).0[0] == n);
    assert(scan::name_list(t, 3).0.to_set().contains(n));
    assert(reader::kw_at(t, 3) is None);
    scan_keeps(t, next, first, f3);
    reveal(keeps);
}

/// How many more parentheses are opened than closed from `i` up to `j`.
pub open spec fn depth(t: Seq<Lexeme>, i: int, j: int) -> int
    decreases j - i,
{
    if j <= i {
        0
    } else {
        depth(t, i, j - 1) + if 0 <= j - 1 < t.len() && t[j - 1] == Lexeme::Symbol("("@) {
            1int
        } else if 0 <= j - 1 < t.len() && t[j - 1] == Lexeme::Symbol(")"@) {
            -1
        } else {
            0
        }
    }
}

proof fn closing_is_found(t: Seq<Lexeme>, s: int, i: int, d: int)
    requires
        0 <= s < i <= t.len(),
        d == depth(t, s, i),
        d >= 1,
    ensures
        ({
            let p = reader::closed_from(t, i, d);
            &&& i <= p <= t.len()
            &&& forall|j: int| i <= j < p ==> #[trigger] depth(t, s, j) >= 1
            &&& depth(t, s, p) == 0 || (p == t.len() && depth(t, s, p) >= 1)
        }),
    decreases t.len() - i,
{
    if i < t.len() {
        reveal_strlit("(");
        reveal_strlit(")");
        assert("("@[0] == '(' && ")"@[0] == ')');
        let e = depth(t, s, i + 1);
        if e >= 1 {
            closing_is_found(t, s, i + 1, e);
        }
    }
}

/// A group ends behind the parenthesis that closes the one it begins with, or where nothing
/// closes it, at the end of the statement.
pub proof fn a_group_ends_where_it_is_closed(t: Seq<Lexeme>, i: int)
    requires
        0 <= i < t.len(),
        t[i] == Lexeme::Symbol("("@),
    ensures
        ({
            let p = reader::past_parens(t, i);
            &&& i < p <= t.len()
            &&& forall|j: int| i < j < p ==> #[trigger] depth(t, i, j) >= 1
            &&& depth(t, i, p) == 0 || (p == t.len() && depth(t, i, p) >= 1)
        }),
{
    assert(depth(t, i, i) == 0);
    assert(depth(t, i, i + 1) == 1);
    closing_is_found(t, i, i + 1, 1);
}

/// A `WITH` introduces each of its names: the one in front, with or without a list of its
/// columns, and where a comma stands behind its definition, those behind the comma.
pub proof fn a_with_introduces_each_name(t: Seq<Lexeme>, i: int, x: Seq<char>)
    requires
        plain_at(t, i, x),
    ensures
        ({
            let open = Lexeme::Symbol("("@);
            let columns = i + 1 < t.len() && t[i + 1] == open;
            let j = if columns {
                reader::past_parens(t, i + 1)
            } else {
                i + 1
            };
            let defined = keyword_at(t, j, "AS"@) && j + 1 < t.len() && t[j + 1] == open;
            let p = reader::past_parens(t, j + 1);
            &&& defined ==> reader::cte_names(t, i).contains(text::lower(x))
            &&& defined && p < t.len() && t[p] == Lexeme::Symbol(","@) ==> forall|n: Seq<char>|
                #[trigger] reader::cte_names(t, p + 1).contains(n) ==> reader::cte_names(
                    t,
                    i,
                ).contains(n)
            &&& defined && !(p < t.len() && t[p] == Lexeme::Symbol(","@)) ==> reader::cte_names(
                t,
                i,
            ).len() == 1
        }),
{
    keywords_are_spelled();
    let j = if i + 1 < t.len() && t[i + 1] == Lexeme::Symbol("("@) {
        reader::past_parens(t, i + 1)
    } else {
        i + 1
    };
    let p = reader::past_parens(t, j + 1);
    let all = reader::cte_names(t, i);
    if keyword_at(t, j, "AS"@) && j + 1 < t.len() && t[j + 1] == Lexeme::Symbol("("@) {
        assert(reader::kw_at(t, j) == Some(Kw::As));
        assert(all[0] == text::lower(x));
        if p < t.len() && t[p] == Lexeme::Symbol(","@) {
            let rest = reader::cte_names(t, p + 1);
            assert(reader::sym_at(t, p, ","@)) by {
                reader::parens_advance(t, j + 1, 0);
            }
            assert forall|n: Seq<char>| #[trigger] rest.contains(n) implies all.contains(n) by {
                let k = choose|k: int| 0 <= k < rest.len() && rest[k] == n;
                assert(all[k + 1] == n);
            }
        }
    }
}

/// An `IF EXISTS` or `IF NOT EXISTS` between `TABLE` and a name is passed over: the name
/// behind it is the one that is defined, and outside of privileges written.
pub proof fn conditions_are_passed_over(
    t: Seq<Lexeme>,
    i: int,
    first: Option<Kw>,
    f: Found,
    value: Seq<char>,
)
    requires
        0 <= i,
        !scan::grants(first),
    ensures
        ({
            let r = scan::at_table(t, i, first, f).0;
            let v = scan::at_definition(t, i, f).0;
            let n = text::lower(value);
            let asks = reader::word_at(t, i + 1) == Some("if"@);
            let k = if asks && reader::word_at(t, i + 2) == Some("exists"@) {
                i + 3
            } else if asks && reader::word_at(t, i + 2) == Some("not"@) && reader::word_at(t, i + 3)
                == Some("exists"@) {
                i + 4
            } else {
                i + 1
            };
            plain_at(t, k, value) && ends_at(t, k) ==> {
                &&& r.ddl.contains(n) && r.written.contains(n) && r.objects.contains(n)
                &&& v.ddl.contains(n) && v.objects.contains(n)
                &&& forall|m: Seq<char>| m != n ==> (#[trigger] r.ddl.contains(m)
                    <==> f.ddl.contains(m))
                &&& forall|m: Seq<char>| m != n ==> (#[trigger] v.ddl.contains(m)
                    <==> f.ddl.contains(m))
            }
        }),
{
    reveal_strlit("not");
    reveal_strlit("exists");
    assert("not"@.len() == 3 && "exists"@.len() == 6);
    let asks = reader::word_at(t, i + 1) == Some("if"@);
    let k = if asks && reader::word_at(t, i + 2) == Some("exists"@) {
        i + 3
    } else if asks && reader::word_at(t, i + 2) == Some("not"@) && reader::word_at(t, i + 3)
        == Some("exists"@) {
        i + 4
    } else {
        i + 1
    };
    if plain_at(t, k, value) && ends_at(t, k) {
        plain_table(t, k, value);
    }
}

proof fn entry_is_named(t: Seq<Lexeme>, i: int, k: int, value: Seq<char>)
    requires
        0 <= i + 1,
        entry(t, i, k, value),
    ensures
        scan::name_list(t, i + 1).0.contains(text::lower(value)),
    decreases k,
{
    symbols_differ();
    if k == 0 {
        plain_table(t, i + 1, value);
        assert(scan::name_list(t, i + 1).0[0] == text::lower(value));
    } else {
        assert(is_plain(t, i + 1 + 2 * 0));
        let v = t[i + 1]->value;
        assert(plain_at(t, i + 1, v));
        plain_table(t, i + 1, v);
        assert forall|m: int| 0 <= m < k - 1 implies #[trigger] is_plain(t, (i + 2) + 1 + 2 * m)
            && t[(i + 2) + 2 + 2 * m] == Lexeme::Symbol(","@) by {
            assert(is_plain(t, i + 1 + 2 * (m + 1)));
        }
        assert(i + 2 + 1 + 2 * (k - 1) == i + 1 + 2 * k);
        entry_is_named(t, i + 2, k - 1, value);
        let rest = scan::name_list(t, i + 3).0;
        let x = choose|x: int| 0 <= x < rest.len() && rest[x] == text::lower(value);
        assert(scan::name_list(t, i + 1).0[x + 1] == text::lower(value));
    }
}

/// Each name of the list behind the `ON` of a `GRANT` or `REVOKE` is a target, whether the
/// class of the targets is named in front of the list or not.
pub proof fn every_target_of_a_privilege_is_found(
    t: Seq<Lexeme>,
    i: int,
    k: int,
    f: Found,
    value: Seq<char>,
)
    requires
        0 <= i,
    ensures
        entry(t, i, k, value) ==> scan::at_privilege(t, i, f).0.privileges.contains(
            text::lower(value),
        ),
        (keyword_at(t, i + 1, "TABLE"@) || keyword_at(t, i + 1, "SCHEMA"@) || keyword_at(
            t,
            i + 1,
            "VIEW"@,
        ) || keyword_at(t, i + 1, "SEQUENCE"@) || keyword_at(t, i + 1, "FUNCTION"@)
            || keyword_at(t, i + 1, "DATABASE"@)) && entry(t, i + 1, k, value)
            ==> scan::at_privilege(t, i, f).0.privileges.contains(text::lower(value)),
{
    keywords_are_spelled();
    if entry(t, i, k, value) {
        assert(is_plain(t, i + 1)) by {
            if k > 0 {
                assert(is_plain(t, i + 1 + 2 * 0));
            }
        }
        entry_is_named(t, i, k, value);
        assert(scan::name_list(t, i + 1).0.to_set().contains(text::lower(value)));
    }
    if (keyword_at(t, i + 1, "TABLE"@) || keyword_at(t, i + 1, "SCHEMA"@) || keyword_at(
        t,
        i + 1,
        "VIEW"@,
    ) || keyword_at(t, i + 1, "SEQUENCE"@) || keyword_at(t, i + 1, "FUNCTION"@) || keyword_at(
        t,
        i + 1,
        "DATABASE"@,
    )) && entry(t, i + 1, k, value) {
        entry_is_named(t, i + 1, k, value);
        assert(scan::name_list(t, i + 2).0.to_set().contains(text::lower(value)));
    }
}

/// Of `ON ALL .. IN SCHEMA s` the schema is the target.
pub proof fn all_of_a_schema_is_the_schema(
    t: Seq<Lexeme>,
    i: int,
    k: int,
    f: Found,
    value: Seq<char>,
)
    requires
        0 <= i,
        keyword_at(t, i + 1, "ALL"@),
        i + 1 < k,
        keyword_at(t, k, "SCHEMA"@),
        forall|j: int|
            i + 1 < j < k ==> #[trigger] t[j] != Lexeme::Symbol(";"@) && !keyword_at(
                t,
                j,
                "SCHEMA"@,
            ) && !keyword_at(t, j, "TO"@) && !keyword_at(t, j, "FROM"@),
        plain_at(t, k + 1, value),
        ends_at(t, k + 1),
    ensures
        scan::at_privilege(t, i, f).0.privileges.contains(text::lower(value)),
        scan::at_privilege(t, i, f).0.objects.contains(text::lower(value)),
        scan::at_privilege(t, i, f).1 == k + 2,
{
    keywords_are_spelled();
    plain_table(t, k + 1, value);
    schema_is_reached(t, i + 1, k);
}

proof fn schema_is_reached(t: Seq<Lexeme>, j: int, k: int)
    requires
        0 <= j <= k < t.len(),
        reader::kw_at(t, k) == Some(Kw::Schema),
        forall|m: int|
            j <= m < k ==> #[trigger] t[m] != Lexeme::Symbol(";"@) && reader::kw_at(t, m) != Some(
                Kw::Schema,
            ) && reader::kw_at(t, m) != Some(Kw::To) && reader::kw_at(t, m) != Some(Kw::From),
    ensures
        scan::schema_from(t, j) == k,
    decreases k - j,
{
    if j < k {
        assert(t[j] != Lexeme::Symbol(";"@));
        schema_is_reached(t, j + 1, k);
    }
}

/// The word that stands directly before a parenthesis is a function that is called, but for
/// the words that take one for another reason.
pub proof fn what_takes_a_parenthesis_is_called(
    t: Seq<Lexeme>,
    i: int,
    first: Option<Kw>,
    f: Found,
    value: Seq<char>,
)
    requires
        plain_at(t, i, value),
        i + 1 < t.len(),
        t[i + 1] == Lexeme::Symbol("("@),
    ensures
        ({
            let u = text::upper(value);
            let apart = u == "IN"@ || u == "VALUES"@ || u == "EXISTS"@ || u == "ARRAY"@ || u
                == "ROW"@ || u == "ALL"@ || u == "ANY"@ || u == "SOME"@ || u == "OVER"@ || u
                == "FILTER"@ || u == "USING"@ || u == "ON"@ || u == "AND"@ || u == "OR"@ || u
                == "NOT"@ || u == "CASE"@ || u == "SELECT"@ || u == "TABLE"@ || u == "WHEN"@ || u
                == "FROM"@ || u == "WHERE"@;
            let r = scan::step(t, i, first, f).0;
            &&& r.functions.contains(text::lower(value)) <==> !apart || f.functions.contains(
                text::lower(value),
            )
            &&& forall|n: Seq<char>|
                n != text::lower(value) ==> (#[trigger] r.functions.contains(n)
                    <==> f.functions.contains(n))
        }),
{
    if value.len() > 0 {
        text::case_is_of_ascii_letters(value, 0);
    } else {
        assert(text::upper(text::lower(value)) =~= text::upper(value));
    }
}

/// Each parenthesis with a `SELECT` behind it counts as one sub-select, and nothing else
/// does.
#[verifier::spinoff_prover]
#[verifier::rlimit(40)]
pub proof fn sub_selects_are_counted(t: Seq<Lexeme>, i: int, first: Option<Kw>, f: Found)
    requires
        0 <= i < t.len(),
    ensures
        scan::step(t, i, first, f).0.subqueries - f.subqueries == if t[i] == Lexeme::Symbol("("@)
            && keyword_at(t, i + 1, "SELECT"@) {
            1int
        } else {
            0
        },
{
    keywords_are_spelled();
    if i + 1 < t.len() {
        select_is_spelled(t[i + 1]);
    }
}

proof fn select_is_spelled(l: Lexeme)
    ensures
        l matches Lexeme::Word { value, quoted, keyword } ==> (keyword::kw_of(text::upper(value))
            is Select <==> text::upper(value) == "SELECT"@),
{
    keywords_are_spelled();
}

/// A word is the beginning of a name unless it is one of the keywords that begin or divide
/// clauses, and those only where they are not quoted.
pub proof fn only_clause_words_name_nothing(t: Seq<Lexeme>, i: int)
    requires
        0 <= i < t.len(),
        t[i] is Word,
    ensures
        reader::name_at(t, i) is None <==> {
            ||| keyword_at(t, i, "SET"@)
            ||| keyword_at(t, i, "SELECT"@)
            ||| keyword_at(t, i, "FROM"@)
            ||| keyword_at(t, i, "WHERE"@)
            ||| keyword_at(t, i, "GROUP"@)
            ||| keyword_at(t, i, "ORDER"@)
            ||| keyword_at(t, i, "HAVING"@)
            ||| keyword_at(t, i, "LIMIT"@)
            ||| keyword_at(t, i, "OFFSET"@)
            ||| keyword_at(t, i, "VALUES"@)
            ||| keyword_at(t, i, "ON"@)
            ||| keyword_at(t, i, "AND"@)
            ||| keyword_at(t, i, "OR"@)
            ||| keyword_at(t, i, "AS"@)
            ||| keyword_at(t, i, "INTO"@)
            ||| keyword_at(t, i, "JOIN"@)
            ||| keyword_at(t, i, "UNION"@)
            ||| keyword_at(t, i, "TO"@)
            ||| keyword_at(t, i, "USING"@)
            ||| keyword_at(t, i, "WHEN"@)
            ||| keyword_at(t, i, "THEN"@)
        },
{
    keywords_are_spelled();
}

} // verus!
