//! What an analysis contributes to an audit record, and what holds of every
//! analysis.

use crate::names;
use crate::sql::analysis::{self, ParserConfidence, SqlAccessAnalysis, StatementType};
use crate::sql::fingerprint;
use crate::sql::token::Lexeme;
use crate::text::{self, same};
use vstd::prelude::*;

verus! {

/// The fields of an audit record, by key.
#[derive(Clone, Debug, PartialEq, Eq)]
pub struct AuditFields {
    /// Keys and values, in ascending order of the keys.
    pub entries: Vec<(String, String)>,
}

/// The keys and values of a list, by their texts.
pub open spec fn pairs(v: Seq<(String, String)>) -> Seq<(Seq<char>, Seq<char>)> {
    v.map_values(|e: (String, String)| (e.0@, e.1@))
}

impl View for AuditFields {
    type V = Seq<(Seq<char>, Seq<char>)>;

    open spec fn view(&self) -> Seq<(Seq<char>, Seq<char>)> {
        pairs(self.entries@)
    }
}

impl AuditFields {
    /// The value under a key, where there is one.
    pub fn get(&self, key: &str) -> (r: Option<&String>)
        ensures
            match r {
                Some(v) => exists|i: int|
                    0 <= i < self@.len() && (#[trigger] self@[i]) == (key@, v@) && forall|j: int|
                        0 <= j < i ==> (#[trigger] self@[j]).0 != key@,
                None => forall|i: int| 0 <= i < self@.len() ==> (#[trigger] self@[i]).0 != key@,
            },
    {
        let mut i: usize = 0;
        while i < self.entries.len()
            invariant
                i <= self.entries.len(),
                forall|j: int| 0 <= j < i ==> (#[trigger] self@[j]).0 != key@,
            decreases self.entries.len() - i,
        {
            assert(self@[i as int] == (self.entries@[i as int].0@, self.entries@[i as int].1@));
            if same(self.entries[i].0.as_str(), key) {
                return Some(&self.entries[i].1);
            }
            i += 1;
        }
        None
    }
}

/// A flag: one entry with the value `true`, or none.
pub open spec fn flag(set: bool, key: Seq<char>) -> Seq<(Seq<char>, Seq<char>)> {
    if set {
        seq![(key, "true"@)]
    } else {
        Seq::empty()
    }
}

/// The audit fields of an analysis: its class, its fingerprint where it has one,
/// and a flag for each of a schema change, a bulk operation, an export and a
/// change of privileges.
pub open spec fn audit_fields(a: SqlAccessAnalysis) -> Seq<(Seq<char>, Seq<char>)> {
    let s = a.statement_type;
    flag(s.ddl(), "administrative_operation"@) + flag(a.estimated_bulk, "bulk_operation"@) + flag(
        a.copy_source is Some,
        "export_operation"@,
    ) + flag(s is Grant || s is Revoke || s is SetRole, "privilege_operation"@) + seq![
        ("query_type"@, s.query_type().name()),
    ] + if a.query_fingerprint@.len() > 0 {
        seq![("statement_fingerprint"@, a.query_fingerprint@)]
    } else {
        Seq::empty()
    }
}

fn push_entry(entries: &mut Vec<(String, String)>, key: &str, value: &str)
    ensures
        pairs(final(entries)@) == pairs(old(entries)@).push((key@, value@)),
{
    let k = String::from_str(key);
    let v = String::from_str(value);
    entries.push((k, v));
    assert(pairs(entries@) =~= pairs(old(entries)@).push((key@, value@)));
}

fn push_flag(entries: &mut Vec<(String, String)>, set: bool, key: &str)
    ensures
        pairs(final(entries)@) == pairs(old(entries)@) + flag(set, key@),
{
    if set {
        push_entry(entries, key, "true");
        assert(pairs(entries@) =~= pairs(old(entries)@) + flag(set, key@));
    } else {
        assert(pairs(entries@) =~= pairs(old(entries)@) + flag(set, key@));
    }
}

impl SqlAccessAnalysis {
    /// Whether the statement exports data.
    pub fn is_export(&self) -> (r: bool)
        ensures
            r == (self.copy_source is Some),
    {
        self.copy_source.is_some()
    }

    /// The audit fields of the analysis.
    pub fn to_audit_fields(&self) -> (r: AuditFields)
        ensures
            r@ == audit_fields(*self),
    {
        let mut entries: Vec<(String, String)> = Vec::new();
        assert(pairs(entries@) =~= Seq::<(Seq<char>, Seq<char>)>::empty());
        push_flag(&mut entries, self.statement_type.is_ddl(), "administrative_operation");
        push_flag(&mut entries, self.estimated_bulk, "bulk_operation");
        push_flag(&mut entries, self.is_export(), "export_operation");
        push_flag(&mut entries, self.statement_type.is_privilege(), "privilege_operation");
        push_entry(&mut entries, "query_type", self.statement_type.to_query_type().as_str());
        if !self.query_fingerprint.as_str().is_empty() {
            push_entry(&mut entries, "statement_fingerprint", self.query_fingerprint.as_str());
        }
        let r = AuditFields { entries };
        assert(r@ =~= audit_fields(*self));
        r
    }
}

/// Some entry has the key.
pub open spec fn has_key(fields: Seq<(Seq<char>, Seq<char>)>, key: Seq<char>) -> bool {
    exists|i: int| 0 <= i < fields.len() && (#[trigger] fields[i]).0 == key
}

proof fn key_of_sum(
    a: Seq<(Seq<char>, Seq<char>)>,
    b: Seq<(Seq<char>, Seq<char>)>,
    key: Seq<char>,
)
    ensures
        has_key(a + b, key) == (has_key(a, key) || has_key(b, key)),
{
    let c = a + b;
    if has_key(a, key) {
        let i = choose|i: int| 0 <= i < a.len() && (#[trigger] a[i]).0 == key;
        assert(c[i].0 == key);
    }
    if has_key(b, key) {
        let i = choose|i: int| 0 <= i < b.len() && (#[trigger] b[i]).0 == key;
        assert(c[a.len() + i].0 == key);
    }
    if has_key(c, key) {
        let i = choose|i: int| 0 <= i < c.len() && (#[trigger] c[i]).0 == key;
        if i < a.len() {
            assert(a[i].0 == key);
        } else {
            assert(b[i - a.len()].0 == key);
        }
    }
}

proof fn key_of_flag(set: bool, k: Seq<char>, key: Seq<char>)
    ensures
        has_key(flag(set, k), key) == (set && k == key),
{
    if set {
        assert(flag(set, k)[0].0 == k);
    }
}

/// The audit fields of an analysis always give its class, and each flag is set
/// just when what it tells holds.
pub proof fn audit_flags_are_exact(a: SqlAccessAnalysis)
    ensures
        has_key(audit_fields(a), "query_type"@),
        has_key(audit_fields(a), "bulk_operation"@) == a.estimated_bulk,
        has_key(audit_fields(a), "export_operation"@) == (a.copy_source is Some),
        has_key(audit_fields(a), "administrative_operation"@) == a.statement_type.ddl(),
        has_key(audit_fields(a), "privilege_operation"@) == (a.statement_type is Grant
            || a.statement_type is Revoke || a.statement_type is SetRole),
        has_key(audit_fields(a), "statement_fingerprint"@) == (a.query_fingerprint@.len() > 0),
{
    reveal_strlit("administrative_operation");
    reveal_strlit("bulk_operation");
    reveal_strlit("export_operation");
    reveal_strlit("privilege_operation");
    reveal_strlit("query_type");
    reveal_strlit("statement_fingerprint");
    assert("administrative_operation"@.len() == 24 && "bulk_operation"@.len() == 14
        && "export_operation"@.len() == 16 && "privilege_operation"@.len() == 19
        && "query_type"@.len() == 10 && "statement_fingerprint"@.len() == 21);
    keys_of(a, "query_type"@);
    keys_of(a, "bulk_operation"@);
    keys_of(a, "export_operation"@);
    keys_of(a, "administrative_operation"@);
    keys_of(a, "privilege_operation"@);
    keys_of(a, "statement_fingerprint"@);
}

proof fn keys_of(a: SqlAccessAnalysis, key: Seq<char>)
    ensures
        has_key(audit_fields(a), key) == {
            ||| a.statement_type.ddl() && key == "administrative_operation"@
            ||| a.estimated_bulk && key == "bulk_operation"@
            ||| a.copy_source is Some && key == "export_operation"@
            ||| (a.statement_type is Grant || a.statement_type is Revoke
                || a.statement_type is SetRole) && key == "privilege_operation"@
            ||| key == "query_type"@
            ||| a.query_fingerprint@.len() > 0 && key == "statement_fingerprint"@
        },
{
    let s = a.statement_type;
    let f0 = flag(s.ddl(), "administrative_operation"@);
    let f1 = flag(a.estimated_bulk, "bulk_operation"@);
    let f2 = flag(a.copy_source is Some, "export_operation"@);
    let f3 = flag(s is Grant || s is Revoke || s is SetRole, "privilege_operation"@);
    let f4 = seq![("query_type"@, s.query_type().name())];
    let f5 = if a.query_fingerprint@.len() > 0 {
        seq![("statement_fingerprint"@, a.query_fingerprint@)]
    } else {
        Seq::empty()
    };
    key_of_flag(s.ddl(), "administrative_operation"@, key);
    key_of_flag(a.estimated_bulk, "bulk_operation"@, key);
    key_of_flag(a.copy_source is Some, "export_operation"@, key);
    key_of_flag(s is Grant || s is Revoke || s is SetRole, "privilege_operation"@, key);
    assert(has_key(f4, key) == (key == "query_type"@)) by {
        assert(f4[0].0 == "query_type"@);
    }
    assert(has_key(f5, key) == (a.query_fingerprint@.len() > 0 && key == "statement_fingerprint"@)) by {
        if a.query_fingerprint@.len() > 0 {
            assert(f5[0].0 == "statement_fingerprint"@);
        }
    }
    key_of_sum(f0, f1, key);
    key_of_sum(f0 + f1, f2, key);
    key_of_sum(f0 + f1 + f2, f3, key);
    key_of_sum(f0 + f1 + f2 + f3, f4, key);
    key_of_sum(f0 + f1 + f2 + f3 + f4, f5, key);
}

/// The fingerprint of an analysis is the one that is taken of the text alone, and
/// is the hash of the normal form that the analysis carries.
pub proof fn fingerprint_is_that_of_the_analysis(
    a: SqlAccessAnalysis,
    sql: Seq<char>,
    l: Seq<Lexeme>,
    trees: Result<Seq<analysis::Tree>, Seq<char>>,
)
    requires
        analysis::describes(a, l, trees),
    ensures
        a.query_fingerprint@ == analysis::fingerprinted(sql, Ok(l)),
        a.query_fingerprint@ == fingerprint::fingerprint_of(a.normalized_statement@),
{
}

/// A name that the statement introduces itself is in none of the lists of tables
/// and objects.
pub proof fn cte_names_are_no_tables(
    a: SqlAccessAnalysis,
    l: Seq<Lexeme>,
    trees: Result<Seq<analysis::Tree>, Seq<char>>,
    name: Seq<char>,
)
    requires
        analysis::describes(a, l, trees),
        text::listed(a.ctes@, name),
    ensures
        !text::listed(a.read_tables@, name),
        !text::listed(a.written_tables@, name),
        !text::listed(a.referenced_objects@, name),
{
    assert(names::members(a.ctes@).contains(name));
    assert(!names::members(a.read_tables@).contains(name));
    assert(!names::members(a.written_tables@).contains(name));
    assert(!names::members(a.referenced_objects@).contains(name));
}

/// A statement that did not parse hides nothing: every table that its tokens show
/// as read or written is listed as unresolved, and nothing else is.
pub proof fn unparsed_access_stays_visible(
    a: SqlAccessAnalysis,
    l: Seq<Lexeme>,
    error: Seq<char>,
    name: Seq<char>,
)
    requires
        analysis::describes(a, l, Err(error)),
    ensures
        a.parser_confidence == ParserConfidence::Low,
        text::listed(a.unresolved_objects@, name) == (text::listed(a.read_tables@, name) || text::listed(
            a.written_tables@,
            name,
        )),
{
    assert(names::members(a.unresolved_objects@).contains(name) == (names::members(a.read_tables@).contains(name)
        || names::members(a.written_tables@).contains(name)));
}

/// Every export counts as a bulk operation.
pub proof fn exports_are_bulk(
    a: SqlAccessAnalysis,
    l: Seq<Lexeme>,
    trees: Result<Seq<analysis::Tree>, Seq<char>>,
)
    requires
        analysis::describes(a, l, trees),
        a.copy_source is Some,
    ensures
        a.estimated_bulk,
{
}

/// A change of role that the tokens show is never reported as anything else,
/// whatever the parser made of the statement.
pub proof fn role_changes_keep_their_class(
    a: SqlAccessAnalysis,
    l: Seq<Lexeme>,
    trees: Result<Seq<analysis::Tree>, Seq<char>>,
)
    requires
        analysis::describes(a, l, trees),
        crate::sql::scan::findings(crate::sql::reader::unspaced(l)).statement_type
            == StatementType::SetRole,
    ensures
        a.statement_type == StatementType::SetRole,
{
}

/// The audit fields of an analysis hold its coarse class by name and its fingerprint as they
/// are, and every flag as `true`.
pub proof fn audit_values_are_exact(a: SqlAccessAnalysis, i: int)
    requires
        0 <= i < audit_fields(a).len(),
    ensures
        audit_fields(a)[i].0 == "query_type"@ ==> audit_fields(a)[i].1
            == a.statement_type.query_type().name(),
        audit_fields(a)[i].0 == "statement_fingerprint"@ ==> audit_fields(a)[i].1
            == a.query_fingerprint@,
        audit_fields(a)[i].0 == "bulk_operation"@ || audit_fields(a)[i].0 == "export_operation"@
            || audit_fields(a)[i].0 == "administrative_operation"@ || audit_fields(a)[i].0
            == "privilege_operation"@ ==> audit_fields(a)[i].1 == "true"@,
{
    reveal_strlit("administrative_operation");
    reveal_strlit("bulk_operation");
    reveal_strlit("export_operation");
    reveal_strlit("privilege_operation");
    reveal_strlit("query_type");
    reveal_strlit("statement_fingerprint");
    assert("administrative_operation"@.len() == 24 && "bulk_operation"@.len() == 14
        && "export_operation"@.len() == 16 && "privilege_operation"@.len() == 19
        && "query_type"@.len() == 10 && "statement_fingerprint"@.len() == 21);
    let s = a.statement_type;
    let f0 = flag(s.ddl(), "administrative_operation"@);
    let f1 = flag(a.estimated_bulk, "bulk_operation"@);
    let f2 = flag(a.copy_source is Some, "export_operation"@);
    let f3 = flag(s is Grant || s is Revoke || s is SetRole, "privilege_operation"@);
    let head = f0 + f1 + f2 + f3;
    if i < head.len() {
        assert(audit_fields(a)[i] == head[i]);
    } else if i == head.len() {
        assert(audit_fields(a)[i] == ("query_type"@, s.query_type().name()));
    } else {
        assert(audit_fields(a)[i] == ("statement_fingerprint"@, a.query_fingerprint@));
    }
}

} // verus!
