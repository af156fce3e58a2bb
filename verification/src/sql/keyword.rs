//! The keywords that carry meaning for the analysis.

use crate::sql::analysis::StatementType;
use crate::text::same;
use vstd::prelude::*;

verus! {

/// A keyword of the dialect; `Other` stands for every one that the analysis
/// treats like any other word.
#[derive(Clone, Copy, Debug, PartialEq, Eq, Structural)]
pub enum Kw {
    Select,
    With,
    Where,
    Group,
    Order,
    Having,
    Limit,
    Offset,
    From,
    Join,
    Into,
    Update,
    Table,
    View,
    Index,
    Truncate,
    Using,
    Copy,
    Call,
    Execute,
    Role,
    Authorization,
    On,
    All,
    Schema,
    To,
    As,
    Only,
    Recursive,
    SetWord,
    Values,
    And,
    Or,
    Union,
    When,
    Then,
    Sequence,
    Function,
    Procedure,
    Database,
    Domain,
    Type,
    Insert,
    Delete,
    Grant,
    Revoke,
    Merge,
    Analyze,
    Explain,
    Create,
    Alter,
    Drop,
    Other,
}

/// The keyword spelled by a text in upper case.
pub open spec fn kw_of(name: Seq<char>) -> Kw {
    if name == "SELECT"@ {
        Kw::Select
    } else if name == "WITH"@ {
        Kw::With
    } else if name == "WHERE"@ {
        Kw::Where
    } else if name == "GROUP"@ {
        Kw::Group
    } else if name == "ORDER"@ {
        Kw::Order
    } else if name == "HAVING"@ {
        Kw::Having
    } else if name == "LIMIT"@ {
        Kw::Limit
    } else if name == "OFFSET"@ {
        Kw::Offset
    } else if name == "FROM"@ {
        Kw::From
    } else if name == "JOIN"@ {
        Kw::Join
    } else if name == "INTO"@ {
        Kw::Into
    } else if name == "UPDATE"@ {
        Kw::Update
    } else if name == "TABLE"@ {
        Kw::Table
    } else if name == "VIEW"@ {
        Kw::View
    } else if name == "INDEX"@ {
        Kw::Index
    } else if name == "TRUNCATE"@ {
        Kw::Truncate
    } else if name == "USING"@ {
        Kw::Using
    } else if name == "COPY"@ {
        Kw::Copy
    } else if name == "CALL"@ {
        Kw::Call
    } else if name == "EXECUTE"@ {
        Kw::Execute
    } else if name == "ROLE"@ {
        Kw::Role
    } else if name == "AUTHORIZATION"@ {
        Kw::Authorization
    } else if name == "ON"@ {
        Kw::On
    } else if name == "ALL"@ {
        Kw::All
    } else if name == "SCHEMA"@ {
        Kw::Schema
    } else if name == "TO"@ {
        Kw::To
    } else if name == "AS"@ {
        Kw::As
    } else if name == "ONLY"@ {
        Kw::Only
    } else if name == "RECURSIVE"@ {
        Kw::Recursive
    } else if name == "SET"@ {
        Kw::SetWord
    } else if name == "VALUES"@ {
        Kw::Values
    } else if name == "AND"@ {
        Kw::And
    } else if name == "OR"@ {
        Kw::Or
    } else if name == "UNION"@ {
        Kw::Union
    } else if name == "WHEN"@ {
        Kw::When
    } else if name == "THEN"@ {
        Kw::Then
    } else if name == "SEQUENCE"@ {
        Kw::Sequence
    } else if name == "FUNCTION"@ {
        Kw::Function
    } else if name == "PROCEDURE"@ {
        Kw::Procedure
    } else if name == "DATABASE"@ {
        Kw::Database
    } else if name == "DOMAIN"@ {
        Kw::Domain
    } else if name == "TYPE"@ {
        Kw::Type
    } else if name == "INSERT"@ {
        Kw::Insert
    } else if name == "DELETE"@ {
        Kw::Delete
    } else if name == "GRANT"@ {
        Kw::Grant
    } else if name == "REVOKE"@ {
        Kw::Revoke
    } else if name == "MERGE"@ {
        Kw::Merge
    } else if name == "ANALYZE"@ {
        Kw::Analyze
    } else if name == "EXPLAIN"@ {
        Kw::Explain
    } else if name == "CREATE"@ {
        Kw::Create
    } else if name == "ALTER"@ {
        Kw::Alter
    } else if name == "DROP"@ {
        Kw::Drop
    } else {
        Kw::Other
    }
}

/// The keyword that `name`, in upper case, spells.
pub fn kw_named(name: &str) -> (r: Kw)
    ensures
        r == kw_of(name@),
{
    if same(name, "SELECT") {
        Kw::Select
    } else if same(name, "WITH") {
        Kw::With
    } else if same(name, "WHERE") {
        Kw::Where
    } else if same(name, "GROUP") {
        Kw::Group
    } else if same(name, "ORDER") {
        Kw::Order
    } else if same(name, "HAVING") {
        Kw::Having
    } else if same(name, "LIMIT") {
        Kw::Limit
    } else if same(name, "OFFSET") {
        Kw::Offset
    } else if same(name, "FROM") {
        Kw::From
    } else if same(name, "JOIN") {
        Kw::Join
    } else if same(name, "INTO") {
        Kw::Into
    } else if same(name, "UPDATE") {
        Kw::Update
    } else if same(name, "TABLE") {
        Kw::Table
    } else if same(name, "VIEW") {
        Kw::View
    } else if same(name, "INDEX") {
        Kw::Index
    } else if same(name, "TRUNCATE") {
        Kw::Truncate
    } else if same(name, "USING") {
        Kw::Using
    } else if same(name, "COPY") {
        Kw::Copy
    } else if same(name, "CALL") {
        Kw::Call
    } else if same(name, "EXECUTE") {
        Kw::Execute
    } else if same(name, "ROLE") {
        Kw::Role
    } else if same(name, "AUTHORIZATION") {
        Kw::Authorization
    } else if same(name, "ON") {
        Kw::On
    } else if same(name, "ALL") {
        Kw::All
    } else if same(name, "SCHEMA") {
        Kw::Schema
    } else if same(name, "TO") {
        Kw::To
    } else if same(name, "AS") {
        Kw::As
    } else if same(name, "ONLY") {
        Kw::Only
    } else if same(name, "RECURSIVE") {
        Kw::Recursive
    } else if same(name, "SET") {
        Kw::SetWord
    } else if same(name, "VALUES") {
        Kw::Values
    } else if same(name, "AND") {
        Kw::And
    } else if same(name, "OR") {
        Kw::Or
    } else if same(name, "UNION") {
        Kw::Union
    } else if same(name, "WHEN") {
        Kw::When
    } else if same(name, "THEN") {
        Kw::Then
    } else if same(name, "SEQUENCE") {
        Kw::Sequence
    } else if same(name, "FUNCTION") {
        Kw::Function
    } else if same(name, "PROCEDURE") {
        Kw::Procedure
    } else if same(name, "DATABASE") {
        Kw::Database
    } else if same(name, "DOMAIN") {
        Kw::Domain
    } else if same(name, "TYPE") {
        Kw::Type
    } else if same(name, "INSERT") {
        Kw::Insert
    } else if same(name, "DELETE") {
        Kw::Delete
    } else if same(name, "GRANT") {
        Kw::Grant
    } else if same(name, "REVOKE") {
        Kw::Revoke
    } else if same(name, "MERGE") {
        Kw::Merge
    } else if same(name, "ANALYZE") {
        Kw::Analyze
    } else if same(name, "EXPLAIN") {
        Kw::Explain
    } else if same(name, "CREATE") {
        Kw::Create
    } else if same(name, "ALTER") {
        Kw::Alter
    } else if same(name, "DROP") {
        Kw::Drop
    } else {
        Kw::Other
    }
}

impl Kw {
    /// A reserved clause keyword, which is never the name of an object. Keywords
    /// that are not reserved (`public`, `name`, `user`) are not among these, so
    /// objects named like them are still read.
    pub open spec fn reserved(self) -> bool {
        self is SetWord || self is Select || self is From || self is Where || self is Group
            || self is Order || self is Having || self is Limit || self is Offset || self is Values
            || self is On || self is And || self is Or || self is As || self is Into || self is Join
            || self is Union || self is To || self is Using || self is When || self is Then
    }

    /// A keyword that names the class of a privilege's target, as in
    /// `GRANT .. ON TABLE t`.
    pub open spec fn object_class(self) -> bool {
        self is Table || self is Schema || self is Sequence || self is Function || self is Procedure
            || self is Database || self is Domain || self is Type || self is View
    }

    /// The statement that begins with the keyword.
    pub open spec fn statement(self) -> StatementType {
        match self {
            Kw::Select | Kw::With => StatementType::Select,
            Kw::Insert => StatementType::Insert,
            Kw::Update => StatementType::Update,
            Kw::Delete => StatementType::Delete,
            Kw::Copy => StatementType::Copy,
            Kw::Truncate => StatementType::Truncate,
            Kw::Grant => StatementType::Grant,
            Kw::Revoke => StatementType::Revoke,
            Kw::Call | Kw::Execute => StatementType::Call,
            Kw::Merge => StatementType::Merge,
            Kw::Analyze => StatementType::Analyze,
            Kw::Explain => StatementType::Explain,
            Kw::SetWord => StatementType::SetVariable,
            Kw::Create => StatementType::CreateTable,
            Kw::Alter => StatementType::AlterTable,
            Kw::Drop => StatementType::Drop,
            _ => StatementType::Other,
        }
    }
}

/// Whether the keyword is reserved for a clause.
pub fn is_reserved_clause_kw(kw: Kw) -> (r: bool)
    ensures
        r == kw.reserved(),
{
    matches!(
        kw,
        Kw::SetWord | Kw::Select | Kw::From | Kw::Where | Kw::Group | Kw::Order | Kw::Having | Kw::Limit
        | Kw::Offset | Kw::Values | Kw::On | Kw::And | Kw::Or | Kw::As | Kw::Into | Kw::Join
        | Kw::Union | Kw::To | Kw::Using | Kw::When | Kw::Then
    )
}

/// Whether the keyword introduces the target of a privilege.
pub fn is_object_class_kw(kw: Kw) -> (r: bool)
    ensures
        r == kw.object_class(),
{
    matches!(
        kw,
        Kw::Table | Kw::Schema | Kw::Sequence | Kw::Function | Kw::Procedure | Kw::Database
        | Kw::Domain | Kw::Type | Kw::View
    )
}

/// The statement class that a leading keyword announces.
pub fn stmt_type_from_kw(kw: Kw) -> (r: StatementType)
    ensures
        r == kw.statement(),
{
    match kw {
        Kw::Select | Kw::With => StatementType::Select,
        Kw::Insert => StatementType::Insert,
        Kw::Update => StatementType::Update,
        Kw::Delete => StatementType::Delete,
        Kw::Copy => StatementType::Copy,
        Kw::Truncate => StatementType::Truncate,
        Kw::Grant => StatementType::Grant,
        Kw::Revoke => StatementType::Revoke,
        Kw::Call | Kw::Execute => StatementType::Call,
        Kw::Merge => StatementType::Merge,
        Kw::Analyze => StatementType::Analyze,
        Kw::Explain => StatementType::Explain,
        Kw::SetWord => StatementType::SetVariable,
        Kw::Create => StatementType::CreateTable,
        Kw::Alter => StatementType::AlterTable,
        Kw::Drop => StatementType::Drop,
        _ => StatementType::Other,
    }
}

} // verus!
