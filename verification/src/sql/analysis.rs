//! What a statement does, as far as its text tells.

use crate::names;
use crate::sql::fingerprint::{self, fingerprint_text, normalize};
use crate::sql::parsable::{self, NOT_PARSED, is_parsable};
use crate::sql::reader::{self, without_space};
use crate::sql::scan::{self, scan, Found};
use crate::sql::token::{self, tokenize, Flavour, Lexeme, Tok};
use crate::text::{self, join, split_words, unicode_lower};
use sqlparser::ast::Statement;
use sqlparser::dialect::PostgreSqlDialect;
use sqlparser::parser::Parser;
use vstd::prelude::*;

verus! {

/// How confident the analysis is, by the layer that produced it.
#[derive(Clone, Copy, Debug, PartialEq, Eq, Structural)]
pub enum ParserConfidence {
    /// The whole statement was parsed.
    High,
    /// Parsing failed; the analysis rests on the tokens alone.
    Low,
    /// Not even the tokens could be read.
    Absent,
}

impl Default for ParserConfidence {
    fn default() -> (r: ParserConfidence)
        ensures
            r == ParserConfidence::Absent,
    {
        ParserConfidence::Absent
    }
}

/// The class of a statement. `Other` is a statement outside the named classes,
/// `Unknown` one that nothing classified.
#[derive(Clone, Copy, Debug, PartialEq, Eq, Structural)]
pub enum StatementType {
    Select,
    Insert,
    Update,
    Delete,
    Copy,
    CreateTable,
    CreateView,
    CreateIndex,
    CreateSchema,
    CreateFunction,
    AlterTable,
    AlterRole,
    Drop,
    Truncate,
    Grant,
    Revoke,
    Call,
    SetRole,
    Merge,
    Analyze,
    Explain,
    SetVariable,
    Other,
    Unknown,
}

impl Default for StatementType {
    fn default() -> (r: StatementType)
        ensures
            r == StatementType::Unknown,
    {
        StatementType::Unknown
    }
}

/// The coarse class of a statement that an audit record carries.
#[derive(Clone, Copy, Debug, PartialEq, Eq, Structural)]
pub enum QueryType {
    Select,
    Insert,
    Update,
    Delete,
    Copy,
    Create,
    Alter,
    Drop,
    Truncate,
    Grant,
    Revoke,
    SetRole,
    Call,
    Other,
}

impl QueryType {
    pub open spec fn name(self) -> Seq<char> {
        match self {
            QueryType::Select => "select"@,
            QueryType::Insert => "insert"@,
            QueryType::Update => "update"@,
            QueryType::Delete => "delete"@,
            QueryType::Copy => "copy"@,
            QueryType::Create => "create"@,
            QueryType::Alter => "alter"@,
            QueryType::Drop => "drop"@,
            QueryType::Truncate => "truncate"@,
            QueryType::Grant => "grant"@,
            QueryType::Revoke => "revoke"@,
            QueryType::SetRole => "set_role"@,
            QueryType::Call => "call"@,
            QueryType::Other => "other"@,
        }
    }

    /// The name that stands in an audit record.
    pub fn as_str(self) -> (r: &'static str)
        ensures
            r@ == self.name(),
    {
        match self {
            QueryType::Select => "select",
            QueryType::Insert => "insert",
            QueryType::Update => "update",
            QueryType::Delete => "delete",
            QueryType::Copy => "copy",
            QueryType::Create => "create",
            QueryType::Alter => "alter",
            QueryType::Drop => "drop",
            QueryType::Truncate => "truncate",
            QueryType::Grant => "grant",
            QueryType::Revoke => "revoke",
            QueryType::SetRole => "set_role",
            QueryType::Call => "call",
            QueryType::Other => "other",
        }
    }
}

impl StatementType {
    pub open spec fn name(self) -> Seq<char> {
        match self {
            StatementType::Select => "select"@,
            StatementType::Insert => "insert"@,
            StatementType::Update => "update"@,
            StatementType::Delete => "delete"@,
            StatementType::Copy => "copy"@,
            StatementType::CreateTable => "create_table"@,
            StatementType::CreateView => "create_view"@,
            StatementType::CreateIndex => "create_index"@,
            StatementType::CreateSchema => "create_schema"@,
            StatementType::CreateFunction => "create_function"@,
            StatementType::AlterTable => "alter_table"@,
            StatementType::AlterRole => "alter_role"@,
            StatementType::Drop => "drop"@,
            StatementType::Truncate => "truncate"@,
            StatementType::Grant => "grant"@,
            StatementType::Revoke => "revoke"@,
            StatementType::Call => "call"@,
            StatementType::SetRole => "set_role"@,
            StatementType::Merge => "merge"@,
            StatementType::Analyze => "analyze"@,
            StatementType::Explain => "explain"@,
            StatementType::SetVariable => "set"@,
            StatementType::Other => "other"@,
            StatementType::Unknown => "unknown"@,
        }
    }

    /// The name of the class, in lower case with underscores.
    pub fn as_str(self) -> (r: &'static str)
        ensures
            r@ == self.name(),
    {
        match self {
            StatementType::Select => "select",
            StatementType::Insert => "insert",
            StatementType::Update => "update",
            StatementType::Delete => "delete",
            StatementType::Copy => "copy",
            StatementType::CreateTable => "create_table",
            StatementType::CreateView => "create_view",
            StatementType::CreateIndex => "create_index",
            StatementType::CreateSchema => "create_schema",
            StatementType::CreateFunction => "create_function",
            StatementType::AlterTable => "alter_table",
            StatementType::AlterRole => "alter_role",
            StatementType::Drop => "drop",
            StatementType::Truncate => "truncate",
            StatementType::Grant => "grant",
            StatementType::Revoke => "revoke",
            StatementType::Call => "call",
            StatementType::SetRole => "set_role",
            StatementType::Merge => "merge",
            StatementType::Analyze => "analyze",
            StatementType::Explain => "explain",
            StatementType::SetVariable => "set",
            StatementType::Other => "other",
            StatementType::Unknown => "unknown",
        }
    }

    pub open spec fn query_type(self) -> QueryType {
        match self {
            StatementType::Select | StatementType::Analyze | StatementType::Explain => QueryType::Select,
            StatementType::Insert | StatementType::Merge => QueryType::Insert,
            StatementType::Update => QueryType::Update,
            StatementType::Delete => QueryType::Delete,
            StatementType::Copy => QueryType::Copy,
            StatementType::CreateTable
            | StatementType::CreateView
            | StatementType::CreateIndex
            | StatementType::CreateSchema
            | StatementType::CreateFunction => QueryType::Create,
            StatementType::AlterTable | StatementType::AlterRole => QueryType::Alter,
            StatementType::Drop => QueryType::Drop,
            StatementType::Truncate => QueryType::Truncate,
            StatementType::Grant => QueryType::Grant,
            StatementType::Revoke => QueryType::Revoke,
            StatementType::SetRole => QueryType::SetRole,
            StatementType::Call => QueryType::Call,
            StatementType::SetVariable | StatementType::Other | StatementType::Unknown => QueryType::Other,
        }
    }

    /// The coarse class that an audit record carries.
    pub fn to_query_type(self) -> (r: QueryType)
        ensures
            r == self.query_type(),
    {
        match self {
            StatementType::Select | StatementType::Analyze | StatementType::Explain => QueryType::Select,
            StatementType::Insert | StatementType::Merge => QueryType::Insert,
            StatementType::Update => QueryType::Update,
            StatementType::Delete => QueryType::Delete,
            StatementType::Copy => QueryType::Copy,
            StatementType::CreateTable
            | StatementType::CreateView
            | StatementType::CreateIndex
            | StatementType::CreateSchema
            | StatementType::CreateFunction => QueryType::Create,
            StatementType::AlterTable | StatementType::AlterRole => QueryType::Alter,
            StatementType::Drop => QueryType::Drop,
            StatementType::Truncate => QueryType::Truncate,
            StatementType::Grant => QueryType::Grant,
            StatementType::Revoke => QueryType::Revoke,
            StatementType::SetRole => QueryType::SetRole,
            StatementType::Call => QueryType::Call,
            StatementType::SetVariable | StatementType::Other | StatementType::Unknown => QueryType::Other,
        }
    }

    /// A statement that changes privileges or the acting role.
    pub fn is_privilege(self) -> (r: bool)
        ensures
            r == (self is Grant || self is Revoke || self is SetRole),
    {
        matches!(self, StatementType::Grant | StatementType::Revoke | StatementType::SetRole)
    }

    pub open spec fn ddl(self) -> bool {
        self is CreateTable || self is CreateView || self is CreateIndex || self is CreateSchema
            || self is CreateFunction || self is AlterTable || self is Drop || self is Truncate
    }

    /// A statement that changes the schema.
    pub fn is_ddl(self) -> (r: bool)
        ensures
            r == self.ddl(),
    {
        matches!(
            self,
            StatementType::CreateTable
            | StatementType::CreateView
            | StatementType::CreateIndex
            | StatementType::CreateSchema
            | StatementType::CreateFunction
            | StatementType::AlterTable
            | StatementType::Drop
            | StatementType::Truncate
        )
    }
}

/// The normalized result of analyzing one statement. Every list of names is in
/// ascending order and holds no name twice.
#[derive(Clone, Debug, PartialEq, Eq)]
pub struct SqlAccessAnalysis {
    /// The version of the format, a colon and the hash of the normal form.
    pub query_fingerprint: String,
    /// The normal form, of which the fingerprint is taken.
    pub normalized_statement: String,
    pub statement_type: StatementType,
    /// Tables and views read from.
    pub read_tables: Vec<String>,
    /// Tables written to.
    pub written_tables: Vec<String>,
    /// Every name seen where an object stands.
    pub referenced_objects: Vec<String>,
    /// Qualified columns.
    pub referenced_columns: Vec<String>,
    pub referenced_functions: Vec<String>,
    /// Procedures invoked by `CALL` or `EXECUTE`.
    pub called_procedures: Vec<String>,
    /// Tables brought in by a join.
    pub joined_resources: Vec<String>,
    /// Qualified columns of the `WHERE` predicate.
    pub predicates: Vec<String>,
    pub has_where: bool,
    pub grouping: bool,
    pub ordering: bool,
    /// The `LIMIT`, where it is a literal number.
    pub limit: Option<u64>,
    /// How many nested sub-selects there are.
    pub subqueries: usize,
    /// Names of common table expressions, which are no tables.
    pub ctes: Vec<String>,
    /// What a `COPY .. TO` reads data out of.
    pub copy_source: Option<String>,
    /// What a `COPY .. FROM` writes data into.
    pub copy_destination: Option<String>,
    /// Targets of `GRANT` and `REVOKE`.
    pub privilege_targets: Vec<String>,
    /// Roles switched to.
    pub role_changes: Vec<String>,
    /// Objects created, altered, dropped or truncated.
    pub ddl_objects: Vec<String>,
    /// The statement selects all columns.
    pub wildcard_columns: bool,
    /// An export, or a read without bound.
    pub estimated_bulk: bool,
    /// The statement uses bind parameters.
    pub parameterized: bool,
    /// Sensitive objects, filled by the catalog.
    pub sensitive_resource_hits: Vec<String>,
    pub parser_confidence: ParserConfidence,
    /// Names that stay unconfirmed because the statement did not parse.
    pub unresolved_objects: Vec<String>,
    pub parse_error: Option<String>,
}

impl Default for SqlAccessAnalysis {
    fn default() -> (r: SqlAccessAnalysis)
        ensures
            is_blank(r),
    {
        SqlAccessAnalysis {
            query_fingerprint: String::new(),
            normalized_statement: String::new(),
            statement_type: StatementType::Unknown,
            read_tables: Vec::new(),
            written_tables: Vec::new(),
            referenced_objects: Vec::new(),
            referenced_columns: Vec::new(),
            referenced_functions: Vec::new(),
            called_procedures: Vec::new(),
            joined_resources: Vec::new(),
            predicates: Vec::new(),
            has_where: false,
            grouping: false,
            ordering: false,
            limit: None,
            subqueries: 0,
            ctes: Vec::new(),
            copy_source: None,
            copy_destination: None,
            privilege_targets: Vec::new(),
            role_changes: Vec::new(),
            ddl_objects: Vec::new(),
            wildcard_columns: false,
            estimated_bulk: false,
            parameterized: false,
            sensitive_resource_hits: Vec::new(),
            parser_confidence: ParserConfidence::Absent,
            unresolved_objects: Vec::new(),
            parse_error: None,
        }
    }
}

/// Nothing is known of the structure of the statement.
pub open spec fn structure_unknown(r: SqlAccessAnalysis) -> bool {
    &&& r.statement_type == StatementType::Unknown
    &&& r.read_tables@.len() == 0
    &&& r.written_tables@.len() == 0
    &&& r.referenced_objects@.len() == 0
    &&& r.referenced_columns@.len() == 0
    &&& r.referenced_functions@.len() == 0
    &&& r.called_procedures@.len() == 0
    &&& r.joined_resources@.len() == 0
    &&& r.predicates@.len() == 0
    &&& !r.has_where
    &&& !r.grouping
    &&& !r.ordering
    &&& r.limit is None
    &&& r.subqueries == 0
    &&& r.ctes@.len() == 0
    &&& r.copy_source is None
    &&& r.copy_destination is None
    &&& r.privilege_targets@.len() == 0
    &&& r.role_changes@.len() == 0
    &&& r.ddl_objects@.len() == 0
    &&& !r.wildcard_columns
    &&& !r.estimated_bulk
    &&& !r.parameterized
    &&& r.sensitive_resource_hits@.len() == 0
    &&& r.parser_confidence == ParserConfidence::Absent
    &&& r.unresolved_objects@.len() == 0
}

/// Every field is empty.
pub open spec fn is_blank(r: SqlAccessAnalysis) -> bool {
    &&& structure_unknown(r)
    &&& r.query_fingerprint@.len() == 0
    &&& r.normalized_statement@.len() == 0
    &&& r.parse_error is None
}

/// What stands at the root of a syntax tree.
#[derive(Clone, Copy, Debug, PartialEq, Eq, Structural)]
pub enum Tree {
    Query,
    Insert,
    Update,
    Delete,
    Copy,
    Merge,
    Truncate,
    Call,
    Analyze,
    Explain,
    ExplainTable,
    CreateTable,
    CreateView,
    CreateIndex,
    CreateSchema,
    CreateFunction,
    AlterTable,
    AlterRole,
    Drop,
    Grant,
    Revoke,
    /// Any other statement.
    Other,
}

/// The class of a parsed statement.
pub open spec fn class_of(tree: Tree) -> StatementType {
    match tree {
        Tree::Query => StatementType::Select,
        Tree::Insert => StatementType::Insert,
        Tree::Update => StatementType::Update,
        Tree::Delete => StatementType::Delete,
        Tree::Copy => StatementType::Copy,
        Tree::Merge => StatementType::Merge,
        Tree::Truncate => StatementType::Truncate,
        Tree::Call => StatementType::Call,
        Tree::Analyze => StatementType::Analyze,
        Tree::Explain => StatementType::Explain,
        Tree::ExplainTable => StatementType::Explain,
        Tree::CreateTable => StatementType::CreateTable,
        Tree::CreateView => StatementType::CreateView,
        Tree::CreateIndex => StatementType::CreateIndex,
        Tree::CreateSchema => StatementType::CreateSchema,
        Tree::CreateFunction => StatementType::CreateFunction,
        Tree::AlterTable => StatementType::AlterTable,
        Tree::AlterRole => StatementType::AlterRole,
        Tree::Drop => StatementType::Drop,
        Tree::Grant => StatementType::Grant,
        Tree::Revoke => StatementType::Revoke,
        Tree::Other => StatementType::Other,
    }
}

/// The class of a parsed statement.
pub fn classify_ast(tree: Tree) -> (r: StatementType)
    ensures
        r == class_of(tree),
{
    match tree {
        Tree::Query => StatementType::Select,
        Tree::Insert => StatementType::Insert,
        Tree::Update => StatementType::Update,
        Tree::Delete => StatementType::Delete,
        Tree::Copy => StatementType::Copy,
        Tree::Merge => StatementType::Merge,
        Tree::Truncate => StatementType::Truncate,
        Tree::Call => StatementType::Call,
        Tree::Analyze => StatementType::Analyze,
        Tree::Explain => StatementType::Explain,
        Tree::ExplainTable => StatementType::Explain,
        Tree::CreateTable => StatementType::CreateTable,
        Tree::CreateView => StatementType::CreateView,
        Tree::CreateIndex => StatementType::CreateIndex,
        Tree::CreateSchema => StatementType::CreateSchema,
        Tree::CreateFunction => StatementType::CreateFunction,
        Tree::AlterTable => StatementType::AlterTable,
        Tree::AlterRole => StatementType::AlterRole,
        Tree::Drop => StatementType::Drop,
        Tree::Grant => StatementType::Grant,
        Tree::Revoke => StatementType::Revoke,
        Tree::Other => StatementType::Other,
    }
}

/// A statement of the parser.
#[verifier::external_type_specification]
#[verifier::external_body]
pub struct ExStatement(sqlparser::ast::Statement);

/// What stands at the root of a statement's syntax tree.
pub uninterp spec fn root(s: Statement) -> Tree;

/// The statement works on rows, or says how it would.
pub open spec fn on_rows(t: Tree) -> bool {
    t is Query || t is Insert || t is Update || t is Delete || t is Copy || t is Merge
        || t is Truncate || t is Call || t is Analyze || t is Explain || t is ExplainTable
}

/// The variants of `sqlparser::ast::Statement` that work on rows, and none for the rest.
#[verifier::external_body]
fn rows_root(s: &Statement) -> (r: Option<Tree>)
    ensures
        r == if on_rows(root(*s)) {
            Some(root(*s))
        } else {
            None
        },
{
    match s {
        Statement::Query(_) => Some(Tree::Query),
        Statement::Insert(_) => Some(Tree::Insert),
        Statement::Update(_) => Some(Tree::Update),
        Statement::Delete(_) => Some(Tree::Delete),
        Statement::Copy { .. } => Some(Tree::Copy),
        Statement::Merge(_) => Some(Tree::Merge),
        Statement::Truncate(_) => Some(Tree::Truncate),
        Statement::Call(_) => Some(Tree::Call),
        Statement::Analyze(_) => Some(Tree::Analyze),
        Statement::Explain { .. } => Some(Tree::Explain),
        Statement::ExplainTable { .. } => Some(Tree::ExplainTable),
        _ => None,
    }
}

/// The variants of `sqlparser::ast::Statement` that define objects or grant access to
/// them, and none for the rest.
#[verifier::external_body]
fn definition_root(s: &Statement) -> (r: Option<Tree>)
    ensures
        r == if on_rows(root(*s)) || root(*s) is Other {
            None
        } else {
            Some(root(*s))
        },
{
    match s {
        Statement::CreateTable(_) => Some(Tree::CreateTable),
        Statement::CreateView(_) => Some(Tree::CreateView),
        Statement::CreateIndex(_) => Some(Tree::CreateIndex),
        Statement::CreateSchema { .. } => Some(Tree::CreateSchema),
        Statement::CreateFunction(_) => Some(Tree::CreateFunction),
        Statement::AlterTable(_) => Some(Tree::AlterTable),
        Statement::AlterRole { .. } => Some(Tree::AlterRole),
        Statement::Drop { .. } => Some(Tree::Drop),
        Statement::Grant(_) => Some(Tree::Grant),
        Statement::Revoke(_) => Some(Tree::Revoke),
        _ => None,
    }
}

fn root_of(s: &Statement) -> (r: Tree)
    ensures
        r == root(*s),
{
    match rows_root(s) {
        Some(t) => t,
        None => match definition_root(s) {
            Some(t) => t,
            None => Tree::Other,
        },
    }
}

/// What the PostgreSQL parser makes of a text: what stands at the root of the syntax tree
/// of each of its statements, or the error that it reports.
pub uninterp spec fn postgres_trees(sql: Seq<char>) -> Result<Seq<Tree>, Seq<char>>;

/// `sqlparser::parser::Parser::parse_sql` under the PostgreSQL dialect. The result depends
/// on the text alone. A text whose syntax tree is so deep that it exhausts the stack aborts
/// the process.
#[verifier::external_body]
fn parse_statements(sql: &str) -> (r: Result<Vec<Statement>, String>)
    requires
        parsable::parser_takes(Flavour::Postgres, token::lexed(Flavour::Postgres, sql@)),
    ensures
        match r {
            Ok(v) => postgres_trees(sql@) == Ok::<Seq<Tree>, Seq<char>>(
                v@.map_values(|s: Statement| root(s)),
            ),
            Err(e) => postgres_trees(sql@) == Err::<Seq<Tree>, Seq<char>>(e@),
        },
{
    Parser::parse_sql(&PostgreSqlDialect {}, sql).map_err(|e| e.to_string())
}

/// What the PostgreSQL parser makes of a text.
fn parse_postgres(sql: &str) -> (r: Result<Vec<Tree>, String>)
    requires
        parsable::parser_takes(Flavour::Postgres, token::lexed(Flavour::Postgres, sql@)),
    ensures
        parsed(r) == postgres_trees(sql@),
{
    let statements = match parse_statements(sql) {
        Ok(v) => v,
        Err(e) => {
            return Err(e);
        },
    };
    let mut trees: Vec<Tree> = Vec::new();
    let mut i: usize = 0;
    while i < statements.len()
        invariant
            i <= statements.len(),
            trees@ == statements@.map_values(|s: Statement| root(s)).take(i as int),
        decreases statements.len() - i,
    {
        trees.push(root_of(&statements[i]));
        i += 1;
        assert(trees@ =~= statements@.map_values(|s: Statement| root(s)).take(i as int));
    }
    assert(trees@ =~= statements@.map_values(|s: Statement| root(s)));
    Ok(trees)
}

/// What a parse gave.
pub open spec fn parsed(r: Result<Vec<Tree>, String>) -> Result<Seq<Tree>, Seq<char>> {
    match r {
        Ok(v) => Ok(v@),
        Err(e) => Err(e@),
    }
}

/// The class that an analysis reports: that of the syntax tree, but what the
/// tokens tell where the tree has none or the tokens show a change of role.
pub open spec fn settled_type(f: Found, trees: Result<Seq<Tree>, Seq<char>>) -> StatementType {
    match trees {
        Ok(ts) => if ts.len() > 0 && f.statement_type != StatementType::SetRole && class_of(ts[0])
            != StatementType::Other {
            class_of(ts[0])
        } else {
            f.statement_type
        },
        Err(_) => f.statement_type,
    }
}

/// A read without bound, or an export.
pub open spec fn bulk(f: Found) -> bool {
    f.copy_source is Some || ((f.statement_type is Select || f.statement_type is Copy)
        && !f.has_where && f.limit is None && f.read.difference(f.ctes) != Set::<Seq<char>>::empty())
}

/// The analysis of a statement, by its tokens and what parsing it gave.
pub open spec fn describes(
    r: SqlAccessAnalysis,
    l: Seq<Lexeme>,
    trees: Result<Seq<Tree>, Seq<char>>,
) -> bool {
    let f = scan::findings(reader::unspaced(l));
    &&& r.normalized_statement@ == fingerprint::normal_form(l)
    &&& r.query_fingerprint@ == fingerprint::fingerprint_of(fingerprint::normal_form(l))
    &&& r.statement_type == settled_type(f, trees)
    &&& names::lists(r.read_tables@, f.read.difference(f.ctes))
    &&& names::lists(r.written_tables@, f.written.difference(f.ctes))
    &&& names::lists(r.referenced_objects@, f.objects.difference(f.ctes))
    &&& names::lists(r.referenced_columns@, f.columns)
    &&& names::lists(r.referenced_functions@, f.functions)
    &&& names::lists(r.called_procedures@, f.procedures)
    &&& names::lists(r.joined_resources@, f.joined)
    &&& names::lists(r.predicates@, f.predicates)
    &&& r.has_where == f.has_where
    &&& r.grouping == f.grouping
    &&& r.ordering == f.ordering
    &&& r.limit == f.limit
    &&& r.subqueries == f.subqueries
    &&& names::lists(r.ctes@, f.ctes)
    &&& text::opt_text(r.copy_source) == f.copy_source
    &&& text::opt_text(r.copy_destination) == f.copy_destination
    &&& names::lists(r.privilege_targets@, f.privileges)
    &&& names::lists(r.role_changes@, f.roles)
    &&& names::lists(r.ddl_objects@, f.ddl)
    &&& r.wildcard_columns == f.wildcard
    &&& r.estimated_bulk == bulk(f)
    &&& r.parameterized == has_placeholder(l)
    &&& r.sensitive_resource_hits@.len() == 0
    &&& match trees {
        Ok(_) => {
            &&& r.parser_confidence == ParserConfidence::High
            &&& r.parse_error is None
            &&& r.unresolved_objects@.len() == 0
        },
        Err(e) => {
            &&& r.parser_confidence == ParserConfidence::Low
            &&& text::opt_text(r.parse_error) == Some(e)
            &&& names::lists(
                r.unresolved_objects@,
                f.read.difference(f.ctes).union(f.written.difference(f.ctes)),
            )
        },
    }
}

/// A bind parameter stands somewhere in the statement.
pub open spec fn has_placeholder(l: Seq<Lexeme>) -> bool {
    exists|i: int| 0 <= i < l.len() && (#[trigger] l[i]) is Placeholder
}

/// The text with every run of white space as one space, in lower case.
pub open spec fn collapsed(sql: Seq<char>) -> Seq<char> {
    text::lowercase(text::joined(text::words(sql), " "@))
}

/// The analysis of a text that the lexer refuses with `error`.
pub open spec fn describes_unlexed(r: SqlAccessAnalysis, sql: Seq<char>, error: Seq<char>) -> bool {
    &&& structure_unknown(r)
    &&& r.normalized_statement@ == collapsed(sql)
    &&& r.query_fingerprint@ == fingerprint::fingerprint_of(collapsed(sql))
    &&& text::opt_text(r.parse_error) == Some("tokenizer: "@ + error)
}

fn collapse(sql: &str) -> (r: String)
    ensures
        r@ == collapsed(sql@),
{
    let parts = split_words(sql);
    let line = join(&parts, " ");
    unicode_lower(line.as_str())
}

fn uses_parameters(tokens: &Vec<Tok>) -> (r: bool)
    ensures
        r == has_placeholder(token::lexemes(tokens@)),
{
    let mut i: usize = 0;
    while i < tokens.len()
        invariant
            i <= tokens.len(),
            forall|j: int| 0 <= j < i ==> !(#[trigger] token::lexemes(tokens@)[j] is Placeholder),
        decreases tokens.len() - i,
    {
        assert(token::lexemes(tokens@)[i as int] == tokens@[i as int]@);
        match &tokens[i] {
            Tok::Placeholder => {
                return true;
            },
            _ => {},
        }
        i += 1;
    }
    false
}

/// The analysis of a text that the lexer refuses.
pub fn unlexed_analysis(sql: &str, error: &str) -> (r: SqlAccessAnalysis)
    ensures
        describes_unlexed(r, sql@, error@),
{
    let mut r: SqlAccessAnalysis = Default::default();
    let normal = collapse(sql);
    r.query_fingerprint = fingerprint_text(normal.as_str());
    r.normalized_statement = normal;
    let mut message = String::from_str("tokenizer: ");
    message.append(error);
    r.parse_error = Some(message);
    r
}

/// The structure that the tokens of a statement show.
fn extract_from_tokens(tokens: &Vec<Tok>) -> (r: SqlAccessAnalysis)
    ensures
        describes(r, token::lexemes(tokens@), Ok(Seq::empty())),
{
    let t = without_space(tokens);
    let s = scan(&t);
    let normal = normalize(tokens);
    let fingerprint = fingerprint_text(normal.as_str());
    let read = s.read.minus(&s.ctes);
    let written = s.written.minus(&s.ctes);
    let objects = s.objects.minus(&s.ctes);
    let unbounded = !s.has_where && s.limit.is_none() && !read.is_empty();
    let reads = s.statement_type == StatementType::Select || s.statement_type == StatementType::Copy;
    let estimated_bulk = s.copy_source.is_some() || (reads && unbounded);
    SqlAccessAnalysis {
        query_fingerprint: fingerprint,
        normalized_statement: normal,
        statement_type: s.statement_type,
        read_tables: read.into_list(),
        written_tables: written.into_list(),
        referenced_objects: objects.into_list(),
        referenced_columns: s.columns.into_list(),
        referenced_functions: s.functions.into_list(),
        called_procedures: s.procedures.into_list(),
        joined_resources: s.joined.into_list(),
        predicates: s.predicates.into_list(),
        has_where: s.has_where,
        grouping: s.grouping,
        ordering: s.ordering,
        limit: s.limit,
        subqueries: s.subqueries,
        ctes: s.ctes.into_list(),
        copy_source: s.copy_source,
        copy_destination: s.copy_destination,
        privilege_targets: s.privileges.into_list(),
        role_changes: s.roles.into_list(),
        ddl_objects: s.ddl.into_list(),
        wildcard_columns: s.wildcard,
        estimated_bulk,
        parameterized: uses_parameters(tokens),
        sensitive_resource_hits: Vec::new(),
        parser_confidence: ParserConfidence::High,
        unresolved_objects: Vec::new(),
        parse_error: None,
    }
}

/// The analysis of a statement by its tokens and by what parsing it gave.
pub fn analysis_of(tokens: &Vec<Tok>, trees: &Result<Vec<Tree>, String>) -> (r: SqlAccessAnalysis)
    ensures
        describes(r, token::lexemes(tokens@), parsed(*trees)),
{
    let mut a = extract_from_tokens(tokens);
    match trees {
        Ok(list) => {
            if list.len() > 0 {
                let class = classify_ast(list[0]);
                if a.statement_type != StatementType::SetRole && class != StatementType::Other {
                    a.statement_type = class;
                }
            }
        },
        Err(e) => {
            a.parser_confidence = ParserConfidence::Low;
            a.parse_error = Some(e.clone());
            let mut open = crate::names::NameSet::new();
            open.insert_all(&a.read_tables);
            open.insert_all(&a.written_tables);
            proof {
                crate::names::texts_are_members(a.read_tables@);
                crate::names::texts_are_members(a.written_tables@);
                assert(open@ =~= crate::names::members(a.read_tables@).union(
                    crate::names::members(a.written_tables@),
                ));
            }
            a.unresolved_objects = open.into_list();
        },
    }
    a
}

/// What parsing a text of these tokens gives: what the parser makes of it, but an error
/// where it is not handed to the parser.
pub open spec fn trees_of(sql: Seq<char>, l: Seq<Lexeme>) -> Result<Seq<Tree>, Seq<char>> {
    if parsable::parses_safely(Flavour::Postgres, reader::unspaced(l)) {
        postgres_trees(sql)
    } else {
        Err(NOT_PARSED@)
    }
}

/// Analyzes a statement. One that does not parse is still described by its
/// tokens, with low confidence; one that cannot even be split into tokens is kept
/// visible by its text.
pub fn analyze(sql: &str) -> (r: SqlAccessAnalysis)
    ensures
        match token::lexed(Flavour::Postgres, sql@) {
            Ok(l) => describes(r, l, trees_of(sql@, l)),
            Err(e) => describes_unlexed(r, sql@, e),
        },
{
    match tokenize(Flavour::Postgres, sql) {
        Ok(tokens) => {
            let trees = if is_parsable(Flavour::Postgres, &tokens) {
                parse_postgres(sql)
            } else {
                Err(String::from_str(NOT_PARSED))
            };
            analysis_of(&tokens, &trees)
        },
        Err(e) => unlexed_analysis(sql, e.as_str()),
    }
}

/// The fingerprint of a text, by what the lexer makes of it.
pub open spec fn fingerprinted(sql: Seq<char>, lexed: Result<Seq<Lexeme>, Seq<char>>) -> Seq<char> {
    match lexed {
        Ok(l) => fingerprint::fingerprint_of(fingerprint::normal_form(l)),
        Err(_) => fingerprint::fingerprint_of(collapsed(sql)),
    }
}

/// The fingerprint alone, which is that of the analysis.
pub fn fingerprint(sql: &str) -> (r: String)
    ensures
        r@ == fingerprinted(sql@, token::lexed(Flavour::Postgres, sql@)),
{
    match tokenize(Flavour::Postgres, sql) {
        Ok(tokens) => {
            let normal = normalize(&tokens);
            fingerprint_text(normal.as_str())
        },
        Err(_) => {
            let normal = collapse(sql);
            fingerprint_text(normal.as_str())
        },
    }
}

/// In the form of a text that the lexer refuses, how much white space stands between two
/// words, and of what kind, leaves no trace. A text without any is put in lower case and
/// stays.
pub proof fn white_space_is_collapsed(a: Seq<char>, c: char, d: char, b: Seq<char>)
    requires
        text::is_space(c),
        text::is_space(d),
    ensures
        collapsed(a.push(c) + b) == collapsed(a.push(d) + b),
        collapsed(a.push(c).push(d) + b) == collapsed(a.push(c) + b),
        collapsed(a.push(c)) == collapsed(a),
        collapsed(seq![c] + b) == collapsed(b),
        b.len() > 0 && (forall|i: int| 0 <= i < b.len() ==> !text::is_space(#[trigger] b[i]))
            ==> collapsed(b) == text::lowercase(b),
{
    let none = Seq::<char>::empty();
    text::white_space_parts_words(a, c, b);
    text::white_space_parts_words(a, d, b);
    text::white_space_parts_words(a.push(c), d, b);
    text::white_space_parts_words(a, c, none);
    text::white_space_parts_words(none, c, b);
    assert(a.push(c) + none =~= a.push(c));
    assert(none.push(c) =~= seq![c]);
    assert(text::words(none) =~= Seq::<Seq<char>>::empty());
    assert(text::words(a) + text::words(none) =~= text::words(a));
    assert(text::words(none) + text::words(b) =~= text::words(b));
}

/// Different words stay apart in the form of a text that the lexer refuses: two words are
/// one text with a single space between them, in lower case.
pub proof fn words_stay_apart(a: Seq<char>, c: char, b: Seq<char>)
    requires
        text::is_space(c),
        a.len() > 0,
        b.len() > 0,
        forall|i: int| 0 <= i < a.len() ==> !text::is_space(#[trigger] a[i]),
        forall|i: int| 0 <= i < b.len() ==> !text::is_space(#[trigger] b[i]),
    ensures
        collapsed(a.push(c) + b) == text::lowercase(a + " "@ + b),
{
    text::white_space_parts_words(a, c, b);
    text::white_space_parts_words(b, c, a);
    text::joined_apart(seq![a], seq![b], " "@);
    assert(text::joined(seq![a], " "@) == a);
    assert(text::joined(seq![b], " "@) == b);
}

} // verus!
