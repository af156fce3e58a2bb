//! The tokens of a SQL statement, reduced to what the analysis reads of them.

use sqlparser::dialect::{GenericDialect, PostgreSqlDialect};
use sqlparser::keywords::Keyword;
use sqlparser::tokenizer::{Token, Tokenizer};
use vstd::prelude::*;

verus! {

/// A word of the statement: a keyword or an identifier.
pub struct Word {
    /// The text without quotes, in the statement's own case.
    pub value: String,
    /// Written in quotes, which makes it an identifier and keeps its case.
    pub quoted: bool,
    /// Spelled like a keyword of the dialect. A quoted word never is.
    pub keyword: bool,
}

/// The form that a string is written in.
#[derive(Clone, Copy, Debug, PartialEq, Eq, Structural)]
pub enum Quote {
    Single,
    Dollar,
    National,
    Escaped,
    Unicode,
    Hex,
    SingleBytes,
    DoubleBytes,
}

/// One token of a statement.
pub enum Tok {
    Word(Word),
    /// A number, with its digits as written.
    Number(String),
    /// A string.
    Literal(Quote),
    /// A bind parameter.
    Placeholder,
    /// White space or a comment.
    Space,
    /// Anything else, as it is written.
    Symbol(String),
}

/// What a token says.
pub enum Lexeme {
    Word { value: Seq<char>, quoted: bool, keyword: bool },
    Number(Seq<char>),
    Literal(Quote),
    Placeholder,
    Space,
    Symbol(Seq<char>),
}

impl View for Tok {
    type V = Lexeme;

    open spec fn view(&self) -> Lexeme {
        match *self {
            Tok::Word(w) => Lexeme::Word { value: w.value@, quoted: w.quoted, keyword: w.keyword },
            Tok::Number(s) => Lexeme::Number(s@),
            Tok::Literal(q) => Lexeme::Literal(q),
            Tok::Placeholder => Lexeme::Placeholder,
            Tok::Space => Lexeme::Space,
            Tok::Symbol(s) => Lexeme::Symbol(s@),
        }
    }
}

/// What the tokens of a list say.
pub open spec fn lexemes(v: Seq<Tok>) -> Seq<Lexeme> {
    v.map_values(|t: Tok| t@)
}

impl Tok {
    /// A token that says the same.
    pub fn dup(&self) -> (r: Tok)
        ensures
            r@ == self@,
    {
        match self {
            Tok::Word(w) => Tok::Word(
                Word { value: w.value.clone(), quoted: w.quoted, keyword: w.keyword },
            ),
            Tok::Number(s) => Tok::Number(s.clone()),
            Tok::Literal(q) => Tok::Literal(*q),
            Tok::Placeholder => Tok::Placeholder,
            Tok::Space => Tok::Space,
            Tok::Symbol(s) => Tok::Symbol(s.clone()),
        }
    }
}

/// The rules by which a text is read.
#[derive(Clone, Copy, Debug, PartialEq, Eq, Structural)]
pub enum Flavour {
    Postgres,
    Generic,
}

/// A token of the lexer.
#[verifier::external_type_specification]
#[verifier::external_body]
pub struct ExToken(sqlparser::tokenizer::Token);

/// What a token of the lexer says.
pub uninterp spec fn lexeme(t: Token) -> Lexeme;

/// What the lexer makes of a text: its tokens, or the error it reports.
pub uninterp spec fn lexed(flavour: Flavour, sql: Seq<char>) -> Result<Seq<Lexeme>, Seq<char>>;

/// `sqlparser::tokenizer::Tokenizer::tokenize` under the PostgreSQL or the generic
/// dialect. The result depends on the dialect and the text alone.
#[verifier::external_body]
fn tokens_of(flavour: Flavour, sql: &str) -> (r: Result<Vec<Token>, String>)
    ensures
        match r {
            Ok(v) => lexed(flavour, sql@) == Ok::<Seq<Lexeme>, Seq<char>>(
                v@.map_values(|t: Token| lexeme(t)),
            ),
            Err(e) => lexed(flavour, sql@) == Err::<Seq<Lexeme>, Seq<char>>(e@),
        },
{
    match flavour {
        Flavour::Postgres => Tokenizer::new(&PostgreSqlDialect {}, sql).tokenize(),
        Flavour::Generic => Tokenizer::new(&GenericDialect {}, sql).tokenize(),
    }.map_err(|e| e.to_string())
}

/// The variants of `sqlparser::tokenizer::Token` that the strings of the two dialects
/// have, and none for the rest.
#[verifier::external_body]
fn quote_of(t: &Token) -> (r: Option<Quote>)
    ensures
        r == match lexeme(*t) {
            Lexeme::Literal(q) => Some(q),
            _ => None,
        },
{
    match t {
        Token::SingleQuotedString(_) => Some(Quote::Single),
        Token::DollarQuotedString(_) => Some(Quote::Dollar),
        Token::NationalStringLiteral(_) => Some(Quote::National),
        Token::EscapedStringLiteral(_) => Some(Quote::Escaped),
        Token::UnicodeStringLiteral(_) => Some(Quote::Unicode),
        Token::HexStringLiteral(_) => Some(Quote::Hex),
        Token::SingleQuotedByteStringLiteral(_) => Some(Quote::SingleBytes),
        Token::DoubleQuotedByteStringLiteral(_) => Some(Quote::DoubleBytes),
        _ => None,
    }
}

/// The variants of `sqlparser::tokenizer::Token` but for the strings. A word keeps its
/// text, whether it was quoted and whether the lexer knows it as a keyword; a number keeps
/// its digits; bind parameters, and white space with comments, are told apart; any other
/// token is its displayed text.
#[verifier::external_body]
fn plain_token(t: Token) -> (r: Tok)
    requires
        !(lexeme(t) is Literal),
    ensures
        r@ == lexeme(t),
{
    match t {
        Token::Word(w) => Tok::Word(Word {
            keyword: w.keyword != Keyword::NoKeyword,
            quoted: w.quote_style.is_some(),
            value: w.value,
        }),
        Token::Number(n, _) => Tok::Number(n),
        Token::Placeholder(_) => Tok::Placeholder,
        Token::Whitespace(_) => Tok::Space,
        other => Tok::Symbol(other.to_string()),
    }
}

/// The tokens of a text, or the error that the lexer reports.
pub(crate) fn tokenize(flavour: Flavour, sql: &str) -> (r: Result<Vec<Tok>, String>)
    ensures
        match r {
            Ok(v) => lexed(flavour, sql@) == Ok::<Seq<Lexeme>, Seq<char>>(lexemes(v@)),
            Err(e) => lexed(flavour, sql@) == Err::<Seq<Lexeme>, Seq<char>>(e@),
        },
{
    let tokens = match tokens_of(flavour, sql) {
        Ok(v) => v,
        Err(e) => {
            return Err(e);
        },
    };
    let ghost said = tokens@.map_values(|t: Token| lexeme(t));
    let n: usize = tokens.len();
    let mut r: Vec<Tok> = Vec::new();
    let mut i: usize = 0;
    for t in it: tokens
        invariant
            i == it.index(),
            n == it.seq().len(),
            said == it.seq().map_values(|t: Token| lexeme(t)),
            lexemes(r@) == said.take(i as int),
    {
        let ghost was = lexemes(r@);
        let k = match quote_of(&t) {
            Some(q) => Tok::Literal(q),
            None => plain_token(t),
        };
        r.push(k);
        i += 1;
        assert(k@ == said[i - 1]);
        assert(lexemes(r@) =~= was.push(k@));
        assert(said.take(i as int) =~= was.push(said[i - 1]));
    }
    assert(said.take(i as int) =~= said);
    Ok(r)
}

} // verus!
