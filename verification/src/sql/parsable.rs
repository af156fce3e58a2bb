//! Which texts are handed to the parser. On a few forms it does not return an error but
//! panics; a text that may hold one of them is taken as unparsed.

use crate::sql::reader::{self, is_word};
use crate::sql::token::{self, Flavour, Lexeme, Tok};
use vstd::prelude::*;

verus! {

/// What is reported of a text that is not handed to the parser.
pub const NOT_PARSED: &'static str = "a statement of this form cannot be parsed";

/// The unquoted word at `i`, in whatever case.
pub open spec fn says(t: Seq<Lexeme>, i: int, word: Seq<char>) -> bool {
    reader::word_at(t, i) == Some(word)
}

/// An `AUTHORIZATION` stands at `i` with a name behind it.
pub open spec fn authorizes(t: Seq<Lexeme>, i: int) -> bool {
    &&& says(t, i, "authorization"@)
    &&& i + 1 < t.len()
    &&& t[i + 1] is Word || t[i + 1] is Literal
}

/// An authorization is set at `i` that is neither the session's nor the transaction's.
pub open spec fn sets_without_scope(t: Seq<Lexeme>, i: int) -> bool {
    &&& says(t, i, "set"@)
    &&& authorizes(t, i + 1) || (says(t, i + 1, "hivevar"@) && reader::sym_at(t, i + 2, ":"@)
        && authorizes(t, i + 3))
}

/// The relay logs of a channel are named at `i`.
pub open spec fn names_channel(t: Seq<Lexeme>, i: int) -> bool {
    &&& says(t, i, "relay"@)
    &&& says(t, i + 1, "logs"@)
    &&& says(t, i + 2, "for"@)
    &&& says(t, i + 3, "channel"@)
}

/// The relay logs of a channel are flushed at `i`.
pub open spec fn flushes_channel(t: Seq<Lexeme>, i: int) -> bool {
    &&& says(t, i, "flush"@)
    &&& names_channel(t, i + 1) || ((says(t, i + 1, "local"@) || says(
        t,
        i + 1,
        "no_write_to_binlog"@,
    )) && names_channel(t, i + 2))
}

/// Nothing stands at `i` that the parser panics on.
pub open spec fn safe_at(flavour: Flavour, t: Seq<Lexeme>, i: int) -> bool {
    !sets_without_scope(t, i) && !(flavour is Generic && flushes_channel(t, i))
}

/// The parser returns on a text of these tokens, white space left out: no authorization is
/// set without a scope and, by the generic rules, no channel's relay logs are flushed.
pub open spec fn parses_safely(flavour: Flavour, t: Seq<Lexeme>) -> bool {
    forall|i: int| 0 <= i < t.len() ==> #[trigger] safe_at(flavour, t, i)
}

/// The parser returns on a text of which the lexer makes this. It reports what the lexer
/// reports.
pub open spec fn parser_takes(flavour: Flavour, lexed: Result<Seq<Lexeme>, Seq<char>>) -> bool {
    lexed is Ok ==> parses_safely(flavour, reader::unspaced(lexed->Ok_0))
}

/// Whether the word stands `k` tokens behind `i`.
fn word_behind(t: &Vec<Tok>, i: usize, k: usize, word: &str) -> (r: bool)
    requires
        i < t.len(),
    ensures
        r == says(token::lexemes(t@), i + k, word@),
{
    if t.len() - i > k {
        is_word(t, i + k, word)
    } else {
        false
    }
}

fn authorizes_behind(t: &Vec<Tok>, i: usize, k: usize) -> (r: bool)
    requires
        i < t.len(),
        k < 8,
    ensures
        r == authorizes(token::lexemes(t@), i + k),
{
    let ghost l = token::lexemes(t@);
    if !word_behind(t, i, k, "authorization") || t.len() - i <= k + 1 {
        return false;
    }
    assert(l[i + k + 1] == t@[i + k + 1]@);
    match &t[i + k + 1] {
        Tok::Word(_) => true,
        Tok::Literal(_) => true,
        _ => false,
    }
}

fn names_channel_behind(t: &Vec<Tok>, i: usize, k: usize) -> (r: bool)
    requires
        i < t.len(),
        k < 8,
    ensures
        r == names_channel(token::lexemes(t@), i + k),
{
    word_behind(t, i, k, "relay") && word_behind(t, i, k + 1, "logs") && word_behind(
        t,
        i,
        k + 2,
        "for",
    ) && word_behind(t, i, k + 3, "channel")
}

fn is_safe_at(flavour: Flavour, t: &Vec<Tok>, i: usize) -> (r: bool)
    requires
        i < t.len(),
    ensures
        r == safe_at(flavour, token::lexemes(t@), i as int),
{
    if word_behind(t, i, 0, "set") {
        let colon = t.len() - i > 2 && reader::at_sym(t, i + 2, ":");
        if authorizes_behind(t, i, 1) || (word_behind(t, i, 1, "hivevar") && colon
            && authorizes_behind(t, i, 3)) {
            return false;
        }
    }
    if flavour == Flavour::Generic && word_behind(t, i, 0, "flush") {
        let local = word_behind(t, i, 1, "local") || word_behind(t, i, 1, "no_write_to_binlog");
        if names_channel_behind(t, i, 1) || (local && names_channel_behind(t, i, 2)) {
            return false;
        }
    }
    true
}

/// Whether the parser returns on a text of these tokens.
pub fn is_parsable(flavour: Flavour, tokens: &Vec<Tok>) -> (r: bool)
    ensures
        r == parses_safely(flavour, reader::unspaced(token::lexemes(tokens@))),
{
    let t = reader::without_space(tokens);
    let ghost l = token::lexemes(t@);
    let mut i: usize = 0;
    while i < t.len()
        invariant
            i <= t.len() == l.len(),
            l == token::lexemes(t@),
            l == reader::unspaced(token::lexemes(tokens@)),
            forall|j: int| 0 <= j < i ==> #[trigger] safe_at(flavour, l, j),
        decreases t.len() - i,
    {
        if !is_safe_at(flavour, &t, i) {
            assert(!safe_at(flavour, l, i as int));
            return false;
        }
        i += 1;
    }
    true
}

/// A text is held back only for a `SET` or, by the generic rules, a `FLUSH`.
pub proof fn other_texts_are_handed_to_the_parser(flavour: Flavour, t: Seq<Lexeme>)
    requires
        forall|i: int| 0 <= i < t.len() ==> !#[trigger] says(t, i, "set"@),
        flavour is Generic ==> forall|i: int|
            0 <= i < t.len() ==> !#[trigger] says(t, i, "flush"@),
    ensures
        parses_safely(flavour, t),
{
    assert forall|i: int| 0 <= i < t.len() implies #[trigger] safe_at(flavour, t, i) by {
        assert(!says(t, i, "set"@));
        if flavour is Generic {
            assert(!says(t, i, "flush"@));
        }
    }
}

/// A text that sets an authorization without a scope, or flushes the relay logs of a channel
/// by the generic rules, is not handed to the parser.
pub proof fn what_the_parser_panics_on_is_held_back(flavour: Flavour, t: Seq<Lexeme>, i: int)
    requires
        0 <= i,
        i + 2 < t.len(),
    ensures
        says(t, i, "set"@) && says(t, i + 1, "authorization"@) && (t[i + 2] is Word || t[i + 2]
            is Literal) ==> !parses_safely(flavour, t),
        says(t, i, "set"@) && says(t, i + 1, "hivevar"@) && t[i + 2] == Lexeme::Symbol(":"@)
            && says(t, i + 3, "authorization"@) && i + 4 < t.len() && (t[i + 4] is Word || t[i + 4]
            is Literal) ==> !parses_safely(flavour, t),
        flavour is Generic && says(t, i, "flush"@) && says(t, i + 1, "relay"@) && says(
            t,
            i + 2,
            "logs"@,
        ) && says(t, i + 3, "for"@) && says(t, i + 4, "channel"@) ==> !parses_safely(flavour, t),
        flavour is Generic && says(t, i, "flush"@) && (says(t, i + 1, "local"@) || says(
            t,
            i + 1,
            "no_write_to_binlog"@,
        )) && says(t, i + 2, "relay"@) && says(t, i + 3, "logs"@) && says(t, i + 4, "for"@)
            && says(t, i + 5, "channel"@) ==> !parses_safely(flavour, t),
{
    if parses_safely(flavour, t) {
        assert(safe_at(flavour, t, i));
    }
}

} // verus!
