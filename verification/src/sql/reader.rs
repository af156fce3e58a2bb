//! Reading names, tables and parenthesised groups off a token list from which
//! white space has been removed.

use crate::sql::keyword::{self, is_reserved_clause_kw, kw_named, Kw};
use crate::sql::token::{self, Lexeme, Tok, Word};
use crate::text::{self, same, to_lower, to_upper};
use vstd::prelude::*;

verus! {

/// The tokens that are not white space.
pub open spec fn unspaced(s: Seq<Lexeme>) -> Seq<Lexeme>
    decreases s.len(),
{
    if s.len() == 0 {
        s
    } else if s.last() is Space {
        unspaced(s.drop_last())
    } else {
        unspaced(s.drop_last()).push(s.last())
    }
}

/// The keyword at `i`, where an unquoted keyword stands there.
pub open spec fn kw_at(t: Seq<Lexeme>, i: int) -> Option<Kw> {
    if 0 <= i < t.len() {
        match t[i] {
            Lexeme::Word { value, quoted, keyword } => if !quoted && keyword {
                Some(keyword::kw_of(text::upper(value)))
            } else {
                None
            },
            _ => None,
        }
    } else {
        None
    }
}

/// Whether the symbol `s` stands at `i`.
pub open spec fn sym_at(t: Seq<Lexeme>, i: int, s: Seq<char>) -> bool {
    0 <= i < t.len() && t[i] == Lexeme::Symbol(s)
}

/// A word as an identifier: as written and in double quotes where it was
/// quoted, and otherwise in lower case.
pub open spec fn identifier(value: Seq<char>, quoted: bool) -> Seq<char> {
    if quoted {
        seq!['"'] + value + seq!['"']
    } else {
        text::lower(value)
    }
}

/// The identifier at `i`: a quoted word, or one that is no keyword.
pub open spec fn ident_at(t: Seq<Lexeme>, i: int) -> Option<Seq<char>> {
    if 0 <= i < t.len() {
        match t[i] {
            Lexeme::Word { value, quoted, keyword } => if quoted || !keyword {
                Some(identifier(value, quoted))
            } else {
                None
            },
            _ => None,
        }
    } else {
        None
    }
}

/// The word at `i`, keyword or not, as an identifier.
pub open spec fn word_at(t: Seq<Lexeme>, i: int) -> Option<Seq<char>> {
    if 0 <= i < t.len() {
        match t[i] {
            Lexeme::Word { value, quoted, keyword } => Some(identifier(value, quoted)),
            _ => None,
        }
    } else {
        None
    }
}

/// The qualified part of a name from `j` on, `.b.c` and so on, and where it ends.
/// A `.*` is not part of a name.
pub open spec fn name_tail(t: Seq<Lexeme>, j: int) -> (Seq<char>, int)
    decreases t.len() - j,
{
    if sym_at(t, j, "."@) && !sym_at(t, j + 1, "*"@) && word_at(t, j + 1) is Some {
        let rest = name_tail(t, j + 2);
        (seq!['.'] + word_at(t, j + 1)->0 + rest.0, rest.1)
    } else {
        (Seq::empty(), j)
    }
}

/// The possibly qualified name at `i` and where it ends. A reserved clause
/// keyword begins no name.
pub open spec fn name_at(t: Seq<Lexeme>, i: int) -> Option<(Seq<char>, int)> {
    if kw_at(t, i) is Some && (kw_at(t, i)->0).reserved() {
        None
    } else {
        match word_at(t, i) {
            Some(w) => {
                let rest = name_tail(t, i + 1);
                Some((w + rest.0, rest.1))
            },
            None => None,
        }
    }
}

/// Where the groups that are open `depth` deep at `i` are closed, or the end.
pub open spec fn closed_from(t: Seq<Lexeme>, i: int, depth: int) -> int
    decreases t.len() - i,
{
    if i >= t.len() {
        t.len() as int
    } else if sym_at(t, i, "("@) {
        closed_from(t, i + 1, depth + 1)
    } else if sym_at(t, i, ")"@) {
        if depth == 1 {
            i + 1
        } else {
            closed_from(t, i + 1, depth - 1)
        }
    } else {
        closed_from(t, i + 1, depth)
    }
}

/// The place just past the group that is opened at `i`.
pub open spec fn past_parens(t: Seq<Lexeme>, i: int) -> int {
    closed_from(t, i, 0)
}

/// The place past an alias at `j`: `AS a`, `AS`, or a bare identifier.
pub open spec fn past_alias(t: Seq<Lexeme>, j: int) -> int {
    let k = if kw_at(t, j) == Some(Kw::As) {
        j + 1
    } else {
        j
    };
    if ident_at(t, k) is Some {
        k + 1
    } else {
        k
    }
}

/// The named table at `start`, past an `ONLY`, and the place past its alias. A
/// parenthesised subquery is no named table.
pub open spec fn table_at(t: Seq<Lexeme>, start: int) -> Option<(Seq<char>, int)> {
    let i = if kw_at(t, start) == Some(Kw::Only) {
        start + 1
    } else {
        start
    };
    if sym_at(t, i, "("@) {
        None
    } else {
        match name_at(t, i) {
            Some((name, j)) => Some((name, past_alias(t, j))),
            None => None,
        }
    }
}

/// The named tables of a list whose next comma is looked for at `j`, where an
/// earlier entry of the list was a subquery.
pub open spec fn tables_after(t: Seq<Lexeme>, j: int) -> Seq<Seq<char>>
    decreases t.len() - j,
{
    proof {
        parens_advance(t, j + 1, 0);
        table_advances(t, j + 1);
    }
    if !sym_at(t, j, ","@) {
        Seq::empty()
    } else if sym_at(t, j + 1, "("@) {
        tables_after(t, past_alias(t, past_parens(t, j + 1)))
    } else {
        match table_at(t, j + 1) {
            Some((name, next)) => seq![name] + tables_after(t, next),
            None => Seq::empty(),
        }
    }
}

/// The named tables of the comma-separated list at `i`, and the place at which
/// reading goes on: past the list, or at its first subquery, whose own tables are
/// then read like those of the statement.
pub open spec fn table_list(t: Seq<Lexeme>, i: int) -> (Seq<Seq<char>>, int)
    decreases t.len() - i,
{
    proof {
        table_advances(t, i);
    }
    if sym_at(t, i, "("@) {
        (tables_after(t, past_alias(t, past_parens(t, i))), i)
    } else {
        match table_at(t, i) {
            Some((name, j)) => if sym_at(t, j, ","@) {
                let rest = table_list(t, j + 1);
                (seq![name] + rest.0, rest.1)
            } else {
                (seq![name], j)
            },
            None => (Seq::empty(), i),
        }
    }
}

/// The names that a `WITH` list at `i` introduces.
pub open spec fn cte_names(t: Seq<Lexeme>, i: int) -> Seq<Seq<char>>
    decreases t.len() - i,
{
    proof {
        parens_advance(t, i + 1, 0);
        let j = if sym_at(t, i + 1, "("@) {
            past_parens(t, i + 1)
        } else {
            i + 1
        };
        parens_advance(t, j + 1, 0);
    }
    match ident_at(t, i) {
        None => Seq::empty(),
        Some(name) => {
            let j = if sym_at(t, i + 1, "("@) {
                past_parens(t, i + 1)
            } else {
                i + 1
            };
            if kw_at(t, j) == Some(Kw::As) && sym_at(t, j + 1, "("@) {
                let after = past_parens(t, j + 1);
                if sym_at(t, after, ","@) {
                    seq![name] + cte_names(t, after + 1)
                } else {
                    seq![name]
                }
            } else {
                Seq::empty()
            }
        },
    }
}

pub proof fn tail_advances(t: Seq<Lexeme>, j: int)
    requires
        0 <= j <= t.len(),
    ensures
        j <= name_tail(t, j).1 <= t.len(),
    decreases t.len() - j,
{
    if sym_at(t, j, "."@) && !sym_at(t, j + 1, "*"@) && word_at(t, j + 1) is Some {
        tail_advances(t, j + 2);
    }
}

/// A name that is read ends past where it began.
pub proof fn name_advances(t: Seq<Lexeme>, i: int)
    ensures
        name_at(t, i) is Some ==> 0 <= i < (name_at(t, i)->0).1 <= t.len(),
{
    if name_at(t, i) is Some {
        tail_advances(t, i + 1);
    }
}

/// A group that is skipped ends past where it began.
pub proof fn parens_advance(t: Seq<Lexeme>, i: int, depth: int)
    ensures
        0 <= i <= t.len() ==> i <= closed_from(t, i, depth) <= t.len(),
        0 <= i < t.len() ==> i < closed_from(t, i, depth),
    decreases t.len() - i,
{
    if 0 <= i < t.len() {
        parens_advance(t, i + 1, depth + 1);
        parens_advance(t, i + 1, depth - 1);
        parens_advance(t, i + 1, depth);
    }
}

/// A table that is read ends past where it began.
pub proof fn table_advances(t: Seq<Lexeme>, i: int)
    ensures
        table_at(t, i) is Some && 0 <= i ==> i < (table_at(t, i)->0).1 <= t.len(),
{
    name_advances(t, i);
    name_advances(t, i + 1);
}

/// Reading a table list never goes back.
pub proof fn list_advances(t: Seq<Lexeme>, i: int)
    requires
        0 <= i <= t.len(),
    ensures
        i <= table_list(t, i).1 <= t.len(),
    decreases t.len() - i,
{
    table_advances(t, i);
    if !sym_at(t, i, "("@) {
        match table_at(t, i) {
            Some((name, j)) => {
                if sym_at(t, j, ","@) {
                    list_advances(t, j + 1);
                }
            },
            None => {},
        }
    }
}

/// Copies the tokens that are not white space.
pub fn without_space(tokens: &Vec<Tok>) -> (r: Vec<Tok>)
    ensures
        token::lexemes(r@) == unspaced(token::lexemes(tokens@)),
{
    let mut r: Vec<Tok> = Vec::new();
    let mut i: usize = 0;
    assert(token::lexemes(r@) =~= unspaced(token::lexemes(tokens@).take(0)));
    while i < tokens.len()
        invariant
            i <= tokens.len(),
            token::lexemes(r@) == unspaced(token::lexemes(tokens@).take(i as int)),
        decreases tokens.len() - i,
    {
        let ghost was = token::lexemes(r@);
        let ghost seen = token::lexemes(tokens@).take(i + 1);
        assert(seen.drop_last() =~= token::lexemes(tokens@).take(i as int));
        match &tokens[i] {
            Tok::Space => {},
            other => {
                r.push(other.dup());
                assert(token::lexemes(r@) =~= was.push(seen.last()));
            },
        }
        i += 1;
    }
    assert(token::lexemes(tokens@).take(i as int) =~= token::lexemes(tokens@));
    r
}

/// The word as an identifier.
pub fn ident_norm(w: &Word) -> (r: String)
    ensures
        r@ == identifier(w.value@, w.quoted),
{
    if w.quoted {
        let mut r = String::new();
        r.push('"');
        r.append(w.value.as_str());
        r.push('"');
        assert(r@ =~= seq!['"'] + w.value@ + seq!['"']);
        r
    } else {
        to_lower(w.value.as_str())
    }
}

/// The keyword at `i`, where an unquoted keyword stands there.
pub fn kw(t: &Vec<Tok>, i: usize) -> (r: Option<Kw>)
    ensures
        r == kw_at(token::lexemes(t@), i as int),
{
    if i < t.len() {
        match &t[i] {
            Tok::Word(w) => {
                if !w.quoted && w.keyword {
                    let name = to_upper(w.value.as_str());
                    Some(kw_named(name.as_str()))
                } else {
                    None
                }
            },
            _ => None,
        }
    } else {
        None
    }
}

/// Whether the keyword `k` stands at `i`.
pub fn at_kw(t: &Vec<Tok>, i: usize, k: Kw) -> (r: bool)
    ensures
        r == (kw_at(token::lexemes(t@), i as int) == Some(k)),
{
    match kw(t, i) {
        Some(x) => x == k,
        None => false,
    }
}

/// Whether the symbol `s` stands at `i`.
pub fn at_sym(t: &Vec<Tok>, i: usize, s: &str) -> (r: bool)
    ensures
        r == sym_at(token::lexemes(t@), i as int, s@),
{
    if i < t.len() {
        match &t[i] {
            Tok::Symbol(x) => same(x.as_str(), s),
            _ => false,
        }
    } else {
        false
    }
}

/// The identifier at `i`, where one stands there.
pub fn ident(t: &Vec<Tok>, i: usize) -> (r: Option<String>)
    ensures
        crate::text::opt_text(r) == ident_at(token::lexemes(t@), i as int),
{
    if i < t.len() {
        match &t[i] {
            Tok::Word(w) => {
                if w.quoted || !w.keyword {
                    Some(ident_norm(w))
                } else {
                    None
                }
            },
            _ => None,
        }
    } else {
        None
    }
}

/// The word at `i` as an identifier, where one stands there.
pub fn any_word(t: &Vec<Tok>, i: usize) -> (r: Option<String>)
    ensures
        crate::text::opt_text(r) == word_at(token::lexemes(t@), i as int),
{
    if i < t.len() {
        match &t[i] {
            Tok::Word(w) => Some(ident_norm(w)),
            _ => None,
        }
    } else {
        None
    }
}

/// A name that was read, and where it ends.
pub open spec fn read(r: Option<(String, usize)>) -> Option<(Seq<char>, int)> {
    match r {
        Some((s, j)) => Some((s@, j as int)),
        None => None,
    }
}

/// Whether the word stands at `j`, unquoted and in whatever case.
pub fn is_word(t: &Vec<Tok>, j: usize, word: &str) -> (r: bool)
    ensures
        r == (word_at(token::lexemes(t@), j as int) == Some(word@)),
{
    match any_word(t, j) {
        Some(w) => same(w.as_str(), word),
        None => false,
    }
}

/// Reads the possibly qualified name at `i`.
pub fn read_name(t: &Vec<Tok>, i: usize) -> (r: Option<(String, usize)>)
    ensures
        read(r) == name_at(token::lexemes(t@), i as int),
{
    match kw(t, i) {
        Some(k) => {
            if is_reserved_clause_kw(k) {
                return None;
            }
        },
        None => {},
    }
    let mut name: String = match any_word(t, i) {
        Some(w) => w,
        None => {
            return None;
        },
    };
    let ghost l = token::lexemes(t@);
    assert(i < t.len());
    let ghost whole = name_tail(l, i + 1);
    let ghost first = name@;
    let mut j: usize = i + 1;
    assert(name@ + name_tail(l, j as int).0 =~= first + whole.0);
    while at_sym(t, j, ".") && !at_sym(t, j + 1, "*")
        invariant
            l == token::lexemes(t@),
            j <= t.len(),
            name@ + name_tail(l, j as int).0 == first + whole.0,
            name_tail(l, j as int).1 == whole.1,
        ensures
            name_tail(l, j as int) == (Seq::<char>::empty(), j as int),
        decreases t.len() - j,
    {
        match any_word(t, j + 1) {
            Some(w) => {
                let ghost was = name@;
                name.push('.');
                name.append(w.as_str());
                assert(name@ =~= was + (seq!['.'] + w@));
                assert(was + (seq!['.'] + w@ + name_tail(l, j + 2).0) =~= name@ + name_tail(l, j + 2).0);
                j += 2;
            },
            None => {
                break;
            },
        }
    }
    assert(name@ + Seq::<char>::empty() =~= name@);
    Some((name, j))
}

/// The place just past the group that is opened at `open`.
pub fn skip_parens(t: &Vec<Tok>, open: usize) -> (r: usize)
    requires
        sym_at(token::lexemes(t@), open as int, "("@),
    ensures
        r == past_parens(token::lexemes(t@), open as int),
        open < r <= t.len(),
{
    let ghost l = token::lexemes(t@);
    proof {
        parens_advance(l, open as int, 0);
        reveal_strlit("(");
        reveal_strlit(")");
        assert("("@[0] != ")"@[0]);
    }
    let mut depth: usize = 0;
    let mut i: usize = open;
    while i < t.len()
        invariant
            l == token::lexemes(t@),
            sym_at(l, open as int, "("@),
            "("@ != ")"@,
            open <= i <= t.len(),
            depth <= i - open,
            i > open ==> depth > 0,
            closed_from(l, i as int, depth as int) == past_parens(l, open as int),
        decreases t.len() - i,
    {
        if at_sym(t, i, "(") {
            depth += 1;
        } else if at_sym(t, i, ")") {
            if depth == 1 {
                return i + 1;
            }
            depth -= 1;
        }
        i += 1;
    }
    t.len()
}

/// The place past an alias at `j`.
pub fn skip_table_alias(t: &Vec<Tok>, j: usize) -> (r: usize)
    requires
        j <= t.len(),
    ensures
        r == past_alias(token::lexemes(t@), j as int),
        j <= r <= t.len(),
{
    let k: usize = if at_kw(t, j, Kw::As) {
        j + 1
    } else {
        j
    };
    match ident(t, k) {
        Some(_) => k + 1,
        None => k,
    }
}

/// Reads the named table at `start`, with its alias.
pub fn read_one_table(t: &Vec<Tok>, start: usize) -> (r: Option<(String, usize)>)
    ensures
        read(r) == table_at(token::lexemes(t@), start as int),
{
    let i: usize = if at_kw(t, start, Kw::Only) {
        assert(start < t.len());
        start + 1
    } else {
        start
    };
    if at_sym(t, i, "(") {
        return None;
    }
    proof {
        name_advances(token::lexemes(t@), i as int);
    }
    match read_name(t, i) {
        Some((name, j)) => Some((name, skip_table_alias(t, j))),
        None => None,
    }
}

fn read_tables_after(t: &Vec<Tok>, start: usize) -> (r: Vec<String>)
    requires
        start <= t.len(),
    ensures
        text::texts(r@) == tables_after(token::lexemes(t@), start as int),
{
    let ghost l = token::lexemes(t@);
    let ghost whole = tables_after(l, start as int);
    let mut names: Vec<String> = Vec::new();
    let mut j: usize = start;
    assert(text::texts(names@) + tables_after(l, j as int) =~= whole);
    while at_sym(t, j, ",")
        invariant
            l == token::lexemes(t@),
            j <= t.len(),
            text::texts(names@) + tables_after(l, j as int) == whole,
        ensures
            text::texts(names@) == whole,
        decreases t.len() - j,
    {
        proof {
            parens_advance(l, j + 1, 0);
            table_advances(l, j + 1);
        }
        if at_sym(t, j + 1, "(") {
            let past = skip_parens(t, j + 1);
            j = skip_table_alias(t, past);
        } else {
            match read_one_table(t, j + 1) {
                Some((name, next)) => {
                    let ghost was = text::texts(names@);
                    let ghost n = name@;
                    names.push(name);
                    assert(text::texts(names@) =~= was + seq![n]);
                    assert(was + (seq![n] + tables_after(l, next as int)) =~= text::texts(names@)
                        + tables_after(l, next as int));
                    j = next;
                },
                None => {
                    assert(text::texts(names@) + Seq::<Seq<char>>::empty() =~= text::texts(names@));
                    break;
                },
            }
        }
        assert(!sym_at(l, j as int, ","@) ==> text::texts(names@) + Seq::<Seq<char>>::empty() =~= text::texts(names@));
    }
    assert(text::texts(names@) + Seq::<Seq<char>>::empty() =~= text::texts(names@));
    names
}

/// Reads the comma-separated table list at `start`: its named tables, and the
/// place at which reading goes on.
pub fn read_table_list(t: &Vec<Tok>, start: usize) -> (r: (Vec<String>, usize))
    requires
        start <= t.len(),
    ensures
        (text::texts(r.0@), r.1 as int) == table_list(token::lexemes(t@), start as int),
        start <= r.1 <= t.len(),
{
    let ghost l = token::lexemes(t@);
    let ghost whole = table_list(l, start as int);
    proof {
        list_advances(l, start as int);
    }
    let mut names: Vec<String> = Vec::new();
    let mut i: usize = start;
    assert(text::texts(names@) + table_list(l, i as int).0 =~= whole.0);
    loop
        invariant_except_break
            text::texts(names@) + table_list(l, i as int).0 == whole.0,
            table_list(l, i as int).1 == whole.1,
        invariant
            l == token::lexemes(t@),
            i <= t.len(),
        ensures
            text::texts(names@) == whole.0,
            i == whole.1,
        decreases t.len() - i,
    {
        proof {
            table_advances(l, i as int);
        }
        if at_sym(t, i, "(") {
            let past = skip_parens(t, i);
            let mut rest = read_tables_after(t, skip_table_alias(t, past));
            let ghost was = text::texts(names@);
            let ghost more = text::texts(rest@);
            names.append(&mut rest);
            assert(text::texts(names@) =~= was + more);
            break;
        }
        match read_one_table(t, i) {
            Some((name, next)) => {
                let ghost was = text::texts(names@);
                let ghost n = name@;
                names.push(name);
                assert(text::texts(names@) =~= was + seq![n]);
                if at_sym(t, next, ",") {
                    assert(was + (seq![n] + table_list(l, next + 1).0) =~= text::texts(names@) + table_list(
                        l,
                        next + 1,
                    ).0);
                    i = next + 1;
                } else {
                    i = next;
                    break;
                }
            },
            None => {
                assert(text::texts(names@) + Seq::<Seq<char>>::empty() =~= text::texts(names@));
                break;
            },
        }
    }
    (names, i)
}

/// Reads the names that a `WITH` list at `start` introduces.
pub fn scan_ctes(t: &Vec<Tok>, start: usize) -> (r: Vec<String>)
    requires
        start <= t.len(),
    ensures
        text::texts(r@) == cte_names(token::lexemes(t@), start as int),
{
    let ghost l = token::lexemes(t@);
    let ghost whole = cte_names(l, start as int);
    let mut names: Vec<String> = Vec::new();
    let mut i: usize = start;
    assert(text::texts(names@) + cte_names(l, i as int) =~= whole);
    loop
        invariant_except_break
            text::texts(names@) + cte_names(l, i as int) == whole,
        invariant
            l == token::lexemes(t@),
            i <= t.len(),
        ensures
            text::texts(names@) == whole,
        decreases t.len() - i,
    {
        assert(text::texts(names@) + Seq::<Seq<char>>::empty() =~= text::texts(names@));
        let name: String = match ident(t, i) {
            Some(name) => name,
            None => {
                break;
            },
        };
        let mut j: usize = i + 1;
        if at_sym(t, j, "(") {
            j = skip_parens(t, j);
        }
        if !at_kw(t, j, Kw::As) || !at_sym(t, j + 1, "(") {
            break;
        }
        let after = skip_parens(t, j + 1);
        let ghost was = text::texts(names@);
        let ghost n = name@;
        names.push(name);
        assert(text::texts(names@) =~= was + seq![n]);
        if !at_sym(t, after, ",") {
            break;
        }
        assert(was + (seq![n] + cte_names(l, after + 1)) =~= text::texts(names@) + cte_names(l, after + 1));
        i = after + 1;
    }
    names
}

} // verus!
