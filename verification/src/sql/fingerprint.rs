//! The fingerprint of a statement: a hash of its normal form, in which white
//! space, comments and the values of literals and parameters leave no trace.

use crate::hash::{self, short_hash};
use crate::sql::reader::{self, ident_norm};
use crate::sql::token::{self, Lexeme, Tok, Word};
use crate::text::{self, join, same, to_upper};
use vstd::prelude::*;

verus! {

/// The version of the normal form, which every fingerprint begins with.
pub const FINGERPRINT_VERSION: &'static str = "sql1";

/// A word in the normal form: a keyword in upper case, another unquoted word in
/// lower case, a quoted one as it is written.
pub open spec fn normal_word(value: Seq<char>, quoted: bool, keyword: bool) -> Seq<char> {
    if !quoted && keyword {
        text::upper(value)
    } else {
        reader::identifier(value, quoted)
    }
}

/// What a token leaves in the normal form: nothing where it is white space or the
/// semicolon at an end, a question mark where it is a literal or a parameter.
pub open spec fn shown(l: Lexeme) -> Option<Seq<char>> {
    match l {
        Lexeme::Word { value, quoted, keyword } => Some(normal_word(value, quoted, keyword)),
        Lexeme::Number(_) | Lexeme::Literal(_) | Lexeme::Placeholder => Some("?"@),
        Lexeme::Space => None,
        Lexeme::Symbol(s) => if s == ";"@ {
            None
        } else {
            Some(s)
        },
    }
}

/// The parts of the normal form.
pub open spec fn shown_parts(l: Seq<Lexeme>) -> Seq<Seq<char>>
    decreases l.len(),
{
    if l.len() == 0 {
        Seq::empty()
    } else {
        match shown(l.last()) {
            Some(part) => shown_parts(l.drop_last()).push(part),
            None => shown_parts(l.drop_last()),
        }
    }
}

/// The normal form of a statement.
pub open spec fn normal_form(l: Seq<Lexeme>) -> Seq<char> {
    text::joined(shown_parts(l), " "@)
}

/// The fingerprint of a normal form.
pub open spec fn fingerprint_of(normal: Seq<char>) -> Seq<char> {
    "sql1"@ + ":"@ + hash::short_hash_of(normal)
}

/// Two tokens that differ at most in what the fingerprint passes over: the value
/// of a literal or parameter, the case of an unquoted word.
pub open spec fn alike(a: Lexeme, b: Lexeme) -> bool {
    match (a, b) {
        (
            Lexeme::Word { value: v, quoted: false, keyword: k },
            Lexeme::Word { value: w, quoted: false, keyword: m },
        ) => k == m && text::upper(v) == text::upper(w) && text::lower(v) == text::lower(w),
        _ => a == b || (masked(a) && masked(b)),
    }
}

/// A literal or a parameter.
pub open spec fn masked(l: Lexeme) -> bool {
    l is Number || l is Literal || l is Placeholder
}

/// Statements whose tokens are pairwise alike have one normal form, and so one
/// fingerprint.
pub proof fn values_and_case_are_ignored(a: Seq<Lexeme>, b: Seq<Lexeme>)
    requires
        a.len() == b.len(),
        forall|i: int| 0 <= i < a.len() ==> alike(#[trigger] a[i], b[i]),
    ensures
        normal_form(a) == normal_form(b),
        fingerprint_of(normal_form(a)) == fingerprint_of(normal_form(b)),
{
    alike_parts(a, b);
}

proof fn alike_parts(a: Seq<Lexeme>, b: Seq<Lexeme>)
    requires
        a.len() == b.len(),
        forall|i: int| 0 <= i < a.len() ==> alike(#[trigger] a[i], b[i]),
    ensures
        shown_parts(a) == shown_parts(b),
    decreases a.len(),
{
    if a.len() > 0 {
        assert forall|i: int| 0 <= i < a.len() - 1 implies alike(
            #[trigger] a.drop_last()[i],
            b.drop_last()[i],
        ) by {
            assert(alike(a[i], b[i]));
        }
        alike_parts(a.drop_last(), b.drop_last());
        assert(alike(a[a.len() - 1], b[a.len() - 1]));
        assert(shown(a.last()) == shown(b.last()));
    }
}

proof fn parts_of_sum(a: Seq<Lexeme>, b: Seq<Lexeme>)
    ensures
        shown_parts(a + b) == shown_parts(a) + shown_parts(b),
    decreases b.len(),
{
    if b.len() == 0 {
        assert(a + b =~= a);
        assert(shown_parts(a) + shown_parts(b) =~= shown_parts(a));
    } else {
        assert((a + b).drop_last() =~= a + b.drop_last());
        parts_of_sum(a, b.drop_last());
        assert(shown_parts(a + b) =~= shown_parts(a) + shown_parts(b));
    }
}

/// White space, a comment or a semicolon anywhere in a statement leaves the
/// normal form, and so the fingerprint, as it is.
pub proof fn space_is_ignored(a: Seq<Lexeme>, x: Lexeme, b: Seq<Lexeme>)
    requires
        x is Space || x == Lexeme::Symbol(";"@),
    ensures
        normal_form(a.push(x) + b) == normal_form(a + b),
        fingerprint_of(normal_form(a.push(x) + b)) == fingerprint_of(normal_form(a + b)),
{
    parts_of_sum(a.push(x), b);
    parts_of_sum(a, b);
    assert(a.push(x).drop_last() =~= a);
}

/// A token that leaves no trace: white space or a semicolon.
pub open spec fn traceless(l: Lexeme) -> bool {
    l is Space || l == Lexeme::Symbol(";"@)
}

/// The tokens are of one kind: both words that are quoted or keywords alike, both symbols, or
/// both values.
pub open spec fn same_kind(a: Lexeme, b: Lexeme) -> bool {
    match (a, b) {
        (
            Lexeme::Word { value: v, quoted: q, keyword: k },
            Lexeme::Word { value: w, quoted: r, keyword: m },
        ) => q == r && k == m,
        (Lexeme::Symbol(x), Lexeme::Symbol(y)) => true,
        (Lexeme::Number(_), _) | (Lexeme::Literal(_), _) | (Lexeme::Placeholder, _) => b is Number
            || b is Literal || b is Placeholder,
        _ => false,
    }
}

/// How many of the tokens are neither white space nor a semicolon.
pub open spec fn traces(l: Seq<Lexeme>) -> nat
    decreases l.len(),
{
    if l.len() == 0 {
        0
    } else {
        traces(l.drop_last()) + if traceless(l.last()) {
            0nat
        } else {
            1
        }
    }
}

/// Every token but white space and semicolons leaves one part in the normal form, and the
/// parts of statements that stand behind each other stand behind each other.
pub proof fn every_other_token_leaves_a_part(a: Seq<Lexeme>, b: Seq<Lexeme>)
    ensures
        shown_parts(a).len() == traces(a),
        shown_parts(a + b) == shown_parts(a) + shown_parts(b),
    decreases a.len(),
{
    parts_of_sum(a, b);
    if a.len() > 0 {
        every_other_token_leaves_a_part(a.drop_last(), b);
    }
}

/// What a token leaves: a symbol itself, a value a question mark, a quoted word itself in
/// quotes, a keyword in upper case and any other word in lower case.
pub proof fn a_part_is_what_the_token_says(a: Seq<Lexeme>, x: Lexeme, b: Seq<Lexeme>)
    ensures
        ({
            let parts = shown_parts(a.push(x) + b);
            let n = shown_parts(a).len() as int;
            &&& x matches Lexeme::Symbol(s) ==> s != ";"@ ==> n < parts.len() && parts[n] == s
            &&& x is Number || x is Literal || x is Placeholder ==> n < parts.len() && parts[n]
                == "?"@
            &&& x matches Lexeme::Word { value, quoted, keyword } ==> n < parts.len() && parts[n]
                == if quoted {
                seq!['"'] + value + seq!['"']
            } else if keyword {
                text::upper(value)
            } else {
                text::lower(value)
            }
        }),
{
    parts_of_sum(a.push(x), b);
    assert(a.push(x).drop_last() =~= a);
    assert(a.push(x).last() == x);
}

proof fn cases_go_together(v: Seq<char>, w: Seq<char>)
    ensures
        text::upper(v) == text::upper(w) <==> text::lower(v) == text::lower(w),
{
    if text::upper(v) == text::upper(w) {
        assert(text::upper(v).len() == v.len() && text::upper(w).len() == w.len());
        assert forall|i: int| 0 <= i < v.len() implies text::lower_char(v[i]) == text::lower_char(
            w[i],
        ) by {
            assert(text::upper(v)[i] == text::upper(w)[i]);
        }
        assert(text::lower(v) =~= text::lower(w));
    }
    if text::lower(v) == text::lower(w) {
        assert(text::lower(v).len() == v.len() && text::lower(w).len() == w.len());
        assert forall|i: int| 0 <= i < v.len() implies text::upper_char(v[i]) == text::upper_char(
            w[i],
        ) by {
            assert(text::lower(v)[i] == text::lower(w)[i]);
        }
        assert(text::upper(v) =~= text::upper(w));
    }
}

/// The tokens are the same, or differ in the value of a literal or the case of an unquoted
/// word.
pub open spec fn unseen(x: Lexeme, y: Lexeme) -> bool {
    ||| x == y
    ||| x is Number || x is Literal || x is Placeholder
    ||| match (x, y) {
        (
            Lexeme::Word { value: v, quoted: q, keyword: k },
            Lexeme::Word { value: w, quoted: r, keyword: m },
        ) => !q && text::lower(v) == text::lower(w),
        _ => false,
    }
}

/// Lists of tokens of one kind each, without white space and semicolons, have the same parts
/// only where the tokens differ in nothing but the values of literals and the case of
/// unquoted words: any other difference shows.
pub proof fn other_differences_show(a: Seq<Lexeme>, b: Seq<Lexeme>)
    requires
        a.len() == b.len(),
        forall|i: int|
            0 <= i < a.len() ==> same_kind(#[trigger] a[i], b[i]) && !traceless(a[i]) && !traceless(
                b[i],
            ),
    ensures
        shown_parts(a) == shown_parts(b) <==> forall|i: int|
            0 <= i < a.len() ==> unseen(#[trigger] a[i], b[i]),
    decreases a.len(),
{
    if a.len() > 0 {
        let x = a.last();
        let y = b.last();
        let ra = a.drop_last();
        let rb = b.drop_last();
        assert(same_kind(a[a.len() - 1], b[a.len() - 1]));
        assert forall|i: int| 0 <= i < ra.len() implies same_kind(#[trigger] ra[i], rb[i])
            && !traceless(ra[i]) && !traceless(rb[i]) by {
            assert(same_kind(a[i], b[i]));
        }
        other_differences_show(ra, rb);
        let px = shown(x)->0;
        let py = shown(y)->0;
        let pa = shown_parts(ra);
        let pb = shown_parts(rb);
        assert(shown_parts(a) == pa.push(px));
        assert(shown_parts(b) == pb.push(py));
        assert((pa.push(px) == pb.push(py)) <==> (pa == pb && px == py)) by {
            if pa.push(px) == pb.push(py) {
                assert(pa.push(px).drop_last() =~= pa);
                assert(pb.push(py).drop_last() =~= pb);
                assert(pa.push(px).last() == px);
                assert(pb.push(py).last() == py);
            }
        }
        assert((px == py) <==> unseen(x, y)) by {
            match (x, y) {
                (
                    Lexeme::Word { value: v, quoted: q, keyword: k },
                    Lexeme::Word { value: w, quoted: r, keyword: m },
                ) => {
                    cases_go_together(v, w);
                    if q {
                        let s = seq!['"'] + v + seq!['"'];
                        let u = seq!['"'] + w + seq!['"'];
                        if s == u {
                            assert(s.subrange(1, s.len() - 1) =~= v);
                            assert(u.subrange(1, u.len() - 1) =~= w);
                        }
                    }
                },
                _ => {},
            }
        }
        if shown_parts(a) == shown_parts(b) {
            assert forall|i: int| 0 <= i < a.len() implies unseen(#[trigger] a[i], b[i]) by {
                if i < ra.len() {
                    assert(unseen(ra[i], rb[i]));
                }
            }
        }
        if forall|i: int| 0 <= i < a.len() ==> unseen(#[trigger] a[i], b[i]) {
            assert forall|i: int| 0 <= i < ra.len() implies unseen(#[trigger] ra[i], rb[i]) by {
                assert(unseen(a[i], b[i]));
            }
            assert(unseen(a[a.len() - 1], b[a.len() - 1]));
        }
    }
}

/// Where no part holds a space the normal forms differ too, where the parts do.
pub proof fn different_parts_give_different_forms(a: Seq<Lexeme>, b: Seq<Lexeme>)
    requires
        shown_parts(a).len() == shown_parts(b).len(),
        forall|i: int|
            0 <= i < shown_parts(a).len() ==> !text::has_char(#[trigger] shown_parts(a)[i], ' '),
        forall|i: int|
            0 <= i < shown_parts(b).len() ==> !text::has_char(#[trigger] shown_parts(b)[i], ' '),
    ensures
        normal_form(a) == normal_form(b) <==> shown_parts(a) == shown_parts(b),
{
    if normal_form(a) == normal_form(b) {
        joined_tells_parts(shown_parts(a), shown_parts(b));
    }
}

proof fn joined_tells_parts(p: Seq<Seq<char>>, q: Seq<Seq<char>>)
    requires
        p.len() == q.len(),
        forall|i: int| 0 <= i < p.len() ==> !text::has_char(#[trigger] p[i], ' '),
        forall|i: int| 0 <= i < q.len() ==> !text::has_char(#[trigger] q[i], ' '),
        text::joined(p, " "@) == text::joined(q, " "@),
    ensures
        p == q,
    decreases p.len(),
{
    if p.len() > 1 {
        reveal_strlit(" ");
        assert(" "@ =~= seq![' ']);
        let rp = p.drop_last();
        let rq = q.drop_last();
        assert(!text::has_char(p[p.len() - 1], ' '));
        assert(!text::has_char(q[q.len() - 1], ' '));
        text::last_split_is_unique(
            text::joined(rp, " "@),
            p.last(),
            text::joined(rq, " "@),
            q.last(),
            ' ',
        );
        assert forall|i: int| 0 <= i < rp.len() implies !text::has_char(#[trigger] rp[i], ' ') by {
            assert(rp[i] == p[i]);
        }
        assert forall|i: int| 0 <= i < rq.len() implies !text::has_char(#[trigger] rq[i], ' ') by {
            assert(rq[i] == q[i]);
        }
        joined_tells_parts(rp, rq);
        assert(p =~= rp.push(p.last()));
        assert(q =~= rq.push(q.last()));
    } else {
        assert(p =~= q);
    }
}

/// The word in the normal form.
pub fn norm_word(w: &Word) -> (r: String)
    ensures
        r@ == normal_word(w.value@, w.quoted, w.keyword),
{
    if !w.quoted && w.keyword {
        to_upper(w.value.as_str())
    } else {
        ident_norm(w)
    }
}

/// The normal form of a statement.
pub fn normalize(tokens: &Vec<Tok>) -> (r: String)
    ensures
        r@ == normal_form(token::lexemes(tokens@)),
{
    let mut parts: Vec<String> = Vec::new();
    let mut i: usize = 0;
    let ghost l = token::lexemes(tokens@);
    assert(text::texts(parts@) =~= shown_parts(l.take(0)));
    while i < tokens.len()
        invariant
            l == token::lexemes(tokens@),
            i <= tokens.len(),
            text::texts(parts@) == shown_parts(l.take(i as int)),
        decreases tokens.len() - i,
    {
        let ghost was = text::texts(parts@);
        assert(l.take(i + 1).drop_last() =~= l.take(i as int));
        assert(l[i as int] == tokens@[i as int]@);
        let part: Option<String> = match &tokens[i] {
            Tok::Word(w) => Some(norm_word(w)),
            Tok::Number(_) | Tok::Literal(_) | Tok::Placeholder => Some(String::from_str("?")),
            Tok::Space => None,
            Tok::Symbol(s) => {
                if same(s.as_str(), ";") {
                    None
                } else {
                    Some(s.clone())
                }
            },
        };
        match part {
            Some(p) => {
                parts.push(p);
                assert(text::texts(parts@) =~= was.push(p@));
            },
            None => {},
        }
        i += 1;
    }
    assert(l.take(i as int) =~= l);
    join(&parts, " ")
}

/// The fingerprint of a normal form.
pub fn fingerprint_text(normal: &str) -> (r: String)
    ensures
        r@ == fingerprint_of(normal@),
{
    let mut r = String::from_str("sql1");
    r.append(":");
    let h = short_hash(normal);
    r.append(h.as_str());
    r
}

} // verus!
