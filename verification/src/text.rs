//! Text as sequences of characters: comparison, case folding, joining and
//! searching, each stated over the characters of its arguments.

use vstd::prelude::*;

verus! {

/// `String::push`: the character is appended behind the existing ones.
pub assume_specification[ String::push ](s: &mut String, c: char)
    ensures
        final(s)@ == old(s)@.push(c),
;

/// The characters of each text of a list.
pub open spec fn texts(v: Seq<String>) -> Seq<Seq<char>> {
    v.map_values(|s: String| s@)
}

/// The characters of an optional text.
pub open spec fn opt_text(o: Option<String>) -> Option<Seq<char>> {
    match o {
        Some(s) => Some(s@),
        None => None,
    }
}

/// The characters of a text, in order.
pub fn chars_of(s: &str) -> (v: Vec<char>)
    ensures
        v@ == s@,
{
    let mut v: Vec<char> = Vec::new();
    for c in it: s.chars()
        invariant
            v@ == it.seq().take(it.index()),
    {
        v.push(c);
        assert(it.seq().take(it.index()).push(c) =~= it.seq().take(it.index() + 1));
    }
    v
}

/// The text made of the given characters.
pub fn text_of(v: &Vec<char>) -> (s: String)
    ensures
        s@ == v@,
{
    let mut s = String::new();
    let mut i: usize = 0;
    while i < v.len()
        invariant
            i <= v.len(),
            s@ == v@.take(i as int),
        decreases v.len() - i,
    {
        s.push(v[i]);
        i += 1;
        assert(v@.take(i as int) =~= v@.take(i - 1).push(v@[i - 1]));
    }
    assert(v@.take(i as int) =~= v@);
    s
}

/// Whether two texts hold the same characters.
pub fn same(a: &str, b: &str) -> (r: bool)
    ensures
        r == (a@ == b@),
{
    let x = chars_of(a);
    let y = chars_of(b);
    if x.len() != y.len() {
        return false;
    }
    let mut i: usize = 0;
    while i < x.len()
        invariant
            x.len() == y.len(),
            i <= x.len(),
            x@ == a@,
            y@ == b@,
            forall|j: int| 0 <= j < i ==> x@[j] == y@[j],
        decreases x.len() - i,
    {
        if x[i] != y[i] {
            return false;
        }
        i += 1;
    }
    assert(x@ =~= y@);
    true
}

/// Whether a list holds a text.
pub open spec fn listed(v: Seq<String>, s: Seq<char>) -> bool {
    exists|i: int| 0 <= i < v.len() && (#[trigger] v[i])@ == s
}

/// Whether `s` is one of `v`.
pub fn is_listed(v: &Vec<String>, s: &str) -> (r: bool)
    ensures
        r == listed(v@, s@),
{
    let mut i: usize = 0;
    while i < v.len()
        invariant
            i <= v.len(),
            forall|j: int| 0 <= j < i ==> (#[trigger] v@[j])@ != s@,
        decreases v.len() - i,
    {
        if same(v[i].as_str(), s) {
            assert(v@[i as int]@ == s@);
            return true;
        }
        i += 1;
    }
    false
}

/// The first place where `a` and `b` differ is `k`, and `a` has the smaller
/// character there, or ends there.
pub open spec fn below_at(a: Seq<char>, b: Seq<char>, k: int) -> bool {
    &&& 0 <= k <= a.len()
    &&& k < b.len()
    &&& forall|j: int| 0 <= j < k ==> a[j] == b[j]
    &&& (k == a.len() || a[k] < b[k])
}

/// The order of texts: by the first character in which they differ, a prefix
/// before what it begins.
pub open spec fn text_lt(a: Seq<char>, b: Seq<char>) -> bool {
    exists|k: int| below_at(a, b, k)
}

/// A text is not before itself, and of two texts only one is before the other.
pub proof fn text_lt_asymmetric(a: Seq<char>, b: Seq<char>)
    requires
        text_lt(a, b),
    ensures
        !text_lt(b, a),
        a != b,
{
    let k = choose|k: int| below_at(a, b, k);
    assert forall|j: int| !below_at(b, a, j) by {
        if below_at(b, a, j) {
            if j < k {
                assert(a[j] == b[j]);
            } else if k < j {
                assert(b[k] == a[k]);
            }
        }
    }
    if a == b {
        assert(below_at(b, a, k));
    }
}

/// The order of texts is transitive.
pub proof fn text_lt_transitive(a: Seq<char>, b: Seq<char>, c: Seq<char>)
    requires
        text_lt(a, b),
        text_lt(b, c),
    ensures
        text_lt(a, c),
{
    let k = choose|k: int| below_at(a, b, k);
    let m = choose|m: int| below_at(b, c, m);
    let n = if k < m { k } else { m };
    assert forall|j: int| 0 <= j < n implies a[j] == c[j] by {
        assert(a[j] == b[j]);
        assert(b[j] == c[j]);
    }
    if k < m {
        assert(b[k] == c[k]);
    } else if m < k {
        assert(a[m] == b[m]);
    }
    assert(below_at(a, c, n));
}

/// Of two different texts one is before the other.
pub proof fn text_lt_total(a: Seq<char>, b: Seq<char>)
    requires
        a != b,
    ensures
        text_lt(a, b) || text_lt(b, a),
{
    text_lt_total_from(a, b, 0);
}

proof fn text_lt_total_from(a: Seq<char>, b: Seq<char>, k: int)
    requires
        a != b,
        0 <= k <= a.len(),
        k <= b.len(),
        forall|j: int| 0 <= j < k ==> a[j] == b[j],
    ensures
        text_lt(a, b) || text_lt(b, a),
    decreases a.len() - k,
{
    if k == a.len() {
        if k == b.len() {
            assert(a =~= b);
        } else {
            assert(below_at(a, b, k));
        }
    } else if k == b.len() {
        assert(below_at(b, a, k));
    } else if a[k] < b[k] {
        assert(below_at(a, b, k));
    } else if b[k] < a[k] {
        assert(below_at(b, a, k));
    } else {
        text_lt_total_from(a, b, k + 1);
    }
}

/// Whether `a` comes before `b`.
pub fn before(a: &str, b: &str) -> (r: bool)
    ensures
        r == text_lt(a@, b@),
{
    let x = chars_of(a);
    let y = chars_of(b);
    let mut i: usize = 0;
    while i < x.len() && i < y.len()
        invariant
            i <= x.len(),
            i <= y.len(),
            x@ == a@,
            y@ == b@,
            forall|j: int| 0 <= j < i ==> x@[j] == y@[j],
        decreases x.len() - i,
    {
        if x[i] < y[i] {
            assert(below_at(a@, b@, i as int));
            return true;
        }
        if y[i] < x[i] {
            proof {
                assert(below_at(b@, a@, i as int));
                text_lt_asymmetric(b@, a@);
            }
            return false;
        }
        i += 1;
    }
    if i < y.len() {
        assert(below_at(a@, b@, i as int));
        true
    } else {
        proof {
            if i < x.len() {
                assert(below_at(b@, a@, i as int));
                text_lt_asymmetric(b@, a@);
            } else {
                assert(a@ =~= b@);
                if text_lt(a@, b@) {
                    text_lt_asymmetric(a@, b@);
                }
            }
        }
        false
    }
}

/// ASCII lower case of one character; any other character is kept.
pub open spec fn lower_char(c: char) -> char {
    if 'A' <= c && c <= 'Z' {
        (c as u8 + 32) as char
    } else {
        c
    }
}

/// ASCII upper case of one character; any other character is kept.
pub open spec fn upper_char(c: char) -> char {
    if 'a' <= c && c <= 'z' {
        (c as u8 - 32) as char
    } else {
        c
    }
}

/// A text in ASCII lower case.
pub open spec fn lower(s: Seq<char>) -> Seq<char> {
    s.map_values(|c: char| lower_char(c))
}

/// A text in ASCII upper case.
pub open spec fn upper(s: Seq<char>) -> Seq<char> {
    s.map_values(|c: char| upper_char(c))
}

/// `s` in ASCII lower case.
pub fn to_lower(s: &str) -> (r: String)
    ensures
        r@ == lower(s@),
{
    let v = chars_of(s);
    let mut r = String::new();
    let mut i: usize = 0;
    while i < v.len()
        invariant
            i <= v.len(),
            v@ == s@,
            r@ == lower(s@.take(i as int)),
        decreases v.len() - i,
    {
        let c = v[i];
        if 'A' <= c && c <= 'Z' {
            r.push((c as u8 + 32) as char);
        } else {
            r.push(c);
        }
        i += 1;
        assert(lower(s@.take(i as int)) =~= lower(s@.take(i - 1)).push(lower_char(s@[i - 1])));
    }
    assert(s@.take(i as int) =~= s@);
    r
}

/// `s` in ASCII upper case.
pub fn to_upper(s: &str) -> (r: String)
    ensures
        r@ == upper(s@),
{
    let v = chars_of(s);
    let mut r = String::new();
    let mut i: usize = 0;
    while i < v.len()
        invariant
            i <= v.len(),
            v@ == s@,
            r@ == upper(s@.take(i as int)),
        decreases v.len() - i,
    {
        let c = v[i];
        if 'a' <= c && c <= 'z' {
            r.push((c as u8 - 32) as char);
        } else {
            r.push(c);
        }
        i += 1;
        assert(upper(s@.take(i as int)) =~= upper(s@.take(i - 1)).push(upper_char(s@[i - 1])));
    }
    assert(s@.take(i as int) =~= s@);
    r
}

/// The texts one behind the other, with `sep` between each two.
pub open spec fn joined(parts: Seq<Seq<char>>, sep: Seq<char>) -> Seq<char>
    decreases parts.len(),
{
    if parts.len() == 0 {
        Seq::empty()
    } else if parts.len() == 1 {
        parts[0]
    } else {
        joined(parts.drop_last(), sep) + sep + parts.last()
    }
}

/// `parts` one behind the other, with `sep` between each two.
pub fn join(parts: &Vec<String>, sep: &str) -> (r: String)
    ensures
        r@ == joined(texts(parts@), sep@),
{
    let mut r = String::new();
    let mut i: usize = 0;
    while i < parts.len()
        invariant
            i <= parts.len(),
            r@ == joined(texts(parts@).take(i as int), sep@),
        decreases parts.len() - i,
    {
        if i > 0 {
            r.append(sep);
        }
        r.append(parts[i].as_str());
        i += 1;
        proof {
            let done = texts(parts@).take(i as int);
            assert(done.drop_last() =~= texts(parts@).take(i - 1));
            if i == 1 {
                assert(texts(parts@).take(0).len() == 0);
                assert(r@ =~= done[0]);
            } else {
                assert(r@ =~= joined(done.drop_last(), sep@) + sep@ + done.last());
            }
        }
    }
    assert(texts(parts@).take(i as int) =~= texts(parts@));
    r
}

/// Whether `s` begins with `p`.
pub open spec fn starts(s: Seq<char>, p: Seq<char>) -> bool {
    p.len() <= s.len() && s.take(p.len() as int) == p
}

/// Whether `s` ends with `p`.
pub open spec fn ends(s: Seq<char>, p: Seq<char>) -> bool {
    p.len() <= s.len() && s.skip(s.len() - p.len()) == p
}

/// Whether `p` stands in `s` at place `k`.
pub open spec fn found_at(s: Seq<char>, p: Seq<char>, k: int) -> bool {
    0 <= k && k + p.len() <= s.len() && s.subrange(k, k + p.len()) == p
}

/// Whether `p` stands somewhere in `s`.
pub open spec fn within(s: Seq<char>, p: Seq<char>) -> bool {
    exists|k: int| found_at(s, p, k)
}

fn matches_at(v: &Vec<char>, w: &Vec<char>, k: usize) -> (r: bool)
    requires
        k + w.len() <= v.len(),
    ensures
        r == found_at(v@, w@, k as int),
{
    let mut j: usize = 0;
    while j < w.len()
        invariant
            j <= w.len(),
            k + w.len() <= v.len(),
            forall|m: int| 0 <= m < j ==> v@[k + m] == w@[m],
        decreases w.len() - j,
    {
        if v[k + j] != w[j] {
            assert(v@.subrange(k as int, k + w.len())[j as int] != w@[j as int]);
            return false;
        }
        j += 1;
    }
    assert(v@.subrange(k as int, k + w.len()) =~= w@);
    true
}

/// Whether `s` begins with `p`.
pub fn starts_with(s: &str, p: &str) -> (r: bool)
    ensures
        r == starts(s@, p@),
{
    let v = chars_of(s);
    let w = chars_of(p);
    if w.len() > v.len() {
        return false;
    }
    let r = matches_at(&v, &w, 0);
    assert(v@.subrange(0, w.len() as int) =~= v@.take(w.len() as int));
    r
}

/// Whether `s` ends with `p`.
pub fn ends_with(s: &str, p: &str) -> (r: bool)
    ensures
        r == ends(s@, p@),
{
    let v = chars_of(s);
    let w = chars_of(p);
    if w.len() > v.len() {
        return false;
    }
    let r = matches_at(&v, &w, v.len() - w.len());
    assert(v@.subrange(v.len() - w.len(), v.len() as int) =~= v@.skip(v.len() - w.len()));
    r
}

/// Whether `p` stands somewhere in `s`.
pub fn contains(s: &str, p: &str) -> (r: bool)
    ensures
        r == within(s@, p@),
{
    let v = chars_of(s);
    let w = chars_of(p);
    if w.len() > v.len() {
        return false;
    }
    let last: usize = v.len() - w.len();
    let mut k: usize = 0;
    loop
        invariant
            v@ == s@,
            w@ == p@,
            last + w.len() == v.len(),
            k <= last,
            forall|j: int| 0 <= j < k ==> !found_at(s@, p@, j),
        decreases last - k,
    {
        if matches_at(&v, &w, k) {
            assert(found_at(s@, p@, k as int));
            return true;
        }
        if k == last {
            return false;
        }
        k += 1;
    }
}

/// Whether a character occurs in a text.
pub open spec fn has_char(s: Seq<char>, c: char) -> bool {
    exists|i: int| 0 <= i < s.len() && s[i] == c
}

/// Whether `c` occurs in `s`.
pub fn contains_char(s: &str, c: char) -> (r: bool)
    ensures
        r == has_char(s@, c),
{
    let v = chars_of(s);
    let mut i: usize = 0;
    while i < v.len()
        invariant
            i <= v.len(),
            v@ == s@,
            forall|j: int| 0 <= j < i ==> s@[j] != c,
        decreases v.len() - i,
    {
        if v[i] == c {
            return true;
        }
        i += 1;
    }
    false
}

/// The parts of `s` before and behind the last `c`.
pub fn rsplit_once(s: &str, c: char) -> (r: Option<(String, String)>)
    ensures
        match r {
            Some((a, b)) => s@ == a@ + seq![c] + b@ && !has_char(b@, c),
            None => !has_char(s@, c),
        },
{
    let v = chars_of(s);
    let mut k: usize = v.len();
    while k > 0
        invariant
            k <= v.len(),
            v@ == s@,
            forall|j: int| k <= j < v.len() ==> s@[j] != c,
        decreases k,
    {
        k -= 1;
        if v[k] == c {
            let mut a = String::new();
            let mut i: usize = 0;
            while i < k
                invariant
                    i <= k < v.len(),
                    a@ == v@.take(i as int),
                decreases k - i,
            {
                a.push(v[i]);
                i += 1;
                assert(a@ =~= v@.take(i as int));
            }
            let mut b = String::new();
            let mut m: usize = k + 1;
            while m < v.len()
                invariant
                    k + 1 <= m <= v.len(),
                    b@ == v@.subrange(k + 1, m as int),
                decreases v.len() - m,
            {
                b.push(v[m]);
                m += 1;
                assert(b@ =~= v@.subrange(k + 1, m as int));
            }
            assert(s@ =~= a@ + seq![c] + b@);
            return Some((a, b));
        }
    }
    None
}

/// A text is split at its last `c` in one way only.
pub proof fn last_split_is_unique(a: Seq<char>, b: Seq<char>, x: Seq<char>, y: Seq<char>, c: char)
    requires
        a + seq![c] + b == x + seq![c] + y,
        !has_char(b, c),
        !has_char(y, c),
    ensures
        a == x,
        b == y,
{
    let s = a + seq![c] + b;
    let t = x + seq![c] + y;
    assert(s.len() == t.len());
    assert(s[a.len() as int] == c);
    assert(t[x.len() as int] == c);
    if a.len() < x.len() {
        assert(s[x.len() as int] == b[x.len() - a.len() - 1]);
    } else if x.len() < a.len() {
        assert(t[a.len() as int] == y[a.len() - x.len() - 1]);
    }
    assert(a =~= s.take(a.len() as int));
    assert(x =~= t.take(a.len() as int));
    assert(b =~= s.skip(a.len() as int + 1));
    assert(y =~= t.skip(a.len() as int + 1));
}

/// `s` with every `c` written as `with`.
pub open spec fn replaced(s: Seq<char>, c: char, with: Seq<char>) -> Seq<char>
    decreases s.len(),
{
    if s.len() == 0 {
        Seq::empty()
    } else {
        replaced(s.drop_last(), c, with) + if s.last() == c {
            with
        } else {
            seq![s.last()]
        }
    }
}

/// `s` with every `c` written as `with`.
pub fn replace_char(s: &str, c: char, with: &str) -> (r: String)
    ensures
        r@ == replaced(s@, c, with@),
{
    let v = chars_of(s);
    let mut r = String::new();
    let mut i: usize = 0;
    while i < v.len()
        invariant
            i <= v.len(),
            v@ == s@,
            r@ == replaced(s@.take(i as int), c, with@),
        decreases v.len() - i,
    {
        let ghost was = r@;
        if v[i] == c {
            r.append(with);
        } else {
            r.push(v[i]);
            assert(r@ =~= was + seq![s@[i as int]]);
        }
        i += 1;
        assert(s@.take(i as int).drop_last() =~= s@.take(i - 1));
    }
    assert(s@.take(i as int) =~= s@);
    r
}

/// A character with the Unicode property `White_Space`.
pub open spec fn is_space(c: char) -> bool {
    let n = c as u32;
    (0x9 <= n <= 0xd) || n == 0x20 || n == 0x85 || n == 0xa0 || n == 0x1680 || (0x2000 <= n <= 0x200a)
        || n == 0x2028 || n == 0x2029 || n == 0x202f || n == 0x205f || n == 0x3000
}

/// Whether the character is white space.
pub fn space_char(c: char) -> (r: bool)
    ensures
        r == is_space(c),
{
    let n: u32 = c as u32;
    (0x9 <= n && n <= 0xd) || n == 0x20 || n == 0x85 || n == 0xa0 || n == 0x1680 || (0x2000 <= n && n
        <= 0x200a) || n == 0x2028 || n == 0x2029 || n == 0x202f || n == 0x205f || n == 0x3000
}

/// The runs of characters between white space.
pub open spec fn words(s: Seq<char>) -> Seq<Seq<char>>
    decreases s.len(),
{
    if s.len() == 0 {
        Seq::empty()
    } else {
        let w = words(s.drop_last());
        if is_space(s.last()) {
            w
        } else if s.len() > 1 && !is_space(s[s.len() - 2]) {
            w.drop_last().push(w.last().push(s.last()))
        } else {
            w.push(seq![s.last()])
        }
    }
}

/// The runs of characters between white space, in order.
pub fn split_words(s: &str) -> (r: Vec<String>)
    ensures
        texts(r@) == words(s@),
{
    let v = chars_of(s);
    let mut r: Vec<String> = Vec::new();
    let mut cur = String::new();
    let mut open = false;
    let mut i: usize = 0;
    while i < v.len()
        invariant
            i <= v.len(),
            v@ == s@,
            open == (i > 0 && !is_space(s@[i - 1])),
            open ==> words(s@.take(i as int)) == texts(r@).push(cur@),
            !open ==> words(s@.take(i as int)) == texts(r@),
            !open ==> cur@.len() == 0,
        decreases v.len() - i,
    {
        let c = v[i];
        let ghost was = texts(r@);
        let ghost w = cur@;
        assert(s@.take(i + 1).drop_last() =~= s@.take(i as int));
        if space_char(c) {
            if open {
                r.push(cur);
                assert(texts(r@) =~= was.push(w));
                cur = String::new();
            }
            open = false;
        } else {
            cur.push(c);
            proof {
                if open {
                    assert(was.push(w).drop_last() =~= was);
                    assert(s@.take(i + 1)[i - 1] == s@[i - 1]);
                } else {
                    assert(cur@ =~= seq![c]);
                    if i > 0 {
                        assert(s@.take(i + 1)[i - 1] == s@[i - 1]);
                    }
                }
            }
            open = true;
        }
        i += 1;
    }
    assert(s@.take(i as int) =~= s@);
    if open {
        let ghost was = texts(r@);
        let ghost w = cur@;
        r.push(cur);
        assert(texts(r@) =~= was.push(w));
    }
    r
}

/// A text without the white space at its end.
pub open spec fn trimmed_end(s: Seq<char>) -> Seq<char>
    decreases s.len(),
{
    if s.len() > 0 && is_space(s.last()) {
        trimmed_end(s.drop_last())
    } else {
        s
    }
}

/// A text without the white space at its start.
pub open spec fn trimmed_start(s: Seq<char>) -> Seq<char>
    decreases s.len(),
{
    if s.len() > 0 && is_space(s[0]) {
        trimmed_start(s.drop_first())
    } else {
        s
    }
}

/// A text without the white space around it.
pub open spec fn trimmed(s: Seq<char>) -> Seq<char> {
    trimmed_start(trimmed_end(s))
}

/// The text without the white space around it.
pub fn trim(s: &str) -> (r: String)
    ensures
        r@ == trimmed(s@),
{
    let v = chars_of(s);
    let mut end: usize = v.len();
    assert(v@.take(end as int) =~= v@);
    while end > 0 && space_char(v[end - 1])
        invariant
            end <= v.len(),
            trimmed_end(v@.take(end as int)) == trimmed_end(v@),
        decreases end,
    {
        assert(v@.take(end as int).drop_last() =~= v@.take(end - 1));
        end -= 1;
    }
    let mut start: usize = 0;
    assert(v@.subrange(0, end as int) =~= v@.take(end as int));
    assert(end > 0 ==> v@.take(end as int).last() == v@[end - 1]);
    while start < end && space_char(v[start])
        invariant
            start <= end <= v.len(),
            trimmed_start(v@.subrange(start as int, end as int)) == trimmed(v@),
        decreases end - start,
    {
        assert(v@.subrange(start as int, end as int).drop_first() =~= v@.subrange(
            start + 1,
            end as int,
        ));
        assert(v@.subrange(start as int, end as int)[0] == v@[start as int]);
        start += 1;
    }
    assert(start < end ==> v@.subrange(start as int, end as int)[0] == v@[start as int]);
    let mut r = String::new();
    let mut i: usize = start;
    while i < end
        invariant
            start <= i <= end <= v.len(),
            r@ == v@.subrange(start as int, i as int),
        decreases end - i,
    {
        r.push(v[i]);
        i += 1;
        assert(r@ =~= v@.subrange(start as int, i as int));
    }
    r
}

/// A control character: one of the Unicode category `Cc`.
pub open spec fn is_control(c: char) -> bool {
    let n = c as u32;
    n <= 0x1f || (0x7f <= n <= 0x9f)
}

/// Some character is a control character.
pub open spec fn controls(s: Seq<char>) -> bool {
    exists|i: int| 0 <= i < s.len() && is_control(#[trigger] s[i])
}

/// Whether some character is a control character.
pub fn has_control(s: &str) -> (r: bool)
    ensures
        r == controls(s@),
{
    let v = chars_of(s);
    let mut i: usize = 0;
    while i < v.len()
        invariant
            i <= v.len(),
            v@ == s@,
            forall|j: int| 0 <= j < i ==> !is_control(#[trigger] v@[j]),
        decreases v.len() - i,
    {
        let n: u32 = v[i] as u32;
        if n <= 0x1f || (0x7f <= n && n <= 0x9f) {
            assert(is_control(s@[i as int]));
            return true;
        }
        i += 1;
    }
    false
}

/// The bytes that a text takes in UTF-8.
pub open spec fn size(s: Seq<char>) -> nat {
    vstd::utf8::encode_utf8(s).len()
}

/// A text in Unicode lower case.
pub uninterp spec fn lowercase(s: Seq<char>) -> Seq<char>;

/// `str::to_lowercase`: the Unicode lower case of a text, which depends on the
/// text alone.
#[verifier::external_body]
pub(crate) fn unicode_lower(s: &str) -> (r: String)
    ensures
        r@ == lowercase(s@),
{
    s.to_lowercase()
}

/// A text in quotes, with what cannot be shown escaped.
pub uninterp spec fn quoted(s: Seq<char>) -> Seq<char>;

/// The `Debug` form of `str`, by `format!`. The result depends on the characters
/// alone.
#[verifier::external_body]
pub(crate) fn debug_text(s: &str) -> (r: String)
    ensures
        r@ == quoted(s@),
{
    format!("{s:?}")
}

/// A text stands in another where the other is that text with something before and behind
/// it.
pub proof fn within_is_between(s: Seq<char>, p: Seq<char>)
    ensures
        within(s, p) <==> exists|before: Seq<char>, after: Seq<char>|
            s == #[trigger] (before + p + after),
{
    if within(s, p) {
        let k = choose|k: int| found_at(s, p, k);
        let before = s.take(k);
        let after = s.skip(k + p.len());
        assert(s =~= before + p + after) by {
            assert forall|i: int| 0 <= i < s.len() implies s[i] == (before + p + after)[i] by {
                if k <= i < k + p.len() {
                    assert(s.subrange(k, k + p.len())[i - k] == p[i - k]);
                }
            }
        }
    }
    if exists|before: Seq<char>, after: Seq<char>| s == #[trigger] (before + p + after) {
        let (before, after) = choose|before: Seq<char>, after: Seq<char>|
            s == #[trigger] (before + p + after);
        assert(s.subrange(before.len() as int, before.len() as int + p.len()) =~= p);
        assert(found_at(s, p, before.len() as int));
    }
}

/// A text begins with what something can be put behind to give it, and ends with what
/// something can be put before.
pub proof fn starts_and_ends_are_parts(s: Seq<char>, p: Seq<char>)
    ensures
        starts(s, p) <==> exists|rest: Seq<char>| s == #[trigger] (p + rest),
        ends(s, p) <==> exists|rest: Seq<char>| s == #[trigger] (rest + p),
{
    if starts(s, p) {
        assert(s =~= p + s.skip(p.len() as int)) by {
            assert forall|i: int| 0 <= i < p.len() implies s[i] == p[i] by {
                assert(s.take(p.len() as int)[i] == p[i]);
            }
        }
    }
    if exists|rest: Seq<char>| s == #[trigger] (p + rest) {
        assert(s.take(p.len() as int) =~= p);
    }
    if ends(s, p) {
        let k = s.len() - p.len();
        assert(s =~= s.take(k) + p) by {
            assert forall|i: int| k <= i < s.len() implies s[i] == p[i - k] by {
                assert(s.skip(k)[i - k] == p[i - k]);
            }
        }
    }
    if exists|rest: Seq<char>| s == #[trigger] (rest + p) {
        assert(s.skip(s.len() - p.len()) =~= p);
    }
}

/// Lower case has no capital of the ASCII letters and changes nothing else, and upper case
/// undoes it on them. Texts that differ in the case of ASCII letters alone have one lower
/// case.
pub proof fn case_is_of_ascii_letters(s: Seq<char>, i: int)
    requires
        0 <= i < s.len(),
    ensures
        lower(s).len() == s.len(),
        upper(s).len() == s.len(),
        !('A' <= lower(s)[i] && lower(s)[i] <= 'Z'),
        !('a' <= upper(s)[i] && upper(s)[i] <= 'z'),
        'A' <= s[i] && s[i] <= 'Z' ==> lower(s)[i] as u32 == s[i] as u32 + 32,
        'a' <= s[i] && s[i] <= 'z' ==> upper(s)[i] as u32 == s[i] as u32 - 32,
        !('A' <= s[i] && s[i] <= 'Z') ==> lower(s)[i] == s[i],
        !('a' <= s[i] && s[i] <= 'z') ==> upper(s)[i] == s[i],
        lower(upper(s)) == lower(s),
        upper(lower(s)) == upper(s),
{
    assert(lower(upper(s)) =~= lower(s)) by {
        assert forall|k: int| 0 <= k < s.len() implies lower(upper(s))[k] == lower(s)[k] by {
            let c = s[k];
            assert(upper(s)[k] == upper_char(c));
            assert(lower_char(upper_char(c)) == lower_char(c));
        }
    }
    assert(upper(lower(s)) =~= upper(s)) by {
        assert forall|k: int| 0 <= k < s.len() implies upper(lower(s))[k] == upper(s)[k] by {
            let c = s[k];
            assert(lower(s)[k] == lower_char(c));
            assert(upper_char(lower_char(c)) == upper_char(c));
        }
    }
}

/// Lists that stand behind each other are joined apart, with the separator between them.
/// One text joined is itself.
pub proof fn joined_apart(a: Seq<Seq<char>>, b: Seq<Seq<char>>, sep: Seq<char>)
    ensures
        joined(Seq::empty(), sep) == Seq::<char>::empty(),
        forall|x: Seq<char>| #[trigger] joined(seq![x], sep) == x,
        a.len() > 0 && b.len() > 0 ==> joined(a + b, sep) == joined(a, sep) + sep + joined(b, sep),
    decreases b.len(),
{
    if a.len() > 0 && b.len() == 1 {
        assert((a + b).drop_last() =~= a);
        assert((a + b).last() == b[0]);
    } else if a.len() > 0 && b.len() > 1 {
        joined_apart(a, b.drop_last(), sep);
        assert((a + b).drop_last() =~= a + b.drop_last());
        assert(joined(a + b, sep) == joined(a + b.drop_last(), sep) + sep + b.last());
        assert(joined(b, sep) == joined(b.drop_last(), sep) + sep + b.last());
        assert(joined(a + b, sep) =~= joined(a, sep) + sep + joined(b, sep));
    }
}

/// Texts that stand behind each other are replaced apart: the character becomes the text
/// that it is written as, every other one stays.
pub proof fn replaced_apart(a: Seq<char>, b: Seq<char>, c: char, with: Seq<char>)
    ensures
        replaced(a + b, c, with) == replaced(a, c, with) + replaced(b, c, with),
        replaced(seq![c], c, with) == with,
        forall|d: char| d != c ==> #[trigger] replaced(seq![d], c, with) == seq![d],
        !has_char(a, c) ==> replaced(a, c, with) == a,
    decreases b.len(),
{
    assert forall|d: char| #[trigger] replaced(seq![d], c, with) == if d == c {
        with
    } else {
        seq![d]
    } by {
        let one = seq![d];
        assert(one.drop_last() =~= Seq::<char>::empty());
        assert(replaced(one.drop_last(), c, with) == Seq::<char>::empty());
        assert(one.last() == d);
        assert(Seq::<char>::empty() + with =~= with);
        assert(Seq::<char>::empty() + seq![d] =~= seq![d]);
        assert(replaced(one, c, with) == replaced(one.drop_last(), c, with) + if d == c {
            with
        } else {
            seq![d]
        });
    }
    if b.len() == 0 {
        assert(a + b =~= a);
        assert(replaced(a, c, with) + replaced(b, c, with) =~= replaced(a, c, with));
    } else {
        assert((a + b).drop_last() =~= a + b.drop_last());
        replaced_apart(a, b.drop_last(), c, with);
        assert(replaced(a + b, c, with) =~= replaced(a, c, with) + replaced(b, c, with));
    }
    if !has_char(a, c) {
        replaced_nowhere(a, c, with);
    }
}

proof fn replaced_nowhere(s: Seq<char>, c: char, with: Seq<char>)
    requires
        !has_char(s, c),
    ensures
        replaced(s, c, with) == s,
    decreases s.len(),
{
    if s.len() > 0 {
        let t = s.drop_last();
        assert(!has_char(t, c)) by {
            if has_char(t, c) {
                let i = choose|i: int| 0 <= i < t.len() && t[i] == c;
                assert(s[i] == c);
            }
        }
        replaced_nowhere(t, c, with);
        assert(s[s.len() - 1] != c);
        assert(t + seq![s.last()] =~= s);
    }
}

/// A text is its trimmed form with white space before and behind it, and the trimmed form
/// begins and ends with none.
pub proof fn trimming_takes_the_space_around(s: Seq<char>)
    ensures
        exists|before: Seq<char>, after: Seq<char>|
            {
                &&& s == #[trigger] (before + trimmed(s) + after)
                &&& forall|i: int| 0 <= i < before.len() ==> is_space(#[trigger] before[i])
                &&& forall|i: int| 0 <= i < after.len() ==> is_space(#[trigger] after[i])
            },
        trimmed(s).len() > 0 ==> !is_space(trimmed(s)[0]) && !is_space(trimmed(s).last()),
        trimmed(trimmed(s)) == trimmed(s),
{
    let e = trimmed_end(s);
    let t = trimmed_start(e);
    trimmed_end_parts(s);
    trimmed_start_parts(e);
    let after = choose|after: Seq<char>|
        s == #[trigger] (e + after) && forall|i: int| 0 <= i < after.len() ==> is_space(
            #[trigger] after[i],
        );
    let before = choose|before: Seq<char>|
        e == #[trigger] (before + t) && forall|i: int| 0 <= i < before.len() ==> is_space(
            #[trigger] before[i],
        );
    assert(s == before + trimmed(s) + after);
    if t.len() > 0 {
        assert(t.last() == e.last());
        assert(!is_space(e.last()));
    }
}

proof fn trimmed_end_parts(s: Seq<char>)
    ensures
        exists|after: Seq<char>|
            s == #[trigger] (trimmed_end(s) + after) && forall|i: int|
                0 <= i < after.len() ==> is_space(#[trigger] after[i]),
        trimmed_end(s).len() > 0 ==> !is_space(trimmed_end(s).last()),
    decreases s.len(),
{
    if s.len() > 0 && is_space(s.last()) {
        let t = s.drop_last();
        trimmed_end_parts(t);
        let after = choose|after: Seq<char>|
            t == #[trigger] (trimmed_end(t) + after) && forall|i: int|
                0 <= i < after.len() ==> is_space(#[trigger] after[i]);
        let more = after.push(s.last());
        assert(trimmed_end(s) == trimmed_end(t));
        assert((trimmed_end(t) + after).push(s.last()) =~= trimmed_end(t) + more);
        assert(s =~= t.push(s.last()));
        assert(s == trimmed_end(s) + more);
    } else {
        assert(s =~= trimmed_end(s) + Seq::<char>::empty());
    }
}

proof fn trimmed_start_parts(s: Seq<char>)
    ensures
        exists|before: Seq<char>|
            s == #[trigger] (before + trimmed_start(s)) && forall|i: int|
                0 <= i < before.len() ==> is_space(#[trigger] before[i]),
        trimmed_start(s).len() > 0 ==> !is_space(trimmed_start(s)[0]),
    decreases s.len(),
{
    if s.len() > 0 && is_space(s[0]) {
        let t = s.drop_first();
        trimmed_start_parts(t);
        let before = choose|before: Seq<char>|
            t == #[trigger] (before + trimmed_start(t)) && forall|i: int|
                0 <= i < before.len() ==> is_space(#[trigger] before[i]);
        let more = seq![s[0]] + before;
        assert(trimmed_start(s) == trimmed_start(t));
        assert(seq![s[0]] + (before + trimmed_start(t)) =~= more + trimmed_start(t));
        assert(s =~= seq![s[0]] + t);
        assert(s == more + trimmed_start(s));
    } else {
        assert(s =~= Seq::<char>::empty() + trimmed_start(s));
    }
}

/// White space parts the words of a text, and a text without any is one word.
pub proof fn white_space_parts_words(a: Seq<char>, c: char, b: Seq<char>)
    requires
        is_space(c),
    ensures
        words(a.push(c) + b) == words(a) + words(b),
        b.len() > 0 && (forall|i: int| 0 <= i < b.len() ==> !is_space(#[trigger] b[i])) ==> words(b)
            == seq![b],
    decreases b.len(),
{
    let s = a.push(c) + b;
    if b.len() == 0 {
        assert(s =~= a.push(c));
        assert(s.drop_last() =~= a);
        assert(words(a) + words(b) =~= words(a));
    } else {
        let r = b.drop_last();
        white_space_parts_words(a, c, r);
        assert(s.drop_last() =~= a.push(c) + r);
        assert(s.last() == b.last());
        if !is_space(b.last()) {
            if b.len() > 1 {
                assert(s[s.len() - 2] == b[b.len() - 2]);
                if !is_space(b[b.len() - 2]) {
                    has_a_word(r);
                    assert((words(a) + words(r)).last() == words(r).last());
                }
            } else {
                assert(s[s.len() - 2] == c);
                assert(words(r) =~= Seq::empty());
            }
            assert(words(s) =~= words(a) + words(b));
        }
        if forall|i: int| 0 <= i < b.len() ==> !is_space(#[trigger] b[i]) {
            assert(!is_space(b[b.len() - 1]));
            if b.len() > 1 {
                assert(forall|i: int| 0 <= i < r.len() ==> r[i] == b[i]);
                assert(!is_space(b[b.len() - 2]));
                assert(words(r) == seq![r]);
                assert(r.push(b.last()) =~= b);
                assert(words(b) =~= seq![b]);
            } else {
                assert(b =~= seq![b.last()]);
                assert(words(b) =~= seq![b]);
            }
        }
    }
}

proof fn has_a_word(s: Seq<char>)
    requires
        s.len() > 0,
        !is_space(s.last()),
    ensures
        words(s).len() > 0,
{
}

} // verus!
