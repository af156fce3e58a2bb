//! Decimal numerals: writing and reading unsigned integers.

use crate::text::chars_of;
use vstd::prelude::*;

verus! {

pub open spec fn is_digit(c: char) -> bool {
    '0' <= c && c <= '9'
}

/// Every character is a digit, and there is one.
pub open spec fn is_numeral(s: Seq<char>) -> bool {
    s.len() > 0 && forall|i: int| 0 <= i < s.len() ==> is_digit(#[trigger] s[i])
}

/// The number that a numeral denotes.
pub open spec fn value_of(s: Seq<char>) -> nat
    decreases s.len(),
{
    if s.len() == 0 {
        0
    } else {
        value_of(s.drop_last()) * 10 + (s.last() as nat - '0' as nat) as nat
    }
}

/// A text without a leading plus sign, where more follows it.
pub open spec fn unsigned(s: Seq<char>) -> Seq<char> {
    if s.len() > 1 && s[0] == '+' {
        s.drop_first()
    } else {
        s
    }
}

/// The number read from a text: a numeral, one leading plus sign allowed, of a
/// number that 64 bits hold.
pub open spec fn read_u64(s: Seq<char>) -> Option<u64> {
    let d = unsigned(s);
    if is_numeral(d) && value_of(d) <= u64::MAX {
        Some(value_of(d) as u64)
    } else {
        None
    }
}

proof fn value_grows(s: Seq<char>, k: int)
    requires
        is_numeral(s),
        0 <= k <= s.len(),
    ensures
        value_of(s.take(k)) <= value_of(s),
    decreases s.len() - k,
{
    if k < s.len() {
        value_grows(s, k + 1);
        assert(s.take(k + 1).drop_last() =~= s.take(k));
        assert(is_digit(s[k]));
    } else {
        assert(s.take(k) =~= s);
    }
}

/// Reads an unsigned number.
pub fn parse_u64(s: &str) -> (r: Option<u64>)
    ensures
        r == read_u64(s@),
{
    let v = chars_of(s);
    let start: usize = if v.len() > 1 && v[0] == '+' {
        1
    } else {
        0
    };
    let ghost d = v@.skip(start as int);
    assert(d =~= unsigned(s@));
    if v.len() == start {
        return None;
    }
    let mut n: u64 = 0;
    let mut i: usize = start;
    assert(d.take(0).len() == 0);
    while i < v.len()
        invariant
            start <= i <= v.len(),
            d == v@.skip(start as int),
            d == unsigned(s@),
            forall|j: int| 0 <= j < i - start ==> is_digit(#[trigger] d[j]),
            n == value_of(d.take(i - start)),
        decreases v.len() - i,
    {
        let c = v[i];
        assert(d[i - start] == c);
        if c < '0' || '9' < c {
            assert(!is_digit(d[i - start]));
            return None;
        }
        proof {
            assert(d.take(i - start + 1).drop_last() =~= d.take(i - start));
        }
        let x: u64 = (c as u64) - ('0' as u64);
        if n > (u64::MAX - x) / 10 {
            proof {
                assert(value_of(d.take(i - start + 1)) > u64::MAX);
                if is_numeral(d) {
                    value_grows(d, i - start + 1);
                }
            }
            return None;
        }
        n = n * 10 + x;
        i += 1;
    }
    assert(d.take(i - start) =~= d);
    Some(n)
}

/// The numeral of a number, without leading zeros.
pub open spec fn numeral(n: nat) -> Seq<char>
    decreases n,
{
    if n < 10 {
        seq![digit(n)]
    } else {
        numeral(n / 10).push(digit(n % 10))
    }
}

/// The character of a digit.
pub open spec fn digit(d: nat) -> char {
    ('0' as u8 + d) as char
}

/// The numeral of `n`.
pub fn decimal(n: u64) -> (r: String)
    ensures
        r@ == numeral(n as nat),
    decreases n,
{
    let d: u8 = (n % 10) as u8;
    if n < 10 {
        let mut r = String::new();
        r.push(('0' as u8 + d) as char);
        assert(r@ =~= numeral(n as nat));
        r
    } else {
        let mut r = decimal(n / 10);
        r.push(('0' as u8 + d) as char);
        r
    }
}

/// `w` zeros.
pub open spec fn zeros(w: nat) -> Seq<char> {
    Seq::new(w, |i: int| '0')
}

/// The numeral of `n`, filled with leading zeros to `w` characters.
pub open spec fn padded(n: nat, w: nat) -> Seq<char> {
    let d = numeral(n);
    if d.len() < w {
        zeros((w - d.len()) as nat) + d
    } else {
        d
    }
}

/// The numeral of `n`, filled with leading zeros to `w` characters.
pub fn decimal_padded(n: u64, w: usize) -> (r: String)
    ensures
        r@ == padded(n as nat, w as nat),
{
    let d = decimal(n);
    let len: usize = chars_of(d.as_str()).len();
    let mut r = String::new();
    if len < w {
        let fill: usize = w - len;
        let mut i: usize = 0;
        while i < fill
            invariant
                i <= fill,
                r@ == zeros(i as nat),
            decreases fill - i,
        {
            r.push('0');
            i += 1;
            assert(r@ =~= zeros(i as nat));
        }
    }
    let ghost z = r@;
    r.append(d.as_str());
    assert(len >= w ==> r@ =~= d@);
    r
}

proof fn numeral_digits(n: nat)
    ensures
        is_numeral(numeral(n)),
        value_of(numeral(n)) == n,
    decreases n,
{
    if n >= 10 {
        numeral_digits(n / 10);
        let m = numeral(n);
        assert(m.drop_last() =~= numeral(n / 10));
        assert(m.last() == digit(n % 10));
        assert forall|i: int| 0 <= i < m.len() implies is_digit(#[trigger] m[i]) by {
            if i < m.len() - 1 {
                assert(m[i] == numeral(n / 10)[i]);
            }
        }
    } else {
        assert(numeral(n).drop_last() =~= Seq::<char>::empty());
        assert(value_of(Seq::<char>::empty()) == 0);
    }
}

/// Reading the numeral of a number gives the number back.
pub proof fn reading_undoes_writing(n: u64)
    ensures
        read_u64(numeral(n as nat)) == Some(n),
{
    numeral_digits(n as nat);
    assert(is_digit(numeral(n as nat)[0]));
}

/// Leading zeros add nothing to a number.
pub proof fn zeros_add_nothing(k: nat, s: Seq<char>)
    ensures
        value_of(zeros(k) + s) == value_of(s),
    decreases s.len(), k,
{
    let z = zeros(k) + s;
    if s.len() == 0 {
        if k > 0 {
            assert(z.drop_last() =~= zeros((k - 1) as nat) + s);
            zeros_add_nothing((k - 1) as nat, s);
            assert(z.last() == '0');
        }
    } else {
        assert(z.drop_last() =~= zeros(k) + s.drop_last());
        zeros_add_nothing(k, s.drop_last());
    }
}

/// Leading zeros do not change the number that is read back.
pub proof fn reading_undoes_padding(n: u64, w: nat)
    ensures
        read_u64(padded(n as nat, w)) == Some(n),
{
    let d = numeral(n as nat);
    let p = padded(n as nat, w);
    numeral_digits(n as nat);
    if d.len() < w {
        zeros_add_nothing((w - d.len()) as nat, d);
        assert forall|i: int| 0 <= i < p.len() implies is_digit(#[trigger] p[i]) by {
            if i >= w - d.len() {
                assert(p[i] == d[i - (w - d.len())]);
            }
        }
    }
    assert(is_digit(p[0]));
}

/// A padded numeral holds digits only.
pub proof fn padded_digits(n: nat, w: nat)
    ensures
        is_numeral(padded(n, w)),
{
    let d = numeral(n);
    let p = padded(n, w);
    numeral_digits(n);
    if d.len() < w {
        assert forall|i: int| 0 <= i < p.len() implies is_digit(#[trigger] p[i]) by {
            if i >= w - d.len() {
                assert(p[i] == d[i - (w - d.len())]);
            }
        }
    }
}

proof fn numeral_width(n: nat, k: nat)
    requires
        n < vstd::arithmetic::power::pow(10, k),
        k > 0,
    ensures
        numeral(n).len() <= k,
    decreases k,
{
    if n >= 10 {
        vstd::arithmetic::power::lemma_pow1(10);
        assert(vstd::arithmetic::power::pow(10, 1) == 10);
        assert(k > 1);
        reveal(vstd::arithmetic::power::pow);
        assert(n < 10 * vstd::arithmetic::power::pow(10, (k - 1) as nat));
        numeral_width(n / 10, (k - 1) as nat);
    }
}

/// The numeral of a 64-bit number has at most twenty digits, so padding to twenty
/// gives exactly twenty.
pub proof fn twenty_digits(n: u64)
    ensures
        padded(n as nat, 20).len() == 20,
{
    assert(n < vstd::arithmetic::power::pow(10, 20)) by {
        reveal_with_fuel(vstd::arithmetic::power::pow, 21);
    }
    numeral_width(n as nat, 20);
}

proof fn same_width_order(a: Seq<char>, b: Seq<char>)
    requires
        is_numeral(a),
        is_numeral(b),
        a.len() == b.len(),
        value_of(a) < value_of(b),
    ensures
        crate::text::text_lt(a, b),
    decreases a.len(),
{
    let x = a.drop_last();
    let y = b.drop_last();
    assert(is_digit(a.last()) && is_digit(b.last()));
    if a.len() == 1 {
        assert(x =~= Seq::<char>::empty());
        assert(y =~= Seq::<char>::empty());
        assert(crate::text::below_at(a, b, 0));
    } else {
        assert forall|i: int| 0 <= i < x.len() implies is_digit(#[trigger] x[i]) by {
            assert(x[i] == a[i]);
        }
        assert forall|i: int| 0 <= i < y.len() implies is_digit(#[trigger] y[i]) by {
            assert(y[i] == b[i]);
        }
        if value_of(x) < value_of(y) {
            same_width_order(x, y);
            let k = choose|k: int| crate::text::below_at(x, y, k);
            assert(crate::text::below_at(a, b, k)) by {
                assert forall|j: int| 0 <= j < k implies a[j] == b[j] by {
                    assert(x[j] == y[j]);
                }
            }
        } else {
            same_value_same_text(x, y);
            assert(crate::text::below_at(a, b, a.len() - 1)) by {
                assert forall|j: int| 0 <= j < a.len() - 1 implies a[j] == b[j] by {
                    assert(x[j] == y[j]);
                }
            }
        }
    }
}

proof fn same_value_same_text(x: Seq<char>, y: Seq<char>)
    requires
        x.len() == y.len(),
        forall|i: int| 0 <= i < x.len() ==> is_digit(#[trigger] x[i]),
        forall|i: int| 0 <= i < y.len() ==> is_digit(#[trigger] y[i]),
        value_of(x) == value_of(y),
    ensures
        x == y,
    decreases x.len(),
{
    if x.len() > 0 {
        let a = x.drop_last();
        let b = y.drop_last();
        assert(is_digit(x.last()) && is_digit(y.last()));
        assert forall|i: int| 0 <= i < a.len() implies is_digit(#[trigger] a[i]) by {
            assert(a[i] == x[i]);
        }
        assert forall|i: int| 0 <= i < b.len() implies is_digit(#[trigger] b[i]) by {
            assert(b[i] == y[i]);
        }
        same_value_same_text(a, b);
        assert(x =~= a.push(x.last()));
        assert(y =~= b.push(y.last()));
    } else {
        assert(x =~= y);
    }
}

/// Numerals padded to twenty digits are ordered as texts like their numbers.
pub proof fn padded_order(m: u64, n: u64)
    requires
        m < n,
    ensures
        crate::text::text_lt(padded(m as nat, 20), padded(n as nat, 20)),
{
    twenty_digits(m);
    twenty_digits(n);
    let a = padded(m as nat, 20);
    let b = padded(n as nat, 20);
    numeral_digits(m as nat);
    numeral_digits(n as nat);
    if numeral(m as nat).len() < 20 {
        zeros_add_nothing((20 - numeral(m as nat).len()) as nat, numeral(m as nat));
    }
    if numeral(n as nat).len() < 20 {
        zeros_add_nothing((20 - numeral(n as nat).len()) as nat, numeral(n as nat));
    }
    assert forall|i: int| 0 <= i < a.len() implies is_digit(#[trigger] a[i]) by {
        let d = numeral(m as nat);
        if i >= 20 - d.len() {
            assert(a[i] == d[i - (20 - d.len())]);
        }
    }
    assert forall|i: int| 0 <= i < b.len() implies is_digit(#[trigger] b[i]) by {
        let d = numeral(n as nat);
        if i >= 20 - d.len() {
            assert(b[i] == d[i - (20 - d.len())]);
        }
    }
    same_width_order(a, b);
}

/// A number is read from digits, with one plus sign in front or none, and from nothing
/// else.
pub proof fn what_is_read_as_a_number(s: Seq<char>, n: u64)
    ensures
        is_numeral(s) ==> read_u64(seq!['+'] + s) == read_u64(s),
        read_u64(s) is Some ==> is_numeral(s) || exists|d: Seq<char>|
            s == #[trigger] (seq!['+'] + d) && is_numeral(d),
        read_u64(seq!['+'] + numeral(n as nat)) == Some(n),
        read_u64(Seq::empty()) is None,
        is_numeral(s) && read_u64(s) is None ==> value_of(s) > u64::MAX,
{
    let p = seq!['+'] + s;
    if is_numeral(s) {
        assert(p.drop_first() =~= s);
        assert(is_digit(s[0]));
    }
    if read_u64(s) is Some && !is_numeral(s) {
        let d = s.drop_first();
        assert(s =~= seq!['+'] + d);
    }
    reading_undoes_writing(n);
    numeral_digits(n as nat);
    let q = numeral(n as nat);
    assert((seq!['+'] + q).drop_first() =~= q);
    assert(is_digit(q[0]));
}

/// The last digit of a number counts once, those before it ten times.
pub proof fn digits_count_by_their_place(s: Seq<char>, d: nat)
    requires
        d < 10,
    ensures
        value_of(s.push(digit(d))) == 10 * value_of(s) + d,
        value_of(Seq::empty()) == 0,
{
    assert(s.push(digit(d)).drop_last() =~= s);
}

} // verus!
