//! Numbers as little-endian bytes.

use vstd::prelude::*;

verus! {

/// The lowest `n` bytes of a number, lowest first.
pub open spec fn le(x: nat, n: nat) -> Seq<u8>
    decreases n,
{
    if n == 0 {
        Seq::empty()
    } else {
        seq![(x % 256) as u8] + le(x / 256, (n - 1) as nat)
    }
}

/// The number whose bytes are given, lowest first.
pub open spec fn le_value(s: Seq<u8>) -> nat
    decreases s.len(),
{
    if s.len() == 0 {
        0
    } else {
        s[0] as nat + 256 * le_value(s.drop_first())
    }
}

/// 256 to the power of `n`.
pub open spec fn bytes_range(n: nat) -> nat
    decreases n,
{
    if n == 0 {
        1
    } else {
        256 * bytes_range((n - 1) as nat)
    }
}

pub proof fn le_len(x: nat, n: nat)
    ensures
        le(x, n).len() == n,
    decreases n,
{
    if n > 0 {
        le_len(x / 256, (n - 1) as nat);
    }
}

/// The bytes of a number that fits them give the number back.
pub proof fn value_undoes_le(x: nat, n: nat)
    requires
        x < bytes_range(n),
    ensures
        le_value(le(x, n)) == x,
    decreases n,
{
    if n > 0 {
        let m = (n - 1) as nat;
        assert(x / 256 < bytes_range(m)) by (nonlinear_arith)
            requires
                x < 256 * bytes_range(m),
        ;
        value_undoes_le(x / 256, m);
        assert(le(x, n).drop_first() =~= le(x / 256, m));
    }
}

/// Bytes stand for a number that fits them.
pub proof fn value_fits(s: Seq<u8>)
    ensures
        le_value(s) < bytes_range(s.len()),
    decreases s.len(),
{
    if s.len() > 0 {
        value_fits(s.drop_first());
    }
}

/// Four bytes hold 32 bits, eight hold 64.
pub proof fn ranges()
    ensures
        bytes_range(4) == 0x1_0000_0000,
        bytes_range(8) == 0x1_0000_0000_0000_0000,
{
    reveal_with_fuel(bytes_range, 9);
}

/// Appends the `n` lowest bytes of `x`.
pub fn put_le(out: &mut Vec<u8>, x: u64, n: usize)
    ensures
        final(out)@ == old(out)@ + le(x as nat, n as nat),
{
    let mut v: u64 = x;
    let mut k: usize = n;
    let ghost all = old(out)@ + le(x as nat, n as nat);
    while k > 0
        invariant
            k <= n,
            out@ + le(v as nat, k as nat) == all,
        decreases k,
    {
        let ghost was = out@;
        out.push((v % 256) as u8);
        assert(was + (seq![(v % 256) as u8] + le((v / 256) as nat, (k - 1) as nat)) =~= out@ + le(
            (v / 256) as nat,
            (k - 1) as nat,
        ));
        v = v / 256;
        k -= 1;
    }
    assert(out@ + le(v as nat, 0) =~= out@);
}

/// Appends bytes.
pub fn put_all(out: &mut Vec<u8>, b: &[u8])
    ensures
        final(out)@ == old(out)@ + b@,
{
    let mut i: usize = 0;
    while i < b.len()
        invariant
            i <= b.len(),
            out@ == old(out)@ + b@.take(i as int),
        decreases b.len() - i,
    {
        out.push(b[i]);
        i += 1;
        assert(out@ =~= old(out)@ + b@.take(i as int));
    }
    assert(b@.take(i as int) =~= b@);
}

/// The number in the `n` bytes at `at`.
pub fn get_le(b: &Vec<u8>, at: usize, n: usize) -> (r: u64)
    requires
        n <= 8,
        at + n <= b@.len(),
    ensures
        r == le_value(b@.subrange(at as int, at + n)),
{
    let mut r: u64 = 0;
    let mut k: usize = n;
    let ghost s = b@.subrange(at as int, at + n);
    assert(s.skip(n as int) =~= Seq::<u8>::empty());
    proof {
        ranges();
    }
    while k > 0
        invariant
            k <= n <= 8,
            at + n <= b.len(),
            s == b@.subrange(at as int, at + n),
            r == le_value(s.skip(k as int)),
            bytes_range(8) == 0x1_0000_0000_0000_0000,
        decreases k,
    {
        proof {
            let t = s.skip(k - 1);
            assert(t.drop_first() =~= s.skip(k as int));
            value_fits(t);
            range_grows(t.len(), 8);
        }
        k -= 1;
        r = b[at + k] as u64 + 256 * r;
    }
    assert(s.skip(0) =~= s);
    r
}

pub proof fn range_grows(m: nat, n: nat)
    requires
        m <= n,
    ensures
        0 < bytes_range(m) <= bytes_range(n),
    decreases n,
{
    if n > m {
        range_grows(m, (n - 1) as nat);
    } else if n > 0 {
        range_grows((m - 1) as nat, (n - 1) as nat);
    }
}

} // verus!
