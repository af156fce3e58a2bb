//! Sets of moments, kept as disjoint half-open spans in order.

use vstd::prelude::*;

verus! {

/// Some span of the list holds the moment.
pub open spec fn inside(list: Seq<(i64, i64)>, us: i64) -> bool {
    exists|i: int| 0 <= i < list.len() && (#[trigger] list[i]).0 <= us < list[i].1
}

/// The spans are not empty, and each ends before the next begins.
pub open spec fn apart(list: Seq<(i64, i64)>) -> bool {
    &&& forall|i: int| 0 <= i < list.len() ==> (#[trigger] list[i]).0 < list[i].1
    &&& forall|i: int, j: int|
        0 <= i < j < list.len() ==> (#[trigger] list[i]).1 < (#[trigger] list[j]).0
}

/// A moment of the span `whole` lies in the span `added` or in one from `a` up to `b`.
spec fn accounted(
    list: Seq<(i64, i64)>,
    a: int,
    b: int,
    whole: (i64, i64),
    added: (i64, i64),
    us: i64,
) -> bool {
    whole.0 <= us < whole.1 ==> (added.0 <= us < added.1 || exists|j: int|
        a <= j < b && (#[trigger] list[j]).0 <= us < list[j].1)
}

/// Replacing the spans from `a` up to `b` by one that covers them and the span from
/// `start` to `end`, and nothing else, adds just that span.
proof fn merged(
    before: Seq<(i64, i64)>,
    a: int,
    b: int,
    lo: i64,
    hi: i64,
    start: i64,
    end: i64,
    list: Seq<(i64, i64)>,
)
    requires
        apart(before),
        0 <= a <= b <= before.len(),
        list == before.take(a).push((lo, hi)) + before.skip(b),
        lo <= start < end <= hi,
        forall|j: int| 0 <= j < a ==> (#[trigger] before[j]).1 < start,
        b < before.len() ==> before[b].0 > hi,
        b == a ==> lo == start,
        b > a ==> lo == start || lo == before[a].0,
        forall|j: int| a <= j < b ==> lo <= (#[trigger] before[j]).0 && before[j].1 <= hi,
        forall|us: i64| #[trigger] accounted(before, a, b, (lo, hi), (start, end), us),
    ensures
        apart(list),
        forall|us: i64|
            #![trigger inside(list, us)]
            inside(list, us) == (inside(before, us) || start <= us < end),
{
    assert forall|k: int| 0 <= k < list.len() implies (#[trigger] list[k]) == if k < a {
        before[k]
    } else if k == a {
        (lo, hi)
    } else {
        before[b + k - a - 1]
    } by {}
    assert forall|x: int, y: int| 0 <= x < y < list.len() implies (#[trigger] list[x]).1 < (
    #[trigger] list[y]).0 by {
        if x < a && y == a {
            assert(before[x].1 < start);
            if b > a {
                assert(before[x].1 < before[a].0);
            }
        } else if x == a {
            let q = b + y - a - 1;
            if q > b {
                assert(before[b].1 < before[q].0);
            }
        }
    }
    assert forall|us: i64| #![trigger inside(list, us)] inside(list, us) == (inside(before, us)
        || start <= us < end) by {
        assert(accounted(before, a, b, (lo, hi), (start, end), us));
        if inside(list, us) {
            let k = choose|k: int| 0 <= k < list.len() && (#[trigger] list[k]).0 <= us < list[k].1;
            if k < a {
                assert(before[k].0 <= us < before[k].1);
            } else if k > a {
                assert(before[b + k - a - 1].0 <= us < before[b + k - a - 1].1);
            } else if !(start <= us < end) {
                let j = choose|j: int| a <= j < b && (#[trigger] before[j]).0 <= us < before[j].1;
                assert(before[j].0 <= us < before[j].1);
            }
        }
        if inside(before, us) {
            let j = choose|j: int|
                0 <= j < before.len() && (#[trigger] before[j]).0 <= us < before[j].1;
            if j < a {
                assert(list[j].0 <= us < list[j].1);
            } else if j < b {
                assert(list[a].0 <= us < list[a].1);
            } else {
                assert(list[a + 1 + j - b].0 <= us < list[a + 1 + j - b].1);
            }
        }
        if start <= us < end {
            assert(list[a].0 <= us < list[a].1);
        }
    }
}

/// A set of moments.
pub struct Spans {
    list: Vec<(i64, i64)>,
}

impl Spans {
    #[verifier::type_invariant]
    spec fn disjoint(self) -> bool {
        apart(self.list@)
    }

    /// The moment is in the set.
    pub closed spec fn holds(&self, us: i64) -> bool {
        inside(self.list@, us)
    }

    /// The empty set.
    pub fn new() -> (r: Spans)
        ensures
            forall|us: i64| !r.holds(us),
    {
        Spans { list: Vec::new() }
    }

    /// Adds the moments from `start` up to, not including, `end`.
    pub fn insert(&mut self, start: i64, end: i64)
        ensures
            forall|us: i64| #![trigger final(self).holds(us)]
                final(self).holds(us) == (old(self).holds(us) || start <= us < end),
    {
        proof {
            use_type_invariant(&*self);
        }
        if start >= end {
            return;
        }
        let n = self.list.len();
        let ghost before = self.list@;
        let mut out: Vec<(i64, i64)> = Vec::new();
        let mut i: usize = 0;
        while i < n && self.list[i].1 < start
            invariant
                i <= n == self.list.len(),
                self.list@ == before,
                apart(before),
                out@ == before.take(i as int),
                forall|j: int| 0 <= j < i ==> (#[trigger] before[j]).1 < start,
            decreases n - i,
        {
            out.push(self.list[i]);
            i += 1;
            assert(before.take(i as int) =~= before.take(i - 1).push(before[i - 1]));
        }
        let ghost a: int = i as int;
        let mut lo: i64 = start;
        let mut hi: i64 = end;
        while i < n && self.list[i].0 <= hi
            invariant
                0 <= a <= i <= n == self.list.len(),
                self.list@ == before,
                apart(before),
                a < n ==> before[a].1 >= start,
                start < end,
                lo <= start,
                end <= hi,
                i == a ==> lo == start && hi == end,
                i > a ==> lo == if before[a].0 < start {
                    before[a].0
                } else {
                    start
                },
                i > a ==> hi == if before[i - 1].1 > end {
                    before[i - 1].1
                } else {
                    end
                },
                forall|us: i64| #[trigger]
                    accounted(before, a, i as int, (lo, hi), (start, end), us),
                forall|j: int| a <= j < i ==> lo <= (#[trigger] before[j]).0 && before[j].1 <= hi,
            decreases n - i,
        {
            let (s, e) = self.list[i];
            let ghost (lo0, hi0) = (lo, hi);
            if s < lo {
                lo = s;
            }
            if e > hi {
                hi = e;
            }
            i += 1;
            proof {
                if i - 1 > a {
                    assert(before[a].0 < before[a].1 < before[i - 1].0);
                    assert(before[i - 2].1 < before[i - 1].0);
                } else {
                    assert(before[a] == (s, e));
                }
                assert forall|us: i64| #[trigger]
                    accounted(before, a, i as int, (lo, hi), (start, end), us) by {
                    assert(accounted(before, a, i - 1, (lo0, hi0), (start, end), us));
                    if lo0 <= us < hi0 && !(start <= us < end) {
                        let j = choose|j: int|
                            a <= j < i - 1 && (#[trigger] before[j]).0 <= us < before[j].1;
                        assert(before[j].0 <= us < before[j].1);
                    } else if lo <= us < hi && !(lo0 <= us < hi0) {
                        assert(before[i - 1] == (s, e));
                    }
                }
            }
        }
        let ghost b: int = i as int;
        out.push((lo, hi));
        while i < n
            invariant
                0 <= a <= b <= i <= n == self.list.len(),
                self.list@ == before,
                out@ == before.take(a).push((lo, hi)) + before.subrange(b, i as int),
            decreases n - i,
        {
            out.push(self.list[i]);
            i += 1;
            assert(before.subrange(b, i as int) =~= before.subrange(b, i - 1).push(before[i - 1]));
            assert(out@ =~= before.take(a).push((lo, hi)) + before.subrange(b, i as int));
        }
        assert(before.subrange(b, n as int) =~= before.skip(b));
        proof {
            merged(before, a, b, lo, hi, start, end, out@);
        }
        self.list = out;
    }

    /// Whether the moment is in the set.
    pub fn has(&self, us: i64) -> (r: bool)
        ensures
            r == self.holds(us),
    {
        proof {
            use_type_invariant(self);
        }
        // Spans in front of `lo` begin at or before the moment, those from `hi` on
        // behind it.
        let mut lo: usize = 0;
        let mut hi: usize = self.list.len();
        while lo < hi
            invariant
                lo <= hi <= self.list.len(),
                apart(self.list@),
                forall|i: int| 0 <= i < lo ==> (#[trigger] self.list@[i]).0 <= us,
                forall|i: int| hi <= i < self.list.len() ==> us < (#[trigger] self.list@[i]).0,
            decreases hi - lo,
        {
            let mid: usize = lo + (hi - lo) / 2;
            if self.list[mid].0 <= us {
                assert forall|i: int| 0 <= i < mid + 1 implies (#[trigger] self.list@[i]).0 <= us by {
                    if i < mid {
                        assert(self.list@[i].1 < self.list@[mid as int].0);
                    }
                }
                lo = mid + 1;
            } else {
                assert forall|i: int| mid <= i < self.list.len() implies us < (
                #[trigger] self.list@[i]).0 by {
                    if i > mid {
                        assert(self.list@[mid as int].1 < self.list@[i].0);
                    }
                }
                hi = mid;
            }
        }
        if lo == 0 {
            return false;
        }
        let r = us < self.list[lo - 1].1;
        proof {
            if r {
                assert(self.list@[lo - 1].0 <= us < self.list@[lo - 1].1);
            } else {
                assert forall|i: int| 0 <= i < self.list.len() implies !((#[trigger] self.list@[i]).0
                    <= us < self.list@[i].1) by {
                    if i < lo - 1 {
                        assert(self.list@[i].1 < self.list@[lo - 1].0);
                    }
                }
            }
        }
        r
    }
}

} // verus!
