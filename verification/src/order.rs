//! Lists in order of time. Both orders keep entries of one time in the order in
//! which they came.

use vstd::prelude::*;

verus! {

/// An entry with a time by which lists of it are ordered.
pub trait Dated: Sized {
    spec fn time(&self) -> i64;

    /// The time of the entry.
    fn when(&self) -> (r: i64)
        ensures
            r == self.time(),
    ;
}

/// Where `x` goes into an ascending list: behind every entry that is not later.
pub open spec fn rank<T: Dated>(s: Seq<T>, x: T) -> int
    decreases s.len(),
{
    if s.len() == 0 || s.last().time() <= x.time() {
        s.len() as int
    } else {
        rank(s.drop_last(), x)
    }
}

/// Where `x` goes into a descending list: behind every entry that is not earlier.
pub open spec fn rank_down<T: Dated>(s: Seq<T>, x: T) -> int
    decreases s.len(),
{
    if s.len() == 0 || s.last().time() >= x.time() {
        s.len() as int
    } else {
        rank_down(s.drop_last(), x)
    }
}

/// The entries, oldest first.
pub open spec fn ascending<T: Dated>(s: Seq<T>) -> Seq<T>
    decreases s.len(),
{
    if s.len() == 0 {
        s
    } else {
        let done = ascending(s.drop_last());
        done.insert(rank(done, s.last()), s.last())
    }
}

/// The entries, newest first.
pub open spec fn descending<T: Dated>(s: Seq<T>) -> Seq<T>
    decreases s.len(),
{
    if s.len() == 0 {
        s
    } else {
        let done = descending(s.drop_last());
        done.insert(rank_down(done, s.last()), s.last())
    }
}

proof fn rank_bounds<T: Dated>(s: Seq<T>, x: T)
    ensures
        0 <= rank(s, x) <= s.len(),
        0 <= rank_down(s, x) <= s.len(),
        rank(s, x) > 0 ==> s[rank(s, x) - 1].time() <= x.time(),
        rank_down(s, x) > 0 ==> s[rank_down(s, x) - 1].time() >= x.time(),
        forall|i: int| rank(s, x) <= i < s.len() ==> (#[trigger] s[i]).time() > x.time(),
        forall|i: int| rank_down(s, x) <= i < s.len() ==> (#[trigger] s[i]).time() < x.time(),
    decreases s.len(),
{
    if s.len() > 0 {
        let d = s.drop_last();
        rank_bounds(d, x);
        assert forall|i: int| rank(s, x) <= i < s.len() implies (#[trigger] s[i]).time() > x.time() by {
            if i < s.len() - 1 {
                assert(d[i] == s[i]);
            }
        }
        assert forall|i: int| rank_down(s, x) <= i < s.len() implies (#[trigger] s[i]).time()
            < x.time() by {
            if i < s.len() - 1 {
                assert(d[i] == s[i]);
            }
        }
    }
}

proof fn length_kept<T: Dated>(s: Seq<T>)
    ensures
        ascending(s).len() == s.len(),
        descending(s).len() == s.len(),
    decreases s.len(),
{
    if s.len() > 0 {
        length_kept(s.drop_last());
        rank_bounds(ascending(s.drop_last()), s.last());
        rank_bounds(descending(s.drop_last()), s.last());
    }
}

/// Ordering by time loses no entry and adds none, and leaves none before an
/// earlier one.
pub proof fn oldest_first_is_ordered<T: Dated>(s: Seq<T>)
    ensures
        ascending(s).to_multiset() == s.to_multiset(),
        forall|i: int, j: int|
            0 <= i < j < ascending(s).len() ==> (#[trigger] ascending(s)[i]).time() <= (
            #[trigger] ascending(s)[j]).time(),
    decreases s.len(),
{
    if s.len() > 0 {
        let d = s.drop_last();
        let x = s.last();
        let done = ascending(d);
        let k = rank(done, x);
        oldest_first_is_ordered(d);
        rank_bounds(done, x);
        broadcast use vstd::seq_lib::group_to_multiset_ensures;
        assert(s =~= d.push(x));
        vstd::seq_lib::to_multiset_insert(done, k, x);
        let all = ascending(s);
        assert forall|i: int, j: int| 0 <= i < j < all.len() implies (#[trigger] all[i]).time() <= (
        #[trigger] all[j]).time() by {
            let i0 = if i < k { i } else { i - 1 };
            let j0 = if j < k { j } else { j - 1 };
            if i != k {
                assert(all[i] == done[i0]);
            }
            if j != k {
                assert(all[j] == done[j0]);
            }
            if j == k && i < k - 1 {
                assert(done[i].time() <= done[k - 1].time());
            }
        }
    }
}

/// Ordering the other way loses no entry and adds none, and leaves none before a
/// later one.
pub proof fn newest_first_is_ordered<T: Dated>(s: Seq<T>)
    ensures
        descending(s).to_multiset() == s.to_multiset(),
        forall|i: int, j: int|
            0 <= i < j < descending(s).len() ==> (#[trigger] descending(s)[i]).time() >= (
            #[trigger] descending(s)[j]).time(),
    decreases s.len(),
{
    if s.len() > 0 {
        let d = s.drop_last();
        let x = s.last();
        let done = descending(d);
        let k = rank_down(done, x);
        newest_first_is_ordered(d);
        rank_bounds(done, x);
        broadcast use vstd::seq_lib::group_to_multiset_ensures;
        assert(s =~= d.push(x));
        vstd::seq_lib::to_multiset_insert(done, k, x);
        let all = descending(s);
        assert forall|i: int, j: int| 0 <= i < j < all.len() implies (#[trigger] all[i]).time() >= (
        #[trigger] all[j]).time() by {
            let i0 = if i < k { i } else { i - 1 };
            let j0 = if j < k { j } else { j - 1 };
            if i != k {
                assert(all[i] == done[i0]);
            }
            if j != k {
                assert(all[j] == done[j0]);
            }
            if j == k && i < k - 1 {
                assert(done[i].time() >= done[k - 1].time());
            }
        }
    }
}

/// The entries, oldest first.
pub fn oldest_first<T: Dated>(v: Vec<T>) -> (r: Vec<T>)
    ensures
        r@ == ascending(v@),
{
    let mut r: Vec<T> = Vec::new();
    let ghost all = v@;
    for x in it: v
        invariant
            it.seq() == all,
            r@ == ascending(all.take(it.index())),
    {
        let ghost done = r@;
        let mut k: usize = r.len();
        let t = x.when();
        assert(done.take(done.len() as int) =~= done);
        while k > 0 && r[k - 1].when() > t
            invariant
                k <= r.len(),
                r@ == done,
                t == x.time(),
                rank(done, x) == rank(done.take(k as int), x),
            decreases k,
        {
            assert(done.take(k as int).drop_last() =~= done.take(k - 1));
            k -= 1;
        }
        proof {
            if k > 0 {
                assert(done.take(k as int).last() == done[k - 1]);
            }
            assert(all.take(it.index() + 1).drop_last() =~= all.take(it.index()));
        }
        r.insert(k, x);
    }
    assert(all.take(all.len() as int) =~= all);
    r
}

/// The entries, newest first.
pub fn newest_first<T: Dated>(v: Vec<T>) -> (r: Vec<T>)
    ensures
        r@ == descending(v@),
{
    let mut r: Vec<T> = Vec::new();
    let ghost all = v@;
    for x in it: v
        invariant
            it.seq() == all,
            r@ == descending(all.take(it.index())),
    {
        let ghost done = r@;
        let mut k: usize = r.len();
        let t = x.when();
        assert(done.take(done.len() as int) =~= done);
        while k > 0 && r[k - 1].when() < t
            invariant
                k <= r.len(),
                r@ == done,
                t == x.time(),
                rank_down(done, x) == rank_down(done.take(k as int), x),
            decreases k,
        {
            assert(done.take(k as int).drop_last() =~= done.take(k - 1));
            k -= 1;
        }
        proof {
            if k > 0 {
                assert(done.take(k as int).last() == done[k - 1]);
            }
            assert(all.take(it.index() + 1).drop_last() =~= all.take(it.index()));
        }
        r.insert(k, x);
    }
    assert(all.take(all.len() as int) =~= all);
    r
}

} // verus!
