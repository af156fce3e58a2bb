//! Ordered sets of names, kept as ascending lists without repetition.

use crate::text::{self, before, same};
use vstd::prelude::*;

verus! {

/// Each text of the list comes before every later one.
pub open spec fn ascending(v: Seq<String>) -> bool {
    forall|i: int, j: int| 0 <= i < j < v.len() ==> text::text_lt((#[trigger] v[i])@, (#[trigger] v[j])@)
}

/// The texts of a list, as a set.
pub open spec fn members(v: Seq<String>) -> Set<Seq<char>> {
    Set::new(|x: Seq<char>| crate::text::listed(v, x))
}

/// `v` lists exactly the texts of `s`, ascending and each of them once.
pub open spec fn lists(v: Seq<String>, s: Set<Seq<char>>) -> bool {
    ascending(v) && members(v) == s
}

/// A set is listed in one way only: two lists of it show the same texts in the
/// same places.
pub proof fn listing_is_unique(v: Seq<String>, w: Seq<String>, s: Set<Seq<char>>)
    requires
        lists(v, s),
        lists(w, s),
    ensures
        v.len() == w.len(),
        forall|i: int| 0 <= i < v.len() ==> (#[trigger] v[i])@ == w[i]@,
    decreases v.len(),
{
    assert forall|x: Seq<char>| crate::text::listed(v, x) == crate::text::listed(w, x) by {
        assert(members(v).contains(x) == members(w).contains(x));
    }
    if v.len() == 0 {
        if w.len() > 0 {
            assert(crate::text::listed(w, w[0]@));
        }
    } else {
        assert(crate::text::listed(v, v.last()@));
        if w.len() == 0 {
            assert(false);
        }
        assert(crate::text::listed(w, w.last()@));
        let a = choose|a: int| 0 <= a < w.len() && (#[trigger] w[a])@ == v.last()@;
        let b = choose|b: int| 0 <= b < v.len() && (#[trigger] v[b])@ == w.last()@;
        if a < w.len() - 1 {
            assert(text::text_lt(w[a]@, w[w.len() - 1]@));
            text::text_lt_asymmetric(v.last()@, w.last()@);
            if b < v.len() - 1 {
                assert(text::text_lt(v[b]@, v[v.len() - 1]@));
            }
        }
        assert(v.last()@ == w.last()@);
        let last = v.last()@;
        let s1 = s.remove(last);
        assert(members(v.drop_last()) =~= s1) by {
            assert forall|x: Seq<char>| members(v.drop_last()).contains(x) == s1.contains(x) by {
                members_of_drop_last(v, x);
            }
        }
        assert(members(w.drop_last()) =~= s1) by {
            assert forall|x: Seq<char>| members(w.drop_last()).contains(x) == s1.contains(x) by {
                members_of_drop_last(w, x);
            }
        }
        listing_is_unique(v.drop_last(), w.drop_last(), s1);
        assert forall|i: int| 0 <= i < v.len() implies (#[trigger] v[i])@ == w[i]@ by {
            if i < v.len() - 1 {
                assert(v.drop_last()[i] == v[i]);
                assert(w.drop_last()[i] == w[i]);
            }
        }
    }
}

proof fn members_of_drop_last(v: Seq<String>, x: Seq<char>)
    requires
        ascending(v),
        v.len() > 0,
    ensures
        crate::text::listed(v.drop_last(), x) == (crate::text::listed(v, x) && x != v.last()@),
{
    let d = v.drop_last();
    if crate::text::listed(d, x) {
        let i = choose|i: int| 0 <= i < d.len() && (#[trigger] d[i])@ == x;
        assert(v[i]@ == x);
        assert(text::text_lt(v[i]@, v[v.len() - 1]@));
        text::text_lt_asymmetric(v[i]@, v.last()@);
    }
    if crate::text::listed(v, x) && x != v.last()@ {
        let i = choose|i: int| 0 <= i < v.len() && (#[trigger] v[i])@ == x;
        assert(d[i]@ == x);
    }
}

/// The texts of a list and its members are one set.
pub proof fn texts_are_members(v: Seq<String>)
    ensures
        text::texts(v).to_set() == members(v),
{
    assert forall|x: Seq<char>| text::texts(v).to_set().contains(x) == members(v).contains(x) by {
        if crate::text::listed(v, x) {
            let i = choose|i: int| 0 <= i < v.len() && (#[trigger] v[i])@ == x;
            assert(text::texts(v)[i] == x);
        }
        if text::texts(v).contains(x) {
            let i = choose|i: int| 0 <= i < text::texts(v).len() && text::texts(v)[i] == x;
            assert(v[i]@ == x);
        }
    }
    assert(text::texts(v).to_set() =~= members(v));
}

/// An ordered set of names.
pub struct NameSet {
    items: Vec<String>,
}

impl View for NameSet {
    type V = Set<Seq<char>>;

    closed spec fn view(&self) -> Set<Seq<char>> {
        members(self.items@)
    }
}

impl NameSet {
    #[verifier::type_invariant]
    spec fn wf(self) -> bool {
        ascending(self.items@)
    }

    /// The set without names.
    pub fn new() -> (r: NameSet)
        ensures
            r@ == Set::<Seq<char>>::empty(),
    {
        let items: Vec<String> = Vec::new();
        assert(members(items@) =~= Set::<Seq<char>>::empty());
        NameSet { items }
    }

    /// Adds a name; one that is there already changes nothing.
    pub fn insert(&mut self, name: String)
        ensures
            final(self)@ == old(self)@.insert(name@),
    {
        proof {
            use_type_invariant(&*self);
        }
        let mut items: Vec<String> = Vec::new();
        std::mem::swap(&mut items, &mut self.items);
        let ghost was = items@;
        let mut k: usize = 0;
        while k < items.len() && before(items[k].as_str(), name.as_str())
            invariant
                k <= items.len(),
                items@ == was,
                forall|j: int| 0 <= j < k ==> text::text_lt((#[trigger] was[j])@, name@),
            decreases items.len() - k,
        {
            k += 1;
        }
        if k < items.len() && same(items[k].as_str(), name.as_str()) {
            assert(members(was).insert(name@) =~= members(was)) by {
                assert(was[k as int]@ == name@);
            }
        } else {
            let ghost n = name@;
            proof {
                if k < was.len() {
                    text::text_lt_total(was[k as int]@, n);
                    assert forall|j: int| k < j < was.len() implies text::text_lt(n, (#[trigger] was[j])@) by {
                        assert(text::text_lt(was[k as int]@, was[j]@));
                        text::text_lt_transitive(n, was[k as int]@, was[j]@);
                    }
                }
            }
            items.insert(k, name);
            proof {
                let now = items@;
                assert forall|i: int, j: int| 0 <= i < j < now.len() implies text::text_lt(
                    (#[trigger] now[i])@,
                    (#[trigger] now[j])@,
                ) by {
                    let i0 = if i < k { i } else { i - 1 };
                    let j0 = if j < k { j } else { j - 1 };
                    if i != k && j != k {
                        assert(now[i] == was[i0]);
                        assert(now[j] == was[j0]);
                    } else if i == k {
                        assert(now[j] == was[j - 1]);
                    } else {
                        assert(now[i] == was[i]);
                    }
                }
                assert forall|x: Seq<char>| members(now).contains(x) == members(was).insert(n).contains(x) by {
                    if crate::text::listed(was, x) {
                        let i = choose|i: int| 0 <= i < was.len() && (#[trigger] was[i])@ == x;
                        let i1 = if i < k { i } else { i + 1 };
                        assert(now[i1]@ == x);
                    }
                    if x == n {
                        assert(now[k as int]@ == x);
                    }
                    if crate::text::listed(now, x) {
                        let i = choose|i: int| 0 <= i < now.len() && (#[trigger] now[i])@ == x;
                        if i != k {
                            let i0 = if i < k { i } else { i - 1 };
                            assert(was[i0]@ == x);
                        }
                    }
                }
                assert(members(now) =~= members(was).insert(n));
            }
        }
        self.items = items;
    }

    /// Adds every name of a list.
    pub fn insert_all(&mut self, names: &Vec<String>)
        ensures
            final(self)@ == old(self)@.union(text::texts(names@).to_set()),
    {
        let mut i: usize = 0;
        assert(old(self)@ =~= old(self)@.union(text::texts(names@).take(0).to_set()));
        while i < names.len()
            invariant
                i <= names.len(),
                self@ == old(self)@.union(text::texts(names@).take(i as int).to_set()),
            decreases names.len() - i,
        {
            self.insert(names[i].clone());
            proof {
                let done = text::texts(names@).take(i as int);
                let more = text::texts(names@).take(i + 1);
                assert(more =~= done.push(names@[i as int]@));
                assert(more.to_set() =~= done.to_set().insert(names@[i as int]@)) by {
                    broadcast use vstd::seq_lib::group_seq_properties;
                }
                assert(self@ =~= old(self)@.union(more.to_set()));
            }
            i += 1;
        }
        assert(text::texts(names@).take(i as int) =~= text::texts(names@));
    }

    /// Whether the name is in the set.
    pub fn has(&self, name: &str) -> (r: bool)
        ensures
            r == self@.contains(name@),
    {
        crate::text::is_listed(&self.items, name)
    }

    /// The names that are not in `other`.
    pub fn minus(&self, other: &NameSet) -> (r: NameSet)
        ensures
            r@ == self@.difference(other@),
    {
        let mut r = NameSet::new();
        let mut i: usize = 0;
        assert(members(self.items@.take(0)).difference(other@) =~= Set::<Seq<char>>::empty());
        while i < self.items.len()
            invariant
                i <= self.items.len(),
                r@ == members(self.items@.take(i as int)).difference(other@),
            decreases self.items.len() - i,
        {
            let ghost was = r@;
            let ghost x = self.items@[i as int]@;
            let ghost old_part = members(self.items@.take(i as int));
            let ghost new_part = members(self.items@.take(i + 1));
            assert(new_part =~= old_part.insert(x)) by {
                assert forall|y: Seq<char>| new_part.contains(y) == old_part.insert(x).contains(y) by {
                    let a = self.items@.take(i as int);
                    let b = self.items@.take(i + 1);
                    if crate::text::listed(a, y) {
                        let k = choose|k: int| 0 <= k < a.len() && (#[trigger] a[k])@ == y;
                        assert(b[k]@ == y);
                    }
                    if y == x {
                        assert(b[i as int]@ == y);
                    }
                    if crate::text::listed(b, y) {
                        let k = choose|k: int| 0 <= k < b.len() && (#[trigger] b[k])@ == y;
                        if k < i {
                            assert(a[k]@ == y);
                        }
                    }
                }
            }
            if !other.has(self.items[i].as_str()) {
                r.insert(self.items[i].clone());
            }
            assert(r@ =~= new_part.difference(other@));
            i += 1;
        }
        assert(self.items@.take(i as int) =~= self.items@);
        r
    }

    /// Whether there is no name.
    pub fn is_empty(&self) -> (r: bool)
        ensures
            r == (self@ == Set::<Seq<char>>::empty()),
    {
        if self.items.len() == 0 {
            assert(self@ =~= Set::<Seq<char>>::empty());
            true
        } else {
            assert(crate::text::listed(self.items@, self.items@[0]@));
            assert(self@.contains(self.items@[0]@));
            false
        }
    }

    /// The names in ascending order.
    pub fn into_list(self) -> (v: Vec<String>)
        ensures
            lists(v@, self@),
    {
        proof {
            use_type_invariant(&self);
        }
        self.items
    }
}

} // verus!
