//! Bounded memory of the event ids that were admitted last, by which an event that
//! a collector sends again is recognised.

use std::collections::{HashMap, VecDeque};
use crate::text::{self, same};
use vstd::prelude::*;

verus! {

broadcast use vstd::std_specs::hash::group_hash_axioms;

/// The bucket of a text.
pub open spec fn bucket(s: Seq<char>) -> u64
    decreases s.len(),
{
    if s.len() == 0 {
        0xcbf2_9ce4_8422_2325
    } else {
        (bucket(s.drop_last()) ^ (s.last() as u64)).wrapping_mul(0x100_0000_01b3)
    }
}

fn bucket_of(s: &str) -> (r: u64)
    ensures
        r == bucket(s@),
{
    let v = text::chars_of(s);
    let mut h: u64 = 0xcbf2_9ce4_8422_2325;
    let mut i: usize = 0;
    while i < v.len()
        invariant
            i <= v.len(),
            v@ == s@,
            h == bucket(v@.take(i as int)),
        decreases v.len() - i,
    {
        h = (h ^ (v[i] as u64)).wrapping_mul(0x100_0000_01b3);
        i += 1;
        assert(v@.take(i as int).drop_last() =~= v@.take(i - 1));
    }
    assert(v@.take(i as int) =~= v@);
    h
}

/// A text stands in its bucket.
spec fn stored(m: Map<u64, Vec<String>>, s: Seq<char>) -> bool {
    m.contains_key(bucket(s)) && text::listed(m[bucket(s)]@, s)
}

/// What is remembered once an id was admitted into a memory of `cap` ids: the id
/// last, and the oldest one forgotten where there was no room.
pub open spec fn remembered(recent: Seq<Seq<char>>, cap: nat, id: Seq<char>) -> Seq<Seq<char>> {
    if recent.contains(id) {
        recent
    } else if recent.len() >= cap && recent.len() > 0 {
        recent.drop_first().push(id)
    } else {
        recent.push(id)
    }
}

/// What is remembered once a list of ids was shown, in order. An absent id leaves
/// no trace.
pub open spec fn remembered_all(
    recent: Seq<Seq<char>>,
    cap: nat,
    ids: Seq<Option<Seq<char>>>,
) -> Seq<Seq<char>>
    decreases ids.len(),
{
    if ids.len() == 0 {
        recent
    } else {
        let before = remembered_all(recent, cap, ids.drop_last());
        match ids.last() {
            Some(id) => remembered(before, cap, id),
            None => before,
        }
    }
}

/// The entry at `i` of a list of ids is kept: it has no id, or one that is not
/// remembered when its turn comes.
pub open spec fn kept(
    recent: Seq<Seq<char>>,
    cap: nat,
    ids: Seq<Option<Seq<char>>>,
    i: int,
) -> bool {
    match ids[i] {
        Some(id) => !remembered_all(recent, cap, ids.take(i)).contains(id),
        None => true,
    }
}

/// The characters of each id of a list.
pub open spec fn id_texts(ids: Seq<Option<String>>) -> Seq<Option<Seq<char>>> {
    ids.map_values(|o: Option<String>| text::opt_text(o))
}

/// The ids that were admitted last, at most `cap` of them.
pub struct Dedup {
    cap: usize,
    seen: HashMap<u64, Vec<String>>,
    order: VecDeque<String>,
}

impl Dedup {
    #[verifier::type_invariant]
    spec fn agrees(self) -> bool {
        &&& text::texts(self.order@).no_duplicates()
        &&& self.order@.len() <= self.cap || self.order@.len() <= 1
        &&& forall|s: Seq<char>| #[trigger]
            stored(self.seen@, s) == text::texts(self.order@).contains(s)
    }

    /// The remembered ids, oldest first.
    pub closed spec fn recent(&self) -> Seq<Seq<char>> {
        text::texts(self.order@)
    }

    /// How many ids are remembered at most.
    pub closed spec fn capacity(&self) -> nat {
        self.cap as nat
    }

    /// An empty memory of `cap` ids.
    pub fn new(cap: usize) -> (r: Dedup)
        ensures
            r.recent() == Seq::<Seq<char>>::empty(),
            r.capacity() == cap,
    {
        let r = Dedup { cap, seen: HashMap::new(), order: VecDeque::new() };
        assert(text::texts(r.order@) =~= Seq::<Seq<char>>::empty());
        r
    }

    /// Accepts an id that is not remembered, and remembers it. `false` says that it
    /// was seen recently.
    pub fn accept(&mut self, id: String) -> (r: bool)
        ensures
            r == !old(self).recent().contains(id@),
            final(self).recent() == remembered(old(self).recent(), old(self).capacity(), id@),
            final(self).capacity() == old(self).capacity(),
    {
        proof {
            use_type_invariant(&*self);
        }
        let key = bucket_of(id.as_str());
        let known = match self.seen.get(&key) {
            Some(b) => text::is_listed(b, id.as_str()),
            None => false,
        };
        assert(known == stored(self.seen@, id@));
        if known {
            return false;
        }
        let ghost recent = self.recent();
        let cap = self.cap;
        let mut whole = Dedup::new(cap);
        std::mem::swap(self, &mut whole);
        proof {
            use_type_invariant(&whole);
        }
        let Dedup { cap: _, mut seen, mut order } = whole;
        if order.len() >= cap {
            match order.pop_front() {
                Some(oldest) => {
                    forget(&mut seen, oldest.as_str());
                    proof {
                        let rest = text::texts(order@);
                        assert(rest =~= recent.drop_first());
                        assert(recent[0] == oldest@);
                        assert forall|s: Seq<char>| #[trigger] stored(seen@, s) == rest.contains(s) by {
                            if rest.contains(s) {
                                let i = rest.index_of(s);
                                assert(recent[i + 1] == s);
                                assert(recent.contains(s));
                            }
                            if recent.contains(s) && s != oldest@ {
                                let i = recent.index_of(s);
                                assert(rest[i - 1] == s);
                            }
                        }
                    }
                },
                None => {
                    assert(recent.len() == 0);
                },
            }
        }
        let ghost rest = text::texts(order@);
        assert(rest == recent || (recent.len() > 0 && recent.len() >= cap && rest
            == recent.drop_first()));
        assert(!rest.contains(id@)) by {
            assert(stored(seen@, id@) == rest.contains(id@));
        }
        remember(&mut seen, id.clone());
        order.push_back(id);
        proof {
            assert(text::texts(order@) =~= rest.push(id@));
            assert forall|s: Seq<char>| #[trigger]
                stored(seen@, s) == text::texts(order@).contains(s) by {
                let all = rest.push(id@);
                if rest.contains(s) {
                    assert(all[rest.index_of(s)] == s);
                }
                assert(all[rest.len() as int] == id@);
            }
        }
        *self = Dedup { cap, seen, order };
        true
    }

    /// Which entries of a list of ids to keep: those without an id, and those whose
    /// id is accepted when its turn comes.
    pub fn mask(&mut self, ids: &Vec<Option<String>>) -> (r: Vec<bool>)
        ensures
            r.len() == ids.len(),
            forall|i: int|
                0 <= i < ids.len() ==> (#[trigger] r@[i]) == kept(
                    old(self).recent(),
                    old(self).capacity(),
                    id_texts(ids@),
                    i,
                ),
            final(self).recent() == remembered_all(
                old(self).recent(),
                old(self).capacity(),
                id_texts(ids@),
            ),
            final(self).capacity() == old(self).capacity(),
    {
        let ghost shown = id_texts(ids@);
        let ghost recent = self.recent();
        let ghost cap = self.capacity();
        let mut r: Vec<bool> = Vec::new();
        let mut i: usize = 0;
        assert(shown.take(0) =~= Seq::<Option<Seq<char>>>::empty());
        while i < ids.len()
            invariant
                i <= ids.len(),
                shown == id_texts(ids@),
                recent == old(self).recent(),
                cap == old(self).capacity(),
                self.capacity() == cap,
                self.recent() == remembered_all(recent, cap, shown.take(i as int)),
                r.len() == i,
                forall|j: int| 0 <= j < i ==> (#[trigger] r@[j]) == kept(recent, cap, shown, j),
            decreases ids.len() - i,
        {
            let keep = match &ids[i] {
                Some(id) => self.accept(id.clone()),
                None => true,
            };
            r.push(keep);
            assert(shown.take(i + 1).drop_last() =~= shown.take(i as int));
            i += 1;
        }
        assert(shown.take(i as int) =~= shown);
        r
    }
}

/// Takes a text out of its bucket.
fn forget(seen: &mut HashMap<u64, Vec<String>>, s: &str)
    ensures
        forall|t: Seq<char>| #[trigger]
            stored(final(seen)@, t) == (stored(old(seen)@, t) && t != s@),
{
    let key = bucket_of(s);
    if let Some(b) = seen.remove(&key) {
        let mut rest: Vec<String> = Vec::new();
        let mut i: usize = 0;
        while i < b.len()
            invariant
                i <= b.len(),
                forall|t: Seq<char>| #[trigger]
                    text::listed(rest@, t) == (text::listed(b@.take(i as int), t) && t != s@),
            decreases b.len() - i,
        {
            let ghost was = rest@;
            let ghost from = b@.take(i as int);
            if !same(b[i].as_str(), s) {
                rest.push(b[i].clone());
            }
            i += 1;
            proof {
                let next = b@.take(i as int);
                assert forall|t: Seq<char>| #[trigger]
                    text::listed(rest@, t) == (text::listed(next, t) && t != s@) by {
                    assert(next =~= from.push(b@[i - 1]));
                    listed_pushed(from, b@[i - 1], t);
                    if b@[i - 1]@ != s@ {
                        listed_pushed(was, rest@.last(), t);
                        assert(rest@ =~= was.push(rest@.last()));
                    }
                    assert(text::listed(was, t) == (text::listed(from, t) && t != s@));
                }
            }
        }
        assert(b@.take(i as int) =~= b@);
        seen.insert(key, rest);
    }
}

/// Puts a text into its bucket.
fn remember(seen: &mut HashMap<u64, Vec<String>>, s: String)
    ensures
        forall|t: Seq<char>| #[trigger]
            stored(final(seen)@, t) == (stored(old(seen)@, t) || t == s@),
{
    let key = bucket_of(s.as_str());
    let mut b: Vec<String> = match seen.remove(&key) {
        Some(b) => b,
        None => Vec::new(),
    };
    let ghost was = b@;
    b.push(s);
    proof {
        assert forall|t: Seq<char>| #[trigger]
            text::listed(b@, t) == (text::listed(was, t) || t == s@) by {
            listed_pushed(was, s, t);
        }
    }
    seen.insert(key, b);
}

proof fn listed_pushed(v: Seq<String>, s: String, t: Seq<char>)
    ensures
        text::listed(v.push(s), t) == (text::listed(v, t) || t == s@),
{
    let w = v.push(s);
    if text::listed(v, t) {
        let i = choose|i: int| 0 <= i < v.len() && (#[trigger] v[i])@ == t;
        assert(w[i]@ == t);
    }
    if t == s@ {
        assert(w[v.len() as int]@ == t);
    }
    if text::listed(w, t) {
        let i = choose|i: int| 0 <= i < w.len() && (#[trigger] w[i])@ == t;
        if i < v.len() {
            assert(v[i]@ == t);
        }
    }
}

proof fn fresh_ids_follow(recent: Seq<Seq<char>>, cap: nat, ids: Seq<Option<Seq<char>>>)
    requires
        0 < ids.len() <= cap,
        recent.len() <= cap,
        forall|i: int| 0 <= i < ids.len() ==> (#[trigger] ids[i]) is Some,
        ids.no_duplicates(),
        forall|i: int| 0 <= i < ids.len() ==> !recent.contains((#[trigger] ids[i])->0),
    ensures
        ({
            let after = remembered_all(recent, cap, ids);
            &&& ids.len() <= after.len() <= cap
            &&& forall|i: int|
                0 <= i < ids.len() ==> after[after.len() - ids.len() + i] == (#[trigger] ids[i])->0
            &&& forall|k: int|
                0 <= k < after.len() - ids.len() ==> recent.contains(#[trigger] after[k])
        }),
    decreases ids.len(),
{
    let most = ids.drop_last();
    let before = remembered_all(recent, cap, most);
    let after = remembered_all(recent, cap, ids);
    let id = ids.last()->0;
    assert(forall|i: int| 0 <= i < most.len() ==> most[i] == ids[i]);
    if most.len() > 0 {
        fresh_ids_follow(recent, cap, most);
    }
    assert(!before.contains(id)) by {
        if before.contains(id) {
            let k = before.index_of(id);
            let old_ones = before.len() - most.len();
            if k >= old_ones {
                assert(most[k - old_ones]->0 == id);
                assert(ids[k - old_ones] == ids[ids.len() - 1]);
            } else {
                assert(recent.contains(before[k]));
            }
        }
    }
    let shift: int = if before.len() >= cap && before.len() > 0 {
        1
    } else {
        0
    };
    assert forall|i: int| 0 <= i < ids.len() implies after[after.len() - ids.len() + i] == (
    #[trigger] ids[i])->0 by {
        if i < most.len() {
            assert(before[before.len() - most.len() + i] == most[i]->0);
        }
    }
    assert forall|k: int| 0 <= k < after.len() - ids.len() implies recent.contains(
        #[trigger] after[k],
    ) by {
        assert(after[k] == before[k + shift]);
    }
}

/// A list of ids that were all new, and no more than are remembered, is dropped
/// whole when it is shown again.
pub proof fn a_repeated_batch_is_dropped(
    recent: Seq<Seq<char>>,
    cap: nat,
    ids: Seq<Option<Seq<char>>>,
)
    requires
        ids.len() <= cap,
        recent.len() <= cap,
        forall|i: int| 0 <= i < ids.len() ==> (#[trigger] ids[i]) is Some,
        ids.no_duplicates(),
        forall|i: int| 0 <= i < ids.len() ==> !recent.contains((#[trigger] ids[i])->0),
    ensures
        forall|i: int| 0 <= i < ids.len() ==> #[trigger] kept(recent, cap, ids, i),
        ({
            let after = remembered_all(recent, cap, ids);
            &&& remembered_all(after, cap, ids) == after
            &&& forall|i: int| 0 <= i < ids.len() ==> !#[trigger] kept(after, cap, ids, i)
        }),
{
    let after = remembered_all(recent, cap, ids);
    assert forall|i: int| 0 <= i < ids.len() implies #[trigger] kept(recent, cap, ids, i) by {
        let first = ids.take(i);
        let then = remembered_all(recent, cap, first);
        if i == 0 {
            assert(then == recent);
        } else {
            assert(forall|j: int| 0 <= j < i ==> first[j] == ids[j]);
            fresh_ids_follow(recent, cap, first);
            if then.contains(ids[i]->0) {
                let k = then.index_of(ids[i]->0);
                if k >= then.len() - i {
                    assert(first[k - (then.len() - i)]->0 == ids[i]->0);
                    assert(ids[k - (then.len() - i)] == ids[i]);
                } else {
                    assert(recent.contains(then[k]));
                }
            }
        }
    }
    if ids.len() > 0 {
        fresh_ids_follow(recent, cap, ids);
        assert forall|i: int| 0 <= i < ids.len() implies after.contains((#[trigger] ids[i])->0) by {
            assert(after[after.len() - ids.len() + i] == ids[i]->0);
        }
    }
    assert forall|n: int| 0 <= n <= ids.len() implies remembered_all(
        after,
        cap,
        #[trigger] ids.take(n),
    ) == after by {
        known_ids_change_nothing(after, cap, ids, n);
    }
    assert(ids.take(ids.len() as int) =~= ids);
}

proof fn known_ids_change_nothing(
    recent: Seq<Seq<char>>,
    cap: nat,
    ids: Seq<Option<Seq<char>>>,
    n: int,
)
    requires
        0 <= n <= ids.len(),
        forall|i: int|
            0 <= i < ids.len() ==> (#[trigger] ids[i]) is Some && recent.contains(ids[i]->0),
    ensures
        remembered_all(recent, cap, ids.take(n)) == recent,
    decreases n,
{
    if n > 0 {
        known_ids_change_nothing(recent, cap, ids, n - 1);
        assert(ids.take(n).drop_last() =~= ids.take(n - 1));
        assert(ids.take(n).last() == ids[n - 1]);
    }
}

/// An entry is dropped only where an entry of the same id came before it.
pub proof fn only_repeats_are_dropped(
    recent: Seq<Seq<char>>,
    cap: nat,
    ids: Seq<Option<Seq<char>>>,
    i: int,
)
    requires
        0 <= i < ids.len(),
        !kept(recent, cap, ids, i),
    ensures
        ids[i] is Some,
        recent.contains(ids[i]->0) || exists|j: int| 0 <= j < i && ids[j] == ids[i],
{
    let id = ids[i]->0;
    let first = ids.take(i);
    remembered_ids_were_shown(recent, cap, first, id);
    if !recent.contains(id) {
        let j = choose|j: int| 0 <= j < first.len() && first[j] == Some(id);
        assert(ids[j] == ids[i]);
    }
}

proof fn remembered_ids_were_shown(
    recent: Seq<Seq<char>>,
    cap: nat,
    ids: Seq<Option<Seq<char>>>,
    id: Seq<char>,
)
    requires
        remembered_all(recent, cap, ids).contains(id),
    ensures
        recent.contains(id) || exists|j: int| 0 <= j < ids.len() && ids[j] == Some(id),
    decreases ids.len(),
{
    if ids.len() > 0 {
        let most = ids.drop_last();
        let before = remembered_all(recent, cap, most);
        if before.contains(id) {
            remembered_ids_were_shown(recent, cap, most, id);
            if !recent.contains(id) {
                let j = choose|j: int| 0 <= j < most.len() && most[j] == Some(id);
                assert(ids[j] == Some(id));
            }
        } else {
            let after = remembered_all(recent, cap, ids);
            let k = after.index_of(id);
            assert(ids.last() is Some);
            if ids.last()->0 != id {
                if before.len() >= cap && before.len() > 0 {
                    assert(before[k + 1] == id);
                } else {
                    assert(before[k] == id);
                }
            }
            assert(ids[ids.len() - 1] == Some(id));
        }
    }
}

/// An id that was admitted is remembered, and of the others at most the oldest is forgotten,
/// and only where there is no room. Nothing else is remembered, nothing twice, and no more
/// than there is room for.
pub proof fn admitting_forgets_at_most_the_oldest(
    recent: Seq<Seq<char>>,
    cap: nat,
    id: Seq<char>,
)
    requires
        recent.no_duplicates(),
    ensures
        ({
            let after = remembered(recent, cap, id);
            &&& after.contains(id)
            &&& after.no_duplicates()
            &&& forall|i: int| 1 <= i < recent.len() ==> after.contains(#[trigger] recent[i])
            &&& recent.len() < cap || recent.contains(id) ==> forall|i: int|
                0 <= i < recent.len() ==> after.contains(#[trigger] recent[i])
            &&& forall|k: int|
                0 <= k < after.len() ==> #[trigger] after[k] == id || recent.contains(after[k])
            &&& recent.len() <= cap && cap > 0 ==> after.len() <= cap
            &&& !recent.contains(id) ==> after.last() == id
        }),
{
    let after = remembered(recent, cap, id);
    if !recent.contains(id) {
        let dropped: int = if recent.len() >= cap && recent.len() > 0 {
            1
        } else {
            0
        };
        assert(after.last() == id);
        assert forall|i: int| dropped <= i < recent.len() implies after.contains(
            #[trigger] recent[i],
        ) by {
            assert(after[i - dropped] == recent[i]);
        }
        assert forall|k: int| 0 <= k < after.len() implies #[trigger] after[k] == id
            || recent.contains(after[k]) by {
            if k < after.len() - 1 {
                assert(after[k] == recent[k + dropped]);
            }
        }
        assert(forall|k: int| 0 <= k < after.len() - 1 ==> after[k] == recent[k + dropped]);
    }
}

/// An id that was admitted is dropped when it comes again, unless as many others were shown
/// in between as are remembered.
pub proof fn a_repeat_is_recognised_in_time(
    recent: Seq<Seq<char>>,
    cap: nat,
    id: Seq<char>,
    between: Seq<Option<Seq<char>>>,
)
    requires
        !recent.contains(id),
        between.len() < cap,
    ensures
        remembered_all(remembered(recent, cap, id), cap, between).contains(id),
        !kept(remembered(recent, cap, id), cap, between.push(Some(id)), between.len() as int),
{
    let start = remembered(recent, cap, id);
    assert(start[start.len() - 1] == id);
    an_id_moves_one_place_at_a_time(start, cap, id, between);
    assert(between.push(Some(id)).take(between.len() as int) =~= between);
}

proof fn an_id_moves_one_place_at_a_time(
    start: Seq<Seq<char>>,
    cap: nat,
    id: Seq<char>,
    between: Seq<Option<Seq<char>>>,
)
    requires
        start.len() > 0,
        start.last() == id,
        between.len() < cap,
    ensures
        ({
            let after = remembered_all(start, cap, between);
            exists|q: int|
                0 <= q < after.len() && #[trigger] after[q] == id && after.len() - 1 - q
                    <= between.len()
        }),
    decreases between.len(),
{
    if between.len() == 0 {
        assert(remembered_all(start, cap, between) == start);
        assert(remembered_all(start, cap, between)[start.len() - 1] == id);
    } else {
        let most = between.drop_last();
        an_id_moves_one_place_at_a_time(start, cap, id, most);
        let before = remembered_all(start, cap, most);
        let after = remembered_all(start, cap, between);
        let q = choose|q: int|
            0 <= q < before.len() && #[trigger] before[q] == id && before.len() - 1 - q
                <= most.len();
        if between.last() is Some && !before.contains(between.last()->0) && before.len() >= cap {
            assert(q > 0);
            assert(after[q - 1] == id);
        } else {
            assert(after[q] == id);
        }
    }
}

/// An entry without an id is always kept, and so is the first of its id, whatever is shown
/// before it.
pub proof fn the_first_of_an_id_is_kept(
    recent: Seq<Seq<char>>,
    cap: nat,
    ids: Seq<Option<Seq<char>>>,
    i: int,
)
    requires
        0 <= i < ids.len(),
        ids[i] is Some ==> !recent.contains(ids[i]->0),
        ids[i] is Some ==> forall|j: int| 0 <= j < i ==> #[trigger] ids[j] != ids[i],
    ensures
        kept(recent, cap, ids, i),
{
    if !kept(recent, cap, ids, i) {
        only_repeats_are_dropped(recent, cap, ids, i);
        let j = choose|j: int| 0 <= j < i && ids[j] == ids[i];
        assert(ids[j] == ids[i]);
    }
}

} // verus!
