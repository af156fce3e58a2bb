//! Which rows a rebuild of the events table drops.
//!
//! A row goes for one of three reasons. The policy of its source class has let its
//! time pass; the window that it falls into is sealed in an archive; a tombstone
//! strikes it. A class decides alone about its rows, since they are in no archive,
//! and it spares the rows of windows under a legal hold. Where something is missing
//! that a reason needs, the row stays.

use crate::archive::ColdArchive;
use crate::events::spans::Spans;
use crate::text::{self, contains, same};
use vstd::prelude::*;

verus! {

/// Microseconds of a day.
pub const MICROS_PER_DAY: i64 = 86_400_000_000;

/// A standing order to erase.
#[derive(Clone, Debug, PartialEq, Eq)]
pub struct Tombstone {
    pub id: String,
    /// What to look for in the `fields` text of a row; absent where `value` is a
    /// host.
    pub needle: Option<String>,
    pub value: String,
    /// The first microsecond that the order covers, if it has one.
    pub from_us: Option<i64>,
    /// The first microsecond behind what it covers, if it has one.
    pub to_us: Option<i64>,
    pub placed_at_us: i64,
    pub reason: String,
}

impl Tombstone {
    /// The order covers the moment.
    pub open spec fn covers(&self, us: i64) -> bool {
        &&& self.from_us is Some ==> self.from_us->0 <= us
        &&& self.to_us is Some ==> us < self.to_us->0
    }

    /// The order strikes a row. One that looks into `fields` strikes no row without
    /// them.
    pub open spec fn strikes(&self, host: Seq<char>, fields: Option<Seq<char>>, us: i64) -> bool {
        &&& self.covers(us)
        &&& match self.needle {
            None => host == self.value@,
            Some(n) => fields is Some && text::within(fields->0, n@),
        }
    }

    /// Whether the order covers the moment.
    pub fn covers_ts(&self, us: i64) -> (r: bool)
        ensures
            r == self.covers(us),
    {
        let from_ok = match self.from_us {
            Some(f) => f <= us,
            None => true,
        };
        let to_ok = match self.to_us {
            Some(t) => us < t,
            None => true,
        };
        from_ok && to_ok
    }
}

/// Some order strikes the row.
pub open spec fn struck(
    orders: Seq<Tombstone>,
    host: Seq<char>,
    fields: Option<Seq<char>>,
    us: i64,
) -> bool {
    exists|i: int| 0 <= i < orders.len() && (#[trigger] orders[i]).strikes(host, fields, us)
}

/// The characters of an optional text.
pub open spec fn opt_str(o: Option<&str>) -> Option<Seq<char>> {
    match o {
        Some(s) => Some(s@),
        None => None,
    }
}

/// The orders that rows are held against.
pub struct TombstoneMatcher {
    pub entries: Vec<Tombstone>,
}

impl TombstoneMatcher {
    pub fn new(tombstones: Vec<Tombstone>) -> (r: TombstoneMatcher)
        ensures
            r.entries == tombstones,
    {
        TombstoneMatcher { entries: tombstones }
    }

    pub fn is_empty(&self) -> (r: bool)
        ensures
            r == (self.entries@.len() == 0),
    {
        self.entries.len() == 0
    }

    /// Whether some order strikes the row.
    pub fn matches(&self, host: &str, fields: Option<&str>, ts_us: i64) -> (r: bool)
        ensures
            r == struck(self.entries@, host@, opt_str(fields), ts_us),
    {
        let mut i: usize = 0;
        while i < self.entries.len()
            invariant
                i <= self.entries.len(),
                forall|j: int|
                    0 <= j < i ==> !(#[trigger] self.entries@[j]).strikes(
                        host@,
                        opt_str(fields),
                        ts_us,
                    ),
            decreases self.entries.len() - i,
        {
            let t = &self.entries[i];
            if t.covers_ts(ts_us) {
                let hit = match &t.needle {
                    None => same(host, t.value.as_str()),
                    Some(n) => match fields {
                        Some(f) => contains(f, n.as_str()),
                        None => false,
                    },
                };
                if hit {
                    assert(self.entries@[i as int].strikes(host@, opt_str(fields), ts_us));
                    return true;
                }
            }
            i += 1;
        }
        false
    }
}

/// What the reasons read of a row. A value is absent where the row has none, and
/// where its table lacks the column.
pub struct Row {
    pub ts_us: Option<i64>,
    pub source: Option<String>,
    pub host: Option<String>,
    pub fields: Option<String>,
}

/// The texts of a row.
#[verifier::ext_equal]
pub struct RowView {
    pub ts_us: Option<i64>,
    pub source: Option<Seq<char>>,
    pub host: Option<Seq<char>>,
    pub fields: Option<Seq<char>>,
}

impl RowView {
    /// The host, or the empty text.
    pub open spec fn host_text(self) -> Seq<char> {
        match self.host {
            Some(h) => h,
            None => Seq::empty(),
        }
    }

    /// Some order strikes the row. A row without a time is struck by none.
    pub open spec fn erased_by(self, orders: Seq<Tombstone>) -> bool {
        self.ts_us is Some && struck(orders, self.host_text(), self.fields, self.ts_us->0)
    }
}

impl View for Row {
    type V = RowView;

    open spec fn view(&self) -> RowView {
        RowView {
            ts_us: self.ts_us,
            source: text::opt_text(self.source),
            host: text::opt_text(self.host),
            fields: text::opt_text(self.fields),
        }
    }
}

/// The texts of each row of a list.
pub open spec fn row_views(rows: Seq<Row>) -> Seq<RowView> {
    rows.map_values(|r: Row| r@)
}

impl Row {
    /// Whether some order strikes the row.
    pub fn is_erased(&self, matcher: &TombstoneMatcher) -> (r: bool)
        ensures
            r == self@.erased_by(matcher.entries@),
    {
        match self.ts_us {
            None => false,
            Some(us) => {
                let fields = match &self.fields {
                    Some(f) => Some(f.as_str()),
                    None => None,
                };
                match &self.host {
                    Some(h) => matcher.matches(h.as_str(), fields, us),
                    None => {
                        proof {
                            reveal_strlit("");
                        }
                        assert(""@ =~= Seq::<char>::empty());
                        matcher.matches("", fields, us)
                    },
                }
            },
        }
    }
}

/// How many of the rows are struck.
pub open spec fn erased_count(rows: Seq<RowView>, orders: Seq<Tombstone>) -> nat
    decreases rows.len(),
{
    if rows.len() == 0 {
        0
    } else {
        erased_count(rows.drop_last(), orders) + if rows.last().erased_by(orders) {
            1nat
        } else {
            0
        }
    }
}

/// Which rows an erasure keeps, and how many it drops.
pub fn erase_mask(matcher: &TombstoneMatcher, rows: &Vec<Row>) -> (r: (Vec<bool>, u64))
    ensures
        r.0.len() == rows.len(),
        forall|i: int|
            0 <= i < rows.len() ==> (#[trigger] r.0@[i]) == !rows@[i]@.erased_by(matcher.entries@),
        r.1 == erased_count(row_views(rows@), matcher.entries@),
{
    let mut keep: Vec<bool> = Vec::new();
    let mut n: u64 = 0;
    let mut i: usize = 0;
    let ghost views = row_views(rows@);
    while i < rows.len()
        invariant
            i <= rows.len(),
            keep.len() == i,
            n <= i,
            views == row_views(rows@),
            n == erased_count(views.take(i as int), matcher.entries@),
            forall|j: int|
                0 <= j < i ==> (#[trigger] keep@[j]) == !rows@[j]@.erased_by(matcher.entries@),
        decreases rows.len() - i,
    {
        let gone = rows[i].is_erased(matcher);
        keep.push(!gone);
        if gone {
            n += 1;
        }
        i += 1;
        assert(views.take(i as int).drop_last() =~= views.take(i - 1));
    }
    assert(views.take(i as int) =~= views);
    (keep, n)
}

/// The rows that an erasure leaves.
pub open spec fn survivors(rows: Seq<RowView>, orders: Seq<Tombstone>) -> Seq<RowView>
    decreases rows.len(),
{
    if rows.len() == 0 {
        Seq::empty()
    } else {
        let before = survivors(rows.drop_last(), orders);
        if rows.last().erased_by(orders) {
            before
        } else {
            before.push(rows.last())
        }
    }
}

/// An erasure leaves no row that it would drop, so a second one drops none and leaves
/// every row. The rows that it drops and those that it leaves are all there were.
pub proof fn erasing_again_erases_nothing(rows: Seq<RowView>, orders: Seq<Tombstone>)
    ensures
        erased_count(survivors(rows, orders), orders) == 0,
        survivors(survivors(rows, orders), orders) == survivors(rows, orders),
        erased_count(rows, orders) + survivors(rows, orders).len() == rows.len(),
    decreases rows.len(),
{
    if rows.len() > 0 {
        let most = rows.drop_last();
        erasing_again_erases_nothing(most, orders);
        let left = survivors(rows, orders);
        if !rows.last().erased_by(orders) {
            assert(left.drop_last() =~= survivors(most, orders));
        }
    }
}

/// Rows that stand behind each other are erased apart.
pub proof fn erased_apart(a: Seq<RowView>, b: Seq<RowView>, orders: Seq<Tombstone>)
    ensures
        survivors(a + b, orders) == survivors(a, orders) + survivors(b, orders),
        erased_count(a + b, orders) == erased_count(a, orders) + erased_count(b, orders),
    decreases b.len(),
{
    if b.len() == 0 {
        assert(a + b =~= a);
        assert(survivors(a, orders) + survivors(b, orders) =~= survivors(a, orders));
    } else {
        assert((a + b).drop_last() =~= a + b.drop_last());
        erased_apart(a, b.drop_last(), orders);
        assert(survivors(a + b, orders) =~= survivors(a, orders) + survivors(b, orders));
    }
}

/// Rows of this source go from the hot store after so many days, and are never
/// sealed.
#[derive(Clone, Debug, PartialEq, Eq)]
pub struct RetentionClass {
    pub source: String,
    pub hot_days: u32,
}

impl RetentionClass {
    /// The days that rows stay: at least one.
    pub open spec fn days(&self) -> int {
        if self.hot_days == 0 {
            1
        } else {
            self.hot_days as int
        }
    }

    /// Rows older than this are past their time.
    pub open spec fn cutoff(&self, now_us: i64) -> int {
        now_us - self.days() * MICROS_PER_DAY
    }
}

/// The class of a source: of several the last.
pub open spec fn class_of(classes: Seq<RetentionClass>, source: Seq<char>) -> Option<RetentionClass>
    decreases classes.len(),
{
    if classes.len() == 0 {
        None
    } else if classes.last().source@ == source {
        Some(classes.last())
    } else {
        class_of(classes.drop_last(), source)
    }
}

/// Some archive holds the moment.
pub open spec fn sealed(archives: Seq<ColdArchive>, us: i64) -> bool {
    exists|i: int| 0 <= i < archives.len() && (#[trigger] archives[i]).holds(us)
}

/// Some archive under a legal hold holds the moment.
pub open spec fn on_hold(archives: Seq<ColdArchive>, us: i64) -> bool {
    exists|i: int|
        0 <= i < archives.len() && (#[trigger] archives[i]).legal_hold && archives[i].holds(us)
}

/// What becomes of a row.
#[derive(Clone, Copy, Debug, PartialEq, Eq, Structural)]
pub enum Fate {
    Kept,
    /// Past the time of its class.
    Expired,
    /// In the window of an archive.
    Sealed,
    /// Struck by a tombstone.
    Erased,
}

/// What a rebuild goes by.
#[verifier::ext_equal]
pub struct Grounds {
    pub archives: Seq<ColdArchive>,
    pub classes: Seq<RetentionClass>,
    pub orders: Seq<Tombstone>,
    pub now_us: i64,
}

/// The class that decides about a row, if there is one.
pub open spec fn deciding_class(g: Grounds, row: RowView) -> Option<RetentionClass> {
    match row.source {
        Some(s) => class_of(g.classes, s),
        None => None,
    }
}

/// What becomes of a row.
pub open spec fn fate(g: Grounds, row: RowView) -> Fate {
    match row.ts_us {
        None => Fate::Kept,
        Some(us) => {
            match deciding_class(g, row) {
                Some(c) => if us < c.cutoff(g.now_us) && !on_hold(g.archives, us) {
                    Fate::Expired
                } else {
                    Fate::Kept
                },
                None => if sealed(g.archives, us) {
                    Fate::Sealed
                } else if row.erased_by(g.orders) {
                    Fate::Erased
                } else {
                    Fate::Kept
                },
            }
        },
    }
}

/// How many rows went, by reason.
#[derive(Clone, Copy, Debug, PartialEq, Eq, Structural)]
pub struct PruneStats {
    pub sealed: u64,
    pub class: u64,
    pub erased: u64,
}

impl PruneStats {
    pub fn new() -> (r: PruneStats)
        ensures
            r == (PruneStats { sealed: 0, class: 0, erased: 0 }),
    {
        PruneStats { sealed: 0, class: 0, erased: 0 }
    }
}

/// How many of the rows have the given fate.
pub open spec fn fate_count(g: Grounds, rows: Seq<RowView>, f: Fate) -> nat
    decreases rows.len(),
{
    if rows.len() == 0 {
        0
    } else {
        fate_count(g, rows.drop_last(), f) + if fate(g, rows.last()) == f {
            1nat
        } else {
            0
        }
    }
}

/// The ids of the archives whose rows a rebuild removes for the first time.
pub open spec fn unpruned(archives: Seq<ColdArchive>) -> Seq<Seq<char>> {
    archives.filter(|a: ColdArchive| !a.hot_pruned).map_values(|a: ColdArchive| a.id@)
}

/// The reasons of one rebuild.
pub struct PrunePlan {
    windows: Spans,
    held: Spans,
    classes: Vec<(String, i64)>,
    tombstones: TombstoneMatcher,
    sealed_ids: Vec<String>,
    grounds: Ghost<Grounds>,
}

impl PrunePlan {
    #[verifier::type_invariant]
    spec fn follows(self) -> bool {
        let g = self.grounds@;
        &&& forall|us: i64| #[trigger] self.windows.holds(us) == sealed(g.archives, us)
        &&& forall|us: i64| #[trigger] self.held.holds(us) == on_hold(g.archives, us)
        &&& self.classes@.len() == g.classes.len()
        &&& forall|i: int|
            0 <= i < g.classes.len() ==> (#[trigger] self.classes@[i]).0@ == g.classes[i].source@
                && self.classes@[i].1 == g.classes[i].cutoff(g.now_us)
        &&& self.tombstones.entries@ == g.orders
    }

    /// What the plan goes by.
    pub closed spec fn grounds(&self) -> Grounds {
        self.grounds@
    }

    /// The ids to mark once the rebuild is in place.
    pub closed spec fn ids(&self) -> Seq<Seq<char>> {
        text::texts(self.sealed_ids@)
    }

    /// The plan of a rebuild, or none where nothing is to be dropped: pruning is
    /// off, the archives could not be read, or there is no reason at all.
    /// Tombstones that could not be read strike nothing this time.
    pub fn build(
        enabled: bool,
        archives: Option<&Vec<ColdArchive>>,
        classes: &Vec<RetentionClass>,
        tombstones: Option<Vec<Tombstone>>,
        now_us: i64,
    ) -> (r: Option<PrunePlan>)
        requires
            forall|i: int| 0 <= i < classes.len() ==> (#[trigger] classes@[i]).cutoff(now_us)
                >= i64::MIN,
        ensures
            ({
                let orders = match tombstones {
                    Some(t) => t@,
                    None => Seq::empty(),
                };
                &&& r is Some <==> enabled && archives is Some && (archives->0@.len() > 0
                    || classes@.len() > 0 || orders.len() > 0)
                &&& r is Some ==> r->0.grounds() == (Grounds {
                    archives: archives->0@,
                    classes: classes@,
                    orders,
                    now_us,
                })
                &&& r is Some ==> r->0.ids() == unpruned(archives->0@)
            }),
    {
        if !enabled {
            return None;
        }
        let archives = match archives {
            Some(a) => a,
            None => {
                return None;
            },
        };
        let mut windows = Spans::new();
        let mut held = Spans::new();
        let mut sealed_ids: Vec<String> = Vec::new();
        let mut i: usize = 0;
        assert(text::texts(sealed_ids@) =~= unpruned(archives@.take(0))) by {
            reveal(Seq::filter);
        }
        while i < archives.len()
            invariant
                i <= archives.len(),
                forall|us: i64| #[trigger]
                    windows.holds(us) == sealed(archives@.take(i as int), us),
                forall|us: i64| #[trigger] held.holds(us) == on_hold(archives@.take(i as int), us),
                text::texts(sealed_ids@) == unpruned(archives@.take(i as int)),
            decreases archives.len() - i,
        {
            let a = &archives[i];
            let ghost was = text::texts(sealed_ids@);
            windows.insert(a.start_us, a.end_us);
            if a.legal_hold {
                held.insert(a.start_us, a.end_us);
            }
            if !a.hot_pruned {
                sealed_ids.push(a.id.clone());
                assert(text::texts(sealed_ids@) =~= was.push(a.id@));
            }
            proof {
                archives_grow(archives@, i as int);
            }
            i += 1;
        }
        assert(archives@.take(i as int) =~= archives@);
        let mut cutoffs: Vec<(String, i64)> = Vec::new();
        let mut k: usize = 0;
        while k < classes.len()
            invariant
                k <= classes.len(),
                cutoffs.len() == k,
                forall|j: int|
                    0 <= j < classes.len() ==> (#[trigger] classes@[j]).cutoff(now_us) >= i64::MIN,
                forall|j: int|
                    0 <= j < k ==> (#[trigger] cutoffs@[j]).0@ == classes@[j].source@
                        && cutoffs@[j].1 == classes@[j].cutoff(now_us),
            decreases classes.len() - k,
        {
            let c = &classes[k];
            let days: i128 = if c.hot_days == 0 {
                1
            } else {
                c.hot_days as i128
            };
            assert(c.cutoff(now_us) >= i64::MIN);
            let cutoff: i128 = now_us as i128 - days * 86_400_000_000;
            assert(cutoff == c.cutoff(now_us));
            cutoffs.push((c.source.clone(), cutoff as i64));
            k += 1;
        }
        let matcher = TombstoneMatcher::new(
            match tombstones {
                Some(t) => t,
                None => Vec::new(),
            },
        );
        if archives.len() == 0 && classes.len() == 0 && matcher.is_empty() {
            return None;
        }
        let grounds = Ghost(
            Grounds {
                archives: archives@,
                classes: classes@,
                orders: matcher.entries@,
                now_us,
            },
        );
        Some(PrunePlan { windows, held, classes: cutoffs, tombstones: matcher, sealed_ids, grounds })
    }

    /// What becomes of a row.
    pub fn judge(&self, row: &Row) -> (r: Fate)
        ensures
            r == fate(self.grounds(), row@),
    {
        proof {
            use_type_invariant(self);
        }
        let us = match row.ts_us {
            Some(us) => us,
            None => {
                return Fate::Kept;
            },
        };
        if let Some(source) = &row.source {
            if let Some(cutoff) = self.cutoff_of(source.as_str()) {
                return if us < cutoff && !self.held.has(us) {
                    Fate::Expired
                } else {
                    Fate::Kept
                };
            }
        }
        if self.windows.has(us) {
            return Fate::Sealed;
        }
        if row.is_erased(&self.tombstones) {
            return Fate::Erased;
        }
        Fate::Kept
    }

    /// The moment before which rows of a source are past their time.
    fn cutoff_of(&self, source: &str) -> (r: Option<i64>)
        ensures
            match class_of(self.grounds().classes, source@) {
                Some(c) => r is Some && r->0 == c.cutoff(self.grounds().now_us),
                None => r is None,
            },
    {
        proof {
            use_type_invariant(self);
        }
        let ghost classes = self.grounds().classes;
        let mut i: usize = self.classes.len();
        assert(classes.take(i as int) =~= classes);
        while i > 0
            invariant
                i <= self.classes.len() == classes.len(),
                classes == self.grounds().classes,
                self.follows(),
                class_of(classes, source@) == class_of(classes.take(i as int), source@),
            decreases i,
        {
            assert(classes.take(i as int).last() == classes[i - 1]);
            assert(classes.take(i as int).drop_last() =~= classes.take(i - 1));
            assert(self.classes@[i - 1].0@ == classes[i - 1].source@);
            if same(self.classes[i - 1].0.as_str(), source) {
                return Some(self.classes[i - 1].1);
            }
            i -= 1;
        }
        None
    }

    /// Which rows the rebuild keeps. The rows that go are counted by reason.
    pub fn mask(&self, rows: &Vec<Row>, stats: &mut PruneStats) -> (r: Vec<bool>)
        requires
            old(stats).sealed + rows.len() <= u64::MAX,
            old(stats).class + rows.len() <= u64::MAX,
            old(stats).erased + rows.len() <= u64::MAX,
        ensures
            r.len() == rows.len(),
            forall|i: int|
                0 <= i < rows.len() ==> (#[trigger] r@[i]) == (fate(self.grounds(), rows@[i]@)
                    == Fate::Kept),
            final(stats).sealed == old(stats).sealed + fate_count(
                self.grounds(),
                row_views(rows@),
                Fate::Sealed,
            ),
            final(stats).class == old(stats).class + fate_count(
                self.grounds(),
                row_views(rows@),
                Fate::Expired,
            ),
            final(stats).erased == old(stats).erased + fate_count(
                self.grounds(),
                row_views(rows@),
                Fate::Erased,
            ),
    {
        let mut keep: Vec<bool> = Vec::new();
        let mut i: usize = 0;
        let ghost views = row_views(rows@);
        while i < rows.len()
            invariant
                i <= rows.len(),
                keep.len() == i,
                views == row_views(rows@),
                old(stats).sealed + rows.len() <= u64::MAX,
                old(stats).class + rows.len() <= u64::MAX,
                old(stats).erased + rows.len() <= u64::MAX,
                stats.sealed <= old(stats).sealed + i,
                stats.class <= old(stats).class + i,
                stats.erased <= old(stats).erased + i,
                forall|j: int|
                    0 <= j < i ==> (#[trigger] keep@[j]) == (fate(self.grounds(), rows@[j]@)
                        == Fate::Kept),
                stats.sealed == old(stats).sealed + fate_count(
                    self.grounds(),
                    views.take(i as int),
                    Fate::Sealed,
                ),
                stats.class == old(stats).class + fate_count(
                    self.grounds(),
                    views.take(i as int),
                    Fate::Expired,
                ),
                stats.erased == old(stats).erased + fate_count(
                    self.grounds(),
                    views.take(i as int),
                    Fate::Erased,
                ),
            decreases rows.len() - i,
        {
            let f = self.judge(&rows[i]);
            match f {
                Fate::Kept => {},
                Fate::Expired => {
                    stats.class = stats.class + 1;
                },
                Fate::Sealed => {
                    stats.sealed = stats.sealed + 1;
                },
                Fate::Erased => {
                    stats.erased = stats.erased + 1;
                },
            }
            keep.push(
                match f {
                    Fate::Kept => true,
                    _ => false,
                },
            );
            i += 1;
            assert(views.take(i as int).drop_last() =~= views.take(i - 1));
        }
        assert(views.take(i as int) =~= views);
        keep
    }

    /// The ids of the archives to mark as pruned: all that the plan names where the
    /// rebuild is in place, none where it failed.
    pub fn to_mark(&self, rebuilt: bool) -> (r: Vec<String>)
        ensures
            text::texts(r@) == if rebuilt {
                self.ids()
            } else {
                Seq::empty()
            },
    {
        let mut out: Vec<String> = Vec::new();
        if rebuilt {
            let mut i: usize = 0;
            while i < self.sealed_ids.len()
                invariant
                    i <= self.sealed_ids.len(),
                    text::texts(out@) == self.ids().take(i as int),
                decreases self.sealed_ids.len() - i,
            {
                let ghost was = text::texts(out@);
                out.push(self.sealed_ids[i].clone());
                i += 1;
                assert(text::texts(out@) =~= was.push(self.ids()[i - 1]));
                assert(self.ids().take(i as int) =~= self.ids().take(i - 1).push(self.ids()[i - 1]));
            }
            assert(self.ids().take(i as int) =~= self.ids());
        }
        assert(!rebuilt ==> text::texts(out@) =~= Seq::<Seq<char>>::empty());
        out
    }
}

/// A class decides alone about its rows: none of them goes for being sealed or
/// struck.
pub proof fn a_class_decides_alone(g: Grounds, row: RowView)
    requires
        deciding_class(g, row) is Some,
    ensures
        fate(g, row) == Fate::Kept || fate(g, row) == Fate::Expired,
        fate(g, row) == fate(Grounds { orders: Seq::empty(), ..g }, row),
{
}

/// A row of a class that falls into a held window stays, however old it is.
pub proof fn a_hold_spares_the_only_copy(g: Grounds, row: RowView)
    requires
        deciding_class(g, row) is Some,
        row.ts_us is Some,
        on_hold(g.archives, row.ts_us->0),
    ensures
        fate(g, row) == Fate::Kept,
{
}

/// A row that goes has a time, and one of the reasons holds of it.
pub proof fn no_row_goes_without_a_reason(g: Grounds, row: RowView)
    requires
        fate(g, row) != Fate::Kept,
    ensures
        row.ts_us is Some,
        ({
            let us = row.ts_us->0;
            ||| deciding_class(g, row) is Some && us < deciding_class(g, row)->0.cutoff(g.now_us)
                && !on_hold(g.archives, us)
            ||| deciding_class(g, row) is None && sealed(g.archives, us)
            ||| deciding_class(g, row) is None && row.erased_by(g.orders)
        }),
{
}

/// A rebuild and an erasure agree about the rows that only tombstones concern.
pub proof fn rebuilds_and_erasures_agree(g: Grounds, row: RowView)
    requires
        deciding_class(g, row) is None,
        row.ts_us is Some ==> !sealed(g.archives, row.ts_us->0),
    ensures
        fate(g, row) == if row.erased_by(g.orders) {
            Fate::Erased
        } else {
            Fate::Kept
        },
{
}

/// Once a rebuild is in place no row outside the classes is left in the window of an
/// archive, which is what marking the archive claims.
pub proof fn a_rebuild_empties_sealed_windows(g: Grounds, row: RowView)
    requires
        fate(g, row) == Fate::Kept,
        deciding_class(g, row) is None,
        row.ts_us is Some,
    ensures
        !sealed(g.archives, row.ts_us->0),
{
}

/// An order strikes no row from before the moment that it begins at, and none from the
/// moment that it ends at on, whatever the row holds.
pub proof fn an_order_keeps_to_its_time(
    t: Tombstone,
    host: Seq<char>,
    fields: Option<Seq<char>>,
    us: i64,
)
    ensures
        t.from_us is Some && us < t.from_us->0 ==> !t.strikes(host, fields, us),
        t.to_us is Some && us >= t.to_us->0 ==> !t.strikes(host, fields, us),
{
}

/// Within its time an order strikes by content alone: one that looks for a host the rows of
/// that host, whatever their fields, one that looks into the fields the rows whose fields
/// hold its text, whatever their host.
pub proof fn an_order_strikes_by_content(
    t: Tombstone,
    host: Seq<char>,
    fields: Option<Seq<char>>,
    us: i64,
)
    requires
        t.from_us is Some ==> us >= t.from_us->0,
        t.to_us is Some ==> us < t.to_us->0,
    ensures
        t.needle is None ==> (t.strikes(host, fields, us) <==> host == t.value@),
        t.needle is Some && fields is None ==> !t.strikes(host, fields, us),
        t.needle is Some && fields is Some ==> (t.strikes(host, fields, us) <==> exists|
            before: Seq<char>,
            after: Seq<char>,
        |
            fields->0 == #[trigger] (before + t.needle->0@ + after)),
{
    if t.needle is Some && fields is Some {
        let f = fields->0;
        let n = t.needle->0@;
        text::within_is_between(f, n);
    }
}

/// The archive that holds a struck row concerns the order that strikes it: an order that
/// passes over every archive that its time does not meet misses no row.
pub proof fn a_struck_row_lies_in_an_archive_concerned(
    a: ColdArchive,
    t: Tombstone,
    host: Seq<char>,
    fields: Option<Seq<char>>,
    us: i64,
)
    requires
        a.holds(us),
        t.strikes(host, fields, us),
    ensures
        a.meets(t.from_us, t.to_us),
{
}

/// The orders strike a row exactly where one of them does: more orders strike more rows,
/// and a row that they strike, one of them strikes alone.
pub proof fn orders_strike_one_by_one(
    a: Seq<Tombstone>,
    b: Seq<Tombstone>,
    host: Seq<char>,
    fields: Option<Seq<char>>,
    us: i64,
)
    ensures
        struck(a + b, host, fields, us) <==> struck(a, host, fields, us) || struck(
            b,
            host,
            fields,
            us,
        ),
        !struck(Seq::empty(), host, fields, us),
        forall|t: Tombstone|
            struck(seq![t], host, fields, us) <==> #[trigger] t.strikes(host, fields, us),
{
    let c = a + b;
    if struck(a, host, fields, us) {
        let i = choose|i: int| 0 <= i < a.len() && (#[trigger] a[i]).strikes(host, fields, us);
        assert(c[i].strikes(host, fields, us));
    }
    if struck(b, host, fields, us) {
        let i = choose|i: int| 0 <= i < b.len() && (#[trigger] b[i]).strikes(host, fields, us);
        assert(c[a.len() + i].strikes(host, fields, us));
    }
    if struck(c, host, fields, us) {
        let i = choose|i: int| 0 <= i < c.len() && (#[trigger] c[i]).strikes(host, fields, us);
        if i < a.len() {
            assert(a[i].strikes(host, fields, us));
        } else {
            assert(b[i - a.len()].strikes(host, fields, us));
        }
    }
    assert forall|t: Tombstone|
        struck(seq![t], host, fields, us) <==> #[trigger] t.strikes(host, fields, us) by {
        let one = seq![t];
        assert(one[0] == t);
        if t.strikes(host, fields, us) {
            assert(one[0].strikes(host, fields, us));
        }
    }
}

/// What becomes of a row whose source no class names. One without a time stays. One inside
/// the window of an archive goes as sealed. Of the others one goes as erased where an order
/// strikes it whose time it falls into; the rest stay. What the hot store keeps of the
/// other sources, and which archives are held, changes nothing.
pub proof fn what_becomes_of_a_row_without_a_class(g: Grounds, row: RowView)
    requires
        row.source is Some ==> forall|i: int|
            0 <= i < g.classes.len() ==> (#[trigger] g.classes[i]).source@ != row.source->0,
    ensures
        row.ts_us is None ==> fate(g, row) == Fate::Kept,
        fate(g, row) != Fate::Expired,
        row.ts_us is Some ==> {
            let us = row.ts_us->0;
            &&& fate(g, row) == Fate::Sealed <==> exists|i: int|
                0 <= i < g.archives.len() && (#[trigger] g.archives[i]).start_us <= us && us
                    < g.archives[i].end_us
            &&& fate(g, row) == Fate::Erased ==> exists|k: int|
                {
                    &&& 0 <= k < g.orders.len()
                    &&& (#[trigger] g.orders[k]).strikes(row.host_text(), row.fields, us)
                    &&& g.orders[k].from_us is Some ==> g.orders[k].from_us->0 <= us
                    &&& g.orders[k].to_us is Some ==> us < g.orders[k].to_us->0
                }
            &&& fate(g, row) == Fate::Kept ==> forall|k: int|
                0 <= k < g.orders.len() ==> !(#[trigger] g.orders[k]).strikes(
                    row.host_text(),
                    row.fields,
                    us,
                )
        },
{
    if row.source is Some {
        the_last_class_of_a_source_counts(g.classes, row.source->0);
    }
    if row.ts_us is Some {
        let us = row.ts_us->0;
        if exists|i: int|
            0 <= i < g.archives.len() && (#[trigger] g.archives[i]).start_us <= us && us
                < g.archives[i].end_us {
            let i = choose|i: int|
                0 <= i < g.archives.len() && (#[trigger] g.archives[i]).start_us <= us && us
                    < g.archives[i].end_us;
            assert(g.archives[i].holds(us));
        }
        if sealed(g.archives, us) {
            let i = choose|i: int| 0 <= i < g.archives.len() && (#[trigger] g.archives[i]).holds(us);
            assert(g.archives[i].start_us <= us);
        }
    }
}

/// A class of a source is one of the given ones, the last of them that names the source.
pub proof fn the_last_class_of_a_source_counts(classes: Seq<RetentionClass>, source: Seq<char>)
    ensures
        class_of(classes, source) is None <==> forall|i: int|
            0 <= i < classes.len() ==> (#[trigger] classes[i]).source@ != source,
        class_of(classes, source) is Some ==> exists|i: int|
            {
                &&& 0 <= i < classes.len()
                &&& #[trigger] classes[i] == class_of(classes, source)->0
                &&& classes[i].source@ == source
                &&& forall|j: int|
                    i < j < classes.len() ==> (#[trigger] classes[j]).source@ != source
            },
    decreases classes.len(),
{
    if classes.len() > 0 {
        let n = classes.len() - 1;
        let most = classes.drop_last();
        if classes.last().source@ == source {
            assert(classes[n] == class_of(classes, source)->0);
        } else {
            the_last_class_of_a_source_counts(most, source);
            if class_of(most, source) is Some {
                let i = choose|i: int|
                    {
                        &&& 0 <= i < most.len()
                        &&& #[trigger] most[i] == class_of(most, source)->0
                        &&& most[i].source@ == source
                        &&& forall|j: int|
                            i < j < most.len() ==> (#[trigger] most[j]).source@ != source
                    };
                assert(classes[i] == most[i]);
                assert forall|j: int| i < j < classes.len() implies (
                #[trigger] classes[j]).source@ != source by {
                    if j < n {
                        assert(most[j] == classes[j]);
                    }
                }
            } else {
                assert forall|i: int| 0 <= i < classes.len() implies (
                #[trigger] classes[i]).source@ != source by {
                    if i < n {
                        assert(most[i] == classes[i]);
                    }
                }
            }
        }
    }
}

/// A row of a class goes once it is older than the days of the class, at least one, and no
/// archive under a hold has its time in the window. Otherwise it stays.
pub proof fn what_becomes_of_a_row_with_a_class(g: Grounds, row: RowView, c: RetentionClass)
    requires
        row.source is Some,
        class_of(g.classes, row.source->0) == Some(c),
        row.ts_us is Some,
    ensures
        fate(g, row) == Fate::Expired <==> {
            &&& g.now_us - row.ts_us->0 > (if c.hot_days > 1 {
                c.hot_days as int
            } else {
                1
            }) * 24 * 3_600_000_000
            &&& forall|i: int|
                0 <= i < g.archives.len() && (#[trigger] g.archives[i]).legal_hold
                    ==> row.ts_us->0 < g.archives[i].start_us || g.archives[i].end_us
                    <= row.ts_us->0
        },
        fate(g, row) == Fate::Expired || fate(g, row) == Fate::Kept,
{
    let us = row.ts_us->0;
    if on_hold(g.archives, us) {
        let i = choose|i: int|
            0 <= i < g.archives.len() && (#[trigger] g.archives[i]).legal_hold
                && g.archives[i].holds(us);
        assert(g.archives[i].legal_hold);
        assert(g.archives[i].start_us <= us && us < g.archives[i].end_us);
    } else {
        assert forall|i: int|
            0 <= i < g.archives.len() && (#[trigger] g.archives[i]).legal_hold implies us
            < g.archives[i].start_us || g.archives[i].end_us <= us by {
            assert(!g.archives[i].holds(us));
        }
    }
}

/// What an erasure leaves are rows of the list, in its order, and of these exactly those
/// that no order strikes. A row without a time is among them.
pub proof fn an_erasure_leaves_what_no_order_strikes(rows: Seq<RowView>, orders: Seq<Tombstone>)
    ensures
        forall|i: int|
            0 <= i < rows.len() ==> (survivors(rows, orders).contains(#[trigger] rows[i])
                <==> rows[i].ts_us is None || forall|k: int|
                0 <= k < orders.len() ==> !(#[trigger] orders[k]).strikes(
                    rows[i].host_text(),
                    rows[i].fields,
                    rows[i].ts_us->0,
                )),
        forall|r: RowView| #[trigger]
            survivors(rows, orders).contains(r) ==> rows.contains(r) && !r.erased_by(orders),
    decreases rows.len(),
{
    if rows.len() > 0 {
        let most = rows.drop_last();
        let n = rows.len() - 1;
        an_erasure_leaves_what_no_order_strikes(most, orders);
        let (s, t) = (survivors(rows, orders), survivors(most, orders));
        assert forall|r: RowView| #[trigger] s.contains(r) implies rows.contains(r) && !r.erased_by(
            orders,
        ) by {
            let k = choose|k: int| 0 <= k < s.len() && s[k] == r;
            if k < t.len() {
                assert(t[k] == r);
                assert(t.contains(r));
                let i = choose|i: int| 0 <= i < most.len() && most[i] == r;
                assert(rows[i] == r);
            } else {
                assert(rows[n] == r);
            }
        }
        assert forall|i: int| 0 <= i < rows.len() && !(#[trigger] rows[i]).erased_by(
            orders,
        ) implies s.contains(rows[i]) by {
            if i < n {
                assert(most[i] == rows[i]);
                assert(!most[i].erased_by(orders));
                assert(t.contains(most[i]));
                let k = choose|k: int| 0 <= k < t.len() && t[k] == most[i];
                assert(s[k] == t[k]);
            } else {
                assert(s[t.len() as int] == rows[n]);
            }
        }
        assert forall|i: int| 0 <= i < rows.len() implies (s.contains(#[trigger] rows[i])
            <==> rows[i].ts_us is None || forall|k: int|
            0 <= k < orders.len() ==> !(#[trigger] orders[k]).strikes(
                rows[i].host_text(),
                rows[i].fields,
                rows[i].ts_us->0,
            )) by {
            assert(s.contains(rows[i]) <==> !rows[i].erased_by(orders));
        }
    }
}

/// The archives that a rebuild marks are those that are not marked yet: their ids and no
/// other.
pub proof fn unmarked_archives_are_marked(archives: Seq<ColdArchive>)
    ensures
        forall|i: int|
            0 <= i < archives.len() && !(#[trigger] archives[i]).hot_pruned ==> unpruned(
                archives,
            ).contains(archives[i].id@),
        forall|id: Seq<char>| #[trigger]
            unpruned(archives).contains(id) ==> exists|i: int|
                0 <= i < archives.len() && (#[trigger] archives[i]).id@ == id
                    && !archives[i].hot_pruned,
{
    let open = |a: ColdArchive| !a.hot_pruned;
    let kept = archives.filter(open);
    let ids = unpruned(archives);
    archives.filter_lemma(open);
    assert forall|i: int|
        0 <= i < archives.len() && !(#[trigger] archives[i]).hot_pruned implies ids.contains(
        archives[i].id@,
    ) by {
        assert(open(archives[i]));
        archives.lemma_filter_contains(open, i);
        let k = choose|k: int| 0 <= k < kept.len() && kept[k] == archives[i];
        assert(ids[k] == archives[i].id@);
    }
    assert forall|id: Seq<char>| #[trigger] ids.contains(id) implies exists|i: int|
        0 <= i < archives.len() && (#[trigger] archives[i]).id@ == id && !archives[i].hot_pruned by {
        let k = choose|k: int| 0 <= k < ids.len() && ids[k] == id;
        assert(open(kept[k]));
        archives.lemma_filter_contains_rev(open, kept[k]);
        let i = choose|i: int| 0 <= i < archives.len() && archives[i] == kept[k];
        assert(archives[i].id@ == id);
    }
}

proof fn archives_grow(archives: Seq<ColdArchive>, i: int)
    requires
        0 <= i < archives.len(),
    ensures
        forall|us: i64| #[trigger]
            sealed(archives.take(i + 1), us) == (sealed(archives.take(i), us)
                || archives[i].holds(us)),
        forall|us: i64| #[trigger]
            on_hold(archives.take(i + 1), us) == (on_hold(archives.take(i), us) || (
            archives[i].legal_hold && archives[i].holds(us))),
        unpruned(archives.take(i + 1)) == if archives[i].hot_pruned {
            unpruned(archives.take(i))
        } else {
            unpruned(archives.take(i)).push(archives[i].id@)
        },
{
    let a = archives.take(i);
    let b = archives.take(i + 1);
    assert(b =~= a.push(archives[i]));
    assert forall|us: i64| #[trigger] sealed(b, us) == (sealed(a, us) || archives[i].holds(us)) by {
        if sealed(a, us) {
            let k = choose|k: int| 0 <= k < a.len() && (#[trigger] a[k]).holds(us);
            assert(b[k].holds(us));
        }
        if archives[i].holds(us) {
            assert(b[i].holds(us));
        }
        if sealed(b, us) {
            let k = choose|k: int| 0 <= k < b.len() && (#[trigger] b[k]).holds(us);
            if k < i {
                assert(a[k].holds(us));
            }
        }
    }
    assert forall|us: i64| #[trigger] on_hold(b, us) == (on_hold(a, us) || (archives[i].legal_hold
        && archives[i].holds(us))) by {
        if on_hold(a, us) {
            let k = choose|k: int|
                0 <= k < a.len() && (#[trigger] a[k]).legal_hold && a[k].holds(us);
            assert(b[k].legal_hold && b[k].holds(us));
        }
        if archives[i].legal_hold && archives[i].holds(us) {
            assert(b[i].legal_hold && b[i].holds(us));
        }
        if on_hold(b, us) {
            let k = choose|k: int|
                0 <= k < b.len() && (#[trigger] b[k]).legal_hold && b[k].holds(us);
            if k < i {
                assert(a[k].legal_hold && a[k].holds(us));
            }
        }
    }
    let keeps = |x: ColdArchive| !x.hot_pruned;
    assert(b.filter(keeps) == if archives[i].hot_pruned {
        a.filter(keeps)
    } else {
        a.filter(keeps).push(archives[i])
    }) by {
        reveal(Seq::filter);
        assert(b.drop_last() =~= a);
    }
    assert(unpruned(b) =~= if archives[i].hot_pruned {
        unpruned(a)
    } else {
        unpruned(a).push(archives[i].id@)
    });
}

} // verus!
