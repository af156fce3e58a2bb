//! What is known of the environment, and which entities must not teach it anything.
//!
//! Entities that an open case touches, and entities that anyone has found to be
//! compromised, are kept apart from what is learned. Neither the passing of time nor
//! the closing of a case takes a compromised entity out of that set.

use crate::names::{self, NameSet};
use crate::state::cases::{Case, CaseState, Disposition};
use crate::state::records::Record;
use crate::text::{self, same};
use vstd::prelude::*;

verus! {

/// What an entity is.
#[derive(Clone, Copy, Debug, PartialEq, Eq, Structural)]
pub enum EntityKind {
    Host,
    Ip,
    Identity,
    ChangeRecord,
    Other,
}

/// An entity.
#[derive(Clone, Debug, PartialEq, Eq)]
pub struct EntityRef {
    pub kind: EntityKind,
    pub id: String,
}

impl EntityRef {
    pub fn new(kind: EntityKind, id: &str) -> (r: EntityRef)
        ensures
            r@ == (kind, id@),
    {
        EntityRef { kind, id: String::from_str(id) }
    }

    /// Whether two are the same entity.
    pub fn is(&self, other: &EntityRef) -> (r: bool)
        ensures
            r == (self@ == other@),
    {
        self.kind == other.kind && same(self.id.as_str(), other.id.as_str())
    }
}

impl View for EntityRef {
    type V = (EntityKind, Seq<char>);

    open spec fn view(&self) -> (EntityKind, Seq<char>) {
        (self.kind, self.id@)
    }
}

/// A name that is there and not empty.
pub open spec fn named(s: Option<String>) -> bool {
    s is Some && s->0@.len() > 0
}

/// The account that a case names: the one of the database, where there is one, else
/// the one of the system.
pub open spec fn identity(c: Case) -> Option<String> {
    if c.db_user is Some {
        c.db_user
    } else {
        c.user
    }
}

/// The entities that a case touches: its host, its address and its account.
pub open spec fn touches(c: Case, e: (EntityKind, Seq<char>)) -> bool {
    ||| c.host@.len() > 0 && e == (EntityKind::Host, c.host@)
    ||| named(c.src_ip) && e == (EntityKind::Ip, c.src_ip->0@)
    ||| named(identity(c)) && e == (EntityKind::Identity, identity(c)->0@)
}

/// The entity is in the list.
pub open spec fn among(v: Seq<EntityRef>, e: (EntityKind, Seq<char>)) -> bool {
    exists|i: int| 0 <= i < v.len() && (#[trigger] v[i])@ == e
}

proof fn among_pushed(v: Seq<EntityRef>, x: EntityRef, e: (EntityKind, Seq<char>))
    ensures
        among(v.push(x), e) == (among(v, e) || x@ == e),
{
    let w = v.push(x);
    if among(v, e) {
        let i = choose|i: int| 0 <= i < v.len() && (#[trigger] v[i])@ == e;
        assert(w[i]@ == e);
    }
    if x@ == e {
        assert(w[v.len() as int]@ == e);
    }
    if among(w, e) {
        let i = choose|i: int| 0 <= i < w.len() && (#[trigger] w[i])@ == e;
        if i < v.len() {
            assert(v[i]@ == e);
        }
    }
}

/// A set of entities.
pub struct EntitySet {
    list: Vec<EntityRef>,
}

impl EntitySet {
    /// The entities of the set.
    pub closed spec fn holds(&self, e: (EntityKind, Seq<char>)) -> bool {
        among(self.list@, e)
    }

    pub fn new() -> (r: EntitySet)
        ensures
            forall|e: (EntityKind, Seq<char>)| !#[trigger] r.holds(e),
    {
        EntitySet { list: Vec::new() }
    }

    /// Whether the entity is in the set.
    pub fn contains(&self, e: &EntityRef) -> (r: bool)
        ensures
            r == self.holds(e@),
    {
        let mut i: usize = 0;
        while i < self.list.len()
            invariant
                i <= self.list.len(),
                forall|j: int| 0 <= j < i ==> (#[trigger] self.list@[j])@ != e@,
            decreases self.list.len() - i,
        {
            if self.list[i].is(e) {
                assert(self.list@[i as int]@ == e@);
                return true;
            }
            i += 1;
        }
        false
    }

    /// Puts an entity into the set.
    pub fn insert(&mut self, e: EntityRef)
        ensures
            forall|x: (EntityKind, Seq<char>)| #[trigger]
                final(self).holds(x) == (old(self).holds(x) || x == e@),
    {
        if !self.contains(&e) {
            let ghost was = self.list@;
            self.list.push(e);
            proof {
                assert forall|x: (EntityKind, Seq<char>)| #[trigger]
                    among(self.list@, x) == (among(was, x) || x == e@) by {
                    among_pushed(was, e, x);
                }
            }
        }
    }

    /// The number of entities.
    pub fn is_empty(&self) -> (r: bool)
        ensures
            r ==> forall|e: (EntityKind, Seq<char>)| !#[trigger] self.holds(e),
            !r ==> exists|e: (EntityKind, Seq<char>)| #[trigger] self.holds(e),
    {
        if self.list.len() > 0 {
            assert(self.list@[0]@ == self.list@[0]@);
            assert(self.holds(self.list@[0]@));
            false
        } else {
            true
        }
    }
}

/// The entities that a case touches.
pub fn case_entities(c: &Case) -> (r: Vec<EntityRef>)
    ensures
        forall|e: (EntityKind, Seq<char>)| #[trigger] among(r@, e) == touches(*c, e),
{
    let mut r: Vec<EntityRef> = Vec::new();
    let ghost s0 = r@;
    if text::chars_of(c.host.as_str()).len() > 0 {
        r.push(EntityRef::new(EntityKind::Host, c.host.as_str()));
    }
    let ghost s1 = r@;
    if let Some(ip) = &c.src_ip {
        if text::chars_of(ip.as_str()).len() > 0 {
            r.push(EntityRef::new(EntityKind::Ip, ip.as_str()));
        }
    }
    let ghost s2 = r@;
    let who: &Option<String> = if c.db_user.is_some() {
        &c.db_user
    } else {
        &c.user
    };
    if let Some(u) = who {
        if text::chars_of(u.as_str()).len() > 0 {
            r.push(EntityRef::new(EntityKind::Identity, u.as_str()));
        }
    }
    proof {
        assert forall|e: (EntityKind, Seq<char>)| #[trigger] among(r@, e) == touches(*c, e) by {
            if s1.len() > s0.len() {
                among_pushed(s0, s1.last(), e);
            }
            if s2.len() > s1.len() {
                among_pushed(s1, s2.last(), e);
            }
            if r@.len() > s2.len() {
                among_pushed(s2, r@.last(), e);
            }
        }
    }
    r
}

fn insert_all(set: &mut EntitySet, v: Vec<EntityRef>)
    ensures
        forall|e: (EntityKind, Seq<char>)| #[trigger]
            final(set).holds(e) == (old(set).holds(e) || among(v@, e)),
{
    for x in it: v
        invariant
            it.seq() == v@,
            forall|e: (EntityKind, Seq<char>)| #[trigger]
                set.holds(e) == (old(set).holds(e) || among(v@.take(it.index()), e)),
    {
        let ghost part = v@.take(it.index());
        let ghost was = *set;
        set.insert(x);
        proof {
            assert(v@.take(it.index() + 1) =~= part.push(x));
            assert forall|e: (EntityKind, Seq<char>)| #[trigger]
                set.holds(e) == (old(set).holds(e) || among(v@.take(it.index() + 1), e)) by {
                among_pushed(part, x, e);
                assert(was.holds(e) == (old(set).holds(e) || among(part, e)));
            }
        }
    }
    assert(v@.take(v@.len() as int) =~= v@);
}

/// Some case that is not closed touches the entity.
pub open spec fn under_investigation(cases: Seq<Case>, e: (EntityKind, Seq<char>)) -> bool {
    exists|i: int|
        0 <= i < cases.len() && (#[trigger] cases[i]).state != CaseState::Closed && touches(
            cases[i],
            e,
        )
}

/// The entities that a case touches which is not closed.
pub fn open_case_entity_set(cases: &Vec<Case>) -> (r: EntitySet)
    ensures
        forall|e: (EntityKind, Seq<char>)| #[trigger] r.holds(e) == under_investigation(cases@, e),
{
    let mut set = EntitySet::new();
    let mut i: usize = 0;
    while i < cases.len()
        invariant
            i <= cases.len(),
            forall|e: (EntityKind, Seq<char>)| #[trigger]
                set.holds(e) == under_investigation(cases@.take(i as int), e),
        decreases cases.len() - i,
    {
        let ghost was = set;
        let open = cases[i].state != CaseState::Closed;
        if open {
            insert_all(&mut set, case_entities(&cases[i]));
        }
        proof {
            let a = cases@.take(i as int);
            let b = cases@.take(i + 1);
            assert(b =~= a.push(cases@[i as int]));
            assert forall|e: (EntityKind, Seq<char>)| #[trigger]
                set.holds(e) == under_investigation(b, e) by {
                assert(was.holds(e) == under_investigation(a, e));
                if under_investigation(a, e) {
                    let k = choose|k: int|
                        0 <= k < a.len() && (#[trigger] a[k]).state != CaseState::Closed && touches(
                            a[k],
                            e,
                        );
                    assert(b[k].state != CaseState::Closed && touches(b[k], e));
                }
                if open && touches(cases@[i as int], e) {
                    assert(b[i as int].state != CaseState::Closed && touches(b[i as int], e));
                }
                if under_investigation(b, e) {
                    let k = choose|k: int|
                        0 <= k < b.len() && (#[trigger] b[k]).state != CaseState::Closed && touches(
                            b[k],
                            e,
                        );
                    if k < i {
                        assert(a[k].state != CaseState::Closed && touches(a[k], e));
                    }
                }
            }
        }
        i += 1;
    }
    assert(cases@.take(i as int) =~= cases@);
    set
}

/// An observation of a fact, as far as the sets ask: the fact and what it is about.
pub struct Observed {
    pub fact_id: String,
    pub entity: EntityRef,
}

/// A fact whose current state is known, and whether that is a compromised one.
pub struct FactStanding {
    pub fact_id: String,
    pub compromised: bool,
}

/// What a fact is about: the entity of its last observation.
pub open spec fn subject(observations: Seq<Observed>, fact: Seq<char>) -> Option<
    (EntityKind, Seq<char>),
>
    decreases observations.len(),
{
    if observations.len() == 0 {
        None
    } else if observations.last().fact_id@ == fact {
        Some(observations.last().entity@)
    } else {
        subject(observations.drop_last(), fact)
    }
}

fn subject_of(observations: &Vec<Observed>, fact: &str) -> (r: Option<EntityRef>)
    ensures
        match r {
            Some(e) => subject(observations@, fact@) == Some(e@),
            None => subject(observations@, fact@) is None,
        },
{
    let mut i: usize = observations.len();
    assert(observations@.take(i as int) =~= observations@);
    while i > 0
        invariant
            i <= observations.len(),
            subject(observations@, fact@) == subject(observations@.take(i as int), fact@),
        decreases i,
    {
        assert(observations@.take(i as int).last() == observations@[i - 1]);
        assert(observations@.take(i as int).drop_last() =~= observations@.take(i - 1));
        if same(observations[i - 1].fact_id.as_str(), fact) {
            let e = &observations[i - 1].entity;
            return Some(EntityRef::new(e.kind, e.id.as_str()));
        }
        i -= 1;
    }
    None
}

/// The finding speaks against the entities of its case.
pub open spec fn adverse(d: Disposition) -> bool {
    d == Disposition::Malicious || d == Disposition::Suspicious
}

fn is_adverse(d: Disposition) -> (r: bool)
    ensures
        r == adverse(d),
{
    match d {
        Disposition::Malicious => true,
        Disposition::Suspicious => true,
        _ => false,
    }
}

/// Some record of the case speaks against its entities.
pub open spec fn found_adverse(records: Seq<Record>, case: Seq<char>) -> bool {
    exists|i: int|
        0 <= i < records.len() && adverse((#[trigger] records[i]).disposition) && text::opt_text(
            records[i].case_id,
        ) == Some(case)
}

fn is_found_adverse(records: &Vec<Record>, case: &str) -> (r: bool)
    ensures
        r == found_adverse(records@, case@),
{
    let mut i: usize = 0;
    while i < records.len()
        invariant
            i <= records.len(),
            forall|j: int|
                0 <= j < i ==> !(adverse((#[trigger] records@[j]).disposition) && text::opt_text(
                    records@[j].case_id,
                ) == Some(case@)),
        decreases records.len() - i,
    {
        let of_case = match &records[i].case_id {
            Some(c) => same(c.as_str(), case),
            None => false,
        };
        if of_case && is_adverse(records[i].disposition) {
            assert(adverse(records@[i as int].disposition) && text::opt_text(
                records@[i as int].case_id,
            ) == Some(case@));
            return true;
        }
        i += 1;
    }
    false
}

/// The triage, a person or the outcome speaks against the entities of the case.
pub open spec fn condemned(c: Case, decisions: Seq<Record>, outcomes: Seq<Record>) -> bool {
    ||| c.verdict is Some && adverse(c.verdict->0.disposition)
    ||| found_adverse(decisions, c.id@)
    ||| found_adverse(outcomes, c.id@)
}

/// The entity is compromised by a fact: its current state says so.
pub open spec fn condemned_by_fact(
    facts: Seq<FactStanding>,
    observations: Seq<Observed>,
    e: (EntityKind, Seq<char>),
) -> bool {
    exists|i: int|
        0 <= i < facts.len() && (#[trigger] facts[i]).compromised && subject(
            observations,
            facts[i].fact_id@,
        ) == Some(e)
}

/// The entity is compromised by a case: someone has said so of the case, whatever
/// state it is in.
pub open spec fn condemned_by_case(
    cases: Seq<Case>,
    decisions: Seq<Record>,
    outcomes: Seq<Record>,
    e: (EntityKind, Seq<char>),
) -> bool {
    exists|i: int|
        0 <= i < cases.len() && condemned(#[trigger] cases[i], decisions, outcomes) && touches(
            cases[i],
            e,
        )
}

/// The entities that are compromised, by a fact or by a case.
pub fn compromised_entity_set(
    facts: &Vec<FactStanding>,
    observations: &Vec<Observed>,
    cases: &Vec<Case>,
    decisions: &Vec<Record>,
    outcomes: &Vec<Record>,
) -> (r: EntitySet)
    ensures
        forall|e: (EntityKind, Seq<char>)| #[trigger]
            r.holds(e) == (condemned_by_fact(facts@, observations@, e) || condemned_by_case(
                cases@,
                decisions@,
                outcomes@,
                e,
            )),
{
    let mut set = EntitySet::new();
    let mut i: usize = 0;
    while i < facts.len()
        invariant
            i <= facts.len(),
            forall|e: (EntityKind, Seq<char>)| #[trigger]
                set.holds(e) == condemned_by_fact(facts@.take(i as int), observations@, e),
        decreases facts.len() - i,
    {
        let ghost was = set;
        if facts[i].compromised {
            if let Some(e) = subject_of(observations, facts[i].fact_id.as_str()) {
                set.insert(e);
            }
        }
        proof {
            let a = facts@.take(i as int);
            let b = facts@.take(i + 1);
            let f = facts@[i as int];
            assert(b =~= a.push(f));
            assert forall|e: (EntityKind, Seq<char>)| #[trigger]
                set.holds(e) == condemned_by_fact(b, observations@, e) by {
                assert(was.holds(e) == condemned_by_fact(a, observations@, e));
                if condemned_by_fact(a, observations@, e) {
                    let k = choose|k: int|
                        0 <= k < a.len() && (#[trigger] a[k]).compromised && subject(
                            observations@,
                            a[k].fact_id@,
                        ) == Some(e);
                    assert(b[k].compromised && subject(observations@, b[k].fact_id@) == Some(e));
                }
                if f.compromised && subject(observations@, f.fact_id@) == Some(e) {
                    assert(b[i as int].compromised);
                }
                if condemned_by_fact(b, observations@, e) {
                    let k = choose|k: int|
                        0 <= k < b.len() && (#[trigger] b[k]).compromised && subject(
                            observations@,
                            b[k].fact_id@,
                        ) == Some(e);
                    if k < i {
                        assert(a[k].compromised);
                    }
                }
            }
        }
        i += 1;
    }
    assert(facts@.take(i as int) =~= facts@);
    let ghost by_fact = set;
    let mut j: usize = 0;
    while j < cases.len()
        invariant
            j <= cases.len(),
            forall|e: (EntityKind, Seq<char>)| #[trigger]
                by_fact.holds(e) == condemned_by_fact(facts@, observations@, e),
            forall|e: (EntityKind, Seq<char>)| #[trigger]
                set.holds(e) == (by_fact.holds(e) || condemned_by_case(
                    cases@.take(j as int),
                    decisions@,
                    outcomes@,
                    e,
                )),
        decreases cases.len() - j,
    {
        let ghost was = set;
        let c = &cases[j];
        let by_triage = match &c.verdict {
            Some(v) => is_adverse(v.disposition),
            None => false,
        };
        let bad = by_triage || is_found_adverse(decisions, c.id.as_str()) || is_found_adverse(
            outcomes,
            c.id.as_str(),
        );
        if bad {
            insert_all(&mut set, case_entities(c));
        }
        proof {
            let a = cases@.take(j as int);
            let b = cases@.take(j + 1);
            assert(b =~= a.push(*c));
            assert(bad == condemned(*c, decisions@, outcomes@));
            assert forall|e: (EntityKind, Seq<char>)| #[trigger]
                set.holds(e) == (by_fact.holds(e) || condemned_by_case(
                    b,
                    decisions@,
                    outcomes@,
                    e,
                )) by {
                assert(was.holds(e) == (by_fact.holds(e) || condemned_by_case(
                    a,
                    decisions@,
                    outcomes@,
                    e,
                )));
                if condemned_by_case(a, decisions@, outcomes@, e) {
                    let k = choose|k: int|
                        0 <= k < a.len() && condemned(#[trigger] a[k], decisions@, outcomes@)
                            && touches(a[k], e);
                    assert(condemned(b[k], decisions@, outcomes@) && touches(b[k], e));
                }
                if bad && touches(*c, e) {
                    assert(condemned(b[j as int], decisions@, outcomes@) && touches(b[j as int], e));
                }
                if condemned_by_case(b, decisions@, outcomes@, e) {
                    let k = choose|k: int|
                        0 <= k < b.len() && condemned(#[trigger] b[k], decisions@, outcomes@)
                            && touches(b[k], e);
                    if k < j {
                        assert(condemned(a[k], decisions@, outcomes@) && touches(a[k], e));
                    }
                }
            }
        }
        j += 1;
    }
    assert(cases@.take(j as int) =~= cases@);
    set
}

/// Closing a case leaves its entities compromised where they were.
pub proof fn closing_a_case_clears_no_one(
    cases: Seq<Case>,
    i: int,
    closed: Case,
    decisions: Seq<Record>,
    outcomes: Seq<Record>,
    e: (EntityKind, Seq<char>),
)
    requires
        0 <= i < cases.len(),
        closed == (Case { state: CaseState::Closed, ..cases[i] }),
        condemned_by_case(cases, decisions, outcomes, e),
    ensures
        condemned_by_case(cases.update(i, closed), decisions, outcomes, e),
{
    let after = cases.update(i, closed);
    let k = choose|k: int|
        0 <= k < cases.len() && condemned(#[trigger] cases[k], decisions, outcomes) && touches(
            cases[k],
            e,
        );
    assert(condemned(after[k], decisions, outcomes) && touches(after[k], e));
}

/// A decision that speaks against a case condemns its entities, whatever the triage
/// made of it.
pub proof fn people_overrule_the_triage(
    cases: Seq<Case>,
    i: int,
    decisions: Seq<Record>,
    outcomes: Seq<Record>,
    e: (EntityKind, Seq<char>),
)
    requires
        0 <= i < cases.len(),
        found_adverse(decisions, cases[i].id@),
        touches(cases[i], e),
    ensures
        condemned_by_case(cases, decisions, outcomes, e),
{
    assert(condemned(cases[i], decisions, outcomes));
}

/// Why a case is kept out of a dataset.
#[derive(Clone, Copy, Debug, PartialEq, Eq, Structural)]
pub enum ExclusionReason {
    Compromised,
    OpenCase,
}

/// Some entity of the case is in the set.
pub open spec fn meets(c: Case, set: EntitySet) -> bool {
    exists|e: (EntityKind, Seq<char>)| touches(c, e) && #[trigger] set.holds(e)
}

/// Why a case is kept out: because of a compromised entity, or else because of one
/// under investigation.
pub open spec fn exclusion(c: Case, open: EntitySet, compromised: EntitySet) -> Option<
    ExclusionReason,
> {
    if meets(c, compromised) {
        Some(ExclusionReason::Compromised)
    } else if meets(c, open) {
        Some(ExclusionReason::OpenCase)
    } else {
        None
    }
}

fn does_meet(entities: &Vec<EntityRef>, set: &EntitySet) -> (r: bool)
    ensures
        r == exists|e: (EntityKind, Seq<char>)| among(entities@, e) && #[trigger] set.holds(e),
{
    let mut i: usize = 0;
    while i < entities.len()
        invariant
            i <= entities.len(),
            forall|j: int| 0 <= j < i ==> !set.holds((#[trigger] entities@[j])@),
        decreases entities.len() - i,
    {
        if set.contains(&entities[i]) {
            assert(among(entities@, entities@[i as int]@));
            return true;
        }
        i += 1;
    }
    false
}

/// Why a case is kept out of a dataset, if it is.
pub fn exclusion_reason(c: &Case, open: &EntitySet, compromised: &EntitySet) -> (r: Option<
    ExclusionReason,
>)
    ensures
        r == exclusion(*c, *open, *compromised),
{
    let entities = case_entities(c);
    proof {
        assert forall|e: (EntityKind, Seq<char>)| #[trigger] among(entities@, e) == touches(*c, e) by {}
    }
    if does_meet(&entities, compromised) {
        let ghost e = choose|e: (EntityKind, Seq<char>)|
            among(entities@, e) && #[trigger] compromised.holds(e);
        assert(touches(*c, e) && compromised.holds(e));
        Some(ExclusionReason::Compromised)
    } else {
        proof {
            if meets(*c, *compromised) {
                let e = choose|e: (EntityKind, Seq<char>)|
                    touches(*c, e) && #[trigger] compromised.holds(e);
                assert(among(entities@, e) && compromised.holds(e));
            }
        }
        if does_meet(&entities, open) {
            let ghost e = choose|e: (EntityKind, Seq<char>)|
                among(entities@, e) && #[trigger] open.holds(e);
            assert(touches(*c, e) && open.holds(e));
            Some(ExclusionReason::OpenCase)
        } else {
            proof {
                if meets(*c, *open) {
                    let e = choose|e: (EntityKind, Seq<char>)|
                        touches(*c, e) && #[trigger] open.holds(e);
                    assert(among(entities@, e) && open.holds(e));
                }
            }
            None
        }
    }
}

/// The cases that are kept out of a dataset, each with why.
pub open spec fn excluded(
    cases: Seq<Case>,
    open: EntitySet,
    compromised: EntitySet,
) -> Seq<(Seq<char>, ExclusionReason)>
    decreases cases.len(),
{
    if cases.len() == 0 {
        Seq::empty()
    } else {
        let before = excluded(cases.drop_last(), open, compromised);
        match exclusion(cases.last(), open, compromised) {
            Some(why) => before.push((cases.last().id@, why)),
            None => before,
        }
    }
}

/// The cases that are kept out of a dataset, each with why, in their order.
pub fn poisoned_case_reasons(
    cases: &Vec<Case>,
    open: &EntitySet,
    compromised: &EntitySet,
) -> (r: Vec<(String, ExclusionReason)>)
    ensures
        r@.map_values(|p: (String, ExclusionReason)| (p.0@, p.1)) == excluded(
            cases@,
            *open,
            *compromised,
        ),
{
    let mut r: Vec<(String, ExclusionReason)> = Vec::new();
    let mut i: usize = 0;
    let ghost show = |p: (String, ExclusionReason)| (p.0@, p.1);
    assert(r@.map_values(show) =~= excluded(cases@.take(0), *open, *compromised));
    while i < cases.len()
        invariant
            i <= cases.len(),
            show == (|p: (String, ExclusionReason)| (p.0@, p.1)),
            r@.map_values(show) == excluded(cases@.take(i as int), *open, *compromised),
        decreases cases.len() - i,
    {
        let ghost was = r@.map_values(show);
        assert(cases@.take(i + 1).drop_last() =~= cases@.take(i as int));
        if let Some(why) = exclusion_reason(&cases[i], open, compromised) {
            r.push((cases[i].id.clone(), why));
            assert(r@.map_values(show) =~= was.push((cases@[i as int].id@, why)));
        }
        i += 1;
    }
    assert(cases@.take(i as int) =~= cases@);
    r
}

/// The rows that are kept under the name of a fact.
pub open spec fn fact_rows<T>(rows: Seq<(String, T)>, fact: Seq<char>) -> Seq<(String, T)>
    decreases rows.len(),
{
    if rows.len() == 0 {
        rows
    } else {
        let before = fact_rows(rows.drop_last(), fact);
        if rows.last().0@ == fact {
            before.push(rows.last())
        } else {
            before
        }
    }
}

/// The rows of a fact, in their order. Each row comes with the name of its fact.
pub fn rows_of_fact<T>(rows: Vec<(String, T)>, fact: &str) -> (r: Vec<(String, T)>)
    ensures
        r@ == fact_rows(rows@, fact@),
{
    let mut r: Vec<(String, T)> = Vec::new();
    for x in it: rows
        invariant
            it.seq() == rows@,
            r@ == fact_rows(rows@.take(it.index()), fact@),
    {
        assert(rows@.take(it.index() + 1).drop_last() =~= rows@.take(it.index()));
        if same(x.0.as_str(), fact) {
            r.push(x);
        }
    }
    assert(rows@.take(rows@.len() as int) =~= rows@);
    r
}

/// How often a fact was seen.
pub struct Sighting {
    pub fact_id: String,
    pub first_seen_us: i64,
    pub last_seen_us: i64,
    pub observation_count: u64,
    pub per_source_counts: Vec<(String, u64)>,
}

/// How often a source has reported: the first count that names it.
pub open spec fn source_count(counts: Seq<(String, u64)>, source: Seq<char>) -> u64
    decreases counts.len(),
{
    if counts.len() == 0 {
        0
    } else if counts[0].0@ == source {
        counts[0].1
    } else {
        source_count(counts.drop_first(), source)
    }
}

/// No source is counted twice.
pub open spec fn counted_once(counts: Seq<(String, u64)>) -> bool {
    forall|i: int, j: int|
        0 <= i < j < counts.len() ==> (#[trigger] counts[i]).0@ != (#[trigger] counts[j]).0@
}

/// A source is counted.
pub open spec fn is_counted(counts: Seq<(String, u64)>, source: Seq<char>) -> bool {
    exists|i: int| 0 <= i < counts.len() && (#[trigger] counts[i]).0@ == source
}

/// Counts where a source has reported once more: there is one entry more, at the end, where
/// it had none, and otherwise its entry has grown. A source that was counted once still is.
pub open spec fn one_more(
    counts: Seq<(String, u64)>,
    source: Seq<char>,
    r: Seq<(String, u64)>,
) -> bool {
    &&& r.len() == counts.len() + if is_counted(counts, source) {
        0int
    } else {
        1
    }
    &&& forall|i: int| 0 <= i < counts.len() ==> (#[trigger] r[i]).0@ == counts[i].0@
    &&& !is_counted(counts, source) ==> r.last().0@ == source
    &&& counted_once(counts) ==> counted_once(r)
}

fn count_source(counts: Vec<(String, u64)>, source: &str) -> (r: Vec<(String, u64)>)
    requires
        source_count(counts@, source@) < u64::MAX,
    ensures
        one_more(counts@, source@, r@),
        forall|s: Seq<char>| #[trigger]
            source_count(r@, s) == if s == source@ {
                (source_count(counts@, s) + 1) as u64
            } else {
                source_count(counts@, s)
            },
{
    let mut r = counts;
    let mut i: usize = 0;
    assert(r@.skip(0) =~= r@);
    while i < r.len()
        invariant
            i <= r.len(),
            r@ == counts@,
            forall|j: int| 0 <= j < i ==> (#[trigger] r@[j]).0@ != source@,
            source_count(r@, source@) == source_count(r@.skip(i as int), source@),
            source_count(counts@, source@) < u64::MAX,
        decreases r.len() - i,
    {
        assert(r@.skip(i as int)[0] == r@[i as int]);
        assert(r@.skip(i as int).drop_first() =~= r@.skip(i + 1));
        if same(r[i].0.as_str(), source) {
            let name = r[i].0.clone();
            let n = r[i].1 + 1;
            r.set(i, (name, n));
            proof {
                assert forall|s: Seq<char>| #[trigger]
                    source_count(r@, s) == if s == source@ {
                        (source_count(counts@, s) + 1) as u64
                    } else {
                        source_count(counts@, s)
                    } by {
                    counted(counts@, i as int);
                    assert(r@ =~= counts@.update(i as int, (name, n)));
                    recounted(counts@, r@, i as int, s);
                }
                assert(counts@[i as int].0@ == source@);
                assert forall|j: int| 0 <= j < counts@.len() implies (#[trigger] r@[j]).0@
                    == counts@[j].0@ by {}
                assert forall|j: int, k: int|
                    counted_once(counts@) && 0 <= j < k < r@.len() implies (#[trigger] r@[j]).0@
                    != (#[trigger] r@[k]).0@ by {
                    assert(counts@[j].0@ != counts@[k].0@);
                }
            }
            return r;
        }
        i += 1;
    }
    let last = (String::from_str(source), 1u64);
    r.push(last);
    proof {
        assert forall|s: Seq<char>| #[trigger]
            source_count(r@, s) == if s == source@ {
                (source_count(counts@, s) + 1) as u64
            } else {
                source_count(counts@, s)
            } by {
            counted_behind(counts@, last, s);
        }
        assert forall|j: int, k: int|
            counted_once(counts@) && 0 <= j < k < r@.len() implies (#[trigger] r@[j]).0@ != (
        #[trigger] r@[k]).0@ by {
            assert(r@[j] == counts@[j]);
            if k < counts@.len() {
                assert(r@[k] == counts@[k]);
            }
        }
    }
    r
}

proof fn counted(counts: Seq<(String, u64)>, i: int)
    requires
        0 <= i < counts.len(),
        forall|j: int| 0 <= j < i ==> (#[trigger] counts[j]).0@ != counts[i].0@,
    ensures
        source_count(counts, counts[i].0@) == counts[i].1,
    decreases i,
{
    if i > 0 {
        let rest = counts.drop_first();
        assert(forall|j: int| 0 <= j < i - 1 ==> rest[j] == counts[j + 1]);
        counted(rest, i - 1);
    }
}

proof fn recounted(a: Seq<(String, u64)>, b: Seq<(String, u64)>, i: int, s: Seq<char>)
    requires
        0 <= i < a.len(),
        b == a.update(i, b[i]),
        b[i].0@ == a[i].0@,
        forall|j: int| 0 <= j < i ==> (#[trigger] a[j]).0@ != a[i].0@,
    ensures
        source_count(b, s) == if s == a[i].0@ {
            b[i].1
        } else {
            source_count(a, s)
        },
    decreases a.len(),
{
    if i == 0 {
        assert(b.drop_first() =~= a.drop_first());
    } else {
        let ra = a.drop_first();
        let rb = b.drop_first();
        assert(rb =~= ra.update(i - 1, rb[i - 1]));
        assert(forall|j: int| 0 <= j < i ==> ra[j] == a[j + 1]);
        recounted(ra, rb, i - 1, s);
        assert(a[0].0@ != a[i].0@);
    }
}

proof fn counted_behind(a: Seq<(String, u64)>, x: (String, u64), s: Seq<char>)
    requires
        x.1 == 1,
        forall|j: int| 0 <= j < a.len() ==> (#[trigger] a[j]).0@ != x.0@,
    ensures
        source_count(a.push(x), s) == if s == x.0@ {
            1
        } else {
            source_count(a, s)
        },
        source_count(a, x.0@) == 0,
    decreases a.len(),
{
    if a.len() == 0 {
        assert(a.push(x).drop_first() =~= a);
    } else {
        let r = a.drop_first();
        assert(a.push(x).drop_first() =~= r.push(x));
        assert(forall|j: int| 0 <= j < r.len() ==> r[j] == a[j + 1]);
        counted_behind(r, x, s);
        assert(a[0].0@ != x.0@);
    }
}

/// A sighting after one more by a source.
pub open spec fn seen_again(p: Sighting, source: Seq<char>, at_us: i64, r: Sighting) -> bool {
    &&& r.fact_id == p.fact_id
    &&& r.observation_count == if p.observation_count == u64::MAX {
        u64::MAX
    } else {
        (p.observation_count + 1) as u64
    }
    &&& r.last_seen_us == if at_us > p.last_seen_us {
        at_us
    } else {
        p.last_seen_us
    }
    &&& r.first_seen_us == if at_us < p.first_seen_us {
        at_us
    } else {
        p.first_seen_us
    }
    &&& one_more(p.per_source_counts@, source, r.per_source_counts@)
    &&& forall|s: Seq<char>| #[trigger]
        source_count(r.per_source_counts@, s) == if s == source {
            (source_count(p.per_source_counts@, s) + 1) as u64
        } else {
            source_count(p.per_source_counts@, s)
        }
}

/// Counts a sighting of a fact by a source. The times only widen, and only the count
/// of that source grows. No source comes to be counted twice.
pub fn bump_sighting(
    previous: Option<Sighting>,
    fact_id: &str,
    source_id: &str,
    at_us: i64,
) -> (r: Sighting)
    requires
        previous is Some ==> source_count(previous->0.per_source_counts@, source_id@) < u64::MAX,
    ensures
        match previous {
            Some(p) => seen_again(p, source_id@, at_us, r),
            None => {
                &&& r.fact_id@ == fact_id@
                &&& r.observation_count == 1
                &&& r.last_seen_us == at_us
                &&& r.first_seen_us == at_us
                &&& r.per_source_counts@.len() == 1
                &&& forall|s: Seq<char>| #[trigger]
                    source_count(r.per_source_counts@, s) == if s == source_id@ {
                        1u64
                    } else {
                        0
                    }
            },
        },
{
    let p = match previous {
        Some(p) => p,
        None => Sighting {
            fact_id: String::from_str(fact_id),
            first_seen_us: at_us,
            last_seen_us: at_us,
            observation_count: 0,
            per_source_counts: Vec::new(),
        },
    };
    assert(previous is None ==> forall|s: Seq<char>| #[trigger]
        source_count(p.per_source_counts@, s) == 0);
    Sighting {
        fact_id: p.fact_id,
        first_seen_us: if at_us < p.first_seen_us {
            at_us
        } else {
            p.first_seen_us
        },
        last_seen_us: if at_us > p.last_seen_us {
            at_us
        } else {
            p.last_seen_us
        },
        observation_count: if p.observation_count == u64::MAX {
            u64::MAX
        } else {
            p.observation_count + 1
        },
        per_source_counts: count_source(p.per_source_counts, source_id),
    }
}

/// A watermark after it was moved: it never goes back.
pub open spec fn moved(current: Option<i64>, us: i64) -> i64 {
    match current {
        Some(c) => if us > c {
            us
        } else {
            c
        },
        None => us,
    }
}

/// The watermark to store where one is moved; none where it would go back.
pub fn advance_watermark(current: Option<i64>, us: i64) -> (r: Option<i64>)
    ensures
        match r {
            Some(w) => w == us && (current is None || us > current->0),
            None => current is Some && us <= current->0,
        },
        (match r {
            Some(w) => w,
            None => current->0,
        }) == moved(current, us),
{
    let ahead = match current {
        Some(c) => us > c,
        None => true,
    };
    if ahead {
        Some(us)
    } else {
        None
    }
}

/// A watermark never goes back, and moving it again to where it is changes nothing.
pub proof fn watermarks_never_go_back(current: Option<i64>, s: i64, t: i64)
    ensures
        current is Some ==> moved(current, s) >= current->0,
        moved(current, s) >= s,
        moved(Some(moved(current, s)), s) == moved(current, s),
        moved(Some(moved(current, s)), t) == moved(Some(moved(current, t)), s),
{
}

/// A fact of the environment, as far as change windows ask.
pub struct Standing {
    pub kind: EntityKind,
    pub valid_from_us: i64,
    pub valid_to_us: Option<i64>,
}

/// The fact is a change that is under way.
pub open spec fn under_way(f: Standing, now_us: i64) -> bool {
    f.kind == EntityKind::ChangeRecord && f.valid_from_us <= now_us && (f.valid_to_us is None
        || now_us < f.valid_to_us->0)
}

/// Whether a fact is a change that is under way.
pub fn is_change_window(f: &Standing, now_us: i64) -> (r: bool)
    ensures
        r == under_way(*f, now_us),
{
    let open = match f.valid_to_us {
        Some(end) => now_us < end,
        None => true,
    };
    f.kind == EntityKind::ChangeRecord && f.valid_from_us <= now_us && open
}

/// The facts that occur in either of two lists, each once and in order.
pub fn fact_ids(observed: &Vec<String>, moved: &Vec<String>) -> (r: Vec<String>)
    ensures
        names::lists(r@, names::members(observed@).union(names::members(moved@))),
{
    let mut set = NameSet::new();
    set.insert_all(observed);
    set.insert_all(moved);
    proof {
        names::texts_are_members(observed@);
        names::texts_are_members(moved@);
        assert(set@ =~= names::members(observed@).union(names::members(moved@)));
    }
    set.into_list()
}

/// A case touches its host, its address and one account, each where it is named: the account
/// of the database where there is one, whatever the other is.
pub proof fn what_a_case_touches(c: Case, id: Seq<char>)
    ensures
        touches(c, (EntityKind::Host, id)) <==> id.len() > 0 && c.host@ == id,
        touches(c, (EntityKind::Ip, id)) <==> id.len() > 0 && c.src_ip is Some && c.src_ip->0@
            == id,
        c.db_user is Some ==> (touches(c, (EntityKind::Identity, id)) <==> id.len() > 0
            && c.db_user->0@ == id),
        c.db_user is None ==> (touches(c, (EntityKind::Identity, id)) <==> id.len() > 0
            && c.user is Some && c.user->0@ == id),
        !touches(c, (EntityKind::ChangeRecord, id)),
        !touches(c, (EntityKind::Other, id)),
{
}

/// An entity is under investigation as long as one case that touches it is open, in whatever
/// state but the last; closing the only one ends that.
pub proof fn an_entity_is_investigated_while_a_case_is_open(
    before: Seq<Case>,
    c: Case,
    after: Seq<Case>,
    e: (EntityKind, Seq<char>),
)
    requires
        touches(c, e),
    ensures
        c.state is New || c.state is Investigating || c.state is Triaged || c.state is Escalated
            || c.state is NeedsHuman ==> under_investigation(before.push(c) + after, e),
        c.state is Closed ==> (under_investigation(before.push(c) + after, e)
            <==> under_investigation(before, e) || under_investigation(after, e)),
        !under_investigation(Seq::empty(), e),
{
    let all = before.push(c) + after;
    assert(all[before.len() as int] == c);
    if under_investigation(before, e) {
        let k = choose|k: int|
            0 <= k < before.len() && (#[trigger] before[k]).state != CaseState::Closed && touches(
                before[k],
                e,
            );
        assert(all[k] == before[k]);
    }
    if under_investigation(after, e) {
        let k = choose|k: int|
            0 <= k < after.len() && (#[trigger] after[k]).state != CaseState::Closed && touches(
                after[k],
                e,
            );
        assert(all[before.len() + 1 + k] == after[k]);
    }
    if c.state is Closed && under_investigation(all, e) {
        let k = choose|k: int|
            0 <= k < all.len() && (#[trigger] all[k]).state != CaseState::Closed && touches(
                all[k],
                e,
            );
        if k < before.len() {
            assert(before[k] == all[k]);
        } else {
            assert(after[k - before.len() - 1] == all[k]);
        }
    }
}

/// A fact is about the entity of its last observation: what was observed of it before, and
/// what was observed of other facts, does not matter.
pub proof fn a_fact_is_about_its_last_observation(
    observations: Seq<Observed>,
    o: Observed,
    fact: Seq<char>,
)
    ensures
        o.fact_id@ == fact ==> subject(observations.push(o), fact) == Some(o.entity@),
        o.fact_id@ != fact ==> subject(observations.push(o), fact) == subject(observations, fact),
        subject(Seq::empty(), fact) is None,
{
    assert(observations.push(o).drop_last() =~= observations);
}

/// A verdict, a decision or an outcome condemns a case where it calls it malicious or
/// suspicious, and nothing else does.
pub proof fn what_condemns_a_case(c: Case, decisions: Seq<Record>, outcomes: Seq<Record>)
    ensures
        condemned(c, decisions, outcomes) <==> {
            ||| c.verdict is Some && (c.verdict->0.disposition is Malicious
                || c.verdict->0.disposition is Suspicious)
            ||| exists|i: int|
                0 <= i < decisions.len() && (#[trigger] decisions[i]).case_id is Some
                    && decisions[i].case_id->0@ == c.id@ && !(decisions[i].disposition is Benign)
                    && !(decisions[i].disposition is Unknown)
            ||| exists|i: int|
                0 <= i < outcomes.len() && (#[trigger] outcomes[i]).case_id is Some
                    && outcomes[i].case_id->0@ == c.id@ && !(outcomes[i].disposition is Benign)
                    && !(outcomes[i].disposition is Unknown)
        },
{
    if found_adverse(decisions, c.id@) {
        let i = choose|i: int|
            0 <= i < decisions.len() && adverse((#[trigger] decisions[i]).disposition)
                && text::opt_text(decisions[i].case_id) == Some(c.id@);
        assert(decisions[i].case_id is Some);
    }
    if found_adverse(outcomes, c.id@) {
        let i = choose|i: int|
            0 <= i < outcomes.len() && adverse((#[trigger] outcomes[i]).disposition)
                && text::opt_text(outcomes[i].case_id) == Some(c.id@);
        assert(outcomes[i].case_id is Some);
    }
}

/// Only a fact that stands as compromised condemns, and only what it is about.
pub proof fn a_compromised_fact_condemns_its_subject(
    facts: Seq<FactStanding>,
    f: FactStanding,
    observations: Seq<Observed>,
    e: (EntityKind, Seq<char>),
)
    ensures
        condemned_by_fact(facts.push(f), observations, e) <==> condemned_by_fact(
            facts,
            observations,
            e,
        ) || (f.compromised && subject(observations, f.fact_id@) == Some(e)),
        !condemned_by_fact(Seq::empty(), observations, e),
{
    let all = facts.push(f);
    if condemned_by_fact(facts, observations, e) {
        let k = choose|k: int|
            0 <= k < facts.len() && (#[trigger] facts[k]).compromised && subject(
                observations,
                facts[k].fact_id@,
            ) == Some(e);
        assert(all[k] == facts[k]);
    }
    if f.compromised && subject(observations, f.fact_id@) == Some(e) {
        assert(all[facts.len() as int] == f);
    }
    if condemned_by_fact(all, observations, e) {
        let k = choose|k: int|
            0 <= k < all.len() && (#[trigger] all[k]).compromised && subject(
                observations,
                all[k].fact_id@,
            ) == Some(e);
        if k < facts.len() {
            assert(facts[k] == all[k]);
        }
    }
}

/// A case is kept out exactly where one of its entities is in one of the sets, and the
/// compromised ones come first.
pub proof fn a_case_is_kept_out_for_its_entities(c: Case, open: EntitySet, compromised: EntitySet)
    ensures
        exclusion(c, open, compromised) is None <==> forall|e: (EntityKind, Seq<char>)|
            touches(c, e) ==> !#[trigger] open.holds(e) && !compromised.holds(e),
        exclusion(c, open, compromised) == Some(ExclusionReason::Compromised) <==> exists|
            e: (EntityKind, Seq<char>),
        | touches(c, e) && #[trigger] compromised.holds(e),
{
    if exclusion(c, open, compromised) is None {
        assert forall|e: (EntityKind, Seq<char>)| touches(c, e) implies !#[trigger] open.holds(e)
            && !compromised.holds(e) by {}
    }
    if forall|e: (EntityKind, Seq<char>)|
        touches(c, e) ==> !#[trigger] open.holds(e) && !compromised.holds(e) {
        if meets(c, compromised) {
            let e = choose|e: (EntityKind, Seq<char>)|
                touches(c, e) && #[trigger] compromised.holds(e);
            assert(!open.holds(e));
        }
    }
}

/// The cases that are kept out are listed with their reason, all of them and no other.
pub proof fn cases_that_are_kept_out_are_listed(
    cases: Seq<Case>,
    open: EntitySet,
    compromised: EntitySet,
)
    ensures
        excluded(cases, open, compromised) == cases.filter(
            |c: Case| exclusion(c, open, compromised) is Some,
        ).map_values(|c: Case| (c.id@, exclusion(c, open, compromised)->0)),
    decreases cases.len(),
{
    reveal(Seq::filter);
    let out = |c: Case| exclusion(c, open, compromised) is Some;
    let show = |c: Case| (c.id@, exclusion(c, open, compromised)->0);
    if cases.len() > 0 {
        let most = cases.drop_last();
        cases_that_are_kept_out_are_listed(most, open, compromised);
        if exclusion(cases.last(), open, compromised) is Some {
            assert(cases.filter(out) == most.filter(out).push(cases.last()));
            assert(cases.filter(out).map_values(show) =~= most.filter(out).map_values(show).push(
                show(cases.last()),
            ));
        }
    } else {
        assert(cases.filter(out).map_values(show) =~= Seq::empty());
    }
}

/// The rows of a fact are those under its name, in their order.
pub proof fn the_rows_of_a_fact_name_it<T>(rows: Seq<(String, T)>, fact: Seq<char>)
    ensures
        fact_rows(rows, fact) == rows.filter(|x: (String, T)| x.0@ == fact),
    decreases rows.len(),
{
    reveal(Seq::filter);
    if rows.len() > 0 {
        the_rows_of_a_fact_name_it(rows.drop_last(), fact);
    }
}

/// A sighting counts once, widens the times just as far as it lies outside them, and counts
/// for its source alone.
pub proof fn a_sighting_widens_and_counts(p: Sighting, source: Seq<char>, at_us: i64, r: Sighting)
    requires
        seen_again(p, source, at_us, r),
        p.first_seen_us <= p.last_seen_us,
        p.observation_count < u64::MAX,
        source_count(p.per_source_counts@, source) < u64::MAX,
    ensures
        r.fact_id == p.fact_id,
        r.first_seen_us <= at_us && at_us <= r.last_seen_us,
        r.first_seen_us <= p.first_seen_us && p.last_seen_us <= r.last_seen_us,
        p.first_seen_us <= at_us && at_us <= p.last_seen_us ==> (
            r.first_seen_us,
            r.last_seen_us,
        ) == (p.first_seen_us, p.last_seen_us),
        at_us < p.first_seen_us ==> r.first_seen_us == at_us && r.last_seen_us == p.last_seen_us,
        at_us > p.last_seen_us ==> r.last_seen_us == at_us && r.first_seen_us == p.first_seen_us,
        r.observation_count - p.observation_count == 1,
        source_count(r.per_source_counts@, source) - source_count(p.per_source_counts@, source)
            == 1,
        forall|other: Seq<char>|
            other != source ==> #[trigger] source_count(r.per_source_counts@, other)
                == source_count(p.per_source_counts@, other),
{
}

/// A watermark that is moved is where it was or where it was moved to.
pub proof fn a_watermark_is_the_later_of_two(current: i64, us: i64)
    ensures
        moved(Some(current), us) == current || moved(Some(current), us) == us,
        moved(Some(current), us) >= current && moved(Some(current), us) >= us,
        moved(None, us) == us,
{
}

/// A change is under way from the moment that it is valid up to, not at, its end, and for
/// ever where it has none.
pub proof fn a_change_is_under_way_until_its_end(f: Standing, now_us: i64)
    ensures
        now_us < f.valid_from_us ==> !under_way(f, now_us),
        f.valid_to_us is Some && now_us >= f.valid_to_us->0 ==> !under_way(f, now_us),
        !(f.kind is ChangeRecord) ==> !under_way(f, now_us),
        f.kind is ChangeRecord && now_us >= f.valid_from_us && (f.valid_to_us is Some ==> now_us
            < f.valid_to_us->0) ==> under_way(f, now_us),
{
}

} // verus!
