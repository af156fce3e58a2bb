//! Proposals that wait for a person: detection rules and response actions.
//!
//! A proposal is decided once. An action goes from state to state only where it is in
//! the state that the step starts from, and keeps a record of every step.

use crate::order::Dated;
use crate::text::{self, same, starts_with, trim};
use vstd::prelude::*;

verus! {

/// Some key other than the one at `k` begins with the id, at a later place.
pub open spec fn another_match(keys: Seq<String>, id: Seq<char>, k: int) -> bool {
    exists|j: int| k < j < keys.len() && text::starts((#[trigger] keys[j])@, id)
}

/// The place of a key is the first one that begins with the id.
pub open spec fn first_match_at(keys: Seq<String>, id: Seq<char>, k: int) -> bool {
    &&& 0 <= k < keys.len()
    &&& text::starts(keys[k]@, id)
    &&& forall|j: int| 0 <= j < k ==> !text::starts((#[trigger] keys[j])@, id)
}

/// What an id stands for among the keys.
#[derive(Clone, Copy, Debug, PartialEq, Eq, Structural)]
pub enum Lookup {
    /// The id is empty, and stands for nothing.
    Empty,
    /// The key at this place.
    Found(usize),
    Missing,
    /// More than one key begins with it.
    Ambiguous,
}

/// What an id stands for among the keys.
pub open spec fn stands_for(keys: Seq<String>, id: Seq<char>, l: Lookup) -> bool {
    match l {
        Lookup::Empty => text::trimmed(id).len() == 0,
        Lookup::Found(k) => {
            &&& text::trimmed(id).len() > 0
            &&& k < keys.len()
            &&& keys[k as int]@ == id || (!text::listed(keys, id) && first_match_at(
                keys,
                id,
                k as int,
            ) && !another_match(keys, id, k as int))
        },
        Lookup::Missing => text::trimmed(id).len() > 0 && forall|j: int|
            0 <= j < keys.len() ==> !text::starts((#[trigger] keys[j])@, id),
        Lookup::Ambiguous => text::trimmed(id).len() > 0 && !text::listed(keys, id) && exists|
            k: int,
        | #[trigger] first_match_at(keys, id, k) && another_match(keys, id, k),
    }
}

/// What an id stands for among the keys: the key itself, or else the only one that
/// begins with it. An id of white space stands for nothing, though every key begins
/// with the empty text.
pub fn resolve(keys: &Vec<String>, id: &str) -> (r: Lookup)
    ensures
        stands_for(keys@, id@, r),
{
    if text::chars_of(trim(id).as_str()).len() == 0 {
        return Lookup::Empty;
    }
    let mut i: usize = 0;
    while i < keys.len()
        invariant
            i <= keys.len(),
            forall|j: int| 0 <= j < i ==> (#[trigger] keys@[j])@ != id@,
            text::trimmed(id@).len() > 0,
        decreases keys.len() - i,
    {
        if same(keys[i].as_str(), id) {
            return Lookup::Found(i);
        }
        i += 1;
    }
    let mut hit: Option<usize> = None;
    let mut k: usize = 0;
    while k < keys.len()
        invariant
            k <= keys.len(),
            text::trimmed(id@).len() > 0,
            !text::listed(keys@, id@),
            match hit {
                Some(h) => h < k && first_match_at(keys@, id@, h as int) && forall|j: int|
                    h < j < k ==> !text::starts((#[trigger] keys@[j])@, id@),
                None => forall|j: int|
                    0 <= j < k ==> !text::starts((#[trigger] keys@[j])@, id@),
            },
        decreases keys.len() - k,
    {
        if starts_with(keys[k].as_str(), id) {
            match hit {
                Some(h) => {
                    proof {
                        assert(text::starts(keys@[k as int]@, id@));
                        assert(another_match(keys@, id@, h as int));
                        assert(first_match_at(keys@, id@, h as int));
                    }
                    return Lookup::Ambiguous;
                },
                None => {
                    hit = Some(k);
                },
            }
        }
        k += 1;
    }
    match hit {
        Some(h) => Lookup::Found(h),
        None => Lookup::Missing,
    }
}

/// What is reported of an id of an action that cannot be looked up.
pub fn action_lookup_error(l: Lookup, id: &str) -> (r: Option<String>)
    ensures
        text::opt_text(r) == match l {
            Lookup::Empty => Some("empty action id"@),
            Lookup::Ambiguous => Some("multiple actions match the prefix "@ + id@),
            _ => None,
        },
{
    match l {
        Lookup::Empty => Some(String::from_str("empty action id")),
        Lookup::Ambiguous => {
            let mut m = String::from_str("multiple actions match the prefix ");
            m.append(id);
            Some(m)
        },
        _ => None,
    }
}

/// What is reported of an id of a rule proposal that cannot be looked up.
pub fn proposal_lookup_error(l: Lookup, id: &str) -> (r: Option<String>)
    ensures
        text::opt_text(r) == match l {
            Lookup::Empty => Some("empty proposal id"@),
            Lookup::Ambiguous => Some("multiple proposals match the prefix "@ + id@),
            _ => None,
        },
{
    match l {
        Lookup::Empty => Some(String::from_str("empty proposal id")),
        Lookup::Ambiguous => {
            let mut m = String::from_str("multiple proposals match the prefix ");
            m.append(id);
            Some(m)
        },
        _ => None,
    }
}

/// Where a rule proposal stands. A decision goes by its name.
#[derive(Clone, Debug, PartialEq, Eq)]
pub enum ProposalStatus {
    Pending,
    Decided(String),
}

/// A rule proposal, as far as its decision goes.
pub struct RuleProposal {
    pub id: String,
    pub status: ProposalStatus,
    pub created_at_us: i64,
    pub decided_at_us: Option<i64>,
    pub decision_note: Option<String>,
}

impl Dated for RuleProposal {
    open spec fn time(&self) -> i64 {
        self.created_at_us
    }

    fn when(&self) -> (r: i64) {
        self.created_at_us
    }
}

/// A rule proposal after a decision, or why it cannot be decided so.
pub open spec fn decided(
    p: RuleProposal,
    status: ProposalStatus,
    note: Option<String>,
    at_us: i64,
) -> Result<RuleProposal, Seq<char>> {
    match (p.status, status) {
        (_, ProposalStatus::Pending) => Err("a decision cannot be pending"@),
        (ProposalStatus::Decided(d), _) => Err("the proposal is already "@ + d@),
        _ => Ok(RuleProposal { status, decided_at_us: Some(at_us), decision_note: note, ..p }),
    }
}

/// Decides a rule proposal that is pending. One that is decided stays as it is, and a
/// decision cannot leave it pending.
pub fn decide_proposal(
    p: RuleProposal,
    status: ProposalStatus,
    note: Option<String>,
    at_us: i64,
) -> (r: Result<RuleProposal, String>)
    ensures
        match decided(p, status, note, at_us) {
            Ok(x) => r == Ok::<RuleProposal, String>(x),
            Err(e) => r is Err && r->Err_0@ == e,
        },
{
    if let ProposalStatus::Pending = status {
        return Err(String::from_str("a decision cannot be pending"));
    }
    if let ProposalStatus::Decided(d) = &p.status {
        let mut m = String::from_str("the proposal is already ");
        m.append(d.as_str());
        return Err(m);
    }
    Ok(
        RuleProposal {
            id: p.id,
            status,
            created_at_us: p.created_at_us,
            decided_at_us: Some(at_us),
            decision_note: note,
        },
    )
}

/// Where a response action stands.
#[derive(Clone, Copy, Debug, PartialEq, Eq, Structural)]
pub enum ActionState {
    Proposed,
    Approved,
    Denied,
    Executing,
    Executed,
    Failed,
}

/// The name of a state.
pub open spec fn state_text(s: ActionState) -> Seq<char> {
    match s {
        ActionState::Proposed => "Proposed"@,
        ActionState::Approved => "Approved"@,
        ActionState::Denied => "Denied"@,
        ActionState::Executing => "Executing"@,
        ActionState::Executed => "Executed"@,
        ActionState::Failed => "Failed"@,
    }
}

/// The name of a state.
pub fn state_name(s: ActionState) -> (r: &'static str)
    ensures
        r@ == state_text(s),
{
    match s {
        ActionState::Proposed => "Proposed",
        ActionState::Approved => "Approved",
        ActionState::Denied => "Denied",
        ActionState::Executing => "Executing",
        ActionState::Executed => "Executed",
        ActionState::Failed => "Failed",
    }
}

/// A step of an action, as recorded.
#[derive(Clone, Debug, PartialEq, Eq)]
pub struct AuditEvent {
    pub at_us: i64,
    pub actor: String,
    pub detail: String,
}

/// A response action, as far as its states go.
pub struct ActionProposal {
    pub id: String,
    pub state: ActionState,
    pub created_at_us: i64,
    pub decided_at_us: Option<i64>,
    pub executed_at_us: Option<i64>,
    pub result: Option<String>,
    pub audit: Vec<AuditEvent>,
}

impl Dated for ActionProposal {
    open spec fn time(&self) -> i64 {
        self.created_at_us
    }

    fn when(&self) -> (r: i64) {
        self.created_at_us
    }
}

/// What is wrong with a new action in the given state, under an id that is taken or not.
pub open spec fn new_action_error(state: ActionState, taken: bool) -> Option<Seq<char>> {
    if state != ActionState::Proposed {
        Some("new action proposals must be Proposed"@)
    } else if taken {
        Some("action id already exists"@)
    } else {
        None
    }
}

/// Whether a new action may be stored: it is only proposed, and its id is free.
pub fn check_new_action(a: &ActionProposal, taken: bool) -> (r: Result<(), String>)
    ensures
        match new_action_error(a.state, taken) {
            Some(e) => r is Err && r->Err_0@ == e,
            None => r is Ok,
        },
{
    if a.state != ActionState::Proposed {
        return Err(String::from_str("new action proposals must be Proposed"));
    }
    if taken {
        return Err(String::from_str("action id already exists"));
    }
    Ok(())
}

/// The names of states, with commas between them.
pub open spec fn states_text(v: Seq<ActionState>) -> Seq<char>
    decreases v.len(),
{
    if v.len() == 0 {
        Seq::empty()
    } else if v.len() == 1 {
        state_text(v[0])
    } else {
        states_text(v.drop_last()) + ", "@ + state_text(v.last())
    }
}

fn show_states(v: &[ActionState]) -> (r: String)
    ensures
        r@ == states_text(v@),
{
    let mut r = String::new();
    let mut i: usize = 0;
    assert(r@ =~= states_text(v@.take(0)));
    while i < v.len()
        invariant
            i <= v.len(),
            r@ == states_text(v@.take(i as int)),
        decreases v.len() - i,
    {
        assert(v@.take(i + 1).drop_last() =~= v@.take(i as int));
        if i > 0 {
            r.append(", ");
            r.append(state_name(v[i]));
        } else {
            let ghost was = r@;
            assert(was.len() == 0);
            r.append(state_name(v[i]));
            assert(r@ =~= state_text(v@[0]));
        }
        i += 1;
    }
    assert(v@.take(i as int) =~= v@);
    r
}

/// What is reported of a step that starts from another state.
pub open spec fn refused_step(a: ActionProposal, from: Seq<ActionState>) -> Seq<char> {
    "action "@ + a.id@ + " is "@ + state_text(a.state) + ", not ["@ + states_text(from)
        + "] — transition refused"@
}

/// An action after a step: in its new state, with the step in its record, and with
/// the time of a decision or of an execution.
pub open spec fn stepped(
    a: ActionProposal,
    to: ActionState,
    actor: Seq<char>,
    detail: Seq<char>,
    result: Option<String>,
    at_us: i64,
    r: ActionProposal,
) -> bool {
    let n = a.audit@.len() as int;
    &&& r.id == a.id
    &&& r.state == to
    &&& r.created_at_us == a.created_at_us
    &&& r.audit@.len() == n + 1
    &&& r.audit@.take(n) == a.audit@
    &&& r.audit@[n].at_us == at_us
    &&& r.audit@[n].actor@ == actor
    &&& r.audit@[n].detail@ == detail
    &&& r.decided_at_us == if to == ActionState::Approved || to == ActionState::Denied {
        Some(at_us)
    } else {
        a.decided_at_us
    }
    &&& r.executed_at_us == if to == ActionState::Executed || to == ActionState::Failed {
        Some(at_us)
    } else {
        a.executed_at_us
    }
    &&& r.result == if (to == ActionState::Executed || to == ActionState::Failed) && result is Some {
        result
    } else {
        a.result
    }
}

fn is_state_in(v: &[ActionState], s: ActionState) -> (r: bool)
    ensures
        r == v@.contains(s),
{
    let mut i: usize = 0;
    while i < v.len()
        invariant
            i <= v.len(),
            forall|j: int| 0 <= j < i ==> v@[j] != s,
        decreases v.len() - i,
    {
        if v[i] == s {
            return true;
        }
        i += 1;
    }
    false
}

/// Takes an action from one of the states `from` to the state `to`. An action in
/// another state stays as it is.
pub fn transition_action(
    a: ActionProposal,
    from: &[ActionState],
    to: ActionState,
    actor: &str,
    detail: &str,
    result: Option<String>,
    at_us: i64,
) -> (r: Result<ActionProposal, String>)
    ensures
        match r {
            Ok(x) => from@.contains(a.state) && stepped(
                a,
                to,
                actor@,
                detail@,
                result,
                at_us,
                x,
            ),
            Err(e) => !from@.contains(a.state) && e@ == refused_step(a, from@),
        },
{
    if !is_state_in(from, a.state) {
        let mut m = String::from_str("action ");
        m.append(a.id.as_str());
        m.append(" is ");
        m.append(state_name(a.state));
        m.append(", not [");
        m.append(show_states(from).as_str());
        m.append("] — transition refused");
        return Err(m);
    }
    let mut x = a;
    x.state = to;
    x.audit.push(
        AuditEvent {
            at_us,
            actor: String::from_str(actor),
            detail: String::from_str(detail),
        },
    );
    assert(x.audit@.take(a.audit@.len() as int) =~= a.audit@);
    match to {
        ActionState::Approved => {
            x.decided_at_us = Some(at_us);
        },
        ActionState::Denied => {
            x.decided_at_us = Some(at_us);
        },
        ActionState::Executed => {
            x.executed_at_us = Some(at_us);
            if result.is_some() {
                x.result = result;
            }
        },
        ActionState::Failed => {
            x.executed_at_us = Some(at_us);
            if result.is_some() {
                x.result = result;
            }
        },
        ActionState::Proposed => {},
        ActionState::Executing => {},
    }
    Ok(x)
}

/// Of two steps that start from the same states, the second is refused where the
/// first left them.
pub proof fn one_of_two_racing_steps_wins(
    a: ActionProposal,
    from: Seq<ActionState>,
    to: ActionState,
    actor: Seq<char>,
    detail: Seq<char>,
    result: Option<String>,
    at_us: i64,
    r: ActionProposal,
)
    requires
        from.contains(a.state),
        !from.contains(to),
        stepped(a, to, actor, detail, result, at_us, r),
    ensures
        !from.contains(r.state),
{
}

/// The record of an action only grows.
pub proof fn steps_are_never_forgotten(
    a: ActionProposal,
    to: ActionState,
    actor: Seq<char>,
    detail: Seq<char>,
    result: Option<String>,
    at_us: i64,
    r: ActionProposal,
    i: int,
)
    requires
        stepped(a, to, actor, detail, result, at_us, r),
        0 <= i < a.audit@.len(),
    ensures
        r.audit@[i] == a.audit@[i],
{
    assert(r.audit@.take(a.audit@.len() as int)[i] == a.audit@[i]);
}

/// The actions in a state.
pub open spec fn in_state(actions: Seq<ActionProposal>, s: ActionState) -> Seq<ActionProposal>
    decreases actions.len(),
{
    if actions.len() == 0 {
        actions
    } else {
        let before = in_state(actions.drop_last(), s);
        if actions.last().state == s {
            before.push(actions.last())
        } else {
            before
        }
    }
}

/// The actions in a state, the newest in front.
pub fn actions_in_state(actions: Vec<ActionProposal>, s: ActionState) -> (r: Vec<ActionProposal>)
    ensures
        r@ == in_state(crate::order::descending(actions@), s),
{
    let listed = crate::order::newest_first(actions);
    let mut r: Vec<ActionProposal> = Vec::new();
    for a in it: listed
        invariant
            it.seq() == listed@,
            r@ == in_state(listed@.take(it.index()), s),
    {
        assert(listed@.take(it.index() + 1).drop_last() =~= listed@.take(it.index()));
        if a.state == s {
            r.push(a);
        }
    }
    assert(listed@.take(listed@.len() as int) =~= listed@);
    r
}

/// An id that is a key stands for that key, however many others begin with it. One that is
/// no key stands for a key where it is the only one that begins with it, and two that do
/// make it ambiguous.
pub proof fn an_id_stands_for_one_key(keys: Seq<String>, id: Seq<char>, l: Lookup)
    requires
        stands_for(keys, id, l),
        text::trimmed(id).len() > 0,
    ensures
        text::listed(keys, id) ==> l is Found && keys[l->Found_0 as int]@ == id,
        l matches Lookup::Found(k) ==> k < keys.len() && text::starts(keys[k as int]@, id) && (
        !text::listed(keys, id) ==> forall|j: int|
            0 <= j < keys.len() && j != k ==> !text::starts((#[trigger] keys[j])@, id)),
        l is Missing <==> forall|j: int|
            0 <= j < keys.len() ==> !text::starts((#[trigger] keys[j])@, id),
        l is Ambiguous ==> exists|i: int, j: int|
            0 <= i < j < keys.len() && text::starts((#[trigger] keys[i])@, id) && text::starts(
                (#[trigger] keys[j])@,
                id,
            ),
        !(l is Empty),
{
    assert(id.take(id.len() as int) =~= id);
    assert(text::starts(id, id));
    if text::listed(keys, id) {
        let i = choose|i: int| 0 <= i < keys.len() && (#[trigger] keys[i])@ == id;
        assert(text::starts(keys[i]@, id));
    }
    if l is Ambiguous {
        let k = choose|k: int| #[trigger] first_match_at(keys, id, k) && another_match(keys, id, k);
        let j = choose|j: int| k < j < keys.len() && text::starts((#[trigger] keys[j])@, id);
        assert(text::starts(keys[k]@, id) && text::starts(keys[j]@, id));
    }
    if let Lookup::Found(k) = l {
        if !text::listed(keys, id) {
            assert forall|j: int| 0 <= j < keys.len() && j != k implies !text::starts(
                (#[trigger] keys[j])@,
                id,
            ) by {}
        }
        assert(text::starts(keys[k as int]@, id));
    }
}

/// A proposal is decided once: where it is pending, and a decision is given. A second
/// decision is refused, whatever it is.
pub proof fn a_proposal_is_decided_once(
    p: RuleProposal,
    status: ProposalStatus,
    note: Option<String>,
    at_us: i64,
    again: ProposalStatus,
    other: Option<String>,
    later_us: i64,
)
    ensures
        decided(p, status, note, at_us) is Ok <==> p.status is Pending && status is Decided,
        decided(p, status, note, at_us) matches Ok(r) ==> {
            &&& r.status == status
            &&& r.decided_at_us == Some(at_us)
            &&& r.decision_note == note
            &&& (r.id, r.created_at_us) == (p.id, p.created_at_us)
            &&& decided(r, again, other, later_us) is Err
        },
{
}

/// A step takes the action to the state asked for and notes who took it, when and why. Only
/// a decision sets the time of the decision, and only the end of an execution its time and
/// its result.
pub proof fn a_step_is_noted(
    a: ActionProposal,
    to: ActionState,
    actor: Seq<char>,
    detail: Seq<char>,
    result: Option<String>,
    at_us: i64,
    r: ActionProposal,
)
    requires
        stepped(a, to, actor, detail, result, at_us, r),
    ensures
        r.state == to,
        r.id == a.id,
        r.created_at_us == a.created_at_us,
        r.audit@.len() == a.audit@.len() + 1,
        r.audit@.last().at_us == at_us,
        r.audit@.last().actor@ == actor,
        r.audit@.last().detail@ == detail,
        to is Approved || to is Denied ==> r.decided_at_us == Some(at_us) && r.executed_at_us
            == a.executed_at_us && r.result == a.result,
        to is Executed || to is Failed ==> r.executed_at_us == Some(at_us) && r.decided_at_us
            == a.decided_at_us,
        (to is Executed || to is Failed) && result is Some ==> r.result == result,
        to is Proposed || to is Executing ==> (r.decided_at_us, r.executed_at_us, r.result) == (
            a.decided_at_us,
            a.executed_at_us,
            a.result,
        ),
        result is None ==> r.result == a.result,
{
}

/// The actions in a state are those that are in it, in their order.
pub proof fn a_listing_holds_the_actions_of_a_state(actions: Seq<ActionProposal>, s: ActionState)
    ensures
        in_state(actions, s) == actions.filter(|a: ActionProposal| a.state == s),
    decreases actions.len(),
{
    reveal(Seq::filter);
    if actions.len() > 0 {
        a_listing_holds_the_actions_of_a_state(actions.drop_last(), s);
    }
}

/// States are named one by one, with a comma between each two.
pub proof fn states_are_named_one_by_one(v: Seq<ActionState>)
    ensures
        states_text(v) == text::joined(v.map_values(|s: ActionState| state_text(s)), ", "@),
    decreases v.len(),
{
    let names = v.map_values(|s: ActionState| state_text(s));
    if v.len() > 1 {
        states_are_named_one_by_one(v.drop_last());
        assert(names.drop_last() =~= v.drop_last().map_values(|s: ActionState| state_text(s)));
    }
}

/// A new action is stored only where it is proposed and its id is free: no action comes into
/// the store approved, and none takes the place of another.
pub proof fn a_new_action_is_only_proposed(state: ActionState, taken: bool)
    ensures
        new_action_error(state, taken) is None <==> state is Proposed && !taken,
{
}

} // verus!
