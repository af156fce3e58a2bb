//! Which alerts leave as notifications.
//!
//! A silence, which a person approves, suppresses every notification that it matches
//! for a bounded time. The throttle, which is automatic, drops further notifications
//! of a rule for a while after one was delivered, but never an escalation. Where the
//! silences cannot be read the notification goes out.

use crate::clock::{self, show};
use crate::order::{oldest_first, Dated};
use crate::text::{self, has_control, same, trim};
use vstd::prelude::*;

verus! {

/// The longest silence, in milliseconds: a week.
pub const MAX_SILENCE_MS: i64 = 604_800_000;

/// The longest silence, in hours.
pub const MAX_SILENCE_HOURS: u64 = 168;

/// The longest name of a rule or a host, in bytes.
pub const MAX_RULE_BYTES: usize = 256;

/// The longest reason, in bytes.
pub const MAX_REASON_BYTES: usize = 1024;

/// The most silences that may be in force.
pub const MAX_ACTIVE_SILENCES: usize = 1000;

/// An approved silence.
#[derive(Clone, Debug, PartialEq, Eq)]
pub struct Silence {
    pub rule: String,
    /// The host that it is limited to, if any.
    pub host: Option<String>,
    /// The first moment at which it is over.
    pub until_us: i64,
    pub reason: String,
    pub created_us: i64,
    /// Notifications that it has suppressed.
    pub hits: u64,
}

impl Silence {
    /// The silence applies to a rule on a host.
    pub open spec fn covers(&self, rule: Seq<char>, host: Seq<char>) -> bool {
        self.rule@ == rule && match self.host {
            Some(h) => h@ == host,
            None => true,
        }
    }

    /// Whether the silence applies to a rule on a host.
    pub fn matches(&self, rule: &str, host: &str) -> (r: bool)
        ensures
            r == self.covers(rule@, host@),
    {
        same(self.rule.as_str(), rule) && match &self.host {
            Some(h) => same(h.as_str(), host),
            None => true,
        }
    }

    /// A copy of the silence.
    pub fn copied(&self) -> (r: Silence)
        ensures
            r == *self,
    {
        Silence {
            rule: self.rule.clone(),
            host: match &self.host {
                Some(h) => Some(h.clone()),
                None => None,
            },
            until_us: self.until_us,
            reason: self.reason.clone(),
            created_us: self.created_us,
            hits: self.hits,
        }
    }
}

impl Dated for Silence {
    open spec fn time(&self) -> i64 {
        self.until_us
    }

    fn when(&self) -> (r: i64) {
        self.until_us
    }
}

/// What becomes of a notification.
#[derive(Clone, Debug, PartialEq, Eq)]
pub enum Decision {
    /// Deliver it.
    Send,
    /// This silence suppresses it.
    Silenced(Silence),
    /// Another of the rule was delivered too recently.
    Throttled,
}

/// What is recorded of a notification that did not go out.
pub open spec fn description(d: Decision) -> Option<Seq<char>> {
    match d {
        Decision::Send => None,
        Decision::Silenced(s) => Some(
            "notification suppressed: silence on rule "@ + s.rule@ + match s.host {
                Some(h) => " host "@ + h@,
                None => Seq::empty(),
            } + " until "@ + clock::shown(s.until_us, clock::minute_form()) + if s.reason@.len()
                == 0 {
                Seq::empty()
            } else {
                " ("@ + s.reason@ + ")"@
            },
        ),
        Decision::Throttled => Some(
            "notification suppressed: within the per-rule throttle window"@,
        ),
    }
}

impl Decision {
    pub fn is_send(&self) -> (r: bool)
        ensures
            r == (*self is Send),
    {
        match self {
            Decision::Send => true,
            _ => false,
        }
    }

    /// What is recorded of a notification that did not go out.
    pub fn describe(&self) -> (r: Option<String>)
        ensures
            text::opt_text(r) == description(*self),
    {
        match self {
            Decision::Send => None,
            Decision::Silenced(s) => {
                let mut scope = String::new();
                if let Some(h) = &s.host {
                    scope.append(" host ");
                    scope.append(h.as_str());
                    assert(scope@ =~= " host "@ + h@);
                } else {
                    assert(scope@ =~= Seq::<char>::empty());
                }
                let mut why = String::new();
                if text::chars_of(s.reason.as_str()).len() > 0 {
                    why.append(" (");
                    why.append(s.reason.as_str());
                    why.append(")");
                    assert(why@ =~= " ("@ + s.reason@ + ")"@);
                } else {
                    assert(why@ =~= Seq::<char>::empty());
                }
                let mut m = String::from_str("notification suppressed: silence on rule ");
                m.append(s.rule.as_str());
                m.append(scope.as_str());
                m.append(" until ");
                m.append(show(s.until_us, "%Y-%m-%d %H:%M UTC").as_str());
                m.append(why.as_str());
                Some(m)
            },
            Decision::Throttled => Some(
                String::from_str("notification suppressed: within the per-rule throttle window"),
            ),
        }
    }
}

/// The first silence that applies to a rule on a host.
pub open spec fn first_match(silences: Seq<Silence>, rule: Seq<char>, host: Seq<char>) -> Option<
    Silence,
>
    decreases silences.len(),
{
    if silences.len() == 0 {
        None
    } else if silences[0].covers(rule, host) {
        Some(silences[0])
    } else {
        first_match(silences.drop_first(), rule, host)
    }
}

/// The time since `then`, where neither side of the clock's range is left.
pub open spec fn elapsed(now: i64, then: i64) -> int {
    let d = now - then;
    if d > i64::MAX {
        i64::MAX as int
    } else if d < i64::MIN {
        i64::MIN as int
    } else {
        d
    }
}

/// What becomes of a notification. `silences` is absent where they cannot be read,
/// and `sent` where no notification of the rule was delivered.
pub open spec fn decision(
    silences: Option<Seq<Silence>>,
    throttle_secs: i64,
    sent: Option<i64>,
    rule: Seq<char>,
    host: Seq<char>,
    escalate: bool,
    now_secs: i64,
) -> Decision {
    let silenced = match silences {
        Some(s) => first_match(s, rule, host),
        None => None,
    };
    match silenced {
        Some(s) => Decision::Silenced(s),
        None => if throttle_secs > 0 && !escalate && sent is Some && elapsed(now_secs, sent->0)
            < throttle_secs {
            Decision::Throttled
        } else {
            Decision::Send
        },
    }
}

/// When a notification of `other` was last delivered, once one of `rule` was at `now_secs`.
/// Without a throttle nothing is noted.
pub open spec fn noted(
    throttle_secs: i64,
    before: Option<i64>,
    rule: Seq<char>,
    now_secs: i64,
    other: Seq<char>,
) -> Option<i64> {
    if other == rule && throttle_secs > 0 {
        Some(now_secs)
    } else {
        before
    }
}

/// The rules of which a notification was delivered, with when that was.
pub struct AlertRouter {
    throttle_secs: i64,
    last_sent: Vec<(String, i64)>,
}

impl AlertRouter {
    #[verifier::type_invariant]
    spec fn bounded(self) -> bool {
        &&& self.throttle_secs >= 0
        &&& forall|i: int, j: int|
            0 <= i < j < self.last_sent@.len() ==> (#[trigger] self.last_sent@[i]).0@ != (
            #[trigger] self.last_sent@[j]).0@
    }

    /// How long the throttle lasts; it is off where this is zero.
    pub closed spec fn throttle(&self) -> i64 {
        self.throttle_secs
    }

    /// When a notification of the rule was last delivered.
    pub closed spec fn sent_at(&self, rule: Seq<char>) -> Option<i64> {
        if exists|i: int| 0 <= i < self.last_sent@.len() && (#[trigger] self.last_sent@[i]).0@ == rule {
            Some(
                self.last_sent@[choose|i: int|
                    0 <= i < self.last_sent@.len() && (#[trigger] self.last_sent@[i]).0@
                        == rule].1,
            )
        } else {
            None
        }
    }

    /// A router with the given throttle, in seconds.
    pub fn new(throttle_secs: u64) -> (r: AlertRouter)
        ensures
            r.throttle() == if throttle_secs > i64::MAX {
                i64::MAX as int
            } else {
                throttle_secs as int
            },
            forall|rule: Seq<char>| (#[trigger] r.sent_at(rule)) is None,
    {
        let throttle_secs: i64 = if throttle_secs > i64::MAX as u64 {
            i64::MAX
        } else {
            throttle_secs as i64
        };
        AlertRouter { throttle_secs, last_sent: Vec::new() }
    }

    fn last(&self, rule: &str) -> (r: Option<i64>)
        ensures
            r == self.sent_at(rule@),
    {
        proof {
            use_type_invariant(self);
        }
        let mut i: usize = 0;
        while i < self.last_sent.len()
            invariant
                i <= self.last_sent.len(),
                self.bounded(),
                forall|j: int| 0 <= j < i ==> (#[trigger] self.last_sent@[j]).0@ != rule@,
            decreases self.last_sent.len() - i,
        {
            if same(self.last_sent[i].0.as_str(), rule) {
                assert(self.last_sent@[i as int].0@ == rule@);
                return Some(self.last_sent[i].1);
            }
            i += 1;
        }
        None
    }

    /// What becomes of a notification. That it may go out does not start the
    /// throttle: only a delivery does.
    pub fn decide(
        &self,
        silences: Option<&Vec<Silence>>,
        rule: &str,
        host: &str,
        escalate: bool,
        now_secs: i64,
    ) -> (r: Decision)
        ensures
            r == decision(
                match silences {
                    Some(s) => Some(s@),
                    None => None,
                },
                self.throttle(),
                self.sent_at(rule@),
                rule@,
                host@,
                escalate,
                now_secs,
            ),
    {
        if let Some(s) = silences {
            let mut i: usize = 0;
            assert(s@.skip(0) =~= s@);
            while i < s.len()
                invariant
                    i <= s.len(),
                    silences == Some(s),
                    first_match(s@, rule@, host@) == first_match(s@.skip(i as int), rule@, host@),
                decreases s.len() - i,
            {
                assert(s@.skip(i as int)[0] == s@[i as int]);
                assert(s@.skip(i as int).drop_first() =~= s@.skip(i + 1));
                if s[i].matches(rule, host) {
                    return Decision::Silenced(s[i].copied());
                }
                i += 1;
            }
        }
        if self.throttle_secs > 0 && !escalate {
            if let Some(t) = self.last(rule) {
                let d: i128 = now_secs as i128 - t as i128;
                if d < self.throttle_secs as i128 {
                    return Decision::Throttled;
                }
            }
        }
        Decision::Send
    }

    /// Starts the throttle of a rule, after a notification of it was delivered.
    pub fn record_sent(&mut self, rule: &str, now_secs: i64)
        ensures
            final(self).throttle() == old(self).throttle(),
            forall|other: Seq<char>| #[trigger]
                final(self).sent_at(other) == noted(
                    old(self).throttle(),
                    old(self).sent_at(other),
                    rule@,
                    now_secs,
                    other,
                ),
    {
        proof {
            use_type_invariant(&*self);
        }
        if self.throttle_secs <= 0 {
            return;
        }
        let throttle_secs = self.throttle_secs;
        let mut whole = AlertRouter::new(0);
        std::mem::swap(self, &mut whole);
        proof {
            use_type_invariant(&whole);
        }
        let ghost before = whole;
        let AlertRouter { throttle_secs: _, last_sent: list } = whole;
        let mut out: Vec<(String, i64)> = Vec::new();
        let mut i: usize = 0;
        while i < list.len()
            invariant
                i <= list.len(),
                list@ == before.last_sent@,
                before.bounded(),
                forall|k: int| 0 <= k < out@.len() ==> (#[trigger] out@[k]).0@ != rule@,
                forall|k: int|
                    0 <= k < out@.len() ==> exists|j: int|
                        0 <= j < i && (#[trigger] list@[j]).0@ == (#[trigger] out@[k]).0@ && list@[j].1
                            == out@[k].1,
                forall|j: int|
                    0 <= j < i && (#[trigger] list@[j]).0@ != rule@ ==> exists|k: int|
                        0 <= k < out@.len() && (#[trigger] out@[k]).0@ == list@[j].0@ && out@[k].1
                            == list@[j].1,
                forall|k: int, l: int|
                    0 <= k < l < out@.len() ==> (#[trigger] out@[k]).0@ != (#[trigger] out@[l]).0@,
            decreases list.len() - i,
        {
            let ghost was = out@;
            if !same(list[i].0.as_str(), rule) {
                let entry = (list[i].0.clone(), list[i].1);
                out.push(entry);
                proof {
                    assert(out@[was.len() as int].0@ == list@[i as int].0@);
                    assert forall|j: int| 0 <= j < i + 1 && (#[trigger] list@[j]).0@ != rule@ implies exists|
                        k: int,
                    |
                        0 <= k < out@.len() && (#[trigger] out@[k]).0@ == list@[j].0@ && out@[k].1
                            == list@[j].1 by {
                        if j < i {
                            let k = choose|k: int|
                                0 <= k < was.len() && (#[trigger] was[k]).0@ == list@[j].0@
                                    && was[k].1 == list@[j].1;
                            assert(out@[k] == was[k]);
                        } else {
                            assert(out@[was.len() as int].1 == list@[j].1);
                        }
                    }
                    assert forall|k: int, l: int| 0 <= k < l < out@.len() implies (
                    #[trigger] out@[k]).0@ != (#[trigger] out@[l]).0@ by {
                        if l == was.len() {
                            assert(out@[k] == was[k]);
                            let j = choose|j: int|
                                0 <= j < i && (#[trigger] list@[j]).0@ == was[k].0@ && list@[j].1
                                    == was[k].1;
                            assert(list@[j].0@ != list@[i as int].0@);
                        }
                    }
                }
            }
            i += 1;
        }
        let ghost rest = out@;
        out.push((String::from_str(rule), now_secs));
        *self = AlertRouter { throttle_secs, last_sent: out };
        proof {
            let now_list = self.last_sent@;
            assert(now_list[rest.len() as int].0@ == rule@);
            assert forall|other: Seq<char>| #[trigger]
                self.sent_at(other) == if other == rule@ {
                    Some(now_secs)
                } else {
                    before.sent_at(other)
                } by {
                if other != rule@ {
                    if before.sent_at(other) is Some {
                        let j = choose|j: int|
                            0 <= j < list@.len() && (#[trigger] list@[j]).0@ == other;
                        let k = choose|k: int|
                            0 <= k < rest.len() && (#[trigger] rest[k]).0@ == list@[j].0@
                                && rest[k].1 == list@[j].1;
                        assert(now_list[k] == rest[k]);
                    } else if self.sent_at(other) is Some {
                        let k = choose|k: int|
                            0 <= k < now_list.len() && (#[trigger] now_list[k]).0@ == other;
                        assert(now_list[k] == rest[k]);
                        let j = choose|j: int|
                            0 <= j < list@.len() && (#[trigger] list@[j]).0@ == rest[k].0@
                                && list@[j].1 == rest[k].1;
                        assert(list@[j].0@ == other);
                    }
                }
            }
        }
    }
}

/// The throttle drops no escalation: only a silence suppresses one.
pub proof fn escalations_are_not_throttled(
    silences: Option<Seq<Silence>>,
    throttle_secs: i64,
    sent: Option<i64>,
    rule: Seq<char>,
    host: Seq<char>,
    now_secs: i64,
)
    ensures
        !(decision(silences, throttle_secs, sent, rule, host, true, now_secs) is Throttled),
{
}

/// Where the silences cannot be read, none suppresses anything.
pub proof fn unreadable_silences_suppress_nothing(
    throttle_secs: i64,
    sent: Option<i64>,
    rule: Seq<char>,
    host: Seq<char>,
    escalate: bool,
    now_secs: i64,
)
    ensures
        !(decision(None, throttle_secs, sent, rule, host, escalate, now_secs) is Silenced),
        decision(None, throttle_secs, sent, rule, host, true, now_secs) is Send,
{
}

/// A silence that applies wins over the throttle, and over escalation.
pub proof fn silences_win(
    silences: Seq<Silence>,
    i: int,
    throttle_secs: i64,
    sent: Option<i64>,
    rule: Seq<char>,
    host: Seq<char>,
    escalate: bool,
    now_secs: i64,
)
    requires
        0 <= i < silences.len(),
        silences[i].covers(rule, host),
    ensures
        decision(Some(silences), throttle_secs, sent, rule, host, escalate, now_secs) is Silenced,
{
    a_match_is_found(silences, i, rule, host);
}

proof fn a_match_is_found(silences: Seq<Silence>, i: int, rule: Seq<char>, host: Seq<char>)
    requires
        0 <= i < silences.len(),
        silences[i].covers(rule, host),
    ensures
        first_match(silences, rule, host) is Some,
    decreases silences.len(),
{
    if !silences[0].covers(rule, host) {
        a_match_is_found(silences.drop_first(), i - 1, rule, host);
    }
}

/// A notification is suppressed by a silence of its own rule, for every host or for its
/// own, and of several by the first. One that is throttled no silence of its rule and host
/// suppresses, it is no escalation, and one of the rule was delivered less than the throttle
/// before. Every other goes out.
pub proof fn what_becomes_of_a_notification(
    silences: Seq<Silence>,
    throttle_secs: i64,
    sent: Option<i64>,
    rule: Seq<char>,
    host: Seq<char>,
    escalate: bool,
    now_secs: i64,
)
    ensures
        match decision(Some(silences), throttle_secs, sent, rule, host, escalate, now_secs) {
            Decision::Silenced(s) => {
                &&& s.rule@ == rule
                &&& s.host is Some ==> s.host->0@ == host
                &&& exists|i: int|
                    0 <= i < silences.len() && #[trigger] silences[i] == s && forall|j: int|
                        0 <= j < i && (#[trigger] silences[j]).rule@ == rule ==> silences[j].host
                            is Some && silences[j].host->0@ != host
            },
            Decision::Throttled => {
                &&& forall|i: int|
                    0 <= i < silences.len() && (#[trigger] silences[i]).rule@ == rule
                        ==> silences[i].host is Some && silences[i].host->0@ != host
                &&& !escalate
                &&& sent is Some
                &&& now_secs - sent->0 < throttle_secs
                &&& throttle_secs > 0
            },
            Decision::Send => {
                &&& forall|i: int|
                    0 <= i < silences.len() && (#[trigger] silences[i]).rule@ == rule
                        ==> silences[i].host is Some && silences[i].host->0@ != host
                &&& escalate || sent is None || throttle_secs <= 0 || now_secs - sent->0
                    >= throttle_secs
            },
        },
{
    the_first_match_is_one(silences, rule, host);
}

proof fn the_first_match_is_one(silences: Seq<Silence>, rule: Seq<char>, host: Seq<char>)
    ensures
        match first_match(silences, rule, host) {
            Some(s) => {
                &&& s.rule@ == rule
                &&& s.host is Some ==> s.host->0@ == host
                &&& exists|i: int|
                    0 <= i < silences.len() && #[trigger] silences[i] == s && forall|j: int|
                        0 <= j < i && (#[trigger] silences[j]).rule@ == rule ==> silences[j].host
                            is Some && silences[j].host->0@ != host
            },
            None => forall|i: int|
                0 <= i < silences.len() && (#[trigger] silences[i]).rule@ == rule
                    ==> silences[i].host is Some && silences[i].host->0@ != host,
        },
    decreases silences.len(),
{
    if silences.len() > 0 && !silences[0].covers(rule, host) {
        let rest = silences.drop_first();
        the_first_match_is_one(rest, rule, host);
        match first_match(silences, rule, host) {
            Some(s) => {
                let k = choose|k: int|
                    0 <= k < rest.len() && #[trigger] rest[k] == s && forall|j: int|
                        0 <= j < k && (#[trigger] rest[j]).rule@ == rule ==> rest[j].host is Some
                            && rest[j].host->0@ != host;
                assert(silences[k + 1] == s);
                assert forall|j: int| 0 <= j < k + 1 && (#[trigger] silences[j]).rule@
                    == rule implies silences[j].host is Some && silences[j].host->0@ != host by {
                    if j > 0 {
                        assert(rest[j - 1] == silences[j]);
                    }
                }
            },
            None => {
                assert forall|i: int|
                    0 <= i < silences.len() && (#[trigger] silences[i]).rule@
                        == rule implies silences[i].host is Some && silences[i].host->0@
                    != host by {
                    if i > 0 {
                        assert(rest[i - 1] == silences[i]);
                    }
                }
            },
        }
    } else if silences.len() > 0 {
        assert(silences[0].rule@ == rule);
    }
}

/// Silences of other rules change nothing: they may stand anywhere in the list.
pub proof fn silences_of_other_rules_change_nothing(
    before: Seq<Silence>,
    other: Silence,
    after: Seq<Silence>,
    throttle_secs: i64,
    sent: Option<i64>,
    rule: Seq<char>,
    host: Seq<char>,
    escalate: bool,
    now_secs: i64,
)
    requires
        other.rule@ != rule || (other.host is Some && other.host->0@ != host),
    ensures
        decision(
            Some(before.push(other) + after),
            throttle_secs,
            sent,
            rule,
            host,
            escalate,
            now_secs,
        ) == decision(
            Some(before + after),
            throttle_secs,
            sent,
            rule,
            host,
            escalate,
            now_secs,
        ),
{
    a_silence_beside_is_passed_over(before, other, after, rule, host);
}

proof fn a_silence_beside_is_passed_over(
    before: Seq<Silence>,
    other: Silence,
    after: Seq<Silence>,
    rule: Seq<char>,
    host: Seq<char>,
)
    requires
        other.rule@ != rule || (other.host is Some && other.host->0@ != host),
    ensures
        first_match(before.push(other) + after, rule, host) == first_match(
            before + after,
            rule,
            host,
        ),
    decreases before.len(),
{
    let with = before.push(other) + after;
    let without = before + after;
    if before.len() == 0 {
        assert(with[0] == other);
        assert(with.drop_first() =~= after);
        assert(without =~= after);
    } else {
        let rest = before.drop_first();
        a_silence_beside_is_passed_over(rest, other, after, rule, host);
        assert(with[0] == before[0]);
        assert(without[0] == before[0]);
        assert(with.drop_first() =~= rest.push(other) + after);
        assert(without.drop_first() =~= rest + after);
    }
}

/// A delivery starts the throttle of its rule: for so many seconds the next notification of
/// the rule is dropped unless it is an escalation, then it goes out. Another rule is treated
/// as before.
pub proof fn a_delivery_starts_the_throttle(
    throttle_secs: i64,
    before: Option<i64>,
    rule: Seq<char>,
    sent_secs: i64,
    other: Seq<char>,
    host: Seq<char>,
    escalate: bool,
    now_secs: i64,
)
    requires
        throttle_secs > 0,
    ensures
        decision(
            None,
            throttle_secs,
            noted(throttle_secs, before, rule, sent_secs, rule),
            rule,
            host,
            escalate,
            now_secs,
        ) == if escalate || now_secs >= sent_secs + throttle_secs {
            Decision::Send
        } else {
            Decision::Throttled
        },
        other != rule ==> decision(
            None,
            throttle_secs,
            noted(throttle_secs, before, rule, sent_secs, other),
            other,
            host,
            escalate,
            now_secs,
        ) == decision(None, throttle_secs, before, other, host, escalate, now_secs),
{
}

/// How long a silence is asked to last.
#[derive(Clone, Copy, Debug, PartialEq, Eq, Structural)]
pub enum Length {
    /// Clear the silence.
    Zero,
    Millis(i64),
    /// Not a number, or outside what a silence may last.
    Invalid,
}

/// A request for a silence, checked.
pub struct Request {
    pub rule: String,
    pub host: Option<String>,
    pub length: Length,
    pub reason: String,
}

/// A host that is named: trimmed, and not empty.
pub open spec fn named_host(host: Option<Seq<char>>) -> Option<Seq<char>> {
    match host {
        Some(h) => if text::trimmed(h).len() == 0 {
            None
        } else {
            Some(text::trimmed(h))
        },
        None => None,
    }
}

/// The first thing that is wrong with a request.
pub open spec fn request_error(
    rule: Seq<char>,
    host: Option<Seq<char>>,
    length: Length,
    reason: Seq<char>,
) -> Option<Seq<char>> {
    let rule = text::trimmed(rule);
    let reason = text::trimmed(reason);
    if rule.len() == 0 {
        Some("silence: rule must not be empty"@)
    } else if text::size(rule) > MAX_RULE_BYTES {
        Some("silence: rule exceeds 256 bytes"@)
    } else if text::controls(rule) {
        Some("silence: rule contains control characters"@)
    } else if !in_range(length) {
        Some("silence: hours must be 0..=168 (0 clears)"@)
    } else if text::size(reason) > MAX_REASON_BYTES {
        Some("silence: reason exceeds 1024 bytes"@)
    } else if text::controls(reason) {
        Some("silence: reason contains control characters"@)
    } else {
        match named_host(host) {
            Some(h) => if text::size(h) > MAX_RULE_BYTES || text::controls(h) {
                Some("silence: invalid host"@)
            } else {
                None
            },
            None => None,
        }
    }
}

/// A length that a silence may have.
pub open spec fn in_range(length: Length) -> bool {
    match length {
        Length::Zero => true,
        Length::Millis(ms) => 0 <= ms <= MAX_SILENCE_MS,
        Length::Invalid => false,
    }
}

/// Checks a request. What is stored is what was approved, without the white space
/// around it.
pub fn check_request(rule: &str, host: Option<&str>, length: Length, reason: &str) -> (r: Result<
    Request,
    String,
>)
    ensures
        ({
            let h = match host {
                Some(h) => Some(h@),
                None => None,
            };
            match request_error(rule@, h, length, reason@) {
                Some(e) => r is Err && r->Err_0@ == e,
                None => {
                    &&& r is Ok
                    &&& r->Ok_0.rule@ == text::trimmed(rule@)
                    &&& text::opt_text(r->Ok_0.host) == named_host(h)
                    &&& r->Ok_0.length == length
                    &&& r->Ok_0.reason@ == text::trimmed(reason@)
                },
            }
        }),
{
    let rule = trim(rule);
    if text::chars_of(rule.as_str()).len() == 0 {
        return Err(String::from_str("silence: rule must not be empty"));
    }
    if rule.as_str().as_bytes().len() > MAX_RULE_BYTES {
        return Err(String::from_str("silence: rule exceeds 256 bytes"));
    }
    if has_control(rule.as_str()) {
        return Err(String::from_str("silence: rule contains control characters"));
    }
    let ranged = match length {
        Length::Zero => true,
        Length::Millis(ms) => 0 <= ms && ms <= MAX_SILENCE_MS,
        Length::Invalid => false,
    };
    if !ranged {
        return Err(String::from_str("silence: hours must be 0..=168 (0 clears)"));
    }
    let reason = trim(reason);
    if reason.as_str().as_bytes().len() > MAX_REASON_BYTES {
        return Err(String::from_str("silence: reason exceeds 1024 bytes"));
    }
    if has_control(reason.as_str()) {
        return Err(String::from_str("silence: reason contains control characters"));
    }
    let host: Option<String> = match host {
        Some(h) => {
            let h = trim(h);
            if text::chars_of(h.as_str()).len() == 0 {
                None
            } else {
                Some(h)
            }
        },
        None => None,
    };
    if let Some(h) = &host {
        if h.as_str().as_bytes().len() > MAX_RULE_BYTES || has_control(h.as_str()) {
            return Err(String::from_str("silence: invalid host"));
        }
    }
    Ok(Request { rule, host, length, reason })
}

/// What a request changes.
pub struct SilenceChange {
    /// The silence that is in force now; none where it was cleared.
    pub set: Option<Silence>,
    /// The silence that the rule had before.
    pub replaced: Option<Silence>,
}

/// The hits and the beginning of a silence pass to the one that replaces it.
pub open spec fn carried(previous: Option<Silence>, s: Silence) -> Silence {
    match previous {
        Some(p) => Silence { hits: p.hits, created_us: p.created_us, ..s },
        None => s,
    }
}

/// The silence to store in place of another: it takes over the hits and the beginning.
pub fn put_silence(previous: Option<&Silence>, s: Silence) -> (r: Silence)
    ensures
        r == carried(
            match previous {
                Some(p) => Some(*p),
                None => None,
            },
            s,
        ),
{
    let mut s = s;
    if let Some(p) = previous {
        s.hits = p.hits;
        s.created_us = p.created_us;
    }
    s
}

/// What is reported where a clear names another scope than the silence has.
pub open spec fn scope_message(rule: Seq<char>, stored: Option<Seq<char>>) -> Seq<char> {
    "silence: rule "@ + rule + " is silenced with scope "@ + match stored {
        Some(h) => h,
        None => "all hosts"@,
    } + " — clear it without --host, or with the matching scope"@
}

/// A clear names a host, and the silence is not limited to that host.
pub open spec fn scope_differs(request: Request, existing: Option<Silence>) -> bool {
    request.host is Some && existing is Some && text::opt_text(existing->0.host) != text::opt_text(
        request.host,
    )
}

/// The silence that a request asks for.
pub open spec fn asked(request: Request, now_us: i64) -> Silence {
    Silence {
        rule: request.rule,
        host: request.host,
        until_us: (now_us + request.length->Millis_0 * 1000) as i64,
        reason: request.reason,
        created_us: now_us,
        hits: 0,
    }
}

/// What a checked request changes, or why it is refused.
pub open spec fn change(
    request: Request,
    existing: Option<Silence>,
    active: usize,
    now_us: i64,
) -> Result<SilenceChange, Seq<char>> {
    match request.length {
        Length::Zero => if scope_differs(request, existing) {
            Err(scope_message(request.rule@, text::opt_text(existing->0.host)))
        } else {
            Ok(SilenceChange { set: None, replaced: existing })
        },
        _ => if existing is None && active >= MAX_ACTIVE_SILENCES {
            Err("silence: more than 1000 active silences — clear some first"@)
        } else {
            Ok(
                SilenceChange {
                    set: Some(carried(existing, asked(request, now_us))),
                    replaced: existing,
                },
            )
        },
    }
}

/// Applies a checked request to the silence that its rule has, if any, where `active`
/// silences are in force. A clear must name the scope that the silence has, or none.
/// A new silence needs room; one that replaces another does not.
pub fn set_silence(request: Request, existing: Option<Silence>, active: usize, now_us: i64) -> (r:
    Result<SilenceChange, String>)
    requires
        in_range(request.length),
        request.length is Millis ==> now_us + request.length->Millis_0 * 1000 <= i64::MAX,
    ensures
        match change(request, existing, active, now_us) {
            Ok(c) => r == Ok::<SilenceChange, String>(c),
            Err(e) => r is Err && r->Err_0@ == e,
        },
{
    let ms: i64 = match request.length {
        Length::Millis(ms) => ms,
        _ => {
            let differs = match (&request.host, &existing) {
                (Some(want), Some(current)) => match &current.host {
                    Some(h) => !same(h.as_str(), want.as_str()),
                    None => true,
                },
                _ => false,
            };
            if differs {
                if let Some(current) = &existing {
                    let mut m = String::from_str("silence: rule ");
                    m.append(request.rule.as_str());
                    m.append(" is silenced with scope ");
                    m.append(
                        match &current.host {
                            Some(h) => h.as_str(),
                            None => "all hosts",
                        },
                    );
                    m.append(" — clear it without --host, or with the matching scope");
                    return Err(m);
                }
            }
            return Ok(SilenceChange { set: None, replaced: existing });
        },
    };
    if existing.is_none() && active >= MAX_ACTIVE_SILENCES {
        return Err(
            String::from_str("silence: more than 1000 active silences — clear some first"),
        );
    }
    let s = Silence {
        rule: request.rule,
        host: request.host,
        until_us: now_us + ms * 1000,
        reason: request.reason,
        created_us: now_us,
        hits: 0,
    };
    let set = match &existing {
        Some(p) => put_silence(Some(p), s),
        None => s,
    };
    Ok(SilenceChange { set: Some(set), replaced: existing })
}

/// A silence ends within a week of the request.
pub proof fn silences_end_within_a_week(request: Request, existing: Option<Silence>, now_us: i64)
    requires
        request.length is Millis,
        in_range(request.length),
        now_us + request.length->Millis_0 * 1000 <= i64::MAX,
    ensures
        carried(existing, asked(request, now_us)).until_us - now_us <= 7 * 24 * 3_600_000_000int,
{
}

/// A request is refused for one of two reasons: it clears a silence and names a host that
/// the silence is not limited to, or it asks for a silence on a rule that has none while a
/// thousand are in force.
pub proof fn a_request_is_refused_for_scope_or_room(
    request: Request,
    existing: Option<Silence>,
    active: usize,
    now_us: i64,
)
    ensures
        change(request, existing, active, now_us) is Err <==> {
            ||| request.length is Zero && request.host is Some && existing is Some && (
            existing->0.host is None || existing->0.host->0@ != request.host->0@)
            ||| !(request.length is Zero) && existing is None && active >= 1000
        },
{
}

/// A silence that is set is the one that was asked for: it silences the rule of the request,
/// on its host if it names one, from now until its length has passed, and counts on where
/// the rule had a silence before. A clear leaves none, so that the rule's notifications go
/// out again.
pub proof fn a_silence_is_the_one_asked_for(
    request: Request,
    existing: Option<Silence>,
    active: usize,
    now_us: i64,
    host: Seq<char>,
    throttle_secs: i64,
    sent: Option<i64>,
    escalate: bool,
    now_secs: i64,
)
    requires
        change(request, existing, active, now_us) is Ok,
        !(request.length is Invalid),
        request.length is Millis ==> 0 <= request.length->Millis_0 && now_us
            + request.length->Millis_0 * 1000 <= i64::MAX,
    ensures
        ({
            let c = change(request, existing, active, now_us)->Ok_0;
            &&& c.replaced == existing
            &&& c.set is Some <==> request.length is Millis
            &&& c.set is Some ==> {
                let s = c.set->0;
                &&& s.rule == request.rule
                &&& s.host == request.host
                &&& s.reason == request.reason
                &&& s.until_us == now_us + 1000 * request.length->Millis_0
                &&& existing is None ==> s.hits == 0 && s.created_us == now_us
                &&& existing is Some ==> s.hits == existing->0.hits && s.created_us
                    == existing->0.created_us
                &&& decision(
                    Some(seq![s]),
                    throttle_secs,
                    sent,
                    request.rule@,
                    host,
                    escalate,
                    now_secs,
                ) is Silenced <==> request.host is None || request.host->0@ == host
                &&& in_force(
                    SilenceRow { rule: request.rule, silence: Some(s) },
                    now_us,
                ) <==> request.length->Millis_0 > 0
            }
        }),
{
    let c = change(request, existing, active, now_us)->Ok_0;
    if c.set is Some {
        let one = seq![c.set->0];
        assert(one[0] == c.set->0);
        assert(one.drop_first() =~= Seq::<Silence>::empty());
        assert(first_match(one.drop_first(), request.rule@, host) is None);
    }
}

/// Replacing a silence loses none of its hits, and not when it began.
pub proof fn replacing_keeps_the_record(previous: Silence, s: Silence)
    ensures
        carried(Some(previous), s).hits == previous.hits,
        carried(Some(previous), s).created_us == previous.created_us,
        carried(Some(previous), s).until_us == s.until_us,
{
}

/// A stored silence: its key, and what it reads as where it can be read.
pub struct SilenceRow {
    pub rule: String,
    pub silence: Option<Silence>,
}

/// The silence is in force.
pub open spec fn in_force(row: SilenceRow, now_us: i64) -> bool {
    row.silence is Some && row.silence->0.until_us > now_us
}

/// The silences in force, as they are stored.
pub open spec fn live(rows: Seq<SilenceRow>, now_us: i64) -> Seq<Silence>
    decreases rows.len(),
{
    if rows.len() == 0 {
        Seq::empty()
    } else {
        let before = live(rows.drop_last(), now_us);
        if in_force(rows.last(), now_us) {
            before.push(rows.last().silence->0)
        } else {
            before
        }
    }
}

/// The keys of the rows that can be removed.
pub open spec fn over(rows: Seq<SilenceRow>, now_us: i64) -> Seq<Seq<char>>
    decreases rows.len(),
{
    if rows.len() == 0 {
        Seq::empty()
    } else {
        let before = over(rows.drop_last(), now_us);
        if in_force(rows.last(), now_us) {
            before
        } else {
            before.push(rows.last().rule@)
        }
    }
}

/// The silences in force, the one that ends first in front, and the keys of the rows
/// that can be removed: those that are over, and those that cannot be read.
pub fn active_silences(rows: &Vec<SilenceRow>, now_us: i64) -> (r: (Vec<Silence>, Vec<String>))
    ensures
        r.0@ == crate::order::ascending(live(rows@, now_us)),
        text::texts(r.1@) == over(rows@, now_us),
{
    let mut keep: Vec<Silence> = Vec::new();
    let mut gone: Vec<String> = Vec::new();
    let mut i: usize = 0;
    assert(text::texts(gone@) =~= over(rows@.take(0), now_us));
    while i < rows.len()
        invariant
            i <= rows.len(),
            keep@ == live(rows@.take(i as int), now_us),
            text::texts(gone@) == over(rows@.take(i as int), now_us),
        decreases rows.len() - i,
    {
        let ghost was = text::texts(gone@);
        assert(rows@.take(i + 1).drop_last() =~= rows@.take(i as int));
        match &rows[i].silence {
            Some(s) => {
                if s.until_us > now_us {
                    keep.push(s.copied());
                } else {
                    gone.push(rows[i].rule.clone());
                    assert(text::texts(gone@) =~= was.push(rows@[i as int].rule@));
                }
            },
            None => {
                gone.push(rows[i].rule.clone());
                assert(text::texts(gone@) =~= was.push(rows@[i as int].rule@));
            },
        }
        i += 1;
    }
    assert(rows@.take(i as int) =~= rows@);
    (oldest_first(keep), gone)
}

/// What stands in a row now is over, or cannot be read.
pub open spec fn is_over(current: Option<Silence>, now_us: i64) -> bool {
    match current {
        Some(s) => s.until_us <= now_us,
        None => true,
    }
}

/// A row may be removed exactly where the silence in it is not in force any more.
pub proof fn no_silence_in_force_is_removed(row: SilenceRow, now_us: i64)
    ensures
        is_over(row.silence, now_us) <==> !in_force(row, now_us),
        row.silence matches Some(s) ==> (is_over(row.silence, now_us) <==> now_us >= s.until_us),
{
}

/// Whether a row that was found to be over still is. It may have been replaced
/// meanwhile.
pub fn still_over(current: Option<&Silence>, now_us: i64) -> (r: bool)
    ensures
        r == is_over(
            match current {
                Some(s) => Some(*s),
                None => None,
            },
            now_us,
        ),
{
    match current {
        Some(s) => s.until_us <= now_us,
        None => true,
    }
}

/// A silence is in force exactly while its end lies ahead: the silences in force are those
/// of the rows that can be read and end later than now, and every other row can go. No row
/// is both or neither.
pub proof fn silences_are_in_force_until_they_end(rows: Seq<SilenceRow>, now_us: i64)
    ensures
        forall|i: int|
            0 <= i < rows.len() && (#[trigger] rows[i]).silence is Some
                && rows[i].silence->0.until_us > now_us ==> live(rows, now_us).contains(
                rows[i].silence->0,
            ),
        forall|s: Silence| #[trigger]
            live(rows, now_us).contains(s) ==> s.until_us > now_us && exists|i: int|
                0 <= i < rows.len() && (#[trigger] rows[i]).silence == Some(s),
        forall|i: int|
            0 <= i < rows.len() && ((#[trigger] rows[i]).silence is None
                || rows[i].silence->0.until_us <= now_us) ==> over(rows, now_us).contains(
                rows[i].rule@,
            ),
        forall|k: Seq<char>| #[trigger]
            over(rows, now_us).contains(k) ==> exists|i: int|
                0 <= i < rows.len() && (#[trigger] rows[i]).rule@ == k && (rows[i].silence is None
                    || rows[i].silence->0.until_us <= now_us),
        live(rows, now_us).len() + over(rows, now_us).len() == rows.len(),
    decreases rows.len(),
{
    if rows.len() > 0 {
        let most = rows.drop_last();
        let n = rows.len() - 1;
        silences_are_in_force_until_they_end(most, now_us);
        let (l, m) = (live(rows, now_us), live(most, now_us));
        let (o, p) = (over(rows, now_us), over(most, now_us));
        if in_force(rows.last(), now_us) {
            assert(l[m.len() as int] == rows.last().silence->0);
        } else {
            assert(o[p.len() as int] == rows.last().rule@);
        }
        assert forall|i: int|
            0 <= i < rows.len() && (#[trigger] rows[i]).silence is Some
                && rows[i].silence->0.until_us > now_us implies l.contains(
            rows[i].silence->0,
        ) by {
            if i < n {
                assert(most[i] == rows[i]);
                let k = choose|k: int| 0 <= k < m.len() && m[k] == rows[i].silence->0;
                assert(l[k] == m[k]);
            }
        }
        assert forall|s: Silence| #[trigger] l.contains(s) implies s.until_us > now_us && exists|
            i: int,
        |
            0 <= i < rows.len() && (#[trigger] rows[i]).silence == Some(s) by {
            let k = choose|k: int| 0 <= k < l.len() && l[k] == s;
            if k < m.len() {
                assert(m[k] == s);
                assert(m.contains(s));
                let i = choose|i: int| 0 <= i < most.len() && (#[trigger] most[i]).silence == Some(s);
                assert(rows[i] == most[i]);
            } else {
                assert(rows[n].silence == Some(s));
            }
        }
        assert forall|i: int|
            0 <= i < rows.len() && ((#[trigger] rows[i]).silence is None
                || rows[i].silence->0.until_us <= now_us) implies o.contains(rows[i].rule@) by {
            if i < n {
                assert(most[i] == rows[i]);
                let k = choose|k: int| 0 <= k < p.len() && p[k] == rows[i].rule@;
                assert(o[k] == p[k]);
            }
        }
        assert forall|k: Seq<char>| #[trigger] o.contains(k) implies exists|i: int|
            0 <= i < rows.len() && (#[trigger] rows[i]).rule@ == k && (rows[i].silence is None
                || rows[i].silence->0.until_us <= now_us) by {
            let j = choose|j: int| 0 <= j < o.len() && o[j] == k;
            if j < p.len() {
                assert(p[j] == k);
                assert(p.contains(k));
                let i = choose|i: int|
                    0 <= i < most.len() && (#[trigger] most[i]).rule@ == k && (most[i].silence
                        is None || most[i].silence->0.until_us <= now_us);
                assert(rows[i] == most[i]);
            } else {
                assert(rows[n].rule@ == k);
            }
        }
    }
}

/// A request passes exactly where, without the white space around them, its rule is not
/// empty and has at most 256 bytes, its reason has at most 1024, its host, if it names one,
/// has at most 256, none of them holds a control character, and its length is a week at
/// most.
pub proof fn a_request_passes_within_the_limits(
    rule: Seq<char>,
    host: Option<Seq<char>>,
    length: Length,
    reason: Seq<char>,
)
    ensures
        request_error(rule, host, length, reason) is None <==> {
            &&& 0 < text::trimmed(rule).len()
            &&& text::size(text::trimmed(rule)) <= 256
            &&& forall|i: int|
                0 <= i < text::trimmed(rule).len() ==> !text::is_control(
                    #[trigger] text::trimmed(rule)[i],
                )
            &&& length is Zero || (length is Millis && 0 <= length->Millis_0
                && length->Millis_0 <= 7 * 24 * 3_600_000)
            &&& text::size(text::trimmed(reason)) <= 1024
            &&& forall|i: int|
                0 <= i < text::trimmed(reason).len() ==> !text::is_control(
                    #[trigger] text::trimmed(reason)[i],
                )
            &&& host is Some ==> {
                &&& text::size(text::trimmed(host->0)) <= 256
                &&& forall|i: int|
                    0 <= i < text::trimmed(host->0).len() ==> !text::is_control(
                        #[trigger] text::trimmed(host->0)[i],
                    )
            }
        },
{
}

/// Counts a suppressed notification.
pub fn bump_silence_hits(s: Silence) -> (r: Silence)
    requires
        s.hits < u64::MAX,
    ensures
        r == (Silence { hits: (s.hits + 1) as u64, ..s }),
{
    let mut s = s;
    s.hits = s.hits + 1;
    s
}

} // verus!
