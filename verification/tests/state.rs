use std::collections::BTreeMap;

use garmr::archive::ColdArchive;
use garmr::state::cases::{
    apply_sla_breaches, bump_event_count, link_cases, list_cases, matches_search, put_case,
    search_cases, touched, Case, CaseState, Disposition, SlaConfig, SlaStatus, Stored,
    TranscriptEntry, Verdict,
};
use garmr::state::cold::{
    list_cold_archives, list_cold_deletions, mark_hot_pruned, set_legal_hold, ColdDeletion,
};
use garmr::state::environment::{
    advance_watermark, bump_sighting, case_entities, compromised_entity_set, fact_ids,
    is_change_window, open_case_entity_set, poisoned_case_reasons, rows_of_fact, EntityKind,
    EntityRef, ExclusionReason, FactStanding, Observed, Sighting, Standing,
};
use garmr::state::ledger::{
    budget_add, budget_settle, budget_try_reserve, BudgetReservation,
};
use garmr::state::memory::{
    findings_for_entity, get_or_init, list_newest_first, note_template, put_dataset,
    DatasetPutOutcome, Entry as Listed,
};
use garmr::state::records::{
    case_history, case_limited, case_view, case_view_cap, content_key, record_key,
    records_for_case, scan_limited, scan_tolerant, scope_range, show_nanos, Record,
};
use garmr::state::registry::{
    esc, list_kind, promo_key, promotions_for, rec_key, records_for_name, register_record, Entry,
    RegisterOutcome,
};
use garmr::state::review::{
    action_lookup_error, actions_in_state, check_new_action, decide_proposal,
    proposal_lookup_error, resolve, transition_action, ActionProposal, ActionState, Lookup,
    ProposalStatus, RuleProposal,
};

const NOW: i64 = 1_755_000_000_000_000;
const MINUTE: i64 = 60_000_000;

fn mk_case(id: &str) -> Case {
    Case {
        id: id.into(),
        state: CaseState::New,
        opened_at_us: NOW,
        updated_at_us: NOW,
        state_changed_at_us: None,
        event_count: 1,
        assignee: None,
        tags: vec![],
        linked_cases: vec![],
        transcript: vec![],
        rule_id: "garmr-test-rule".into(),
        host: "h".into(),
        src_ip: None,
        db_user: None,
        user: None,
        verdict: None,
    }
}

fn copy(c: &Case) -> Case {
    Case {
        id: c.id.clone(),
        state: c.state,
        opened_at_us: c.opened_at_us,
        updated_at_us: c.updated_at_us,
        state_changed_at_us: c.state_changed_at_us,
        event_count: c.event_count,
        assignee: c.assignee.clone(),
        tags: c.tags.clone(),
        linked_cases: c.linked_cases.clone(),
        transcript: c.transcript.clone(),
        rule_id: c.rule_id.clone(),
        host: c.host.clone(),
        src_ip: c.src_ip.clone(),
        db_user: c.db_user.clone(),
        user: c.user.clone(),
        verdict: c.verdict.clone(),
    }
}

/// Stored cases, by id.
#[derive(Default)]
struct Cases {
    rows: BTreeMap<String, Case>,
}

impl Cases {
    fn put(&mut self, c: Case, now_us: i64) {
        let stored = match self.rows.remove(&c.id) {
            Some(s) => Stored::Case(s),
            None => Stored::Nothing,
        };
        let id = c.id.clone();
        self.rows.insert(id, put_case(stored, c, now_us));
    }

    fn all(&self) -> Vec<Case> {
        self.rows.values().map(copy).collect()
    }
}

fn note(at_us: i64, actor: &str, detail: &str, entry_id: &str) -> TranscriptEntry {
    TranscriptEntry {
        at_us,
        actor: actor.into(),
        detail: detail.into(),
        entry_id: entry_id.into(),
    }
}

#[test]
fn a_stale_agent_snapshot_cannot_clobber_analyst_state() {
    let mut st = Cases::default();
    st.put(mk_case("c-race"), NOW);
    let stale_snapshot = mk_case("c-race");

    let mut c = st.rows.remove("c-race").unwrap();
    c.assignee = Some("alice".into());
    c.tags.push("escalation".into());
    c.transcript.push(note(NOW + 5, "analyst:alice", "looking into this", "note-1"));
    st.rows.insert("c-race".into(), touched(c, NOW + 5));

    let mut finished = stale_snapshot;
    finished.transcript.push(note(NOW + 9, "assistant", "triage verdict text", ""));
    finished.transcript.push(note(NOW + 2, "assistant", "earlier", ""));
    st.put(finished, NOW + 9);

    let after = &st.rows["c-race"];
    assert_eq!(after.assignee.as_deref(), Some("alice"), "assignment survives");
    assert!(after.tags.contains(&"escalation".to_string()), "tag survives");
    assert!(after.transcript.iter().any(|e| e.entry_id == "note-1"));
    assert!(after.transcript.iter().any(|e| e.actor == "assistant"));
    let times: Vec<i64> = after.transcript.iter().map(|e| e.at_us - NOW).collect();
    assert_eq!(times, [2, 5, 9]);

    let mut c = st.rows.remove("c-race").unwrap();
    c.assignee = None;
    st.rows.insert("c-race".into(), touched(c, NOW + 10));
    assert_eq!(st.rows["c-race"].assignee, None, "explicit unassign works");
}

#[test]
fn a_merge_keeps_what_both_sides_have() {
    let mut stored = mk_case("c");
    stored.event_count = 7;
    stored.tags = vec!["a".into(), "b".into(), "a".into()];
    stored.linked_cases = vec!["x".into()];
    stored.transcript = vec![note(9, "p", "kept", "n1"), note(1, "agent", "dropped", "")];
    let mut c = mk_case("c");
    c.event_count = 3;
    c.assignee = Some("bob".into());
    c.tags = vec!["b".into(), "c".into()];
    c.transcript = vec![note(20, "agent", "late", ""), note(10, "agent", "early", "")];
    let r = put_case(Stored::Case(stored), c, NOW);
    assert_eq!(r.event_count, 7);
    assert_eq!(r.assignee.as_deref(), Some("bob"));
    assert_eq!(r.tags, ["b", "c", "a"]);
    assert_eq!(r.linked_cases, ["x"]);
    let details: Vec<&str> = r.transcript.iter().map(|e| e.detail.as_str()).collect();
    assert_eq!(details, ["kept", "early", "late"]);
    // Nothing is missing: the order of the entries stays.
    let mut c = mk_case("c");
    c.transcript = vec![note(20, "agent", "late", ""), note(10, "agent", "early", "")];
    let r = put_case(Stored::Case(mk_case("c")), c, NOW);
    assert_eq!(r.transcript[0].at_us, 20);
    // A stored row that is no case is replaced as it is.
    let r = put_case(Stored::Unreadable, mk_case("c"), NOW);
    assert_eq!(r.state_changed_at_us, None);
}

#[test]
fn state_changed_at_moves_only_when_the_state_actually_changes() {
    let mut st = Cases::default();
    let mut case = mk_case("c-sla");
    st.put(copy(&case), NOW);
    let t0 = st.rows["c-sla"].state_changed_at_us.expect("anchored on first write");
    assert_eq!(t0, case.opened_at_us);

    case.event_count += 1;
    st.put(copy(&case), NOW + 1);
    let t1 = st.rows["c-sla"].state_changed_at_us.unwrap();
    assert_eq!(t0, t1, "a same-state rewrite must not reset the SLA clock");

    case.state = CaseState::Investigating;
    st.put(copy(&case), NOW + 2);
    let t2 = st.rows["c-sla"].state_changed_at_us.unwrap();
    assert!(t2 > t1, "a state change moves the anchor");
}

#[test]
fn linking_is_bidirectional_and_atomic() {
    let mut st = Cases::default();
    st.put(mk_case("c-a"), NOW);
    st.put(mk_case("c-b"), NOW);
    let mut link = |a: &str, b: &str| -> bool {
        match link_cases(st.rows.get(a).map(copy), st.rows.get(b).map(copy), NOW + 1) {
            Some((x, y)) => {
                st.rows.insert(a.into(), x);
                st.rows.insert(b.into(), y);
                true
            }
            None => false,
        }
    };
    assert!(link("c-a", "c-b"));
    assert!(!link("c-a", "c-b"));
    assert!(!link("c-a", "c-a"));
    assert!(!link("c-a", "c-missing"));
    assert!(st.rows["c-a"].linked_cases.contains(&"c-b".to_string()));
    assert!(st.rows["c-b"].linked_cases.contains(&"c-a".to_string()));
    assert_eq!(st.rows["c-a"].updated_at_us, NOW + 1);
}

#[test]
fn one_tick_marks_a_breach_exactly_once_and_the_next_adds_nothing() {
    let mut c = mk_case("c-sla-tick");
    c.state = CaseState::NeedsHuman;
    c.opened_at_us = NOW - 500 * MINUTE;
    c.state_changed_at_us = Some(NOW - 500 * MINUTE);
    let cfg = SlaConfig { ack_minutes: 60, resolve_minutes: 240 };
    let status = vec![Some(SlaStatus { ack_breached: true, resolve_breached: true })];

    let mut first = apply_sla_breaches(vec![c], &status, cfg, NOW, NOW + 1);
    assert_eq!(first.len(), 1, "one newly-breached case");
    let (after, passed) = first.remove(0);
    assert!(passed.ack_breached && passed.resolve_breached);
    assert!(after.tags.contains(&"sla:ack".to_string()));
    assert!(after.tags.contains(&"sla:resolve".to_string()));
    assert_eq!(after.transcript.iter().filter(|e| e.actor == "sla").count(), 2);
    assert_eq!(
        after.transcript[0].detail,
        "ack SLA breached — unassigned in the human queue past 60 min"
    );
    assert_eq!(after.transcript[1].detail, "resolve SLA breached — open past 240 min");
    assert_eq!(after.transcript[0].entry_id, "sla:ack:c-sla-tick");
    assert_eq!(after.transcript[1].entry_id, "sla:resolve:c-sla-tick");
    assert_eq!(after.updated_at_us, NOW + 1);

    assert!(apply_sla_breaches(vec![copy(&after)], &status, cfg, NOW, NOW).is_empty());
    let silent = SlaConfig { ack_minutes: 0, resolve_minutes: 0 };
    assert!(apply_sla_breaches(vec![mk_case("x")], &status, silent, NOW, NOW).is_empty());
    assert!(apply_sla_breaches(vec![mk_case("x")], &vec![None], cfg, NOW, NOW).is_empty());
}

#[test]
fn cases_are_listed_and_searched_newest_first() {
    let mut old = mk_case("old");
    old.opened_at_us = 1;
    old.host = "Web01".into();
    let mut new = mk_case("new");
    new.opened_at_us = 2;
    new.src_ip = Some("203.0.113.7".into());
    new.verdict = Some(Verdict { disposition: Disposition::Benign, rationale: "ÄRLIG scan of WEB01".into() });
    let ids = |v: Vec<Case>| -> Vec<String> { v.into_iter().map(|c| c.id).collect() };
    assert_eq!(ids(list_cases(vec![copy(&old), copy(&new)])), ["new", "old"]);
    assert_eq!(ids(search_cases(vec![copy(&old), copy(&new)], "web01")), ["new", "old"]);
    assert_eq!(ids(search_cases(vec![copy(&old), copy(&new)], "203.0.113")), ["new"]);
    assert!(matches_search(&new, "ärlig"));
    assert!(!matches_search(&old, "ärlig"));
    let b = bump_event_count(old, 77);
    assert_eq!((b.event_count, b.updated_at_us), (2, 77));
}

fn mk_pred(case_id: &str, id: &str, at_secs: i64) -> Record {
    Record {
        id: id.into(),
        case_id: Some(case_id.into()),
        created_at_us: at_secs * 1_000_000,
        disposition: Disposition::Malicious,
        body: vec![],
    }
}

/// Stored records, by key.
#[derive(Default)]
struct Records {
    rows: BTreeMap<String, Option<(String, String, i64)>>,
}

impl Records {
    fn append(&mut self, case: &str, id: &str, at_secs: i64) {
        let key = record_key(case, at_secs * 1_000_000_000, id);
        self.rows.insert(key, Some((case.into(), id.into(), at_secs)));
    }

    fn range(&self, case: &str) -> Vec<Option<Record>> {
        let (from, to) = scope_range(case);
        self.rows
            .range(from..=to)
            .map(|(_, v)| v.as_ref().map(|(c, i, t)| mk_pred(c, i, *t)))
            .collect()
    }

    fn newest(&self, case: &str) -> Vec<Option<Record>> {
        let mut v = self.range(case);
        v.reverse();
        v
    }

    fn all(&self) -> Vec<Option<Record>> {
        self.rows
            .values()
            .map(|v| v.as_ref().map(|(c, i, t)| mk_pred(c, i, *t)))
            .collect()
    }
}

fn ids(v: &[Record]) -> Vec<&str> {
    v.iter().map(|r| r.id.as_str()).collect()
}

#[test]
fn predictions_are_append_only_and_case_scoped() {
    let mut st = Records::default();
    st.append("c1", "p1", 100);
    st.append("c1", "p2", 200);
    st.append("c2", "p3", 150);
    let c1 = scan_tolerant(st.range("c1"));
    assert_eq!(ids(&c1), ["p1", "p2"]);
    assert_eq!(scan_tolerant(st.range("c2")).len(), 1);
    assert_eq!(scan_tolerant(st.all()).len(), 3);
}

#[test]
fn scan_case_limited_caps_at_limit_newest_and_stays_case_scoped() {
    let mut st = Records::default();
    for i in 0..5 {
        st.append("c1", &format!("p{i}"), 100 + i);
    }
    st.append("c10", "x0", 500);
    st.append("c10", "x1", 501);
    st.append("c2", "y0", 300);
    let newest = scan_limited(st.newest("c1"), 2);
    assert_eq!(ids(&newest), ["p4", "p3"]);
    assert!(newest.iter().all(|p| p.case_id.as_deref() == Some("c1")));
    assert_eq!(scan_limited(st.newest("c1"), 1000).len(), 5);
    assert_eq!(scan_limited(st.newest("c10"), 1000).len(), 2);
}

#[test]
fn list_false_negatives_limited_caps_the_read() {
    let rows = || -> Vec<Option<Record>> {
        (0..10)
            .map(|i| Some(Record { case_id: None, ..mk_pred("", &format!("fn{i}"), 0) }))
            .collect()
    };
    assert_eq!(scan_tolerant(rows()).len(), 10, "all present");
    assert_eq!(scan_limited(rows(), 3).len(), 3);
    assert_eq!(scan_limited(rows(), 100).len(), 10);
}

#[test]
fn case_view_is_bounded_yet_preserves_chronological_order() {
    let mut predictions = Records::default();
    predictions.append("cX", "p1", 100);
    predictions.append("cX", "p2", 200);
    let mut decisions = Records::default();
    decisions.append("cX", "d1", 150);
    decisions.append("cX", "d2", 250);
    let outcomes = vec![Some(mk_pred("cX", "o2", 9)), None, Some(mk_pred("cX", "o1", 3)), Some(mk_pred("cY", "o0", 1))];
    let view = case_view(
        "cX",
        predictions.range("cX"),
        decisions.range("cX"),
        outcomes,
        vec![Some(mk_pred("cX", "f1", 1)), Some(mk_pred("cX", "f2", 0))],
        case_view_cap(None),
    );
    assert_eq!(ids(&view.predictions), ["p1", "p2"]);
    assert_eq!(ids(&view.decisions), ["d1", "d2"]);
    assert_eq!(ids(&view.outcomes), ["o1", "o2"]);
    assert_eq!(ids(&view.false_negatives), ["f1", "f2"]);
    let found = || vec![Some(mk_pred("cX", "o1", 3)), Some(mk_pred("cX", "o2", 9))];
    let view = case_view("cX", predictions.range("cX"), vec![], found(), found(), 1);
    assert_eq!(ids(&view.predictions), ["p2"], "the newest stay");
    assert_eq!(ids(&view.outcomes), ["o2"]);
    assert_eq!(ids(&view.false_negatives), ["o2"]);
    let many = || (0..5).map(|i| Some(mk_pred("cX", &format!("o{i}"), [7, 1, 9, 3, 5][i]))).collect();
    let view = case_view("cX", vec![], vec![], many(), many(), 3);
    assert_eq!(ids(&view.outcomes), ["o4", "o0", "o2"], "the newest three, oldest in front");
    assert_eq!(ids(&view.false_negatives), ["o0", "o2", "o4"]);
}

#[test]
fn readers_tolerantly_skip_undecodable_rows() {
    let mut st = Records::default();
    st.append("c1", "d1", 1);
    st.rows.insert("c1|00000000000000000000|garbage".into(), None);
    let ds = scan_tolerant(st.all());
    assert_eq!(ids(&ds), ["d1"]);
    assert_eq!(scan_limited(st.range("c1"), 1).len(), 1);
}

#[test]
fn caseless_false_negative_is_listed_but_not_case_scoped() {
    let fnr = || Record { case_id: None, ..mk_pred("", "fn1", 0) };
    assert_eq!(scan_tolerant(vec![Some(fnr())]).len(), 1);
    assert!(records_for_case(vec![fnr()], "anything").is_empty());
    assert!(case_limited(vec![Some(fnr())], "anything", 10).is_empty());
}

#[test]
fn histories_are_in_order_of_time() {
    let rows = vec![mk_pred("c", "b", 2), mk_pred("d", "x", 0), mk_pred("c", "a", 1)];
    assert_eq!(ids(&case_history(rows, "c")), ["a", "b"]);
}

#[test]
fn keys_of_records() {
    assert_eq!(record_key("c1", 5, "p"), "c1|00000000000000000005|p");
    assert_eq!(show_nanos(-7), "-0000000000000000007");
    assert_eq!(show_nanos(i64::MIN), "-9223372036854775808");
    assert_eq!(show_nanos(i64::MAX), "09223372036854775807");
    assert!(record_key("c", 9, "z") < record_key("c", 10, "a"));
    assert_eq!(content_key("fact", "obs"), "fact|obs");
    assert_eq!(case_view_cap(Some("5")), 5);
    assert_eq!(case_view_cap(Some("0")), 1000);
    assert_eq!(case_view_cap(Some("many")), 1000);
    assert_eq!(case_view_cap(None), 1000);
}

#[test]
fn deleting_a_case_cascades_its_records_and_spares_prefix_siblings() {
    let mut st = Records::default();
    st.append("c1", "p1", 100);
    st.append("c1", "p2", 200);
    st.append("c10", "x0", 500);
    let (from, to) = scope_range("c1");
    let keys: Vec<String> = st.rows.range(from..=to).map(|(k, _)| k.clone()).collect();
    for k in keys {
        st.rows.remove(&k);
    }
    assert!(scan_limited(st.newest("c1"), 100).is_empty(), "c1's records cascade away");
    assert_eq!(scan_limited(st.newest("c10"), 100).len(), 1, "the prefix sibling is untouched");
}

/// Registered versions: their digests, by key.
#[derive(Default)]
struct Registry {
    rows: BTreeMap<String, String>,
}

impl Registry {
    fn register(&mut self, kind: &str, name: &str, version: &str, digest: &str) -> RegisterOutcome {
        let key = rec_key(kind, name, version);
        let r = register_record(self.rows.get(&key).map(String::as_str), digest);
        if r == RegisterOutcome::Inserted {
            self.rows.insert(key, digest.into());
        }
        r
    }
}

#[test]
fn registry_register_is_guarded_and_idempotent() {
    let mut st = Registry::default();
    assert_eq!(st.register("prompt", "system", "v1", "digestA"), RegisterOutcome::Inserted);
    assert_eq!(
        st.register("prompt", "system", "v1", "digestA"),
        RegisterOutcome::AlreadyIdentical
    );
    match st.register("prompt", "system", "v1", "digestB") {
        RegisterOutcome::Conflict { existing_digest } => assert_eq!(existing_digest, "digestA"),
        o => panic!("expected Conflict, got {o:?}"),
    }
    assert_eq!(st.register("prompt", "system", "v2", "digestB"), RegisterOutcome::Inserted);
    assert_eq!(st.rows.len(), 2);
    assert_eq!(st.rows[&rec_key("prompt", "system", "v1")], "digestA");
}

#[test]
fn registry_key_is_injective_across_a_pipe_in_name_or_version() {
    let mut st = Registry::default();
    assert_eq!(st.register("prompt", "sys", "a|b", "digest1"), RegisterOutcome::Inserted);
    assert_eq!(st.register("prompt", "sys|a", "b", "digest2"), RegisterOutcome::Inserted);
    assert_eq!(st.rows[&rec_key("prompt", "sys", "a|b")], "digest1");
    assert_eq!(st.rows[&rec_key("prompt", "sys|a", "b")], "digest2");
    assert_eq!(esc("a|b\\c"), "a\\|b\\\\c");
    assert_ne!(rec_key("k", "a\\", "b"), rec_key("k", "a", "\\b"));
}

#[test]
fn registry_promotions_are_append_only_and_scoped() {
    let entry = |name: &str, at: i64, body: u8| Entry {
        kind: "prompt".into(),
        name: name.into(),
        at_us: at,
        body: vec![body],
    };
    let list = || vec![entry("system", 101, 1), entry("system", 100, 0), entry("other", 5, 9)];
    let ps = promotions_for(list(), "prompt", "system");
    assert_eq!(ps.len(), 2, "both kept (append-only)");
    assert_eq!(ps[0].body, [0], "chronological");
    assert!(promotions_for(list(), "prompt", "none").is_empty());
    assert_eq!(list_kind(list(), "prompt").len(), 3);
    assert!(list_kind(list(), "lesson").is_empty());
    assert_eq!(records_for_name(list(), "prompt", "system")[0].body, [1]);
    assert_eq!(promo_key("prompt", "a|b", 7, "p0"), "prompt|a\\|b|00000000000000000007|p0");
}

#[test]
fn env_observation_is_content_keyed_and_idempotent() {
    let mut rows: BTreeMap<String, Vec<u8>> = BTreeMap::new();
    let mut append = |fact: &str, id: &str, value: &str| -> bool {
        let key = content_key(fact, id);
        let (bytes, new) = get_or_init(rows.get(&key).cloned(), value.as_bytes().to_vec());
        rows.insert(key, bytes);
        new
    };
    assert!(append("fA", "o1", "server"), "first write inserts");
    assert!(!append("fA", "o1", "server"), "identical content is a no-op");
    assert!(append("fA", "o2", "router"));
    assert!(append("fB", "o1", "server"));
    assert_eq!(rows.len(), 3);
    let named: Vec<(String, Vec<u8>)> =
        rows.into_iter().map(|(k, v)| (k[..2].to_string(), v)).collect();
    let of: Vec<Vec<u8>> = rows_of_fact(named, "fA").into_iter().map(|r| r.1).collect();
    assert_eq!(of, [b"server".to_vec(), b"router".to_vec()]);
    assert!(rows_of_fact(vec![("fB".to_string(), 1)], "fA").is_empty());
    assert_eq!(
        fact_ids(&vec!["fB".into(), "fA".into(), "fB".into()], &vec!["fC".into(), "fA".into()]),
        ["fA", "fB", "fC"]
    );
}

#[test]
fn env_sighting_merges_monotonically() {
    let t1 = 1_000_000_000;
    let t2 = 2_000_000_000;
    let mut s: Option<Sighting> = None;
    for (source, at) in [("sX", t1), ("sY", t2), ("sX", t1)] {
        s = Some(bump_sighting(s, "fA", source, at));
    }
    let s = s.unwrap();
    assert_eq!(s.observation_count, 3);
    assert_eq!(s.last_seen_us, t2, "last_seen never goes backward");
    assert_eq!(s.first_seen_us, t1);
    let count = |name: &str| s.per_source_counts.iter().find(|c| c.0 == name).map(|c| c.1);
    assert_eq!(count("sX"), Some(2));
    assert_eq!(count("sY"), Some(1));
    assert_eq!(s.per_source_counts.len(), 2);
}

#[test]
fn open_case_set_covers_non_closed_cases_only() {
    let mut closed = mk_case("c2");
    closed.state = CaseState::Closed;
    let set = open_case_entity_set(&vec![mk_case("c1"), copy(&closed)]);
    assert!(set.contains(&EntityRef::new(EntityKind::Host, "h")));
    assert!(open_case_entity_set(&vec![closed]).is_empty());
}

#[test]
fn compromised_set_from_audited_transition_is_immune_to_absence_of_a_retire() {
    let observed = || {
        vec![Observed {
            fact_id: "fM".into(),
            entity: EntityRef::new(EntityKind::Host, "mal01"),
        }]
    };
    let standing = |compromised: bool| vec![FactStanding { fact_id: "fM".into(), compromised }];
    let set = compromised_entity_set(&standing(true), &observed(), &vec![], &vec![], &vec![]);
    assert!(set.contains(&EntityRef::new(EntityKind::Host, "mal01")));
    assert!(!set.contains(&EntityRef::new(EntityKind::Ip, "mal01")));
    // A transition that nobody audited leaves the fact without such a standing.
    assert!(compromised_entity_set(&vec![], &observed(), &vec![], &vec![], &vec![]).is_empty());
    assert!(
        compromised_entity_set(&standing(false), &observed(), &vec![], &vec![], &vec![]).is_empty()
    );
}

#[test]
fn compromised_set_honors_a_human_decision_over_the_agent_verdict() {
    let mut c = mk_case("c1");
    c.state = CaseState::Closed;
    c.verdict = Some(Verdict {
        disposition: Disposition::Benign,
        rationale: "agent thought benign".into(),
    });
    let cases = vec![c];
    assert!(compromised_entity_set(&vec![], &vec![], &cases, &vec![], &vec![]).is_empty());
    let d = vec![mk_pred("c1", "d1", 0)];
    let set = compromised_entity_set(&vec![], &vec![], &cases, &d, &vec![]);
    assert!(set.contains(&EntityRef::new(EntityKind::Host, "h")));
    let set = compromised_entity_set(&vec![], &vec![], &cases, &vec![], &d);
    assert!(set.contains(&EntityRef::new(EntityKind::Host, "h")), "an outcome counts too");
}

#[test]
fn compromised_set_includes_malicious_closed_cases() {
    let mut c = mk_case("c1");
    c.state = CaseState::Closed;
    c.verdict = Some(Verdict {
        disposition: Disposition::Malicious,
        rationale: "confirmed".into(),
    });
    let set = compromised_entity_set(&vec![], &vec![], &vec![c], &vec![], &vec![]);
    assert!(set.contains(&EntityRef::new(EntityKind::Host, "h")));
}

#[test]
fn entities_of_a_case() {
    let mut c = mk_case("c");
    c.src_ip = Some("10.0.0.1".into());
    c.user = Some("root".into());
    let v = case_entities(&c);
    assert_eq!(v.len(), 3);
    assert!(v.contains(&EntityRef::new(EntityKind::Identity, "root")));
    c.db_user = Some("".into());
    c.host = String::new();
    assert_eq!(case_entities(&c), [EntityRef::new(EntityKind::Ip, "10.0.0.1")]);
}

#[test]
fn tainted_cases_are_kept_out_of_datasets() {
    let mut bad = mk_case("bad");
    bad.host = "mal".into();
    bad.state = CaseState::Closed;
    bad.verdict = Some(Verdict { disposition: Disposition::Suspicious, rationale: String::new() });
    let mut same = mk_case("same");
    same.host = "mal".into();
    let mut clean = mk_case("clean");
    clean.host = "ok".into();
    clean.state = CaseState::Closed;
    let cases = vec![bad, same, mk_case("open"), clean];
    let open = open_case_entity_set(&cases);
    let comp = compromised_entity_set(&vec![], &vec![], &cases, &vec![], &vec![]);
    assert_eq!(
        poisoned_case_reasons(&cases, &open, &comp),
        [
            ("bad".to_string(), ExclusionReason::Compromised),
            ("same".to_string(), ExclusionReason::Compromised),
            ("open".to_string(), ExclusionReason::OpenCase),
        ]
    );
}

#[test]
fn watermarks_and_windows() {
    assert_eq!(advance_watermark(None, 5), Some(5));
    assert_eq!(advance_watermark(Some(5), 6), Some(6));
    assert_eq!(advance_watermark(Some(5), 5), None);
    assert_eq!(advance_watermark(Some(5), 4), None);
    let w = |kind, from, to| Standing { kind, valid_from_us: from, valid_to_us: to };
    assert!(is_change_window(&w(EntityKind::ChangeRecord, 5, None), 5));
    assert!(is_change_window(&w(EntityKind::ChangeRecord, 5, Some(7)), 6));
    assert!(!is_change_window(&w(EntityKind::ChangeRecord, 5, Some(7)), 7));
    assert!(!is_change_window(&w(EntityKind::Host, 5, None), 6));
}

#[test]
fn findings_are_append_only_and_entity_scoped() {
    let list = || -> Vec<Listed> {
        [("web01", 1), ("web01", 2), ("web02", 3)]
            .iter()
            .map(|(h, t)| Listed { host: h.to_string(), at_us: *t, body: vec![*t as u8] })
            .collect()
    };
    assert_eq!(list().len(), 3);
    assert_eq!(findings_for_entity(list(), "web01").len(), 2);
    assert_eq!(findings_for_entity(list(), "web02").len(), 1);
    assert!(findings_for_entity(list(), "nope").is_empty());
    let newest: Vec<u8> = list_newest_first(list()).into_iter().map(|e| e.body[0]).collect();
    assert_eq!(newest, [3, 2, 1]);
}

fn deletion(local_removed: bool, remote_removed: Option<bool>) -> ColdDeletion {
    ColdDeletion {
        id: "w".into(),
        checksum: "c".into(),
        rows: 1,
        bytes_out: 1,
        start_us: 0,
        end_us: 1,
        deleted_at_us: NOW,
        reason: "r".into(),
        local_removed,
        remote_removed,
    }
}

#[test]
fn a_deletion_that_left_a_remote_copy_is_not_complete() {
    assert!(!deletion(false, Some(false)).is_complete());
    assert!(deletion(true, None).is_complete());
    assert!(deletion(false, Some(true)).is_complete());
}

fn arc_at(id: &str, start_us: i64, end_us: i64) -> ColdArchive {
    ColdArchive {
        id: id.into(),
        kind: "plain".into(),
        file: format!("{id}.parquet"),
        start_us,
        end_us,
        rows: 42,
        bytes_in: 1000,
        bytes_out: 300,
        checksum: "abc123def456".into(),
        hot_pruned: false,
        sealed_at_us: NOW,
        legal_hold: false,
    }
}

#[test]
fn archives_and_deletions_are_listed_oldest_first() {
    let v = list_cold_archives(vec![arc_at("b", 2, 3), arc_at("a", 1, 2)]);
    assert_eq!(v[0].id, "a");
    let mut late = deletion(true, None);
    late.start_us = 9;
    assert_eq!(list_cold_deletions(vec![late, deletion(true, None)])[0].start_us, 0);
}

#[test]
fn a_hold_on_an_unknown_archive_is_a_no_op_not_an_error() {
    assert_eq!(set_legal_hold(None, true), (None, false));
    let (a, changed) = set_legal_hold(Some(arc_at("a", 1, 2)), true);
    assert!(changed && a.as_ref().unwrap().legal_hold);
    let (_, changed) = set_legal_hold(a.clone(), true);
    assert!(!changed, "a no-op hold change must report false");
    let (a, changed) = set_legal_hold(a, false);
    assert!(changed && !a.as_ref().unwrap().legal_hold);
    assert!(mark_hot_pruned(a).unwrap().hot_pruned);
}

#[test]
fn budgets_are_reserved_and_settled() {
    assert_eq!(budget_add(5, 7), 12);
    assert_eq!(budget_try_reserve(60, 40, 100), Some(100));
    assert_eq!(budget_try_reserve(61, 40, 100), None);
    assert_eq!(budget_try_reserve(u64::MAX, 1, u64::MAX), None);
    assert_eq!(budget_settle(100, 40, 15), 75);
    assert_eq!(budget_settle(10, 40, 5), 5);
    let mut r = BudgetReservation::new("2026-01-01", 40);
    assert_eq!(r.settle(100, 15), 75);
    assert_eq!(r.release(75), 75, "settled: nothing to give back");
    let mut r = BudgetReservation::new("2026-01-01", 40);
    assert_eq!(r.release(100), 60);
    assert_eq!(r.release(60), 60);
}

#[test]
fn put_get_roundtrip_and_get_or_init_is_stable() {
    let mut rows: BTreeMap<String, Vec<u8>> = BTreeMap::new();
    assert_eq!(rows.get("k"), None);
    rows.insert("k".into(), b"hello".to_vec());
    assert_eq!(rows.get("k").map(Vec::as_slice), Some(&b"hello"[..]));
    let mut init = |fresh: Vec<u8>| {
        let (v, store) = get_or_init(rows.get("key").cloned(), fresh);
        if store {
            rows.insert("key".into(), v.clone());
        }
        v
    };
    let first = init(vec![1, 2, 3]);
    let second = init(vec![9, 9, 9]);
    assert_eq!(first, vec![1, 2, 3]);
    assert_eq!(second, first, "get_or_init must not regenerate");
}

#[test]
fn templates_and_datasets_are_stored_once() {
    assert_eq!(note_template(None, 5), (5, true));
    assert_eq!(note_template(Some(5), 9), (5, false));
    assert_eq!(put_dataset(true, None), Ok(DatasetPutOutcome::Inserted));
    assert_eq!(put_dataset(true, Some(true)), Ok(DatasetPutOutcome::AlreadyIdentical));
    assert_eq!(put_dataset(true, Some(false)), Ok(DatasetPutOutcome::Conflict));
    assert_eq!(
        put_dataset(false, None).unwrap_err(),
        "refusing to store a dataset snapshot that fails digest verification"
    );
}

fn action(id: &str, state: ActionState) -> ActionProposal {
    ActionProposal {
        id: id.into(),
        state,
        created_at_us: 1,
        decided_at_us: None,
        executed_at_us: None,
        result: None,
        audit: vec![],
    }
}

#[test]
fn actions_go_from_state_to_state_once() {
    let from = vec![ActionState::Proposed];
    let a = transition_action(
        action("a1", ActionState::Proposed),
        &from,
        ActionState::Approved,
        "alice",
        "ok",
        None,
        7,
    )
    .unwrap_or_else(|e| panic!("{e}"));
    assert_eq!((a.state, a.decided_at_us, a.audit.len()), (ActionState::Approved, Some(7), 1));
    assert_eq!((a.audit[0].actor.as_str(), a.audit[0].detail.as_str()), ("alice", "ok"));
    let both = vec![ActionState::Proposed, ActionState::Failed];
    let err = transition_action(a, &both, ActionState::Denied, "bob", "no", None, 8).err().unwrap();
    assert_eq!(err, "action a1 is Approved, not [Proposed, Failed] — transition refused");
    let done = transition_action(
        action("a1", ActionState::Executing),
        &vec![ActionState::Executing],
        ActionState::Executed,
        "exec",
        "",
        Some("done".into()),
        9,
    )
    .unwrap_or_else(|e| panic!("{e}"));
    assert_eq!((done.executed_at_us, done.result.as_deref()), (Some(9), Some("done")));
    assert!(check_new_action(&action("a", ActionState::Proposed), false).is_ok());
    assert_eq!(
        check_new_action(&action("a", ActionState::Proposed), true).unwrap_err(),
        "action id already exists"
    );
    assert_eq!(
        check_new_action(&action("a", ActionState::Denied), false).unwrap_err(),
        "new action proposals must be Proposed"
    );
    let mut newer = action("n", ActionState::Approved);
    newer.created_at_us = 5;
    let list = vec![action("o", ActionState::Approved), action("p", ActionState::Denied), newer];
    let approved: Vec<String> =
        actions_in_state(list, ActionState::Approved).into_iter().map(|a| a.id).collect();
    assert_eq!(approved, ["n", "o"]);
}

#[test]
fn ids_are_found_by_a_unique_prefix() {
    let keys: Vec<String> = ["abc", "abd", "x", "xy"].iter().map(|s| s.to_string()).collect();
    assert_eq!(resolve(&keys, "abc"), Lookup::Found(0));
    assert_eq!(resolve(&keys, "abd"), Lookup::Found(1));
    assert_eq!(resolve(&keys, "ab"), Lookup::Ambiguous);
    assert_eq!(resolve(&keys, "x"), Lookup::Found(2), "an exact id wins over a prefix");
    assert_eq!(resolve(&keys, "xy"), Lookup::Found(3));
    assert_eq!(resolve(&keys, "z"), Lookup::Missing);
    assert_eq!(resolve(&keys, "  "), Lookup::Empty);
    assert_eq!(action_lookup_error(Lookup::Empty, "").as_deref(), Some("empty action id"));
    assert_eq!(
        proposal_lookup_error(Lookup::Ambiguous, "ab").as_deref(),
        Some("multiple proposals match the prefix ab")
    );
    assert_eq!(proposal_lookup_error(Lookup::Missing, "z"), None);
}

#[test]
fn proposals_are_decided_once() {
    let p = |status| RuleProposal {
        id: "p".into(),
        status,
        created_at_us: 1,
        decided_at_us: None,
        decision_note: None,
    };
    let d = decide_proposal(
        p(ProposalStatus::Pending),
        ProposalStatus::Decided("Approved".into()),
        Some("fine".into()),
        5,
    )
    .unwrap_or_else(|e| panic!("{e}"));
    assert_eq!((d.decided_at_us, d.decision_note.as_deref()), (Some(5), Some("fine")));
    assert_eq!(
        decide_proposal(d, ProposalStatus::Decided("Rejected".into()), None, 6).err().unwrap(),
        "the proposal is already Approved"
    );
    assert_eq!(
        decide_proposal(p(ProposalStatus::Pending), ProposalStatus::Pending, None, 6).err().unwrap(),
        "a decision cannot be pending"
    );
}
