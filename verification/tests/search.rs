use std::collections::BTreeMap;

use garmr::events::columns::Event;
use garmr::search::{
    label_field, may_prune, may_write, missing_field, plan, to_index, Clause, Filter, Label, Plan,
};

fn none() -> Filter {
    Filter { host: vec![], service: vec![], source: vec![], severity: vec![], log_type: vec![] }
}

struct Doc {
    message: String,
    ts: i64,
    host: &'static str,
    source: &'static str,
}

fn doc(message: &str, host: &'static str, ts: i64, source: &'static str) -> Doc {
    Doc { message: message.into(), ts, host, source }
}

/// Whether a document is found: its message holds the words of the query, and its labels
/// the terms.
fn found(p: &Plan, query: &str, d: &Doc) -> bool {
    let message = d.message.to_lowercase();
    p.clauses.iter().all(|c| match c {
        Clause::Text => query.split(' ').all(|w| match w.strip_prefix("source:") {
            Some(source) => d.source == source,
            None => message.contains(w),
        }),
        Clause::AnyOf { label, values } => {
            let v = match label_field(*label) {
                "host" => d.host,
                "source" => d.source,
                _ => "",
            };
            values.iter().any(|x| x == v)
        }
        Clause::Window { from_us, to_us } => {
            from_us.map_or(true, |f| f <= d.ts) && to_us.map_or(true, |t| d.ts < t)
        }
    })
}

fn of(f: &Filter, from: Option<i64>, to: Option<i64>, scope: Option<&Vec<String>>) -> Plan {
    plan(f, 10, from, to, scope, true).unwrap_or_else(|e| panic!("{e}"))
}

fn hits<'a>(p: &Plan, query: &str, docs: &'a [Doc]) -> Vec<&'a Doc> {
    docs.iter().filter(|d| found(p, query, d)).collect()
}

#[test]
fn search_in_range_bounds_by_event_time() {
    const S: i64 = 1_000_000;
    let docs = [
        doc("Failed password for root (early)", "pve", 1000 * S, "journald"),
        doc("Failed password for root (middle)", "pve", 2000 * S, "journald"),
        doc("Failed password for root (late)", "pve", 3000 * S, "journald"),
    ];
    let msgs = |from, to| -> Vec<String> {
        let p = of(&none(), from, to, None);
        hits(&p, "failed password", &docs).iter().map(|d| d.message.clone()).collect()
    };
    assert_eq!(msgs(Some(2000 * S), Some(3000 * S)), ["Failed password for root (middle)"]);
    assert_eq!(msgs(Some(2000 * S), None).len(), 2);
    assert_eq!(msgs(None, Some(2000 * S)), ["Failed password for root (early)"]);
    assert_eq!(msgs(None, None).len(), 3);
    assert!(msgs(Some(4000 * S), None).is_empty());
}

#[test]
fn search_filtered_pushes_down_label_terms() {
    let docs = [
        doc("Failed password for root", "web01", 0, "journald"),
        doc("Failed password for root", "web02", 0, "journald"),
    ];
    let all = of(&none(), None, None, None);
    assert_eq!(hits(&all, "failed password", &docs).len(), 2);
    let only = of(&Filter { host: vec!["web01".into()], ..none() }, None, None, None);
    let r = hits(&only, "failed password", &docs);
    assert_eq!(r.len(), 1);
    assert_eq!(r[0].host, "web01");
    assert!(hits(&only, "accepted", &docs).is_empty());
}

#[test]
fn search_filtered_in_range_combines_labels_and_the_window() {
    const S: i64 = 1_000_000;
    let docs = [
        doc("Failed password for root", "web01", 1000 * S, "journald"),
        doc("Failed password for root", "web01", 2000 * S, "journald"),
        doc("Failed password for root", "web02", 2000 * S, "journald"),
    ];
    let web = Filter { host: vec!["web01".into()], ..none() };
    let p = of(&web, Some(2000 * S), Some(3000 * S), None);
    let r = hits(&p, "failed password", &docs);
    assert_eq!(r.len(), 1);
    assert_eq!(r[0].host, "web01");
    assert_eq!(r[0].ts, 2000 * S);
    assert_eq!(hits(&of(&web, None, None, None), "failed password", &docs).len(), 2);
}

#[test]
fn limit_zero_does_not_panic() {
    let p = plan(&none(), 0, None, None, None, true).unwrap_or_else(|e| panic!("{e}"));
    assert_eq!(p.limit, 1);
    assert_eq!(of(&none(), None, None, None).limit, 10);
}

#[test]
fn a_filtered_search_with_a_window_refuses_a_pre_upgrade_index() {
    let call = |from, to| plan(&none(), 10, from, to, None, false);
    let err = call(Some(0), None).err().unwrap();
    assert!(err.contains("garmr reindex"), "unhelpful error: {err}");
    assert!(call(None, Some(1)).is_err(), "an upper bound too");
    assert!(call(None, None).is_ok());
}

fn two_sources() -> [Doc; 2] {
    [
        doc("Failed password for root hrrow", "pve", 0, "hr"),
        doc("Failed password for root infrarow", "pve", 0, "infra"),
    ]
}

#[test]
fn a_data_scope_filters_full_text_hits_to_its_own_sources() {
    let docs = two_sources();
    let all = of(&none(), None, None, None);
    assert_eq!(hits(&all, "failed password", &docs).len(), 2);
    let p = of(&none(), None, None, Some(&vec!["hr".into()]));
    let r = hits(&p, "failed password", &docs);
    assert_eq!(r.len(), 1);
    assert!(r[0].message.contains("hrrow"), "{:?}", r[0].message);
}

#[test]
fn a_source_term_in_the_query_text_cannot_widen_the_scope() {
    let docs = two_sources();
    let hr: Vec<String> = vec!["hr".into()];
    let p = of(&none(), None, None, Some(&hr));
    assert!(hits(&p, "source:infra", &docs).is_empty());
    let f = Filter { source: vec!["infra".into()], ..none() };
    let p = of(&f, None, None, Some(&hr));
    assert!(hits(&p, "failed password", &docs).is_empty());
    assert_eq!(p.clauses.len(), 3);
}

#[test]
fn an_empty_scope_matches_nothing_rather_than_everything() {
    let p = of(&none(), None, None, Some(&vec![]));
    assert!(hits(&p, "failed password", &two_sources()).is_empty());
}

#[test]
fn prune_refuses_a_pre_upgrade_index_rather_than_lying() {
    assert!(may_prune(true).is_ok());
    assert!(may_prune(false).unwrap_err().contains("garmr reindex"));
}

#[test]
fn read_only_open_rejects_indexing() {
    assert!(may_write(true).is_ok());
    assert_eq!(may_write(false).unwrap_err(), "search index opened read-only");
}

#[test]
fn labels_have_their_fields() {
    let names: Vec<&str> = [
        Label::Host,
        Label::Service,
        Label::Source,
        Label::Severity,
        Label::LogType,
    ]
    .iter()
    .map(|l| label_field(*l))
    .collect();
    assert_eq!(names, ["host", "service", "source", "severity", "log_type"]);
    assert!(missing_field("user").starts_with("the full-text index has no 'user' field"));
}

#[test]
fn excluded_sources_are_not_indexed() {
    let ev = |source: &str, message: &str| Event {
        ts_us: 0,
        host: String::new(),
        service: String::new(),
        source: source.into(),
        environment: String::new(),
        severity: String::new(),
        log_type: String::new(),
        message: message.into(),
        fields: BTreeMap::new(),
    };
    let events = vec![ev("a", "1"), ev("kunai", "2"), ev("b", "3"), ev("a", "4")];
    let left = to_index(events, &vec!["kunai".into()]);
    let messages: Vec<&str> = left.iter().map(|e| e.message.as_str()).collect();
    assert_eq!(messages, ["1", "3", "4"]);
}
