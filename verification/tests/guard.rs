use garmr::guard::{constrain_sources, reject_non_readonly};

#[test]
fn allows_read_only_queries() {
    assert!(reject_non_readonly("SELECT count(*) FROM events").is_ok());
    assert!(reject_non_readonly("WITH t AS (SELECT 1) SELECT * FROM t").is_ok());
    assert!(reject_non_readonly("EXPLAIN SELECT * FROM events").is_ok());
    assert!(reject_non_readonly("SELECT * FROM events WHERE message LIKE '%drop table%'").is_ok());
}

#[test]
fn rejects_writes_and_bypasses() {
    assert!(reject_non_readonly("INSERT INTO events VALUES (1)").is_err());
    assert!(reject_non_readonly("DELETE FROM events").is_err());
    assert!(reject_non_readonly("DROP TABLE events").is_err());
    assert!(reject_non_readonly("INSERT\tINTO events VALUES (1)").is_err());
    assert!(reject_non_readonly("EXPLAIN ANALYZE INSERT INTO events VALUES (1)").is_err());
    assert!(reject_non_readonly("SELECT 1; DROP TABLE events").is_err());
    assert!(reject_non_readonly("COPY events TO '/tmp/x.csv'").is_err());
    assert!(reject_non_readonly("CREATE TABLE x AS SELECT * FROM events").is_err());
}

fn hr() -> Vec<String> {
    vec!["hr".to_string()]
}

fn scoped_refs(out: &str) -> usize {
    out.matches("SELECT * FROM events WHERE source IN").count()
}

#[test]
fn a_bare_reference_is_wrapped_and_aliased_back_to_events() {
    let out = constrain_sources("SELECT count(*) FROM events", &hr()).unwrap();
    assert_eq!(scoped_refs(&out), 1, "{out}");
    assert!(out.contains("AS \"events\""), "{out}");
    assert_eq!(
        out,
        "SELECT count(*) FROM (SELECT * FROM events WHERE source IN ('hr')) AS \"events\""
    );
}

#[test]
fn an_alias_is_preserved_so_qualified_columns_still_resolve() {
    let out = constrain_sources("SELECT t.source FROM events AS t", &hr()).unwrap();
    assert_eq!(scoped_refs(&out), 1, "{out}");
    assert!(out.contains("AS \"t\""), "{out}");
}

#[test]
fn every_branch_of_a_union_is_constrained() {
    let out = constrain_sources(
        "SELECT source FROM events UNION ALL SELECT source FROM events",
        &hr(),
    )
    .unwrap();
    assert_eq!(scoped_refs(&out), 2, "{out}");
}

#[test]
fn joins_subqueries_and_nested_joins_are_all_constrained() {
    let out = constrain_sources(
        "SELECT a.source FROM events a JOIN events b ON a.host = b.host",
        &hr(),
    )
    .unwrap();
    assert_eq!(scoped_refs(&out), 2, "{out}");

    let out = constrain_sources("SELECT * FROM (SELECT source FROM events) x", &hr()).unwrap();
    assert_eq!(scoped_refs(&out), 1, "{out}");

    let out = constrain_sources(
        "SELECT * FROM (events a JOIN events b ON a.host = b.host)",
        &hr(),
    )
    .unwrap();
    assert_eq!(scoped_refs(&out), 2, "{out}");
}

#[test]
fn a_subquery_of_a_condition_is_constrained() {
    let out = constrain_sources(
        "SELECT host FROM events WHERE host IN (SELECT host FROM events)",
        &hr(),
    )
    .unwrap();
    assert_eq!(scoped_refs(&out), 2, "{out}");
    let err = constrain_sources(
        "SELECT host FROM events WHERE host IN (SELECT host FROM secrets)",
        &hr(),
    )
    .unwrap_err();
    assert_eq!(
        err,
        "table `secrets` is not readable under a source-scoped credential; only `events` is"
    );
}

#[test]
fn a_cte_is_not_a_base_table_but_its_body_is_constrained() {
    let out = constrain_sources(
        "WITH t AS (SELECT source FROM events) SELECT * FROM t",
        &hr(),
    )
    .unwrap();
    assert_eq!(scoped_refs(&out), 1, "{out}");
}

#[test]
fn a_cte_cannot_shadow_events_to_escape_the_rewrite() {
    let out = constrain_sources(
        "WITH events AS (SELECT * FROM events) SELECT * FROM events",
        &hr(),
    )
    .unwrap();
    assert_eq!(scoped_refs(&out), 1, "{out}");
}

#[test]
fn a_name_ends_with_the_query_that_defines_it() {
    let err = constrain_sources(
        "SELECT * FROM (WITH t AS (SELECT 1) SELECT * FROM t) a JOIN t ON true",
        &hr(),
    )
    .unwrap_err();
    assert!(err.contains("`t` is not readable"), "{err}");
    let err = constrain_sources("WITH t AS (SELECT * FROM t) SELECT * FROM t", &hr()).unwrap_err();
    assert!(err.contains("`t` is not readable"), "{err}");
    let out = constrain_sources(
        "WITH a AS (SELECT * FROM events), b AS (SELECT * FROM a) SELECT * FROM (SELECT * FROM B) x",
        &hr(),
    )
    .unwrap();
    assert_eq!(scoped_refs(&out), 1, "{out}");
}

#[test]
fn a_sibling_table_is_denied_rather_than_passed_through() {
    let err = constrain_sources("SELECT * FROM events_raw", &hr()).unwrap_err();
    assert!(err.contains("not readable"), "{err}");
    let err = constrain_sources("SELECT * FROM events JOIN secrets ON true", &hr()).unwrap_err();
    assert!(err.contains("not readable"), "{err}");
}

#[test]
fn other_sources_of_rows_are_refused() {
    let err = constrain_sources("SELECT * FROM UNNEST([1, 2])", &hr()).unwrap_err();
    assert_eq!(
        err,
        "this FROM construct is not available to a source-scoped credential"
    );
}

#[test]
fn a_table_in_the_place_of_a_select_is_limited_like_any_other() {
    for sql in [
        "TABLE secrets",
        "TABLE ns.secrets",
        "SELECT * FROM events UNION ALL TABLE secrets",
        "SELECT * FROM events WHERE id IN (TABLE secrets)",
        "WITH t AS (SELECT 1) SELECT * FROM t UNION ALL TABLE ns.t",
        "WITH t AS (TABLE secrets ) SELECT * FROM t",
        "SELECT 1 UNION SELECT 2 INTERSECT TABLE secrets",
    ] {
        let r = constrain_sources(sql, &hr());
        assert!(r.is_err(), "{sql}: {r:?}");
    }
    assert_eq!(
        constrain_sources("SELECT 1 UNION TABLE ns.secrets", &hr()).unwrap_err(),
        "table `ns.secrets` is not readable under a source-scoped credential; only `events` is"
    );
    let inner = "(SELECT * FROM events WHERE source IN ('hr')) AS \"events\"";
    assert_eq!(
        constrain_sources("SELECT * FROM events UNION ALL TABLE events", &hr()).unwrap(),
        format!("SELECT * FROM {inner} UNION ALL SELECT * FROM {inner}")
    );
    let out = constrain_sources(
        "WITH recent AS (SELECT * FROM events) SELECT * FROM recent UNION ALL TABLE recent",
        &hr(),
    )
    .unwrap();
    assert_eq!(scoped_refs(&out), 1, "{out}");
    assert!(out.ends_with("UNION ALL TABLE recent"), "{out}");
}

#[test]
fn texts_that_the_parser_gives_up_on_are_refused() {
    for sql in [
        "SET AUTHORIZATION bob",
        "set authorization default",
        "SET /* no scope */ AUTHORIZATION 'bob'",
        "SET HIVEVAR : AUTHORIZATION bob",
        "FLUSH RELAY LOGS FOR CHANNEL",
        "FLUSH LOCAL RELAY LOGS FOR CHANNEL a.",
        "SELECT 1; FLUSH NO_WRITE_TO_BINLOG RELAY LOGS FOR CHANNEL",
    ] {
        let want = "could not parse SQL: a statement of this form cannot be parsed";
        assert_eq!(reject_non_readonly(sql).unwrap_err(), want, "{sql}");
        assert_eq!(constrain_sources(sql, &hr()).unwrap_err(), want, "{sql}");
    }
    let other = "only a single SELECT/WITH query (optionally via EXPLAIN) is allowed";
    for sql in [
        "SET SESSION AUTHORIZATION bob",
        "UPDATE t SET authorization = 1",
        "CREATE SCHEMA AUTHORIZATION x",
        "FLUSH RELAY LOGS",
    ] {
        assert_eq!(reject_non_readonly(sql).unwrap_err(), other, "{sql}");
    }
    assert!(reject_non_readonly("SELECT 'SET AUTHORIZATION bob'").is_ok());
}

#[test]
fn only_queries_and_their_plans_can_be_limited() {
    assert_eq!(
        constrain_sources("DROP TABLE events", &hr()).unwrap_err(),
        "only a single SELECT/WITH query is allowed"
    );
    assert_eq!(
        constrain_sources("SELECT 1; SELECT 2", &hr()).unwrap_err(),
        "exactly one SQL statement is allowed"
    );
    assert_eq!(
        reject_non_readonly("SELECT 1; SELECT 2").unwrap_err(),
        "exactly one SQL statement is allowed"
    );
    assert_eq!(
        reject_non_readonly("DROP TABLE events").unwrap_err(),
        "only a single SELECT/WITH query (optionally via EXPLAIN) is allowed"
    );
    assert!(reject_non_readonly("SELEC 1")
        .unwrap_err()
        .starts_with("could not parse SQL: "));
    assert!(constrain_sources("SELEC 1", &hr())
        .unwrap_err()
        .starts_with("could not parse SQL: "));
}

#[test]
fn a_qualified_events_name_is_still_recognised_and_constrained() {
    let out = constrain_sources("SELECT count(*) FROM skade.public.events", &hr()).unwrap();
    assert_eq!(scoped_refs(&out), 1, "{out}");
    let out = constrain_sources("SELECT count(*) FROM \"Events\"", &hr()).unwrap();
    assert_eq!(scoped_refs(&out), 1, "{out}");
}

#[test]
fn an_empty_allow_list_reads_nothing_rather_than_everything() {
    let out = constrain_sources("SELECT count(*) FROM events", &vec![]).unwrap();
    assert!(out.contains("1 = 0"), "{out}");
    assert!(!out.contains("source IN"), "{out}");
}

#[test]
fn a_quote_in_a_configured_source_cannot_reshape_the_predicate() {
    let out = constrain_sources("SELECT count(*) FROM events", &vec!["it's".to_string()]).unwrap();
    assert!(out.contains("'it''s'"), "{out}");
    assert_eq!(scoped_refs(&out), 1, "{out}");
}

#[test]
fn explain_is_rewritten_too_so_a_plan_cannot_reveal_unscoped_rows() {
    let out = constrain_sources("EXPLAIN SELECT * FROM events", &hr()).unwrap();
    assert_eq!(scoped_refs(&out), 1, "{out}");
    assert!(out.starts_with("EXPLAIN"), "{out}");
}

#[test]
fn the_rewritten_sql_still_parses_and_stays_read_only() {
    for q in [
        "SELECT count(*) FROM events",
        "WITH t AS (SELECT source FROM events) SELECT * FROM t",
        "SELECT a.source FROM events a JOIN events b ON a.host = b.host",
        "SELECT source FROM events UNION ALL SELECT source FROM events",
    ] {
        let out = constrain_sources(q, &hr()).unwrap();
        assert!(reject_non_readonly(&out).is_ok(), "{out}");
        assert!(constrain_sources(&out, &hr()).is_ok(), "{out}");
    }
}

#[test]
fn a_string_literal_naming_another_table_is_inert() {
    let out = constrain_sources(
        "SELECT * FROM events WHERE message LIKE '%FROM secrets%'",
        &hr(),
    )
    .unwrap();
    assert_eq!(scoped_refs(&out), 1, "{out}");
}

#[test]
fn names_are_told_apart_without_quotes_and_case() {
    let out = constrain_sources("SELECT * FROM \"EVENTS\"", &hr()).unwrap();
    assert_eq!(scoped_refs(&out), 1);
    let out = constrain_sources("WITH Recent AS (SELECT 1) SELECT * FROM \"RECENT\"", &hr()).unwrap();
    assert_eq!(scoped_refs(&out), 0);
    let refused = constrain_sources("SELECT * FROM \"Other\"", &hr()).unwrap_err();
    assert_eq!(
        refused,
        "table `\"Other\"` is not readable under a source-scoped credential; only `events` is"
    );
}
