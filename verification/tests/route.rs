use std::collections::BTreeMap;

use garmr::route::{
    active_silences, bump_silence_hits, check_request, set_silence, still_over, AlertRouter,
    Decision, Length, Silence, SilenceChange, SilenceRow, MAX_ACTIVE_SILENCES,
};

const HOUR_US: i64 = 3_600_000_000;
const NOW: i64 = 1_755_000_000_000_000;

/// Stored silences, by rule.
#[derive(Default)]
struct Store {
    rows: BTreeMap<String, Silence>,
}

fn length(hours: f64) -> Length {
    if !(0.0..=168.0).contains(&hours) {
        Length::Invalid
    } else if hours == 0.0 {
        Length::Zero
    } else {
        Length::Millis((hours * 3_600_000.0) as i64)
    }
}

impl Store {
    fn set(
        &mut self,
        rule: &str,
        host: Option<&str>,
        hours: f64,
        reason: &str,
        now_us: i64,
    ) -> Result<SilenceChange, String> {
        let request = check_request(rule, host, length(hours), reason)?;
        let rule = request.rule.clone();
        let existing = self.rows.get(&rule).cloned();
        let active = self.active(now_us).len();
        let change = set_silence(request, existing, active, now_us)?;
        match &change.set {
            Some(s) => self.rows.insert(rule, s.clone()),
            None => self.rows.remove(&rule),
        };
        Ok(change)
    }

    fn active(&mut self, now_us: i64) -> Vec<Silence> {
        let rows: Vec<SilenceRow> = self
            .rows
            .iter()
            .map(|(k, s)| SilenceRow { rule: k.clone(), silence: Some(s.clone()) })
            .collect();
        let (live, over) = active_silences(&rows, now_us);
        for k in over {
            if still_over(self.rows.get(&k), now_us) {
                self.rows.remove(&k);
            }
        }
        live
    }

    fn decide(&mut self, r: &AlertRouter, rule: &str, host: &str, escalate: bool) -> Decision {
        let live = self.active(NOW);
        let d = r.decide(Some(&live), rule, host, escalate, NOW / 1_000_000);
        if let Decision::Silenced(s) = &d {
            let stored = self.rows.remove(&s.rule).unwrap();
            self.rows.insert(s.rule.clone(), bump_silence_hits(stored));
        }
        d
    }
}

#[test]
fn silence_suppresses_matching_rule_and_expires() {
    let mut st = Store::default();
    st.set("ssh_brute", None, 1.0, "known scanner", NOW).unwrap();
    let r = AlertRouter::new(0);
    assert!(matches!(st.decide(&r, "ssh_brute", "pve", false), Decision::Silenced(_)));
    assert!(st.decide(&r, "other_rule", "pve", false).is_send());

    st.set("old_rule", None, 1.0, "", NOW - 2 * HOUR_US).unwrap();
    assert!(st.decide(&r, "old_rule", "pve", false).is_send());
    assert!(!st.rows.contains_key("old_rule"));
}

#[test]
fn host_scoped_silence_only_matches_that_host() {
    let mut st = Store::default();
    st.set("ssh_brute", Some("lab-vm"), 1.0, "", NOW).unwrap();
    let r = AlertRouter::new(0);
    assert!(matches!(st.decide(&r, "ssh_brute", "lab-vm", false), Decision::Silenced(_)));
    assert!(st.decide(&r, "ssh_brute", "pve", false).is_send());
}

#[test]
fn silence_applies_even_to_escalations() {
    let mut st = Store::default();
    st.set("noisy", None, 1.0, "", NOW).unwrap();
    let r = AlertRouter::new(0);
    assert!(matches!(st.decide(&r, "noisy", "h", true), Decision::Silenced(_)));
}

#[test]
fn hours_zero_clears_and_bounds_enforced() {
    let mut st = Store::default();
    st.set("r1", None, 1.0, "", NOW).unwrap();
    let cleared = st.set("r1", None, 0.0, "", NOW).unwrap();
    assert!(cleared.set.is_none());
    assert!(cleared.replaced.is_some(), "clear reports what it removed");
    let r = AlertRouter::new(0);
    assert!(st.decide(&r, "r1", "h", false).is_send());

    assert!(st.set("r1", None, 200.0, "", NOW).is_err(), "cap at 168h");
    assert!(st.set("r1", None, -1.0, "", NOW).is_err());
    assert!(st.set("r1", None, f64::NAN, "", NOW).is_err());
    assert!(st.set("  ", None, 1.0, "", NOW).is_err(), "empty rule");
    assert!(st.set("r1", None, 168.0, "", NOW).is_ok());
}

#[test]
fn clear_with_mismatched_host_scope_is_rejected() {
    let mut st = Store::default();
    st.set("r1", None, 4.0, "fleet-wide", NOW).unwrap();
    let err = st.set("r1", Some("lab-vm"), 0.0, "", NOW).err().unwrap();
    assert_eq!(
        err,
        "silence: rule r1 is silenced with scope all hosts — clear it without --host, or with the matching scope"
    );
    assert!(st.set("r1", None, 0.0, "", NOW).unwrap().set.is_none());
}

#[test]
fn a_clear_with_the_matching_scope_is_accepted() {
    let mut st = Store::default();
    st.set("r1", Some("lab-vm"), 4.0, "", NOW).unwrap();
    assert!(st.set("r1", Some("other"), 0.0, "", NOW).is_err());
    assert!(st.set("r1", Some(" lab-vm "), 0.0, "", NOW).is_ok());
}

#[test]
fn replacing_a_silence_reports_the_old_scope_and_keeps_hits() {
    let mut st = Store::default();
    st.set("r1", None, 4.0, "fleet-wide", NOW).unwrap();
    let r = AlertRouter::new(0);
    assert!(matches!(st.decide(&r, "r1", "a", false), Decision::Silenced(_)));
    assert!(matches!(st.decide(&r, "r1", "b", false), Decision::Silenced(_)));

    let change = st.set("r1", Some("lab-vm"), 2.0, "", NOW).unwrap();
    let replaced = change.replaced.expect("old silence surfaced");
    assert_eq!(replaced.host, None);
    assert_eq!(replaced.hits, 2);
    assert_eq!(change.set.unwrap().hits, 2, "hits carried forward");
    let stored = &st.rows["r1"];
    assert_eq!(stored.hits, 2);
    assert_eq!(stored.created_us, replaced.created_us);
    assert_eq!(stored.until_us, NOW + 2 * HOUR_US);
}

#[test]
fn input_bounds_control_chars_rejected() {
    let mut st = Store::default();
    assert!(st.set("bad\x1b[31mrule", None, 1.0, "", NOW).is_err(), "ANSI in rule");
    assert!(st.set("r1", None, 1.0, "line1\nline2", NOW).is_err(), "newline in reason");
    assert!(st.set(&"x".repeat(300), None, 1.0, "", NOW).is_err(), "rule too long");
    assert!(st.set("r1", None, 1.0, &"y".repeat(2000), NOW).is_err(), "reason too long");
    assert!(st.set("r1", Some("h\x07ost"), 1.0, "", NOW).is_err(), "control in host");
}

#[test]
fn each_fault_of_a_request_is_named() {
    let e = |rule: &str, host: Option<&str>, l: Length, reason: &str| {
        check_request(rule, host, l, reason).err().unwrap()
    };
    let ok = Length::Millis(1);
    assert_eq!(e(" \u{a0}", None, ok, ""), "silence: rule must not be empty");
    assert_eq!(e(&"ä".repeat(129), None, ok, ""), "silence: rule exceeds 256 bytes");
    assert_eq!(e("a\u{85}b", None, ok, ""), "silence: rule contains control characters");
    assert_eq!(e("a", None, Length::Invalid, ""), "silence: hours must be 0..=168 (0 clears)");
    assert_eq!(
        e("a", None, Length::Millis(604_800_001), ""),
        "silence: hours must be 0..=168 (0 clears)"
    );
    assert_eq!(e("a", None, ok, &"r".repeat(1025)), "silence: reason exceeds 1024 bytes");
    assert_eq!(e("a", None, ok, "a\tb"), "silence: reason contains control characters");
    assert_eq!(e("a", Some(&"h".repeat(257)), ok, ""), "silence: invalid host");
    let r = check_request("  rule ", Some("  "), ok, " why\n").unwrap();
    assert_eq!((r.rule.as_str(), r.host, r.reason.as_str()), ("rule", None, "why"));
}

#[test]
fn only_so_many_silences_are_in_force() {
    let r = check_request("new", None, Length::Millis(1000), "").unwrap();
    assert_eq!(
        set_silence(r, None, MAX_ACTIVE_SILENCES, NOW).err().unwrap(),
        "silence: more than 1000 active silences — clear some first"
    );
    let r = check_request("old", None, Length::Millis(1000), "").unwrap();
    let existing = Silence {
        rule: "old".into(),
        host: None,
        until_us: NOW,
        reason: String::new(),
        created_us: NOW - 5,
        hits: 9,
    };
    let change = set_silence(r, Some(existing), MAX_ACTIVE_SILENCES, NOW).unwrap();
    let set = change.set.unwrap();
    assert_eq!((set.hits, set.created_us, set.until_us), (9, NOW - 5, NOW + 1_000_000));
}

#[test]
fn throttle_opens_only_after_record_sent_and_is_per_rule() {
    let mut st = Store::default();
    let mut r = AlertRouter::new(3600);
    assert!(st.decide(&r, "burst_rule", "h1", false).is_send());
    assert!(st.decide(&r, "burst_rule", "h2", false).is_send());
    r.record_sent("burst_rule", NOW / 1_000_000);
    assert_eq!(st.decide(&r, "burst_rule", "h3", false), Decision::Throttled);
    assert!(st.decide(&r, "other_rule", "h1", false).is_send());
    assert!(r
        .decide(None, "burst_rule", "h", false, NOW / 1_000_000 + 3600)
        .is_send());
    assert_eq!(
        r.decide(None, "burst_rule", "h", false, NOW / 1_000_000 + 3599),
        Decision::Throttled
    );
}

#[test]
fn escalations_are_never_throttled() {
    let mut st = Store::default();
    let mut r = AlertRouter::new(3600);
    r.record_sent("scan_rule", NOW / 1_000_000);
    assert_eq!(st.decide(&r, "scan_rule", "h2", false), Decision::Throttled);
    assert!(st.decide(&r, "scan_rule", "h3", true).is_send());
}

#[test]
fn silence_wins_over_throttle_and_counts_hits() {
    let mut st = Store::default();
    st.set("noisy", None, 1.0, "", NOW).unwrap();
    let r = AlertRouter::new(3600);
    assert!(matches!(st.decide(&r, "noisy", "h", false), Decision::Silenced(_)));
    assert!(matches!(st.decide(&r, "noisy", "h", false), Decision::Silenced(_)));
    assert_eq!(st.active(NOW)[0].hits, 2);
}

#[test]
fn unreadable_silences_let_the_alert_out() {
    let r = AlertRouter::new(0);
    assert!(r.decide(None, "any", "h", false, 0).is_send());
}

#[test]
fn a_throttle_of_zero_is_off() {
    let mut r = AlertRouter::new(0);
    r.record_sent("rule", 100);
    assert!(r.decide(None, "rule", "h", false, 100).is_send());
}

#[test]
fn suppressed_alerts_are_described() {
    let s = Silence {
        rule: "ssh_brute".into(),
        host: Some("lab-vm".into()),
        until_us: 0,
        reason: "known scanner".into(),
        created_us: 0,
        hits: 0,
    };
    assert_eq!(
        Decision::Silenced(s.clone()).describe().unwrap(),
        "notification suppressed: silence on rule ssh_brute host lab-vm until 1970-01-01 00:00 UTC (known scanner)"
    );
    let bare = Silence { host: None, reason: String::new(), until_us: 90_061_000_000, ..s };
    assert_eq!(
        Decision::Silenced(bare).describe().unwrap(),
        "notification suppressed: silence on rule ssh_brute until 1970-01-02 01:01 UTC"
    );
    assert_eq!(
        Decision::Throttled.describe().unwrap(),
        "notification suppressed: within the per-rule throttle window"
    );
    assert_eq!(Decision::Send.describe(), None);
}

#[test]
fn silences_that_end_first_come_first() {
    let s = |rule: &str, until_us: i64| SilenceRow {
        rule: rule.into(),
        silence: Some(Silence {
            rule: rule.into(),
            host: None,
            until_us,
            reason: String::new(),
            created_us: 0,
            hits: 0,
        }),
    };
    let rows = vec![
        s("late", 30),
        s("soon", 20),
        s("over", 10),
        SilenceRow { rule: "broken".into(), silence: None },
    ];
    let (live, over) = active_silences(&rows, 10);
    let names: Vec<&str> = live.iter().map(|s| s.rule.as_str()).collect();
    assert_eq!(names, ["soon", "late"]);
    assert_eq!(over, ["over", "broken"]);
}
