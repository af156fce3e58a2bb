use std::collections::BTreeMap;

use garmr::state::ingest_seq::{
    evict_stale_epochs, health_row, ingest_seq_health, observe, seq_key, seq_prefix, EpochRow,
    SeqHealth, SeqState, SeqVerdict, EPOCHS_PER_COLLECTOR_CAP, MISSING_CAP,
};

/// The rows of the table, by key.
struct Rows {
    rows: BTreeMap<String, SeqState>,
    clock: i64,
}

impl Rows {
    fn new() -> Rows {
        Rows { rows: BTreeMap::new(), clock: 0 }
    }

    fn observe(&mut self, collector: &str, epoch: u64, seq: u64) -> SeqVerdict {
        self.clock += 1;
        let key = seq_key(collector, epoch);
        let stored = self.rows.get(&key).cloned();
        let is_new = stored.is_none();
        let (state, verdict) = observe(stored, seq, self.clock);
        self.rows.insert(key.clone(), state);
        if is_new {
            let prefix = seq_prefix(collector);
            let list: Vec<EpochRow> = self
                .rows
                .iter()
                .filter(|(k, _)| k.starts_with(&prefix))
                .map(|(k, s)| EpochRow { key: k.clone(), state: Some(s.clone()) })
                .collect();
            let e = evict_stale_epochs(&list, &key);
            for i in &e.victims {
                self.rows.remove(&list[*i].key);
            }
            if let Some((i, s)) = e.rewritten {
                self.rows.insert(list[i].key.clone(), s);
            }
        }
        verdict
    }

    fn health(&self) -> Vec<SeqHealth> {
        ingest_seq_health(self.rows.iter().filter_map(|(k, s)| health_row(k, s)).collect())
    }
}

#[test]
fn first_and_in_order_advance() {
    let mut s = Rows::new();
    assert_eq!(s.observe("c1", 1, 5), SeqVerdict::FirstOfEpoch);
    assert_eq!(s.observe("c1", 1, 6), SeqVerdict::Advance);
    assert_eq!(s.observe("c1", 1, 7), SeqVerdict::Advance);
    let h = &s.health()[0];
    assert_eq!(h.high_seq, 7);
    assert_eq!(h.gaps, 0);
    assert_eq!(h.outstanding, 0);
}

#[test]
fn out_of_order_within_tolerance_is_not_a_gap() {
    let mut s = Rows::new();
    s.observe("c1", 0, 1);
    assert_eq!(s.observe("c1", 0, 3), SeqVerdict::Advance);
    assert_eq!(s.health()[0].outstanding, 1);
    assert_eq!(s.observe("c1", 0, 2), SeqVerdict::Reordered);
    let h = &s.health()[0];
    assert_eq!(h.gaps, 0);
    assert_eq!(h.outstanding, 0);
    assert_eq!(h.high_seq, 3);
}

#[test]
fn retry_below_watermark_is_a_replay_never_a_gap() {
    let mut s = Rows::new();
    s.observe("c1", 0, 10);
    s.observe("c1", 0, 11);
    assert_eq!(s.observe("c1", 0, 11), SeqVerdict::Replay);
    assert_eq!(s.observe("c1", 0, 10), SeqVerdict::Replay);
    let h = &s.health()[0];
    assert_eq!(h.high_seq, 11);
    assert_eq!(h.gaps, 0);
    assert_eq!(h.replays, 2);
}

#[test]
fn a_jump_beyond_the_cap_confirms_loss() {
    let mut s = Rows::new();
    s.observe("c1", 0, 0);
    let big = (MISSING_CAP as u64) + 101;
    match s.observe("c1", 0, big) {
        SeqVerdict::Gap { newly_lost } => assert_eq!(newly_lost, 100),
        v => panic!("expected Gap, got {v:?}"),
    }
    let h = &s.health()[0];
    assert_eq!(h.gaps, 100);
    assert_eq!(h.outstanding, MISSING_CAP as u64);
}

#[test]
fn seq_max_then_zero_does_not_overflow_or_lower_high() {
    let mut s = Rows::new();
    assert_eq!(s.observe("c1", 0, u64::MAX), SeqVerdict::FirstOfEpoch);
    assert_eq!(s.observe("c1", 0, 0), SeqVerdict::Replay);
    assert_eq!(s.health()[0].high_seq, u64::MAX);
}

#[test]
fn new_epoch_resets_and_epochs_are_capped_per_collector() {
    let mut s = Rows::new();
    for e in 0..(EPOCHS_PER_COLLECTOR_CAP as u64 + 5) {
        assert_eq!(s.observe("c1", e, 0), SeqVerdict::FirstOfEpoch);
    }
    let rows: Vec<_> = s.health().into_iter().filter(|r| r.collector_id == "c1").collect();
    assert!(rows.len() <= EPOCHS_PER_COLLECTOR_CAP);
    assert_eq!(rows.len(), EPOCHS_PER_COLLECTOR_CAP);
}

#[test]
fn an_old_epoch_that_comes_back_is_kept_and_the_rest_stay_few() {
    let mut s = Rows::new();
    for e in 1..=(EPOCHS_PER_COLLECTOR_CAP as u64) {
        s.observe("c1", e, 0);
    }
    s.observe("c1", 0, 7);
    let epochs: Vec<u64> = s.health().iter().map(|h| h.epoch).collect();
    assert_eq!(epochs.len(), EPOCHS_PER_COLLECTOR_CAP);
    assert!(epochs.contains(&0));
    assert!(!epochs.contains(&1));
}

#[test]
fn outstanding_numbers_of_a_removed_epoch_count_as_lost() {
    let mut s = Rows::new();
    s.observe("c1", 0, 1);
    s.observe("c1", 0, 5);
    for e in 1..=(EPOCHS_PER_COLLECTOR_CAP as u64) {
        s.observe("c1", e, 0);
    }
    let h = s.health();
    assert_eq!(h.iter().map(|x| x.gaps).sum::<u64>(), 3);
    assert_eq!(h.iter().find(|x| x.epoch == 1).unwrap().gaps, 3);
}

#[test]
fn distinct_collectors_are_isolated() {
    let mut s = Rows::new();
    s.observe("a", 0, 1);
    s.observe("b", 0, 50);
    assert_eq!(s.observe("a", 0, 2), SeqVerdict::Advance);
    assert_eq!(s.observe("b", 0, 51), SeqVerdict::Advance);
    assert_eq!(s.health().len(), 2);
}

#[test]
fn keys_sort_by_epoch() {
    assert_eq!(seq_key("c|1", 7), "c|1|00000000000000000007");
    assert!(seq_key("c", 9) < seq_key("c", 10));
    let h = health_row(&seq_key("c|1", 7), &SeqState::default()).unwrap();
    assert_eq!((h.collector_id.as_str(), h.epoch), ("c|1", 7));
    assert!(health_row("no-epoch", &SeqState::default()).is_none());
}

#[test]
fn only_gaps_are_worth_a_line() {
    assert!(SeqVerdict::Gap { newly_lost: 1 }.is_gap());
    assert!(!SeqVerdict::Advance.is_gap());
    assert!(!SeqVerdict::Replay.is_gap());
}
