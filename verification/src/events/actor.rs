//! The one task that owns the events table, step by step: what it does with a
//! submission, and how it follows its table through a rebuild.
//!
//! A submission is answered before a rebuild may begin. Archives are marked as dropped
//! from the table only when a rebuild was committed and the task has followed the table
//! to it, and a task that cannot follow the table stops.

use crate::events::dedup;
use crate::events::writer::{reload_failed, CompactPolicy, Intake, Reload};
use vstd::prelude::*;

verus! {

/// What the task is doing.
pub enum Doing {
    /// It waits for a submission.
    Waiting,
    /// It appends the rows of a submission that are new.
    Appending { rows: usize },
    /// It answers a submission: with the rows that were stored, or why none were.
    Answering { result: Result<usize, String> },
    /// It rebuilds the table.
    Rebuilding,
    /// It follows the table to where the rebuild has put it, after so many failures.
    Following { failures: u32 },
    /// It waits some seconds before it tries to follow again.
    Pausing { failures: u32, secs: u64 },
    /// It marks what the rebuild has dropped, and has the retired files removed.
    Cleaning,
    /// It leaves, with this status.
    Stopped { code: i32 },
}

/// What came of what the task was doing.
pub enum Report {
    /// A submission came of which so many rows are new.
    Submitted { rows: usize },
    /// A submission came from which no batch could be built.
    Unbuilt { error: String },
    Appended,
    NotAppended { error: String },
    /// The answer was given, when the table had so many snapshots.
    Answered { snapshots: usize, now_ms: u64 },
    Rebuilt,
    NotRebuilt { now_ms: u64 },
    Followed,
    NotFollowed,
    Paused,
    /// The rebuilt table has so many snapshots.
    Cleaned { snapshots: usize },
}

/// A submission of which rows were stored.
pub open spec fn stored(result: Result<usize, String>) -> bool {
    result is Ok && result->Ok_0 > 0
}

/// What the task does after a report, and when it is to rebuild from there on. What
/// does not bear on what it is doing changes nothing.
pub open spec fn after(doing: Doing, policy: CompactPolicy, report: Report) -> (Doing, CompactPolicy) {
    match (doing, report) {
        (Doing::Waiting, Report::Submitted { rows }) => if rows > 0 {
            (Doing::Appending { rows }, policy)
        } else {
            (Doing::Answering { result: Ok(0) }, policy)
        },
        (Doing::Waiting, Report::Unbuilt { error }) => (
            Doing::Answering { result: Err(error) },
            policy,
        ),
        (Doing::Appending { rows }, Report::Appended) => (
            Doing::Answering { result: Ok(rows) },
            policy,
        ),
        (Doing::Appending { rows }, Report::NotAppended { error }) => (
            Doing::Answering { result: Err(error) },
            policy,
        ),
        (Doing::Answering { result }, Report::Answered { snapshots, now_ms }) => if policy.wants(
            stored(result),
            snapshots,
            now_ms,
        ) {
            (Doing::Rebuilding, policy)
        } else {
            (Doing::Waiting, policy)
        },
        (Doing::Rebuilding, Report::Rebuilt) => (Doing::Following { failures: 0 }, policy),
        (Doing::Rebuilding, Report::NotRebuilt { now_ms }) => (
            Doing::Waiting,
            CompactPolicy { failed_at_ms: Some(now_ms), ..policy },
        ),
        (Doing::Following { failures }, Report::Followed) => (Doing::Cleaning, policy),
        (Doing::Following { failures }, Report::NotFollowed) => if failures == 0 {
            (Doing::Pausing { failures: 1, secs: 2 }, policy)
        } else {
            (Doing::Stopped { code: 70 }, policy)
        },
        (Doing::Pausing { failures, secs }, Report::Paused) => (
            Doing::Following { failures },
            policy,
        ),
        (Doing::Cleaning, Report::Cleaned { snapshots }) => (
            Doing::Waiting,
            CompactPolicy { baseline: snapshots, failed_at_ms: None, ..policy },
        ),
        _ => (doing, policy),
    }
}

/// How many rows a mask keeps.
pub open spec fn kept_rows(mask: Seq<bool>) -> nat
    decreases mask.len(),
{
    if mask.len() == 0 {
        0
    } else {
        kept_rows(mask.drop_last()) + if mask.last() {
            1nat
        } else {
            0
        }
    }
}

fn count_kept(mask: &Vec<bool>) -> (r: usize)
    ensures
        r == kept_rows(mask@),
        r <= mask.len(),
{
    let mut n: usize = 0;
    let mut i: usize = 0;
    while i < mask.len()
        invariant
            i <= mask.len(),
            n <= i,
            n == kept_rows(mask@.take(i as int)),
        decreases mask.len() - i,
    {
        assert(mask@.take(i + 1).drop_last() =~= mask@.take(i as int));
        if mask[i] {
            n += 1;
        }
        i += 1;
    }
    assert(mask@.take(i as int) =~= mask@);
    n
}

/// The task that owns the events table.
pub struct Actor {
    pub intake: Intake,
    pub policy: CompactPolicy,
    pub doing: Doing,
}

impl Actor {
    /// A task that remembers `cap` ids and rebuilds at the given threshold.
    pub fn new(cap: usize, threshold: usize) -> (r: Actor)
        ensures
            r.doing == Doing::Waiting,
            r.policy == (CompactPolicy { threshold, baseline: 1, failed_at_ms: None }),
            r.intake.memory() == if cap > 0 {
                Some((Seq::<Seq<char>>::empty(), cap as nat))
            } else {
                None
            },
    {
        Actor {
            intake: Intake::new(cap),
            policy: CompactPolicy::new(threshold),
            doing: Doing::Waiting,
        }
    }

    /// Takes a submission, and says which of its rows are to be appended: those whose
    /// ids it does not remember.
    pub fn submitted(&mut self, rows: usize, ids: Option<&Vec<Option<String>>>) -> (r: Vec<bool>)
        requires
            old(self).doing is Waiting,
            ids is Some ==> ids->0.len() == rows,
        ensures
            r.len() == rows,
            match (old(self).intake.memory(), ids) {
                (Some(m), Some(v)) => {
                    &&& forall|i: int|
                        0 <= i < rows ==> (#[trigger] r@[i]) == dedup::kept(
                            m.0,
                            m.1,
                            dedup::id_texts(v@),
                            i,
                        )
                    &&& final(self).intake.memory() == Some(
                        (dedup::remembered_all(m.0, m.1, dedup::id_texts(v@)), m.1),
                    )
                },
                _ => {
                    &&& forall|i: int| 0 <= i < rows ==> #[trigger] r@[i]
                    &&& final(self).intake.memory() == old(self).intake.memory()
                },
            },
            (final(self).doing, final(self).policy) == after(
                old(self).doing,
                old(self).policy,
                (Report::Submitted { rows: kept_rows(r@) as usize }),
            ),
    {
        let mask = self.intake.mask(rows, ids);
        let left = count_kept(&mask);
        self.doing = if left > 0 {
            Doing::Appending { rows: left }
        } else {
            Doing::Answering { result: Ok(0) }
        };
        mask
    }

    /// Takes note of what came of what the task was doing.
    pub fn happened(&mut self, report: Report)
        ensures
            (final(self).doing, final(self).policy) == after(
                old(self).doing,
                old(self).policy,
                report,
            ),
            final(self).intake == old(self).intake,
    {
        match report {
            Report::Submitted { rows } => {
                if let Doing::Waiting = self.doing {
                    self.doing = if rows > 0 {
                        Doing::Appending { rows }
                    } else {
                        Doing::Answering { result: Ok(0) }
                    };
                }
            },
            Report::Unbuilt { error } => {
                if let Doing::Waiting = self.doing {
                    self.doing = Doing::Answering { result: Err(error) };
                }
            },
            Report::Appended => {
                if let Doing::Appending { rows } = self.doing {
                    self.doing = Doing::Answering { result: Ok(rows) };
                }
            },
            Report::NotAppended { error } => {
                if let Doing::Appending { .. } = self.doing {
                    self.doing = Doing::Answering { result: Err(error) };
                }
            },
            Report::Answered { snapshots, now_ms } => {
                if let Doing::Answering { result } = &self.doing {
                    let stored = match result {
                        Ok(n) => *n > 0,
                        Err(_) => false,
                    };
                    self.doing = if self.policy.due(stored, snapshots, now_ms) {
                        Doing::Rebuilding
                    } else {
                        Doing::Waiting
                    };
                }
            },
            Report::Rebuilt => {
                if let Doing::Rebuilding = self.doing {
                    self.doing = Doing::Following { failures: 0 };
                }
            },
            Report::NotRebuilt { now_ms } => {
                if let Doing::Rebuilding = self.doing {
                    self.policy.attempted(None, now_ms);
                    self.doing = Doing::Waiting;
                }
            },
            Report::Followed => {
                if let Doing::Following { .. } = self.doing {
                    self.doing = Doing::Cleaning;
                }
            },
            Report::NotFollowed => {
                if let Doing::Following { failures } = self.doing {
                    let failures: u32 = if failures == 0 {
                        1
                    } else {
                        2
                    };
                    self.doing = match reload_failed(failures) {
                        Reload::RetryAfter(secs) => Doing::Pausing { failures, secs },
                        Reload::Exit(code) => Doing::Stopped { code },
                    };
                }
            },
            Report::Paused => {
                if let Doing::Pausing { failures, .. } = self.doing {
                    self.doing = Doing::Following { failures };
                }
            },
            Report::Cleaned { snapshots } => {
                if let Doing::Cleaning = self.doing {
                    self.policy.attempted(Some(snapshots), 0);
                    self.doing = Doing::Waiting;
                }
            },
        }
    }
}

/// A rebuild begins only once a submission of which rows were stored has been answered.
pub proof fn answers_come_before_rebuilds(doing: Doing, policy: CompactPolicy, report: Report)
    requires
        !(doing is Rebuilding),
        after(doing, policy, report).0 is Rebuilding,
    ensures
        doing is Answering,
        stored(doing->result),
        report is Answered,
{
}

/// What a rebuild has dropped is marked only when the rebuild was committed and the task
/// follows the rebuilt table.
pub proof fn marks_come_after_the_swap(doing: Doing, policy: CompactPolicy, report: Report)
    requires
        !(doing is Cleaning),
        after(doing, policy, report).0 is Cleaning,
    ensures
        doing is Following,
        report is Followed,
{
}

/// Between a rebuild and the moment that the task follows its table nothing is appended.
/// A second failure to follow stops the task, and a task that has stopped does nothing
/// any more.
pub proof fn nothing_is_appended_to_a_retired_table(
    doing: Doing,
    policy: CompactPolicy,
    report: Report,
)
    ensures
        doing is Rebuilding || doing is Following || doing is Pausing ==> {
            let next = after(doing, policy, report).0;
            !(next is Appending) && (next is Waiting ==> doing is Rebuilding && report is NotRebuilt)
        },
        doing is Following && doing->Following_failures > 0 && report is NotFollowed ==> after(
            doing,
            policy,
            report,
        ).0 is Stopped,
        doing is Stopped ==> after(doing, policy, report).0 == doing,
{
}

/// A submission is answered with what became of it: with the number of its new rows where
/// they were appended, with none where no row was new, and with the error where it could not
/// be built or appended. None of this changes when the table is rebuilt.
pub proof fn a_submission_is_answered_with_what_was_stored(
    policy: CompactPolicy,
    rows: usize,
    error: String,
)
    ensures
        rows > 0 ==> after(
            after(Doing::Waiting, policy, Report::Submitted { rows }).0,
            policy,
            Report::Appended,
        ) == (Doing::Answering { result: Ok(rows) }, policy),
        rows > 0 ==> after(
            after(Doing::Waiting, policy, Report::Submitted { rows }).0,
            policy,
            Report::NotAppended { error },
        ) == (Doing::Answering { result: Err(error) }, policy),
        after(Doing::Waiting, policy, Report::Submitted { rows: 0 }) == (
            Doing::Answering { result: Ok(0) },
            policy,
        ),
        after(Doing::Waiting, policy, Report::Unbuilt { error }) == (
            Doing::Answering { result: Err(error) },
            policy,
        ),
        after(Doing::Waiting, policy, Report::Submitted { rows }).1 == policy,
{
}

/// After an answer the table is rebuilt exactly where rows were stored and a rebuild is due,
/// and otherwise the task waits for the next submission.
pub proof fn a_rebuild_follows_an_answer_where_it_is_due(
    policy: CompactPolicy,
    result: Result<usize, String>,
    snapshots: usize,
    now_ms: u64,
)
    ensures
        ({
            let next = after(
                Doing::Answering { result },
                policy,
                Report::Answered { snapshots, now_ms },
            );
            &&& next.1 == policy
            &&& next.0 is Rebuilding || next.0 is Waiting
            &&& next.0 is Rebuilding <==> {
                &&& result is Ok
                &&& result->Ok_0 > 0
                &&& policy.threshold > 0
                &&& snapshots >= policy.baseline + policy.threshold
                &&& policy.failed_at_ms is None || now_ms >= policy.failed_at_ms->0 + 600_000
            }
        }),
{
}

/// A rebuild that is committed is followed and cleaned up behind, and from then on the
/// snapshots count from those that it left; one that failed is remembered with its time and
/// leaves the count. A first failure to follow is tried again after two seconds, a second
/// ends the task.
pub proof fn a_rebuild_runs_its_course(
    policy: CompactPolicy,
    snapshots: usize,
    failures: u32,
    secs: u64,
    now_ms: u64,
)
    ensures
        after(Doing::Rebuilding, policy, Report::Rebuilt) == (
            Doing::Following { failures: 0 },
            policy,
        ),
        after(Doing::Following { failures }, policy, Report::Followed) == (
            Doing::Cleaning,
            policy,
        ),
        ({
            let next = after(Doing::Cleaning, policy, Report::Cleaned { snapshots });
            &&& next.0 is Waiting
            &&& next.1.baseline == snapshots
            &&& next.1.failed_at_ms is None
            &&& next.1.threshold == policy.threshold
        }),
        ({
            let next = after(Doing::Rebuilding, policy, Report::NotRebuilt { now_ms });
            &&& next.0 is Waiting
            &&& next.1.baseline == policy.baseline
            &&& next.1.failed_at_ms == Some(now_ms)
            &&& next.1.threshold == policy.threshold
        }),
        after(Doing::Following { failures: 0 }, policy, Report::NotFollowed) == (
            Doing::Pausing { failures: 1, secs: 2 },
            policy,
        ),
        after(Doing::Pausing { failures, secs }, policy, Report::Paused) == (
            Doing::Following { failures },
            policy,
        ),
        failures > 0 ==> after(Doing::Following { failures }, policy, Report::NotFollowed) == (
            Doing::Stopped { code: 70 },
            policy,
        ),
{
}

/// The rows that a mask keeps are counted one by one.
pub proof fn kept_rows_are_counted(mask: Seq<bool>, more: bool)
    ensures
        kept_rows(mask.push(more)) - kept_rows(mask) == if more {
            1int
        } else {
            0
        },
        kept_rows(Seq::empty()) == 0,
{
    assert(mask.push(more).drop_last() =~= mask);
}

} // verus!
