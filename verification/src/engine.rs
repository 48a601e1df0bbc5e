//! The dispatch engine's decisions: per-record deadlines, whether a record
//! may still be sent, how a sender's report becomes the record's outcome,
//! and how the per-record outcomes are assembled, in input order, into the
//! run's report.
//!
//! The waiting and the HTTP sends themselves happen outside this crate; a
//! caller executes each plan (suspend for the planned wait, then send) and
//! hands every result back.

use crate::record::{LogRecord, Timestamp};
use vstd::prelude::*;

verus! {

/// What the engine decided for one record: its shifted deadline had already
/// passed at dispatch time, or the record is to be sent after waiting the
/// given number of nanoseconds.
#[derive(Clone, Copy, Debug, PartialEq, Eq, Structural)]
pub enum TaskPlan {
    Elapsed,
    SendAfter(u128),
}

/// What the injected HTTP sender reported for one fired request: the
/// response's status code, or the transport failure's description. A non-2xx
/// status is a response, not a failure.
#[derive(Clone, Debug, PartialEq, Eq)]
pub enum SendResult {
    Response(u16),
    Failed(String),
}

/// The per-record result of a replay attempt.
#[derive(Clone, Debug, PartialEq, Eq)]
pub enum Outcome {
    /// The request was sent and answered; carries the status code.
    Response(u16),
    /// The shifted deadline was already in the past at dispatch time; the
    /// request was never sent.
    DeadlineElapsed,
    /// The send itself failed; carries the transport error's description.
    TransportError(String),
    /// The run was cancelled while this record was still pending.
    Cancelled,
}

/// The instant a record fires at: its recorded instant moved by the shift.
pub open spec fn deadline_nanos(fired_at: Timestamp, shift_secs: i64) -> int {
    fired_at.total_nanos() + shift_secs * 1_000_000_000
}

/// The engine's decision for one record at dispatch instant `now`: a
/// deadline strictly in the past has elapsed; any other waits out exactly
/// the nanoseconds left until it.
pub open spec fn plan_of(fired_at: Timestamp, shift_secs: i64, now: Timestamp) -> TaskPlan {
    if deadline_nanos(fired_at, shift_secs) < now.total_nanos() {
        TaskPlan::Elapsed
    } else {
        TaskPlan::SendAfter((deadline_nanos(fired_at, shift_secs) - now.total_nanos()) as u128)
    }
}

/// Decides one record's plan.
pub fn plan_one(fired_at: Timestamp, shift_secs: i64, now: Timestamp) -> (p: TaskPlan)
    ensures
        p == plan_of(fired_at, shift_secs, now),
{
    let dl: i128 = fired_at.secs as i128 * 1_000_000_000 + fired_at.nanos as i128
        + shift_secs as i128 * 1_000_000_000;
    let nw: i128 = now.secs as i128 * 1_000_000_000 + now.nanos as i128;
    if dl < nw {
        TaskPlan::Elapsed
    } else {
        TaskPlan::SendAfter((dl - nw) as u128)
    }
}

/// Decides every record's plan, in input order. Each record's plan depends
/// on nothing but that record's own instant, the shift and `now`: no record
/// moves, delays or suppresses another.
pub fn plan_tasks(records: &Vec<LogRecord>, shift_secs: i64, now: Timestamp) -> (r: Vec<TaskPlan>)
    ensures
        r@.len() == records@.len(),
        forall|i: int|
            0 <= i < records@.len() ==> r@[i] == plan_of(
                records@[i].accessed_at,
                shift_secs,
                now,
            ),
{
    let mut r: Vec<TaskPlan> = Vec::new();
    let mut i: usize = 0;
    while i < records.len()
        invariant
            0 <= i <= records@.len(),
            r@.len() == i,
            forall|k: int|
                0 <= k < i ==> r@[k] == plan_of(records@[k].accessed_at, shift_secs, now),
        decreases records@.len() - i,
    {
        let p = plan_one(records[i].accessed_at, shift_secs, now);
        r.push(p);
        i = i + 1;
    }
    r
}

/// One record's outcome, from its plan and from what the sender reported
/// for it (nothing, where the record was never sent because its deadline
/// had elapsed, or because the run was cancelled while it waited).
pub open spec fn outcome_of(plan: TaskPlan, sent: Option<SendResult>) -> Outcome {
    match plan {
        TaskPlan::Elapsed => Outcome::DeadlineElapsed,
        TaskPlan::SendAfter(_) => match sent {
            Some(SendResult::Response(status)) => Outcome::Response(status),
            Some(SendResult::Failed(msg)) => Outcome::TransportError(msg),
            None => Outcome::Cancelled,
        },
    }
}

/// Turns one record's plan and send report into its outcome. An elapsed
/// deadline is an outcome of its own and never a send; a planned send that
/// got no report was cancelled while pending.
pub fn task_outcome(plan: &TaskPlan, sent: Option<SendResult>) -> (r: Outcome)
    ensures
        r == outcome_of(*plan, sent),
{
    match plan {
        TaskPlan::Elapsed => Outcome::DeadlineElapsed,
        TaskPlan::SendAfter(_) => match sent {
            Some(SendResult::Response(status)) => Outcome::Response(status),
            Some(SendResult::Failed(msg)) => Outcome::TransportError(msg),
            None => Outcome::Cancelled,
        },
    }
}

/// Whether some report in `tagged`, at a position at or after `lo`, names
/// input position `k`.
pub open spec fn reported_from(tagged: Seq<(usize, Outcome)>, lo: int, k: int) -> bool {
    exists|j: int| lo <= j < tagged.len() && (#[trigger] tagged[j]).0 == k
}

/// When a bag of `(input position, outcome)` reports assembles into a full
/// report for `n` records: one report per record, every position in range,
/// no position reported twice, none left out.
pub open spec fn assembly_ok(n: int, tagged: Seq<(usize, Outcome)>) -> bool {
    &&& tagged.len() == n
    &&& forall|j: int| 0 <= j < tagged.len() ==> (#[trigger] tagged[j]).0 < n
    &&& forall|j1: int, j2: int|
        0 <= j1 < j2 < tagged.len() ==> tagged[j1].0 != tagged[j2].0
    &&& forall|k: int| 0 <= k < n ==> #[trigger] reported_from(tagged, 0, k)
}

/// Assembles per-record outcome reports, tagged with their input positions
/// and arriving in any order, into the run's report in input order. Yields
/// the report exactly when the reports are one per input record.
#[verifier::loop_isolation(false)]
pub fn assemble_outcomes(n: usize, tagged: Vec<(usize, Outcome)>) -> (r: Option<Vec<Outcome>>)
    ensures
        r is Some <==> assembly_ok(n as int, tagged@),
        r matches Some(v) ==> {
            &&& v@.len() == n
            &&& forall|j: int|
                0 <= j < tagged@.len() ==> v@[(#[trigger] tagged@[j]).0 as int] == tagged@[j].1
        },
{
    let ghost orig = tagged@;
    let mut tagged = tagged;
    if tagged.len() != n {
        return None;
    }
    let mut slots: Vec<Option<Outcome>> = Vec::new();
    let mut k: usize = 0;
    while k < n
        invariant
            slots@.len() == k <= n,
            forall|t: int| 0 <= t < k ==> slots@[t] is None,
        decreases n - k,
    {
        slots.push(None);
        k = k + 1;
    }
    while tagged.len() > 0
        invariant
            slots@.len() == n,
            orig.len() == n,
            tagged@.len() <= n,
            tagged@ == orig.subrange(0, tagged@.len() as int),
            forall|j: int|
                tagged@.len() <= j < n ==> (#[trigger] orig[j]).0 < n && slots@[orig[j].0 as int]
                    == Some(orig[j].1),
            forall|j1: int, j2: int|
                tagged@.len() <= j1 < j2 < n ==> orig[j1].0 != orig[j2].0,
            forall|t: int|
                0 <= t < n ==> (slots@[t] is Some <==> #[trigger] reported_from(
                    orig,
                    tagged@.len() as int,
                    t,
                )),
        decreases tagged@.len(),
    {
        let ghost before = tagged@;
        let (idx, oc) = match tagged.pop() {
            Some(p) => p,
            None => {
                return None;
            },
        };
        proof {
            assert(before == orig.subrange(0, before.len() as int));
            assert(tagged@ =~= orig.subrange(0, tagged@.len() as int));
            assert(orig[tagged@.len() as int] == (idx, oc));
        }
        let ghost j0 = tagged@.len() as int;
        if idx >= n {
            // This report's position lies outside the input; the bag can
            // never assemble.
            assert(!assembly_ok(n as int, orig));
            return None;
        }
        if slots[idx].is_some() {
            // A second report for the same position: some later report (in
            // the bag's order) already filled this slot.
            proof {
                assert(reported_from(orig, j0 + 1, idx as int));
                let j1 = choose|j: int| j0 + 1 <= j < n && (#[trigger] orig[j]).0 == idx as int;
                assert(orig[j0].0 == orig[j1].0 && j0 < j1);
                assert(!assembly_ok(n as int, orig));
            }
            return None;
        }
        proof {
            assert(!reported_from(orig, j0 + 1, idx as int));
        }
        slots[idx] = Some(oc);
        proof {
            assert forall|j1: int, j2: int| j0 <= j1 < j2 < n implies orig[j1].0 != orig[j2].0 by {
                if j1 == j0 && orig[j2].0 == orig[j0].0 {
                    assert(reported_from(orig, j0 + 1, idx as int));
                }
            }
            assert forall|t: int| 0 <= t < n implies (slots@[t] is Some
                <==> #[trigger] reported_from(orig, j0, t)) by {
                if t == idx as int {
                    assert(orig[j0].0 == t);
                    assert(reported_from(orig, j0, t));
                } else {
                    if slots@[t] is Some {
                        assert(reported_from(orig, j0 + 1, t));
                        let jw = choose|j: int| j0 + 1 <= j < n && (#[trigger] orig[j]).0 == t;
                        assert(jw >= j0 && orig[jw].0 == t);
                        assert(reported_from(orig, j0, t));
                    } else {
                        if reported_from(orig, j0, t) {
                            let jw = choose|j: int| j0 <= j < n && (#[trigger] orig[j]).0 == t;
                            assert(jw != j0);
                            assert(reported_from(orig, j0 + 1, t));
                        }
                    }
                }
            }
        }
    }
    let ghost slots0 = slots@;
    let mut out: Vec<Outcome> = Vec::new();
    let mut k: usize = 0;
    while k < n
        invariant
            slots@.len() == n,
            slots0.len() == n,
            orig.len() == n,
            out@.len() == k <= n,
            forall|t: int| k <= t < n ==> slots@[t] == slots0[t],
            forall|j: int|
                0 <= j < n ==> (#[trigger] orig[j]).0 < n && slots0[orig[j].0 as int] == Some(
                    orig[j].1,
                ),
            forall|j1: int, j2: int| 0 <= j1 < j2 < n ==> orig[j1].0 != orig[j2].0,
            forall|t: int|
                0 <= t < n ==> (slots0[t] is Some <==> #[trigger] reported_from(orig, 0, t)),
            forall|t: int| 0 <= t < k ==> slots0[t] == Some(out@[t]),
        decreases n - k,
    {
        let slot = &mut slots[k];
        let oc = match slot.take() {
            Some(oc) => oc,
            None => {
                // No report ever named this record's position.
                proof {
                    assert(!reported_from(orig, 0, k as int));
                    assert(!assembly_ok(n as int, orig));
                }
                return None;
            },
        };
        out.push(oc);
        k = k + 1;
    }
    proof {
        assert forall|t: int| 0 <= t < n implies #[trigger] reported_from(orig, 0, t) by {
            assert(slots0[t] == Some(out@[t]));
        }
        assert(assembly_ok(n as int, orig));
        assert forall|j: int| 0 <= j < orig.len() implies out@[(#[trigger] orig[j]).0 as int]
            == orig[j].1 by {
            assert(slots0[orig[j].0 as int] == Some(orig[j].1));
        }
    }
    Some(out)
}

/// A record whose shifted deadline is strictly in the past at dispatch time
/// always yields `DeadlineElapsed`, whatever any sender reported.
pub proof fn lemma_past_deadline_elapsed(
    fired_at: Timestamp,
    shift_secs: i64,
    now: Timestamp,
    sent: Option<SendResult>,
)
    requires
        deadline_nanos(fired_at, shift_secs) < now.total_nanos(),
    ensures
        outcome_of(plan_of(fired_at, shift_secs, now), sent) == Outcome::DeadlineElapsed,
{
}

/// A record whose shifted deadline is not yet past is planned to wait out
/// exactly the time left until the deadline — never less, so it is never
/// sent early — and its outcome is its own sender report's, whatever that
/// report is.
pub proof fn lemma_future_deadline_waits(
    fired_at: Timestamp,
    shift_secs: i64,
    now: Timestamp,
)
    requires
        deadline_nanos(fired_at, shift_secs) >= now.total_nanos(),
    ensures
        plan_of(fired_at, shift_secs, now) == TaskPlan::SendAfter(
            (deadline_nanos(fired_at, shift_secs) - now.total_nanos()) as u128,
        ),
{
}

/// One record's plan depends on its own record alone: two batches that
/// agree on the record at a position get the same plan at that position,
/// whatever stands anywhere else in either batch. With `outcome_of`, which
/// reads one plan and one sender report only, no record's failure can
/// prevent or alter another record's outcome.
pub proof fn lemma_task_isolation(
    records1: Seq<LogRecord>,
    records2: Seq<LogRecord>,
    shift_secs: i64,
    now: Timestamp,
    i: int,
)
    requires
        0 <= i < records1.len(),
        0 <= i < records2.len(),
        records1[i] == records2[i],
    ensures
        plan_of(records1[i].accessed_at, shift_secs, now) == plan_of(
            records2[i].accessed_at,
            shift_secs,
            now,
        ),
{
}

} // verus!
