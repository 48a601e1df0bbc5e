use playback::decode::resolve_log_text;
use playback::engine::{
    assemble_outcomes, plan_one, plan_tasks, task_outcome, Outcome, SendResult, TaskPlan,
};
use playback::record::Timestamp;

fn ts(secs: i64, nanos: u32) -> Timestamp {
    Timestamp { secs, nanos }
}

#[test]
fn past_deadline_is_elapsed() {
    // Shifted deadline strictly before `now`, by a second or by a nanosecond.
    assert_eq!(plan_one(ts(100, 0), 0, ts(101, 0)), TaskPlan::Elapsed);
    assert_eq!(plan_one(ts(100, 0), 0, ts(100, 1)), TaskPlan::Elapsed);
    // A positive shift can rescue it; a negative shift can provoke it.
    assert_eq!(plan_one(ts(100, 0), 10, ts(101, 0)), TaskPlan::SendAfter(9_000_000_000));
    assert_eq!(plan_one(ts(100, 0), -50, ts(100, 0)), TaskPlan::Elapsed);
}

#[test]
fn deadline_now_or_later_waits_exactly() {
    // Exactly at the deadline: a zero wait, not a failure.
    assert_eq!(plan_one(ts(100, 0), 0, ts(100, 0)), TaskPlan::SendAfter(0));
    // Two seconds ahead.
    assert_eq!(plan_one(ts(98, 0), 4, ts(100, 0)), TaskPlan::SendAfter(2_000_000_000));
    // Fractions count.
    assert_eq!(plan_one(ts(100, 750_000_000), 0, ts(100, 250_000_000)), TaskPlan::SendAfter(500_000_000));
}

#[test]
fn plans_are_per_record_and_in_order() {
    let text = "[{\"accessed_at\":\"2024-01-01 00:00:00.000 UTC\",\
        \"url\":\"https://x.test/a\",\
        \"http_method\":\"GET\",\
        \"http_header\":{},\
        \"http_body\":\"\"},\
        {\"accessed_at\":\"2024-01-01 00:00:05.000 UTC\",\
        \"url\":\"https://x.test/b\",\
        \"http_method\":\"GET\",\
        \"http_header\":{},\
        \"http_body\":\"\"}]";
    let records = resolve_log_text(text).unwrap();
    // Dispatch two seconds after the first record's instant.
    let now = ts(1704067202, 0);
    let plans = plan_tasks(&records, 0, now);
    assert_eq!(plans.len(), records.len());
    assert_eq!(plans[0], TaskPlan::Elapsed);
    assert_eq!(plans[1], TaskPlan::SendAfter(3_000_000_000));
}

#[test]
fn single_record_with_zero_shift_after_its_instant_elapses() {
    let text = "[{\"accessed_at\":\"2024-01-01 00:00:00.000 UTC\",\
        \"url\":\"https://x.test/a\",\
        \"http_method\":\"GET\",\
        \"http_header\":{},\
        \"http_body\":\"\"}]";
    let records = resolve_log_text(text).unwrap();
    // Any dispatch instant after 2024-01-01 00:00:00 UTC.
    let now = ts(1767225600, 0);
    let plans = plan_tasks(&records, 0, now);
    let outcome = task_outcome(&plans[0], None);
    assert_eq!(outcome, Outcome::DeadlineElapsed);
}

#[test]
fn single_record_shifted_into_the_future_is_sent() {
    let text = "[{\"accessed_at\":\"2024-01-01 00:00:00.000 UTC\",\
        \"url\":\"https://x.test/a\",\
        \"http_method\":\"GET\",\
        \"http_header\":{},\
        \"http_body\":\"\"}]";
    let records = resolve_log_text(text).unwrap();
    let now = ts(1767225600, 0);
    // A shift that lands the deadline two seconds past `now`.
    let shift = 1767225600 - 1704067200 + 2;
    let plans = plan_tasks(&records, shift, now);
    assert_eq!(plans[0], TaskPlan::SendAfter(2_000_000_000));
    // Whatever the sender then reports is the outcome, never DeadlineElapsed.
    let outcome = task_outcome(&plans[0], Some(SendResult::Response(200)));
    assert_eq!(outcome, Outcome::Response(200));
}

#[test]
fn duplicate_timestamps_each_get_their_own_wait() {
    let text = "[{\"accessed_at\":\"2024-01-01 00:00:05.000 UTC\",\
        \"url\":\"https://x.test/a\",\
        \"http_method\":\"GET\",\
        \"http_header\":{},\
        \"http_body\":\"\"},\
        {\"accessed_at\":\"2024-01-01 00:00:05.000 UTC\",\
        \"url\":\"https://x.test/b\",\
        \"http_method\":\"POST\",\
        \"http_header\":{},\
        \"http_body\":\"\"}]";
    let records = resolve_log_text(text).unwrap();
    let now = ts(1704067200, 0);
    let plans = plan_tasks(&records, 0, now);
    // Both fire five seconds out, independently and concurrently.
    assert_eq!(plans[0], TaskPlan::SendAfter(5_000_000_000));
    assert_eq!(plans[1], TaskPlan::SendAfter(5_000_000_000));
    let outcomes = vec![
        task_outcome(&plans[0], Some(SendResult::Response(200))),
        task_outcome(&plans[1], Some(SendResult::Response(201))),
    ];
    assert_eq!(outcomes, vec![Outcome::Response(200), Outcome::Response(201)]);
}

#[test]
fn outcome_follows_own_send_report() {
    let wait = TaskPlan::SendAfter(5);
    // A non-2xx status is still a response, not a failure.
    assert_eq!(task_outcome(&wait, Some(SendResult::Response(404))), Outcome::Response(404));
    assert_eq!(
        task_outcome(&wait, Some(SendResult::Failed(String::from("connection refused")))),
        Outcome::TransportError(String::from("connection refused"))
    );
    // A planned send that never got a report was cancelled while pending.
    assert_eq!(task_outcome(&wait, None), Outcome::Cancelled);
    // An elapsed deadline ignores any report: the request was never sent.
    assert_eq!(
        task_outcome(&TaskPlan::Elapsed, Some(SendResult::Response(200))),
        Outcome::DeadlineElapsed
    );
}

#[test]
fn one_failure_leaves_other_outcomes_alone() {
    let plans = vec![
        TaskPlan::Elapsed,
        TaskPlan::SendAfter(0),
        TaskPlan::SendAfter(10),
    ];
    let reports = vec![
        None,
        Some(SendResult::Failed(String::from("timed out"))),
        Some(SendResult::Response(204)),
    ];
    let outcomes: Vec<Outcome> = plans
        .iter()
        .zip(reports.into_iter())
        .map(|(p, s)| task_outcome(p, s))
        .collect();
    assert_eq!(outcomes[0], Outcome::DeadlineElapsed);
    assert_eq!(outcomes[1], Outcome::TransportError(String::from("timed out")));
    assert_eq!(outcomes[2], Outcome::Response(204));
}

#[test]
fn assembles_outcomes_in_input_order() {
    let tagged = vec![
        (2usize, Outcome::Response(200)),
        (0usize, Outcome::DeadlineElapsed),
        (1usize, Outcome::TransportError(String::from("reset"))),
    ];
    let out = assemble_outcomes(3, tagged).unwrap();
    assert_eq!(out[0], Outcome::DeadlineElapsed);
    assert_eq!(out[1], Outcome::TransportError(String::from("reset")));
    assert_eq!(out[2], Outcome::Response(200));
}

#[test]
fn assembly_demands_one_report_per_record() {
    // One report short.
    assert!(assemble_outcomes(2, vec![(0, Outcome::DeadlineElapsed)]).is_none());
    // A duplicate position.
    assert!(
        assemble_outcomes(
            2,
            vec![(0, Outcome::DeadlineElapsed), (0, Outcome::Cancelled)]
        )
        .is_none()
    );
    // A position outside the input.
    assert!(
        assemble_outcomes(
            2,
            vec![(0, Outcome::DeadlineElapsed), (2, Outcome::Cancelled)]
        )
        .is_none()
    );
    // The empty run assembles to the empty report.
    assert_eq!(assemble_outcomes(0, vec![]).unwrap(), vec![]);
}
