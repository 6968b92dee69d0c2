use moirai::errors::SchedulerError;
use moirai::scheduler::Scheduler;
use moirai::scheduler::SubmitOutcome;

#[test]
fn capacity_two_third_waits_then_runs_after_completion() {
    // capacity=2, window=60s, target "A": three submissions — the first
    // two start at once, the third waits; one completion promotes it.
    let mut s = Scheduler::new(5, 60, 8, None);
    s.configure_target("A", 2, 60);
    let r1 = s.submit("A", "fetch", 0);
    let r2 = s.submit("A", "fetch", 0);
    let r3 = s.submit("A", "fetch", 0);
    assert_eq!(r1, Ok(SubmitOutcome::Started(0)));
    assert_eq!(r2, Ok(SubmitOutcome::Started(1)));
    assert_eq!(r3, Ok(SubmitOutcome::Queued(2)));
    assert_eq!(s.running_len(), 2);
    assert_eq!(s.queued_len(), 1);

    let report = s.record_completion(0, 1);
    assert_eq!(report.completed.as_ref().map(|d| d.task_id), Some(0));
    assert!(!report.clamped);
    assert_eq!(report.started.len(), 1);
    assert_eq!(report.started[0].task_id, 2);
    assert_eq!(s.running_len(), 2);
    assert_eq!(s.queued_len(), 0);
}

#[test]
fn queue_full_at_depth_one() {
    // QueueFull configured at depth=1; two denied submissions for a
    // saturated target — the first enqueues, the second bounces.
    let mut s = Scheduler::new(1, 60, 8, Some(1));
    assert_eq!(s.submit("A", "fetch", 0), Ok(SubmitOutcome::Started(0)));
    assert_eq!(s.submit("A", "fetch", 0), Ok(SubmitOutcome::Queued(1)));
    assert_eq!(s.submit("A", "fetch", 0), Err(SchedulerError::QueueFull));
    assert_eq!(s.queued_len(), 1);
}

#[test]
fn empty_target_uses_the_unspecified_bucket() {
    // target_id="" lands in the reserved unspecified-target bucket and
    // is admitted under the global default capacity.
    let mut s = Scheduler::new(2, 60, 8, None);
    assert_eq!(s.submit("", "fetch", 0), Ok(SubmitOutcome::Started(0)));
    assert_eq!(s.submit("", "fetch", 0), Ok(SubmitOutcome::Started(1)));
    assert_eq!(s.submit("", "fetch", 0), Ok(SubmitOutcome::Queued(2)));
    assert_eq!(s.admitted_count("", "fetch"), 2);
}

#[test]
fn stalled_target_does_not_starve_a_ready_one() {
    // The head of the queue belongs to a saturated target; a younger
    // task for a free target is promoted past it.
    let mut s = Scheduler::new(1, 60, 1, None);
    assert_eq!(s.submit("A", "fetch", 0), Ok(SubmitOutcome::Started(0)));
    // Both wait: no worker slot is free, and A is also at capacity.
    assert_eq!(s.submit("A", "fetch", 0), Ok(SubmitOutcome::Queued(1)));
    assert_eq!(s.submit("B", "fetch", 0), Ok(SubmitOutcome::Queued(2)));
    let report = s.record_completion(0, 1);
    // A's waiter is older but inadmissible (task 0's completion freed
    // A's unit... it did: capacity 1, count back to 0). Check ordering:
    // the oldest admissible wins, which is A's waiter here.
    assert_eq!(report.started.len(), 1);
    assert_eq!(report.started[0].task_id, 1);

    // Now saturate A again and finish B-slot bookkeeping to see the
    // younger B task pass a blocked A head.
    let mut s2 = Scheduler::new(1, 60, 2, None);
    assert_eq!(s2.submit("A", "fetch", 0), Ok(SubmitOutcome::Started(0)));
    assert_eq!(s2.submit("B", "fetch", 0), Ok(SubmitOutcome::Started(1)));
    assert_eq!(s2.submit("A", "fetch", 0), Ok(SubmitOutcome::Queued(2)));
    assert_eq!(s2.submit("B", "fetch", 0), Ok(SubmitOutcome::Queued(3)));
    // B's slot frees and B's unit returns; A stays saturated, so the
    // younger B waiter starts while A's older waiter keeps waiting.
    let report2 = s2.record_completion(1, 1);
    assert_eq!(report2.started.len(), 1);
    assert_eq!(report2.started[0].task_id, 3);
    assert_eq!(s2.queued_len(), 1);
}

#[test]
fn promote_ready_pumps_without_a_completion() {
    let mut s = Scheduler::new(1, 60, 8, None);
    assert_eq!(s.submit("A", "fetch", 0), Ok(SubmitOutcome::Started(0)));
    assert_eq!(s.submit("A", "fetch", 5), Ok(SubmitOutcome::Queued(1)));
    // Nothing to do yet: A is at capacity inside its window.
    assert_eq!(s.promote_ready(30).len(), 0);
    // The window elapses; a timer-driven pump promotes the waiter.
    let started = s.promote_ready(60);
    assert_eq!(started.len(), 1);
    assert_eq!(started[0].task_id, 1);
}

#[test]
fn shutdown_rejects_submissions_and_is_idempotent() {
    let mut s = Scheduler::new(1, 60, 1, None);
    assert_eq!(s.submit("A", "fetch", 0), Ok(SubmitOutcome::Started(0)));
    assert_eq!(s.submit("A", "fetch", 0), Ok(SubmitOutcome::Queued(1)));
    assert_eq!(s.submit("B", "fetch", 0), Ok(SubmitOutcome::Queued(2)));

    let cancelled = s.shutdown();
    let ids: Vec<u64> = cancelled.iter().map(|d| d.task_id).collect();
    assert_eq!(ids, vec![1, 2]);
    assert!(!s.is_accepting());
    // Running tasks keep their slots and finish normally.
    assert_eq!(s.running_len(), 1);
    assert_eq!(s.submit("B", "fetch", 1), Err(SchedulerError::ShutdownInProgress));

    // The second shutdown changes nothing and cancels nothing: no task's
    // cancellation is reported twice.
    let again = s.shutdown();
    assert_eq!(again.len(), 0);
    assert!(!s.is_accepting());

    let report = s.record_completion(0, 2);
    assert_eq!(report.completed.map(|d| d.task_id), Some(0));
    assert_eq!(s.running_len(), 0);
}

#[test]
fn cancel_removes_a_queued_task_before_admission() {
    let mut s = Scheduler::new(1, 60, 8, None);
    assert_eq!(s.submit("A", "fetch", 0), Ok(SubmitOutcome::Started(0)));
    assert_eq!(s.submit("A", "fetch", 0), Ok(SubmitOutcome::Queued(1)));
    let removed = s.cancel(1);
    assert_eq!(removed.map(|d| d.task_id), Some(1));
    assert_eq!(s.queued_len(), 0);
    // A running task is past cancelling here; an unknown id is a no-op.
    assert!(s.cancel(0).is_none());
    let report = s.record_completion(0, 1);
    assert_eq!(report.started.len(), 0);
}

#[test]
fn completion_for_an_unknown_task_frees_nothing_but_still_pumps() {
    let mut s = Scheduler::new(1, 60, 1, None);
    assert_eq!(s.submit("A", "fetch", 0), Ok(SubmitOutcome::Started(0)));
    assert_eq!(s.submit("B", "fetch", 0), Ok(SubmitOutcome::Queued(1)));
    let report = s.record_completion(77, 0);
    assert!(report.completed.is_none());
    assert!(!report.clamped);
    assert_eq!(report.started.len(), 0);
    assert_eq!(s.running_len(), 1);
    assert_eq!(s.queued_len(), 1);
}

#[test]
fn descriptors_carry_key_and_arrival_time() {
    let mut s = Scheduler::new(5, 60, 0, None);
    // With no worker slots everything waits, whatever the budget says.
    assert_eq!(s.submit("A", "fetch", 7), Ok(SubmitOutcome::Queued(0)));
    let cancelled = s.shutdown();
    assert_eq!(cancelled.len(), 1);
    assert_eq!(cancelled[0].task_id, 0);
    assert_eq!(cancelled[0].target_id, "A");
    assert_eq!(cancelled[0].task_type, "fetch");
    assert_eq!(cancelled[0].enqueue_time, 7);
}
