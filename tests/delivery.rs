use zero2prod::backoff::{add_jitter, backoff_ceiling, get_expo_backoff_full_jitter};
use zero2prod::configuration::{IdempotencySettings, IssueDeliverySettings};
use zero2prod::delivery_status::next_retry_label;
use zero2prod::domain::subscriber_email::SubscriberEmail;
use zero2prod::idempotency::{replay_step, IdempotencyKey, Lookup, ReplayStep, POLL_INTERVAL_MS};
use zero2prod::publish::{publish_newsletter, see_other, PublishOutcome, NEWSLETTERS_PAGE};
use zero2prod::queue::DeliveryQueue;
use zero2prod::store::{NextAction, Store};
use zero2prod::sweeper::{initial_delay_ms, pause_ms as sweep_pause_ms, sweep, SweepWait, SweeperState};
use zero2prod::worker::{
    decide, finish_delivery, finish_task, pause_ms, retry_attempt, start_delivery, Attempt,
    DeliveryReport, ExecutionOutcome, TaskFate,
};

fn settings(max_retries: i16) -> IssueDeliverySettings {
    IssueDeliverySettings { backoff_base_secs: 1, backoff_cap_secs: 60, max_retries }
}

fn recipients(names: &[&str]) -> Vec<String> {
    names.iter().map(|s| s.to_string()).collect()
}

fn publish(store: &mut Store, key: &str, to: &[&str], now: i64) -> PublishOutcome {
    publish_newsletter(
        store,
        7,
        "Newsletter title".to_string(),
        "Newsletter body as plain text".to_string(),
        "<p>Newsletter body as HTML</p>".to_string(),
        key.to_string(),
        recipients(to),
        now,
    )
    .ok()
    .unwrap()
}

#[test]
fn backoff_stays_within_the_window() {
    for _ in 0..200 {
        let d = get_expo_backoff_full_jitter(1000, 1000, 1);
        assert!((0..=1000).contains(&d));
        let d = get_expo_backoff_full_jitter(1000, 60000, 10);
        assert!((0..=60000).contains(&d));
    }
}

#[test]
fn backoff_ceiling_doubles_until_the_cap() {
    assert_eq!(backoff_ceiling(1000, 60000, 0), 1000);
    assert_eq!(backoff_ceiling(1000, 60000, 1), 2000);
    assert_eq!(backoff_ceiling(1000, 60000, 5), 32000);
    assert_eq!(backoff_ceiling(1000, 60000, 6), 60000);
    assert_eq!(backoff_ceiling(1000, 60000, 10), 60000);
    assert_eq!(backoff_ceiling(1000, 1000, 1), 1000);
    assert_eq!(backoff_ceiling(i64::MAX / 2, i64::MAX, 40), i64::MAX);
    assert_eq!(backoff_ceiling(0, 5, 3), 0);
}

#[test]
fn jitter_stays_within_ten_percent() {
    for _ in 0..200 {
        let d = add_jitter(10_000);
        assert!((9_000..=11_000).contains(&d));
    }
    assert_eq!(add_jitter(0), 0);
}

#[test]
fn retry_counts_and_budget() {
    assert_eq!(retry_attempt(0, 3), Some(1));
    assert_eq!(retry_attempt(1, 3), Some(2));
    assert_eq!(retry_attempt(2, 3), None);
    assert_eq!(retry_attempt(i16::MAX, i16::MAX), None);
    assert_eq!(
        decide(DeliveryReport::TransientFailure, 0, 3, 100, 50),
        TaskFate::Rescheduled { n_retries: 1, execute_after: 150 }
    );
    assert_eq!(decide(DeliveryReport::Sent, 0, 3, 100, 50), TaskFate::Delivered);
    assert_eq!(decide(DeliveryReport::InvalidRecipient, 0, 3, 100, 50), TaskFate::Dropped);
    assert_eq!(decide(DeliveryReport::TransientFailure, 2, 3, 100, 50), TaskFate::Exhausted);
}

#[test]
fn loop_pauses() {
    assert_eq!(pause_ms(Some(ExecutionOutcome::TaskCompleted)), 0);
    assert_eq!(pause_ms(Some(ExecutionOutcome::EmptyQueue)), 10_000);
    assert_eq!(pause_ms(None), 1_000);
}

#[test]
fn a_failed_delivery_is_retried_with_one_more_retry() {
    let mut queue = DeliveryQueue::new();
    queue.enqueue(1, &recipients(&["a@example.com"]), 0);
    let task = queue.dequeue(0).unwrap();
    let fate = finish_task(&mut queue, &task, DeliveryReport::TransientFailure, &settings(5), 1_000);
    match fate {
        TaskFate::Rescheduled { n_retries, execute_after } => {
            assert_eq!(n_retries, 1);
            assert!((1_000..=3_000).contains(&execute_after));
        }
        other => panic!("unexpected fate {:?}", other),
    }
    assert_eq!(queue.len(), 1);
    assert_eq!(queue.retries_of(1, "a@example.com"), Some(1));
    // It is let go of, but not due before its new time.
    assert!(queue.dequeue(999).is_none());
    assert!(queue.dequeue(3_000).is_some());
}

#[test]
fn a_task_failing_twice_with_budget_two_is_dropped() {
    let mut queue = DeliveryQueue::new();
    queue.enqueue(1, &recipients(&["a@example.com"]), 0);
    let task = queue.dequeue(0).unwrap();
    finish_task(&mut queue, &task, DeliveryReport::TransientFailure, &settings(2), 0);
    assert_eq!(queue.retries_of(1, "a@example.com"), Some(1));
    let task = queue.dequeue(i64::MAX / 2).unwrap();
    assert_eq!(task.n_retries, 1);
    let fate = finish_task(&mut queue, &task, DeliveryReport::TransientFailure, &settings(2), 0);
    assert_eq!(fate, TaskFate::Exhausted);
    assert!(queue.is_empty());
}

#[test]
fn invalid_recipients_are_dropped_at_once() {
    let mut queue = DeliveryQueue::new();
    queue.enqueue(1, &recipients(&["not-an-email"]), 0);
    let task = queue.dequeue(0).unwrap();
    assert!(SubscriberEmail::from_str(&task.recipient).is_err());
    let fate = finish_task(&mut queue, &task, DeliveryReport::InvalidRecipient, &settings(5), 0);
    assert_eq!(fate, TaskFate::Dropped);
    assert!(queue.is_empty());
}

#[test]
fn competing_workers_never_share_a_task() {
    let mut queue = DeliveryQueue::new();
    let names: Vec<String> = (0..20).map(|i| format!("user{}@example.com", i)).collect();
    queue.enqueue(1, &names, 0);
    queue.enqueue(2, &names, 0);
    let mut held = Vec::new();
    let mut seen = std::collections::HashSet::new();
    // Four workers poll in turn; each settles its task on its next turn.
    let mut turn = 0;
    loop {
        let worker = turn % 4;
        if let Some(pos) = held.iter().position(|(w, _)| *w == worker) {
            let (_, task) = held.remove(pos);
            finish_task(&mut queue, &task, DeliveryReport::Sent, &settings(3), 0);
        }
        match queue.dequeue(0) {
            Some(task) => {
                assert!(seen.insert((task.issue_id, task.recipient.clone())));
                held.push((worker, task));
            }
            None if held.is_empty() => break,
            None => {}
        }
        turn += 1;
    }
    assert_eq!(seen.len(), 40);
    assert!(queue.is_empty());
}

#[test]
fn duplicate_recipients_get_one_task() {
    let mut queue = DeliveryQueue::new();
    queue.enqueue(1, &recipients(&["a@example.com", "a@example.com", "b@example.com"]), 0);
    assert_eq!(queue.len(), 2);
    queue.enqueue(1, &recipients(&["b@example.com"]), 5);
    assert_eq!(queue.len(), 2);
}

#[test]
fn released_tasks_can_be_claimed_again() {
    let mut queue = DeliveryQueue::new();
    queue.enqueue(9, &recipients(&["a@example.com"]), 0);
    let task = queue.dequeue(0).unwrap();
    assert!(queue.dequeue(0).is_none());
    queue.release(task.issue_id, &task.recipient);
    assert!(queue.dequeue(0).is_some());
}

#[test]
fn publish_then_deliver_then_replay() {
    let mut store = Store::new();
    let first = publish(&mut store, "key-1", &["a@example.com", "b@example.com"], 1_000);
    let first_response = match first {
        PublishOutcome::Published(r) => r,
        _ => panic!("the first publish did not run"),
    };
    assert_eq!(first_response.status_code, 303);
    assert_eq!(first_response.headers[0].name, "location");
    assert_eq!(first_response.headers[0].value, NEWSLETTERS_PAGE.as_bytes().to_vec());
    assert_eq!(store.queue.len(), 2);
    assert_eq!(store.issues.len(), 1);

    let mut delivered = Vec::new();
    while let Some(job) = start_delivery(&mut store, 1_000) {
        let issue = job.issue.as_ref().unwrap();
        assert_eq!(issue.title(), "Newsletter title");
        assert!(job.recipient.is_ok());
        delivered.push(job.task.recipient.clone());
        let fate = finish_delivery(&mut store, &job, Attempt::Sent, &settings(3), 1_000);
        assert_eq!(fate, Some(TaskFate::Delivered));
    }
    delivered.sort();
    assert_eq!(delivered, vec!["a@example.com".to_string(), "b@example.com".to_string()]);
    assert!(store.queue.is_empty());

    match publish(&mut store, "key-1", &["a@example.com", "b@example.com", "c@example.com"], 2_000) {
        PublishOutcome::Replayed(r) => {
            assert_eq!(r.status_code, first_response.status_code);
            assert_eq!(r.body, first_response.body);
            assert_eq!(r.headers[0].name, first_response.headers[0].name);
            assert_eq!(r.headers[0].value, first_response.headers[0].value);
        }
        _ => panic!("the repeated publish was not replayed"),
    }
    assert!(store.queue.is_empty());
    assert_eq!(store.issues.len(), 1);
}

#[test]
fn repeated_submissions_run_once() {
    let mut store = Store::new();
    let mut published = 0;
    for i in 0..5 {
        match publish(&mut store, "same-key", &["a@example.com"], i) {
            PublishOutcome::Published(_) => published += 1,
            PublishOutcome::Replayed(r) => assert_eq!(r.status_code, 303),
            PublishOutcome::InFlight => panic!("nothing was in flight"),
        }
    }
    assert_eq!(published, 1);
    assert_eq!(store.issues.len(), 1);
    assert_eq!(store.queue.len(), 1);
    // Another owner with the same key is a different command.
    let other = publish_newsletter(
        &mut store,
        8,
        "t".to_string(),
        "x".to_string(),
        "h".to_string(),
        "same-key".to_string(),
        recipients(&["b@example.com"]),
        9,
    );
    assert!(matches!(other, Ok(PublishOutcome::Published(_))));
    assert_eq!(store.issues.len(), 2);
}

#[test]
fn invalid_submissions_change_nothing() {
    let mut store = Store::new();
    let r = publish_newsletter(
        &mut store,
        7,
        "".to_string(),
        "x".to_string(),
        "h".to_string(),
        "key".to_string(),
        recipients(&["a@example.com"]),
        0,
    );
    assert_eq!(r.err().unwrap().message(), "Title can't be empty.");
    let r = publish_newsletter(
        &mut store,
        7,
        "t".to_string(),
        "x".to_string(),
        "h".to_string(),
        "".to_string(),
        recipients(&["a@example.com"]),
        0,
    );
    assert_eq!(r.err().unwrap().message(), "The idempotency key cannot be empty");
    assert_eq!(store.issues.len(), 0);
    assert!(store.queue.is_empty());
    assert_eq!(store.idempotency.len(), 0);
}

#[test]
fn a_duplicate_waits_on_the_claimant_then_replays() {
    let mut store = Store::new();
    let key = IdempotencyKey::try_from("k".to_string()).unwrap();
    let txn = match store.begin(1, &key, 0) {
        NextAction::StartProcessing(t) => t,
        _ => panic!("the key was not free"),
    };
    assert!(matches!(store.begin(1, &key, 1), NextAction::InFlight));
    assert!(matches!(
        replay_step(store.idempotency.lookup(1, &key), 0, 100),
        ReplayStep::Wait(POLL_INTERVAL_MS)
    ));
    assert!(matches!(
        replay_step(store.idempotency.lookup(1, &key), 90, 100),
        ReplayStep::TimedOut
    ));
    store.commit(txn, see_other("/done"));
    match replay_step(store.idempotency.lookup(1, &key), 0, 100) {
        ReplayStep::Replay(r) => assert_eq!(r.headers[0].value, b"/done".to_vec()),
        _ => panic!("the response was not replayed"),
    }
    assert!(matches!(store.begin(1, &key, 2), NextAction::ReturnSavedResponse(_)));
}

#[test]
fn a_rolled_back_claim_leaves_nothing_behind() {
    let mut store = Store::new();
    let key = IdempotencyKey::try_from("k".to_string()).unwrap();
    let mut txn = match store.begin(1, &key, 0) {
        NextAction::StartProcessing(t) => t,
        _ => panic!("the key was not free"),
    };
    let issue = zero2prod::domain::newsletter_issue::NewsletterIssue::try_new(
        "t".to_string(),
        "x".to_string(),
        "h".to_string(),
    )
    .unwrap();
    txn.insert_issue(5, issue);
    txn.enqueue(5, recipients(&["a@example.com"]), 0);
    // Nothing is visible before the commit.
    assert_eq!(store.issues.len(), 0);
    assert!(store.queue.is_empty());
    store.abort(txn);
    assert_eq!(store.issues.len(), 0);
    assert!(store.queue.is_empty());
    assert!(matches!(store.idempotency.lookup(1, &key), Lookup::Missing));
    assert!(matches!(
        replay_step(store.idempotency.lookup(1, &key), 0, 100),
        ReplayStep::Reclaim
    ));
    // The key can be claimed again.
    assert!(matches!(store.begin(1, &key, 3), NextAction::StartProcessing(_)));
}

#[test]
fn sweep_removes_only_expired_records() {
    let mut store = Store::new();
    publish(&mut store, "old", &[], 0);
    publish(&mut store, "edge", &[], 40_000);
    publish(&mut store, "new", &[], 90_000);
    let settings = IdempotencySettings { expiration_secs: 60, expiration_frequency_secs: 10 };
    // At 100s: 0 + 60s < 100s expires; 40s + 60s == 100s stays.
    let removed = sweep(&mut store.idempotency, &settings, 100_000);
    assert_eq!(removed, 1);
    assert_eq!(store.idempotency.len(), 2);
    let old = IdempotencyKey::try_from("old".to_string()).unwrap();
    let edge = IdempotencyKey::try_from("edge".to_string()).unwrap();
    assert!(matches!(store.idempotency.lookup(7, &old), Lookup::Missing));
    assert!(matches!(store.idempotency.lookup(7, &edge), Lookup::Done(_)));
}

#[test]
fn sweeper_retries_a_few_times_then_waits_a_period() {
    let mut state = SweeperState::new();
    assert_eq!(state.after_sweep(false), SweepWait::Retry);
    assert_eq!(state.after_sweep(false), SweepWait::Retry);
    assert_eq!(state.after_sweep(false), SweepWait::Period);
    assert_eq!(state.retries, 0);
    assert_eq!(state.after_sweep(false), SweepWait::Retry);
    assert_eq!(state.after_sweep(true), SweepWait::Period);
    assert_eq!(state.retries, 0);
    assert_eq!(initial_delay_ms(60_000), 30_000);
    let p = sweep_pause_ms(SweepWait::Period, 60_000);
    assert!((54_000..=66_000).contains(&p));
    let r = sweep_pause_ms(SweepWait::Retry, 60_000);
    assert!((9_000..=11_000).contains(&r));
}

#[test]
fn next_retry_labels() {
    assert_eq!(next_retry_label(0, 10), "ready for retry");
    assert_eq!(next_retry_label(61_000, 0), "1m 1s");
    assert_eq!(next_retry_label(5, 5), "0s");
}

#[test]
fn a_task_without_its_issue_is_rolled_back() {
    let mut store = Store::new();
    store.queue.enqueue(42, &recipients(&["a@example.com"]), 0);
    let job = start_delivery(&mut store, 0).unwrap();
    assert!(job.issue.is_none());
    assert!(start_delivery(&mut store, 0).is_none());
    assert_eq!(finish_delivery(&mut store, &job, Attempt::Sent, &settings(3), 0), None);
    assert_eq!(store.queue.len(), 1);
    assert!(start_delivery(&mut store, 0).is_some());
}

#[test]
fn a_failed_send_through_the_store_is_rescheduled() {
    let mut store = Store::new();
    publish(&mut store, "k", &["a@example.com", "broken"], 0);
    let first = start_delivery(&mut store, 0).unwrap();
    let second = start_delivery(&mut store, 0).unwrap();
    assert!(start_delivery(&mut store, 0).is_none());
    let mut fates = Vec::new();
    for job in [first, second] {
        fates.push(finish_delivery(&mut store, &job, Attempt::Failed, &settings(3), 0).unwrap());
    }
    assert!(fates.contains(&TaskFate::Dropped));
    assert!(fates
        .iter()
        .any(|f| matches!(f, TaskFate::Rescheduled { n_retries: 1, .. })));
    assert_eq!(store.queue.len(), 1);
}

#[test]
fn deleting_an_absent_task_changes_nothing() {
    let mut queue = DeliveryQueue::new();
    queue.enqueue(1, &recipients(&["a@example.com"]), 0);
    queue.delete(2, "a@example.com");
    queue.delete(1, "b@example.com");
    assert_eq!(queue.len(), 1);
    queue.delete(1, "a@example.com");
    assert!(queue.is_empty());
    queue.delete(1, "a@example.com");
    assert!(queue.is_empty());
}

#[test]
fn rejected_publishes_name_the_first_problem() {
    let mut store = Store::new();
    let long_key = "k".repeat(50);
    let cases = [
        ("", "t", "x", "h", "The idempotency key cannot be empty"),
        (long_key.as_str(), "", "", "", "The idempotency key must be shorter than 50 characters"),
        ("key", "", "", "", "Title can't be empty."),
        ("key", "t", "", "", "Text content can't be empty."),
        ("key", "t", "x", "", "Html content can't be empty."),
    ];
    for (key, title, text, html, message) in cases {
        let r = publish_newsletter(
            &mut store,
            7,
            title.to_string(),
            text.to_string(),
            html.to_string(),
            key.to_string(),
            recipients(&["a@example.com"]),
            0,
        );
        assert_eq!(r.err().unwrap().message(), message);
    }
    assert_eq!(store.issues.len(), 0);
    assert_eq!(store.idempotency.len(), 0);
}

#[test]
fn a_retry_near_the_end_of_time_saturates() {
    let mut queue = DeliveryQueue::new();
    queue.enqueue(1, &recipients(&["a@example.com"]), 0);
    let task = queue.dequeue(0).unwrap();
    let fate = finish_task(&mut queue, &task, DeliveryReport::TransientFailure, &settings(5), i64::MAX - 1);
    match fate {
        TaskFate::Rescheduled { n_retries, execute_after } => {
            assert_eq!(n_retries, 1);
            assert!(execute_after >= i64::MAX - 1);
        }
        other => panic!("unexpected fate {:?}", other),
    }
    assert_eq!(decide(DeliveryReport::TransientFailure, 0, 3, i64::MAX, 10), TaskFate::Rescheduled { n_retries: 1, execute_after: i64::MAX });
}
