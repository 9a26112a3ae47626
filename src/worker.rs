//! The delivery worker: what happens to a dequeued task once its delivery
//! has been attempted, and how long the loop pauses between polls.
use crate::backoff::{expo_ceiling, get_expo_backoff_full_jitter};
use crate::configuration::IssueDeliverySettings;
use crate::domain::newsletter_issue::NewsletterIssue;
use crate::domain::subscriber_email::{email_accepted, SubscriberEmail};
use crate::queue::{dequeue_step, eligible};
use crate::store::Store;
use crate::queue::{
    has_task, is_task, task_position, tasks_unique, ClaimedTask, DeliveryQueue, TaskView,
};
use vstd::prelude::*;

verus! {

/// Pause after an empty poll.
pub const IDLE_POLL_MS: u64 = 10_000;

/// Pause after a failure of the loop's own store round-trips.
pub const ERROR_PAUSE_MS: u64 = 1_000;

/// What one turn of the worker loop did.
#[derive(PartialEq, Eq, Structural, Clone, Copy, Debug)]
pub enum ExecutionOutcome {
    TaskCompleted,
    EmptyQueue,
}

/// How the delivery of a dequeued task went.
#[derive(PartialEq, Eq, Structural, Clone, Copy, Debug)]
pub enum DeliveryReport {
    /// The notification went out.
    Sent,
    /// The delivery failed in a way that may pass on a later try.
    TransientFailure,
    /// The stored recipient address is malformed: never retried.
    InvalidRecipient,
}

/// What becomes of a dequeued task.
#[derive(PartialEq, Eq, Structural, Clone, Copy, Debug)]
pub enum TaskFate {
    /// Delivered: the task is deleted.
    Delivered,
    /// Permanent failure: the task is deleted.
    Dropped,
    /// Transient failure within budget: the task stays, with its new retry
    /// count and due time.
    Rescheduled { n_retries: i16, execute_after: i64 },
    /// Transient failure with the retry budget spent: the task is deleted.
    Exhausted,
}

/// The retry count after one more failure, or `None` once the attempt
/// reaches `max_retries`.
pub open spec fn next_attempt(n_retries: i16, max_retries: i16) -> Option<i16> {
    if n_retries + 1 >= max_retries {
        None
    } else {
        Some((n_retries + 1) as i16)
    }
}

/// `delay_ms` after `now`, or the last representable instant.
pub open spec fn later(now: i64, delay_ms: i64) -> i64 {
    if now + delay_ms > i64::MAX {
        i64::MAX
    } else {
        (now + delay_ms) as i64
    }
}

/// The fate of a task with `n_retries` retries behind it, given the report
/// of its delivery and, for a retry, the drawn delay.
pub open spec fn fate_of(
    report: DeliveryReport,
    n_retries: i16,
    max_retries: i16,
    now: i64,
    delay_ms: i64,
) -> TaskFate {
    match report {
        DeliveryReport::Sent => TaskFate::Delivered,
        DeliveryReport::InvalidRecipient => TaskFate::Dropped,
        DeliveryReport::TransientFailure => match next_attempt(n_retries, max_retries) {
            None => TaskFate::Exhausted,
            Some(a) => TaskFate::Rescheduled { n_retries: a, execute_after: later(now, delay_ms) },
        },
    }
}

/// The queue once a fate is applied to the task `(issue_id, recipient)`.
pub open spec fn settled(
    s: Seq<TaskView>,
    issue_id: u128,
    recipient: Seq<char>,
    fate: TaskFate,
) -> Seq<TaskView> {
    match fate {
        TaskFate::Rescheduled { n_retries, execute_after } => s.update(
            task_position(s, issue_id, recipient),
            TaskView { issue_id, recipient, n_retries, execute_after, locked: false },
        ),
        _ => s.remove(task_position(s, issue_id, recipient)),
    }
}

pub fn retry_attempt(n_retries: i16, max_retries: i16) -> (r: Option<i16>)
    ensures
        r == next_attempt(n_retries, max_retries),
{
    if (n_retries as i32) + 1 >= max_retries as i32 {
        None
    } else {
        Some(n_retries + 1)
    }
}

/// The fate of a task, for a given retry delay.
pub fn decide(
    report: DeliveryReport,
    n_retries: i16,
    max_retries: i16,
    now: i64,
    delay_ms: i64,
) -> (r: TaskFate)
    requires
        0 <= delay_ms,
    ensures
        r == fate_of(report, n_retries, max_retries, now, delay_ms),
{
    match report {
        DeliveryReport::Sent => TaskFate::Delivered,
        DeliveryReport::InvalidRecipient => TaskFate::Dropped,
        DeliveryReport::TransientFailure => match retry_attempt(n_retries, max_retries) {
            None => TaskFate::Exhausted,
            Some(a) => {
                let execute_after = if now > i64::MAX - delay_ms {
                    i64::MAX
                } else {
                    now + delay_ms
                };
                TaskFate::Rescheduled { n_retries: a, execute_after }
            },
        },
    }
}

/// The fate of a task: a transient failure within budget is retried after
/// a full-jitter delay for attempt `n_retries + 1`.
pub fn plan(
    report: DeliveryReport,
    n_retries: i16,
    settings: &IssueDeliverySettings,
    now: i64,
) -> (r: TaskFate)
    requires
        settings.wf(),
        0 <= n_retries,
    ensures
        report == DeliveryReport::Sent ==> r == TaskFate::Delivered,
        report == DeliveryReport::InvalidRecipient ==> r == TaskFate::Dropped,
        report == DeliveryReport::TransientFailure ==> match next_attempt(
            n_retries,
            settings.max_retries,
        ) {
            None => r == TaskFate::Exhausted,
            Some(a) => r matches TaskFate::Rescheduled { n_retries, execute_after } && n_retries
                == a && now <= execute_after <= now + expo_ceiling(
                settings.backoff_base_secs * 1000,
                settings.backoff_cap_secs * 1000,
                a as nat,
            ),
        },
{
    match report {
        DeliveryReport::TransientFailure => match retry_attempt(n_retries, settings.max_retries) {
            None => TaskFate::Exhausted,
            Some(a) => {
                proof {
                    crate::backoff::lemma_ceiling_bounded(
                        settings.backoff_base_secs * 1000,
                        settings.backoff_cap_secs * 1000,
                        a as nat,
                    );
                }
                let delay = get_expo_backoff_full_jitter(
                    settings.backoff_base_ms(),
                    settings.backoff_cap_ms(),
                    a as u32,
                );
                decide(report, n_retries, settings.max_retries, now, delay)
            },
        },
        _ => decide(report, n_retries, settings.max_retries, now, 0),
    }
}

/// Applies a fate to the claimed task: a rescheduled task is updated and
/// let go of, every other fate deletes it.
pub fn settle(queue: &mut DeliveryQueue, task: &ClaimedTask, fate: TaskFate)
    requires
        old(queue).wf(),
        fate matches TaskFate::Rescheduled { n_retries, .. } ==> n_retries >= 0,
        has_task(old(queue).view_tasks(), task.issue_id, task.recipient@),
    ensures
        final(queue).wf(),
        final(queue).view_tasks() == settled(
            old(queue).view_tasks(),
            task.issue_id,
            task.recipient@,
            fate,
        ),
{
    match fate {
        TaskFate::Rescheduled { n_retries, execute_after } => {
            queue.reschedule(task.issue_id, task.recipient.as_str(), n_retries, execute_after);
        },
        _ => {
            queue.delete(task.issue_id, task.recipient.as_str());
        },
    }
}

/// Settles a claimed task after its delivery attempt.
pub fn finish_task(
    queue: &mut DeliveryQueue,
    task: &ClaimedTask,
    report: DeliveryReport,
    settings: &IssueDeliverySettings,
    now: i64,
) -> (r: TaskFate)
    requires
        old(queue).wf(),
        has_task(old(queue).view_tasks(), task.issue_id, task.recipient@),
        task.n_retries >= 0,
        settings.wf(),
    ensures
        final(queue).wf(),
        final(queue).view_tasks() == settled(
            old(queue).view_tasks(),
            task.issue_id,
            task.recipient@,
            r,
        ),
        report == DeliveryReport::Sent ==> r == TaskFate::Delivered,
        report == DeliveryReport::InvalidRecipient ==> r == TaskFate::Dropped,
        report == DeliveryReport::TransientFailure ==> match next_attempt(
            task.n_retries,
            settings.max_retries,
        ) {
            None => r == TaskFate::Exhausted,
            Some(a) => r matches TaskFate::Rescheduled { n_retries, execute_after } && n_retries
                == a && now <= execute_after <= now + expo_ceiling(
                settings.backoff_base_secs * 1000,
                settings.backoff_cap_secs * 1000,
                a as nat,
            ),
        },
{
    let fate = plan(report, task.n_retries, settings, now);
    settle(queue, task, fate);
    fate
}

/// How long the loop pauses after a turn; `None` stands for a failure of
/// the loop's own store round-trips.
pub fn pause_ms(outcome: Option<ExecutionOutcome>) -> (r: u64)
    ensures
        r == match outcome {
            Some(ExecutionOutcome::TaskCompleted) => 0,
            Some(ExecutionOutcome::EmptyQueue) => IDLE_POLL_MS,
            None => ERROR_PAUSE_MS,
        },
{
    match outcome {
        Some(ExecutionOutcome::TaskCompleted) => 0,
        Some(ExecutionOutcome::EmptyQueue) => IDLE_POLL_MS,
        None => ERROR_PAUSE_MS,
    }
}

/// A task is gone from the queue after a delete of its position, and the
/// identities of the others were unique.
proof fn lemma_removed_absent(s: Seq<TaskView>, issue_id: u128, recipient: Seq<char>)
    requires
        tasks_unique(s),
        has_task(s, issue_id, recipient),
    ensures
        !has_task(s.remove(task_position(s, issue_id, recipient)), issue_id, recipient),
{
    let p = task_position(s, issue_id, recipient);
    let t = s.remove(p);
    assert forall|a: int| 0 <= a < t.len() implies !#[trigger] is_task(t[a], issue_id, recipient) by {
        let a0 = if a < p { a } else { a + 1 };
        assert(t[a] == s[a0]);
    }
}

/// Retry accounting: a transient failure of a task with `n` retries, while
/// `n + 1 < max_retries`, leaves the task queued with exactly `n + 1`
/// retries.
pub proof fn lemma_retry_accounting(
    s: Seq<TaskView>,
    issue_id: u128,
    recipient: Seq<char>,
    max_retries: i16,
    now: i64,
    delay_ms: i64,
)
    requires
        tasks_unique(s),
        has_task(s, issue_id, recipient),
        s[task_position(s, issue_id, recipient)].n_retries + 1 < max_retries,
    ensures
        ({
            let n = s[task_position(s, issue_id, recipient)].n_retries;
            let after = settled(
                s,
                issue_id,
                recipient,
                fate_of(DeliveryReport::TransientFailure, n, max_retries, now, delay_ms),
            );
            has_task(after, issue_id, recipient) && after[task_position(
                after,
                issue_id,
                recipient,
            )].n_retries == n + 1
        }),
{
    let p = task_position(s, issue_id, recipient);
    let n = s[p].n_retries;
    let fate = fate_of(DeliveryReport::TransientFailure, n, max_retries, now, delay_ms);
    let after = settled(s, issue_id, recipient, fate);
    assert(is_task(after[p], issue_id, recipient));
    let q = task_position(after, issue_id, recipient);
    assert(after.len() == s.len());
    if q != p {
        assert(is_task(s[q], issue_id, recipient));
    }
}

/// Budget exhaustion: a transient failure once `n + 1 >= max_retries`
/// removes the task from the queue.
pub proof fn lemma_budget_exhausted(
    s: Seq<TaskView>,
    issue_id: u128,
    recipient: Seq<char>,
    max_retries: i16,
    now: i64,
    delay_ms: i64,
)
    requires
        tasks_unique(s),
        has_task(s, issue_id, recipient),
        s[task_position(s, issue_id, recipient)].n_retries + 1 >= max_retries,
    ensures
        !has_task(
            settled(
                s,
                issue_id,
                recipient,
                fate_of(
                    DeliveryReport::TransientFailure,
                    s[task_position(s, issue_id, recipient)].n_retries,
                    max_retries,
                    now,
                    delay_ms,
                ),
            ),
            issue_id,
            recipient,
        ),
{
    lemma_removed_absent(s, issue_id, recipient);
}

/// With `max_retries == 2`, a fresh task whose delivery fails twice is no
/// longer queued.
pub proof fn lemma_two_failures_with_budget_two(
    s: Seq<TaskView>,
    issue_id: u128,
    recipient: Seq<char>,
    now1: i64,
    delay1: i64,
    now2: i64,
    delay2: i64,
)
    requires
        tasks_unique(s),
        has_task(s, issue_id, recipient),
        s[task_position(s, issue_id, recipient)].n_retries == 0,
    ensures
        ({
            let first = settled(
                s,
                issue_id,
                recipient,
                fate_of(DeliveryReport::TransientFailure, 0, 2, now1, delay1),
            );
            let n = first[task_position(first, issue_id, recipient)].n_retries;
            let second = settled(
                first,
                issue_id,
                recipient,
                fate_of(DeliveryReport::TransientFailure, n, 2, now2, delay2),
            );
            has_task(first, issue_id, recipient) && !has_task(second, issue_id, recipient)
        }),
{
    lemma_retry_accounting(s, issue_id, recipient, 2, now1, delay1);
    let first = settled(
        s,
        issue_id,
        recipient,
        fate_of(DeliveryReport::TransientFailure, 0, 2, now1, delay1),
    );
    let p = task_position(s, issue_id, recipient);
    let tv = TaskView {
        issue_id,
        recipient,
        n_retries: 1,
        execute_after: later(now1, delay1),
        locked: false,
    };
    assert(first == s.update(p, tv));
    assert forall|a: int, b: int|
        0 <= a < first.len() && 0 <= b < first.len() && a != b implies !is_task(
            #[trigger] first[a],
            first[b].issue_id,
            #[trigger] first[b].recipient,
        ) by {
        assert(is_task(first[a], s[a].issue_id, s[a].recipient));
        assert(is_task(first[b], s[b].issue_id, s[b].recipient));
    }
    lemma_budget_exhausted(first, issue_id, recipient, 2, now2, delay2);
}

/// A claimed task with what its delivery needs: the parsed address and
/// the issue's content.
pub struct DeliveryJob {
    pub task: ClaimedTask,
    pub recipient: Result<SubscriberEmail, String>,
    pub issue: Option<NewsletterIssue>,
}

/// How the sending of a job went, as far as it was tried.
#[derive(PartialEq, Eq, Structural, Clone, Copy, Debug)]
pub enum Attempt {
    Sent,
    Failed,
}

/// The first half of a worker turn: claims a due task, parses its address
/// and looks up its issue. `None` when no task is due.
pub fn start_delivery(store: &mut Store, now: i64) -> (r: Option<DeliveryJob>)
    requires
        old(store).wf(),
    ensures
        final(store).wf(),
        final(store).spec_view().records == old(store).spec_view().records,
        final(store).spec_view().issues == old(store).spec_view().issues,
        dequeue_step(
            old(store).spec_view().tasks,
            now,
            final(store).spec_view().tasks,
            match r {
                Some(j) => Some(j.task.spec_claim()),
                None => None,
            },
        ),
        r matches Some(j) ==> j.task.n_retries >= 0 && has_task(
            final(store).spec_view().tasks,
            j.task.issue_id,
            j.task.recipient@,
        ),
        r matches Some(j) ==> (j.recipient is Ok <==> email_accepted(j.task.recipient@)),
        r matches Some(j) ==> (j.issue is Some <==> exists|i: int|
            0 <= i < old(store).spec_view().issues.len() && (#[trigger] old(
                store,
            ).spec_view().issues[i]).0 == j.task.issue_id),
{
    match store.queue.dequeue(now) {
        None => None,
        Some(task) => {
            proof {
                let s = old(store).spec_view().tasks;
                let i = choose|i: int|
                    0 <= i < s.len() && eligible(#[trigger] s[i], now) && task.spec_claim() == (
                        s[i].issue_id,
                        s[i].recipient,
                        s[i].n_retries,
                    ) && store.spec_view().tasks == s.update(i, TaskView { locked: true, ..s[i] });
                assert(is_task(store.spec_view().tasks[i], task.issue_id, task.recipient@));
            }
            let recipient = SubscriberEmail::from_str(task.recipient.as_str());
            let issue = match store.get_issue(task.issue_id) {
                Some(i) => Some(i.duplicate()),
                None => None,
            };
            Some(DeliveryJob { task, recipient, issue })
        },
    }
}

/// The second half of a worker turn. A malformed address drops the task;
/// a missing issue rolls the claim back (`None`); otherwise the task is
/// settled by how the sending went.
pub fn finish_delivery(
    store: &mut Store,
    job: &DeliveryJob,
    attempt: Attempt,
    settings: &IssueDeliverySettings,
    now: i64,
) -> (r: Option<TaskFate>)
    requires
        old(store).wf(),
        has_task(old(store).spec_view().tasks, job.task.issue_id, job.task.recipient@),
        job.task.n_retries >= 0,
        settings.wf(),
    ensures
        final(store).wf(),
        final(store).spec_view().records == old(store).spec_view().records,
        final(store).spec_view().issues == old(store).spec_view().issues,
        job.recipient is Err ==> r == Some(TaskFate::Dropped),
        job.recipient is Ok && job.issue is None ==> r is None,
        job.recipient is Ok && job.issue is Some && attempt == Attempt::Sent ==> r == Some(
            TaskFate::Delivered,
        ),
        job.recipient is Ok && job.issue is Some && attempt == Attempt::Failed ==> match next_attempt(
            job.task.n_retries,
            settings.max_retries,
        ) {
            None => r == Some(TaskFate::Exhausted),
            Some(a) => r matches Some(TaskFate::Rescheduled { n_retries, execute_after })
                && n_retries == a && now <= execute_after <= now + expo_ceiling(
                settings.backoff_base_secs * 1000,
                settings.backoff_cap_secs * 1000,
                a as nat,
            ),
        },
        r matches Some(f) ==> final(store).spec_view().tasks == settled(
            old(store).spec_view().tasks,
            job.task.issue_id,
            job.task.recipient@,
            f,
        ),
        r is None ==> final(store).spec_view().tasks == old(store).spec_view().tasks.update(
            task_position(old(store).spec_view().tasks, job.task.issue_id, job.task.recipient@),
            TaskView {
                locked: false,
                ..old(store).spec_view().tasks[task_position(
                    old(store).spec_view().tasks,
                    job.task.issue_id,
                    job.task.recipient@,
                )]
            },
        ),
{
    let report = match (&job.recipient, &job.issue) {
        (Err(_), _) => DeliveryReport::InvalidRecipient,
        (Ok(_), None) => {
            store.queue.release(job.task.issue_id, job.task.recipient.as_str());
            return None;
        },
        (Ok(_), Some(_)) => match attempt {
            Attempt::Sent => DeliveryReport::Sent,
            Attempt::Failed => DeliveryReport::TransientFailure,
        },
    };
    Some(finish_task(&mut store.queue, &job.task, report, settings, now))
}

} // verus!
