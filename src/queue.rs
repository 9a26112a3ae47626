//! The delivery queue: one task per `(issue_id, recipient)`, enqueued with
//! the issue and claimed by one worker at a time.
use crate::text::same_text;
use vstd::prelude::*;

verus! {

/// One pending delivery of an issue to a recipient.
pub struct DeliveryTask {
    pub issue_id: u128,
    pub recipient: String,
    pub n_retries: i16,
    /// Milliseconds since the epoch before which the task is not run.
    pub execute_after: i64,
    /// Held by a worker that has dequeued it and not yet settled it.
    pub locked: bool,
}

pub struct TaskView {
    pub issue_id: u128,
    pub recipient: Seq<char>,
    pub n_retries: i16,
    pub execute_after: i64,
    pub locked: bool,
}

pub open spec fn task_view(t: DeliveryTask) -> TaskView {
    TaskView {
        issue_id: t.issue_id,
        recipient: t.recipient@,
        n_retries: t.n_retries,
        execute_after: t.execute_after,
        locked: t.locked,
    }
}

/// Whether a task is `(issue_id, recipient)`.
pub open spec fn is_task(t: TaskView, issue_id: u128, recipient: Seq<char>) -> bool {
    t.issue_id == issue_id && t.recipient == recipient
}

/// A task can be dequeued at `now` when it is due and nobody holds it.
pub open spec fn eligible(t: TaskView, now: i64) -> bool {
    !t.locked && t.execute_after <= now
}

pub open spec fn tasks_unique(s: Seq<TaskView>) -> bool {
    forall|i: int, j: int|
        0 <= i < s.len() && 0 <= j < s.len() && i != j ==> !is_task(
            #[trigger] s[i],
            s[j].issue_id,
            #[trigger] s[j].recipient,
        )
}

pub open spec fn has_task(s: Seq<TaskView>, issue_id: u128, recipient: Seq<char>) -> bool {
    exists|i: int| 0 <= i < s.len() && #[trigger] is_task(s[i], issue_id, recipient)
}

/// The position of task `(issue_id, recipient)`.
pub open spec fn task_position(s: Seq<TaskView>, issue_id: u128, recipient: Seq<char>) -> int {
    choose|i: int| 0 <= i < s.len() && #[trigger] is_task(s[i], issue_id, recipient)
}

/// A freshly enqueued task.
pub open spec fn new_task(issue_id: u128, recipient: Seq<char>, now: i64) -> TaskView {
    TaskView { issue_id, recipient, n_retries: 0, execute_after: now, locked: false }
}

/// The queue after enqueuing `recipients` for `issue_id` at `now`: one new
/// task per recipient, in order, skipping those already queued.
pub open spec fn enqueue_model(
    s: Seq<TaskView>,
    issue_id: u128,
    recipients: Seq<Seq<char>>,
    now: i64,
) -> Seq<TaskView>
    decreases recipients.len(),
{
    if recipients.len() == 0 {
        s
    } else {
        let before = enqueue_model(s, issue_id, recipients.drop_last(), now);
        if has_task(before, issue_id, recipients.last()) {
            before
        } else {
            before.push(new_task(issue_id, recipients.last(), now))
        }
    }
}

/// What a dequeue at `now` may do: claim an eligible task and lock it, or
/// find none eligible and change nothing.
pub open spec fn dequeue_step(
    s: Seq<TaskView>,
    now: i64,
    s2: Seq<TaskView>,
    claimed: Option<(u128, Seq<char>, i16)>,
) -> bool {
    match claimed {
        None => s2 == s && forall|i: int| 0 <= i < s.len() ==> !eligible(#[trigger] s[i], now),
        Some(c) => exists|i: int|
            0 <= i < s.len() && eligible(#[trigger] s[i], now) && c == (
                s[i].issue_id,
                s[i].recipient,
                s[i].n_retries,
            ) && s2 == s.update(i, TaskView { locked: true, ..s[i] }),
    }
}

/// Replacing a task by one of the same identity keeps identities unique.
proof fn lemma_update_same_identity(s: Seq<TaskView>, i: int, t: TaskView)
    requires
        tasks_unique(s),
        0 <= i < s.len(),
        is_task(t, s[i].issue_id, s[i].recipient),
    ensures
        tasks_unique(s.update(i, t)),
{
    let u = s.update(i, t);
    assert forall|a: int, b: int|
        0 <= a < u.len() && 0 <= b < u.len() && a != b implies !is_task(
            #[trigger] u[a],
            u[b].issue_id,
            #[trigger] u[b].recipient,
        ) by {
        assert(is_task(u[a], s[a].issue_id, s[a].recipient));
        assert(is_task(u[b], s[b].issue_id, s[b].recipient));
    }
}

/// A dequeued task, held until it is deleted, rescheduled or released.
pub struct ClaimedTask {
    pub issue_id: u128,
    pub recipient: String,
    pub n_retries: i16,
}

impl ClaimedTask {
    pub open spec fn spec_claim(&self) -> (u128, Seq<char>, i16) {
        (self.issue_id, self.recipient@, self.n_retries)
    }
}

/// The table of pending deliveries.
pub struct DeliveryQueue {
    tasks: Vec<DeliveryTask>,
}

impl DeliveryQueue {
    pub closed spec fn view_tasks(&self) -> Seq<TaskView> {
        self.tasks@.map_values(|t: DeliveryTask| task_view(t))
    }

    pub open spec fn wf(&self) -> bool {
        tasks_unique(self.view_tasks()) && forall|i: int|
            0 <= i < self.view_tasks().len() ==> #[trigger] self.view_tasks()[i].n_retries >= 0
    }

    pub fn new() -> (r: DeliveryQueue)
        ensures
            r.wf(),
            r.view_tasks() == Seq::<TaskView>::empty(),
    {
        let r = DeliveryQueue { tasks: Vec::new() };
        assert(r.view_tasks() =~= Seq::<TaskView>::empty());
        r
    }

    pub fn len(&self) -> (r: usize)
        ensures
            r == self.view_tasks().len(),
    {
        self.tasks.len()
    }

    pub fn is_empty(&self) -> (r: bool)
        ensures
            r == (self.view_tasks().len() == 0),
    {
        self.tasks.len() == 0
    }

    /// The retry count of task `(issue_id, recipient)`, if it is queued.
    pub fn retries_of(&self, issue_id: u128, recipient: &str) -> (r: Option<i16>)
        requires
            self.wf(),
        ensures
            r is Some <==> has_task(self.view_tasks(), issue_id, recipient@),
            r matches Some(n) ==> n == self.view_tasks()[task_position(
                self.view_tasks(),
                issue_id,
                recipient@,
            )].n_retries,
    {
        match self.find(issue_id, recipient) {
            Some(i) => Some(self.tasks[i].n_retries),
            None => None,
        }
    }

    /// The position of task `(issue_id, recipient)`.
    pub fn find(&self, issue_id: u128, recipient: &str) -> (r: Option<usize>)
        requires
            self.wf(),
        ensures
            r is Some <==> has_task(self.view_tasks(), issue_id, recipient@),
            r matches Some(i) ==> i == task_position(self.view_tasks(), issue_id, recipient@)
                && i < self.view_tasks().len() && is_task(
                self.view_tasks()[i as int],
                issue_id,
                recipient@,
            ),
    {
        let mut i: usize = 0;
        while i < self.tasks.len()
            invariant
                self.wf(),
                i <= self.tasks@.len(),
                forall|j: int|
                    0 <= j < i ==> !#[trigger] is_task(self.view_tasks()[j], issue_id, recipient@),
            decreases self.tasks@.len() - i,
        {
            let t = &self.tasks[i];
            if t.issue_id == issue_id && same_text(t.recipient.as_str(), recipient) {
                assert(is_task(self.view_tasks()[i as int], issue_id, recipient@));
                return Some(i);
            }
            i += 1;
        }
        None
    }

    /// Outbox write: one task per recipient of `issue_id`, with no retries
    /// and due at `now`. A recipient that already has a task for the issue
    /// (also one named twice) gets no second one.
    pub fn enqueue(&mut self, issue_id: u128, recipients: &Vec<String>, now: i64)
        requires
            old(self).wf(),
        ensures
            final(self).wf(),
            final(self).view_tasks() == enqueue_model(
                old(self).view_tasks(),
                issue_id,
                recipients@.map_values(|r: String| r@),
                now,
            ),
    {
        let ghost rs = recipients@.map_values(|r: String| r@);
        let ghost start = self.view_tasks();
        let mut i: usize = 0;
        while i < recipients.len()
            invariant
                self.wf(),
                i <= recipients@.len(),
                rs == recipients@.map_values(|r: String| r@),
                self.view_tasks() == enqueue_model(start, issue_id, rs.take(i as int), now),
            decreases recipients@.len() - i,
        {
            assert(rs.take(i + 1).drop_last() =~= rs.take(i as int));
            assert(rs.take(i + 1).last() == recipients@[i as int]@);
            let recipient = &recipients[i];
            match self.find(issue_id, recipient.as_str()) {
                Some(_) => {},
                None => {
                    let ghost before = self.view_tasks();
                    self.tasks.push(
                        DeliveryTask {
                            issue_id,
                            recipient: recipient.clone(),
                            n_retries: 0,
                            execute_after: now,
                            locked: false,
                        },
                    );
                    assert(self.view_tasks() =~= before.push(new_task(issue_id, recipient@, now)));
                    assert forall|a: int, b: int|
                        0 <= a < self.view_tasks().len() && 0 <= b < self.view_tasks().len() && a
                            != b implies !is_task(
                        #[trigger] self.view_tasks()[a],
                        self.view_tasks()[b].issue_id,
                        #[trigger] self.view_tasks()[b].recipient,
                    ) by {
                        if a == before.len() {
                            assert(!is_task(before[b], issue_id, recipient@));
                        } else if b == before.len() {
                            assert(!is_task(before[a], issue_id, recipient@));
                        }
                    }
                },
            }
            i += 1;
        }
        assert(rs.take(recipients@.len() as int) =~= rs);
    }

    /// Claims one eligible task: it is locked, so that no other dequeue
    /// returns it until it is settled. `None` when no task is eligible.
    pub fn dequeue(&mut self, now: i64) -> (r: Option<ClaimedTask>)
        requires
            old(self).wf(),
        ensures
            final(self).wf(),
            r matches Some(c) ==> c.n_retries >= 0,
            dequeue_step(
                old(self).view_tasks(),
                now,
                final(self).view_tasks(),
                match r {
                    Some(c) => Some(c.spec_claim()),
                    None => None,
                },
            ),
    {
        let mut i: usize = 0;
        while i < self.tasks.len()
            invariant
                self.wf(),
                self.view_tasks() == old(self).view_tasks(),
                i <= self.tasks@.len(),
                forall|j: int| 0 <= j < i ==> !eligible(#[trigger] self.view_tasks()[j], now),
            decreases self.tasks@.len() - i,
        {
            if !self.tasks[i].locked && self.tasks[i].execute_after <= now {
                let ghost before = self.view_tasks();
                let claimed = ClaimedTask {
                    issue_id: self.tasks[i].issue_id,
                    recipient: self.tasks[i].recipient.clone(),
                    n_retries: self.tasks[i].n_retries,
                };
                let t = DeliveryTask {
                    issue_id: self.tasks[i].issue_id,
                    recipient: self.tasks[i].recipient.clone(),
                    n_retries: self.tasks[i].n_retries,
                    execute_after: self.tasks[i].execute_after,
                    locked: true,
                };
                self.tasks.set(i, t);
                let ghost locked = TaskView { locked: true, ..before[i as int] };
                assert(self.view_tasks() =~= before.update(i as int, locked));
                proof {
                    lemma_update_same_identity(before, i as int, locked);
                }
                assert(eligible(before[i as int], now));
                assert(claimed.spec_claim() == (
                    before[i as int].issue_id,
                    before[i as int].recipient,
                    before[i as int].n_retries,
                ));
                return Some(claimed);
            }
            i += 1;
        }
        None
    }

    /// Removes task `(issue_id, recipient)`; nothing changes when there is
    /// no such task.
    pub fn delete(&mut self, issue_id: u128, recipient: &str)
        requires
            old(self).wf(),
        ensures
            final(self).wf(),
            has_task(old(self).view_tasks(), issue_id, recipient@) ==> final(self).view_tasks()
                == old(self).view_tasks().remove(
                task_position(old(self).view_tasks(), issue_id, recipient@),
            ),
            !has_task(old(self).view_tasks(), issue_id, recipient@) ==> final(self).view_tasks()
                == old(self).view_tasks(),
            !has_task(final(self).view_tasks(), issue_id, recipient@),
    {
        let i = match self.find(issue_id, recipient) {
            Some(i) => i,
            None => return,
        };
        let ghost before = self.view_tasks();
        self.tasks.remove(i);
        assert(self.view_tasks() =~= before.remove(i as int));
        assert forall|a: int, b: int|
            0 <= a < self.view_tasks().len() && 0 <= b < self.view_tasks().len() && a
                != b implies !is_task(
            #[trigger] self.view_tasks()[a],
            self.view_tasks()[b].issue_id,
            #[trigger] self.view_tasks()[b].recipient,
        ) by {
            let a0 = if a < i { a } else { a + 1 };
            let b0 = if b < i { b } else { b + 1 };
            assert(self.view_tasks()[a] == before[a0]);
            assert(self.view_tasks()[b] == before[b0]);
        }
        assert forall|a: int| 0 <= a < self.view_tasks().len() implies !#[trigger] is_task(
            self.view_tasks()[a],
            issue_id,
            recipient@,
        ) by {
            let a0 = if a < i { a } else { a + 1 };
            assert(self.view_tasks()[a] == before[a0]);
        }
    }

    /// Sets the retry count and due time of task `(issue_id, recipient)` and
    /// lets go of it.
    pub fn reschedule(&mut self, issue_id: u128, recipient: &str, n_retries: i16, execute_after: i64)
        requires
            old(self).wf(),
            n_retries >= 0,
            has_task(old(self).view_tasks(), issue_id, recipient@),
        ensures
            final(self).wf(),
            final(self).view_tasks() == old(self).view_tasks().update(
                task_position(old(self).view_tasks(), issue_id, recipient@),
                TaskView { issue_id, recipient: recipient@, n_retries, execute_after, locked: false },
            ),
    {
        let i = self.find(issue_id, recipient).unwrap();
        let ghost before = self.view_tasks();
        let t = DeliveryTask {
            issue_id,
            recipient: self.tasks[i].recipient.clone(),
            n_retries,
            execute_after,
            locked: false,
        };
        self.tasks.set(i, t);
        let ghost tv = TaskView {
            issue_id,
            recipient: recipient@,
            n_retries,
            execute_after,
            locked: false,
        };
        assert(self.view_tasks() =~= before.update(i as int, tv));
        proof {
            lemma_update_same_identity(before, i as int, tv);
        }
    }

    /// Lets go of task `(issue_id, recipient)` unchanged, as a rolled back
    /// claim does.
    pub fn release(&mut self, issue_id: u128, recipient: &str)
        requires
            old(self).wf(),
            has_task(old(self).view_tasks(), issue_id, recipient@),
        ensures
            final(self).wf(),
            final(self).view_tasks() == old(self).view_tasks().update(
                task_position(old(self).view_tasks(), issue_id, recipient@),
                TaskView {
                    locked: false,
                    ..old(self).view_tasks()[task_position(
                        old(self).view_tasks(),
                        issue_id,
                        recipient@,
                    )]
                },
            ),
    {
        let i = self.find(issue_id, recipient).unwrap();
        let ghost before = self.view_tasks();
        let t = DeliveryTask {
            issue_id,
            recipient: self.tasks[i].recipient.clone(),
            n_retries: self.tasks[i].n_retries,
            execute_after: self.tasks[i].execute_after,
            locked: false,
        };
        self.tasks.set(i, t);
        let ghost tv = TaskView { locked: false, ..before[i as int] };
        assert(self.view_tasks() =~= before.update(i as int, tv));
        proof {
            lemma_update_same_identity(before, i as int, tv);
        }
    }
}

/// No task is handed to two workers: of two dequeues in a row, with no
/// settlement between them, both claiming a task, the two tasks differ.
pub proof fn lemma_dequeue_exclusive(
    s0: Seq<TaskView>,
    s1: Seq<TaskView>,
    s2: Seq<TaskView>,
    now1: i64,
    now2: i64,
    c1: (u128, Seq<char>, i16),
    c2: (u128, Seq<char>, i16),
)
    requires
        tasks_unique(s0),
        dequeue_step(s0, now1, s1, Some(c1)),
        dequeue_step(s1, now2, s2, Some(c2)),
    ensures
        !(c1.0 == c2.0 && c1.1 == c2.1),
{
    let i = choose|i: int|
        0 <= i < s0.len() && eligible(#[trigger] s0[i], now1) && c1 == (
            s0[i].issue_id,
            s0[i].recipient,
            s0[i].n_retries,
        ) && s1 == s0.update(i, TaskView { locked: true, ..s0[i] });
    let j = choose|j: int|
        0 <= j < s1.len() && eligible(#[trigger] s1[j], now2) && c2 == (
            s1[j].issue_id,
            s1[j].recipient,
            s1[j].n_retries,
        ) && s2 == s1.update(j, TaskView { locked: true, ..s1[j] });
    assert(s1[i].locked);
    assert(i != j);
    assert(s1[j] == s0[j]);
}

/// A task that some worker holds is never handed to another: whatever a
/// dequeue claims is a different task.
pub proof fn lemma_held_task_not_dequeued(
    s: Seq<TaskView>,
    s2: Seq<TaskView>,
    now: i64,
    c: (u128, Seq<char>, i16),
    held: int,
)
    requires
        tasks_unique(s),
        0 <= held < s.len(),
        s[held].locked,
        dequeue_step(s, now, s2, Some(c)),
    ensures
        !is_task(s[held], c.0, c.1),
{
    let i = choose|i: int|
        0 <= i < s.len() && eligible(#[trigger] s[i], now) && c == (
            s[i].issue_id,
            s[i].recipient,
            s[i].n_retries,
        ) && s2 == s.update(i, TaskView { locked: true, ..s[i] });
    assert(i != held);
}

/// Every task `(issue_id, recipient)` still queued is held by a worker.
pub open spec fn held_or_gone(q: Seq<TaskView>, issue_id: u128, recipient: Seq<char>) -> bool {
    forall|p: int| 0 <= p < q.len() && #[trigger] is_task(q[p], issue_id, recipient) ==> q[p].locked
}

/// One step of a run of workers sharing a queue: some worker dequeues
/// (claiming a task or finding none), or some worker finishes a task and
/// deletes it.
pub open spec fn worker_step(
    q: Seq<TaskView>,
    q2: Seq<TaskView>,
    claim: Option<(u128, Seq<char>, i16)>,
    now: i64,
) -> bool {
    dequeue_step(q, now, q2, claim) || (claim is None && exists|j: int|
        0 <= j < q.len() && q2 == #[trigger] q.remove(j))
}

/// A run of `claims.len()` steps from `qs[0]`: step `k` takes the queue
/// from `qs[k]` to `qs[k + 1]`.
pub open spec fn worker_run(
    qs: Seq<Seq<TaskView>>,
    claims: Seq<Option<(u128, Seq<char>, i16)>>,
    nows: Seq<i64>,
) -> bool {
    &&& qs.len() == claims.len() + 1
    &&& nows.len() == claims.len()
    &&& forall|k: int| 0 <= k < claims.len() ==> worker_step(#[trigger] qs[k], qs[k + 1], claims[k], nows[k])
}

proof fn lemma_run_unique(
    qs: Seq<Seq<TaskView>>,
    claims: Seq<Option<(u128, Seq<char>, i16)>>,
    nows: Seq<i64>,
    k: int,
)
    requires
        worker_run(qs, claims, nows),
        tasks_unique(qs[0]),
        0 <= k <= claims.len(),
    ensures
        tasks_unique(qs[k]),
    decreases k,
{
    if k > 0 {
        let prev = k - 1;
        lemma_run_unique(qs, claims, nows, prev);
        let q = qs[prev];
        let q2 = qs[k];
        assert(worker_step(q, q2, claims[prev], nows[prev]));
        if dequeue_step(q, nows[prev], q2, claims[prev]) {
            if claims[prev] is Some {
                let c2 = claims[prev]->Some_0;
                let i = choose|i: int|
                    0 <= i < q.len() && eligible(#[trigger] q[i], nows[prev]) && c2 == (
                        q[i].issue_id,
                        q[i].recipient,
                        q[i].n_retries,
                    ) && q2 == q.update(i, TaskView { locked: true, ..q[i] });
                lemma_update_same_identity(q, i, TaskView { locked: true, ..q[i] });
            }
        } else {
            let j = choose|j: int| 0 <= j < q.len() && q2 == #[trigger] q.remove(j);
            assert forall|x: int, y: int|
                0 <= x < q2.len() && 0 <= y < q2.len() && x != y implies !is_task(
                    #[trigger] q2[x],
                    q2[y].issue_id,
                    #[trigger] q2[y].recipient,
                ) by {
                let x0 = if x < j { x } else { x + 1 };
                let y0 = if y < j { y } else { y + 1 };
                assert(q2[x] == q[x0] && q2[y] == q[y0]);
            }
        }
    }
}

proof fn lemma_claim_stays_held(
    qs: Seq<Seq<TaskView>>,
    claims: Seq<Option<(u128, Seq<char>, i16)>>,
    nows: Seq<i64>,
    a: int,
    k: int,
)
    requires
        worker_run(qs, claims, nows),
        tasks_unique(qs[0]),
        0 <= a < k <= claims.len(),
        claims[a] is Some,
    ensures
        held_or_gone(qs[k], claims[a]->Some_0.0, claims[a]->Some_0.1),
    decreases k,
{
    let c = claims[a]->Some_0;
    let prev = k - 1;
    assert(worker_step(qs[prev], qs[k], claims[prev], nows[prev]));
    let q = qs[prev];
    let q2 = qs[k];
    if prev > a {
        lemma_claim_stays_held(qs, claims, nows, a, prev);
    }
    if dequeue_step(q, nows[prev], q2, claims[prev]) {
        match claims[prev] {
            None => {},
            Some(c2) => {
                let i = choose|i: int|
                    0 <= i < q.len() && eligible(#[trigger] q[i], nows[prev]) && c2 == (
                        q[i].issue_id,
                        q[i].recipient,
                        q[i].n_retries,
                    ) && q2 == q.update(i, TaskView { locked: true, ..q[i] });
                assert forall|p: int| 0 <= p < q2.len() && #[trigger] is_task(q2[p], c.0, c.1) implies q2[p].locked by {
                    if p != i {
                        assert(q2[p] == q[p]);
                        assert(is_task(q[p], c.0, c.1));
                        if prev == a {
                            lemma_run_unique(qs, claims, nows, prev);
                            assert(!is_task(q[p], q[i].issue_id, q[i].recipient));
                        }
                    }
                }
            },
        }
    } else {
        let j = choose|j: int| 0 <= j < q.len() && q2 == #[trigger] q.remove(j);
        assert(claims[prev] is None);
        assert(prev != a);
        assert forall|p: int| 0 <= p < q2.len() && #[trigger] is_task(q2[p], c.0, c.1) implies q2[p].locked by {
            let p0 = if p < j { p } else { p + 1 };
            assert(q2[p] == q[p0]);
            assert(is_task(q[p0], c.0, c.1));
        }
    }
}

/// Any number of workers polling and finishing tasks in any interleaving
/// never claim the same task twice: two claims of one run are of different
/// tasks.
pub proof fn lemma_run_exclusive(
    qs: Seq<Seq<TaskView>>,
    claims: Seq<Option<(u128, Seq<char>, i16)>>,
    nows: Seq<i64>,
    a: int,
    b: int,
)
    requires
        worker_run(qs, claims, nows),
        tasks_unique(qs[0]),
        0 <= a < b < claims.len(),
        claims[a] is Some,
        claims[b] is Some,
    ensures
        !(claims[a]->Some_0.0 == claims[b]->Some_0.0 && claims[a]->Some_0.1 == claims[b]->Some_0.1),
{
    lemma_claim_stays_held(qs, claims, nows, a, b);
    let q = qs[b];
    assert(worker_step(q, qs[b + 1], claims[b], nows[b]));
    let c2 = claims[b]->Some_0;
    let i = choose|i: int|
        0 <= i < q.len() && eligible(#[trigger] q[i], nows[b]) && c2 == (
            q[i].issue_id,
            q[i].recipient,
            q[i].n_retries,
        ) && qs[b + 1] == q.update(i, TaskView { locked: true, ..q[i] });
    if claims[a]->Some_0.0 == c2.0 && claims[a]->Some_0.1 == c2.1 {
        assert(is_task(q[i], c2.0, c2.1));
    }
}

} // verus!
