//! The store that the command processor and the outbox share: the
//! idempotency table, the published issues and the delivery queue, with
//! transactions whose writes become visible together at commit.
use crate::domain::newsletter_issue::NewsletterIssue;
use crate::idempotency::{
    identities_unique, lemma_position_of_unique, position_of, same_identity, Begin, IdempotencyKey, IdempotencyTable, RecordView, ResponseView, SavedResponse,
};
use crate::queue::{enqueue_model, DeliveryQueue, TaskView};
use vstd::prelude::*;

verus! {

/// An issue as values: id, title, text content, HTML content.
pub type IssueView = (u128, Seq<char>, Seq<char>, Seq<char>);

/// A published issue under its id.
pub struct StoredIssue {
    pub issue_id: u128,
    pub issue: NewsletterIssue,
}

pub open spec fn issue_view(i: StoredIssue) -> IssueView {
    (i.issue_id, i.issue.spec_title(), i.issue.spec_text(), i.issue.spec_html())
}

/// One outbox write: the recipients of an issue, enqueued at `now`.
pub struct Batch {
    pub issue_id: u128,
    pub recipients: Vec<String>,
    pub now: i64,
}

pub type BatchView = (u128, Seq<Seq<char>>, i64);

pub open spec fn batch_view(b: Batch) -> BatchView {
    (b.issue_id, b.recipients@.map_values(|r: String| r@), b.now)
}

/// The queue after the outbox writes `bs`, in order.
pub open spec fn apply_batches(q: Seq<TaskView>, bs: Seq<BatchView>) -> Seq<TaskView>
    decreases bs.len(),
{
    if bs.len() == 0 {
        q
    } else {
        let b = bs.last();
        enqueue_model(apply_batches(q, bs.drop_last()), b.0, b.1, b.2)
    }
}

/// What is committed in the store.
pub struct StoreView {
    pub records: Seq<RecordView>,
    pub issues: Seq<IssueView>,
    pub tasks: Seq<TaskView>,
}

/// The pending writes of a transaction opened by a claim.
pub struct TxnView {
    pub owner_id: u128,
    pub key: Seq<char>,
    pub issues: Seq<IssueView>,
    pub batches: Seq<BatchView>,
}

/// Whether `(owner_id, key)` is claimed and not completed.
pub open spec fn in_flight(records: Seq<RecordView>, owner_id: u128, key: Seq<char>) -> bool {
    position_of(records, owner_id, key) matches Some(i) && records[i].response is None
}

/// The store after a commit: the claim gets its response, and the
/// transaction's issues and tasks appear, all in the same step.
pub open spec fn commit_model(s: StoreView, t: TxnView, response: ResponseView) -> StoreView {
    let i = position_of(s.records, t.owner_id, t.key)->Some_0;
    StoreView {
        records: s.records.update(i, RecordView { response: Some(response), ..s.records[i] }),
        issues: s.issues + t.issues,
        tasks: apply_batches(s.tasks, t.batches),
    }
}

/// The store after a rollback: the claim is gone and nothing else changed.
pub open spec fn abort_model(s: StoreView, t: TxnView) -> StoreView {
    StoreView {
        records: s.records.remove(position_of(s.records, t.owner_id, t.key)->Some_0),
        ..s
    }
}

/// An open transaction, held by the caller that claimed `(owner_id, key)`.
pub struct Transaction {
    owner_id: u128,
    key: IdempotencyKey,
    issues: Vec<StoredIssue>,
    batches: Vec<Batch>,
}

impl Transaction {
    pub closed spec fn spec_view(&self) -> TxnView {
        TxnView {
            owner_id: self.owner_id,
            key: self.key.spec_text(),
            issues: self.issues@.map_values(|i: StoredIssue| issue_view(i)),
            batches: self.batches@.map_values(|b: Batch| batch_view(b)),
        }
    }

    /// Writes an issue inside the transaction.
    pub fn insert_issue(&mut self, issue_id: u128, issue: NewsletterIssue)
        ensures
            final(self).spec_view() == (TxnView {
                issues: old(self).spec_view().issues.push(
                    (issue_id, issue.spec_title(), issue.spec_text(), issue.spec_html()),
                ),
                ..old(self).spec_view()
            }),
    {
        let ghost before = self.spec_view();
        self.issues.push(StoredIssue { issue_id, issue });
        assert(self.spec_view().issues =~= before.issues.push(
            (issue_id, issue.spec_title(), issue.spec_text(), issue.spec_html()),
        ));
        assert(self.spec_view().batches =~= before.batches);
    }

    /// Enqueues one delivery task per recipient inside the transaction.
    pub fn enqueue(&mut self, issue_id: u128, recipients: Vec<String>, now: i64)
        ensures
            final(self).spec_view() == (TxnView {
                batches: old(self).spec_view().batches.push(
                    (issue_id, recipients@.map_values(|r: String| r@), now),
                ),
                ..old(self).spec_view()
            }),
    {
        let ghost before = self.spec_view();
        let ghost rs = recipients@.map_values(|r: String| r@);
        self.batches.push(Batch { issue_id, recipients, now });
        assert(self.spec_view().batches =~= before.batches.push((issue_id, rs, now)));
        assert(self.spec_view().issues =~= before.issues);
    }
}

/// What a command handler does after trying to claim its key.
pub enum NextAction {
    /// The key is the caller's: run the command inside this transaction.
    StartProcessing(Transaction),
    /// The command already ran: answer with its cached response.
    ReturnSavedResponse(SavedResponse),
    /// Another caller is running the command: look again later.
    InFlight,
}

/// The shared store.
pub struct Store {
    pub idempotency: IdempotencyTable,
    pub issues: Vec<StoredIssue>,
    pub queue: DeliveryQueue,
}

impl Store {
    pub open spec fn spec_view(&self) -> StoreView {
        StoreView {
            records: self.idempotency.view_records(),
            issues: self.issues@.map_values(|i: StoredIssue| issue_view(i)),
            tasks: self.queue.view_tasks(),
        }
    }

    pub open spec fn wf(&self) -> bool {
        self.idempotency.wf() && self.queue.wf()
    }

    pub fn new() -> (r: Store)
        ensures
            r.wf(),
            r.spec_view().records.len() == 0,
            r.spec_view().issues.len() == 0,
            r.spec_view().tasks.len() == 0,
    {
        Store { idempotency: IdempotencyTable::new(), issues: Vec::new(), queue: DeliveryQueue::new() }
    }

    /// Claims `(owner_id, key)` at `now`, or finds who has it.
    pub fn begin(&mut self, owner_id: u128, key: &IdempotencyKey, now: i64) -> (r: NextAction)
        requires
            old(self).wf(),
        ensures
            final(self).wf(),
            final(self).spec_view().issues == old(self).spec_view().issues,
            final(self).spec_view().tasks == old(self).spec_view().tasks,
            match position_of(old(self).spec_view().records, owner_id, key.spec_text()) {
                None => r matches NextAction::StartProcessing(t) && t.spec_view() == (TxnView {
                    owner_id,
                    key: key.spec_text(),
                    issues: Seq::empty(),
                    batches: Seq::empty(),
                }) && final(self).spec_view().records == old(self).spec_view().records.push(
                    RecordView { owner_id, key: key.spec_text(), created_at: now, response: None },
                ),
                Some(i) => final(self).spec_view().records == old(self).spec_view().records
                    && match old(self).spec_view().records[i].response {
                    None => r is InFlight,
                    Some(x) => r matches NextAction::ReturnSavedResponse(y) && y@ == x,
                },
            },
    {
        match self.idempotency.begin(owner_id, key, now) {
            Begin::Claimed => {
                let t = Transaction {
                    owner_id,
                    key: key.duplicate(),
                    issues: Vec::new(),
                    batches: Vec::new(),
                };
                assert(t.spec_view().issues =~= Seq::<IssueView>::empty());
                assert(t.spec_view().batches =~= Seq::<BatchView>::empty());
                NextAction::StartProcessing(t)
            },
            Begin::InFlight => NextAction::InFlight,
            Begin::AlreadyDone(x) => NextAction::ReturnSavedResponse(x),
        }
    }

    /// Commits a transaction with the response of its command.
    pub fn commit(&mut self, txn: Transaction, response: SavedResponse)
        requires
            old(self).wf(),
            in_flight(old(self).spec_view().records, txn.spec_view().owner_id, txn.spec_view().key),
        ensures
            final(self).wf(),
            final(self).spec_view() == commit_model(
                old(self).spec_view(),
                txn.spec_view(),
                response@,
            ),
    {
        let ghost start = self.spec_view();
        let ghost tv = txn.spec_view();
        let ghost resp = response@;
        self.idempotency.complete(txn.owner_id, &txn.key, response);
        let ghost records = self.idempotency.view_records();
        let mut k: usize = 0;
        while k < txn.issues.len()
            invariant
                k <= txn.issues@.len(),
                tv == txn.spec_view(),
                self.idempotency.wf(),
                self.idempotency.view_records() == records,
                self.queue.wf(),
                self.queue.view_tasks() == start.tasks,
                self.issues@.map_values(|i: StoredIssue| issue_view(i)) == start.issues
                    + tv.issues.take(k as int),
            decreases txn.issues@.len() - k,
        {
            let ghost before = self.issues@.map_values(|i: StoredIssue| issue_view(i));
            let s = &txn.issues[k];
            self.issues.push(StoredIssue { issue_id: s.issue_id, issue: s.issue.duplicate() });
            assert(self.issues@.map_values(|i: StoredIssue| issue_view(i)) =~= before.push(
                tv.issues[k as int],
            ));
            assert(tv.issues.take(k + 1) =~= tv.issues.take(k as int).push(tv.issues[k as int]));
            k += 1;
        }
        assert(tv.issues.take(txn.issues@.len() as int) =~= tv.issues);
        let mut b: usize = 0;
        while b < txn.batches.len()
            invariant
                b <= txn.batches@.len(),
                tv == txn.spec_view(),
                self.idempotency.wf(),
                self.idempotency.view_records() == records,
                self.issues@.map_values(|i: StoredIssue| issue_view(i)) == start.issues + tv.issues,
                self.queue.wf(),
                self.queue.view_tasks() == apply_batches(start.tasks, tv.batches.take(b as int)),
            decreases txn.batches@.len() - b,
        {
            let batch = &txn.batches[b];
            assert(tv.batches.take(b + 1).drop_last() =~= tv.batches.take(b as int));
            assert(tv.batches[b as int] == batch_view(*batch));
            self.queue.enqueue(batch.issue_id, &batch.recipients, batch.now);
            b += 1;
        }
        assert(tv.batches.take(txn.batches@.len() as int) =~= tv.batches);
        assert(self.spec_view().records == commit_model(start, tv, resp).records);
    }

    /// Rolls back a transaction: its writes are dropped and its key freed.
    pub fn abort(&mut self, txn: Transaction)
        requires
            old(self).wf(),
            in_flight(old(self).spec_view().records, txn.spec_view().owner_id, txn.spec_view().key),
        ensures
            final(self).wf(),
            final(self).spec_view() == abort_model(old(self).spec_view(), txn.spec_view()),
    {
        self.idempotency.release(txn.owner_id, &txn.key);
    }

    /// The issue with id `issue_id`, if one was committed.
    pub fn get_issue(&self, issue_id: u128) -> (r: Option<&NewsletterIssue>)
        ensures
            r is None <==> forall|i: int|
                0 <= i < self.spec_view().issues.len() ==> (#[trigger] self.spec_view().issues[i]).0
                    != issue_id,
            r matches Some(x) ==> exists|i: int|
                0 <= i < self.spec_view().issues.len() && #[trigger] self.spec_view().issues[i] == (
                    issue_id,
                    x.spec_title(),
                    x.spec_text(),
                    x.spec_html(),
                ),
    {
        let mut i: usize = 0;
        while i < self.issues.len()
            invariant
                i <= self.issues@.len(),
                forall|j: int| 0 <= j < i ==> (#[trigger] self.spec_view().issues[j]).0 != issue_id,
            decreases self.issues@.len() - i,
        {
            if self.issues[i].issue_id == issue_id {
                assert(self.spec_view().issues[i as int] == issue_view(self.issues@[i as int]));
                return Some(&self.issues[i].issue);
            }
            i += 1;
        }
        None
    }
}

/// Atomic commit: the writes of a claimed command and its cached response
/// become visible in one step. After a rollback neither the writes nor a
/// record of the key exist; after a commit the record holds the response
/// and the writes are all there.
pub proof fn lemma_atomic_commit(s: StoreView, t: TxnView, response: ResponseView)
    requires
        identities_unique(s.records),
        in_flight(s.records, t.owner_id, t.key),
    ensures
        ({
            let a = abort_model(s, t);
            a.issues == s.issues && a.tasks == s.tasks && position_of(
                a.records,
                t.owner_id,
                t.key,
            ) is None
        }),
        ({
            let c = commit_model(s, t, response);
            &&& position_of(c.records, t.owner_id, t.key) matches Some(i)
            &&& c.records[i].response == Some(response)
            &&& c.issues == s.issues + t.issues
            &&& c.tasks == apply_batches(s.tasks, t.batches)
        }),
{
    let p = position_of(s.records, t.owner_id, t.key)->Some_0;
    assert(same_identity(s.records[p], t.owner_id, t.key));
    let a = s.records.remove(p);
    assert forall|k: int| 0 <= k < a.len() implies !#[trigger] same_identity(
        a[k],
        t.owner_id,
        t.key,
    ) by {
        let k0 = if k < p { k } else { k + 1 };
        assert(a[k] == s.records[k0]);
        assert(!same_identity(s.records[k0], s.records[p].owner_id, s.records[p].key));
    }
    let c = s.records.update(p, RecordView { response: Some(response), ..s.records[p] });
    assert forall|x: int, y: int|
        0 <= x < c.len() && 0 <= y < c.len() && x != y implies !same_identity(
            #[trigger] c[x],
            c[y].owner_id,
            #[trigger] c[y].key,
        ) by {
        assert(same_identity(c[x], s.records[x].owner_id, s.records[x].key));
        assert(c[y].owner_id == s.records[y].owner_id && c[y].key == s.records[y].key);
    }
    lemma_position_of_unique(c, t.owner_id, t.key, p);
}

} // verus!
