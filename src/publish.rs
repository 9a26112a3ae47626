//! Publishing an issue as an idempotent command: the issue and its
//! delivery tasks are written in the claim's transaction, and a repeated
//! submission replays the first response.
use crate::domain::newsletter_issue::{issue_refusal, NewsletterIssue};
use crate::idempotency::{
    identities_unique, lemma_position_of_unique, position_of, same_identity, HeaderPair,
    IdempotencyKey, RecordView, ResponseView, SavedResponse,
};
use crate::queue::enqueue_model;
use crate::store::{NextAction, Store, StoreView};
use vstd::prelude::*;
use vstd::string::*;
use vstd::utf8::encode_utf8;

verus! {

/// Where a publish sends the browser, fresh or replayed.
pub const NEWSLETTERS_PAGE: &'static str = "/admin/newsletters";

/// HTTP `303 See Other`.
pub const SEE_OTHER: u16 = 303;

/// Why a publish command failed.
pub enum NewsletterError {
    /// The submitted form is not acceptable; the text says why.
    ValidationError(String),
    /// Something outside the submitted data went wrong.
    UnexpectedError(String),
}

impl NewsletterError {
    /// A validation failure with the given reason.
    pub fn from(e: String) -> (r: NewsletterError)
        ensures
            r matches NewsletterError::ValidationError(m) && m@ == e@,
    {
        NewsletterError::ValidationError(e)
    }

    /// The text shown to the user.
    pub fn message(&self) -> (r: String)
        ensures
            self matches NewsletterError::ValidationError(m) ==> r@ == m@,
            self is UnexpectedError ==> r@ == "Something went wrong."@,
    {
        match self {
            NewsletterError::ValidationError(m) => m.clone(),
            NewsletterError::UnexpectedError(_) => String::from_str("Something went wrong."),
        }
    }
}

/// What a publish command answered.
pub enum PublishOutcome {
    /// This call ran the command; the response is now cached.
    Published(SavedResponse),
    /// An earlier call ran the command; this is its cached response.
    Replayed(SavedResponse),
    /// An earlier call is still running the command.
    InFlight,
}

pub enum PublishView {
    Published(ResponseView),
    Replayed(ResponseView),
    InFlight,
    Rejected,
}

pub open spec fn publish_view(r: Result<PublishOutcome, NewsletterError>) -> PublishView {
    match r {
        Ok(PublishOutcome::Published(x)) => PublishView::Published(x@),
        Ok(PublishOutcome::Replayed(x)) => PublishView::Replayed(x@),
        Ok(PublishOutcome::InFlight) => PublishView::InFlight,
        Err(_) => PublishView::Rejected,
    }
}

/// A `303 See Other` to `location`, with no body.
pub open spec fn see_other_view(location: Seq<char>) -> ResponseView {
    (SEE_OTHER, seq![("location"@, encode_utf8(location))], Seq::empty())
}

/// The response cached for an accepted publish.
pub open spec fn accepted_response() -> ResponseView {
    see_other_view(NEWSLETTERS_PAGE@)
}

/// A `303 See Other` response to `location`.
pub fn see_other(location: &str) -> (r: SavedResponse)
    ensures
        r@ == see_other_view(location@),
{
    let mut headers: Vec<HeaderPair> = Vec::new();
    headers.push(
        HeaderPair { name: String::from_str("location"), value: location.as_bytes_vec() },
    );
    let r = SavedResponse { status_code: SEE_OTHER, headers, body: Vec::new() };
    assert(r@.1 =~= seq![("location"@, encode_utf8(location@))]);
    assert(r@.2 =~= Seq::<u8>::empty());
    r
}

/// Relies on uuid's `Uuid::new_v4`: a random id, of which nothing is known.
#[verifier::external_body]
fn new_issue_id() -> (r: u128) {
    uuid::Uuid::new_v4().as_u128()
}

/// Whether a submission passes validation: a usable key and no empty part.
pub open spec fn submission_valid(key: Seq<char>, title: Seq<char>, text: Seq<char>, html: Seq<char>) -> bool {
    IdempotencyKey::accepts(key) && title.len() > 0 && text.len() > 0 && html.len() > 0
}

/// What a publish does to the store, and what it answers.
pub open spec fn publish_post(
    s: StoreView,
    owner_id: u128,
    key: Seq<char>,
    title: Seq<char>,
    text: Seq<char>,
    html: Seq<char>,
    recipients: Seq<Seq<char>>,
    now: i64,
    s2: StoreView,
    r: PublishView,
) -> bool {
    if !submission_valid(key, title, text, html) {
        r == PublishView::Rejected && s2 == s
    } else {
        match position_of(s.records, owner_id, key) {
            None => {
                &&& r == PublishView::Published(accepted_response())
                &&& s2.records == s.records.push(
                    RecordView {
                        owner_id,
                        key,
                        created_at: now,
                        response: Some(accepted_response()),
                    },
                )
                &&& s2.issues.len() == s.issues.len() + 1
                &&& s2.issues.drop_last() == s.issues
                &&& s2.issues.last().1 == title && s2.issues.last().2 == text
                    && s2.issues.last().3 == html
                &&& s2.tasks == enqueue_model(s.tasks, s2.issues.last().0, recipients, now)
            },
            Some(i) => s2 == s && match s.records[i].response {
                None => r == PublishView::InFlight,
                Some(x) => r == PublishView::Replayed(x),
            },
        }
    }
}

/// Runs "publish an issue to `recipients`" for `owner_id` at most once per
/// idempotency key: a first call claims the key, writes the issue and one
/// delivery task per recipient, and caches the response, all in one
/// commit; a later call with the same key replays that response and
/// writes nothing.
pub fn publish_newsletter(
    store: &mut Store,
    owner_id: u128,
    title: String,
    text_content: String,
    html_content: String,
    idempotency_key: String,
    recipients: Vec<String>,
    now: i64,
) -> (r: Result<PublishOutcome, NewsletterError>)
    requires
        old(store).wf(),
    ensures
        final(store).wf(),
        publish_post(
            old(store).spec_view(),
            owner_id,
            idempotency_key@,
            title@,
            text_content@,
            html_content@,
            recipients@.map_values(|x: String| x@),
            now,
            final(store).spec_view(),
            publish_view(r),
        ),
        !IdempotencyKey::accepts(idempotency_key@) ==> (r matches Err(
            NewsletterError::ValidationError(m),
        ) && m@ == IdempotencyKey::refusal(idempotency_key@)),
        IdempotencyKey::accepts(idempotency_key@) && !submission_valid(
            idempotency_key@,
            title@,
            text_content@,
            html_content@,
        ) ==> (r matches Err(NewsletterError::ValidationError(m)) && m@ == issue_refusal(
            title@,
            text_content@,
            html_content@,
        )),
{
    let ghost key_text = idempotency_key@;
    let ghost (t, x, h) = (title@, text_content@, html_content@);
    let ghost rs = recipients@.map_values(|x: String| x@);
    let key = match IdempotencyKey::try_from(idempotency_key) {
        Ok(k) => k,
        Err(e) => return Err(NewsletterError::from(e)),
    };
    let issue = match NewsletterIssue::try_new(title, text_content, html_content) {
        Ok(i) => i,
        Err(e) => return Err(NewsletterError::from(e)),
    };
    let ghost s0 = store.spec_view();
    match store.begin(owner_id, &key, now) {
        NextAction::StartProcessing(txn) => {
            let mut txn = txn;
            let ghost s1 = store.spec_view();
            let issue_id = new_issue_id();
            txn.insert_issue(issue_id, issue);
            txn.enqueue(issue_id, recipients, now);
            let response = see_other(NEWSLETTERS_PAGE);
            let replay = response.duplicate();
            let ghost last = (s1.records.len() - 1) as int;
            proof {
                assert(same_identity(s1.records[last], owner_id, key_text));
                lemma_position_of_unique(s1.records, owner_id, key_text, last);
            }
            store.commit(txn, response);
            proof {
                let tv = seq![(issue_id, rs, now)];
                assert(tv.drop_last() =~= Seq::<(u128, Seq<Seq<char>>, i64)>::empty());
                assert(crate::store::apply_batches(s0.tasks, tv.drop_last()) == s0.tasks);
                assert(store.spec_view().records =~= s0.records.push(
                    RecordView {
                        owner_id,
                        key: key_text,
                        created_at: now,
                        response: Some(accepted_response()),
                    },
                ));
                assert(store.spec_view().issues.drop_last() =~= s0.issues);
            }
            Ok(PublishOutcome::Published(replay))
        },
        NextAction::ReturnSavedResponse(x) => Ok(PublishOutcome::Replayed(x)),
        NextAction::InFlight => Ok(PublishOutcome::InFlight),
    }
}

/// Idempotent replay: once a publish with `(owner_id, key)` has run, a
/// repeated submission of the same command, sequential or after the first
/// committed, writes nothing and answers with the byte-identical cached
/// response.
pub proof fn lemma_idempotent_replay(
    s0: StoreView,
    s1: StoreView,
    s2: StoreView,
    owner_id: u128,
    key: Seq<char>,
    title: Seq<char>,
    text: Seq<char>,
    html: Seq<char>,
    recipients1: Seq<Seq<char>>,
    recipients2: Seq<Seq<char>>,
    now1: i64,
    now2: i64,
    r1: PublishView,
    r2: PublishView,
)
    requires
        identities_unique(s0.records),
        publish_post(s0, owner_id, key, title, text, html, recipients1, now1, s1, r1),
        r1 is Published,
        publish_post(s1, owner_id, key, title, text, html, recipients2, now2, s2, r2),
    ensures
        s2 == s1,
        r1 == PublishView::Published(accepted_response()),
        r2 == PublishView::Replayed(accepted_response()),
{
    let n = s0.records.len() as int;
    let rec = RecordView { owner_id, key, created_at: now1, response: Some(accepted_response()) };
    assert(s1.records == s0.records.push(rec));
    assert forall|i: int| 0 <= i < n implies !#[trigger] same_identity(s0.records[i], owner_id, key) by {}
    assert forall|a: int, b: int|
        0 <= a < s1.records.len() && 0 <= b < s1.records.len() && a != b implies !same_identity(
            #[trigger] s1.records[a],
            s1.records[b].owner_id,
            #[trigger] s1.records[b].key,
        ) by {
        if a == n {
            assert(!same_identity(s0.records[b], owner_id, key));
        } else if b == n {
            assert(!same_identity(s0.records[a], owner_id, key));
        }
    }
    assert(same_identity(s1.records[n], owner_id, key));
    lemma_position_of_unique(s1.records, owner_id, key, n);
}

/// The calls of a run of `rs.len()` publishes of one command: call `k`
/// takes the store from `ss[k]` to `ss[k + 1]` and answers `rs[k]`.
pub open spec fn publish_run(
    ss: Seq<StoreView>,
    rs: Seq<PublishView>,
    owner_id: u128,
    key: Seq<char>,
    title: Seq<char>,
    text: Seq<char>,
    html: Seq<char>,
    recipients: Seq<Seq<Seq<char>>>,
    nows: Seq<i64>,
) -> bool {
    &&& ss.len() == rs.len() + 1
    &&& recipients.len() == rs.len()
    &&& nows.len() == rs.len()
    &&& forall|k: int|
        0 <= k < rs.len() ==> publish_post(
            #[trigger] ss[k],
            owner_id,
            key,
            title,
            text,
            html,
            recipients[k],
            nows[k],
            ss[k + 1],
            rs[k],
        )
}

proof fn lemma_run_prefix(
    ss: Seq<StoreView>,
    rs: Seq<PublishView>,
    owner_id: u128,
    key: Seq<char>,
    title: Seq<char>,
    text: Seq<char>,
    html: Seq<char>,
    recipients: Seq<Seq<Seq<char>>>,
    nows: Seq<i64>,
    k: int,
)
    requires
        publish_run(ss, rs, owner_id, key, title, text, html, recipients, nows),
        identities_unique(ss[0].records),
        submission_valid(key, title, text, html),
        position_of(ss[0].records, owner_id, key) is None,
        1 <= k <= rs.len(),
    ensures
        ss[k] == ss[1],
        rs[k - 1] == (if k == 1 {
            PublishView::Published(accepted_response())
        } else {
            PublishView::Replayed(accepted_response())
        }),
    decreases k,
{
    assert(publish_post(
        ss[0],
        owner_id,
        key,
        title,
        text,
        html,
        recipients[0],
        nows[0],
        ss[1],
        rs[0],
    ));
    if k > 1 {
        lemma_run_prefix(ss, rs, owner_id, key, title, text, html, recipients, nows, k - 1);
        assert(publish_post(
            ss[k - 1],
            owner_id,
            key,
            title,
            text,
            html,
            recipients[k - 1],
            nows[k - 1],
            ss[k],
            rs[k - 1],
        ));
        lemma_idempotent_replay(
            ss[0],
            ss[1],
            ss[k],
            owner_id,
            key,
            title,
            text,
            html,
            recipients[0],
            recipients[k - 1],
            nows[0],
            nows[k - 1],
            rs[0],
            rs[k - 1],
        );
    }
}

/// Idempotent replay over any number of calls: of `N >= 1` publishes of
/// the same command with a key that had no record, exactly the first runs
/// it, every later one answers with the byte-identical cached response and
/// writes nothing, and exactly one issue is written in all.
pub proof fn lemma_replay_run(
    ss: Seq<StoreView>,
    rs: Seq<PublishView>,
    owner_id: u128,
    key: Seq<char>,
    title: Seq<char>,
    text: Seq<char>,
    html: Seq<char>,
    recipients: Seq<Seq<Seq<char>>>,
    nows: Seq<i64>,
)
    requires
        publish_run(ss, rs, owner_id, key, title, text, html, recipients, nows),
        rs.len() >= 1,
        identities_unique(ss[0].records),
        submission_valid(key, title, text, html),
        position_of(ss[0].records, owner_id, key) is None,
    ensures
        rs[0] == PublishView::Published(accepted_response()),
        forall|k: int|
            1 <= k < rs.len() ==> #[trigger] rs[k] == PublishView::Replayed(accepted_response()),
        ss[rs.len() as int] == ss[1],
        ss[rs.len() as int].issues.len() == ss[0].issues.len() + 1,
        ss[rs.len() as int].tasks == enqueue_model(
            ss[0].tasks,
            ss[1].issues.last().0,
            recipients[0],
            nows[0],
        ),
{
    lemma_run_prefix(ss, rs, owner_id, key, title, text, html, recipients, nows, 1);
    assert forall|k: int| 1 <= k < rs.len() implies #[trigger] rs[k] == PublishView::Replayed(
        accepted_response(),
    ) by {
        lemma_run_prefix(ss, rs, owner_id, key, title, text, html, recipients, nows, k + 1);
    }
    lemma_run_prefix(ss, rs, owner_id, key, title, text, html, recipients, nows, rs.len() as int);
}

} // verus!
