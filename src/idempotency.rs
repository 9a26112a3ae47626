//! Idempotency records: the claim / complete / replay protocol keyed by
//! `(owner_id, idempotency_key)`, and the expiry rule of the sweeper.
use vstd::prelude::*;
use vstd::string::*;

verus! {

/// Keys of this many characters or more are refused.
pub const MAX_KEY_LEN: usize = 50;

/// A caller-supplied token that scopes one logical command.
pub struct IdempotencyKey {
    value: String,
}

impl IdempotencyKey {
    pub closed spec fn spec_text(&self) -> Seq<char> {
        self.value@
    }

    /// A key is accepted when it is non-empty and shorter than
    /// `MAX_KEY_LEN` characters.
    pub open spec fn accepts(s: Seq<char>) -> bool {
        s.len() > 0 && s.len() < MAX_KEY_LEN
    }

    /// Why a key is refused.
    pub open spec fn refusal(s: Seq<char>) -> Seq<char> {
        if s.len() == 0 {
            "The idempotency key cannot be empty"@
        } else {
            "The idempotency key must be shorter than 50 characters"@
        }
    }

    pub fn try_from(s: String) -> (r: Result<IdempotencyKey, String>)
        ensures
            r is Ok <==> Self::accepts(s@),
            r matches Ok(k) ==> k.spec_text() == s@,
            !Self::accepts(s@) ==> (r matches Err(m) && m@ == Self::refusal(s@)),
    {
        let text = s.as_str();
        if text.is_empty() {
            return Err(String::from_str("The idempotency key cannot be empty"));
        }
        if text.unicode_len() >= MAX_KEY_LEN {
            return Err(String::from_str("The idempotency key must be shorter than 50 characters"));
        }
        Ok(IdempotencyKey { value: s })
    }

    pub fn as_str(&self) -> (r: &str)
        ensures
            r@ == self.spec_text(),
    {
        self.value.as_str()
    }

    pub fn duplicate(&self) -> (r: IdempotencyKey)
        ensures
            r.spec_text() == self.spec_text(),
    {
        IdempotencyKey { value: self.value.clone() }
    }
}

/// One response header: a name and its raw value.
pub struct HeaderPair {
    pub name: String,
    pub value: Vec<u8>,
}

/// The response of a completed command, cached for replay.
pub struct SavedResponse {
    pub status_code: u16,
    pub headers: Vec<HeaderPair>,
    pub body: Vec<u8>,
}

/// A response as values: status, `(name, value)` headers, body bytes.
pub type ResponseView = (u16, Seq<(Seq<char>, Seq<u8>)>, Seq<u8>);

pub open spec fn header_view(h: HeaderPair) -> (Seq<char>, Seq<u8>) {
    (h.name@, h.value@)
}

impl View for SavedResponse {
    type V = ResponseView;

    open spec fn view(&self) -> ResponseView {
        (self.status_code, self.headers@.map_values(|h: HeaderPair| header_view(h)), self.body@)
    }
}

fn copy_bytes(v: &Vec<u8>) -> (r: Vec<u8>)
    ensures
        r@ == v@,
{
    let r = v.clone();
    assert(r@ =~= v@);
    r
}

impl SavedResponse {
    /// A byte-identical copy of the response.
    pub fn duplicate(&self) -> (r: SavedResponse)
        ensures
            r@ == self@,
    {
        let mut headers: Vec<HeaderPair> = Vec::new();
        let mut i: usize = 0;
        while i < self.headers.len()
            invariant
                i <= self.headers@.len(),
                headers@.len() == i,
                forall|j: int|
                    0 <= j < i ==> #[trigger] header_view(headers@[j]) == header_view(
                        self.headers@[j],
                    ),
            decreases self.headers@.len() - i,
        {
            let h = &self.headers[i];
            headers.push(HeaderPair { name: h.name.clone(), value: copy_bytes(&h.value) });
            i += 1;
        }
        let r = SavedResponse { status_code: self.status_code, headers, body: copy_bytes(&self.body) };
        assert(r@.1 =~= self@.1);
        r
    }
}

/// A stored idempotency record. While `response` is `None` the record is
/// an in-flight claim; afterwards it is the cached result.
pub struct IdempotencyRecord {
    pub owner_id: u128,
    pub key: IdempotencyKey,
    pub created_at: i64,
    pub response: Option<SavedResponse>,
}

pub struct RecordView {
    pub owner_id: u128,
    pub key: Seq<char>,
    pub created_at: i64,
    pub response: Option<ResponseView>,
}

pub open spec fn response_view(r: Option<SavedResponse>) -> Option<ResponseView> {
    match r {
        Some(x) => Some(x@),
        None => None,
    }
}

pub open spec fn record_view(r: IdempotencyRecord) -> RecordView {
    RecordView {
        owner_id: r.owner_id,
        key: r.key.spec_text(),
        created_at: r.created_at,
        response: response_view(r.response),
    }
}

/// Whether a record belongs to `(owner_id, key)`.
pub open spec fn same_identity(r: RecordView, owner_id: u128, key: Seq<char>) -> bool {
    r.owner_id == owner_id && r.key == key
}

/// No two records share an identity.
pub open spec fn identities_unique(s: Seq<RecordView>) -> bool {
    forall|i: int, j: int|
        0 <= i < s.len() && 0 <= j < s.len() && i != j ==> !same_identity(
            #[trigger] s[i],
            s[j].owner_id,
            #[trigger] s[j].key,
        )
}

/// The position of the record of `(owner_id, key)`, if there is one.
pub open spec fn position_of(s: Seq<RecordView>, owner_id: u128, key: Seq<char>) -> Option<int> {
    if exists|i: int| 0 <= i < s.len() && #[trigger] same_identity(s[i], owner_id, key) {
        Some(choose|i: int| 0 <= i < s.len() && #[trigger] same_identity(s[i], owner_id, key))
    } else {
        None
    }
}

/// A record expires once `created_at + ttl < now`.
pub open spec fn expired(created_at: int, ttl: int, now: int) -> bool {
    created_at + ttl < now
}

pub fn is_expired(created_at: i64, ttl: i64, now: i64) -> (r: bool)
    ensures
        r == expired(created_at as int, ttl as int, now as int),
{
    (created_at as i128) + (ttl as i128) < (now as i128)
}

/// The record that a fresh claim of `(owner_id, key)` at `now` inserts.
pub open spec fn claim_record(owner_id: u128, key: Seq<char>, now: i64) -> RecordView {
    RecordView { owner_id, key, created_at: now, response: None }
}

/// The records that survive a sweep at `now`.
pub open spec fn unexpired(s: Seq<RecordView>, ttl: int, now: int) -> Seq<RecordView> {
    s.filter(|r: RecordView| !expired(r.created_at as int, ttl, now))
}

proof fn lemma_unique_drop_last(s: Seq<RecordView>)
    requires
        s.len() > 0,
        identities_unique(s),
    ensures
        identities_unique(s.drop_last()),
{
    let t = s.drop_last();
    assert forall|i: int, j: int|
        0 <= i < t.len() && 0 <= j < t.len() && i != j implies !same_identity(
            #[trigger] t[i],
            t[j].owner_id,
            #[trigger] t[j].key,
        ) by {
        assert(t[i] == s[i] && t[j] == s[j]);
    }
}

/// A sweep keeps the identities of the records unique.
proof fn lemma_unexpired_unique(s: Seq<RecordView>, ttl: int, now: int)
    requires
        identities_unique(s),
    ensures
        identities_unique(unexpired(s, ttl, now)),
    decreases s.len(),
{
    let pred = |r: RecordView| !expired(r.created_at as int, ttl, now);
    if s.len() > 0 {
        let t = s.drop_last();
        let x = s.last();
        lemma_unique_drop_last(s);
        lemma_unexpired_unique(t, ttl, now);
        assert(s == t.push(x));
        t.lemma_filter_push(x, pred);
        let f = t.filter(pred);
        if pred(x) {
            assert forall|i: int| 0 <= i < f.len() implies !same_identity(
                #[trigger] f[i],
                x.owner_id,
                x.key,
            ) by {
                broadcast use Seq::lemma_filter_contains_rev;

                assert(f.contains(f[i]));
                assert(t.contains(f[i]));
                let k = choose|k: int| 0 <= k < t.len() && t[k] == f[i];
                assert(s[k] == f[i]);
                assert(s[s.len() - 1] == x);
            }
            let g = f.push(x);
            assert forall|i: int, j: int|
                0 <= i < g.len() && 0 <= j < g.len() && i != j implies !same_identity(
                    #[trigger] g[i],
                    g[j].owner_id,
                    #[trigger] g[j].key,
                ) by {
                if i < f.len() && j < f.len() {
                    assert(g[i] == f[i] && g[j] == f[j]);
                } else if i < f.len() {
                    assert(g[i] == f[i] && g[j] == x);
                } else {
                    assert(g[j] == f[j] && g[i] == x);
                }
            }
        }
    }
}

/// The keyed table of idempotency records.
pub struct IdempotencyTable {
    records: Vec<IdempotencyRecord>,
}

/// What a lookup of one identity finds.
pub enum Lookup {
    /// No record: nobody holds the key.
    Missing,
    /// A claim whose command has not completed yet.
    InFlight,
    /// The cached response of the completed command.
    Done(SavedResponse),
}

/// What an attempt to claim a key finds.
pub enum Begin {
    /// The key was free and is now claimed by the caller.
    Claimed,
    /// Another caller holds the key; its response is not ready yet.
    InFlight,
    /// The command already ran; this is its response.
    AlreadyDone(SavedResponse),
}

impl IdempotencyRecord {
    pub fn duplicate(&self) -> (r: IdempotencyRecord)
        ensures
            record_view(r) == record_view(*self),
    {
        let response = match &self.response {
            Some(x) => Some(x.duplicate()),
            None => None,
        };
        IdempotencyRecord {
            owner_id: self.owner_id,
            key: self.key.duplicate(),
            created_at: self.created_at,
            response,
        }
    }
}

impl IdempotencyTable {
    pub closed spec fn view_records(&self) -> Seq<RecordView> {
        self.records@.map_values(|r: IdempotencyRecord| record_view(r))
    }

    pub open spec fn wf(&self) -> bool {
        identities_unique(self.view_records())
    }

    pub fn new() -> (r: IdempotencyTable)
        ensures
            r.wf(),
            r.view_records() == Seq::<RecordView>::empty(),
    {
        let r = IdempotencyTable { records: Vec::new() };
        assert(r.view_records() =~= Seq::<RecordView>::empty());
        r
    }

    pub fn len(&self) -> (r: usize)
        ensures
            r == self.view_records().len(),
    {
        self.records.len()
    }

    /// The position of the record of `(owner_id, key)`.
    pub fn find(&self, owner_id: u128, key: &IdempotencyKey) -> (r: Option<usize>)
        requires
            self.wf(),
        ensures
            r is None <==> position_of(self.view_records(), owner_id, key.spec_text()) is None,
            r matches Some(i) ==> position_of(self.view_records(), owner_id, key.spec_text())
                == Some(i as int),
            r matches Some(i) ==> i < self.view_records().len() && same_identity(
                self.view_records()[i as int],
                owner_id,
                key.spec_text(),
            ),
    {
        let mut i: usize = 0;
        while i < self.records.len()
            invariant
                self.wf(),
                i <= self.records@.len(),
                forall|j: int|
                    0 <= j < i ==> !#[trigger] same_identity(
                        self.view_records()[j],
                        owner_id,
                        key.spec_text(),
                    ),
            decreases self.records@.len() - i,
        {
            let rec = &self.records[i];
            if rec.owner_id == owner_id && rec.key.value == key.value {
                assert(same_identity(self.view_records()[i as int], owner_id, key.spec_text()));
                proof {
                    let s = self.view_records();
                    let c = choose|k: int|
                        0 <= k < s.len() && #[trigger] same_identity(
                            s[k],
                            owner_id,
                            key.spec_text(),
                        );
                    assert(c == i as int);
                }
                return Some(i);
            }
            i += 1;
        }
        None
    }

    /// Looks up the record of `(owner_id, key)`.
    pub fn lookup(&self, owner_id: u128, key: &IdempotencyKey) -> (r: Lookup)
        requires
            self.wf(),
        ensures
            match position_of(self.view_records(), owner_id, key.spec_text()) {
                None => r is Missing,
                Some(i) => match self.view_records()[i].response {
                    None => r is InFlight,
                    Some(x) => r matches Lookup::Done(y) && y@ == x,
                },
            },
    {
        match self.find(owner_id, key) {
            None => Lookup::Missing,
            Some(i) => match &self.records[i].response {
                None => Lookup::InFlight,
                Some(x) => Lookup::Done(x.duplicate()),
            },
        }
    }

    /// Insert-if-absent of a claim for `(owner_id, key)`, created at `now`.
    /// A present record is left untouched: its response is replayed when the
    /// command completed, and `InFlight` is returned while it has not.
    pub fn begin(&mut self, owner_id: u128, key: &IdempotencyKey, now: i64) -> (r: Begin)
        requires
            old(self).wf(),
        ensures
            final(self).wf(),
            match position_of(old(self).view_records(), owner_id, key.spec_text()) {
                None => r is Claimed && final(self).view_records() == old(
                    self,
                ).view_records().push(claim_record(owner_id, key.spec_text(), now)),
                Some(i) => final(self).view_records() == old(self).view_records() && match old(
                    self,
                ).view_records()[i].response {
                    None => r is InFlight,
                    Some(x) => r matches Begin::AlreadyDone(y) && y@ == x,
                },
            },
    {
        match self.find(owner_id, key) {
            Some(i) => match &self.records[i].response {
                None => Begin::InFlight,
                Some(x) => Begin::AlreadyDone(x.duplicate()),
            },
            None => {
                let ghost before = self.view_records();
                let rec = IdempotencyRecord {
                    owner_id,
                    key: key.duplicate(),
                    created_at: now,
                    response: None,
                };
                self.records.push(rec);
                assert(self.view_records() =~= before.push(
                    claim_record(owner_id, key.spec_text(), now),
                ));
                assert forall|i: int| 0 <= i < before.len() implies !same_identity(
                    #[trigger] before[i],
                    owner_id,
                    key.spec_text(),
                ) by {}
                Begin::Claimed
            },
        }
    }

    /// Stores the response of the claim on `(owner_id, key)`: the record
    /// turns from an in-flight claim into the cached result.
    pub fn complete(&mut self, owner_id: u128, key: &IdempotencyKey, response: SavedResponse)
        requires
            old(self).wf(),
            position_of(old(self).view_records(), owner_id, key.spec_text()) matches Some(i)
                && old(self).view_records()[i].response is None,
        ensures
            final(self).wf(),
            final(self).view_records() == old(self).view_records().update(
                position_of(old(self).view_records(), owner_id, key.spec_text())->Some_0,
                RecordView {
                    response: Some(response@),
                    ..old(self).view_records()[position_of(
                        old(self).view_records(),
                        owner_id,
                        key.spec_text(),
                    )->Some_0]
                },
            ),
    {
        let i = self.find(owner_id, key).unwrap();
        let ghost before = self.view_records();
        let rec = IdempotencyRecord {
            owner_id: self.records[i].owner_id,
            key: self.records[i].key.duplicate(),
            created_at: self.records[i].created_at,
            response: Some(response),
        };
        self.records.set(i, rec);
        assert(self.view_records() =~= before.update(
            i as int,
            RecordView { response: Some(response@), ..before[i as int] },
        ));
        assert forall|a: int, b: int|
            0 <= a < self.view_records().len() && 0 <= b < self.view_records().len() && a
                != b implies !same_identity(
            #[trigger] self.view_records()[a],
            self.view_records()[b].owner_id,
            #[trigger] self.view_records()[b].key,
        ) by {
            assert(same_identity(self.view_records()[a], before[a].owner_id, before[a].key));
            assert(self.view_records()[b].owner_id == before[b].owner_id);
            assert(self.view_records()[b].key == before[b].key);
        }
    }

    /// Drops the in-flight claim on `(owner_id, key)`: the key is free again.
    pub fn release(&mut self, owner_id: u128, key: &IdempotencyKey)
        requires
            old(self).wf(),
            position_of(old(self).view_records(), owner_id, key.spec_text()) matches Some(i)
                && old(self).view_records()[i].response is None,
        ensures
            final(self).wf(),
            final(self).view_records() == old(self).view_records().remove(
                position_of(old(self).view_records(), owner_id, key.spec_text())->Some_0,
            ),
    {
        let i = self.find(owner_id, key).unwrap();
        let ghost before = self.view_records();
        self.records.remove(i);
        assert(self.view_records() =~= before.remove(i as int));
        assert forall|a: int, b: int|
            0 <= a < self.view_records().len() && 0 <= b < self.view_records().len() && a
                != b implies !same_identity(
            #[trigger] self.view_records()[a],
            self.view_records()[b].owner_id,
            #[trigger] self.view_records()[b].key,
        ) by {
            let a0 = if a < i { a } else { a + 1 };
            let b0 = if b < i { b } else { b + 1 };
            assert(self.view_records()[a] == before[a0]);
            assert(self.view_records()[b] == before[b0]);
        }
    }

    /// Deletes every record with `created_at + ttl < now` and returns how
    /// many went.
    pub fn remove_expired(&mut self, ttl: i64, now: i64) -> (r: usize)
        requires
            old(self).wf(),
        ensures
            final(self).wf(),
            final(self).view_records() == unexpired(
                old(self).view_records(),
                ttl as int,
                now as int,
            ),
            r == old(self).view_records().len() - final(self).view_records().len(),
    {
        let ghost before = self.view_records();
        let ghost pred = |r: RecordView| !expired(r.created_at as int, ttl as int, now as int);
        let mut kept: Vec<IdempotencyRecord> = Vec::new();
        let mut i: usize = 0;
        while i < self.records.len()
            invariant
                i <= self.records@.len(),
                before == self.view_records(),
                pred == (|r: RecordView| !expired(r.created_at as int, ttl as int, now as int)),
                kept@.map_values(|r: IdempotencyRecord| record_view(r)) == before.take(
                    i as int,
                ).filter(pred),
                kept@.len() <= i,
            decreases self.records@.len() - i,
        {
            let ghost old_kept = kept@.map_values(|r: IdempotencyRecord| record_view(r));
            assert(before.take(i + 1) == before.take(i as int).push(before[i as int]));
            proof {
                before.take(i as int).lemma_filter_push(before[i as int], pred);
            }
            assert(before[i as int] == record_view(self.records@[i as int]));
            if !is_expired(self.records[i].created_at, ttl, now) {
                kept.push(self.records[i].duplicate());
                assert(kept@.map_values(|r: IdempotencyRecord| record_view(r)) =~= old_kept.push(
                    before[i as int],
                ));
                assert(old_kept.push(before[i as int]) == before.take(i + 1).filter(pred));
            } else {
                assert(old_kept == before.take(i + 1).filter(pred));
            }
            i += 1;
        }
        assert(before.take(before.len() as int) == before);
        proof {
            lemma_unexpired_unique(before, ttl as int, now as int);
        }
        let removed = self.records.len() - kept.len();
        self.records = kept;
        removed
    }
}

/// A sweep at `now` deletes exactly the expired records: a record with
/// `created_at + ttl < now` is gone afterwards, and one with
/// `created_at + ttl >= now` is still there, unchanged.
pub proof fn lemma_sweep_correct(s: Seq<RecordView>, ttl: int, now: int, i: int)
    requires
        0 <= i < s.len(),
    ensures
        expired(s[i].created_at as int, ttl, now) ==> !unexpired(s, ttl, now).contains(s[i]),
        !expired(s[i].created_at as int, ttl, now) ==> unexpired(s, ttl, now).contains(s[i]),
{
    let pred = |r: RecordView| !expired(r.created_at as int, ttl, now);
    let f = s.filter(pred);
    if expired(s[i].created_at as int, ttl, now) {
        if f.contains(s[i]) {
            let k = choose|k: int| 0 <= k < f.len() && f[k] == s[i];
            s.lemma_filter_pred(pred, k);
        }
    } else {
        s.lemma_filter_contains(pred, i);
    }
}

/// In a table with unique identities, a record of `(owner_id, key)` is the
/// one that `position_of` finds.
pub proof fn lemma_position_of_unique(s: Seq<RecordView>, owner_id: u128, key: Seq<char>, i: int)
    requires
        identities_unique(s),
        0 <= i < s.len(),
        same_identity(s[i], owner_id, key),
    ensures
        position_of(s, owner_id, key) == Some(i),
{
    let c = choose|k: int| 0 <= k < s.len() && #[trigger] same_identity(s[k], owner_id, key);
    if c != i {
        assert(!same_identity(s[c], s[i].owner_id, s[i].key));
    }
}

/// The pause between two looks at a key that another caller holds.
pub const POLL_INTERVAL_MS: u64 = 25;

/// What a caller that found its key in flight does next.
pub enum ReplayStep {
    /// The command completed: answer with its response.
    Replay(SavedResponse),
    /// Still in flight: look again after this many milliseconds.
    Wait(u64),
    /// The claim was rolled back: try to claim the key afresh.
    Reclaim,
    /// The wait budget is spent: give up with an error.
    TimedOut,
}

/// The next step of a caller waiting on `(owner_id, key)`, given what a
/// fresh lookup found, the time waited so far and the wait budget.
pub fn replay_step(found: Lookup, waited_ms: u64, budget_ms: u64) -> (r: ReplayStep)
    ensures
        found matches Lookup::Done(x) ==> (r matches ReplayStep::Replay(y) && y@ == x@),
        found is Missing ==> r is Reclaim,
        found is InFlight ==> if waited_ms + POLL_INTERVAL_MS <= budget_ms {
            r == ReplayStep::Wait(POLL_INTERVAL_MS)
        } else {
            r is TimedOut
        },
{
    match found {
        Lookup::Done(x) => ReplayStep::Replay(x),
        Lookup::Missing => ReplayStep::Reclaim,
        Lookup::InFlight => {
            if waited_ms <= budget_ms && budget_ms - waited_ms >= POLL_INTERVAL_MS {
                ReplayStep::Wait(POLL_INTERVAL_MS)
            } else {
                ReplayStep::TimedOut
            }
        },
    }
}

} // verus!
