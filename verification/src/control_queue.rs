//! The control server's bounded queues: requests waiting for the window's
//! next turn, and the replay cache that answers a retried request id without
//! running it twice.

use vstd::prelude::*;
use crate::clock::Clock;
use crate::command::CliCommand;
use crate::wire::{encode_response, RequestId};

verus! {

/// Requests that may wait for the window at once.
pub const REQUEST_QUEUE_CAPACITY: usize = 32;

/// Request ids the replay cache remembers at once.
pub const RESPONSE_REPLAY_CACHE_CAPACITY: usize = 1024;

/// Bytes of completed responses the replay cache keeps at once.
pub const RESPONSE_REPLAY_CACHE_MAX_BYTES: usize = 8388608;

/// How long a finished entry is remembered, in milliseconds.
pub const RESPONSE_REPLAY_CACHE_TTL_MS: u64 = 600000;

/// One decoded request and the reply through which it is answered.
pub struct IncomingRequest<S> {
    pub command: CliCommand,
    pub reply: S,
}

/// Why a request was not queued.
#[derive(Clone, Copy, Debug, PartialEq, Eq, Structural)]
pub enum RequestQueueReject {
    Full,
    Closed,
}

impl RequestQueueReject {
    /// What the client is told.
    pub fn message(self) -> (text: &'static str)
        ensures
            text@ == match self {
                RequestQueueReject::Full => "control server is busy"@,
                RequestQueueReject::Closed => "terminal window is closing"@,
            },
    {
        match self {
            RequestQueueReject::Full => "control server is busy",
            RequestQueueReject::Closed => "terminal window is closing",
        }
    }
}

pub open spec fn is_resize(command: CliCommand) -> bool {
    command is ResizeWindow
}

/// Whether the first `n` requests are all resizes.
pub open spec fn all_resize<S>(items: Seq<IncomingRequest<S>>, n: int) -> bool {
    forall|i: int| 0 <= i < n ==> is_resize(#[trigger] items[i].command)
}

/// Where the run of resizes from `i` ends, stopping at the queue capacity.
pub open spec fn resize_run_end<S>(items: Seq<IncomingRequest<S>>, i: int) -> int
    decreases items.len() - i,
{
    if 0 <= i < items.len() && i < REQUEST_QUEUE_CAPACITY && is_resize(items[i].command) {
        resize_run_end(items, i + 1)
    } else {
        i
    }
}

/// How many requests one batch takes: up to `limit`, and when those are all
/// resizes, the run of resizes that follows them too (up to the capacity).
pub open spec fn batch_len<S>(items: Seq<IncomingRequest<S>>, limit: nat) -> int {
    let count = if limit < items.len() {
        limit as int
    } else {
        items.len() as int
    };
    if count > 0 && all_resize(items, count) {
        resize_run_end(items, count)
    } else {
        count
    }
}

proof fn lemma_resize_run_end<S>(items: Seq<IncomingRequest<S>>, i: int)
    requires
        0 <= i <= items.len(),
    ensures
        i <= resize_run_end(items, i) <= items.len(),
        resize_run_end(items, i) > i ==> resize_run_end(items, i) <= REQUEST_QUEUE_CAPACITY,
        forall|j: int| i <= j < resize_run_end(items, i) ==> is_resize(#[trigger] items[j].command),
    decreases items.len() - i,
{
    if i < items.len() && i < REQUEST_QUEUE_CAPACITY && is_resize(items[i].command) {
        lemma_resize_run_end(items, i + 1);
    }
}

/// Requests waiting for the window, oldest first.
pub struct RequestQueue<S> {
    items: Vec<IncomingRequest<S>>,
    alive: bool,
}

impl<S> RequestQueue<S> {
    pub closed spec fn spec_items(&self) -> Seq<IncomingRequest<S>> {
        self.items@
    }

    pub closed spec fn spec_alive(&self) -> bool {
        self.alive
    }

    /// Never more than the capacity waits.
    pub open spec fn wf(&self) -> bool {
        self.spec_items().len() <= REQUEST_QUEUE_CAPACITY
    }

    /// An open, empty queue.
    pub fn new() -> (queue: Self)
        ensures
            queue.wf(),
            queue.spec_items().len() == 0,
            queue.spec_alive(),
    {
        RequestQueue { items: Vec::new(), alive: true }
    }

    /// Queues `request` behind the others. Returns whether the queue was empty,
    /// that is, whether the window needs waking; a closed or full queue
    /// refuses it.
    pub fn push(&mut self, request: IncomingRequest<S>) -> (result: Result<bool, RequestQueueReject>)
        requires
            old(self).wf(),
        ensures
            final(self).wf(),
            final(self).spec_alive() == old(self).spec_alive(),
            !old(self).spec_alive() ==> result == Err::<bool, RequestQueueReject>(
                RequestQueueReject::Closed,
            ),
            old(self).spec_alive() && old(self).spec_items().len() >= REQUEST_QUEUE_CAPACITY
                ==> result == Err::<bool, RequestQueueReject>(RequestQueueReject::Full),
            result is Err ==> final(self).spec_items() == old(self).spec_items(),
            result is Ok <==> old(self).spec_alive() && old(self).spec_items().len()
                < REQUEST_QUEUE_CAPACITY,
            result matches Ok(wake) ==> wake == (old(self).spec_items().len() == 0)
                && final(self).spec_items() == old(self).spec_items().push(request),
    {
        if !self.alive {
            return Err(RequestQueueReject::Closed);
        }
        if self.items.len() >= REQUEST_QUEUE_CAPACITY {
            return Err(RequestQueueReject::Full);
        }
        let should_wake = self.items.len() == 0;
        self.items.push(request);
        Ok(should_wake)
    }

    /// Takes the next batch, oldest first: up to `limit` requests, and when
    /// those are all resizes, the run of resizes right behind them too, since
    /// only the last size matters. No other request is ever taken past the
    /// limit or out of order. Also says whether requests remain.
    pub fn pop_batch(&mut self, limit: usize) -> (result: (Vec<IncomingRequest<S>>, bool))
        requires
            old(self).wf(),
        ensures
            final(self).wf(),
            final(self).spec_alive() == old(self).spec_alive(),
            result.0@.len() == batch_len(old(self).spec_items(), limit as nat),
            result.0@ + final(self).spec_items() == old(self).spec_items(),
            result.1 == (final(self).spec_items().len() > 0),
            result.0@.len() > limit ==> forall|i: int| 0 <= i < result.0@.len() ==> is_resize(
                #[trigger] result.0@[i].command,
            ),
    {
        let ghost all = self.items@;
        let count = if limit < self.items.len() { limit } else { self.items.len() };
        let mut batch: Vec<IncomingRequest<S>> = Vec::new();
        let mut all_resizes = true;
        while batch.len() < count
            invariant
                count <= all.len(),
                batch@.len() <= count,
                batch@ + self.items@ == all,
                all_resizes == all_resize(all, batch@.len() as int),
                self.alive == old(self).alive,
            decreases count - batch@.len(),
        {
            let ghost before = batch@;
            let request = self.items.remove(0);
            if !matches!(request.command, CliCommand::ResizeWindow { .. }) {
                all_resizes = false;
            }
            batch.push(request);
            proof {
                assert(batch@ + self.items@ =~= before + (seq![request] + self.items@));
                assert(all[before.len() as int] == request);
            }
        }
        if count > 0 && all_resizes {
            proof {
                lemma_resize_run_end(all, count as int);
            }
            while batch.len() < REQUEST_QUEUE_CAPACITY && self.items.len() > 0 && matches!(
                self.items[0].command,
                CliCommand::ResizeWindow { .. }
            )
                invariant
                    count <= batch@.len() <= all.len(),
                    batch@ + self.items@ == all,
                    resize_run_end(all, count as int) == resize_run_end(all, batch@.len() as int),
                    all_resize(all, batch@.len() as int),
                    self.alive == old(self).alive,
                decreases all.len() - batch@.len(),
            {
                let ghost before = batch@;
                let request = self.items.remove(0);
                assert(all[before.len() as int] == request);
                batch.push(request);
                assert(batch@ + self.items@ =~= all);
            }
            assert forall|i: int| 0 <= i < batch@.len() implies is_resize(
                #[trigger] batch@[i].command,
            ) by {
                assert(batch@[i] == (batch@ + self.items@)[i]);
            }
        }
        let backlog = self.items.len() > 0;
        (batch, backlog)
    }

    /// Refuses all further requests and drops the queued ones.
    pub fn close(&mut self)
        ensures
            final(self).wf(),
            !final(self).spec_alive(),
            final(self).spec_items().len() == 0,
    {
        self.alive = false;
        self.items = Vec::new();
    }
}

/// Where a remembered request stands.
pub enum CachedResponseState {
    /// Claimed and still running.
    Pending,
    /// Finished, with the encoded response to replay.
    Complete(Vec<u8>),
    /// Finished, but its response did not fit the byte budget: a retry is
    /// refused rather than run twice.
    Tombstone,
}

/// One remembered request id. `created` is in milliseconds on the cache's
/// clock.
pub struct CachedResponse {
    pub id: RequestId,
    pub created: u64,
    pub state: CachedResponseState,
}

/// What claiming a request id yields.
pub enum ReplayClaim {
    /// The id is new: the caller runs the request and completes it.
    Owner,
    /// The id already finished: here is its response again.
    Replay(Vec<u8>),
    /// The id is still running.
    Pending,
    /// The id finished but its response was not kept.
    Tombstone,
    /// The cache cannot remember another id.
    Full,
}

/// Whether a claim at `now` still remembers `entry`: a running request is
/// always remembered, a finished one for the time-to-live.
pub open spec fn is_live(entry: CachedResponse, now: u64) -> bool {
    entry.state is Pending || now < entry.created || now - entry.created < RESPONSE_REPLAY_CACHE_TTL_MS
}

/// The entries a claim at `now` keeps, in order.
pub open spec fn live_entries(entries: Seq<CachedResponse>, now: u64) -> Seq<CachedResponse>
    decreases entries.len(),
{
    if entries.len() == 0 {
        Seq::empty()
    } else {
        let rest = live_entries(entries.drop_last(), now);
        if is_live(entries.last(), now) {
            rest.push(entries.last())
        } else {
            rest
        }
    }
}

/// Index of the first entry for `id`, or -1.
pub open spec fn entry_index(entries: Seq<CachedResponse>, id: RequestId) -> int
    decreases entries.len(),
{
    if entries.len() == 0 {
        -1
    } else if entries[0].id == id {
        0
    } else {
        let rest = entry_index(entries.drop_first(), id);
        if rest < 0 {
            -1
        } else {
            rest + 1
        }
    }
}

/// Bytes held by completed entries.
pub open spec fn complete_bytes(entries: Seq<CachedResponse>) -> nat
    decreases entries.len(),
{
    if entries.len() == 0 {
        0
    } else {
        complete_bytes(entries.drop_last()) + match entries.last().state {
            CachedResponseState::Complete(payload) => payload@.len(),
            _ => 0,
        }
    }
}

/// No id is remembered twice.
pub open spec fn ids_unique(entries: Seq<CachedResponse>) -> bool {
    forall|i: int, j: int| 0 <= i < entries.len() && 0 <= j < entries.len() && i != j ==> (
    #[trigger] entries[i]).id != (#[trigger] entries[j]).id
}

/// What a claim of an entry in `state` yields.
pub open spec fn claim_of_state(state: CachedResponseState) -> ReplayClaimView {
    match state {
        CachedResponseState::Pending => ReplayClaimView::Pending,
        CachedResponseState::Complete(payload) => ReplayClaimView::Replay(payload@),
        CachedResponseState::Tombstone => ReplayClaimView::Tombstone,
    }
}

/// A claim, with a replayed response as plain bytes.
pub enum ReplayClaimView {
    Owner,
    Replay(Seq<u8>),
    Pending,
    Tombstone,
    Full,
}

impl View for ReplayClaim {
    type V = ReplayClaimView;

    open spec fn view(&self) -> ReplayClaimView {
        match self {
            ReplayClaim::Owner => ReplayClaimView::Owner,
            ReplayClaim::Replay(payload) => ReplayClaimView::Replay(payload@),
            ReplayClaim::Pending => ReplayClaimView::Pending,
            ReplayClaim::Tombstone => ReplayClaimView::Tombstone,
            ReplayClaim::Full => ReplayClaimView::Full,
        }
    }
}


/// What claiming `id` at `now` answers: from the entry for `id` among those
/// still remembered, else `Full` or `Owner`.
pub open spec fn claim_result(entries: Seq<CachedResponse>, id: RequestId, now: u64) -> ReplayClaimView {
    let live = live_entries(entries, now);
    let k = entry_index(live, id);
    if k >= 0 {
        claim_of_state(live[k].state)
    } else if live.len() >= RESPONSE_REPLAY_CACHE_CAPACITY {
        ReplayClaimView::Full
    } else {
        ReplayClaimView::Owner
    }
}

/// The entries after claiming `id` at `now`: those still remembered, and a
/// running entry for `id` when it became the caller's.
pub open spec fn claimed_entries(entries: Seq<CachedResponse>, id: RequestId, now: u64) -> Seq<CachedResponse> {
    let live = live_entries(entries, now);
    if entry_index(live, id) < 0 && live.len() < RESPONSE_REPLAY_CACHE_CAPACITY {
        live.push(CachedResponse { id, created: now, state: CachedResponseState::Pending })
    } else {
        live
    }
}

/// The entries after completing `id` with `payload` at `now`: a running
/// entry for `id` finishes, kept whole while the completed responses fit the
/// byte budget, else as a tombstone; anything else is left as it is.
pub open spec fn completed_entries(entries: Seq<CachedResponse>, id: RequestId, payload: Vec<u8>, now: u64) -> Seq<CachedResponse> {
    let k = entry_index(entries, id);
    if k >= 0 && entries[k].state is Pending {
        entries.update(
            k,
            CachedResponse {
                id,
                created: now,
                state: if complete_bytes(entries) + payload@.len() <= RESPONSE_REPLAY_CACHE_MAX_BYTES {
                    CachedResponseState::Complete(payload)
                } else {
                    CachedResponseState::Tombstone
                },
            },
        )
    } else {
        entries
    }
}

proof fn lemma_entry_index(s: Seq<CachedResponse>, id: RequestId, i: int)
    requires
        0 <= i <= s.len(),
        forall|j: int| 0 <= j < i ==> (#[trigger] s[j]).id != id,
        i < s.len() ==> s[i].id == id,
    ensures
        entry_index(s, id) == if i < s.len() {
            i
        } else {
            -1
        },
    decreases i,
{
    if i > 0 {
        let rest = s.drop_first();
        assert forall|j: int| 0 <= j < i - 1 implies (#[trigger] rest[j]).id != id by {
            assert(rest[j] == s[j + 1]);
        }
        lemma_entry_index(rest, id, i - 1);
    }
}


proof fn lemma_live_entries(s: Seq<CachedResponse>, now: u64)
    ensures
        live_entries(s, now).len() <= s.len(),
        complete_bytes(live_entries(s, now)) <= complete_bytes(s),
        forall|i: int| 0 <= i < live_entries(s, now).len() ==> exists|j: int| 0 <= j < s.len() && s[j]
            == #[trigger] live_entries(s, now)[i],
        ids_unique(s) ==> ids_unique(live_entries(s, now)),
    decreases s.len(),
{
    if s.len() > 0 {
        let front = s.drop_last();
        lemma_live_entries(front, now);
        let lf = live_entries(front, now);
        let l = live_entries(s, now);
        assert forall|i: int| 0 <= i < lf.len() implies exists|j: int| 0 <= j < s.len() && s[j]
            == #[trigger] lf[i] by {
            let j = choose|j: int| 0 <= j < front.len() && front[j] == lf[i];
            assert(s[j] == front[j]);
        }
        if is_live(s.last(), now) {
            assert(l == lf.push(s.last()));
            assert(l.drop_last() =~= lf);
            assert forall|i: int| 0 <= i < l.len() implies exists|j: int| 0 <= j < s.len() && s[j]
                == #[trigger] l[i] by {
                if i < lf.len() {
                    assert(l[i] == lf[i]);
                } else {
                    assert(l[i] == s[s.len() - 1]);
                }
            }
            if ids_unique(s) {
                assert(ids_unique(front)) by {
                    assert forall|a: int, b: int| 0 <= a < front.len() && 0 <= b < front.len() && a
                        != b implies (#[trigger] front[a]).id != (#[trigger] front[b]).id by {
                        assert(front[a] == s[a] && front[b] == s[b]);
                    }
                }
                assert forall|a: int, b: int| 0 <= a < l.len() && 0 <= b < l.len() && a != b implies (
                #[trigger] l[a]).id != (#[trigger] l[b]).id by {
                    if a < lf.len() && b < lf.len() {
                        assert(l[a] == lf[a] && l[b] == lf[b]);
                    } else if a < lf.len() {
                        let j = choose|j: int| 0 <= j < front.len() && front[j] == lf[a];
                        assert(s[j] == front[j]);
                        assert(l[a] == lf[a]);
                        assert(l[b] == s[s.len() - 1]);
                    } else {
                        let j = choose|j: int| 0 <= j < front.len() && front[j] == lf[b];
                        assert(s[j] == front[j]);
                        assert(l[b] == lf[b]);
                        assert(l[a] == s[s.len() - 1]);
                    }
                }
            }
        } else {
            if ids_unique(s) {
                assert forall|a: int, b: int| 0 <= a < front.len() && 0 <= b < front.len() && a != b implies (
                #[trigger] front[a]).id != (#[trigger] front[b]).id by {
                    assert(front[a] == s[a] && front[b] == s[b]);
                }
            }
        }
    }
}

proof fn lemma_complete_bytes_prefix(s: Seq<CachedResponse>, i: int)
    requires
        0 <= i <= s.len(),
    ensures
        complete_bytes(s.take(i)) <= complete_bytes(s),
    decreases s.len(),
{
    if i < s.len() {
        assert(s.drop_last().take(i) =~= s.take(i));
        lemma_complete_bytes_prefix(s.drop_last(), i);
    } else {
        assert(s.take(i) =~= s);
    }
}

proof fn lemma_complete_bytes_update(s: Seq<CachedResponse>, k: int, e: CachedResponse)
    requires
        0 <= k < s.len(),
        s[k].state is Pending,
    ensures
        complete_bytes(s.update(k, e)) == complete_bytes(s) + match e.state {
            CachedResponseState::Complete(payload) => payload@.len(),
            _ => 0,
        },
    decreases s.len(),
{
    let u = s.update(k, e);
    if k == s.len() - 1 {
        assert(u.drop_last() =~= s.drop_last());
    } else {
        assert(u.drop_last() =~= s.drop_last().update(k, e));
        lemma_complete_bytes_update(s.drop_last(), k, e);
    }
}

proof fn lemma_entry_index_found(s: Seq<CachedResponse>, id: RequestId)
    ensures
        -1 <= entry_index(s, id) < s.len(),
        entry_index(s, id) >= 0 ==> s[entry_index(s, id)].id == id,
    decreases s.len(),
{
    if s.len() > 0 {
        lemma_entry_index_found(s.drop_first(), id);
    }
}


/// `entry_index` finds the first entry for `id`, and finds none exactly when
/// no entry is for `id`.
pub proof fn lemma_entry_index_first(s: Seq<CachedResponse>, id: RequestId)
    ensures
        entry_index(s, id) >= 0 ==> entry_index(s, id) < s.len() && s[entry_index(s, id)].id == id
            && forall|j: int| 0 <= j < entry_index(s, id) ==> (#[trigger] s[j]).id != id,
        entry_index(s, id) < 0 ==> entry_index(s, id) == -1 && forall|j: int| 0 <= j < s.len()
            ==> (#[trigger] s[j]).id != id,
    decreases s.len(),
{
    if s.len() > 0 {
        let rest = s.drop_first();
        lemma_entry_index_first(rest, id);
        if s[0].id != id {
            assert forall|j: int| 1 <= j < s.len() implies (#[trigger] s[j]).id == rest[j - 1].id by {}
        }
    }
}

/// Filtering by age keeps a remembered entry that is the only one for its
/// id, and a claim then finds it.
proof fn lemma_live_finds(s: Seq<CachedResponse>, id: RequestId, k: int, now: u64)
    requires
        0 <= k < s.len(),
        s[k].id == id,
        is_live(s[k], now),
        forall|j: int| 0 <= j < s.len() && j != k ==> (#[trigger] s[j]).id != id,
    ensures
        entry_index(live_entries(s, now), id) >= 0,
        live_entries(s, now)[entry_index(live_entries(s, now), id)] == s[k],
    decreases s.len(),
{
    let front = s.drop_last();
    let lf = live_entries(front, now);
    lemma_live_entries(front, now);
    if k == s.len() - 1 {
        assert forall|j: int| 0 <= j < lf.len() implies (#[trigger] lf[j]).id != id by {
            let i = choose|i: int| 0 <= i < front.len() && front[i] == lf[j];
            assert(front[i] == s[i]);
        }
        let l = lf.push(s[k]);
        assert(live_entries(s, now) == l);
        assert forall|j: int| 0 <= j < lf.len() implies (#[trigger] l[j]).id != id by {
            assert(l[j] == lf[j]);
        }
        lemma_entry_index(l, id, lf.len() as int);
    } else {
        assert forall|j: int| 0 <= j < front.len() && j != k implies (#[trigger] front[j]).id != id by {
            assert(front[j] == s[j]);
        }
        lemma_live_finds(front, id, k, now);
        let k2 = entry_index(lf, id);
        lemma_entry_index_first(lf, id);
        if is_live(s.last(), now) {
            let l = lf.push(s.last());
            assert forall|j: int| 0 <= j < k2 implies (#[trigger] l[j]).id != id by {
                assert(l[j] == lf[j]);
            }
            lemma_entry_index(l, id, k2);
        }
    }
}

/// A retry of a request whose reply was lost is answered with the response
/// the first run completed: after the id is claimed, run and completed
/// within the byte budget, a claim of the same id while the response is
/// remembered replays exactly that response.
pub proof fn law_retry_replays_the_completed_response(
    entries: Seq<CachedResponse>,
    id: RequestId,
    payload: Vec<u8>,
    claimed_at: u64,
    completed_at: u64,
    retried_at: u64,
)
    requires
        claim_result(entries, id, claimed_at) == ReplayClaimView::Owner,
        complete_bytes(claimed_entries(entries, id, claimed_at)) + payload@.len()
            <= RESPONSE_REPLAY_CACHE_MAX_BYTES,
        retried_at < completed_at || retried_at - completed_at < RESPONSE_REPLAY_CACHE_TTL_MS,
    ensures
        claim_result(
            completed_entries(claimed_entries(entries, id, claimed_at), id, payload, completed_at),
            id,
            retried_at,
        ) == ReplayClaimView::Replay(payload@),
{
    let live = live_entries(entries, claimed_at);
    lemma_entry_index_first(live, id);
    let fresh = CachedResponse { id, created: claimed_at, state: CachedResponseState::Pending };
    let e1 = live.push(fresh);
    assert(claimed_entries(entries, id, claimed_at) == e1);
    let k = live.len() as int;
    assert forall|j: int| 0 <= j < k implies (#[trigger] e1[j]).id != id by {
        assert(e1[j] == live[j]);
    }
    lemma_entry_index(e1, id, k);
    let done = CachedResponse {
        id,
        created: completed_at,
        state: CachedResponseState::Complete(payload),
    };
    let e2 = e1.update(k, done);
    assert(completed_entries(e1, id, payload, completed_at) == e2);
    assert forall|j: int| 0 <= j < e2.len() && j != k implies (#[trigger] e2[j]).id != id by {
        assert(e2[j] == e1[j]);
    }
    lemma_live_finds(e2, id, k, retried_at);
}

/// A request that is still running is never run a second time: once its id
/// is claimed, every later claim of it is answered `Pending`, however late.
pub proof fn law_running_request_is_never_run_twice(
    entries: Seq<CachedResponse>,
    id: RequestId,
    claimed_at: u64,
    retried_at: u64,
)
    requires
        claim_result(entries, id, claimed_at) == ReplayClaimView::Owner,
    ensures
        claim_result(claimed_entries(entries, id, claimed_at), id, retried_at) == ReplayClaimView::Pending,
{
    let live = live_entries(entries, claimed_at);
    lemma_entry_index_first(live, id);
    let fresh = CachedResponse { id, created: claimed_at, state: CachedResponseState::Pending };
    let e1 = live.push(fresh);
    let k = live.len() as int;
    assert forall|j: int| 0 <= j < e1.len() && j != k implies (#[trigger] e1[j]).id != id by {
        assert(e1[j] == live[j]);
    }
    lemma_live_finds(e1, id, k, retried_at);
}

/// A response too large for the byte budget still fails closed: its id is
/// kept as a tombstone, so a retry is refused rather than run again.
pub proof fn law_oversized_response_fails_closed(
    entries: Seq<CachedResponse>,
    id: RequestId,
    payload: Vec<u8>,
    claimed_at: u64,
    completed_at: u64,
    retried_at: u64,
)
    requires
        claim_result(entries, id, claimed_at) == ReplayClaimView::Owner,
        complete_bytes(claimed_entries(entries, id, claimed_at)) + payload@.len()
            > RESPONSE_REPLAY_CACHE_MAX_BYTES,
        retried_at < completed_at || retried_at - completed_at < RESPONSE_REPLAY_CACHE_TTL_MS,
    ensures
        claim_result(
            completed_entries(claimed_entries(entries, id, claimed_at), id, payload, completed_at),
            id,
            retried_at,
        ) == ReplayClaimView::Tombstone,
{
    let live = live_entries(entries, claimed_at);
    lemma_entry_index_first(live, id);
    let fresh = CachedResponse { id, created: claimed_at, state: CachedResponseState::Pending };
    let e1 = live.push(fresh);
    let k = live.len() as int;
    assert forall|j: int| 0 <= j < k implies (#[trigger] e1[j]).id != id by {
        assert(e1[j] == live[j]);
    }
    lemma_entry_index(e1, id, k);
    let stone = CachedResponse { id, created: completed_at, state: CachedResponseState::Tombstone };
    let e2 = e1.update(k, stone);
    assert(completed_entries(e1, id, payload, completed_at) == e2);
    assert forall|j: int| 0 <= j < e2.len() && j != k implies (#[trigger] e2[j]).id != id by {
        assert(e2[j] == e1[j]);
    }
    lemma_live_finds(e2, id, k, retried_at);
}

/// A request id is never answered twice differently: once its entry has
/// finished, completing it again changes nothing.
pub proof fn law_a_finished_entry_is_never_replaced(
    entries: Seq<CachedResponse>,
    id: RequestId,
    payload: Vec<u8>,
    now: u64,
)
    requires
        entry_index(entries, id) >= 0,
        !(entries[entry_index(entries, id)].state is Pending),
    ensures
        completed_entries(entries, id, payload, now) == entries,
{
}

fn copy_bytes(bytes: &Vec<u8>) -> (copy: Vec<u8>)
    ensures
        copy@ == bytes@,
{
    let mut copy: Vec<u8> = Vec::new();
    let mut i: usize = 0;
    while i < bytes.len()
        invariant
            i <= bytes@.len(),
            copy@ == bytes@.take(i as int),
        decreases bytes@.len() - i,
    {
        copy.push(bytes[i]);
        i = i + 1;
        assert(copy@ =~= bytes@.take(i as int));
    }
    assert(bytes@.take(i as int) =~= bytes@);
    copy
}

/// Remembers recent request ids and their responses, so a client that lost a
/// reply can retry with the same id and get the same answer.
pub struct ResponseReplayCache {
    entries: Vec<CachedResponse>,
    clock: Clock,
}

impl ResponseReplayCache {
    pub closed spec fn spec_entries(&self) -> Seq<CachedResponse> {
        self.entries@
    }

    /// Bounded in ids and in bytes, and each id remembered once.
    pub open spec fn wf(&self) -> bool {
        &&& self.spec_entries().len() <= RESPONSE_REPLAY_CACHE_CAPACITY
        &&& complete_bytes(self.spec_entries()) <= RESPONSE_REPLAY_CACHE_MAX_BYTES
        &&& ids_unique(self.spec_entries())
    }

    /// An empty cache with its clock started now.
    pub fn new() -> (cache: Self)
        ensures
            cache.wf(),
            cache.spec_entries().len() == 0,
    {
        ResponseReplayCache { entries: Vec::new(), clock: Clock::start() }
    }

    /// The position of `id` in the entries, scanning from the front.
    fn find(&self, id: RequestId) -> (index: Option<usize>)
        ensures
            match index {
                Some(k) => k as int == entry_index(self.spec_entries(), id),
                None => entry_index(self.spec_entries(), id) == -1,
            },
            index matches Some(k) ==> k < self.spec_entries().len() && self.spec_entries()[k as int].id == id,
            index is None ==> forall|j: int| 0 <= j < self.spec_entries().len() ==> (
            #[trigger] self.spec_entries()[j]).id != id,
    {
        let mut i: usize = 0;
        while i < self.entries.len()
            invariant
                i <= self.entries@.len(),
                forall|j: int| 0 <= j < i ==> (#[trigger] self.entries@[j]).id != id,
            decreases self.entries@.len() - i,
        {
            if self.entries[i].id.0 == id.0 {
                proof {
                    lemma_entry_index(self.entries@, id, i as int);
                }
                return Some(i);
            }
            i = i + 1;
        }
        proof {
            lemma_entry_index(self.entries@, id, i as int);
        }
        None
    }

    /// Claims `id` at time `now`: forgets finished entries past their
    /// time-to-live, then answers from the entry for `id` if there is one,
    /// and otherwise records `id` as running (unless the cache is full).
    /// An id that is remembered is never replaced.
    pub fn claim_at(&mut self, id: RequestId, now: u64) -> (claim: ReplayClaim)
        requires
            old(self).wf(),
        ensures
            final(self).wf(),
            claim@ == claim_result(old(self).spec_entries(), id, now),
            final(self).spec_entries() == claimed_entries(old(self).spec_entries(), id, now),
    {
        let ghost all = self.entries@;
        let mut old_entries: Vec<CachedResponse> = Vec::new();
        std::mem::swap(&mut old_entries, &mut self.entries);
        let ghost mut i: int = 0;
        proof {
            assert(all.skip(0) =~= all);
            assert(all.take(0) =~= Seq::<CachedResponse>::empty());
        }
        while old_entries.len() > 0
            invariant
                0 <= i <= all.len(),
                old_entries@ == all.skip(i),
                self.entries@ == live_entries(all.take(i), now),
            decreases old_entries@.len(),
        {
            let entry = old_entries.remove(0);
            proof {
                assert(all.take(i + 1).drop_last() =~= all.take(i));
                assert(all.take(i + 1).last() == entry);
                assert(old_entries@ =~= all.skip(i + 1));
                i = i + 1;
            }
            let keep = match entry.state {
                CachedResponseState::Pending => true,
                _ => now < entry.created || now - entry.created < RESPONSE_REPLAY_CACHE_TTL_MS,
            };
            if keep {
                self.entries.push(entry);
            }
        }
        proof {
            assert(all.take(i) =~= all);
            lemma_live_entries(all, now);
        }
        match self.find(id) {
            Some(k) => {
                match &self.entries[k].state {
                    CachedResponseState::Pending => ReplayClaim::Pending,
                    CachedResponseState::Complete(payload) => ReplayClaim::Replay(copy_bytes(payload)),
                    CachedResponseState::Tombstone => ReplayClaim::Tombstone,
                }
            },
            None => {
                if self.entries.len() >= RESPONSE_REPLAY_CACHE_CAPACITY {
                    return ReplayClaim::Full;
                }
                let ghost live = self.entries@;
                let fresh = CachedResponse { id, created: now, state: CachedResponseState::Pending };
                self.entries.push(fresh);
                proof {
                    let l2 = self.entries@;
                    assert(l2.drop_last() =~= live);
                    assert forall|a: int, b: int| 0 <= a < l2.len() && 0 <= b < l2.len() && a != b implies (
                    #[trigger] l2[a]).id != (#[trigger] l2[b]).id by {
                        if a < live.len() && b < live.len() {
                            assert(l2[a] == live[a] && l2[b] == live[b]);
                        } else if a < live.len() {
                            assert(l2[a] == live[a]);
                        } else {
                            assert(l2[b] == live[b]);
                        }
                    }
                }
                ReplayClaim::Owner
            },
        }
    }

    /// Claims `id` now, on the cache's own clock: `claim_at` at the clock's
    /// current reading, whose value depends on the time of the call.
    pub fn claim(&mut self, id: RequestId) -> (claim: ReplayClaim)
        requires
            old(self).wf(),
        ensures
            final(self).wf(),
            exists|now: u64|
                claim@ == claim_result(old(self).spec_entries(), id, now)
                    && final(self).spec_entries() == claimed_entries(old(self).spec_entries(), id, now),
    {
        let now = self.clock.now_ms();
        let claim = self.claim_at(id, now);
        assert(claim@ == claim_result(old(self).spec_entries(), id, now)
            && self.spec_entries() == claimed_entries(old(self).spec_entries(), id, now));
        claim
    }

    /// Records the response of the running request `id` at time `now`: kept
    /// whole while the completed responses fit the byte budget, else reduced
    /// to a tombstone so a retry is refused rather than run twice. An id that
    /// is unknown or already finished is left as it is.
    pub fn complete_at(&mut self, id: RequestId, payload: Vec<u8>, now: u64)
        requires
            old(self).wf(),
        ensures
            final(self).wf(),
            final(self).spec_entries() == completed_entries(old(self).spec_entries(), id, payload, now),
    {
        let ghost all = self.entries@;
        let mut total: usize = 0;
        let mut i: usize = 0;
        while i < self.entries.len()
            invariant
                i <= all.len(),
                self.entries@ == all,
                complete_bytes(all) <= RESPONSE_REPLAY_CACHE_MAX_BYTES,
                total == complete_bytes(all.take(i as int)),
            decreases all.len() - i,
        {
            proof {
                assert(all.take(i + 1).drop_last() =~= all.take(i as int));
                lemma_complete_bytes_prefix(all, i + 1);
            }
            match &self.entries[i].state {
                CachedResponseState::Complete(bytes) => {
                    total = total + bytes.len();
                },
                _ => {},
            }
            i = i + 1;
        }
        proof {
            assert(all.take(i as int) =~= all);
        }
        let found = self.find(id);
        match found {
            Some(k) => {
                let pending = match &self.entries[k].state {
                    CachedResponseState::Pending => true,
                    _ => false,
                };
                if !pending {
                    return;
                }
                let fits = total.saturating_add(payload.len()) <= RESPONSE_REPLAY_CACHE_MAX_BYTES;
                let state = if fits {
                    CachedResponseState::Complete(payload)
                } else {
                    CachedResponseState::Tombstone
                };
                let entry = CachedResponse { id, created: now, state };
                proof {
                    lemma_complete_bytes_update(all, k as int, entry);
                    let u = all.update(k as int, entry);
                    assert forall|a: int, b: int| 0 <= a < u.len() && 0 <= b < u.len() && a != b implies (
                    #[trigger] u[a]).id != (#[trigger] u[b]).id by {
                        assert(all[k as int].id == id) by {
                            lemma_entry_index_found(all, id);
                        }
                        if a != k && b != k {
                            assert(u[a] == all[a] && u[b] == all[b]);
                        } else if a == k {
                            assert(u[b] == all[b]);
                        } else {
                            assert(u[a] == all[a]);
                        }
                    }
                }
                self.entries[k] = entry;
            },
            None => {},
        }
    }

    /// Records the response of `id` now, on the cache's own clock:
    /// `complete_at` at the clock's current reading, whose value depends on
    /// the time of the call.
    pub fn complete(&mut self, id: RequestId, payload: Vec<u8>)
        requires
            old(self).wf(),
        ensures
            final(self).wf(),
            exists|now: u64|
                final(self).spec_entries() == completed_entries(old(self).spec_entries(), id, payload, now),
    {
        let now = self.clock.now_ms();
        let ghost sent = payload;
        self.complete_at(id, payload, now);
        assert(self.spec_entries() == completed_entries(old(self).spec_entries(), id, sent, now));
    }
}

/// The encoded error reply carrying `message`.
pub open spec fn error_reply(message: Seq<char>) -> Seq<u8> {
    seq![0u8] + vstd::utf8::encode_utf8(message)
}

/// The answer a claim gives without running the request: the response to
/// replay, or the refusal to send; `None` for the caller to run it.
pub open spec fn replay_answer_of(claim: ReplayClaimView) -> Option<Seq<u8>> {
    match claim {
        ReplayClaimView::Replay(payload) => Some(payload),
        ReplayClaimView::Pending => Some(
            error_reply("control request is still pending; retry only with the same request id"@),
        ),
        ReplayClaimView::Tombstone => Some(
            error_reply(
                "control request ran but its result is no longer replayable; it was not executed again"@,
            ),
        ),
        ReplayClaimView::Full => Some(
            error_reply("control replay cache is full; request was not executed"@),
        ),
        ReplayClaimView::Owner => None,
    }
}

/// What a connection is sent for a claimed request id, when the request is
/// not to be run.
pub fn replay_answer(claim: ReplayClaim) -> (answer: Option<Vec<u8>>)
    ensures
        match replay_answer_of(claim@) {
            Some(bytes) => answer matches Some(a) && a@ == bytes,
            None => answer is None,
        },
{
    match claim {
        ReplayClaim::Replay(payload) => Some(payload),
        ReplayClaim::Pending => Some(
            encode_response(
                Err("control request is still pending; retry only with the same request id".to_owned()),
            ),
        ),
        ReplayClaim::Tombstone => Some(
            encode_response(
                Err(
                    "control request ran but its result is no longer replayable; it was not executed again".to_owned(),
                ),
            ),
        ),
        ReplayClaim::Full => Some(
            encode_response(Err("control replay cache is full; request was not executed".to_owned())),
        ),
        ReplayClaim::Owner => None,
    }
}

/// Connections accepted but not yet served, oldest first.
pub struct ConnectionQueue<S> {
    items: Vec<S>,
    alive: bool,
}

/// What a worker gets when it asks for the next connection.
pub enum NextConnection<S> {
    Ready(S),
    /// The queue is closed and empty: the worker stops.
    Closed,
    /// Nothing yet: the worker waits and asks again.
    Wait,
}

/// Connections that may wait at once.
pub const CONNECTION_QUEUE_CAPACITY: usize = 32;

impl<S> ConnectionQueue<S> {
    pub closed spec fn spec_items(&self) -> Seq<S> {
        self.items@
    }

    pub closed spec fn spec_alive(&self) -> bool {
        self.alive
    }

    pub fn new() -> (queue: Self)
        ensures
            queue.spec_items().len() == 0,
            queue.spec_alive(),
    {
        ConnectionQueue { items: Vec::new(), alive: true }
    }

    /// Queues `stream`, or hands it back when the queue is closed or full so
    /// the caller can turn it away.
    pub fn push(&mut self, stream: S) -> (result: Result<(), S>)
        ensures
            final(self).spec_alive() == old(self).spec_alive(),
            old(self).spec_alive() && old(self).spec_items().len() < CONNECTION_QUEUE_CAPACITY
                ==> result is Ok && final(self).spec_items() == old(self).spec_items().push(stream),
            !(old(self).spec_alive() && old(self).spec_items().len() < CONNECTION_QUEUE_CAPACITY)
                ==> result == Err::<(), S>(stream) && final(self).spec_items() == old(self).spec_items(),
    {
        if !self.alive || self.items.len() >= CONNECTION_QUEUE_CAPACITY {
            return Err(stream);
        }
        self.items.push(stream);
        Ok(())
    }

    /// The oldest connection; once closed and drained, `Closed`.
    pub fn next(&mut self) -> (next: NextConnection<S>)
        ensures
            final(self).spec_alive() == old(self).spec_alive(),
            old(self).spec_items().len() > 0 ==> next == NextConnection::Ready(old(self).spec_items()[0])
                && final(self).spec_items() == old(self).spec_items().drop_first(),
            old(self).spec_items().len() == 0 ==> final(self).spec_items() == old(self).spec_items() && if old(
                self,
            ).spec_alive() {
                next is Wait
            } else {
                next is Closed
            },
    {
        if self.items.len() > 0 {
            let stream = self.items.remove(0);
            return NextConnection::Ready(stream);
        }
        if self.alive {
            NextConnection::Wait
        } else {
            NextConnection::Closed
        }
    }

    /// Refuses further connections and drops the waiting ones.
    pub fn close(&mut self)
        ensures
            !final(self).spec_alive(),
            final(self).spec_items().len() == 0,
    {
        self.alive = false;
        self.items = Vec::new();
    }
}

} // verus!
