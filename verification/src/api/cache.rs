//! The response cache: for each endpoint that was fetched, when it was last
//! fetched and what came back. One owner serves all requests, one after the
//! other, and sweeps out old entries every hundredth request.

use crate::api::endpoint::{Endpoint, EndpointView};
use crate::api::response::ClientResponse;
use vstd::prelude::*;

verus! {

/// How long an entry may stay without an update, in seconds.
pub const MAX_CACHE_TIME_S: i64 = 3600;

/// After how many served requests the cache is swept.
pub const CLEANUP_INTERVAL: u64 = 100;

/// A request to the cache's owner.
#[derive(Debug)]
pub enum CacheRequest {
    /// When was the endpoint last fetched?
    LastCalled(Endpoint),
    /// What did the endpoint last answer?
    LastResponse(Endpoint),
    /// The endpoint was fetched just now, with this answer.
    Update(Endpoint, ClientResponse),
}

/// The owner's reply to a question.
#[derive(Debug)]
pub enum CacheResponse {
    LastCalled(i64),
    LastResponse(ClientResponse),
    /// The endpoint was never fetched, or its entry was swept out.
    Missing,
}

/// What the cache holds for one endpoint.
pub ghost struct Cached {
    pub last_called: i64,
    pub last_payload: ClientResponse,
}

/// One entry of the cache.
#[derive(Debug)]
pub struct CacheEntry {
    endpoint: Endpoint,
    last_called: i64,
    last_payload: ClientResponse,
}

/// Whether an entry last updated at `last_called` is older than the cache
/// keeps entries, seen from `now`.
pub open spec fn expired(last_called: i64, now: i64) -> bool {
    now - last_called > MAX_CACHE_TIME_S
}

/// The cache after a sweep at `now`: what is left are the entries that are
/// not expired.
pub open spec fn swept(model: Map<EndpointView, Cached>, now: i64) -> Map<EndpointView, Cached> {
    Map::new(
        |e: EndpointView| model.contains_key(e) && !expired(model[e].last_called, now),
        |e: EndpointView| model[e],
    )
}

/// The cache after a request was handled at `now`: an update stamps the
/// endpoint with `now` and overwrites its payload, a question changes
/// nothing.
pub open spec fn after_request(
    model: Map<EndpointView, Cached>,
    request: CacheRequest,
    now: i64,
) -> Map<EndpointView, Cached> {
    match request {
        CacheRequest::Update(endpoint, payload) => model.insert(
            endpoint@,
            Cached { last_called: now, last_payload: payload },
        ),
        _ => model,
    }
}

/// The reply to a request: to a question what the cache holds for the
/// endpoint, to an update nothing.
pub open spec fn reply_to(model: Map<EndpointView, Cached>, request: CacheRequest) -> Option<
    CacheResponse,
> {
    match request {
        CacheRequest::LastCalled(endpoint) => Some(
            if model.contains_key(endpoint@) {
                CacheResponse::LastCalled(model[endpoint@].last_called)
            } else {
                CacheResponse::Missing
            },
        ),
        CacheRequest::LastResponse(endpoint) => Some(
            if model.contains_key(endpoint@) {
                CacheResponse::LastResponse(model[endpoint@].last_payload)
            } else {
                CacheResponse::Missing
            },
        ),
        CacheRequest::Update(_, _) => None,
    }
}

spec fn cached(entry: CacheEntry) -> Cached {
    Cached { last_called: entry.last_called, last_payload: entry.last_payload }
}

spec fn has_entry(entries: Seq<CacheEntry>, e: EndpointView) -> bool {
    exists|i: int| 0 <= i < entries.len() && (#[trigger] entries[i]).endpoint@ == e
}

spec fn entry_for(entries: Seq<CacheEntry>, e: EndpointView) -> int {
    choose|i: int| 0 <= i < entries.len() && (#[trigger] entries[i]).endpoint@ == e
}

spec fn model_of(entries: Seq<CacheEntry>) -> Map<EndpointView, Cached> {
    Map::new(
        |e: EndpointView| has_entry(entries, e),
        |e: EndpointView| cached(entries[entry_for(entries, e)]),
    )
}

spec fn distinct(entries: Seq<CacheEntry>) -> bool {
    forall|i: int, j: int|
        0 <= i < j < entries.len() ==> (#[trigger] entries[i]).endpoint@ != (
        #[trigger] entries[j]).endpoint@
}

/// Among distinct entries the one for an endpoint is the only one.
proof fn lemma_entry_unique(entries: Seq<CacheEntry>, i: int)
    requires
        distinct(entries),
        0 <= i < entries.len(),
    ensures
        has_entry(entries, entries[i].endpoint@),
        entry_for(entries, entries[i].endpoint@) == i,
        model_of(entries).contains_key(entries[i].endpoint@),
        model_of(entries)[entries[i].endpoint@] == cached(entries[i]),
{
    let e = entries[i].endpoint@;
    let j = entry_for(entries, e);
    assert(entries[i].endpoint@ == e);
    assert(0 <= j < entries.len() && entries[j].endpoint@ == e);
    if j < i {
        assert(entries[j].endpoint@ != entries[i].endpoint@);
    } else if i < j {
        assert(entries[i].endpoint@ != entries[j].endpoint@);
    }
}

/// Adding an entry for an endpoint that has none inserts it into the model.
proof fn lemma_model_push(entries: Seq<CacheEntry>, entry: CacheEntry)
    requires
        distinct(entries),
        !has_entry(entries, entry.endpoint@),
    ensures
        distinct(entries.push(entry)),
        model_of(entries.push(entry)) == model_of(entries).insert(entry.endpoint@, cached(entry)),
{
    let longer = entries.push(entry);
    assert forall|i: int, j: int| 0 <= i < j < longer.len() implies (
    #[trigger] longer[i]).endpoint@ != (#[trigger] longer[j]).endpoint@ by {
        if j < entries.len() {
            assert(entries[i].endpoint@ != entries[j].endpoint@);
        } else {
            assert(entries[i].endpoint@ != entry.endpoint@);
        }
    }
    let goal = model_of(entries).insert(entry.endpoint@, cached(entry));
    assert forall|e: EndpointView| model_of(longer).contains_key(e) <==> goal.contains_key(
        e,
    ) by {
        if has_entry(longer, e) {
            let i = entry_for(longer, e);
            if i < entries.len() {
                assert(entries[i].endpoint@ == e);
            }
        }
        if has_entry(entries, e) {
            let i = entry_for(entries, e);
            assert(longer[i].endpoint@ == e);
        }
        if e == entry.endpoint@ {
            assert(longer[entries.len() as int].endpoint@ == e);
        }
    }
    assert forall|e: EndpointView| model_of(longer).contains_key(e) implies model_of(longer)[e]
        == goal[e] by {
        let i = entry_for(longer, e);
        lemma_entry_unique(longer, i);
        if i < entries.len() {
            assert(entries[i] == longer[i]);
            lemma_entry_unique(entries, i);
        }
    }
    assert(model_of(longer) =~= goal);
}

/// Replacing an entry by one for the same endpoint overwrites it in the
/// model.
proof fn lemma_model_update(entries: Seq<CacheEntry>, at: int, entry: CacheEntry)
    requires
        distinct(entries),
        0 <= at < entries.len(),
        entries[at].endpoint@ == entry.endpoint@,
    ensures
        distinct(entries.update(at, entry)),
        model_of(entries.update(at, entry)) == model_of(entries).insert(
            entry.endpoint@,
            cached(entry),
        ),
{
    let changed = entries.update(at, entry);
    assert forall|i: int, j: int| 0 <= i < j < changed.len() implies (
    #[trigger] changed[i]).endpoint@ != (#[trigger] changed[j]).endpoint@ by {
        assert(entries[i].endpoint@ != entries[j].endpoint@);
    }
    let goal = model_of(entries).insert(entry.endpoint@, cached(entry));
    assert forall|e: EndpointView| model_of(changed).contains_key(e) <==> goal.contains_key(
        e,
    ) by {
        if has_entry(changed, e) {
            let i = entry_for(changed, e);
            assert(entries[i].endpoint@ == e);
        }
        if has_entry(entries, e) {
            let i = entry_for(entries, e);
            assert(changed[i].endpoint@ == e);
        }
        if e == entry.endpoint@ {
            assert(changed[at].endpoint@ == e);
        }
    }
    assert forall|e: EndpointView| model_of(changed).contains_key(e) implies model_of(
        changed,
    )[e] == goal[e] by {
        let i = entry_for(changed, e);
        lemma_entry_unique(changed, i);
        if i != at {
            assert(entries[i] == changed[i]);
            lemma_entry_unique(entries, i);
        }
    }
    assert(model_of(changed) =~= goal);
}

/// Taking an entry out takes its endpoint out of the model.
proof fn lemma_model_remove(entries: Seq<CacheEntry>, at: int)
    requires
        distinct(entries),
        0 <= at < entries.len(),
    ensures
        distinct(entries.remove(at)),
        model_of(entries.remove(at)) == model_of(entries).remove(entries[at].endpoint@),
{
    let fewer = entries.remove(at);
    assert forall|i: int, j: int| 0 <= i < j < fewer.len() implies (
    #[trigger] fewer[i]).endpoint@ != (#[trigger] fewer[j]).endpoint@ by {
        let a = if i < at {
            i
        } else {
            i + 1
        };
        let b = if j < at {
            j
        } else {
            j + 1
        };
        assert(entries[a].endpoint@ != entries[b].endpoint@);
    }
    let gone = entries[at].endpoint@;
    let goal = model_of(entries).remove(gone);
    assert forall|e: EndpointView| model_of(fewer).contains_key(e) <==> goal.contains_key(
        e,
    ) by {
        if has_entry(fewer, e) {
            let i = entry_for(fewer, e);
            let a = if i < at {
                i
            } else {
                i + 1
            };
            assert(entries[a].endpoint@ == e);
            if a < at {
                assert(entries[a].endpoint@ != entries[at].endpoint@);
            } else {
                assert(entries[at].endpoint@ != entries[a].endpoint@);
            }
        }
        if has_entry(entries, e) && e != gone {
            let a = entry_for(entries, e);
            let i = if a < at {
                a
            } else {
                a - 1
            };
            assert(fewer[i].endpoint@ == e);
        }
    }
    assert forall|e: EndpointView| model_of(fewer).contains_key(e) implies model_of(fewer)[e]
        == goal[e] by {
        let i = entry_for(fewer, e);
        lemma_entry_unique(fewer, i);
        let a = if i < at {
            i
        } else {
            i + 1
        };
        assert(entries[a] == fewer[i]);
        lemma_entry_unique(entries, a);
    }
    assert(model_of(fewer) =~= goal);
}

/// The store behind the cache.
#[derive(Debug)]
pub struct CacheInner {
    entries: Vec<CacheEntry>,
}

impl View for CacheInner {
    type V = Map<EndpointView, Cached>;

    /// What the cache holds, by endpoint.
    closed spec fn view(&self) -> Map<EndpointView, Cached> {
        model_of(self.entries@)
    }
}

impl CacheInner {
    /// No endpoint has two entries.
    pub closed spec fn wf(&self) -> bool {
        distinct(self.entries@)
    }

    /// An empty cache.
    pub fn new() -> (r: CacheInner)
        ensures
            r@ == Map::<EndpointView, Cached>::empty(),
            r.wf(),
    {
        let r = CacheInner { entries: Vec::new() };
        assert(r@ =~= Map::<EndpointView, Cached>::empty());
        r
    }

    /// The number of endpoints that the cache holds.
    pub fn len(&self) -> (r: usize)
        requires
            self.wf(),
        ensures
            r == self@.dom().len(),
            self@.dom().finite(),
    {
        proof {
            lemma_model_len(self.entries@);
        }
        self.entries.len()
    }

    /// Where the entry for `endpoint` stands, if there is one.
    fn find(&self, endpoint: &Endpoint) -> (r: Option<usize>)
        ensures
            match r {
                Some(i) => i < self.entries@.len() && self.entries@[i as int].endpoint@
                    == endpoint@,
                None => !has_entry(self.entries@, endpoint@),
            },
    {
        let mut i: usize = 0;
        while i < self.entries.len()
            invariant
                i <= self.entries.len(),
                forall|k: int| 0 <= k < i ==> (#[trigger] self.entries@[k]).endpoint@ != endpoint@,
            decreases self.entries.len() - i,
        {
            if self.entries[i].endpoint == *endpoint {
                return Some(i);
            }
            i = i + 1;
        }
        None
    }

    /// When `endpoint` was last fetched, if the cache holds it.
    pub fn handle_last_called(&self, endpoint: &Endpoint) -> (r: CacheResponse)
        requires
            self.wf(),
        ensures
            r == (if self@.contains_key(endpoint@) {
                CacheResponse::LastCalled(self@[endpoint@].last_called)
            } else {
                CacheResponse::Missing
            }),
    {
        match self.find(endpoint) {
            Some(i) => {
                proof {
                    lemma_entry_unique(self.entries@, i as int);
                }
                CacheResponse::LastCalled(self.entries[i].last_called)
            },
            None => CacheResponse::Missing,
        }
    }

    /// What `endpoint` last answered, if the cache holds it.
    pub fn handle_last_response(&self, endpoint: &Endpoint) -> (r: CacheResponse)
        requires
            self.wf(),
        ensures
            r == (if self@.contains_key(endpoint@) {
                CacheResponse::LastResponse(self@[endpoint@].last_payload)
            } else {
                CacheResponse::Missing
            }),
    {
        match self.find(endpoint) {
            Some(i) => {
                proof {
                    lemma_entry_unique(self.entries@, i as int);
                }
                CacheResponse::LastResponse(self.entries[i].last_payload.clone())
            },
            None => CacheResponse::Missing,
        }
    }

    /// Records that `endpoint` was fetched at `now` and answered
    /// `response`.
    pub fn handle_update(&mut self, endpoint: &Endpoint, response: ClientResponse, now: i64)
        requires
            old(self).wf(),
        ensures
            final(self)@ == old(self)@.insert(
                endpoint@,
                Cached { last_called: now, last_payload: response },
            ),
            final(self).wf(),
    {
        let entry = CacheEntry {
            endpoint: endpoint.clone(),
            last_called: now,
            last_payload: response,
        };
        match self.find(endpoint) {
            Some(i) => {
                proof {
                    lemma_model_update(self.entries@, i as int, entry);
                }
                self.entries.set(i, entry);
            },
            None => {
                proof {
                    lemma_model_push(self.entries@, entry);
                }
                self.entries.push(entry);
            },
        }
    }

    /// Sweeps out every entry that is expired at `now`.
    pub fn cleanup(&mut self, now: i64)
        requires
            old(self).wf(),
        ensures
            final(self)@ == swept(old(self)@, now),
            forall|e: EndpointView| #[trigger]
                final(self)@.contains_key(e) ==> now - final(self)@[e].last_called
                    <= MAX_CACHE_TIME_S,
            final(self).wf(),
    {
        let mut i: usize = 0;
        while i < self.entries.len()
            invariant
                i <= self.entries.len(),
                distinct(self.entries@),
                swept(model_of(self.entries@), now) == swept(old(self)@, now),
                forall|k: int|
                    0 <= k < i ==> !expired((#[trigger] self.entries@[k]).last_called, now),
            decreases self.entries.len() - i,
        {
            let last_called = self.entries[i].last_called;
            if now as i128 - last_called as i128 > MAX_CACHE_TIME_S as i128 {
                proof {
                    lemma_model_remove(self.entries@, i as int);
                    lemma_entry_unique(self.entries@, i as int);
                    assert(swept(model_of(self.entries@.remove(i as int)), now) =~= swept(
                        model_of(self.entries@),
                        now,
                    ));
                }
                let _ = self.entries.remove(i);
            } else {
                i = i + 1;
            }
        }
        proof {
            let model = model_of(self.entries@);
            assert forall|e: EndpointView| model.contains_key(e) implies !expired(
                model[e].last_called,
                now,
            ) by {
                let k = entry_for(self.entries@, e);
                lemma_entry_unique(self.entries@, k);
            }
            assert(swept(model, now) =~= model);
        }
    }

    /// Handles one request at `now` and returns the reply, if the request
    /// is a question.
    pub fn handle_request(&mut self, request: CacheRequest, now: i64) -> (r: Option<CacheResponse>)
        requires
            old(self).wf(),
        ensures
            final(self)@ == after_request(old(self)@, request, now),
            r == reply_to(old(self)@, request),
            final(self).wf(),
    {
        match request {
            CacheRequest::LastCalled(endpoint) => Some(self.handle_last_called(&endpoint)),
            CacheRequest::LastResponse(endpoint) => Some(self.handle_last_response(&endpoint)),
            CacheRequest::Update(endpoint, response) => {
                self.handle_update(&endpoint, response, now);
                None
            },
        }
    }
}

/// Distinct entries are as many as the endpoints of their model.
proof fn lemma_model_len(entries: Seq<CacheEntry>)
    requires
        distinct(entries),
    ensures
        model_of(entries).dom().finite(),
        model_of(entries).dom().len() == entries.len(),
    decreases entries.len(),
{
    if entries.len() == 0 {
        assert(model_of(entries).dom() =~= Set::<EndpointView>::empty());
    } else {
        let rest = entries.drop_last();
        let top = entries.last();
        assert(distinct(rest)) by {
            assert forall|i: int, j: int| 0 <= i < j < rest.len() implies (
            #[trigger] rest[i]).endpoint@ != (#[trigger] rest[j]).endpoint@ by {
                assert(entries[i].endpoint@ != entries[j].endpoint@);
            }
        }
        lemma_model_len(rest);
        if has_entry(rest, top.endpoint@) {
            let i = entry_for(rest, top.endpoint@);
            assert(entries[i].endpoint@ != entries[entries.len() - 1].endpoint@);
        }
        lemma_model_push(rest, top);
        assert(rest.push(top) =~= entries);
        assert(model_of(entries).dom() =~= model_of(rest).dom().insert(top.endpoint@));
    }
}

/// The cache and the number of requests served since the last sweep, after
/// one more request was served at `now`: the request is handled, and the
/// hundredth request since the last sweep is followed by a sweep.
pub open spec fn after_serving(
    model: Map<EndpointView, Cached>,
    served: int,
    request: CacheRequest,
    now: i64,
) -> (Map<EndpointView, Cached>, int) {
    let handled = after_request(model, request, now);
    if served + 1 == CLEANUP_INTERVAL {
        (swept(handled, now), 0)
    } else {
        (handled, served + 1)
    }
}

/// The cache and the count after requests were served one after the other,
/// each at its time.
pub open spec fn after_serving_all(
    model: Map<EndpointView, Cached>,
    served: int,
    steps: Seq<(CacheRequest, i64)>,
) -> (Map<EndpointView, Cached>, int)
    decreases steps.len(),
{
    if steps.len() == 0 {
        (model, served)
    } else {
        let before = after_serving_all(model, served, steps.drop_last());
        after_serving(before.0, before.1, steps.last().0, steps.last().1)
    }
}

/// The owner of the cache: the store, and the number of requests served
/// since the last sweep.
#[derive(Debug)]
pub struct ClientCache {
    inner: CacheInner,
    counter: u64,
}

impl View for ClientCache {
    type V = Map<EndpointView, Cached>;

    /// What the cache holds, by endpoint.
    closed spec fn view(&self) -> Map<EndpointView, Cached> {
        self.inner@
    }
}

impl ClientCache {
    /// The number of requests served since the last sweep.
    pub closed spec fn served(&self) -> int {
        self.counter as int
    }

    pub closed spec fn wf(&self) -> bool {
        self.inner.wf() && self.counter < CLEANUP_INTERVAL
    }

    /// An empty cache that has served nothing.
    pub fn new() -> (r: ClientCache)
        ensures
            r@ == Map::<EndpointView, Cached>::empty(),
            r.served() == 0,
            r.wf(),
    {
        ClientCache { inner: CacheInner::new(), counter: 0 }
    }

    /// Serves one request at `now`; the hundredth request since the last
    /// sweep is followed by a sweep. Returns the reply, if the request is a
    /// question.
    pub fn serve(&mut self, request: CacheRequest, now: i64) -> (r: Option<CacheResponse>)
        requires
            old(self).wf(),
        ensures
            (final(self)@, final(self).served()) == after_serving(
                old(self)@,
                old(self).served(),
                request,
                now,
            ),
            r == reply_to(old(self)@, request),
            final(self).wf(),
    {
        let reply = self.inner.handle_request(request, now);
        self.counter = self.counter + 1;
        if self.counter == CLEANUP_INTERVAL {
            self.counter = 0;
            self.inner.cleanup(now);
        }
        reply
    }

    /// Asks when `endpoint` was last fetched. Nothing means that it never
    /// was, or that its entry was swept out.
    pub fn last_called(&mut self, endpoint: Endpoint, now: i64) -> (r: Option<i64>)
        requires
            old(self).wf(),
        ensures
            (final(self)@, final(self).served()) == after_serving(
                old(self)@,
                old(self).served(),
                CacheRequest::LastCalled(endpoint),
                now,
            ),
            r == (if old(self)@.contains_key(endpoint@) {
                Some(old(self)@[endpoint@].last_called)
            } else {
                None
            }),
            final(self).wf(),
    {
        match self.serve(CacheRequest::LastCalled(endpoint), now) {
            Some(CacheResponse::LastCalled(time)) => Some(time),
            _ => None,
        }
    }

    /// Records that `endpoint` was fetched at `now` and answered
    /// `response`.
    pub fn update(&mut self, endpoint: Endpoint, response: ClientResponse, now: i64)
        requires
            old(self).wf(),
        ensures
            (final(self)@, final(self).served()) == after_serving(
                old(self)@,
                old(self).served(),
                CacheRequest::Update(endpoint, response),
                now,
            ),
            final(self).wf(),
    {
        let _ = self.serve(CacheRequest::Update(endpoint, response), now);
    }

    /// Asks what `endpoint` last answered. Nothing means that it never was
    /// fetched, or that its entry was swept out.
    pub fn last_response(&mut self, endpoint: Endpoint, now: i64) -> (r: Option<ClientResponse>)
        requires
            old(self).wf(),
        ensures
            (final(self)@, final(self).served()) == after_serving(
                old(self)@,
                old(self).served(),
                CacheRequest::LastResponse(endpoint),
                now,
            ),
            r == (if old(self)@.contains_key(endpoint@) {
                Some(old(self)@[endpoint@].last_payload)
            } else {
                None
            }),
            final(self).wf(),
    {
        match self.serve(CacheRequest::LastResponse(endpoint), now) {
            Some(CacheResponse::LastResponse(response)) => Some(response),
            _ => None,
        }
    }

    /// When `endpoint` was last fetched, as the cache stands; the look is
    /// not counted as a request.
    pub fn peek_last_called(&self, endpoint: &Endpoint) -> (r: Option<i64>)
        requires
            self.wf(),
        ensures
            r == (if self@.contains_key(endpoint@) {
                Some(self@[endpoint@].last_called)
            } else {
                None
            }),
    {
        match self.inner.handle_last_called(endpoint) {
            CacheResponse::LastCalled(time) => Some(time),
            _ => None,
        }
    }
}

/// Whether the times of the steps never fall.
pub open spec fn clock_rises(steps: Seq<(CacheRequest, i64)>) -> bool {
    forall|i: int, j: int| 0 <= i <= j < steps.len() ==> steps[i].1 <= steps[j].1
}

/// Whether every entry was updated at `bound` or later.
pub open spec fn updated_since(model: Map<EndpointView, Cached>, bound: int) -> bool {
    forall|e: EndpointView| #[trigger] model.contains_key(e) ==> model[e].last_called >= bound
}

/// A sweep leaves no entry that is older than an hour.
pub proof fn lemma_sweep_leaves_fresh(model: Map<EndpointView, Cached>, now: i64)
    ensures
        updated_since(swept(model, now), now - MAX_CACHE_TIME_S),
{
}

/// The cache's lifetime bound. The owner sweeps after every hundredth
/// request, so under a clock that does not go back any hundred requests
/// remove what was older than an hour when the first of them was served:
/// every entry that is left was updated no more than an hour before that
/// request.
pub proof fn lemma_old_entries_leave(
    model: Map<EndpointView, Cached>,
    served: int,
    steps: Seq<(CacheRequest, i64)>,
)
    requires
        0 <= served < CLEANUP_INTERVAL,
        steps.len() + served >= CLEANUP_INTERVAL,
        clock_rises(steps),
    ensures
        updated_since(after_serving_all(model, served, steps).0, steps[0].1 - MAX_CACHE_TIME_S),
        after_serving_all(model, served, steps).1 == (served + steps.len()) % (
        CLEANUP_INTERVAL as int),
    decreases steps.len(),
{
    let rest = steps.drop_last();
    let before = after_serving_all(model, served, rest);
    let now = steps.last().1;
    lemma_count_while_serving(model, served, rest);
    assert(steps[0].1 <= steps[steps.len() - 1].1);
    if before.1 + 1 != CLEANUP_INTERVAL {
        assert(rest.len() + served >= CLEANUP_INTERVAL);
        assert(clock_rises(rest)) by {
            assert forall|i: int, j: int| 0 <= i <= j < rest.len() implies rest[i].1
                <= rest[j].1 by {
                assert(steps[i].1 <= steps[j].1);
            }
        }
        lemma_old_entries_leave(model, served, rest);
        assert(rest[0] == steps[0]);
    }
}

/// The count of requests since the last sweep goes round every hundred.
proof fn lemma_count_while_serving(
    model: Map<EndpointView, Cached>,
    served: int,
    steps: Seq<(CacheRequest, i64)>,
)
    requires
        0 <= served < CLEANUP_INTERVAL,
    ensures
        after_serving_all(model, served, steps).1 == (served + steps.len()) % (
        CLEANUP_INTERVAL as int),
    decreases steps.len(),
{
    if steps.len() > 0 {
        lemma_count_while_serving(model, served, steps.drop_last());
    }
}

/// An update stays visible. Once the cache recorded at `fetched` that an
/// endpoint was fetched, it holds the endpoint with that time or a later
/// one through all requests that are served within the hour after it, so
/// every request for the endpoint in that hour finds a time for its
/// conditional header that is `fetched` or later.
pub proof fn lemma_update_stays_cached(
    model: Map<EndpointView, Cached>,
    served: int,
    endpoint: Endpoint,
    payload: ClientResponse,
    fetched: i64,
    steps: Seq<(CacheRequest, i64)>,
)
    requires
        0 <= served < CLEANUP_INTERVAL,
        forall|i: int|
            0 <= i < steps.len() ==> fetched <= (#[trigger] steps[i]).1 <= fetched
                + MAX_CACHE_TIME_S,
    ensures
        ({
            let updated = after_serving(
                model,
                served,
                CacheRequest::Update(endpoint, payload),
                fetched,
            );
            let after = after_serving_all(updated.0, updated.1, steps).0;
            after.contains_key(endpoint@) && after[endpoint@].last_called >= fetched
        }),
    decreases steps.len(),
{
    if steps.len() > 0 {
        lemma_update_stays_cached(model, served, endpoint, payload, fetched, steps.drop_last());
        assert(fetched <= steps[steps.len() - 1].1 <= fetched + MAX_CACHE_TIME_S);
    }
}

} // verus!
