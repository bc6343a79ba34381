//! The decisions of the conditional client: what a request for an endpoint
//! carries, what a response means, and whether a failed request is tried
//! again.

use crate::api::cache::{
    after_serving, after_serving_all, lemma_update_stays_cached, CacheRequest, Cached,
    ClientCache, CLEANUP_INTERVAL, MAX_CACHE_TIME_S,
};
use crate::api::endpoint::{decimal_of, url_of, Endpoint, EndpointView};
use crate::api::error::{Error, ErrorView};
use crate::api::response::ClientResponse;
use vstd::prelude::*;

verus! {

/// Whether requests use HTTPS where the configuration does not say.
pub const DEFAULT_USE_HTTPS: bool = false;

/// How often a failed request is tried again where the configuration does
/// not say.
pub const DEFAULT_MAX_RETRIES: usize = 5;

/// The first second that an RFC 2822 date can express: the beginning of
/// the year 0, counted from the epoch.
pub const MIN_HEADER_TIME: i64 = -62167219200;

/// The last second that an RFC 2822 date can express: the end of the year
/// 9999.
pub const MAX_HEADER_TIME: i64 = 253402300799;

/// The configuration of the client.
#[derive(Debug, Clone, Copy)]
pub struct Config {
    pub use_https: Option<bool>,
    pub max_retries: Option<usize>,
}

impl Default for Config {
    fn default() -> (r: Config)
        ensures
            r == (Config { use_https: None, max_retries: None }),
    {
        Config { use_https: None, max_retries: None }
    }
}

impl Config {
    pub fn new(use_https: Option<bool>, max_retries: Option<usize>) -> (r: Config)
        ensures
            r == (Config { use_https, max_retries }),
    {
        Config { use_https, max_retries }
    }

    /// Whether requests use HTTPS.
    pub open spec fn spec_use_https(&self) -> bool {
        match self.use_https {
            Some(https) => https,
            None => DEFAULT_USE_HTTPS,
        }
    }

    /// How often a failed request is tried again.
    pub open spec fn spec_max_retries(&self) -> usize {
        match self.max_retries {
            Some(retries) => retries,
            None => DEFAULT_MAX_RETRIES,
        }
    }

    pub fn use_https(&self) -> (r: bool)
        ensures
            r == self.spec_use_https(),
    {
        match self.use_https {
            Some(https) => https,
            None => DEFAULT_USE_HTTPS,
        }
    }

    pub fn max_retries(&self) -> (r: usize)
        ensures
            r == self.spec_max_retries(),
    {
        match self.max_retries {
            Some(retries) => retries,
            None => DEFAULT_MAX_RETRIES,
        }
    }
}

/// Whether the form of RFC 2822 has a date for a number of seconds since
/// the epoch: it has one for the years 0 to 9999.
pub open spec fn has_date(secs: i64) -> bool {
    MIN_HEADER_TIME <= secs <= MAX_HEADER_TIME
}

/// What `chrono::DateTime::to_rfc2822` writes for the moment that
/// `chrono::DateTime::from_timestamp` makes of a number of seconds since
/// the epoch that lies within the years 0 to 9999.
pub uninterp spec fn rfc2822_of(secs: i64) -> Seq<char>;

/// Calls `chrono::DateTime::from_timestamp` with no nanoseconds and, on the
/// moment that it gives, `chrono::DateTime::to_rfc2822`. Trusted: for every
/// second within the years 0 to 9999 the first gives a moment, and the
/// result is the date that the second writes for it. Seconds outside these
/// years, for which the formatting panics, are left out.
#[verifier::external_body]
fn format_rfc2822(secs: i64) -> (r: Option<String>)
    requires
        has_date(secs),
    ensures
        r is Some,
        r->0@ == rfc2822_of(secs),
{
    chrono::DateTime::from_timestamp(secs, 0).map(|moment| moment.to_rfc2822())
}

/// The value of the conditional header for an endpoint that was last
/// fetched at `last_called`: the date in the form of RFC 2822, or nothing
/// where that form has no date for it.
pub open spec fn header_for(last_called: i64) -> Option<Seq<char>> {
    if has_date(last_called) {
        Some(rfc2822_of(last_called))
    } else {
        None
    }
}

/// The view of an optional text.
pub open spec fn text_view(text: Option<String>) -> Option<Seq<char>> {
    match text {
        Some(t) => Some(t@),
        None => None,
    }
}

/// The value of the conditional header for an endpoint that was last
/// fetched at `last_called`, in seconds since the epoch.
pub fn if_modified_since(last_called: i64) -> (r: Option<String>)
    ensures
        text_view(r) == header_for(last_called),
{
    if MIN_HEADER_TIME <= last_called && last_called <= MAX_HEADER_TIME {
        format_rfc2822(last_called)
    } else {
        None
    }
}

/// A request as the transport needs it: always a `GET`.
#[derive(Debug)]
pub struct RequestPlan {
    pub url: String,
    pub if_modified_since: Option<String>,
}

/// What a response's status asks of the client.
#[derive(Debug, Clone, Copy, PartialEq, Eq, Structural)]
pub enum Disposition {
    /// 200: decode the body, cache it and return it.
    Decode,
    /// 304: return what the cache holds.
    Replay,
    /// Anything else: fail with the status.
    Fail,
}

/// What a status asks of the client.
pub open spec fn disposition_of(status: u16) -> Disposition {
    if status == 200 {
        Disposition::Decode
    } else if status == 304 {
        Disposition::Replay
    } else {
        Disposition::Fail
    }
}

/// What a status asks of the client.
pub fn classify_status(status: u16) -> (r: Disposition)
    ensures
        r == disposition_of(status),
{
    if status == 200 {
        Disposition::Decode
    } else if status == 304 {
        Disposition::Replay
    } else {
        Disposition::Fail
    }
}

/// What follows a failed attempt.
#[derive(Debug, Clone, Copy, PartialEq, Eq, Structural)]
pub enum RetryStep {
    /// Return the error of the attempt.
    GiveUp,
    /// Wait `wait_secs` seconds, then make the attempt with the number
    /// `retries`.
    Retry { retries: usize, wait_secs: u64 },
}

/// What follows the failed attempt with the number `retries`, counted from
/// zero: a 404 ends the call, and so does the attempt that reached the cap;
/// any other failure is tried again, after as many seconds as the next
/// attempt's number.
pub open spec fn retry_after(max_retries: usize, retries: usize, error: ErrorView) -> RetryStep {
    if error == ErrorView::StatusCode("404"@) || retries >= max_retries {
        RetryStep::GiveUp
    } else {
        RetryStep::Retry { retries: (retries + 1) as usize, wait_secs: (retries + 1) as u64 }
    }
}

/// The seconds to wait before the attempt with the number `retries`.
pub fn wait_before(retries: usize) -> (r: u64)
    ensures
        r == retries,
{
    retries as u64
}

/// The client's own state: its configuration and the response cache.
#[derive(Debug)]
pub struct Client {
    cfg: Config,
    cache: ClientCache,
}

impl Client {
    /// The configuration.
    pub closed spec fn config(&self) -> Config {
        self.cfg
    }

    /// What the response cache holds.
    pub closed spec fn cached(&self) -> Map<EndpointView, Cached> {
        self.cache@
    }

    /// How many requests the cache has served since its last sweep.
    pub closed spec fn served(&self) -> int {
        self.cache.served()
    }

    pub closed spec fn wf(&self) -> bool {
        self.cache.wf()
    }

    /// A client with an empty cache; without a configuration the defaults
    /// hold.
    pub fn new(cfg: Option<Config>) -> (r: Client)
        ensures
            r.config() == (match cfg {
                Some(c) => c,
                None => Config { use_https: None, max_retries: None },
            }),
            r.cached() == Map::<EndpointView, Cached>::empty(),
            r.served() == 0,
            r.wf(),
    {
        let cfg = match cfg {
            Some(c) => c,
            None => Config::default(),
        };
        Client { cfg, cache: ClientCache::new() }
    }

    pub fn use_https(&self) -> (r: bool)
        ensures
            r == self.config().spec_use_https(),
    {
        self.cfg.use_https()
    }

    pub fn max_retries(&self) -> (r: usize)
        ensures
            r == self.config().spec_max_retries(),
    {
        self.cfg.max_retries()
    }

    /// Plans the request for `endpoint`: its URL under the scheme that
    /// `https` selects, and the conditional header wherever the cache holds
    /// a time for the endpoint. Asking the cache counts as a request to it.
    pub fn new_request(&mut self, endpoint: &Endpoint, https: bool, now: i64) -> (r: RequestPlan)
        requires
            old(self).wf(),
        ensures
            r.url@ == url_of(endpoint@, https),
            text_view(r.if_modified_since) == (if old(self).cached().contains_key(endpoint@) {
                header_for(old(self).cached()[endpoint@].last_called)
            } else {
                None
            }),
            (final(self).cached(), final(self).served()) == after_serving(
                old(self).cached(),
                old(self).served(),
                CacheRequest::LastCalled(*endpoint),
                now,
            ),
            final(self).config() == old(self).config(),
            final(self).wf(),
    {
        let url = endpoint.url(https);
        let asked = endpoint.clone();
        let if_modified_since = match self.cache.last_called(asked, now) {
            Some(time) => if_modified_since(time),
            None => None,
        };
        RequestPlan { url, if_modified_since }
    }

    /// Interprets the response to a request for `endpoint` that arrived at
    /// `now`. `parsed` is the decoded body of a 200.
    ///
    /// A 200 whose body has the endpoint's shape is recorded in the cache
    /// and returned. A 304 returns what the cache holds for the endpoint.
    /// A 200 without such a body and a 304 without a cached payload are
    /// invalid responses. Any other status is returned as an error that
    /// holds the status in decimal.
    pub fn handle_response(
        &mut self,
        endpoint: &Endpoint,
        status: u16,
        parsed: Option<ClientResponse>,
        now: i64,
    ) -> (r: Result<ClientResponse, Error>)
        requires
            old(self).wf(),
        ensures
            final(self).wf(),
            final(self).config() == old(self).config(),
            match disposition_of(status) {
                Disposition::Decode => {
                    if parsed is Some && parsed->0.fits(endpoint@) {
                        &&& r == Ok::<ClientResponse, Error>(parsed->0)
                        &&& (final(self).cached(), final(self).served()) == after_serving(
                            old(self).cached(),
                            old(self).served(),
                            CacheRequest::Update(*endpoint, parsed->0),
                            now,
                        )
                    } else {
                        &&& r == Err::<ClientResponse, Error>(Error::InvalidResponse)
                        &&& final(self).cached() == old(self).cached()
                        &&& final(self).served() == old(self).served()
                    }
                },
                Disposition::Replay => {
                    &&& r == (if old(self).cached().contains_key(endpoint@) {
                        Ok::<ClientResponse, Error>(old(self).cached()[endpoint@].last_payload)
                    } else {
                        Err::<ClientResponse, Error>(Error::InvalidResponse)
                    })
                    &&& (final(self).cached(), final(self).served()) == after_serving(
                        old(self).cached(),
                        old(self).served(),
                        CacheRequest::LastResponse(*endpoint),
                        now,
                    )
                },
                Disposition::Fail => {
                    &&& r is Err
                    &&& r->Err_0@ == ErrorView::StatusCode(decimal_of(status as int))
                    &&& final(self).cached() == old(self).cached()
                    &&& final(self).served() == old(self).served()
                },
            },
    {
        match classify_status(status) {
            Disposition::Decode => match parsed {
                Some(response) => {
                    if response.matches_endpoint(endpoint) {
                        let kept = response.clone();
                        self.cache.update(endpoint.clone(), kept, now);
                        Ok(response)
                    } else {
                        Err(Error::InvalidResponse)
                    }
                },
                None => Err(Error::InvalidResponse),
            },
            Disposition::Replay => match self.cache.last_response(endpoint.clone(), now) {
                Some(response) => Ok(response),
                None => Err(Error::InvalidResponse),
            },
            Disposition::Fail => Err(Error::status(status)),
        }
    }

    /// Decides what follows the failed attempt with the number `retries`.
    pub fn after_failure(&self, retries: usize, error: &Error) -> (r: RetryStep)
        ensures
            r == retry_after(self.config().spec_max_retries(), retries, error@),
    {
        if error.is_not_found() || retries >= self.cfg.max_retries() {
            RetryStep::GiveUp
        } else {
            RetryStep::Retry { retries: retries + 1, wait_secs: (retries + 1) as u64 }
        }
    }
}

/// The conditional header that a request for `endpoint` carries when the
/// cache stands as `model`.
pub open spec fn header_from(model: Map<EndpointView, Cached>, endpoint: EndpointView) -> Option<
    Seq<char>,
> {
    if model.contains_key(endpoint) {
        header_for(model[endpoint].last_called)
    } else {
        None
    }
}

/// Conditional requests are used. Once an endpoint was fetched with
/// success at `fetched`, the cache holds it through all requests that are
/// served within the hour after, with `fetched` or the time of a later
/// success; so every request for it that is planned in that hour carries
/// the header for that time, which is a date wherever the form has one.
pub proof fn lemma_requests_are_conditional(
    model: Map<EndpointView, Cached>,
    served: int,
    endpoint: Endpoint,
    payload: ClientResponse,
    fetched: i64,
    steps: Seq<(CacheRequest, i64)>,
)
    requires
        0 <= served < CLEANUP_INTERVAL,
        forall|i: int|
            0 <= i < steps.len() ==> fetched <= (#[trigger] steps[i]).1 <= fetched
                + MAX_CACHE_TIME_S,
    ensures
        ({
            let updated = after_serving(
                model,
                served,
                CacheRequest::Update(endpoint, payload),
                fetched,
            );
            let after = after_serving_all(updated.0, updated.1, steps).0;
            &&& after.contains_key(endpoint@)
            &&& after[endpoint@].last_called >= fetched
            &&& header_from(after, endpoint@) == header_for(after[endpoint@].last_called)
            &&& has_date(after[endpoint@].last_called) ==> header_from(after, endpoint@) == Some(
                rfc2822_of(after[endpoint@].last_called),
            )
        }),
{
    lemma_update_stays_cached(model, served, endpoint, payload, fetched, steps);
}

} // verus!
