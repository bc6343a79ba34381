//! A sliding-window rate limiter that reserves the next slot at the moment
//! a caller is told to wait, so that queued callers leave one window apart.

use vstd::prelude::*;

verus! {

/// The expiries that are still ahead of `now`, in their order.
pub open spec fn live(expiries: Seq<int>, now: int) -> Seq<int>
    decreases expiries.len(),
{
    if expiries.len() == 0 {
        Seq::empty()
    } else {
        let before = live(expiries.drop_last(), now);
        if expiries.last() > now {
            before.push(expiries.last())
        } else {
            before
        }
    }
}

/// How long a caller that asks at `now` has to wait: until the oldest live
/// expiry where all permits are taken, not at all otherwise.
pub open spec fn wait_at(expiries: Seq<int>, permits: int, now: int) -> int {
    let ahead = live(expiries, now);
    if ahead.len() >= permits && ahead.len() > 0 {
        ahead[0] - now
    } else {
        0
    }
}

/// The expiries after a caller asked at `now`: the live ones, followed by
/// the expiry of the slot that the caller takes, one window after its
/// departure.
pub open spec fn expiries_after(expiries: Seq<int>, permits: int, window: int, now: int) -> Seq<
    int,
> {
    live(expiries, now).push(now + wait_at(expiries, permits, now) + window)
}

/// A limiter of `rate_limit_per_interval` permits over a window of
/// `interval_duration_ms` milliseconds.
#[derive(Debug, Clone)]
pub struct RateLimiter {
    rate_limit_per_interval: usize,
    interval_duration_ms: u128,
    timestamps: Vec<u128>,
}

impl RateLimiter {
    /// The number of permits per window.
    pub closed spec fn permits(&self) -> int {
        self.rate_limit_per_interval as int
    }

    /// The length of the window, in milliseconds.
    pub closed spec fn window(&self) -> int {
        self.interval_duration_ms as int
    }

    /// The expiries of the slots taken, in the order in which they were
    /// taken.
    pub closed spec fn expiries(&self) -> Seq<int> {
        self.timestamps@.map_values(|t: u128| t as int)
    }

    pub open spec fn wf(&self) -> bool {
        self.permits() > 0
    }

    /// Whether a caller can ask at `now` without an expiry leaving the range
    /// of the clock.
    pub open spec fn can_acquire(&self, now: u128) -> bool {
        &&& now + self.window() <= u128::MAX
        &&& forall|i: int|
            0 <= i < self.expiries().len() ==> (#[trigger] self.expiries()[i]) + self.window()
                <= u128::MAX
    }

    /// A limiter with no slot taken. A limiter without permits is not
    /// defined.
    pub fn new(rate_limit_per_interval: usize, interval_duration_ms: u128) -> (r: RateLimiter)
        requires
            rate_limit_per_interval > 0,
        ensures
            r.permits() == rate_limit_per_interval,
            r.window() == interval_duration_ms,
            r.expiries() == Seq::<int>::empty(),
            r.wf(),
    {
        let r = RateLimiter { rate_limit_per_interval, interval_duration_ms, timestamps: Vec::new() };
        proof {
            assert(r.expiries() =~= Seq::<int>::empty());
        }
        r
    }

    /// The number of slots on record.
    pub fn pending(&self) -> (r: usize)
        ensures
            r == self.expiries().len(),
    {
        self.timestamps.len()
    }

    /// Tests whether `rate_limit` may be asked at `now`.
    pub fn can_acquire_at(&self, now: u128) -> (r: bool)
        ensures
            r == self.can_acquire(now),
    {
        if now > u128::MAX - self.interval_duration_ms {
            return false;
        }
        let mut i: usize = 0;
        while i < self.timestamps.len()
            invariant
                i <= self.timestamps.len(),
                forall|k: int|
                    0 <= k < i ==> (#[trigger] self.expiries()[k]) + self.window() <= u128::MAX,
            decreases self.timestamps.len() - i,
        {
            if self.timestamps[i] > u128::MAX - self.interval_duration_ms {
                assert(self.expiries()[i as int] + self.window() > u128::MAX);
                return false;
            }
            i = i + 1;
        }
        true
    }

    /// Takes a slot for a caller that asks at `now` and returns how many
    /// milliseconds the caller has to wait before it departs. Expiries that
    /// are not ahead of `now` are dropped. Where all permits are taken the
    /// caller waits until the oldest live expiry and its slot expires one
    /// window after that; otherwise it departs at once and its slot expires
    /// one window after `now`.
    pub fn rate_limit(&mut self, now: u128) -> (wait: u128)
        requires
            old(self).wf(),
            old(self).can_acquire(now),
        ensures
            wait == wait_at(old(self).expiries(), old(self).permits(), now as int),
            final(self).expiries() == expiries_after(
                old(self).expiries(),
                old(self).permits(),
                old(self).window(),
                now as int,
            ),
            final(self).permits() == old(self).permits(),
            final(self).window() == old(self).window(),
            final(self).wf(),
    {
        let ghost before = self.expiries();
        let mut ahead: Vec<u128> = Vec::new();
        let mut i: usize = 0;
        proof {
            assert(before.take(0) =~= Seq::<int>::empty());
            assert(ahead@.map_values(|t: u128| t as int) =~= Seq::<int>::empty());
        }
        while i < self.timestamps.len()
            invariant
                i <= self.timestamps.len(),
                before == self.expiries(),
                before.len() == self.timestamps@.len(),
                self.can_acquire(now),
                ahead@.map_values(|t: u128| t as int) == live(before.take(i as int), now as int),
                forall|k: int|
                    0 <= k < ahead@.len() ==> (#[trigger] ahead@[k]) + self.window() <= u128::MAX,
            decreases self.timestamps.len() - i,
        {
            let t = self.timestamps[i];
            let ghost kept = ahead@;
            proof {
                assert(before.take(i + 1).drop_last() =~= before.take(i as int));
                assert(before.take(i + 1).last() == t as int);
                assert(self.expiries()[i as int] + self.window() <= u128::MAX);
            }
            if t > now {
                ahead.push(t);
                proof {
                    assert(ahead@.map_values(|t: u128| t as int) =~= kept.map_values(
                        |t: u128| t as int,
                    ).push(t as int));
                }
            }
            i = i + 1;
        }
        proof {
            assert(before.take(i as int) =~= before);
        }
        let ghost live_now = ahead@.map_values(|t: u128| t as int);
        let wait = if ahead.len() >= self.rate_limit_per_interval {
            proof {
                assert(live_now[0] == ahead@[0] as int);
                lemma_live_is_ahead(before, now as int);
                assert(live_now[0] > now);
            }
            ahead[0] - now
        } else {
            0
        };
        let ghost kept = ahead@;
        ahead.push(now + wait + self.interval_duration_ms);
        proof {
            assert(ahead@.map_values(|t: u128| t as int) =~= kept.map_values(
                |t: u128| t as int,
            ).push(now + wait + self.window()));
        }
        self.timestamps = ahead;
        wait
    }
}

impl RateLimiter {
    /// Takes a slot as `rate_limit` does wherever the clock has room for
    /// it; where it has none, the limiter stays as it is and nothing is
    /// returned.
    pub fn try_rate_limit(&mut self, now: u128) -> (wait: Option<u128>)
        requires
            old(self).wf(),
        ensures
            final(self).wf(),
            final(self).permits() == old(self).permits(),
            final(self).window() == old(self).window(),
            match wait {
                Some(ms) => {
                    &&& old(self).can_acquire(now)
                    &&& ms == wait_at(old(self).expiries(), old(self).permits(), now as int)
                    &&& final(self).expiries() == expiries_after(
                        old(self).expiries(),
                        old(self).permits(),
                        old(self).window(),
                        now as int,
                    )
                },
                None => {
                    &&& !old(self).can_acquire(now)
                    &&& final(self).expiries() == old(self).expiries()
                },
            },
    {
        if self.can_acquire_at(now) {
            Some(self.rate_limit(now))
        } else {
            None
        }
    }
}

/// Every live expiry is ahead of `now`.
pub proof fn lemma_live_is_ahead(expiries: Seq<int>, now: int)
    ensures
        forall|i: int| 0 <= i < live(expiries, now).len() ==> (#[trigger] live(expiries, now)[i])
            > now,
    decreases expiries.len(),
{
    if expiries.len() > 0 {
        lemma_live_is_ahead(expiries.drop_last(), now);
        let before = live(expiries.drop_last(), now);
        assert forall|i: int| 0 <= i < live(expiries, now).len() implies (#[trigger] live(
            expiries,
            now,
        )[i]) > now by {
            if i < before.len() {
                assert(live(expiries, now)[i] == before[i]);
            }
        }
    }
}

/// The expiries after callers asked one after the other at the times
/// `asks`.
pub open spec fn expiries_after_all(
    expiries: Seq<int>,
    permits: int,
    window: int,
    asks: Seq<int>,
) -> Seq<int>
    decreases asks.len(),
{
    if asks.len() == 0 {
        expiries
    } else {
        expiries_after(
            expiries_after_all(expiries, permits, window, asks.drop_last()),
            permits,
            window,
            asks.last(),
        )
    }
}

/// The times at which callers depart that asked one after the other at the
/// times `asks`: each at the time it asked plus the wait it was given.
pub open spec fn departures(expiries: Seq<int>, permits: int, window: int, asks: Seq<int>) -> Seq<
    int,
>
    decreases asks.len(),
{
    if asks.len() == 0 {
        Seq::empty()
    } else {
        departures(expiries, permits, window, asks.drop_last()).push(
            asks.last() + wait_at(
                expiries_after_all(expiries, permits, window, asks.drop_last()),
                permits,
                asks.last(),
            ),
        )
    }
}

/// Whether each caller asks only once the caller before it has departed, as
/// it is where one task serves the callers in turn and waits out each wait.
pub open spec fn in_turn(asks: Seq<int>, departs: Seq<int>) -> bool {
    forall|i: int| 0 < i < asks.len() && i <= departs.len() ==> (#[trigger] asks[i]) >= departs[i - 1]
}

/// Whether times never fall along the list.
pub open spec fn rising(times: Seq<int>) -> bool {
    forall|i: int, j: int| 0 <= i <= j < times.len() ==> times[i] <= times[j]
}

/// Whether any `permits + 1` departures in a row span at least one window.
pub open spec fn spaced(departs: Seq<int>, permits: int, window: int) -> bool {
    forall|i: int|
        0 <= i && i + permits < departs.len() ==> (#[trigger] departs[i + permits]) >= departs[i]
            + window
}

/// The number of windows that it takes to cover `span`.
pub open spec fn windows_in(span: int, window: int) -> int {
    (span + window - 1) / window
}

/// Of rising expiries the live ones are the tail that begins at the first
/// expiry ahead of `now`. Returns where that tail begins.
proof fn lemma_live_of_rising(expiries: Seq<int>, now: int) -> (at: int)
    requires
        rising(expiries),
    ensures
        0 <= at <= expiries.len(),
        live(expiries, now) == expiries.skip(at),
        forall|j: int| 0 <= j < at ==> expiries[j] <= now,
        forall|j: int| at <= j < expiries.len() ==> expiries[j] > now,
    decreases expiries.len(),
{
    if expiries.len() == 0 {
        assert(expiries.skip(0) =~= Seq::<int>::empty());
        0
    } else {
        let rest = expiries.drop_last();
        assert(rising(rest)) by {
            assert forall|i: int, j: int| 0 <= i <= j < rest.len() implies rest[i] <= rest[j] by {
                assert(expiries[i] <= expiries[j]);
            }
        }
        let inner = lemma_live_of_rising(rest, now);
        let top = expiries.len() - 1;
        if expiries.last() > now {
            assert(live(expiries, now) =~= expiries.skip(inner));
            assert forall|j: int| 0 <= j < inner implies expiries[j] <= now by {
                assert(rest[j] == expiries[j]);
            }
            assert forall|j: int| inner <= j < expiries.len() implies expiries[j] > now by {
                if j < top {
                    assert(rest[j] == expiries[j]);
                }
            }
            inner
        } else {
            if inner < rest.len() {
                assert(rest[inner] > now);
                assert(rest[inner] == expiries[inner]);
                assert(expiries[inner] <= expiries[top]);
            }
            assert(live(expiries, now) =~= expiries.skip(expiries.len() as int));
            assert forall|j: int| 0 <= j < expiries.len() implies expiries[j] <= now by {
                assert(expiries[j] <= expiries[top]);
            }
            expiries.len() as int
        }
    }
}

/// What holds of a limiter that started with no slot taken and served its
/// callers in turn: departures never fall, any `permits + 1` of them in a
/// row span a window, and the expiries on record are those of the latest
/// departures. Returns the index of the departure whose slot is the oldest
/// on record.
proof fn lemma_served_in_turn(permits: int, window: int, asks: Seq<int>) -> (from: int)
    requires
        permits > 0,
        window > 0,
        in_turn(asks, departures(Seq::empty(), permits, window, asks)),
    ensures
        departures(Seq::empty(), permits, window, asks).len() == asks.len(),
        rising(departures(Seq::empty(), permits, window, asks)),
        spaced(departures(Seq::empty(), permits, window, asks), permits, window),
        asks.len() > 0 ==> departures(Seq::empty(), permits, window, asks).last() >= asks.last(),
        0 <= from <= asks.len(),
        expiries_after_all(Seq::empty(), permits, window, asks) == departures(
            Seq::empty(),
            permits,
            window,
            asks,
        ).skip(from).map_values(|d: int| d + window),
        forall|j: int|
            0 <= j < from ==> departures(Seq::empty(), permits, window, asks)[j] + window
                <= departures(Seq::empty(), permits, window, asks).last(),
    decreases asks.len(),
{
    let start = Seq::<int>::empty();
    let shift = |d: int| d + window;
    if asks.len() == 0 {
        assert(start.skip(0).map_values(shift) =~= start);
        0
    } else {
        let rest = asks.drop_last();
        let now = asks.last();
        let served = departures(start, permits, window, rest);
        let record = expiries_after_all(start, permits, window, rest);
        let all = departures(start, permits, window, asks);
        assert(in_turn(rest, served)) by {
            assert forall|i: int| 0 < i < rest.len() && i <= served.len() implies (
            #[trigger] rest[i]) >= served[i - 1] by {
                assert(asks[i] >= all[i - 1]);
            }
        }
        let oldest = lemma_served_in_turn(permits, window, rest);
        let n = served.len() as int;
        if n > 0 {
            assert(asks[n] >= all[n - 1]);
            assert(now >= served.last());
        }
        assert(rising(record)) by {
            assert forall|i: int, j: int| 0 <= i <= j < record.len() implies record[i]
                <= record[j] by {
                assert(served[oldest + i] <= served[oldest + j]);
            }
        }
        let skipped = lemma_live_of_rising(record, now);
        let from = oldest + skipped;
        let ahead = live(record, now);
        assert(ahead =~= served.skip(from).map_values(shift));
        assert forall|j: int| 0 <= j < from implies served[j] + window <= now by {
            if j >= oldest {
                assert(record[j - oldest] == served[j] + window);
            }
        }
        assert forall|j: int| from <= j < n implies served[j] + window > now by {
            assert(record[j - oldest] == served[j] + window);
        }
        let taken = n - from;
        assert(taken == ahead.len());
        if taken > permits {
            assert(served[(n - 1 - permits) + permits] >= served[n - 1 - permits] + window);
            assert(false);
        }
        let wait = wait_at(record, permits, now);
        let leave = now + wait;
        assert(all == served.push(leave));
        if taken >= permits {
            assert(ahead[0] == served[from] + window);
            assert(leave == served[from] + window);
            assert(leave > now);
        } else {
            assert(leave == now);
        }
        assert(rising(all)) by {
            assert forall|i: int, j: int| 0 <= i <= j < all.len() implies all[i] <= all[j] by {
                if j == n && i < n {
                    assert(served[i] <= served[n - 1]);
                } else if j < n {
                    assert(served[i] <= served[j]);
                }
            }
        }
        assert(spaced(all, permits, window)) by {
            assert forall|i: int| 0 <= i && i + permits < all.len() implies (#[trigger] all[i
                + permits]) >= all[i] + window by {
                if i + permits < n {
                    assert(served[i + permits] >= served[i] + window);
                } else {
                    if taken < permits {
                        assert(i < from);
                    }
                }
            }
        }
        assert(expiries_after_all(start, permits, window, asks) =~= all.skip(from).map_values(
            shift,
        ));
        from
    }
}

/// Departures that lie `steps` times `permits` places apart lie at least
/// `steps` windows apart.
proof fn lemma_spaced_steps(departs: Seq<int>, permits: int, window: int, at: int, steps: int)
    requires
        permits > 0,
        window > 0,
        spaced(departs, permits, window),
        0 <= at,
        0 <= steps,
        at + steps * permits < departs.len(),
    ensures
        departs[at + steps * permits] >= departs[at] + steps * window,
    decreases steps,
{
    if steps > 0 {
        assert((steps - 1) * permits + permits == steps * permits) by (nonlinear_arith);
        assert((steps - 1) * window + window == steps * window) by (nonlinear_arith);
        assert((steps - 1) * permits >= 0) by (nonlinear_arith)
            requires
                steps >= 1,
                permits > 0,
        ;
        lemma_spaced_steps(departs, permits, window, at, steps - 1);
        let i = at + (steps - 1) * permits;
        assert(departs[i + permits] >= departs[i] + window);
    } else {
        assert(steps * permits == 0) by (nonlinear_arith)
            requires
                steps == 0,
        ;
        assert(steps * window == 0) by (nonlinear_arith)
            requires
                steps == 0,
        ;
    }
}

/// The rate bound. A limiter that starts with no slot taken and serves its
/// callers in turn lets, into any stretch of time that lasts `span`
/// milliseconds, `span` being at least one window, no more callers depart
/// than it takes windows to cover the stretch, times the permits, plus the
/// permits once more. The callers `first` to `last` are any that depart
/// within the stretch that begins at `begin`.
pub proof fn lemma_rate_bound(
    permits: int,
    window: int,
    asks: Seq<int>,
    begin: int,
    span: int,
    first: int,
    last: int,
)
    requires
        permits > 0,
        window > 0,
        span >= window,
        in_turn(asks, departures(Seq::empty(), permits, window, asks)),
        0 <= first <= last < asks.len(),
        begin <= departures(Seq::empty(), permits, window, asks)[first],
        departures(Seq::empty(), permits, window, asks)[last] < begin + span,
    ensures
        last - first + 1 <= windows_in(span, window) * permits + permits,
{
    let departs = departures(Seq::empty(), permits, window, asks);
    let _ = lemma_served_in_turn(permits, window, asks);
    let steps = (last - first) / permits;
    let covered = windows_in(span, window);
    vstd::arithmetic::div_mod::lemma_fundamental_div_mod(last - first, permits);
    vstd::arithmetic::div_mod::lemma_div_pos_is_pos(last - first, permits);
    vstd::arithmetic::div_mod::lemma_mod_bound(last - first, permits);
    assert(permits * steps == steps * permits) by (nonlinear_arith);
    assert(first + steps * permits <= last);
    lemma_spaced_steps(departs, permits, window, first, steps);
    assert(departs[first + steps * permits] <= departs[last]);
    assert(steps * window < span);
    vstd::arithmetic::div_mod::lemma_fundamental_div_mod(span + window - 1, window);
    vstd::arithmetic::div_mod::lemma_mod_bound(span + window - 1, window);
    assert(window * covered == covered * window) by (nonlinear_arith);
    assert(covered * window >= span);
    assert(steps < covered) by (nonlinear_arith)
        requires
            steps * window < covered * window,
            window > 0,
    ;
    assert((steps + 1) * permits <= covered * permits) by (nonlinear_arith)
        requires
            steps + 1 <= covered,
            permits > 0,
    ;
    assert((steps + 1) * permits == steps * permits + permits) by (nonlinear_arith);
}

} // verus!
