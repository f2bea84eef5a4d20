//! Rate limiting: at most `max_requests` request slots per sliding window,
//! and a minimum delay between consecutive slots.
//!
//! Instants are nanoseconds since the limiter was created; sums of instants
//! and spans saturate at `u128::MAX`.

use vstd::prelude::*;
use crate::time::{clock_now, nanos_since, TimeSpan};

verus! {

/// `a + b`, or `u128::MAX` when that does not fit.
pub open spec fn sat_add(a: u128, b: u128) -> u128 {
    if a + b > u128::MAX {
        u128::MAX
    } else {
        (a + b) as u128
    }
}

/// The abstract state of a `RateLimiter`.
pub struct LimiterView {
    pub max_requests: u32,
    pub window: u128,
    pub times: Seq<u128>,
    pub min_delay: u128,
    pub last: Option<u128>,
}

/// The request instants still inside the window ending at `now`, in order.
pub open spec fn recent(times: Seq<u128>, window: u128, now: u128) -> Seq<u128>
    decreases times.len(),
{
    if times.len() == 0 {
        times
    } else {
        let r = recent(times.drop_last(), window, now);
        if sat_add(times.last(), window) > now {
            r.push(times.last())
        } else {
            r
        }
    }
}

/// The state after dropping instants outside the window ending at `now`.
pub open spec fn cleaned(v: LimiterView, now: u128) -> LimiterView {
    LimiterView { times: recent(v.times, v.window, now), ..v }
}

/// Cleaning keeps exactly the instants still inside the window, in their
/// order: an instant stays when it plus the window lies after `now`.
pub proof fn law_recent_keeps_exactly_the_window(times: Seq<u128>, window: u128, now: u128)
    ensures
        forall|i: int| 0 <= i < recent(times, window, now).len() ==> sat_add(#[trigger] recent(times, window, now)[i], window) > now,
        forall|t: u128| #[trigger] recent(times, window, now).contains(t) <==> (times.contains(t) && sat_add(t, window) > now),
        recent(times, window, now).len() <= times.len(),
    decreases times.len(),
{
    if times.len() > 0 {
        let d = times.drop_last();
        let r = recent(d, window, now);
        law_recent_keeps_exactly_the_window(d, window, now);
        let x = times.last();
        assert forall|t: u128| times.contains(t) <==> (d.contains(t) || t == x) by {
            if times.contains(t) {
                let k = choose|k: int| 0 <= k < times.len() && times[k] == t;
                if k < times.len() - 1 {
                    assert(d[k] == t);
                }
            }
            if d.contains(t) {
                let k = choose|k: int| 0 <= k < d.len() && d[k] == t;
                assert(times[k] == t);
            }
            if t == x {
                assert(times[times.len() - 1] == t);
            }
        }
        if sat_add(x, window) > now {
            let rr = r.push(x);
            assert forall|t: u128| rr.contains(t) <==> (r.contains(t) || t == x) by {
                if rr.contains(t) {
                    let k = choose|k: int| 0 <= k < rr.len() && rr[k] == t;
                    if k < r.len() {
                        assert(r[k] == t);
                    }
                }
                if r.contains(t) {
                    let k = choose|k: int| 0 <= k < r.len() && r[k] == t;
                    assert(rr[k] == t);
                }
                if t == x {
                    assert(rr[r.len() as int] == t);
                }
            }
            assert forall|i: int| 0 <= i < rr.len() implies sat_add(#[trigger] rr[i], window) > now by {
                if i < r.len() {
                    assert(rr[i] == r[i]);
                }
            }
        }
    }
}

/// The window is full.
pub open spec fn at_limit(v: LimiterView) -> bool {
    v.times.len() >= v.max_requests
}

/// While the window is full, the time until its oldest instant leaves it.
pub open spec fn window_wait(v: LimiterView, now: u128) -> u128 {
    if v.times.len() > 0 && at_limit(v) && sat_add(v.times[0], v.window) > now {
        (sat_add(v.times[0], v.window) - now) as u128
    } else {
        0
    }
}

/// The time until the minimum delay after the last request's instant has
/// passed.
pub open spec fn delay_wait(v: LimiterView, now: u128) -> u128 {
    match v.last {
        Some(l) => if sat_add(l, v.min_delay) > now {
            (sat_add(l, v.min_delay) - now) as u128
        } else {
            0
        },
        None => 0,
    }
}

/// How long a request at `now` has to wait: until the window has room and
/// the minimum delay after the last request has passed.
pub open spec fn wait_time(v: LimiterView, now: u128) -> u128 {
    if window_wait(v, now) >= delay_wait(v, now) {
        window_wait(v, now)
    } else {
        delay_wait(v, now)
    }
}

/// The state after a request slot is taken at `now`, and the wait before it
/// may be sent.
pub open spec fn acquired(v: LimiterView, now: u128) -> (LimiterView, u128) {
    let c = cleaned(v, now);
    let w = wait_time(c, now);
    let send_at = sat_add(now, w);
    (LimiterView { times: c.times.push(send_at), last: Some(send_at), ..c }, w)
}

/// A request taken while the window is full is sent only once the oldest
/// request in the window has left it.
pub proof fn law_full_window_waits_for_oldest(v: LimiterView, now: u128)
    requires
        at_limit(cleaned(v, now)),
        cleaned(v, now).times.len() > 0,
    ensures
        sat_add(now, acquired(v, now).1) >= sat_add(cleaned(v, now).times[0], v.window),
{
}

/// A request is sent no sooner than the minimum delay after the instant the
/// previous one was to be sent.
pub proof fn law_min_delay_between_requests(v: LimiterView, now: u128)
    requires
        v.last is Some,
    ensures
        sat_add(now, acquired(v, now).1) >= sat_add(v.last->Some_0, v.min_delay),
{
}

/// Requests taken one after the other are sent at least the minimum delay
/// apart, whatever instants they are taken at.
pub proof fn law_sends_spaced_by_min_delay(v: LimiterView, t1: u128, t2: u128)
    ensures
        sat_add(t2, acquired(acquired(v, t1).0, t2).1) >= sat_add(
            sat_add(t1, acquired(v, t1).1),
            v.min_delay,
        ),
{
    law_min_delay_between_requests(acquired(v, t1).0, t2);
}

/// The first request of a fresh or reset limiter does not wait.
pub proof fn law_first_request_does_not_wait(v: LimiterView, now: u128)
    requires
        v.times.len() == 0,
        v.last is None,
    ensures
        acquired(v, now).1 == 0,
{
    assert(cleaned(v, now).times =~= Seq::<u128>::empty());
}

/// A sliding-window rate limiter with a minimum delay between requests.
#[derive(Debug)]
pub struct RateLimiter {
    max_requests: u32,
    window: TimeSpan,
    request_times: Vec<u128>,
    min_delay: TimeSpan,
    last_request: Option<u128>,
    origin: std::time::Instant,
}

/// Counters of a rate limiter at one instant.
#[derive(Debug, Clone, Copy, PartialEq, Eq, Structural)]
pub struct RateLimiterStats {
    pub requests_in_window: u32,
    pub max_requests: u32,
    pub window_duration: TimeSpan,
    pub min_delay: TimeSpan,
    pub can_make_request: bool,
}

/// Number of instants in `times` inside the window ending at `now`.
pub open spec fn stats_at(v: LimiterView, now: u128) -> RateLimiterStats {
    let n = recent(v.times, v.window, now).len();
    RateLimiterStats {
        requests_in_window: n as u32,
        max_requests: v.max_requests,
        window_duration: TimeSpan { nanos: v.window },
        min_delay: TimeSpan { nanos: v.min_delay },
        can_make_request: n < v.max_requests,
    }
}

impl View for RateLimiter {
    type V = LimiterView;

    closed spec fn view(&self) -> LimiterView {
        LimiterView {
            max_requests: self.max_requests,
            window: self.window.nanos,
            times: self.request_times@,
            min_delay: self.min_delay.nanos,
            last: self.last_request,
        }
    }
}

fn sat_add_exec(a: u128, b: u128) -> (r: u128)
    ensures
        r == sat_add(a, b),
{
    a.saturating_add(b)
}

impl RateLimiter {
    /// A limiter of `requests_per_minute` slots per one-minute window.
    pub fn per_minute(requests_per_minute: u32, min_delay: TimeSpan) -> (r: Self)
        ensures
            r@ == (LimiterView {
                max_requests: requests_per_minute,
                window: 60_000_000_000,
                times: Seq::empty(),
                min_delay: min_delay.nanos,
                last: None,
            }),
    {
        let r = RateLimiter {
            max_requests: requests_per_minute,
            window: TimeSpan::from_secs(60),
            request_times: Vec::new(),
            min_delay,
            last_request: None,
            origin: clock_now(),
        };
        assert(r@.times =~= Seq::<u128>::empty());
        r
    }

    /// A limiter that only enforces a delay between requests (an unbounded
    /// number of slots in a one-hour window).
    pub fn with_delay(delay: TimeSpan) -> (r: Self)
        ensures
            r@ == (LimiterView {
                max_requests: u32::MAX,
                window: 3_600_000_000_000,
                times: Seq::empty(),
                min_delay: delay.nanos,
                last: None,
            }),
    {
        let r = RateLimiter {
            max_requests: u32::MAX,
            window: TimeSpan::from_secs(3600),
            request_times: Vec::new(),
            min_delay: delay,
            last_request: None,
            origin: clock_now(),
        };
        assert(r@.times =~= Seq::<u128>::empty());
        r
    }

    /// A limiter with the given slot count, window and delay.
    pub fn with_window(max_requests: u32, window: TimeSpan, min_delay: TimeSpan) -> (r: Self)
        ensures
            r@ == (LimiterView {
                max_requests,
                window: window.nanos,
                times: Seq::empty(),
                min_delay: min_delay.nanos,
                last: None,
            }),
    {
        let r = RateLimiter {
            max_requests,
            window,
            request_times: Vec::new(),
            min_delay,
            last_request: None,
            origin: clock_now(),
        };
        assert(r@.times =~= Seq::<u128>::empty());
        r
    }

    /// The current instant on this limiter's clock.
    pub fn now(&self) -> u128 {
        nanos_since(&self.origin)
    }

    fn cleanup_old_requests(&mut self, now: u128)
        ensures
            final(self)@ == cleaned(old(self)@, now),
            final(self).origin == old(self).origin,
    {
        let mut kept: Vec<u128> = Vec::new();
        let ghost ts = self.request_times@;
        let window = self.window.nanos;
        for i in 0..self.request_times.len()
            invariant
                ts == self.request_times@,
                window == self.window.nanos,
                kept@ == recent(ts.take(i as int), window, now),
        {
            assert(ts.take(i + 1).drop_last() =~= ts.take(i as int));
            let t = self.request_times[i];
            if sat_add_exec(t, window) > now {
                kept.push(t);
            }
        }
        assert(ts.take(ts.len() as int) =~= ts);
        self.request_times = kept;
    }

    fn should_wait(&self) -> (b: bool)
        ensures
            b == at_limit(self@),
    {
        self.request_times.len() >= self.max_requests as usize
    }

    fn window_wait_exec(&self, now: u128) -> (w: u128)
        ensures
            w == window_wait(self@, now),
    {
        if self.request_times.len() > 0 && self.should_wait() {
            let window_end = sat_add_exec(self.request_times[0], self.window.nanos);
            if window_end > now {
                return window_end - now;
            }
        }
        0
    }

    fn delay_wait_exec(&self, now: u128) -> (w: u128)
        ensures
            w == delay_wait(self@, now),
    {
        match self.last_request {
            Some(l) => {
                let due = sat_add_exec(l, self.min_delay.nanos);
                if due > now {
                    due - now
                } else {
                    0
                }
            },
            None => 0,
        }
    }

    fn calculate_wait_time(&self, now: u128) -> (w: u128)
        ensures
            w == wait_time(self@, now),
    {
        let a = self.window_wait_exec(now);
        let b = self.delay_wait_exec(now);
        if a >= b {
            a
        } else {
            b
        }
    }

    /// Takes a request slot at instant `now` and returns how long to wait
    /// before sending.
    pub fn acquire_at(&mut self, now: u128) -> (w: TimeSpan)
        ensures
            (final(self)@, w.nanos) == acquired(old(self)@, now),
    {
        self.cleanup_old_requests(now);
        let wait = self.calculate_wait_time(now);
        let send_at = sat_add_exec(now, wait);
        self.request_times.push(send_at);
        self.last_request = Some(send_at);
        TimeSpan::from_nanos(wait)
    }

    /// Takes a request slot now and returns how long to wait before sending.
    pub fn acquire(&mut self) -> (w: TimeSpan)
        ensures
            exists|now: u128| (final(self)@, w.nanos) == acquired(old(self)@, now),
    {
        let now = self.now();
        self.acquire_at(now)
    }

    /// Drops the instants outside the window at `now` and returns the wait
    /// until the window has room.
    pub fn plan_wait_at(&mut self, now: u128) -> (w: TimeSpan)
        ensures
            final(self)@ == cleaned(old(self)@, now),
            w.nanos == window_wait(cleaned(old(self)@, now), now),
    {
        self.cleanup_old_requests(now);
        TimeSpan::from_nanos(self.window_wait_exec(now))
    }

    /// The extra wait needed at `now` so that `min_delay` has passed after
    /// the last request's instant.
    pub fn min_delay_remaining_at(&self, now: u128) -> (w: TimeSpan)
        ensures
            w.nanos == delay_wait(self@, now),
    {
        TimeSpan::from_nanos(self.delay_wait_exec(now))
    }

    /// Records a request sent at instant `at`.
    pub fn record_request_at(&mut self, at: u128)
        ensures
            final(self)@ == (LimiterView { times: old(self)@.times.push(at), last: Some(at), ..old(self)@ }),
    {
        self.request_times.push(at);
        self.last_request = Some(at);
    }

    /// Counters at instant `now`.
    pub fn stats_at(&self, now: u128) -> (s: RateLimiterStats)
        ensures
            s == stats_at(self@, now),
    {
        let ghost ts = self.request_times@;
        let window = self.window.nanos;
        let mut count: usize = 0;
        for i in 0..self.request_times.len()
            invariant
                ts == self.request_times@,
                window == self.window.nanos,
                count == recent(ts.take(i as int), window, now).len(),
                count <= i,
        {
            assert(ts.take(i + 1).drop_last() =~= ts.take(i as int));
            if sat_add_exec(self.request_times[i], window) > now {
                count = count + 1;
            }
        }
        assert(ts.take(ts.len() as int) =~= ts);
        RateLimiterStats {
            requests_in_window: count as u32,
            max_requests: self.max_requests,
            window_duration: self.window,
            min_delay: self.min_delay,
            can_make_request: count < self.max_requests as usize,
        }
    }

    /// Counters now.
    pub fn stats(&self) -> (s: RateLimiterStats)
        ensures
            exists|now: u128| s == stats_at(self@, now),
    {
        let now = self.now();
        self.stats_at(now)
    }

    /// Forgets all recorded requests.
    pub fn reset(&mut self)
        ensures
            final(self)@ == (LimiterView { times: Seq::empty(), last: None, ..old(self)@ }),
    {
        self.request_times = Vec::new();
        self.last_request = None;
        assert(self@.times =~= Seq::<u128>::empty());
    }

    /// Whether a request at `now` could be sent without waiting, after
    /// instants outside the window are dropped.
    pub fn can_make_request_at(&mut self, now: u128) -> (b: bool)
        ensures
            final(self)@ == cleaned(old(self)@, now),
            b == (!at_limit(final(self)@) && wait_time(final(self)@, now) == 0),
    {
        self.cleanup_old_requests(now);
        !self.should_wait() && self.calculate_wait_time(now) == 0
    }

    /// Whether a request could be sent now without waiting.
    pub fn can_make_request(&mut self) -> (b: bool)
        ensures
            exists|now: u128|
                final(self)@ == cleaned(old(self)@, now) && b == (!at_limit(final(self)@)
                    && wait_time(final(self)@, now) == 0),
    {
        let now = self.now();
        self.can_make_request_at(now)
    }

    /// The wait a request at `now` would have.
    pub fn estimated_wait_time_at(&self, now: u128) -> (w: TimeSpan)
        ensures
            w.nanos == wait_time(self@, now),
    {
        TimeSpan::from_nanos(self.calculate_wait_time(now))
    }

    /// The wait a request made now would have.
    pub fn estimated_wait_time(&self) -> (w: TimeSpan)
        ensures
            exists|now: u128| w.nanos == wait_time(self@, now),
    {
        let now = self.now();
        self.estimated_wait_time_at(now)
    }
}

impl RateLimiterStats {
    /// Slots left in the window.
    pub fn requests_remaining(&self) -> (n: u32)
        ensures
            n == if self.requests_in_window >= self.max_requests {
                0
            } else {
                self.max_requests - self.requests_in_window
            },
    {
        if self.requests_in_window >= self.max_requests {
            0
        } else {
            self.max_requests - self.requests_in_window
        }
    }
}

/// A limiter that never limits.
#[derive(Debug)]
pub struct NoRateLimit;

impl NoRateLimit {
    /// Returns at once.
    pub fn wait_if_needed(&mut self) {
    }

    /// Always true.
    pub fn can_make_request(&mut self) -> (b: bool)
        ensures
            b,
    {
        true
    }
}

} // verus!
