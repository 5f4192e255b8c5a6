//! Operational controls: the per-credential ingest rate limiter, the runtime
//! counters and their Prometheus text, and the retention schedule.
use vstd::prelude::*;
use crate::error::AppError;
use crate::text::{
    chars_of, decimal, has_prefix, lemma_decimal_digits, lemma_decimal_injective, push_str,
    slice_chars, str_eq, u64_decimal,
};

verus! {

/// Length of a rate-limit window, in milliseconds of the monotonic clock.
pub const WINDOW_MILLIS: u64 = 60_000;

/// The window of one credential: when it started and how many requests it
/// has accepted.
#[derive(Clone, Copy, Debug)]
struct Window {
    started: u64,
    count: u64,
}

/// A fixed-window rate limiter: each credential may have `limit` requests
/// accepted per minute. Times are milliseconds of a monotonic clock.
#[derive(Debug)]
pub struct IngestRateLimiter {
    limit: u64,
    windows: Vec<(String, Window)>,
}

/// The windows as a map from credential to `(started, count)`.
pub open spec fn window_map(ws: Seq<(String, (u64, u64))>) -> Map<Seq<char>, (u64, u64)>
    decreases ws.len(),
{
    if ws.len() == 0 {
        Map::empty()
    } else {
        window_map(ws.drop_last()).insert(ws.last().0@, ws.last().1)
    }
}

pub open spec fn distinct_keys(ws: Seq<(String, (u64, u64))>) -> bool {
    forall|i: int, j: int|
        0 <= i < ws.len() && 0 <= j < ws.len() && i != j ==> ws[i].0@ != ws[j].0@
}

proof fn lemma_window_map_lookup(ws: Seq<(String, (u64, u64))>, i: int)
    requires
        distinct_keys(ws),
        0 <= i < ws.len(),
    ensures
        window_map(ws).contains_key(ws[i].0@),
        window_map(ws)[ws[i].0@] == ws[i].1,
    decreases ws.len(),
{
    if i < ws.len() - 1 {
        let init = ws.drop_last();
        assert(distinct_keys(init));
        lemma_window_map_lookup(init, i);
        assert(ws[i].0@ != ws.last().0@);
    }
}

proof fn lemma_window_map_absent(ws: Seq<(String, (u64, u64))>, k: Seq<char>)
    requires
        forall|i: int| 0 <= i < ws.len() ==> ws[i].0@ != k,
    ensures
        !window_map(ws).contains_key(k),
    decreases ws.len(),
{
    if ws.len() > 0 {
        lemma_window_map_absent(ws.drop_last(), k);
    }
}

proof fn lemma_window_map_update(ws: Seq<(String, (u64, u64))>, i: int, w: (u64, u64))
    requires
        distinct_keys(ws),
        0 <= i < ws.len(),
    ensures
        window_map(ws.update(i, (ws[i].0, w))) == window_map(ws).insert(ws[i].0@, w),
    decreases ws.len(),
{
    let ws2 = ws.update(i, (ws[i].0, w));
    if i == ws.len() - 1 {
        assert(ws2.drop_last() =~= ws.drop_last());
        assert(!window_map(ws.drop_last()).contains_key(ws[i].0@)) by {
            lemma_window_map_absent(ws.drop_last(), ws[i].0@);
        }
        assert(window_map(ws2) =~= window_map(ws).insert(ws[i].0@, w));
    } else {
        let init = ws.drop_last();
        assert(distinct_keys(init));
        lemma_window_map_update(init, i, w);
        assert(ws2.drop_last() =~= init.update(i, (ws[i].0, w)));
        assert(ws[i].0@ != ws.last().0@);
        assert(window_map(ws2) =~= window_map(ws).insert(ws[i].0@, w));
    }
}

/// The window a request finds: the credential's window, restarted when a
/// full minute has passed since it started; a new window for an unknown
/// credential.
pub open spec fn current_window(w: Option<(u64, u64)>, now: u64) -> (u64, u64) {
    match w {
        Some(w) => if now >= w.0 && now - w.0 >= WINDOW_MILLIS {
            (now, 0u64)
        } else {
            w
        },
        None => (now, 0u64),
    }
}

/// Whether a request is admitted and the credential's window afterwards.
pub open spec fn admission(limit: u64, w: Option<(u64, u64)>, now: u64) -> (bool, (u64, u64)) {
    let cur = current_window(w, now);
    if cur.1 >= limit {
        (false, cur)
    } else {
        (true, (cur.0, (cur.1 + 1) as u64))
    }
}

/// A credential unknown to the limiter, or one whose window started a full
/// minute ago, is admitted.
pub proof fn lemma_fresh_window_admits(limit: u64, w: Option<(u64, u64)>, now: u64)
    requires
        limit >= 1,
        w matches Some(w) ==> w.0 <= now && now - w.0 >= WINDOW_MILLIS,
    ensures
        admission(limit, w, now).0,
        admission(limit, w, now).1 == (now, 1u64),
{
}

/// Within a window that has admitted `limit` requests, every further
/// request is refused until the minute is over, and the window stays as it
/// is.
pub proof fn lemma_full_window_refuses(limit: u64, w: (u64, u64), now: u64)
    requires
        w.1 >= limit,
        now < w.0 || now - w.0 < WINDOW_MILLIS,
    ensures
        !admission(limit, Some(w), now).0,
        admission(limit, Some(w), now).1 == w,
{
}

/// An admitted request counts once in its window: the count grows by one,
/// and never past the limit.
pub proof fn lemma_admission_counts(limit: u64, w: Option<(u64, u64)>, now: u64)
    ensures
        admission(limit, w, now).0 ==> admission(limit, w, now).1.1 == current_window(w, now).1
            + 1 && admission(limit, w, now).1.1 <= limit,
        !admission(limit, w, now).0 ==> admission(limit, w, now).1 == current_window(w, now),
{
}

/// How many of a credential's requests at `times`, in turn, are admitted,
/// and its window afterwards, starting from window `w`.
pub open spec fn admissions(limit: u64, w: Option<(u64, u64)>, times: Seq<u64>) -> (nat, Option<
    (u64, u64),
>)
    decreases times.len(),
{
    if times.len() == 0 {
        (0, w)
    } else {
        let first = admission(limit, w, times[0]);
        let rest = admissions(limit, Some(first.1), times.drop_first());
        (
            rest.0 + if first.0 {
                1nat
            } else {
                0nat
            },
            rest.1,
        )
    }
}

/// Requests that all fall within a minute of a window's start are admitted
/// at most until the window has admitted `limit` in all.
pub proof fn lemma_window_admits_at_most_limit(limit: u64, start: u64, count: u64, times: Seq<u64>)
    requires
        count <= limit,
        forall|i: int|
            0 <= i < times.len() ==> start <= #[trigger] times[i] && times[i] - start
                < WINDOW_MILLIS,
    ensures
        admissions(limit, Some((start, count)), times).0 + count <= limit,
    decreases times.len(),
{
    if times.len() > 0 {
        let t = times[0];
        assert(start <= t && t - start < WINDOW_MILLIS);
        let tail = times.drop_first();
        assert forall|i: int| 0 <= i < tail.len() implies start <= #[trigger] tail[i] && tail[i]
            - start < WINDOW_MILLIS by {
            assert(tail[i] == times[i + 1]);
        }
        if count < limit {
            lemma_window_admits_at_most_limit(limit, start, (count + 1) as u64, tail);
        } else {
            lemma_window_admits_at_most_limit(limit, start, count, tail);
        }
    }
}

/// A credential the limiter has not seen gets at most `limit` requests
/// admitted within the minute after its first request.
pub proof fn lemma_new_credential_admits_at_most_limit(limit: u64, times: Seq<u64>)
    requires
        limit >= 1,
        times.len() > 0,
        forall|i: int|
            0 <= i < times.len() ==> times[0] <= #[trigger] times[i] && times[i] - times[0]
                < WINDOW_MILLIS,
    ensures
        admissions(limit, None, times).0 <= limit,
{
    let t0 = times[0];
    let tail = times.drop_first();
    assert forall|i: int| 0 <= i < tail.len() implies t0 <= #[trigger] tail[i] && tail[i] - t0
        < WINDOW_MILLIS by {
        assert(tail[i] == times[i + 1]);
    }
    lemma_window_admits_at_most_limit(limit, t0, 1, tail);
}

impl IngestRateLimiter {
    spec fn entries(&self) -> Seq<(String, (u64, u64))> {
        self.windows@.map_values(|e: (String, Window)| (e.0, (e.1.started, e.1.count)))
    }

    /// The limit per window.
    pub closed spec fn limit(&self) -> u64 {
        self.limit
    }

    /// Each known credential's window, as `(started, count)`.
    pub closed spec fn windows(&self) -> Map<Seq<char>, (u64, u64)> {
        window_map(self.entries())
    }

    /// The limit is positive, each credential has one window, and no window
    /// has admitted more than the limit.
    pub closed spec fn wf(&self) -> bool {
        &&& self.limit >= 1
        &&& distinct_keys(self.entries())
        &&& forall|i: int| 0 <= i < self.windows@.len() ==> #[trigger] self.windows@[i].1.count <= self.limit
    }

    /// A limiter admitting `limit` requests per credential and minute (at
    /// least one).
    pub fn new(limit: u64) -> (r: Self)
        ensures
            r.wf(),
            r.limit() == if limit < 1 {
                1
            } else {
                limit
            },
            r.windows() == Map::<Seq<char>, (u64, u64)>::empty(),
    {
        let r = IngestRateLimiter { limit: if limit < 1 { 1 } else { limit }, windows: Vec::new() };
        assert(r.entries() =~= Seq::<(String, (u64, u64))>::empty());
        r
    }

    /// Admits a request of credential `key` at time `now` (milliseconds) when
    /// its current window has admitted fewer than `limit` requests. The window
    /// restarts once a minute has passed since it started; a refused request
    /// still starts or restarts the window. Other credentials are untouched.
    pub fn check(&mut self, key: &str, now: u64) -> (admitted: bool)
        requires
            old(self).wf(),
        ensures
            final(self).wf(),
            final(self).limit() == old(self).limit(),
            (admitted, final(self).windows()[key@]) == admission(
                old(self).limit(),
                if old(self).windows().contains_key(key@) {
                    Some(old(self).windows()[key@])
                } else {
                    None
                },
                now,
            ),
            final(self).windows() == old(self).windows().insert(
                key@,
                admission(
                    old(self).limit(),
                    if old(self).windows().contains_key(key@) {
                        Some(old(self).windows()[key@])
                    } else {
                        None
                    },
                    now,
                ).1,
            ),
    {
        let ghost es = self.entries();
        let mut i: usize = 0;
        while i < self.windows.len() && !str_eq(self.windows[i].0.as_str(), key)
            invariant
                i <= self.windows@.len(),
                es == self.entries(),
                forall|j: int| 0 <= j < i ==> es[j].0@ != key@,
            decreases self.windows@.len() - i,
        {
            i = i + 1;
        }
        let found = i < self.windows.len();
        let w = if found {
            proof {
                lemma_window_map_lookup(es, i as int);
            }
            self.windows[i].1
        } else {
            proof {
                lemma_window_map_absent(es, key@);
            }
            Window { started: now, count: 0 }
        };
        let cur = if found && now >= w.started && now - w.started >= WINDOW_MILLIS {
            Window { started: now, count: 0 }
        } else {
            w
        };
        let admitted = cur.count < self.limit;
        let next = if admitted {
            Window { started: cur.started, count: cur.count + 1 }
        } else {
            cur
        };
        if found {
            let name = self.windows[i].0.clone();
            self.windows.set(i, (name, next));
            proof {
                assert(self.entries() =~= es.update(i as int, (es[i as int].0, (next.started, next.count))));
                lemma_window_map_update(es, i as int, (next.started, next.count));
            }
        } else {
            self.windows.push((key.to_owned(), next));
            proof {
                assert(self.entries() =~= es.push((self.windows@.last().0, (next.started, next.count))));
                assert(self.entries().drop_last() =~= es);
                assert forall|a: int, b: int|
                    0 <= a < self.entries().len() && 0 <= b < self.entries().len() && a != b implies self.entries()[a].0@
                    != self.entries()[b].0@ by {
                    if a < es.len() && b < es.len() {
                    } else if a == es.len() {
                        assert(es[b].0@ != key@);
                    } else {
                        assert(es[a].0@ != key@);
                    }
                }
            }
        }
        proof {
            assert forall|j: int| 0 <= j < self.windows@.len() implies #[trigger] self.windows@[j].1.count
                <= self.limit by {
                if j != i {
                    assert(self.windows@[j] == old(self).windows@[j]);
                }
            }
        }
        admitted
    }
}

/// The runtime counters the metrics endpoint reports. Each wraps around on
/// overflow, as an atomic counter does.
#[derive(Debug)]
pub struct RuntimeMetrics {
    requests: u64,
    accepted: u64,
    rate_limited: u64,
    auth_failures: u64,
    retention_deleted: u64,
}

/// The counters: requests, accepted items, rate-limited requests,
/// authentication failures, rows deleted by retention.
pub struct MetricsData {
    pub requests: u64,
    pub accepted: u64,
    pub rate_limited: u64,
    pub auth_failures: u64,
    pub retention_deleted: u64,
}

pub open spec fn add_wrapping(a: u64, b: u64) -> u64 {
    ((a as int + b as int) % 0x1_0000_0000_0000_0000) as u64
}

impl View for RuntimeMetrics {
    type V = MetricsData;

    closed spec fn view(&self) -> MetricsData {
        MetricsData {
            requests: self.requests,
            accepted: self.accepted,
            rate_limited: self.rate_limited,
            auth_failures: self.auth_failures,
            retention_deleted: self.retention_deleted,
        }
    }
}

impl Default for RuntimeMetrics {
    fn default() -> (r: Self)
        ensures
            r@ == (MetricsData {
                requests: 0,
                accepted: 0,
                rate_limited: 0,
                auth_failures: 0,
                retention_deleted: 0,
            }),
    {
        RuntimeMetrics {
            requests: 0,
            accepted: 0,
            rate_limited: 0,
            auth_failures: 0,
            retention_deleted: 0,
        }
    }
}

/// One thing the runtime counters count: what `request`, `accepted`,
/// `rate_limited`, `auth_failure` and `retention_deleted` record.
pub enum MetricEvent {
    Request,
    Accepted(u64),
    RateLimited,
    AuthFailure,
    RetentionDeleted(u64),
}

/// The counters after one event, as the counting methods change them.
pub open spec fn counted(m: MetricsData, e: MetricEvent) -> MetricsData {
    match e {
        MetricEvent::Request => MetricsData { requests: add_wrapping(m.requests, 1), ..m },
        MetricEvent::Accepted(n) => MetricsData { accepted: add_wrapping(m.accepted, n), ..m },
        MetricEvent::RateLimited => MetricsData { rate_limited: add_wrapping(m.rate_limited, 1), ..m },
        MetricEvent::AuthFailure => MetricsData { auth_failures: add_wrapping(m.auth_failures, 1), ..m },
        MetricEvent::RetentionDeleted(n) => MetricsData {
            retention_deleted: add_wrapping(m.retention_deleted, n),
            ..m
        },
    }
}

/// The counters after a sequence of events, in order.
pub open spec fn counted_all(m: MetricsData, es: Seq<MetricEvent>) -> MetricsData
    decreases es.len(),
{
    if es.len() == 0 {
        m
    } else {
        counted(counted_all(m, es.drop_last()), es.last())
    }
}

/// How much a sequence of events adds to each counter: requests, accepted
/// items, rate-limited requests, authentication failures, deleted rows.
pub open spec fn totals(es: Seq<MetricEvent>) -> (nat, nat, nat, nat, nat)
    decreases es.len(),
{
    if es.len() == 0 {
        (0, 0, 0, 0, 0)
    } else {
        let t = totals(es.drop_last());
        match es.last() {
            MetricEvent::Request => ((t.0 + 1) as nat, t.1, t.2, t.3, t.4),
            MetricEvent::Accepted(n) => (t.0, (t.1 + n) as nat, t.2, t.3, t.4),
            MetricEvent::RateLimited => (t.0, t.1, (t.2 + 1) as nat, t.3, t.4),
            MetricEvent::AuthFailure => (t.0, t.1, t.2, (t.3 + 1) as nat, t.4),
            MetricEvent::RetentionDeleted(n) => (t.0, t.1, t.2, t.3, (t.4 + n) as nat),
        }
    }
}

/// `x` plus `n`, wrapping around at 64 bits.
pub open spec fn wrapped(x: u64, n: nat) -> u64 {
    ((x + n) % 0x1_0000_0000_0000_0000) as u64
}

proof fn lemma_wrapped_step(x: u64, s: nat, a: u64)
    ensures
        add_wrapping(wrapped(x, s), a) == wrapped(x, (s + a) as nat),
{
    let m: int = 0x1_0000_0000_0000_0000;
    let y = (x + s) % m;
    assert(0 <= y < m);
    assert(wrapped(x, s) as int == y);
    vstd::arithmetic::div_mod::lemma_add_mod_noop(x + s, a as int, m);
    vstd::arithmetic::div_mod::lemma_small_mod(a as nat, m as nat);
    vstd::arithmetic::div_mod::lemma_small_mod(y as nat, m as nat);
    assert((y + a) % m == (x + s + a) % m);
}

proof fn lemma_wrapped_zero(x: u64)
    ensures
        wrapped(x, 0) == x,
{
    vstd::arithmetic::div_mod::lemma_small_mod(x as nat, 0x1_0000_0000_0000_0000nat);
}

/// After any sequence of events each counter holds its starting value plus
/// everything the events added to it, wrapping around at 64 bits.
pub proof fn lemma_counters_total_the_events(m: MetricsData, es: Seq<MetricEvent>)
    ensures
        counted_all(m, es) == (MetricsData {
            requests: wrapped(m.requests, totals(es).0),
            accepted: wrapped(m.accepted, totals(es).1),
            rate_limited: wrapped(m.rate_limited, totals(es).2),
            auth_failures: wrapped(m.auth_failures, totals(es).3),
            retention_deleted: wrapped(m.retention_deleted, totals(es).4),
        }),
    decreases es.len(),
{
    if es.len() == 0 {
        lemma_wrapped_zero(m.requests);
        lemma_wrapped_zero(m.accepted);
        lemma_wrapped_zero(m.rate_limited);
        lemma_wrapped_zero(m.auth_failures);
        lemma_wrapped_zero(m.retention_deleted);
    } else {
        lemma_counters_total_the_events(m, es.drop_last());
        let t = totals(es.drop_last());
        match es.last() {
            MetricEvent::Request => lemma_wrapped_step(m.requests, t.0, 1),
            MetricEvent::Accepted(n) => lemma_wrapped_step(m.accepted, t.1, n),
            MetricEvent::RateLimited => lemma_wrapped_step(m.rate_limited, t.2, 1),
            MetricEvent::AuthFailure => lemma_wrapped_step(m.auth_failures, t.3, 1),
            MetricEvent::RetentionDeleted(n) => lemma_wrapped_step(m.retention_deleted, t.4, n),
        }
    }
}

/// Counting `a` accepted items and then `b` leaves the counters as counting
/// `a + b` (wrapping) at once does; counting none changes nothing.
pub proof fn lemma_accepted_adds_up(m: MetricsData, a: u64, b: u64)
    ensures
        counted(counted(m, MetricEvent::Accepted(a)), MetricEvent::Accepted(b)) == counted(
            m,
            MetricEvent::Accepted(add_wrapping(a, b)),
        ),
        counted(m, MetricEvent::Accepted(0)) == m,
{
    let md: int = 0x1_0000_0000_0000_0000;
    let x = m.accepted;
    vstd::arithmetic::div_mod::lemma_add_mod_noop(x + a, b as int, md);
    vstd::arithmetic::div_mod::lemma_add_mod_noop(x as int, a + b, md);
    vstd::arithmetic::div_mod::lemma_small_mod(b as nat, md as nat);
    vstd::arithmetic::div_mod::lemma_small_mod(x as nat, md as nat);
    vstd::arithmetic::div_mod::lemma_small_mod(((x + a) % md) as nat, md as nat);
    assert(add_wrapping(add_wrapping(x, a), b) == add_wrapping(x, add_wrapping(a, b)));
    vstd::arithmetic::div_mod::lemma_small_mod(x as nat, md as nat);
}

/// One counter in the Prometheus text format: its HELP and TYPE lines, then
/// its sample.
pub open spec fn metric_block(header: Seq<char>, value: u64) -> Seq<char> {
    header + decimal(value as nat) + seq!['\n']
}

pub open spec fn requests_header() -> Seq<char> {
    "# HELP open_sentry_ingest_requests_total Ingest HTTP requests.\n# TYPE open_sentry_ingest_requests_total counter\nopen_sentry_ingest_requests_total "@
}

pub open spec fn accepted_header() -> Seq<char> {
    "# HELP open_sentry_events_accepted_total Accepted envelope items and events.\n# TYPE open_sentry_events_accepted_total counter\nopen_sentry_events_accepted_total "@
}

pub open spec fn rate_limited_header() -> Seq<char> {
    "# HELP open_sentry_ingest_rate_limited_total Rate-limited ingest requests.\n# TYPE open_sentry_ingest_rate_limited_total counter\nopen_sentry_ingest_rate_limited_total "@
}

pub open spec fn auth_failures_header() -> Seq<char> {
    "# HELP open_sentry_auth_failures_total Failed authentication attempts.\n# TYPE open_sentry_auth_failures_total counter\nopen_sentry_auth_failures_total "@
}

pub open spec fn retention_header() -> Seq<char> {
    "# HELP open_sentry_retention_deleted_rows_total Rows deleted by retention.\n# TYPE open_sentry_retention_deleted_rows_total counter\nopen_sentry_retention_deleted_rows_total "@
}

/// The Prometheus text of the counters.
pub open spec fn metrics_text(m: MetricsData) -> Seq<char> {
    metric_block(requests_header(), m.requests) + metric_block(accepted_header(), m.accepted)
        + metric_block(rate_limited_header(), m.rate_limited) + metric_block(
        auth_failures_header(),
        m.auth_failures,
    ) + metric_block(retention_header(), m.retention_deleted)
}

proof fn lemma_metric_block_split(h: Seq<char>, v1: u64, v2: u64, r1: Seq<char>, r2: Seq<char>)
    requires
        metric_block(h, v1) + r1 == metric_block(h, v2) + r2,
    ensures
        v1 == v2,
        r1 == r2,
{
    let t = metric_block(h, v1) + r1;
    let d1 = decimal(v1 as nat);
    let d2 = decimal(v2 as nat);
    lemma_decimal_digits(v1 as nat);
    lemma_decimal_digits(v2 as nat);
    let b = h.len() as int;
    assert forall|i: int| 0 <= i < d1.len() implies t[b + i] == d1[i] by {
        assert(metric_block(h, v1)[b + i] == d1[i]);
    }
    assert forall|i: int| 0 <= i < d2.len() implies t[b + i] == d2[i] by {
        assert(metric_block(h, v2)[b + i] == d2[i]);
    }
    assert(t[b + d1.len()] == '\n') by {
        assert(metric_block(h, v1)[b + d1.len()] == '\n');
    }
    assert(t[b + d2.len()] == '\n') by {
        assert(metric_block(h, v2)[b + d2.len()] == '\n');
    }
    if d1.len() < d2.len() {
        assert(t[b + d1.len()] == d2[d1.len() as int]);
        assert(false);
    }
    if d2.len() < d1.len() {
        assert(t[b + d2.len()] == d1[d2.len() as int]);
        assert(false);
    }
    assert(d1 =~= d2);
    lemma_decimal_injective(v1 as nat, v2 as nat);
    let k = metric_block(h, v1).len() as int;
    assert(r1 =~= t.subrange(k, t.len() as int));
    assert(r2 =~= t.subrange(k, t.len() as int));
}

/// The rendered text tells the counters apart: counters that render alike
/// are equal.
pub proof fn lemma_rendered_text_determines_counters(m1: MetricsData, m2: MetricsData)
    requires
        metrics_text(m1) == metrics_text(m2),
    ensures
        m1 == m2,
{
    let tail = |m: MetricsData|
        metric_block(accepted_header(), m.accepted) + (metric_block(
            rate_limited_header(),
            m.rate_limited,
        ) + (metric_block(auth_failures_header(), m.auth_failures) + metric_block(
            retention_header(),
            m.retention_deleted,
        )));
    assert(metrics_text(m1) =~= metric_block(requests_header(), m1.requests) + tail(m1));
    assert(metrics_text(m2) =~= metric_block(requests_header(), m2.requests) + tail(m2));
    lemma_metric_block_split(requests_header(), m1.requests, m2.requests, tail(m1), tail(m2));
    let tail2 = |m: MetricsData|
        metric_block(rate_limited_header(), m.rate_limited) + (metric_block(
            auth_failures_header(),
            m.auth_failures,
        ) + metric_block(retention_header(), m.retention_deleted));
    lemma_metric_block_split(accepted_header(), m1.accepted, m2.accepted, tail2(m1), tail2(m2));
    let tail3 = |m: MetricsData|
        metric_block(auth_failures_header(), m.auth_failures) + metric_block(
            retention_header(),
            m.retention_deleted,
        );
    lemma_metric_block_split(
        rate_limited_header(),
        m1.rate_limited,
        m2.rate_limited,
        tail3(m1),
        tail3(m2),
    );
    lemma_metric_block_split(
        auth_failures_header(),
        m1.auth_failures,
        m2.auth_failures,
        metric_block(retention_header(), m1.retention_deleted),
        metric_block(retention_header(), m2.retention_deleted),
    );
    lemma_metric_block_split(
        retention_header(),
        m1.retention_deleted,
        m2.retention_deleted,
        Seq::empty(),
        Seq::empty(),
    );
}

/// Counters that render alike still render alike after one counts `a` and
/// then `b` accepted items and the other counts `a + b` (wrapping) at once;
/// counting none accepted items leaves the text as it was.
pub proof fn lemma_accepted_calls_add_up(m1: MetricsData, m2: MetricsData, a: u64, b: u64)
    requires
        metrics_text(m1) == metrics_text(m2),
    ensures
        metrics_text(counted(counted(m1, MetricEvent::Accepted(a)), MetricEvent::Accepted(b)))
            == metrics_text(counted(m2, MetricEvent::Accepted(add_wrapping(a, b)))),
        metrics_text(counted(m1, MetricEvent::Accepted(0))) == metrics_text(m1),
{
    lemma_rendered_text_determines_counters(m1, m2);
    lemma_accepted_adds_up(m1, a, b);
}

/// Counters made fresh and then fed any events render the fixed text with
/// each counter holding what the events added to it, as long as no total
/// passes the 64-bit range.
pub proof fn lemma_fresh_counters_render_the_totals(es: Seq<MetricEvent>)
    requires
        totals(es).0 <= u64::MAX,
        totals(es).1 <= u64::MAX,
        totals(es).2 <= u64::MAX,
        totals(es).3 <= u64::MAX,
        totals(es).4 <= u64::MAX,
    ensures
        metrics_text(
            counted_all(
                MetricsData {
                    requests: 0,
                    accepted: 0,
                    rate_limited: 0,
                    auth_failures: 0,
                    retention_deleted: 0,
                },
                es,
            ),
        ) == metric_block(requests_header(), totals(es).0 as u64) + metric_block(
            accepted_header(),
            totals(es).1 as u64,
        ) + metric_block(rate_limited_header(), totals(es).2 as u64) + metric_block(
            auth_failures_header(),
            totals(es).3 as u64,
        ) + metric_block(retention_header(), totals(es).4 as u64),
{
    let zero = MetricsData {
        requests: 0,
        accepted: 0,
        rate_limited: 0,
        auth_failures: 0,
        retention_deleted: 0,
    };
    lemma_counters_total_the_events(zero, es);
    let t = totals(es);
    let md: nat = 0x1_0000_0000_0000_0000nat;
    vstd::arithmetic::div_mod::lemma_small_mod(t.0, md);
    vstd::arithmetic::div_mod::lemma_small_mod(t.1, md);
    vstd::arithmetic::div_mod::lemma_small_mod(t.2, md);
    vstd::arithmetic::div_mod::lemma_small_mod(t.3, md);
    vstd::arithmetic::div_mod::lemma_small_mod(t.4, md);
}

fn push_metric(out: &mut String, header: &str, value: u64)
    ensures
        final(out)@ == old(out)@ + metric_block(header@, value),
{
    push_str(out, header);
    let v = u64_decimal(value);
    push_str(out, v.as_str());
    out.push('\n');
    assert(final(out)@ =~= old(out)@ + metric_block(header@, value));
}

impl RuntimeMetrics {
    /// Counts one ingest request.
    pub fn request(&mut self)
        ensures
            final(self)@ == counted(old(self)@, MetricEvent::Request),
            final(self)@ == (MetricsData { requests: add_wrapping(old(self)@.requests, 1), ..old(self)@ }),
    {
        self.requests = self.requests.wrapping_add(1);
    }

    /// Counts `n` accepted items.
    pub fn accepted(&mut self, n: u64)
        ensures
            final(self)@ == counted(old(self)@, MetricEvent::Accepted(n)),
            final(self)@ == (MetricsData { accepted: add_wrapping(old(self)@.accepted, n), ..old(self)@ }),
    {
        self.accepted = self.accepted.wrapping_add(n);
    }

    /// Counts one rate-limited request.
    pub fn rate_limited(&mut self)
        ensures
            final(self)@ == counted(old(self)@, MetricEvent::RateLimited),
            final(self)@ == (MetricsData {
                rate_limited: add_wrapping(old(self)@.rate_limited, 1),
                ..old(self)@
            }),
    {
        self.rate_limited = self.rate_limited.wrapping_add(1);
    }

    /// Counts one failed authentication.
    pub fn auth_failure(&mut self)
        ensures
            final(self)@ == counted(old(self)@, MetricEvent::AuthFailure),
            final(self)@ == (MetricsData {
                auth_failures: add_wrapping(old(self)@.auth_failures, 1),
                ..old(self)@
            }),
    {
        self.auth_failures = self.auth_failures.wrapping_add(1);
    }

    /// Counts `n` rows deleted by retention.
    pub fn retention_deleted(&mut self, n: u64)
        ensures
            final(self)@ == counted(old(self)@, MetricEvent::RetentionDeleted(n)),
            final(self)@ == (MetricsData {
                retention_deleted: add_wrapping(old(self)@.retention_deleted, n),
                ..old(self)@
            }),
    {
        self.retention_deleted = self.retention_deleted.wrapping_add(n);
    }

    /// The counters in the Prometheus text exposition format.
    pub fn render(&self) -> (text: String)
        ensures
            text@ == metrics_text(self@),
    {
        let mut out = String::new();
        push_metric(
            &mut out,
            "# HELP open_sentry_ingest_requests_total Ingest HTTP requests.\n# TYPE open_sentry_ingest_requests_total counter\nopen_sentry_ingest_requests_total ",
            self.requests,
        );
        push_metric(
            &mut out,
            "# HELP open_sentry_events_accepted_total Accepted envelope items and events.\n# TYPE open_sentry_events_accepted_total counter\nopen_sentry_events_accepted_total ",
            self.accepted,
        );
        push_metric(
            &mut out,
            "# HELP open_sentry_ingest_rate_limited_total Rate-limited ingest requests.\n# TYPE open_sentry_ingest_rate_limited_total counter\nopen_sentry_ingest_rate_limited_total ",
            self.rate_limited,
        );
        push_metric(
            &mut out,
            "# HELP open_sentry_auth_failures_total Failed authentication attempts.\n# TYPE open_sentry_auth_failures_total counter\nopen_sentry_auth_failures_total ",
            self.auth_failures,
        );
        push_metric(
            &mut out,
            "# HELP open_sentry_retention_deleted_rows_total Rows deleted by retention.\n# TYPE open_sentry_retention_deleted_rows_total counter\nopen_sentry_retention_deleted_rows_total ",
            self.retention_deleted,
        );
        assert(out@ =~= metrics_text(self@));
        out
    }
}

/// Lets an ingest request through the rate limiter: counts the request, and
/// refuses it (counting the refusal) when its credential's window is full.
pub fn admit_ingest(
    limiter: &mut IngestRateLimiter,
    metrics: &mut RuntimeMetrics,
    credential_key: &str,
    now: u64,
) -> (r: Result<(), AppError>)
    requires
        old(limiter).wf(),
    ensures
        final(limiter).wf(),
        final(limiter).limit() == old(limiter).limit(),
        final(limiter).windows() == old(limiter).windows().insert(
            credential_key@,
            admission(
                old(limiter).limit(),
                if old(limiter).windows().contains_key(credential_key@) {
                    Some(old(limiter).windows()[credential_key@])
                } else {
                    None
                },
                now,
            ).1,
        ),
        r is Ok == admission(
            old(limiter).limit(),
            if old(limiter).windows().contains_key(credential_key@) {
                Some(old(limiter).windows()[credential_key@])
            } else {
                None
            },
            now,
        ).0,
        r is Err ==> r == Err::<(), AppError>(AppError::RateLimited),
        final(metrics)@.requests == add_wrapping(old(metrics)@.requests, 1),
        final(metrics)@.rate_limited == if r is Ok {
            old(metrics)@.rate_limited
        } else {
            add_wrapping(old(metrics)@.rate_limited, 1)
        },
        final(metrics)@.accepted == old(metrics)@.accepted,
        final(metrics)@.auth_failures == old(metrics)@.auth_failures,
        final(metrics)@.retention_deleted == old(metrics)@.retention_deleted,
{
    metrics.request();
    if !limiter.check(credential_key, now) {
        metrics.rate_limited();
        return Err(AppError::RateLimited);
    }
    Ok(())
}

/// Whether an `Authorization` header carries `Bearer <expected>`.
pub open spec fn bearer_matches(authorization: Option<Seq<char>>, expected: Seq<char>) -> bool {
    match authorization {
        Some(h) => h == "Bearer "@ + expected,
        None => false,
    }
}

/// The metrics endpoint admits a request whose `Authorization` header is
/// `Bearer ` followed by the configured metrics key.
pub fn metrics_authorized(authorization: Option<&str>, expected: &str) -> (r: bool)
    ensures
        r == bearer_matches(
            match authorization {
                Some(h) => Some(h@),
                None => None,
            },
            expected@,
        ),
{
    match authorization {
        Some(h) => {
            let hc = chars_of(h);
            let prefix = chars_of("Bearer ");
            if !has_prefix(&hc, &prefix) {
                proof {
                    if h@ == "Bearer "@ + expected@ {
                        assert(h@.subrange(0, prefix@.len() as int) =~= prefix@);
                    }
                }
                return false;
            }
            let rest = slice_chars(&hc, prefix.len(), hc.len());
            let e = chars_of(expected);
            let same = crate::text::seq_eq(&rest, &e);
            proof {
                assert(hc@ =~= prefix@ + rest@);
                if h@ == "Bearer "@ + expected@ {
                    assert(rest@ =~= expected@);
                }
            }
            same
        },
        None => false,
    }
}

/// The retention window in days passed to the database: at least one day,
/// then narrowed to 32 bits.
pub open spec fn retention_window(retention_days: i64) -> i32 {
    (if retention_days < 1 {
        1
    } else {
        retention_days
    }) as i32
}

pub fn retention_window_days(retention_days: i64) -> (days: i32)
    ensures
        days == retention_window(retention_days),
{
    let days = if retention_days < 1 {
        1
    } else {
        retention_days
    };
    #[verifier::truncate]
    (days as i32)
}

/// The retention job runs every `retention_interval_seconds`, but no more
/// often than once a minute.
pub fn retention_tick_seconds(retention_interval_seconds: u64) -> (s: u64)
    ensures
        s == if retention_interval_seconds < 60 {
            60
        } else {
            retention_interval_seconds
        },
{
    if retention_interval_seconds < 60 {
        60
    } else {
        retention_interval_seconds
    }
}

} // verus!
