//! Request log entries, metrics rollups, latency resolution and per-route
//! sliding-window rate limits.
use vstd::prelude::*;
use vstd::seq_lib::{lemma_sorted_unique, to_multiset_insert};
use crate::assoc::{find_key, find_key_str, get_copy, key_index, lemma_key_index, lookup};
use crate::gateway::config::RateLimitRule;
use crate::model::MockExampleKind;
use crate::text::chars_of;

verus! {

broadcast use vstd::seq_lib::group_to_multiset_ensures;

#[derive(Debug, Clone, PartialEq)]
pub struct RequestLogEntry {
    pub at_epoch_ms: i64,
    pub method: String,
    pub path: String,
    pub query: Option<String>,
    pub matched_route: Option<String>,
    pub collection_name: Option<String>,
    pub status: u16,
    pub kind: Option<MockExampleKind>,
    pub source: &'static str,
    pub latency_ms: u64,
    /// Truncated request body when capture was enabled.
    pub request_body: Option<String>,
    /// Correlation id set on the response `x-request-id` header.
    pub request_id: Option<String>,
}

/// Capacity of the in-memory request log.
pub const DEFAULT_REQUEST_LOG_CAPACITY: usize = 100;

/// Number of latency samples kept per route for percentiles.
pub const ROUTE_LATENCY_RESERVOIR: usize = 200;

/// Index used for the nearest-rank percentile `pct` over `n` sorted samples:
/// `ceil(p * n / 100) - 1` with `p` clamped to `1..=100`, and at most `n - 1`.
pub open spec fn percentile_index(n: int, pct: int) -> int {
    let p = if pct < 1 {
        1
    } else if pct > 100 {
        100
    } else {
        pct
    };
    let idx = (p * n + 99) / 100 - 1;
    if idx < n - 1 {
        idx
    } else {
        n - 1
    }
}

/// Nearest-rank percentile of a sorted sample list (0 when empty).
pub open spec fn percentile_spec(sorted: Seq<u64>, pct: int) -> u64 {
    if sorted.len() == 0 {
        0
    } else {
        sorted[percentile_index(sorted.len() as int, pct)]
    }
}

pub proof fn lemma_percentile_index_bounds(n: int, pct: int)
    requires
        n > 0,
    ensures
        0 <= percentile_index(n, pct) < n,
{
    let p = if pct < 1 {
        1
    } else if pct > 100 {
        100
    } else {
        pct
    };
    assert(p * n >= n) by (nonlinear_arith)
        requires
            p >= 1,
            n > 0,
    ;
}

/// Nearest-rank percentile over a pre-sorted slice; 0 for an empty slice.
pub fn percentile(sorted: &[u64], pct: u8) -> (r: u64)
    ensures
        r == percentile_spec(sorted@, pct as int),
{
    if sorted.len() == 0 {
        return 0;
    }
    let p: usize = if pct < 1 {
        1
    } else if pct > 100 {
        100
    } else {
        pct as usize
    };
    proof {
        lemma_percentile_index_bounds(sorted@.len() as int, pct as int);
    }
    let n = sorted.len();
    let q = n / 100;
    let rem = n % 100;
    proof {
        assert(p * q <= 100 * q) by (nonlinear_arith)
            requires
                p <= 100,
                q >= 0,
        ;
        assert(p * rem <= 100 * 99) by (nonlinear_arith)
            requires
                p <= 100,
                rem < 100,
                rem >= 0,
        ;
        assert(p * n == p * (q * 100 + rem)) by (nonlinear_arith)
            requires
                n == q * 100 + rem,
        ;
        assert(p * (q * 100 + rem) == (p * q) * 100 + p * rem) by (nonlinear_arith);
        assert(((p * q) * 100 + (p * rem + 99)) / 100 == p * q + (p * rem + 99) / 100) by (nonlinear_arith)
            requires
                p * rem + 99 >= 0,
        ;
        assert((p * n + 99) / 100 <= n) by (nonlinear_arith)
            requires
                p <= 100,
                n >= 1,
        ;
        assert((p * n + 99) / 100 >= 1) by (nonlinear_arith)
            requires
                p >= 1,
                n >= 1,
        ;
    }
    let idx: usize = p * q + (p * rem + 99) / 100 - 1;
    let i = if idx < n - 1 {
        idx
    } else {
        n - 1
    };
    sorted[i]
}

/// Percentiles of a sorted list grow with the requested rank.
pub proof fn lemma_percentile_monotone(sorted: Seq<u64>, p1: int, p2: int)
    requires
        p1 <= p2,
        forall|i: int, j: int| 0 <= i <= j < sorted.len() ==> sorted[i] <= sorted[j],
    ensures
        percentile_spec(sorted, p1) <= percentile_spec(sorted, p2),
{
    if sorted.len() > 0 {
        let n = sorted.len() as int;
        lemma_percentile_index_bounds(n, p1);
        lemma_percentile_index_bounds(n, p2);
        let a = if p1 < 1 {
            1
        } else if p1 > 100 {
            100
        } else {
            p1
        };
        let b = if p2 < 1 {
            1
        } else if p2 > 100 {
            100
        } else {
            p2
        };
        assert(a * n <= b * n) by (nonlinear_arith)
            requires
                a <= b,
                n > 0,
        ;
        assert((a * n + 99) / 100 <= (b * n + 99) / 100) by (nonlinear_arith)
            requires
                a * n <= b * n,
        ;
    }
}

/// A percentile of a non-empty list is one of its samples.
pub proof fn lemma_percentile_member(sorted: Seq<u64>, pct: int)
    requires
        sorted.len() > 0,
    ensures
        exists|i: int| 0 <= i < sorted.len() && sorted[i] == percentile_spec(sorted, pct),
{
    lemma_percentile_index_bounds(sorted.len() as int, pct);
    let i = percentile_index(sorted.len() as int, pct);
    assert(sorted[i] == percentile_spec(sorted, pct));
}

pub open spec fn ascending(s: Seq<u64>) -> bool {
    forall|i: int, j: int| 0 <= i < j < s.len() ==> s[i] <= s[j]
}

/// The ascending arrangement of `s` (the unique sorted permutation).
pub open spec fn sorted_samples(s: Seq<u64>) -> Seq<u64> {
    choose|t: Seq<u64>| ascending(t) && t.to_multiset() == s.to_multiset()
}

/// Sorts a copy of the samples.
pub fn sort_samples(s: &Vec<u64>) -> (r: Vec<u64>)
    ensures
        ascending(r@),
        r@.to_multiset() == s@.to_multiset(),
        r@ == sorted_samples(s@),
{
    let mut out: Vec<u64> = Vec::new();
    let mut i: usize = 0;
    while i < s.len()
        invariant
            i <= s.len(),
            ascending(out@),
            out@.to_multiset() == s@.subrange(0, i as int).to_multiset(),
        decreases s.len() - i,
    {
        let x = s[i];
        let mut p: usize = 0;
        while p < out.len() && out[p] <= x
            invariant
                p <= out@.len(),
                forall|k: int| 0 <= k < p ==> out@[k] <= x,
            decreases out@.len() - p,
        {
            p += 1;
        }
        let ghost prev = out@;
        out.insert(p, x);
        proof {
            to_multiset_insert(prev, p as int, x);
            assert(s@.subrange(0, i + 1) =~= s@.subrange(0, i as int).push(x));
            assert forall|a: int, b: int| 0 <= a < b < out@.len() implies out@[a] <= out@[b] by {
                if a < p && b == p {
                } else if a < p && b > p {
                    assert(out@[b] == prev[b - 1]);
                } else if a == p && b > p {
                    assert(out@[b] == prev[b - 1]);
                    assert(prev[p as int] > x);
                } else if a > p {
                    assert(out@[a] == prev[a - 1]);
                    assert(out@[b] == prev[b - 1]);
                }
            }
        }
        i += 1;
    }
    proof {
        assert(s@.subrange(0, s@.len() as int) =~= s@);
        let t = sorted_samples(s@);
        assert(ascending(out@) && out@.to_multiset() == s@.to_multiset());
        assert(ascending(t) && t.to_multiset() == s@.to_multiset());
        lemma_sorted_unique(out@, t, |a: u64, b: u64| a <= b);
    }
    out
}

/// Per-route rollup returned from the metrics endpoint.
#[derive(Debug, Clone, PartialEq)]
pub struct RouteMetrics {
    pub count: u64,
    pub total_latency_ms: u64,
    pub max_latency_ms: u64,
    pub p50_ms: u64,
    pub p95_ms: u64,
    /// Latency samples retained for percentiles, oldest first.
    pub samples: Vec<u64>,
}

impl Default for RouteMetrics {
    fn default() -> (r: Self)
        ensures
            r.count == 0,
            r.total_latency_ms == 0,
            r.max_latency_ms == 0,
            r.p50_ms == 0,
            r.p95_ms == 0,
            r.samples@.len() == 0,
            metrics_of(r) == metrics_start(),
    {
        RouteMetrics {
            count: 0,
            total_latency_ms: 0,
            max_latency_ms: 0,
            p50_ms: 0,
            p95_ms: 0,
            samples: Vec::new(),
        }
    }
}

pub open spec fn sat_add(a: u64, b: u64) -> u64 {
    if a + b > u64::MAX {
        u64::MAX
    } else {
        (a + b) as u64
    }
}

/// The reservoir after one more sample: the oldest sample leaves once the
/// reservoir is full.
pub open spec fn next_samples(samples: Seq<u64>, latency: u64) -> Seq<u64> {
    if samples.len() >= ROUTE_LATENCY_RESERVOIR {
        samples.drop_first().push(latency)
    } else {
        samples.push(latency)
    }
}

/// Integer average, 0 when nothing was counted.
pub open spec fn average(total: u64, count: u64) -> u64 {
    if count == 0 {
        0
    } else {
        (total / count) as u64
    }
}

impl RouteMetrics {
    pub fn average_latency_ms(&self) -> (r: u64)
        ensures
            r == average(self.total_latency_ms, self.count),
    {
        if self.count == 0 {
            0
        } else {
            self.total_latency_ms / self.count
        }
    }

    /// Counts one served request of `latency_ms` and refreshes the
    /// percentiles over the retained samples.
    pub fn record(&mut self, latency_ms: u64)
        ensures
            final(self).count == sat_add(old(self).count, 1),
            final(self).total_latency_ms == sat_add(old(self).total_latency_ms, latency_ms),
            final(self).max_latency_ms == if latency_ms > old(self).max_latency_ms {
                latency_ms
            } else {
                old(self).max_latency_ms
            },
            final(self).samples@ == next_samples(old(self).samples@, latency_ms),
            final(self).p50_ms == percentile_spec(sorted_samples(final(self).samples@), 50),
            final(self).p95_ms == percentile_spec(sorted_samples(final(self).samples@), 95),
            metrics_of(*final(self)) == metrics_step(metrics_of(*old(self)), latency_ms),
    {
        self.count = self.count.saturating_add(1);
        self.total_latency_ms = self.total_latency_ms.saturating_add(latency_ms);
        if latency_ms > self.max_latency_ms {
            self.max_latency_ms = latency_ms;
        }
        if self.samples.len() >= ROUTE_LATENCY_RESERVOIR {
            self.samples.remove(0);
        }
        self.samples.push(latency_ms);
        let sorted = sort_samples(&self.samples);
        self.p50_ms = percentile(&sorted, 50);
        self.p95_ms = percentile(&sorted, 95);
    }
}

/// The reservoir never holds more than its capacity.
pub proof fn lemma_reservoir_bounded(samples: Seq<u64>, latency: u64)
    requires
        samples.len() <= ROUTE_LATENCY_RESERVOIR,
    ensures
        next_samples(samples, latency).len() <= ROUTE_LATENCY_RESERVOIR,
        next_samples(samples, latency).last() == latency,
{
}

/// The reservoir after recording `ls` in order, starting empty.
pub open spec fn samples_run(ls: Seq<u64>) -> Seq<u64>
    decreases ls.len(),
{
    if ls.len() == 0 {
        Seq::empty()
    } else {
        next_samples(samples_run(ls.drop_last()), ls.last())
    }
}

/// The largest latency recorded, starting from `m0`.
pub open spec fn max_run(m0: u64, ls: Seq<u64>) -> u64
    decreases ls.len(),
{
    if ls.len() == 0 {
        m0
    } else {
        let m = max_run(m0, ls.drop_last());
        if ls.last() > m {
            ls.last()
        } else {
            m
        }
    }
}

/// The parts of a route's metrics: count, total latency, largest latency,
/// retained samples, p50 and p95.
pub open spec fn metrics_of(m: RouteMetrics) -> (u64, u64, u64, Seq<u64>, u64, u64) {
    (m.count, m.total_latency_ms, m.max_latency_ms, m.samples@, m.p50_ms, m.p95_ms)
}

pub open spec fn metrics_start() -> (u64, u64, u64, Seq<u64>, u64, u64) {
    (0, 0, 0, Seq::empty(), 0, 0)
}

/// The metrics after one more request of `l` (see `RouteMetrics::record`).
pub open spec fn metrics_step(m: (u64, u64, u64, Seq<u64>, u64, u64), l: u64) -> (u64, u64, u64, Seq<u64>, u64, u64) {
    let samples = next_samples(m.3, l);
    (
        sat_add(m.0, 1),
        sat_add(m.1, l),
        if l > m.2 { l } else { m.2 },
        samples,
        percentile_spec(sorted_samples(samples), 50),
        percentile_spec(sorted_samples(samples), 95),
    )
}

/// The metrics after recording `ls` in order, starting from the default.
pub open spec fn metrics_run(ls: Seq<u64>) -> (u64, u64, u64, Seq<u64>, u64, u64)
    decreases ls.len(),
{
    if ls.len() == 0 {
        metrics_start()
    } else {
        metrics_step(metrics_run(ls.drop_last()), ls.last())
    }
}

/// The sum of the latencies, capped at `u64::MAX` at every step.
pub open spec fn total_run(ls: Seq<u64>) -> u64
    decreases ls.len(),
{
    if ls.len() == 0 {
        0
    } else {
        sat_add(total_run(ls.drop_last()), ls.last())
    }
}

/// Over any run of records from the default metrics: the count is the
/// number of records (capped at `u64::MAX`), the total their capped sum,
/// the reservoir the latest `ROUTE_LATENCY_RESERVOIR` latencies in order,
/// the maximum the largest latency recorded, and p50 and p95 the
/// percentiles of the retained samples.
pub proof fn law_metrics_whole_run(ls: Seq<u64>)
    ensures
        ({
            let m = metrics_run(ls);
            &&& m.0 == if ls.len() > u64::MAX { u64::MAX as int } else { ls.len() as int }
            &&& m.1 == total_run(ls)
            &&& m.2 == max_run(0, ls)
            &&& m.3 == samples_run(ls)
            &&& m.3 == ls.subrange(
                if ls.len() > ROUTE_LATENCY_RESERVOIR { ls.len() - ROUTE_LATENCY_RESERVOIR } else { 0 },
                ls.len() as int,
            )
            &&& ls.len() > 0 ==> m.4 == percentile_spec(sorted_samples(m.3), 50) && m.5 == percentile_spec(sorted_samples(m.3), 95)
        }),
    decreases ls.len(),
{
    law_metrics_run(ls);
    if ls.len() > 0 {
        law_metrics_whole_run(ls.drop_last());
    }
}

/// Over any run of records from an empty reservoir, the reservoir holds
/// exactly the latest `ROUTE_LATENCY_RESERVOIR` latencies (all of them
/// while fewer were recorded), in the order they came, and the maximum
/// is at least every recorded latency and is one of them.
pub proof fn law_metrics_run(ls: Seq<u64>)
    ensures
        samples_run(ls) == ls.subrange(
            if ls.len() > ROUTE_LATENCY_RESERVOIR { ls.len() - ROUTE_LATENCY_RESERVOIR } else { 0 },
            ls.len() as int,
        ),
        forall|i: int| 0 <= i < ls.len() ==> ls[i] <= max_run(0, ls),
        ls.len() > 0 ==> exists|i: int| 0 <= i < ls.len() && ls[i] == max_run(0, ls),
    decreases ls.len(),
{
    if ls.len() > 0 {
        let t = ls.drop_last();
        law_metrics_run(t);
        let n = ls.len() as int;
        let start = if n > ROUTE_LATENCY_RESERVOIR { n - ROUTE_LATENCY_RESERVOIR } else { 0 };
        let pstart = if n - 1 > ROUTE_LATENCY_RESERVOIR { n - 1 - ROUTE_LATENCY_RESERVOIR } else { 0 };
        assert(samples_run(t) == t.subrange(pstart, n - 1));
        if n - 1 >= ROUTE_LATENCY_RESERVOIR {
            assert(samples_run(t).drop_first().push(ls.last()) =~= ls.subrange(start, n));
        } else {
            assert(samples_run(t).push(ls.last()) =~= ls.subrange(start, n));
        }
        assert forall|i: int| 0 <= i < n implies ls[i] <= max_run(0, ls) by {
            if i < n - 1 {
                assert(t[i] == ls[i]);
            }
        }
        if ls.last() > max_run(0, t) {
            assert(ls[n - 1] == max_run(0, ls));
        } else if t.len() > 0 {
            let w = choose|w: int| 0 <= w < t.len() && t[w] == max_run(0, t);
            assert(ls[w] == max_run(0, ls));
        } else {
            assert(ls[0] == ls.last());
        }
    }
}

/// Aggregate counters over every recorded request.
#[derive(Debug, Clone, PartialEq)]
pub struct MetricsSnapshot {
    pub total_requests: u64,
    pub by_method: Vec<(String, u64)>,
    pub by_status_class: Vec<(String, u64)>,
    pub total_latency_ms: u64,
    pub max_latency_ms: u64,
    pub started_at_epoch_ms: i64,
    pub by_route: Vec<(String, RouteMetrics)>,
}

impl MetricsSnapshot {
    pub fn average_latency_ms(&self) -> (r: u64)
        ensures
            r == average(self.total_latency_ms, self.total_requests),
    {
        if self.total_requests == 0 {
            0
        } else {
            self.total_latency_ms / self.total_requests
        }
    }
}

/// The rollup bucket of an HTTP status code.
pub open spec fn status_class(status: u16) -> Seq<char> {
    if 100 <= status <= 199 {
        "1xx"@
    } else if 200 <= status <= 299 {
        "2xx"@
    } else if 300 <= status <= 399 {
        "3xx"@
    } else if 400 <= status <= 499 {
        "4xx"@
    } else if 500 <= status <= 599 {
        "5xx"@
    } else {
        "other"@
    }
}

pub fn status_class_of(status: u16) -> (r: &'static str)
    ensures
        r@ == status_class(status),
{
    if 100 <= status && status <= 199 {
        "1xx"
    } else if 200 <= status && status <= 299 {
        "2xx"
    } else if 300 <= status && status <= 399 {
        "3xx"
    } else if 400 <= status && status <= 499 {
        "4xx"
    } else if 500 <= status && status <= 599 {
        "5xx"
    } else {
        "other"
    }
}

/// The count stored under `key`, 0 when absent.
pub open spec fn count_of(m: Seq<(String, u64)>, key: Seq<char>) -> int {
    match lookup(m, key) {
        Some(n) => n as int,
        None => 0,
    }
}

/// Sum of all counts in an entry list.
pub open spec fn sum_counts(m: Seq<(String, u64)>) -> int
    decreases m.len(),
{
    if m.len() == 0 {
        0
    } else {
        sum_counts(m.drop_last()) + m.last().1 as int
    }
}

/// Entry lists with the same keys at the same positions find keys alike.
proof fn lemma_same_keys<T, U>(a: Seq<(String, T)>, b: Seq<(String, U)>, k: Seq<char>)
    requires
        a.len() == b.len(),
        forall|j: int| 0 <= j < a.len() ==> (#[trigger] a[j]).0@ == b[j].0@,
    ensures
        key_index(a, k) == key_index(b, k),
    decreases a.len(),
{
    if a.len() > 0 {
        lemma_same_keys(a.drop_last(), b.drop_last(), k);
        assert(a.last().0@ == b.last().0@);
    }
}

/// Appending an entry with a new key leaves the other lookups unchanged.
proof fn lemma_push_key<T>(a: Seq<(String, T)>, e: (String, T), k: Seq<char>)
    ensures
        key_index(a.push(e), k) == match key_index(a, k) {
            Some(i) => Some(i),
            None => if e.0@ == k {
                Some(a.len() as int)
            } else {
                None
            },
        },
{
    assert(a.push(e).drop_last() =~= a);
}

proof fn lemma_sum_update(m: Seq<(String, u64)>, i: int, v: u64)
    requires
        0 <= i < m.len(),
    ensures
        sum_counts(m.update(i, (m[i].0, v))) == sum_counts(m) - m[i].1 + v,
    decreases m.len(),
{
    if i < m.len() - 1 {
        lemma_sum_update(m.drop_last(), i, v);
        assert(m.update(i, (m[i].0, v)).drop_last() =~= m.drop_last().update(i, (m[i].0, v)));
    } else {
        assert(m.update(i, (m[i].0, v)).drop_last() =~= m.drop_last());
    }
}

/// Adds one to the count under `key`, appending the key when new.
pub fn bump(m: &mut Vec<(String, u64)>, key: &str)
    requires
        count_of(old(m)@, key@) < u64::MAX,
    ensures
        count_of(final(m)@, key@) == count_of(old(m)@, key@) + 1,
        forall|k: Seq<char>| k != key@ ==> count_of(final(m)@, k) == count_of(old(m)@, k),
        sum_counts(final(m)@) == sum_counts(old(m)@) + 1,
{
    proof {
        lemma_key_index(m@, key@);
    }
    let ghost before = m@;
    match find_key_str(m, key) {
        Some(i) => {
            let v = m[i].1;
            let name = m[i].0.clone();
            m.set(i, (name, v + 1));
            proof {
                assert(m@ =~= before.update(i as int, (before[i as int].0, (v + 1) as u64)));
                lemma_sum_update(before, i as int, (v + 1) as u64);
                assert forall|j: int| 0 <= j < m@.len() implies (#[trigger] m@[j]).0@ == before[j].0@ by {}
                assert forall|k: Seq<char>| true implies key_index(m@, k) == key_index(before, k) by {
                    lemma_same_keys(m@, before, k);
                }
                assert forall|k: Seq<char>| k != key@ implies count_of(m@, k) == count_of(before, k) by {
                    lemma_same_keys(m@, before, k);
                    lemma_key_index(before, k);
                }
            }
        },
        None => {
            m.push((key.to_string(), 1));
            proof {
                assert(m@ =~= before.push((m@.last().0, 1u64)));
                assert(m@.drop_last() =~= before);
                assert forall|k: Seq<char>| true implies key_index(m@, k) == match key_index(before, k) {
                    Some(i) => Some(i),
                    None => if key@ == k {
                        Some(before.len() as int)
                    } else {
                        None
                    },
                } by {
                    lemma_push_key(before, (m@.last().0, 1u64), k);
                }
                assert forall|k: Seq<char>| k != key@ implies count_of(m@, k) == count_of(before, k) by {
                    lemma_push_key(before, (m@.last().0, 1u64), k);
                    lemma_key_index(before, k);
                    if let Some(a) = key_index(before, k) {
                        assert(m@[a] == before[a]);
                    }
                }
            }
        },
    }
}

/// The counters stay consistent: every recorded request is counted once by
/// method and once by status class.
pub open spec fn metrics_consistent(m: MetricsSnapshot) -> bool {
    &&& sum_counts(m.by_method@) == m.total_requests
    &&& sum_counts(m.by_status_class@) == m.total_requests
}

impl MetricsSnapshot {
    /// Counts one log entry: totals, per-method and per-status-class counters,
    /// latency totals and maximum, and the matched route's rollup.
    pub fn record_entry(&mut self, entry: &RequestLogEntry)
        requires
            old(self).total_requests < u64::MAX,
            old(self).total_latency_ms + entry.latency_ms <= u64::MAX,
            count_of(old(self).by_method@, entry.method@) < u64::MAX,
            count_of(old(self).by_status_class@, status_class(entry.status)) < u64::MAX,
        ensures
            final(self).total_requests == old(self).total_requests + 1,
            final(self).total_latency_ms == old(self).total_latency_ms + entry.latency_ms,
            final(self).max_latency_ms == if entry.latency_ms > old(self).max_latency_ms {
                entry.latency_ms
            } else {
                old(self).max_latency_ms
            },
            count_of(final(self).by_method@, entry.method@) == count_of(old(self).by_method@, entry.method@) + 1,
            forall|k: Seq<char>|
                k != entry.method@ ==> count_of(final(self).by_method@, k) == count_of(old(self).by_method@, k),
            count_of(final(self).by_status_class@, status_class(entry.status)) == count_of(
                old(self).by_status_class@,
                status_class(entry.status),
            ) + 1,
            forall|k: Seq<char>|
                k != status_class(entry.status) ==> count_of(final(self).by_status_class@, k) == count_of(
                    old(self).by_status_class@,
                    k,
                ),
            final(self).started_at_epoch_ms == old(self).started_at_epoch_ms,
            metrics_consistent(*old(self)) ==> metrics_consistent(*final(self)),
            entry.matched_route is None ==> final(self).by_route == old(self).by_route,
            match entry.matched_route {
                Some(key) => match key_index(old(self).by_route@, key@) {
                    Some(i) => final(self).by_route@.len() == old(self).by_route@.len()
                        && final(self).by_route@[i].1.samples@ == next_samples(old(self).by_route@[i].1.samples@, entry.latency_ms)
                        && final(self).by_route@[i].1.count == sat_add(old(self).by_route@[i].1.count, 1),
                    None => final(self).by_route@.len() == old(self).by_route@.len() + 1
                        && final(self).by_route@.last().0@ == key@
                        && final(self).by_route@.last().1.count == 1
                        && final(self).by_route@.last().1.samples@ == seq![entry.latency_ms],
                },
                None => true,
            },
    {
        self.total_requests = self.total_requests + 1;
        bump(&mut self.by_method, entry.method.as_str());
        bump(&mut self.by_status_class, status_class_of(entry.status));
        self.total_latency_ms = self.total_latency_ms + entry.latency_ms;
        if entry.latency_ms > self.max_latency_ms {
            self.max_latency_ms = entry.latency_ms;
        }
        if let Some(key) = &entry.matched_route {
            let k = chars_of(key.as_str());
            proof {
                lemma_key_index(self.by_route@, k@);
            }
            match find_key(&self.by_route, &k) {
                Some(i) => {
                    let (name, mut rm) = self.by_route.remove(i);
                    rm.record(entry.latency_ms);
                    self.by_route.insert(i, (name, rm));
                },
                None => {
                    let mut rm = RouteMetrics::default();
                    rm.record(entry.latency_ms);
                    self.by_route.push((key.clone(), rm));
                },
            }
        }
    }
}

/// Appends an entry to the bounded request log, dropping the oldest entry
/// once the log holds its capacity.
pub fn push_log(log: &mut Vec<RequestLogEntry>, entry: RequestLogEntry)
    ensures
        final(log)@ == if old(log)@.len() >= DEFAULT_REQUEST_LOG_CAPACITY {
            old(log)@.drop_first().push(entry)
        } else {
            old(log)@.push(entry)
        },
{
    if log.len() >= DEFAULT_REQUEST_LOG_CAPACITY {
        log.remove(0);
    }
    log.push(entry);
}

/// Global latency floor plus per-route additions and jitter bounds.
#[derive(Debug, Clone, PartialEq, Eq)]
pub struct LatencyConfig {
    pub default_ms: Option<u64>,
    pub per_route: Vec<(String, u64)>,
    pub jitter_per_route: Vec<(String, u64)>,
}

/// Resolved latency: the floor (or 0) plus the route's own addition (or 0),
/// saturating.
pub open spec fn resolved_latency(c: LatencyConfig, route_key: Seq<char>) -> u64 {
    let base = match c.default_ms {
        Some(d) => d,
        None => 0,
    };
    let per = match lookup(c.per_route@, route_key) {
        Some(p) => p,
        None => 0,
    };
    sat_add(base, per)
}

impl LatencyConfig {
    pub fn new(default_ms: Option<u64>, per_route: Vec<(String, u64)>) -> (r: Self)
        ensures
            r.default_ms == default_ms,
            r.per_route == per_route,
            r.jitter_per_route@.len() == 0,
    {
        LatencyConfig { default_ms, per_route, jitter_per_route: Vec::new() }
    }

    pub fn with_jitter(default_ms: Option<u64>, per_route: Vec<(String, u64)>, jitter_per_route: Vec<(String, u64)>) -> (r: Self)
        ensures
            r.default_ms == default_ms,
            r.per_route == per_route,
            r.jitter_per_route == jitter_per_route,
    {
        LatencyConfig { default_ms, per_route, jitter_per_route }
    }

    pub fn resolve(&self, route_key: &str) -> (r: u64)
        ensures
            r == resolved_latency(*self, route_key@),
    {
        let base = match self.default_ms {
            Some(d) => d,
            None => 0,
        };
        let per = match get_copy(&self.per_route, route_key) {
            Some(p) => p,
            None => 0,
        };
        base.saturating_add(per)
    }

    /// The jitter bound of a route (0 when none is configured).
    pub fn jitter_for(&self, route_key: &str) -> (r: u64)
        ensures
            r == match lookup(self.jitter_per_route@, route_key@) {
                Some(j) => j,
                None => 0,
            },
    {
        match get_copy(&self.jitter_per_route, route_key) {
            Some(j) => j,
            None => 0,
        }
    }
}

/// Outcome of asking to admit a request under a rate limit.
#[derive(Debug, Clone, Copy, PartialEq, Eq)]
pub enum RateVerdict {
    Allowed,
    Denied { limit: u32, window_ms: u64, retry_after_ms: u64 },
}

/// Per-route sliding-window rules and the timestamps (ms) of the requests
/// each route admitted recently, oldest first.
#[derive(Debug, Clone, PartialEq)]
pub struct RateLimitState {
    pub rules: Vec<(String, RateLimitRule)>,
    pub history: Vec<(String, Vec<u128>)>,
}

/// The admitted timestamps recorded for `key`.
pub open spec fn history_of(h: Seq<(String, Vec<u128>)>, key: Seq<char>) -> Seq<u128> {
    match lookup(h, key) {
        Some(v) => v@,
        None => Seq::empty(),
    }
}

/// `s` without its leading timestamps older than `cutoff`.
pub open spec fn prune(s: Seq<u128>, cutoff: u128) -> Seq<u128>
    decreases s.len(),
{
    if s.len() > 0 && s[0] < cutoff {
        prune(s.drop_first(), cutoff)
    } else {
        s
    }
}

pub open spec fn sat_sub(a: u128, b: u128) -> u128 {
    if a >= b {
        (a - b) as u128
    } else {
        0
    }
}

/// Start of the window that ends at `now`.
pub open spec fn window_cutoff(rule: RateLimitRule, now: u128) -> u128 {
    sat_sub(now, rule.window_ms as u128)
}

/// The verdict for a request at `now` on a route limited by `rule` whose
/// admitted timestamps are `hist`.
pub open spec fn limit_verdict(rule: RateLimitRule, hist: Seq<u128>, now: u128) -> RateVerdict {
    if rule.limit == 0 {
        RateVerdict::Denied {
            limit: 0,
            window_ms: rule.window_ms,
            retry_after_ms: if rule.window_ms > 1 { rule.window_ms } else { 1 },
        }
    } else {
        let kept = prune(hist, window_cutoff(rule, now));
        if kept.len() >= rule.limit {
            let retry = sat_sub(rule.window_ms as u128, sat_sub(now, kept[0]));
            RateVerdict::Denied {
                limit: rule.limit,
                window_ms: rule.window_ms,
                retry_after_ms: if retry > u64::MAX as u128 { u64::MAX } else { retry as u64 },
            }
        } else {
            RateVerdict::Allowed
        }
    }
}

/// The route's timestamps after the request at `now` was decided.
pub open spec fn limit_history(rule: RateLimitRule, hist: Seq<u128>, now: u128) -> Seq<u128> {
    if rule.limit == 0 {
        hist
    } else {
        let kept = prune(hist, window_cutoff(rule, now));
        if kept.len() >= rule.limit {
            kept
        } else {
            kept.push(now)
        }
    }
}

pub open spec fn nondecreasing(s: Seq<u128>) -> bool {
    forall|i: int, j: int| 0 <= i <= j < s.len() ==> s[i] <= s[j]
}

proof fn lemma_prune(s: Seq<u128>, cutoff: u128)
    ensures
        prune(s, cutoff).len() <= s.len(),
        s.subrange(s.len() - prune(s, cutoff).len(), s.len() as int) == prune(s, cutoff),
        prune(s, cutoff).len() > 0 ==> prune(s, cutoff)[0] >= cutoff,
    decreases s.len(),
{
    if s.len() > 0 && s[0] < cutoff {
        let t = s.drop_first();
        lemma_prune(t, cutoff);
        assert(t.subrange(t.len() - prune(t, cutoff).len(), t.len() as int) =~= s.subrange(
            s.len() - prune(t, cutoff).len(),
            s.len() as int,
        ));
    } else {
        assert(s.subrange(0, s.len() as int) =~= s);
    }
}

/// Sliding-window law: when requests arrive in time order, the timestamps a
/// route keeps stay ordered, all lie inside the current window, and their
/// number never exceeds the rule's limit once it has not before.
pub proof fn lemma_window_law(rule: RateLimitRule, hist: Seq<u128>, now: u128)
    requires
        rule.limit > 0,
        nondecreasing(hist),
        hist.len() > 0 ==> hist.last() <= now,
        hist.len() <= rule.limit,
    ensures
        nondecreasing(limit_history(rule, hist, now)),
        forall|i: int|
            0 <= i < limit_history(rule, hist, now).len() ==> window_cutoff(rule, now) <= #[trigger] limit_history(rule, hist, now)[i] <= now,
        limit_history(rule, hist, now).len() <= rule.limit,
        (limit_verdict(rule, hist, now) is Allowed) == (limit_history(rule, hist, now).len() == prune(hist, window_cutoff(rule, now)).len() + 1),
{
    let c = window_cutoff(rule, now);
    lemma_prune(hist, c);
    let kept = prune(hist, c);
    let d = hist.len() - kept.len();
    assert forall|i: int| 0 <= i < kept.len() implies c <= #[trigger] kept[i] <= now by {
        assert(kept[i] == hist[d + i]);
        assert(kept[0] == hist[d]);
        assert(hist[d] <= hist[d + i]);
        assert(hist[d + i] <= hist[hist.len() - 1]);
    }
    assert forall|i: int, j: int| 0 <= i <= j < kept.len() implies kept[i] <= kept[j] by {
        assert(kept[i] == hist[d + i]);
        assert(kept[j] == hist[d + j]);
    }
    let out = limit_history(rule, hist, now);
    if kept.len() < rule.limit {
        assert(out == kept.push(now));
        assert(now >= c);
        assert forall|i: int, j: int| 0 <= i <= j < out.len() implies out[i] <= out[j] by {
            if j < kept.len() {
                assert(out[i] == kept[i]);
                assert(out[j] == kept[j]);
            } else if i < kept.len() {
                assert(out[i] == kept[i]);
            }
        }
        assert forall|i: int| 0 <= i < out.len() implies c <= #[trigger] out[i] <= now by {
            if i < kept.len() {
                assert(out[i] == kept[i]);
            }
        }
    }
}

/// A route's kept timestamps after requests at the times `ts`, in order.
pub open spec fn limiter_run(rule: RateLimitRule, hist: Seq<u128>, ts: Seq<u128>) -> Seq<u128>
    decreases ts.len(),
{
    if ts.len() == 0 {
        hist
    } else {
        limit_history(rule, limiter_run(rule, hist, ts.drop_last()), ts.last())
    }
}

/// Over any run of requests in time order on a limited route, starting
/// with no history: the route keeps its admitted timestamps in order, all
/// inside the window that ends at the latest request, never more than the
/// limit, and each request is admitted exactly when fewer than `limit` of
/// the kept timestamps lie in its own window.
pub proof fn law_limiter_run(rule: RateLimitRule, ts: Seq<u128>)
    requires
        rule.limit > 0,
        nondecreasing(ts),
    ensures
        ({
            let h = limiter_run(rule, Seq::empty(), ts);
            &&& nondecreasing(h)
            &&& h.len() <= rule.limit
            &&& ts.len() > 0 ==> forall|i: int| 0 <= i < h.len() ==> window_cutoff(rule, ts.last()) <= #[trigger] h[i] <= ts.last()
            &&& ts.len() > 0 ==> ((limit_verdict(rule, limiter_run(rule, Seq::empty(), ts.drop_last()), ts.last()) is Allowed)
                == (prune(limiter_run(rule, Seq::empty(), ts.drop_last()), window_cutoff(rule, ts.last())).len() < rule.limit))
        }),
    decreases ts.len(),
{
    if ts.len() > 0 {
        let t = ts.drop_last();
        assert forall|i: int, j: int| 0 <= i <= j < t.len() implies t[i] <= t[j] by {
            assert(t[i] == ts[i] && t[j] == ts[j]);
        }
        law_limiter_run(rule, t);
        let h = limiter_run(rule, Seq::empty(), t);
        if h.len() > 0 {
            assert(t.len() > 0);
            assert(h.last() == h[h.len() - 1]);
            assert(t.last() <= ts.last()) by {
                assert(t.last() == ts[t.len() - 1]);
            }
        }
        lemma_window_law(rule, h, ts.last());
    }
}

/// The timestamps of the admitted requests among `ts`, in order, for a
/// route whose kept history starts empty.
pub open spec fn admitted_run(rule: RateLimitRule, ts: Seq<u128>) -> Seq<u128>
    decreases ts.len(),
{
    if ts.len() == 0 {
        Seq::empty()
    } else {
        let a = admitted_run(rule, ts.drop_last());
        if limit_verdict(rule, limiter_run(rule, Seq::empty(), ts.drop_last()), ts.last()) is Allowed {
            a.push(ts.last())
        } else {
            a
        }
    }
}

proof fn lemma_prune_twice(s: Seq<u128>, c1: u128, c2: u128)
    requires
        c1 <= c2,
    ensures
        prune(prune(s, c1), c2) == prune(s, c2),
    decreases s.len(),
{
    if s.len() > 0 && s[0] < c1 {
        lemma_prune_twice(s.drop_first(), c1, c2);
    }
}

proof fn lemma_prune_push(s: Seq<u128>, x: u128, c: u128)
    requires
        x >= c,
    ensures
        prune(s.push(x), c) == prune(s, c).push(x),
    decreases s.len(),
{
    if s.len() > 0 {
        assert(s.push(x)[0] == s[0]);
        if s[0] < c {
            assert(s.push(x).drop_first() =~= s.drop_first().push(x));
            lemma_prune_push(s.drop_first(), x, c);
        }
    } else {
        assert(s.push(x) =~= seq![x]);
        assert(seq![x].drop_first() =~= Seq::<u128>::empty());
    }
}

proof fn lemma_prune_dropped(s: Seq<u128>, c: u128)
    ensures
        forall|j: int| 0 <= j < s.len() - prune(s, c).len() ==> #[trigger] s[j] < c,
    decreases s.len(),
{
    lemma_prune(s, c);
    if s.len() > 0 && s[0] < c {
        let t = s.drop_first();
        lemma_prune_dropped(t, c);
        assert forall|j: int| 0 <= j < s.len() - prune(s, c).len() implies #[trigger] s[j] < c by {
            if j > 0 {
                assert(s[j] == t[j - 1]);
            }
        }
    }
}

/// Over any run of requests in time order on a limited route that starts
/// with no history: the route keeps exactly the admitted timestamps that
/// lie in the window of the latest request; the admitted timestamps stay
/// in order; and the latest request is admitted exactly when fewer than
/// `limit` earlier admitted requests lie in its window, those being the
/// last ones admitted. So the window of any request holds at most `limit`
/// admitted requests.
pub proof fn law_limiter_admissions(rule: RateLimitRule, ts: Seq<u128>)
    requires
        rule.limit > 0,
        nondecreasing(ts),
    ensures
        nondecreasing(admitted_run(rule, ts)),
        ts.len() > 0 ==> admitted_run(rule, ts).len() == 0 || admitted_run(rule, ts).last() <= ts.last(),
        ts.len() > 0 ==> limiter_run(rule, Seq::empty(), ts) == prune(admitted_run(rule, ts), window_cutoff(rule, ts.last())),
        ts.len() > 0 ==> prune(admitted_run(rule, ts), window_cutoff(rule, ts.last())).len() <= rule.limit,
        ts.len() > 0 ==> ({
            let a = admitted_run(rule, ts.drop_last());
            let c = window_cutoff(rule, ts.last());
            &&& (limit_verdict(rule, limiter_run(rule, Seq::empty(), ts.drop_last()), ts.last()) is Allowed)
                == (prune(a, c).len() < rule.limit)
            &&& forall|j: int| 0 <= j < a.len() ==> (#[trigger] a[j] >= c <==> j >= a.len() - prune(a, c).len())
        }),
    decreases ts.len(),
{
    if ts.len() > 0 {
        let t = ts.drop_last();
        assert forall|i: int, j: int| 0 <= i <= j < t.len() implies t[i] <= t[j] by {
            assert(t[i] == ts[i] && t[j] == ts[j]);
        }
        law_limiter_admissions(rule, t);
        law_limiter_run(rule, t);
        law_limiter_run(rule, ts);
        let a = admitted_run(rule, t);
        let now = ts.last();
        let c = window_cutoff(rule, now);
        let h = limiter_run(rule, Seq::empty(), t);
        if t.len() > 0 {
            assert(t.last() == ts[t.len() - 1]);
            assert(t.last() <= now);
            let c0 = window_cutoff(rule, t.last());
            lemma_prune_twice(a, c0, c);
            assert(prune(h, c) == prune(a, c));
        } else {
            assert(a =~= Seq::<u128>::empty());
            assert(h =~= Seq::<u128>::empty());
        }
        // the admitted timestamps stay ordered
        lemma_prune(a, c);
        lemma_prune_dropped(a, c);
        let k = prune(a, c);
        let d = a.len() - k.len();
        assert forall|j: int| 0 <= j < a.len() implies (#[trigger] a[j] >= c <==> j >= d) by {
            if j >= d {
                assert(k[j - d] == a[j]);
                assert(k[0] == a[d]);
                assert(a[d] <= a[j]);
            }
        }
        let verdict_allowed = limit_verdict(rule, h, now) is Allowed;
        if verdict_allowed {
            assert(admitted_run(rule, ts) == a.push(now));
            assert forall|i: int, j: int| 0 <= i <= j < a.push(now).len() implies a.push(now)[i] <= a.push(now)[j] by {
                if j == a.len() && i < a.len() {
                    assert(a[i] <= a.last());
                }
            }
            lemma_prune_push(a, now, c);
        } else {
            assert(admitted_run(rule, ts) == a);
        }
    }
}

proof fn lemma_history_other<T>(before: Seq<(String, Vec<u128>)>, after: Seq<(String, Vec<u128>)>, i: int, key: Seq<char>)
    requires
        0 <= i < before.len(),
        before.len() == after.len(),
        before[i].0@ == key,
        forall|j: int| 0 <= j < before.len() ==> (#[trigger] after[j]).0@ == before[j].0@,
        forall|j: int| 0 <= j < before.len() && j != i ==> after[j] == before[j],
        key_index(before, key) == Some(i),
    ensures
        forall|k: Seq<char>| k != key ==> history_of(after, k) == history_of(before, k),
        history_of(after, key) == after[i].1@,
{
    assert forall|k: Seq<char>| k != key implies history_of(after, k) == history_of(before, k) by {
        lemma_same_keys(after, before, k);
        lemma_key_index(before, k);
    }
    lemma_same_keys(after, before, key);
}

impl RateLimitState {
    /// Decides whether a request on `route_key` at `now_ms` fits its rule:
    /// no rule admits it; a zero limit denies it; otherwise timestamps older
    /// than the window are dropped and the request is admitted (and recorded)
    /// only while fewer than `limit` remain.
    pub fn try_admit(&mut self, route_key: &str, now_ms: u128) -> (v: RateVerdict)
        ensures
            final(self).rules == old(self).rules,
            match lookup(old(self).rules@, route_key@) {
                None => v == RateVerdict::Allowed && final(self).history == old(self).history,
                Some(rule) => v == limit_verdict(rule, history_of(old(self).history@, route_key@), now_ms)
                    && history_of(final(self).history@, route_key@) == limit_history(
                        rule,
                        history_of(old(self).history@, route_key@),
                        now_ms,
                    ),
            },
            forall|k: Seq<char>|
                k != route_key@ ==> history_of(final(self).history@, k) == history_of(old(self).history@, k),
    {
        let key = chars_of(route_key);
        proof {
            lemma_key_index(self.rules@, key@);
        }
        let rule = match find_key(&self.rules, &key) {
            None => return RateVerdict::Allowed,
            Some(i) => self.rules[i].1,
        };
        if rule.limit == 0 {
            let retry = if rule.window_ms > 1 {
                rule.window_ms
            } else {
                1
            };
            return RateVerdict::Denied { limit: 0, window_ms: rule.window_ms, retry_after_ms: retry };
        }
        let window = rule.window_ms as u128;
        let cutoff = if now_ms >= window {
            now_ms - window
        } else {
            0
        };
        let ghost before = self.history@;
        proof {
            lemma_key_index(before, key@);
        }
        let i = match find_key(&self.history, &key) {
            Some(i) => i,
            None => {
                self.history.push((route_key.to_string(), Vec::new()));
                proof {
                    assert(self.history@.drop_last() =~= before);
                    assert forall|k: Seq<char>| true implies key_index(self.history@, k) == match key_index(before, k) {
                        Some(i) => Some(i),
                        None => if key@ == k {
                            Some(before.len() as int)
                        } else {
                            None
                        },
                    } by {
                        lemma_push_key(before, self.history@.last(), k);
                    }
                    assert forall|k: Seq<char>| k != key@ implies history_of(self.history@, k) == history_of(before, k) by {
                        lemma_key_index(before, k);
                        if let Some(a) = key_index(before, k) {
                            assert(self.history@[a] == before[a]);
                        }
                    }
                }
                self.history.len() - 1
            },
        };
        let ghost mid = self.history@;
        proof {
            lemma_key_index(mid, key@);
            assert(history_of(mid, key@) == history_of(before, key@));
        }
        let (name, mut times) = self.history.remove(i);
        let ghost start = times@;
        while times.len() > 0 && times[0] < cutoff
            invariant
                prune(times@, cutoff) == prune(start, cutoff),
            decreases times@.len(),
        {
            times.remove(0);
        }
        let verdict = if times.len() as u64 >= rule.limit as u64 {
            let oldest = times[0];
            let elapsed = if now_ms >= oldest {
                now_ms - oldest
            } else {
                0
            };
            let retry = if window >= elapsed {
                window - elapsed
            } else {
                0
            };
            let capped: u64 = if retry > u64::MAX as u128 {
                u64::MAX
            } else {
                retry as u64
            };
            RateVerdict::Denied { limit: rule.limit, window_ms: rule.window_ms, retry_after_ms: capped }
        } else {
            times.push(now_ms);
            RateVerdict::Allowed
        };
        self.history.insert(i, (name, times));
        proof {
            assert(forall|j: int| 0 <= j < mid.len() ==> (#[trigger] self.history@[j]).0@ == mid[j].0@);
            assert(forall|j: int| 0 <= j < mid.len() && j != i ==> self.history@[j] == mid[j]);
            lemma_history_other::<u128>(mid, self.history@, i as int, key@);
        }
        verdict
    }

    /// Installs a new rule set; a route keeps its timestamps only while the
    /// new rules still limit it.
    pub fn replace_rules(&mut self, next: Vec<(String, RateLimitRule)>)
        ensures
            final(self).rules == next,
            forall|k: Seq<char>|
                history_of(final(self).history@, k) == if lookup(next@, k) is Some {
                    history_of(old(self).history@, k)
                } else {
                    Seq::<u128>::empty()
                },
    {
        let ghost before = self.history@;
        let mut kept: Vec<(String, Vec<u128>)> = Vec::new();
        let mut old_history = Vec::new();
        std::mem::swap(&mut old_history, &mut self.history);
        let mut i: usize = 0;
        let total = old_history.len();
        proof {
            assert(before.len() == total);
            assert(before.subrange(0, 0) =~= Seq::<(String, Vec<u128>)>::empty());
            assert(before.subrange(0, before.len() as int) =~= before);
        }
        while old_history.len() > 0
            invariant
                before.len() <= usize::MAX,
                old_history@ == before.subrange(i as int, before.len() as int),
                i <= before.len(),
                old_history@.len() + i == before.len(),
                forall|k: Seq<char>|
                    (key_index(kept@, k) is Some) == (lookup(next@, k) is Some && key_index(
                        before.subrange(0, i as int),
                        k,
                    ) is Some),
                forall|k: Seq<char>|
                    history_of(kept@, k) == if lookup(next@, k) is Some {
                        history_of(before.subrange(0, i as int), k)
                    } else {
                        Seq::<u128>::empty()
                    },
            decreases old_history@.len(),
        {
            let entry = old_history.remove(0);
            let ghost pre = before.subrange(0, i as int);
            proof {
                assert(entry == before[i as int]);
                assert(before.subrange(0, i + 1) =~= pre.push(entry));
            }
            let name = chars_of(entry.0.as_str());
            proof {
                lemma_key_index(next@, name@);
            }
            let ghost kept_before = kept@;
            if find_key(&next, &name).is_some() {
                kept.push(entry);
                proof {
                    assert forall|k: Seq<char>| true implies history_of(kept@, k) == if lookup(next@, k) is Some {
                        history_of(pre.push(entry), k)
                    } else {
                        Seq::<u128>::empty()
                    } by {
                        lemma_push_key(kept_before, entry, k);
                        lemma_push_key(pre, entry, k);
                        lemma_key_index(kept_before, k);
                        lemma_key_index(pre, k);
                        let hk = history_of(kept_before, k);
                        let present = key_index(kept_before, k) is Some;
                        assert(entry.0@ == name@);
                        if let Some(a) = key_index(kept_before, k) {
                            assert(kept@[a] == kept_before[a]);
                        }
                        if let Some(a) = key_index(pre, k) {
                            assert(pre.push(entry)[a] == pre[a]);
                        }
                    }
                    assert forall|k: Seq<char>| true implies (key_index(kept@, k) is Some) == (lookup(next@, k) is Some && key_index(
                        pre.push(entry),
                        k,
                    ) is Some) by {
                        lemma_push_key(kept_before, entry, k);
                        lemma_push_key(pre, entry, k);
                    }
                }
            } else {
                proof {
                    assert forall|k: Seq<char>| true implies history_of(kept@, k) == if lookup(next@, k) is Some {
                        history_of(pre.push(entry), k)
                    } else {
                        Seq::<u128>::empty()
                    } by {
                        lemma_push_key(pre, entry, k);
                        lemma_key_index(pre, k);
                        if let Some(a) = key_index(pre, k) {
                            assert(pre.push(entry)[a] == pre[a]);
                        }
                    }
                    assert forall|k: Seq<char>| true implies (key_index(kept@, k) is Some) == (lookup(next@, k) is Some && key_index(
                        pre.push(entry),
                        k,
                    ) is Some) by {
                        lemma_push_key(pre, entry, k);
                    }
                }
            }
            proof {
                assert(old_history@ =~= before.subrange(i + 1, before.len() as int));
            }
            i += 1;
        }
        proof {
            assert(before.subrange(0, i as int) =~= before);
        }
        self.history = kept;
        self.rules = next;
    }
}

} // verus!
