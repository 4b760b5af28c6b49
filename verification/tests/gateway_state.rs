use albert::gateway::config::check_bundle_version;
use albert::gateway::state::{percentile, RouteMetrics, ROUTE_LATENCY_RESERVOIR};

#[test]
fn percentile_of_empty_slice_is_zero() {
    assert_eq!(percentile(&[], 50), 0);
    assert_eq!(percentile(&[], 95), 0);
}

#[test]
fn percentile_picks_nearest_rank() {
    // [10, 20, 30, 40, 50]: p50 is the 3rd sample, p95 the 5th.
    let samples = [10u64, 20, 30, 40, 50];
    assert_eq!(percentile(&samples, 50), 30);
    assert_eq!(percentile(&samples, 95), 50);
    assert_eq!(percentile(&samples, 100), 50);
    assert_eq!(percentile(&samples, 20), 10);
}

#[test]
fn percentile_handles_single_sample() {
    assert_eq!(percentile(&[42], 50), 42);
    assert_eq!(percentile(&[42], 95), 42);
}

#[test]
fn route_metrics_tracks_count_and_percentiles() {
    let mut rm = RouteMetrics::default();
    for ms in [10u64, 30, 50, 20, 40] {
        rm.record(ms);
    }
    assert_eq!(rm.count, 5);
    assert_eq!(rm.total_latency_ms, 150);
    assert_eq!(rm.average_latency_ms(), 30);
    assert_eq!(rm.max_latency_ms, 50);
    assert_eq!(rm.p50_ms, 30);
    assert_eq!(rm.p95_ms, 50);
}

#[test]
fn route_metrics_samples_are_bounded() {
    let mut rm = RouteMetrics::default();
    for i in 0..(ROUTE_LATENCY_RESERVOIR * 2) as u64 {
        rm.record(i);
    }
    assert_eq!(rm.count, (ROUTE_LATENCY_RESERVOIR * 2) as u64);
    assert_eq!(rm.samples.len(), ROUTE_LATENCY_RESERVOIR);
    let smallest = rm.samples.iter().copied().min().unwrap();
    assert!(smallest >= ROUTE_LATENCY_RESERVOIR as u64, "oldest samples not evicted: min={smallest}");
}

#[test]
fn percentile_is_monotone_in_rank() {
    let samples = [3u64, 5, 8, 13, 21, 34];
    let mut last = 0;
    for pct in 0..=100u8 {
        let v = percentile(&samples, pct);
        assert!(v >= last);
        assert!(samples.contains(&v));
        last = v;
    }
}

#[test]
fn bundle_versions_must_share_the_major_part() {
    assert!(check_bundle_version("1.0").is_ok());
    assert!(check_bundle_version("1.7").is_ok());
    assert!(check_bundle_version("1").is_ok());
    assert_eq!(
        check_bundle_version("2.0").unwrap_err(),
        "bundle version 2.0 is not compatible with gateway 1.0"
    );
    assert!(check_bundle_version("").is_err());
}
