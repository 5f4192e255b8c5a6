use open_sentry::error::AppError;
use open_sentry::operations::{
    admit_ingest, metrics_authorized, retention_tick_seconds, retention_window_days,
    IngestRateLimiter, RuntimeMetrics, WINDOW_MILLIS,
};

#[test]
fn limiter_rejects_and_resets() {
    let mut limiter = IngestRateLimiter::new(2);
    let now: u64 = 1_000;
    assert!(limiter.check("dsn", now));
    assert!(limiter.check("dsn", now));
    assert!(!limiter.check("dsn", now));
    assert!(limiter.check("dsn", now + 61_000));
}

#[test]
fn limiter_keeps_credentials_apart() {
    let mut limiter = IngestRateLimiter::new(1);
    assert!(limiter.check("a", 0));
    assert!(!limiter.check("a", 10));
    assert!(limiter.check("b", 10));
    assert!(!limiter.check("b", 20));
}

#[test]
fn limiter_window_restarts_exactly_after_a_minute() {
    let mut limiter = IngestRateLimiter::new(1);
    assert!(limiter.check("k", 5_000));
    assert!(!limiter.check("k", 5_000 + WINDOW_MILLIS - 1));
    assert!(limiter.check("k", 5_000 + WINDOW_MILLIS));
    assert!(!limiter.check("k", 5_000 + WINDOW_MILLIS));
}

#[test]
fn limiter_with_zero_limit_admits_one() {
    let mut limiter = IngestRateLimiter::new(0);
    assert!(limiter.check("k", 0));
    assert!(!limiter.check("k", 1));
}

#[test]
fn limiter_ignores_a_clock_that_goes_back() {
    let mut limiter = IngestRateLimiter::new(1);
    assert!(limiter.check("k", 100_000));
    assert!(!limiter.check("k", 0));
}

#[test]
fn metrics_are_prometheus_text() {
    let mut m = RuntimeMetrics::default();
    m.request();
    m.accepted(2);
    m.rate_limited();
    let text = m.render();
    assert!(text.contains("open_sentry_ingest_requests_total 1"));
    assert!(text.contains("open_sentry_events_accepted_total 2"));
    assert!(text.contains("open_sentry_ingest_rate_limited_total 1"));
}

#[test]
fn metrics_render_every_counter_in_order() {
    let mut m = RuntimeMetrics::default();
    m.auth_failure();
    m.auth_failure();
    m.retention_deleted(40);
    m.retention_deleted(2);
    let expected = [
        "# HELP open_sentry_ingest_requests_total Ingest HTTP requests.\n# TYPE open_sentry_ingest_requests_total counter\nopen_sentry_ingest_requests_total 0\n",
        "# HELP open_sentry_events_accepted_total Accepted envelope items and events.\n# TYPE open_sentry_events_accepted_total counter\nopen_sentry_events_accepted_total 0\n",
        "# HELP open_sentry_ingest_rate_limited_total Rate-limited ingest requests.\n# TYPE open_sentry_ingest_rate_limited_total counter\nopen_sentry_ingest_rate_limited_total 0\n",
        "# HELP open_sentry_auth_failures_total Failed authentication attempts.\n# TYPE open_sentry_auth_failures_total counter\nopen_sentry_auth_failures_total 2\n",
        "# HELP open_sentry_retention_deleted_rows_total Rows deleted by retention.\n# TYPE open_sentry_retention_deleted_rows_total counter\nopen_sentry_retention_deleted_rows_total 42\n",
    ]
    .concat();
    assert_eq!(m.render(), expected);
}

#[test]
fn metrics_counters_wrap_around() {
    let mut m = RuntimeMetrics::default();
    m.accepted(u64::MAX);
    m.accepted(2);
    assert!(m.render().contains("open_sentry_events_accepted_total 1\n"));
}

#[test]
fn admit_ingest_counts_requests_and_refusals() {
    let mut limiter = IngestRateLimiter::new(1);
    let mut metrics = RuntimeMetrics::default();
    assert!(admit_ingest(&mut limiter, &mut metrics, "key", 0).is_ok());
    assert!(matches!(
        admit_ingest(&mut limiter, &mut metrics, "key", 1),
        Err(AppError::RateLimited)
    ));
    let text = metrics.render();
    assert!(text.contains("open_sentry_ingest_requests_total 2\n"));
    assert!(text.contains("open_sentry_ingest_rate_limited_total 1\n"));
}

#[test]
fn metrics_need_the_exact_bearer_key() {
    assert!(metrics_authorized(Some("Bearer metrics-key"), "metrics-key"));
    assert!(!metrics_authorized(Some("Bearer metrics-key2"), "metrics-key"));
    assert!(!metrics_authorized(Some("metrics-key"), "metrics-key"));
    assert!(!metrics_authorized(None, "metrics-key"));
}

#[test]
fn retention_schedule_has_floors() {
    assert_eq!(retention_window_days(0), 1);
    assert_eq!(retention_window_days(-5), 1);
    assert_eq!(retention_window_days(30), 30);
    assert_eq!(retention_window_days(1i64 << 32), 0);
    assert_eq!(retention_tick_seconds(10), 60);
    assert_eq!(retention_tick_seconds(3_600), 3_600);
}

#[test]
fn accepted_counts_add_up() {
    let mut one = RuntimeMetrics::default();
    one.accepted(u64::MAX - 1);
    one.accepted(5);
    let mut two = RuntimeMetrics::default();
    two.accepted((u64::MAX - 1).wrapping_add(5));
    assert_eq!(one.render(), two.render());
    let before = two.render();
    two.accepted(0);
    assert_eq!(two.render(), before);
}

#[test]
fn a_window_admits_at_most_the_limit() {
    let mut limiter = IngestRateLimiter::new(3);
    let admitted = (0..50u64).filter(|i| limiter.check("k", 1_000 + i * 1_000)).count();
    assert_eq!(admitted, 3);
}
