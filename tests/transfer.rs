use atmdw::progress::{decimal_string, eta, ProgressSample};
use atmdw::throttle::{Throttle, ThrottleAction, CHUNK_SIZE, WINDOW_MICROS};

#[test]
fn throttle_sleeps_when_limit_reached_early() {
    let mut t = Throttle::new(1000, 0);
    assert_eq!(t.on_chunk(1024, 100), ThrottleAction::Sleep(999900));
    assert_eq!(t.window_bytes, 0);
    assert_eq!(t.window_start, 1000000);
}

#[test]
fn throttle_resume_opens_window_at_wake_time() {
    let mut t = Throttle::new(1000, 0);
    assert_eq!(t.on_chunk(1024, 100), ThrottleAction::Sleep(999900));
    t.resume(1000300);
    assert_eq!(t.window_start, 1000300);
    assert_eq!(t.window_bytes, 0);
    assert_eq!(t.on_chunk(10, 1000400), ThrottleAction::Continue);
    assert_eq!(t.window_bytes, 10);
}

#[test]
fn throttle_zero_limit_sleeps_after_every_chunk() {
    let mut t = Throttle::new(0, 0);
    assert_eq!(t.on_chunk(1, 5), ThrottleAction::Sleep(999995));
}

#[test]
fn throttle_counts_within_window() {
    let mut t = Throttle::new(5000, 0);
    assert_eq!(t.on_chunk(1024, 10), ThrottleAction::Continue);
    assert_eq!(t.on_chunk(1024, 20), ThrottleAction::Continue);
    assert_eq!(t.window_bytes, 2048);
    assert_eq!(t.window_start, 0);
}

#[test]
fn throttle_long_window_resets_without_sleep() {
    let mut t = Throttle::new(1000000, 0);
    assert_eq!(t.on_chunk(1024, 10), ThrottleAction::Continue);
    assert_eq!(t.on_chunk(1024, 1500000), ThrottleAction::Continue);
    assert_eq!(t.window_bytes, 0);
    assert_eq!(t.window_start, 1500000);
}

#[test]
fn throttle_duration_lower_bound() {
    let limit: u64 = 10240;
    let total: u64 = 102400;
    let mut t = Throttle::new(limit, 0);
    let mut now: u64 = 0;
    let mut sent: u64 = 0;
    while sent < total {
        now += 1000;
        if now < t.window_start {
            now = t.window_start;
        }
        if let ThrottleAction::Sleep(d) = t.on_chunk(CHUNK_SIZE, now) {
            now += d + 250;
            t.resume(now);
        }
        sent += CHUNK_SIZE;
    }
    let seconds = now as f64 / WINDOW_MICROS as f64;
    assert!(seconds >= total as f64 / limit as f64 - 1.0);
}

#[test]
fn progress_known_total() {
    let s = ProgressSample::take(1048576, 2000, Some(4194304));
    assert_eq!(s.speed, 524288);
    assert_eq!(s.eta_ms, Some(6000));
    assert_eq!(s.eta_text(), "6s");
}

#[test]
fn progress_unknown_total_is_indeterminate() {
    for (bytes, ms) in [(0u64, 0u64), (100, 0), (5000, 1234), (u64::MAX, 1)] {
        let s = ProgressSample::take(bytes, ms, None);
        assert_eq!(s.eta_ms, None);
        assert_eq!(s.eta_text(), "-");
    }
}

#[test]
fn progress_nothing_yet() {
    let s = ProgressSample::take(0, 500, Some(10));
    assert_eq!(s.speed, 0);
    assert_eq!(s.eta_ms, None);
    let s = ProgressSample::take(100, 0, None);
    assert_eq!(s.speed, 100000);
}

#[test]
fn progress_past_total() {
    let s = ProgressSample::take(200, 1000, Some(100));
    assert_eq!(s.eta_ms, Some(0));
    assert_eq!(s.eta_text(), "0s");
}

#[test]
fn eta_labels() {
    assert_eq!(eta(None), "-");
    assert_eq!(eta(Some(0)), "0s");
    assert_eq!(eta(Some(59600)), "60s");
    assert_eq!(eta(Some(90000)), "2m");
    assert_eq!(eta(Some(5400000)), "2h");
    assert_eq!(eta(Some(3599999)), "60m");
}

#[test]
fn decimal_rendering() {
    assert_eq!(decimal_string(0), "0");
    assert_eq!(decimal_string(1234567890), "1234567890");
    assert_eq!(decimal_string(u64::MAX), u64::MAX.to_string());
}
