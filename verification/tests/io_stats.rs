use segs::io_stats::{IoStats, STATS_RATE_WINDOW_NANOS};

#[test]
fn the_window_keeps_only_recent_frames() {
    let mut stats = IoStats::new(5);
    assert_eq!(stats.last_time, 5);
    stats.record_success(1_000);
    stats.record_success(2_000);
    stats.record_success(STATS_RATE_WINDOW_NANOS + 1_000);
    // The first frame is exactly one window old and leaves; the others remain.
    assert_eq!(stats.recent_frames.len(), 2);
    assert_eq!(stats.count, 3);
    assert_eq!(stats.last_time, STATS_RATE_WINDOW_NANOS + 1_000);
    assert_eq!(stats.update_window(STATS_RATE_WINDOW_NANOS + 1_999), 2);
    assert_eq!(stats.update_window(STATS_RATE_WINDOW_NANOS + 2_000), 1);
    assert_eq!(stats.update_window(3 * STATS_RATE_WINDOW_NANOS), 0);
}

#[test]
fn counters_saturate() {
    let mut stats = IoStats::new(0);
    stats.record_error();
    stats.record_error();
    assert_eq!(stats.errors, 2);
    stats.count = u32::MAX;
    stats.errors = u32::MAX;
    stats.record_success(1);
    stats.record_error();
    assert_eq!(stats.count, u32::MAX);
    assert_eq!(stats.errors, u32::MAX);
}
