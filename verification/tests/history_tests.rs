use gidterm::history::{format_eta, TaskMetricHistory};
use gidterm::strmap::StrMap;

fn loss(value: i64) -> StrMap<i64> {
    let mut m = StrMap::new();
    m.insert("loss".to_string(), value);
    m
}

#[test]
fn test_format_eta() {
    assert_eq!(format_eta(45), "45s");
    assert_eq!(format_eta(125), "2m 5s");
    assert_eq!(format_eta(3725), "1h 2m");
}

#[test]
fn format_eta_edges() {
    assert_eq!(format_eta(0), "0s");
    assert_eq!(format_eta(59), "59s");
    assert_eq!(format_eta(60), "1m 0s");
    assert_eq!(format_eta(3599), "59m 59s");
    assert_eq!(format_eta(3600), "1h 0m");
}

#[test]
fn test_record_and_retrieve() {
    let mut history = TaskMetricHistory::new(0);
    history.record(0, 100_000, loss(500_000));
    history.record(1, 200_000, loss(300_000));
    assert_eq!(history.snapshots().len(), 2);
    assert_eq!(history.current_progress(), 200_000);
}

#[test]
fn test_metric_values() {
    let mut history = TaskMetricHistory::new(0);
    for i in 0..5u32 {
        history.record(2 * i as u64, i * 200_000, loss(1_000_000 - i as i64 * 200_000));
    }
    let losses = history.metric_values("loss", 5);
    assert_eq!(losses.len(), 5);
    assert_eq!(losses[0], 1_000_000);
    assert_eq!(losses[4], 200_000);
    assert_eq!(history.metric_values("loss", 2), vec![400_000, 200_000]);
    assert!(history.metric_values("accuracy", 5).is_empty());
    assert_eq!(history.progress_values(3), vec![400_000, 600_000, 800_000]);
    assert_eq!(history.latest_metric("loss"), Some(200_000));
    assert_eq!(history.latest_metric("accuracy"), None);
}

#[test]
fn test_trend_decreasing() {
    let mut history = TaskMetricHistory::new(0);
    for i in 0..10u32 {
        history.record(2 * i as u64, i * 100_000, loss(1_000_000 - i as i64 * 100_000));
    }
    let trend = history.trend("loss", 10).unwrap();
    assert!(trend < 0, "Loss trend should be negative (decreasing)");
    assert_eq!(trend, -100_000);
}

#[test]
fn trend_is_the_least_squares_slope_rounded_down() {
    let mut history = TaskMetricHistory::new(0);
    for (i, y) in [0i64, 1, 0, 2].iter().enumerate() {
        history.record(i as u64, i as u32 * 10_000, loss(*y));
    }
    // slope = (4 * 7 - 6 * 3) / (4 * 14 - 36) = 10 / 20
    assert_eq!(history.trend("loss", 4), Some(0));
    let mut falling = TaskMetricHistory::new(0);
    for (i, y) in [2i64, 0, 1, 0].iter().enumerate() {
        falling.record(i as u64, i as u32 * 10_000, loss(*y));
    }
    // slope = (4 * 2 - 6 * 3) / 20 = -1/2, rounded down
    assert_eq!(falling.trend("loss", 4), Some(-1));
    assert_eq!(falling.trend("loss", 1), None);
    assert_eq!(falling.trend("other", 4), None);
}

#[test]
fn test_plateau_detection() {
    let mut history = TaskMetricHistory::new(0);
    for i in 0..10u32 {
        history.record(2 * i as u64, i * 100_000, loss(500_100 + i as i64 * 100));
    }
    assert!(history.is_plateaued("loss", 10, 10_000));
    assert!(!history.is_plateaued("loss", 10, 900));
    assert!(history.is_plateaued("loss", 10, 901));
    assert!(!history.is_plateaued("loss", 11, 10_000));
    assert!(!history.is_plateaued("loss", 0, 10_000));
}

#[test]
fn test_eta_estimation() {
    let mut history = TaskMetricHistory::new(0);
    history.record(0, 0, StrMap::new());
    history.record(50, 500_000, StrMap::new());
    let eta = history.estimate_remaining();
    assert!(eta.is_some());
    let eta = eta.unwrap();
    assert!(eta < 500, "ETA should be reasonable: {:?}", eta);
    assert_eq!(eta, 50);
    assert_eq!(history.progress_rate(), Some(10_000_000));
}

#[test]
fn eta_needs_progress_strictly_between_nought_and_one() {
    let mut history = TaskMetricHistory::new(0);
    assert_eq!(history.estimate_remaining(), None);
    history.record(0, 0, StrMap::new());
    assert_eq!(history.estimate_remaining(), None);
    history.record(10, 1_000_000, StrMap::new());
    assert_eq!(history.estimate_remaining(), None);
    let mut back = TaskMetricHistory::new(0);
    back.record(0, 500_000, StrMap::new());
    back.record(10, 400_000, StrMap::new());
    assert_eq!(back.estimate_remaining(), None);
    assert_eq!(back.progress_rate(), Some(-10_000_000));
    let mut slow = TaskMetricHistory::new(0);
    slow.record(0, 1, StrMap::new());
    slow.record(604_800_000, 500_001, StrMap::new());
    assert_eq!(slow.estimate_remaining(), Some(604_798_790));
    let mut slower = TaskMetricHistory::new(0);
    slower.record(0, 0, StrMap::new());
    slower.record(604_800_001, 500_000, StrMap::new());
    assert_eq!(slower.estimate_remaining(), None);
}

#[test]
fn record_skips_repeats_within_a_second() {
    let mut history = TaskMetricHistory::new(0);
    history.record(5_000, 300_000, StrMap::new());
    for t in 0..20u64 {
        history.record(5_000 + t * 50, 300_000, StrMap::new());
    }
    assert_eq!(history.snapshots().len(), 1);
    history.record(5_999, 300_999, StrMap::new());
    assert_eq!(history.snapshots().len(), 1);
    history.record(5_999, 301_000, StrMap::new());
    assert_eq!(history.snapshots().len(), 2);
    history.record(6_999, 301_000, StrMap::new());
    assert_eq!(history.snapshots().len(), 3);
}

#[test]
fn record_keeps_the_last_five_hundred() {
    let mut history = TaskMetricHistory::new(0);
    for i in 0..600u64 {
        history.record(i * 1_000, 0, loss(i as i64));
    }
    assert_eq!(history.snapshots().len(), 500);
    assert_eq!(history.snapshots()[0].timestamp, 100_000);
    assert_eq!(history.latest_metric("loss"), Some(599));
    assert_eq!(history.elapsed(1_234), 1_234);
}
