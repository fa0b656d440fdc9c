use ffmonitor::charts::{clock, format_duration, series, BitrateStats, OneLineStats, Series};
use ffmonitor::duration::Duration;
use ffmonitor::ffmpeg::{Binary64, Progress};

fn seconds(s: i64) -> Duration {
    Duration::from_parts(s, 0).unwrap()
}

#[test]
fn the_clock_shows_hours_minutes_and_seconds() {
    assert_eq!(clock(0), "00:00:00");
    assert_eq!(clock(59), "00:00:59");
    assert_eq!(clock(60), "00:01:00");
    assert_eq!(clock(3661), "01:01:01");
    assert_eq!(clock(86_399), "23:59:59");
    assert_eq!(clock(360_000), "100:00:00");
    assert_eq!(clock(u64::MAX), "5124095576030431:00:15");
}

#[test]
fn the_clock_agrees_with_formatting_by_std() {
    for s in [0u64, 1, 9, 10, 599, 600, 3599, 3600, 35_999, 36_000, 359_999, 1_234_567, u64::MAX] {
        assert_eq!(clock(s), format!("{:02}:{:02}:{:02}", s / 3600, s / 60 % 60, s % 60));
    }
}

#[test]
fn a_span_is_formatted_by_its_whole_seconds_without_sign() {
    assert_eq!(format_duration(Duration::zero()), "00:00:00");
    assert_eq!(format_duration(Duration::from_parts(3723, 999_999_999).unwrap()), "01:02:03");
    assert_eq!(format_duration(Duration::from_parts(-3723, -5).unwrap()), "01:02:03");
    assert_eq!(format_duration(Duration::from_parts(0, -5).unwrap()), "00:00:00");
    assert_eq!(format_duration(Duration::from_parts(i64::MIN, 0).unwrap()), "2562047788015215:30:08");
}

#[test]
fn a_summary_of_nothing_has_an_empty_extent() {
    let stats = OneLineStats::new(vec![]);
    assert_eq!(stats.data, vec![]);
    assert_eq!(stats.x_max, Duration::zero());
    assert_eq!(stats.y_min, u64::MAX);
    assert_eq!(stats.y_max, 0);
    assert_eq!(stats.x_labels, vec!["00:00:00"; 5]);
}

#[test]
fn a_summary_holds_the_extent_of_its_series() {
    let history = vec![(seconds(1), 30), (seconds(7), 10), (seconds(4), 50), (seconds(6), 20)];
    let stats = OneLineStats::new(history.clone());
    assert_eq!(stats.data, history);
    assert_eq!(stats.x_max, seconds(7));
    assert_eq!(stats.y_min, 10);
    assert_eq!(stats.y_max, 50);
}

#[test]
fn the_time_axis_is_labelled_at_its_quarters() {
    let stats = OneLineStats::new(vec![(seconds(1), 1), (seconds(4000), 2)]);
    assert_eq!(stats.x_labels, vec!["00:00:00", "00:16:40", "00:33:20", "00:50:00", "01:06:40"]);
    let odd = OneLineStats::new(vec![(Duration::from_parts(9, 999_999_999).unwrap(), 1)]);
    assert_eq!(odd.x_labels, vec!["00:00:00", "00:00:02", "00:00:04", "00:00:07", "00:00:09"]);
}

#[test]
fn a_series_that_ends_before_it_starts_has_an_empty_time_axis() {
    let stats = OneLineStats::new(vec![(seconds(-5), 3)]);
    assert_eq!(stats.x_max, Duration::zero());
    assert_eq!(stats.y_min, 3);
    assert_eq!(stats.y_max, 3);
}

#[test]
fn bit_patterns_of_numbers_that_are_not_negative_order_as_the_numbers() {
    let values = [0.0f64, 0.5, 1.0, 23.976, 24.0, 1e9, f64::MAX, f64::INFINITY];
    let history: Vec<(Duration, u64)> =
        values.iter().rev().map(|v| (Duration::zero(), v.to_bits())).collect();
    let stats = OneLineStats::new(history);
    assert_eq!(f64::from_bits(stats.y_min), 0.0);
    assert_eq!(f64::from_bits(stats.y_max), f64::INFINITY);
    let inner = OneLineStats::new(vec![
        (Duration::zero(), 24.0f64.to_bits()),
        (Duration::zero(), 23.976f64.to_bits()),
        (Duration::zero(), 25.5f64.to_bits()),
    ]);
    assert_eq!(f64::from_bits(inner.y_min), 23.976);
    assert_eq!(f64::from_bits(inner.y_max), 25.5);
}

#[test]
fn the_bit_rate_summary_has_a_level_baseline_over_the_time_axis() {
    let history = vec![(seconds(2), 900), (seconds(10), 1100), (seconds(6), 1000)];
    let stats = BitrateStats::new(1000, history.clone());
    assert_eq!(stats.bitrate_data, history);
    assert_eq!(stats.baseline_data, [(Duration::zero(), 1000), (seconds(10), 1000)]);
    assert_eq!(stats.x_max, seconds(10));
    assert_eq!(stats.x_labels, vec!["00:00:00", "00:00:02", "00:00:05", "00:00:07", "00:00:10"]);
    assert_eq!(stats.y_min, 900);
    assert_eq!(stats.y_max, 1100);
}

#[test]
fn the_bit_rate_summary_of_nothing() {
    let stats = BitrateStats::new(64, vec![]);
    assert_eq!(stats.baseline_data, [(Duration::zero(), 64), (Duration::zero(), 64)]);
    assert_eq!(stats.y_min, u64::MAX);
    assert_eq!(stats.y_max, 0);
}

#[test]
fn a_series_follows_one_field_of_the_records() {
    let first = Progress {
        bitrate: 1000,
        fps: Binary64::from_bits(24.0f64.to_bits()),
        speed: Binary64::from_bits(1.5f64.to_bits()),
        ..Progress::default()
    };
    let second = Progress {
        bitrate: 2000,
        fps: Binary64::from_bits(25.0f64.to_bits()),
        speed: Binary64::from_bits(0.5f64.to_bits()),
        ..Progress::default()
    };
    let history = vec![(seconds(1), first), (seconds(2), second)];
    assert_eq!(series(Series::Bitrate, &history), vec![(seconds(1), 1000), (seconds(2), 2000)]);
    assert_eq!(
        series(Series::Fps, &history),
        vec![(seconds(1), 24.0f64.to_bits()), (seconds(2), 25.0f64.to_bits())]
    );
    assert_eq!(
        series(Series::Speed, &history),
        vec![(seconds(1), 1.5f64.to_bits()), (seconds(2), 0.5f64.to_bits())]
    );
    assert_eq!(series(Series::Fps, &[]), vec![]);
}
