use ffmonitor::charts::Series;
use ffmonitor::duration::Duration;
use ffmonitor::ffmpeg::{Binary64, Progress};
use ffmonitor::monitor::{size_unit, Monitor, SizeUnit};

fn at(millis: i64) -> Duration {
    Duration::from_parts(0, millis * 1_000_000).unwrap()
}

fn report(frame: u64, fps: f64, bitrate: u64, speed: f64) -> Progress {
    Progress {
        frame,
        fps: Binary64::from_bits(fps.to_bits()),
        bitrate,
        speed: Binary64::from_bits(speed.to_bits()),
        ..Progress::default()
    }
}

#[test]
fn a_new_monitor_has_seen_nothing() {
    let monitor = Monitor::new(128_000);
    assert_eq!(monitor.progress(), Progress::default());
    assert_eq!(monitor.timestamp(), Duration::zero());
    assert!(monitor.history().is_empty());
    assert_eq!(monitor.fps().create(80).data, &[] as &[u64]);
    assert_eq!(monitor.speed().create(80).data, &[] as &[u64]);
    assert_eq!(monitor.bitrate().create().baseline, [(0, 128_000), (0, 128_000)]);
    assert!(monitor.into_history().is_empty());
}

#[test]
fn each_record_reaches_the_history_and_every_view() {
    let mut monitor = Monitor::new(1000);
    let first = report(12, 24.0, 900, 1.5);
    let second = report(24, 23.5, 1100, 0.75);
    monitor.record(at(500), first, 2400, 150);
    monitor.record(at(1000), second, 2350, 75);
    assert_eq!(monitor.progress(), second);
    assert_eq!(monitor.timestamp(), at(1000));
    assert_eq!(monitor.history(), &[(at(500), first), (at(1000), second)]);
    let fps = monitor.fps().create(80);
    assert_eq!(fps.data, &[2400, 2350]);
    assert_eq!(fps.max, 2400);
    assert_eq!(fps.current, second.fps);
    let speed = monitor.speed().create(80);
    assert_eq!(speed.data, &[150, 75]);
    assert_eq!(speed.max, 150);
    assert_eq!(speed.current, second.speed);
    let bitrate = monitor.bitrate().create();
    assert_eq!(bitrate.history, &[(1, 900), (2, 1100)]);
    assert_eq!(bitrate.baseline, [(1, 1000), (2, 1000)]);
    assert_eq!(bitrate.current, 1100);
    assert_eq!(bitrate.min, 900);
    assert_eq!(bitrate.max, 1100);
    assert_eq!(monitor.into_history(), vec![(at(500), first), (at(1000), second)]);
}

#[test]
fn the_history_keeps_every_record_while_the_views_keep_a_window() {
    let mut monitor = Monitor::new(0);
    for i in 0..1500u64 {
        monitor.record(at(i as i64), report(i, i as f64, i, 1.0), i, 100);
    }
    assert_eq!(monitor.history().len(), 1500);
    assert_eq!(monitor.fps().create(u16::MAX).data.len(), 500);
    assert_eq!(monitor.bitrate().create().history.len(), 1000);
    assert_eq!(monitor.bitrate().create().min, 500);
    assert_eq!(monitor.bitrate().create().max, 1499);
    let history = monitor.into_history();
    for (i, (timestamp, record)) in history.iter().enumerate() {
        assert_eq!(*timestamp, at(i as i64));
        assert_eq!(record.frame, i as u64);
    }
}

#[test]
fn tabs_move_left_and_right_and_stop_at_the_ends() {
    assert_eq!(Series::Bitrate.index(), 0);
    assert_eq!(Series::Fps.index(), 1);
    assert_eq!(Series::Speed.index(), 2);
    assert_eq!(Series::Bitrate.left(), Series::Bitrate);
    assert_eq!(Series::Fps.left(), Series::Bitrate);
    assert_eq!(Series::Speed.left(), Series::Fps);
    assert_eq!(Series::Bitrate.right(), Series::Fps);
    assert_eq!(Series::Fps.right(), Series::Speed);
    assert_eq!(Series::Speed.right(), Series::Speed);
    assert_eq!(Series::Bitrate.title(), "Bitrate");
    assert_eq!(Series::Fps.title(), "FPS");
    assert_eq!(Series::Speed.title(), "Speed");
}

#[test]
fn sizes_are_shown_in_the_greatest_unit_that_they_exceed() {
    assert_eq!(size_unit(0), SizeUnit::Bytes);
    assert_eq!(size_unit(1_000), SizeUnit::Bytes);
    assert_eq!(size_unit(1_001), SizeUnit::Kilo);
    assert_eq!(size_unit(1_000_000), SizeUnit::Kilo);
    assert_eq!(size_unit(1_000_001), SizeUnit::Mega);
    assert_eq!(size_unit(1_000_000_000), SizeUnit::Mega);
    assert_eq!(size_unit(1_000_000_001), SizeUnit::Giga);
    assert_eq!(size_unit(u64::MAX), SizeUnit::Giga);
    assert_eq!(SizeUnit::Bytes.divisor(), 1);
    assert_eq!(SizeUnit::Kilo.divisor(), 1_000);
    assert_eq!(SizeUnit::Mega.divisor(), 1_000_000);
    assert_eq!(SizeUnit::Giga.divisor(), 1_000_000_000);
    assert_eq!(SizeUnit::Bytes.suffix(), "B");
    assert_eq!(SizeUnit::Kilo.suffix(), "KiB");
    assert_eq!(SizeUnit::Mega.suffix(), "MiB");
    assert_eq!(SizeUnit::Giga.suffix(), "GiB");
}
