use event_stats::window::{HOUR_NANOS, MINUTES_IN_HOUR, MINUTE_NANOS};
use event_stats::{HourlyEventStatistic, HourlyStat};
use rand::rngs::StdRng;
use rand::{Rng, SeedableRng};
use std::time::Duration;

const MINUTE: Duration = Duration::from_secs(60);
const HOUR: Duration = Duration::from_secs(60 * 60);

fn rate(count: u64) -> f64 {
    count as f64 / MINUTES_IN_HOUR as f64
}

fn started() -> (HourlyEventStatistic, std::sync::Arc<quanta::Mock>) {
    let (stats, mock) = HourlyEventStatistic::with_mocked_clock();
    mock.increment(HOUR * 24);
    (stats, mock)
}

#[test]
fn fresh_estimator_has_zero_rates() {
    let (stats, _mock) = started();
    assert!(stats.all_hourly_counts().is_empty());
    assert_eq!(stats.hourly_count("event"), 0);
    assert_eq!(stats.hourly_count(""), 0);
    assert_eq!(stats.lifetime_count("event"), 0);
    assert_eq!(rate(stats.hourly_count("event")), 0.0);
}

#[test]
fn real_clock_counts_a_fresh_event() {
    let mut stats = HourlyEventStatistic::new();
    stats.inc_event("start");
    assert_eq!(stats.hourly_count("start"), 1);
    assert_eq!(stats.lifetime_count("start"), 1);
}

#[test]
fn once_a_minute_for_an_hour() {
    let (mut stats, mock) = started();
    let events = ["event 1", "event 2", "event 3", "event 4"];
    for _ in 0..60 {
        mock.increment(MINUTE);
        for event in events.iter() {
            stats.inc_event(event);
        }
    }
    let all = stats.all_hourly_counts();
    assert_eq!(all.len(), 4);
    for (name, count) in all.iter() {
        assert_eq!(*count, 60, "{name}");
        assert_eq!(rate(*count), 1.0);
    }

    // The oldest recording is 59 minutes old: it stays in the window until a
    // whole hour has passed since it was taken.
    mock.increment(Duration::from_nanos(1));
    for event in events.iter() {
        assert_eq!(stats.hourly_count(event), 60);
    }
    mock.increment(MINUTE - Duration::from_nanos(2));
    for event in events.iter() {
        assert_eq!(stats.hourly_count(event), 60);
    }
    mock.increment(Duration::from_nanos(1));
    for (name, count) in stats.all_hourly_counts() {
        assert_eq!(count, 59, "{name}");
        assert!(rate(count) < 1.0, "expected a rate under 1 for {name}");
    }
}

#[test]
fn vanished_after_hour() {
    let (mut stats, mock) = started();
    stats.inc_event("event");
    assert!(rate(stats.hourly_count("event")) > 0.0);
    assert_eq!(stats.hourly_count("event"), 1);

    mock.increment(HOUR - Duration::from_nanos(1));
    assert_eq!(stats.hourly_count("event"), 1);
    mock.increment(Duration::from_nanos(1));
    assert_eq!(stats.hourly_count("event"), 0);
    assert_eq!(rate(stats.hourly_count("event")), 0.0);
    assert_eq!(stats.lifetime_count("event"), 1);
}

#[test]
fn other_names_are_not_touched() {
    let (mut stats, mock) = started();
    for _ in 0..100 {
        stats.inc_event("A");
        mock.increment(Duration::from_secs(7));
    }
    assert_eq!(stats.hourly_count("B"), 0);
    assert_eq!(stats.hourly_count("a"), 0);
    assert_eq!(stats.hourly_count("A"), 100);
    assert_eq!(stats.all_hourly_counts().len(), 1);
}

#[test]
fn aggregate_matches_each_name() {
    let (mut stats, mock) = started();
    let names = ["x", "y", "z", "x", "x", "y"];
    for name in names.iter() {
        stats.inc_event(name);
        mock.increment(Duration::from_secs(600));
    }
    let all = stats.all_hourly_counts();
    assert_eq!(all.len(), 3);
    for (name, count) in all.iter() {
        assert_eq!(*count, stats.hourly_count(name));
        assert_eq!(all.iter().filter(|(n, _)| n == name).count(), 1);
    }
    let x = all.iter().find(|(n, _)| n == "x").unwrap();
    // x was recorded at 0, 30 and 40 minutes; the query is at 60 minutes.
    assert_eq!(x.1, 2);
}

#[test]
fn random_interleaving_within_an_hour() {
    let (mut stats, mock) = started();
    let mut rng = StdRng::seed_from_u64(42);
    let mut events = [("event 0", 0u64), ("event 1", 0u64)];
    let mut total = Duration::default();
    for _ in 0..rng.gen_range(0..(60 * 60)) {
        let gap = Duration::from_micros(rng.gen_range(0..1_000_000));
        total += gap;
        mock.increment(gap);
        let (key, count) = &mut events[rng.gen_range(0..2)];
        stats.inc_event(key);
        *count += 1;
    }
    assert!(total < HOUR);

    let all = stats.all_hourly_counts();
    let recorded = events.iter().filter(|(_, c)| *c > 0).count();
    assert_eq!(all.len(), recorded);
    for (event, count) in events {
        let expected = count as f64 / 60.0;
        assert!((rate(stats.hourly_count(event)) - expected).abs() < f64::EPSILON * 64.0);
        if count > 0 {
            let listed = all.iter().find(|(n, _)| n == event).unwrap();
            assert!((rate(listed.1) - expected).abs() < f64::EPSILON * 64.0);
        }
    }
}

#[test]
fn record_at_explicit_times() {
    let (mut stats, _mock) = HourlyEventStatistic::with_mocked_clock();
    stats.record_at("e", 0);
    stats.record_at("e", 10);
    assert_eq!(stats.hourly_count_at("e", 10), 2);
    assert_eq!(stats.hourly_count_at("e", HOUR_NANOS - 1), 2);
    assert_eq!(stats.hourly_count_at("e", HOUR_NANOS), 1);
    assert_eq!(stats.hourly_count_at("e", HOUR_NANOS + 10), 0);
    assert_eq!(stats.hourly_count_at("f", HOUR_NANOS), 0);
}

#[test]
fn lifetime_count_outlives_eviction() {
    // The count is the lifetime count less the stale prefix, so occurrences
    // evicted by an earlier recording still count.
    let (mut stats, _mock) = HourlyEventStatistic::with_mocked_clock();
    stats.record_at("e", 0);
    stats.record_at("e", 2 * HOUR_NANOS);
    assert_eq!(stats.hourly_count_at("e", 2 * HOUR_NANOS), 2);
    assert_eq!(stats.hourly_count_at("e", 3 * HOUR_NANOS), 1);
    assert_eq!(stats.lifetime_count("e"), 2);
}

#[test]
fn lifetime_stats_report_minutes_since_first_seen() {
    let (mut stats, _mock) = HourlyEventStatistic::with_mocked_clock();
    stats.record_at("a", 5 * MINUTE_NANOS);
    stats.record_at("a", 6 * MINUTE_NANOS);
    stats.record_at("b", 7 * MINUTE_NANOS);
    let mut report = stats.lifetime_stats_at(10 * MINUTE_NANOS + 59);
    report.sort();
    assert_eq!(report, vec![("a".to_string(), 2, 5), ("b".to_string(), 1, 3)]);
    let early = stats.lifetime_stats_at(MINUTE_NANOS);
    assert!(early.iter().all(|(_, _, minutes)| *minutes == 0));
}

#[test]
fn lifetime_stats_on_the_clock() {
    let (mut stats, mock) = started();
    stats.inc_event("a");
    mock.increment(MINUTE * 3);
    stats.inc_event("a");
    assert_eq!(stats.lifetime_stats(), vec![("a".to_string(), 2, 3)]);
}

#[test]
fn window_evicts_only_the_stale_prefix() {
    let mut w = HourlyStat::with_timestamp(0);
    assert_eq!(w.total_count(), 0);
    assert_eq!(w.first_timestamp(), 0);
    w.record(0);
    w.record(HOUR_NANOS + 5);
    w.record(1);
    // The queue is [HOUR + 5, 1]: the front is fresh, so 1 is not counted
    // as stale even though it is old.
    assert_eq!(w.stale_count(HOUR_NANOS + 5), 0);
    assert_eq!(w.hourly_count(HOUR_NANOS + 5), 3);
    assert_eq!(w.stale_count(2 * HOUR_NANOS + 5), 2);
    assert_eq!(w.hourly_count(2 * HOUR_NANOS + 5), 1);
    assert_eq!(w.total_count(), 3);
    assert_eq!(w.lifetime_minutes(3 * MINUTE_NANOS), 3);
}

#[test]
fn window_counts_before_an_hour_has_passed() {
    let mut w = HourlyStat::with_timestamp(7);
    w.record(7);
    assert_eq!(w.stale_count(0), 0);
    assert_eq!(w.stale_count(HOUR_NANOS + 7), 1);
    assert_eq!(w.hourly_count(HOUR_NANOS + 6), 1);
    assert_eq!(w.lifetime_minutes(0), 0);
    assert_eq!(w.first_timestamp(), 7);
}
