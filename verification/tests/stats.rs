use kstrk::stats::{LiveStats, Milestone};

fn apm(stats: &LiveStats) -> f64 {
    let count = stats.events_in_window() as f64;
    let window_mins = stats.window_secs() as f64 / 60.0;
    count / window_mins
}

const DAY: i64 = 86_400_000;

#[test]
fn test_initial_state() {
    let stats = LiveStats::new(60);
    assert_eq!(stats.total(), 0);
    assert_eq!(stats.events_in_window(), 0);
    assert_eq!(apm(&stats), 0.0);
}

#[test]
fn test_record_increments_total() {
    let mut stats = LiveStats::new(60);
    stats.record();
    stats.record();
    stats.record();
    assert_eq!(stats.total(), 3);
}

#[test]
fn test_apm_calculation() {
    let mut stats = LiveStats::new(60); // 60 second window

    // Record 60 events
    for _ in 0..60 {
        stats.record();
    }

    // 60 events in 60 second window = 60 APM
    assert_eq!(apm(&stats), 60.0);
}

#[test]
fn test_window_pruning() {
    // Use a very short window for testing
    let mut stats = LiveStats::new_at(1, 0); // 1 second window

    stats.record_at(0);
    assert_eq!(stats.events_in_window(), 1);

    // Record new event after the first one has expired
    stats.record_at(1100);

    // Only the new event should be in window
    assert_eq!(stats.events_in_window(), 1);
    // But total should be 2
    assert_eq!(stats.total(), 2);
}

#[test]
fn test_milestone_detection() {
    let mut stats = LiveStats::new(60);

    // Record enough keystrokes to hit first milestone (1000)
    for _ in 0..1000 {
        stats.record();
    }

    let latest = stats.latest_milestone();
    assert!(latest.is_some());
    assert_eq!(latest.unwrap().threshold, 1000);
}

#[test]
fn a_thousand_records_fire_the_first_milestone_only() {
    let mut stats = LiveStats::new_at(60, 0);
    for i in 0..999 {
        assert!(stats.record_at(i).is_none());
        assert!(stats.latest_milestone().is_none());
    }
    let fired = stats.record_at(999).expect("the thousandth key-down fires");
    assert_eq!(fired.threshold, 1_000);
    assert_eq!(fired.name, "First Thousand");
    assert_eq!(fired.reached_at, Some(999));
    assert_eq!(stats.latest_milestone().unwrap().threshold, 1_000);
    let reached: Vec<u64> = stats
        .milestones()
        .iter()
        .filter(|m| m.reached_at.is_some())
        .map(|m| m.threshold)
        .collect();
    assert_eq!(reached, vec![1_000]);
    assert!(stats.record_at(1_000).is_none());
}

#[test]
fn reached_at_is_never_changed_by_later_records() {
    let mut stats = LiveStats::new_at(60, 0);
    for i in 0..1_000 {
        stats.record_at(i);
    }
    assert_eq!(stats.milestones()[0].reached_at, Some(999));
    for i in 1_000..10_000 {
        stats.record_at(i);
        assert_eq!(stats.milestones()[0].reached_at, Some(999));
    }
    assert_eq!(stats.milestones()[1].reached_at, Some(9_999));
    assert_eq!(stats.milestones()[0].reached_at, Some(999));
    assert_eq!(stats.latest_milestone().unwrap().threshold, 10_000);
    assert_eq!(stats.milestones()[2].reached_at, None);
}

#[test]
fn the_catalogue_has_five_ascending_thresholds() {
    let list = Milestone::catalogue();
    let thresholds: Vec<u64> = list.iter().map(|m| m.threshold).collect();
    assert_eq!(thresholds, vec![1_000, 10_000, 100_000, 1_000_000, 10_000_000]);
    let names: Vec<&str> = list.iter().map(|m| m.name).collect();
    assert_eq!(
        names,
        vec!["First Thousand", "Ten Thousand Club", "Centurion", "Millionaire", "Legend"]
    );
    let emoji: Vec<&str> = list.iter().map(|m| m.emoji).collect();
    assert_eq!(emoji, vec!["🎯", "🎖️", "💯", "🏆", "👑"]);
    assert!(list.iter().all(|m| m.reached_at.is_none()));

    let stats = LiveStats::new_at(60, 0);
    assert_eq!(stats.milestones().len(), 5);
    assert!(stats.latest_milestone().is_none());
}

#[test]
fn remaining_counts_down_to_zero() {
    let first = Milestone::catalogue()[0];
    assert_eq!(first.remaining(0), 1_000);
    assert_eq!(first.remaining(999), 1);
    assert_eq!(first.remaining(1_000), 0);
    assert_eq!(first.remaining(u64::MAX), 0);
    assert!(!first.is_reached_by(999));
    assert!(first.is_reached_by(1_000));
}

#[test]
fn events_within_the_window_are_all_counted() {
    // N = 30 events spread evenly over W = 60 seconds: 30 * 60 / 60 = 30 per minute.
    let mut stats = LiveStats::new_at(60, 0);
    for i in 0..30 {
        stats.record_at(i * 2_000);
    }
    assert_eq!(stats.events_in_window(), 30);
    assert_eq!(apm(&stats), 30.0);

    // N = 45 events within W = 90 seconds: 45 * 60 / 90 = 30 per minute.
    let mut stats = LiveStats::new_at(90, 5_000);
    for i in 0..45 {
        stats.record_at(5_000 + i * 2_000);
    }
    assert_eq!(stats.events_in_window(), 45);
    assert_eq!(stats.window_secs(), 90);
    assert_eq!(apm(&stats), 30.0);
}

#[test]
fn eviction_keeps_the_entry_at_the_cutoff() {
    let mut stats = LiveStats::new_at(10, 0);
    stats.record_at(0);
    stats.record_at(4_000);
    // The cutoff is 10_000 - 10_000 = 0: the entry at 0 is not older.
    stats.record_at(10_000);
    assert_eq!(stats.events_in_window(), 3);
    // The cutoff is 1: the entry at 0 goes.
    stats.record_at(10_001);
    assert_eq!(stats.events_in_window(), 3);
    // The cutoff is 4_001: the entry at 4_000 goes too.
    stats.record_at(14_001);
    assert_eq!(stats.events_in_window(), 3);
    stats.record_at(100_000);
    assert_eq!(stats.events_in_window(), 1);
    assert_eq!(stats.total(), 6);
}

#[test]
fn eviction_stops_at_the_first_entry_that_has_not_expired() {
    let mut stats = LiveStats::new_at(1, 0);
    stats.record_at(5_000);
    // An instant out of order: older than the one before it.
    stats.record_at(0);
    assert_eq!(stats.events_in_window(), 2);
    // The cutoff is 5_000: the front entry stays, and shields the one behind it.
    stats.record_at(6_000);
    assert_eq!(stats.events_in_window(), 3);
    // The cutoff is 5_001: the front goes, then the entry at 0 behind it.
    stats.record_at(6_001);
    assert_eq!(stats.events_in_window(), 2);
}

#[test]
fn a_window_of_zero_seconds_keeps_the_newest_instant() {
    let mut stats = LiveStats::new_at(0, 0);
    stats.record_at(7);
    assert_eq!(stats.events_in_window(), 1);
    stats.record_at(7);
    assert_eq!(stats.events_in_window(), 2);
    stats.record_at(8);
    assert_eq!(stats.events_in_window(), 1);
}

#[test]
fn the_largest_window_evicts_nothing() {
    let mut stats = LiveStats::new_at(u64::MAX, 0);
    stats.record_at(i64::MIN);
    stats.record_at(i64::MAX);
    assert_eq!(stats.events_in_window(), 2);
}

#[test]
fn the_streak_follows_the_calendar() {
    let mut stats = LiveStats::new_at(60, 0);
    assert_eq!(stats.streak(), 0);
    stats.record_at(10 * DAY + 5);
    assert_eq!(stats.streak(), 1);
    // Same day: no change.
    stats.record_at(10 * DAY + DAY - 1);
    assert_eq!(stats.streak(), 1);
    // The next day, one millisecond later.
    stats.record_at(11 * DAY);
    assert_eq!(stats.streak(), 2);
    stats.record_at(12 * DAY + 1_000);
    assert_eq!(stats.streak(), 3);
    // Two days later: the streak starts over.
    stats.record_at(14 * DAY);
    assert_eq!(stats.streak(), 1);
    // A day in the past leaves the streak alone.
    stats.record_at(13 * DAY);
    assert_eq!(stats.streak(), 1);
    // From there the next day is day 14 again.
    stats.record_at(14 * DAY);
    assert_eq!(stats.streak(), 2);
}

#[test]
fn days_before_the_epoch_count_downwards() {
    let mut stats = LiveStats::new_at(60, -3 * DAY);
    // One millisecond before the epoch is the day before it.
    stats.record_at(-1);
    assert_eq!(stats.streak(), 1);
    stats.record_at(0);
    assert_eq!(stats.streak(), 2);
    let mut stats = LiveStats::new_at(60, -3 * DAY);
    stats.record_at(-DAY);
    stats.record_at(-1);
    assert_eq!(stats.streak(), 1);
    stats.record_at(-DAY - 1);
    assert_eq!(stats.streak(), 1);
}

#[test]
fn the_kps_sample_spans_five_seconds() {
    let mut stats = LiveStats::new_at(60, 0);
    for t in [0, 1_000, 5_000, 5_999, 6_000, 9_000, 10_000] {
        stats.record_at(t);
    }
    // At 10_000 the sample reaches back to 5_000, which is still in.
    assert_eq!(stats.kps_sample_at(10_000), 5);
    assert_eq!(stats.kps_sample_at(10_000) as f64 / 5.0, 1.0);
    assert_eq!(stats.kps_sample_at(10_001), 4);
    assert_eq!(stats.kps_sample_at(15_000), 1);
    assert_eq!(stats.kps_sample_at(15_001), 0);
    assert_eq!(stats.kps_sample_at(0), 7);
    assert_eq!(stats.kps_sample_at(i64::MIN), 7);
}

#[test]
fn the_session_duration_is_never_negative() {
    let stats = LiveStats::new_at(60, 1_000);
    assert_eq!(stats.session_duration_at(1_000), 0);
    assert_eq!(stats.session_duration_at(4_500), 3_500);
    assert_eq!(stats.session_duration_at(999), 0);
    let early = LiveStats::new_at(60, i64::MIN);
    assert_eq!(early.session_duration_at(i64::MAX), u64::MAX);
}

#[test]
fn the_clock_drives_new_and_record() {
    let before = chrono::Utc::now().timestamp_millis();
    let mut stats = LiveStats::new(60);
    for _ in 0..1_000 {
        stats.record();
    }
    let after = chrono::Utc::now().timestamp_millis();
    let at = stats.milestones()[0].reached_at.expect("the first milestone has fired");
    assert!(before <= at && at <= after);
    assert_eq!(stats.streak(), 1);
    assert!(stats.session_duration() <= (after - before) as u64 + 1_000);
    assert!(stats.kps_sample() <= 1_000);
}

#[test]
fn of_milestones_reached_at_one_instant_the_last_is_latest() {
    let mut stats = LiveStats::new_at(60, 0);
    for _ in 0..10_000 {
        stats.record_at(42);
    }
    assert_eq!(stats.milestones()[0].reached_at, Some(42));
    assert_eq!(stats.milestones()[1].reached_at, Some(42));
    assert_eq!(stats.latest_milestone().unwrap().threshold, 10_000);
}

#[test]
fn the_latest_milestone_is_the_one_reached_last_by_the_clock() {
    let mut stats = LiveStats::new_at(60, 0);
    for _ in 0..1_000 {
        stats.record_at(500);
    }
    // The clock has been set back before the second milestone fires.
    for _ in 0..9_000 {
        stats.record_at(100);
    }
    assert_eq!(stats.milestones()[1].reached_at, Some(100));
    assert_eq!(stats.latest_milestone().unwrap().threshold, 1_000);
}
