use kstrk::capture::{KeyEvent, KeyType, Modifiers, SpecialKey};
use kstrk::config::Config;
use kstrk::daemon::{hour_bucket, lock_file_text, Daemon, DaemonError, LockError, LOCK_FILE, PID_FILE};
use kstrk::numeral::parse_pid;
use kstrk::storage::{SqliteStorage, StorageError};
use kstrk::Error;

fn daemon() -> Daemon {
    Daemon::new(Config::default(), SqliteStorage::in_memory())
}

#[test]
fn one_key_down_reaches_all_three_consumers() {
    let mut daemon = daemon();
    let event = KeyEvent::new(0, 3_600_000 * 5 + 17, 0);
    let outcome = daemon.process_event_at(event, 999);
    assert!(outcome.token.is_none());
    assert!(outcome.milestone.is_none());
    assert_eq!(outcome.stored, Ok(1));
    assert_eq!(outcome.counted, Ok(()));

    assert_eq!(daemon.stats().total(), 1);
    assert_eq!(daemon.stats().events_in_window(), 1);
    let storage = daemon.storage();
    assert_eq!(storage.processes()[0].name, "Unknown");
    assert_eq!(storage.windows()[0].title, "Unknown");
    assert_eq!(storage.keys().len(), 1);
    assert_eq!(storage.keys()[0].key_count, 1);
    assert_eq!(storage.keys()[0].started_at, 999);
    assert_eq!(storage.hourly_stats().len(), 1);
    assert_eq!(storage.hourly_stats()[0].hour_bucket, 5);
    assert_eq!(storage.hourly_stats()[0].key_type, "a");
    assert_eq!(storage.hourly_stats()[0].count, 1);
    assert_eq!(daemon.config().stats.apm_window_secs, 60);
}

#[test]
fn a_batch_is_handled_whole_and_in_order() {
    let mut daemon = daemon();
    // "hi there" typed within one hour: h i space t h e r e
    let codes: [u16; 8] = [4, 34, 49, 17, 4, 14, 15, 14];
    let events: Vec<KeyEvent> = codes
        .iter()
        .enumerate()
        .map(|(i, code)| KeyEvent::new(*code, 7_200_000 + 100 * i as i64, 0))
        .collect();
    let outcomes = daemon.drain(&events);
    assert_eq!(outcomes.len(), 8);
    let tokens: Vec<Option<&str>> =
        outcomes.iter().map(|o| o.token.as_ref().map(|t| t.content.as_str())).collect();
    assert_eq!(tokens, vec![None, None, Some("hi"), None, None, None, None, None]);
    let stored: Vec<Result<i64, StorageError>> = outcomes.iter().map(|o| o.stored).collect();
    assert_eq!(stored, (1..=8).map(Ok).collect::<Vec<_>>());
    assert!(outcomes.iter().all(|o| o.counted == Ok(()) && o.milestone.is_none()));

    assert_eq!(daemon.stats().total(), 8);
    assert_eq!(daemon.storage().get_total_keystrokes().unwrap(), 8);
    assert_eq!(
        daemon.storage().get_keystrokes_by_process().unwrap(),
        vec![("Unknown".to_string(), 8)]
    );
    assert_eq!(
        daemon.storage().get_heatmap_data().unwrap(),
        vec![
            ("h".to_string(), 2),
            ("e".to_string(), 2),
            ("i".to_string(), 1),
            ("special:space".to_string(), 1),
            ("t".to_string(), 1),
            ("r".to_string(), 1),
        ]
    );
    assert!(daemon.drain(&Vec::new()).is_empty());
    assert_eq!(daemon.stats().total(), 8);
}

#[test]
fn the_thousandth_key_down_reports_the_milestone() {
    let mut daemon = daemon();
    let events: Vec<KeyEvent> = (0..1_000).map(|i| KeyEvent::new(0, i, 0)).collect();
    let outcomes = daemon.drain(&events);
    let fired: Vec<u64> =
        outcomes.iter().filter_map(|o| o.milestone.map(|m| m.threshold)).collect();
    assert_eq!(fired, vec![1_000]);
    assert_eq!(outcomes[999].milestone.unwrap().name, "First Thousand");
    assert_eq!(daemon.stats().latest_milestone().unwrap().threshold, 1_000);
}

#[test]
fn a_refusal_of_the_store_does_not_stop_the_rest() {
    let full = SqliteStorage::from_rows(
        vec![],
        vec![],
        vec![],
        vec![kstrk::storage::HourlyStat {
            id: i64::MAX,
            hour_bucket: 0,
            key_type: "a".to_string(),
            count: u64::MAX,
        }],
    )
    .unwrap();
    let mut daemon = Daemon::new(Config::default(), full);
    let a = daemon.process_event_at(KeyEvent::new(0, 0, 0), 0);
    assert_eq!(a.stored, Ok(1));
    assert_eq!(a.counted, Err(StorageError::Overflow));
    let s = daemon.process_event_at(KeyEvent::new(1, 10, 0), 10);
    assert_eq!(s.stored, Ok(2));
    assert_eq!(s.counted, Err(StorageError::Full));
    assert_eq!(daemon.stats().total(), 2);
    assert_eq!(daemon.storage().keys().len(), 2);
    assert_eq!(daemon.storage().hourly_stats().len(), 1);
}

#[test]
fn the_gap_threshold_comes_from_the_settings() {
    let mut config = Config::default();
    config.capture.token_gap_threshold = 50;
    let mut daemon = Daemon::new(config, SqliteStorage::in_memory());
    assert!(daemon.process_event_at(KeyEvent::new(4, 0, 0), 0).token.is_none());
    assert!(daemon.process_event_at(KeyEvent::new(34, 50, 0), 0).token.is_none());
    let outcome = daemon.process_event_at(KeyEvent::new(17, 101, 0), 0);
    assert_eq!(outcome.token.unwrap().content, "hi");
}

#[test]
fn the_clock_drives_process_event() {
    let before = chrono::Utc::now().timestamp_millis();
    let mut daemon = daemon();
    let outcome = daemon.process_event(KeyEvent {
        keycode: 49,
        key_type: KeyType::Special(SpecialKey::Space),
        timestamp: -1,
        modifiers: Modifiers::default(),
    });
    let after = chrono::Utc::now().timestamp_millis();
    assert_eq!(outcome.stored, Ok(1));
    let stamped = daemon.storage().keys()[0].started_at;
    assert!(before <= stamped && stamped <= after);
    // The bucket follows the event, not the clock.
    assert_eq!(daemon.storage().hourly_stats()[0].hour_bucket, -1);
    assert_eq!(daemon.storage().hourly_stats()[0].key_type, "special:space");
}

#[test]
fn every_hour_bucket_spans_one_hour() {
    assert_eq!(hour_bucket(0), 0);
    assert_eq!(hour_bucket(3_599_999), 0);
    assert_eq!(hour_bucket(3_600_000), 1);
    assert_eq!(hour_bucket(1_700_000_000_000), 472_222);
    // The hour before the epoch is bucket -1.
    assert_eq!(hour_bucket(-1), -1);
    assert_eq!(hour_bucket(-3_600_000), -1);
    assert_eq!(hour_bucket(-3_600_001), -2);
    assert_eq!(hour_bucket(-7_200_000), -2);
    assert_eq!(hour_bucket(i64::MAX), 2_562_047_788_015);
    assert_eq!(hour_bucket(i64::MIN), -2_562_047_788_016);
}

#[test]
fn a_process_identifier_is_read_from_text() {
    assert_eq!(parse_pid("12345\n"), Some(12345));
    assert_eq!(parse_pid("  \t 7 \r\n"), Some(7));
    assert_eq!(parse_pid("+42"), Some(42));
    assert_eq!(parse_pid("0"), Some(0));
    assert_eq!(parse_pid("007"), Some(7));
    assert_eq!(parse_pid("4294967295"), Some(u32::MAX));
    assert_eq!(parse_pid("00000000004294967295"), Some(u32::MAX));
    assert_eq!(parse_pid("\u{3000}\u{a0}99\u{2003}\u{85}"), Some(99));

    assert_eq!(parse_pid("4294967296"), None);
    assert_eq!(parse_pid("99999999999999999999999999"), None);
    assert_eq!(parse_pid(""), None);
    assert_eq!(parse_pid("   "), None);
    assert_eq!(parse_pid("+"), None);
    assert_eq!(parse_pid("-1"), None);
    assert_eq!(parse_pid("++1"), None);
    assert_eq!(parse_pid("1 2"), None);
    assert_eq!(parse_pid("12a"), None);
    assert_eq!(parse_pid("a12"), None);
    assert_eq!(parse_pid("1+"), None);
    assert_eq!(parse_pid("１２"), None);
    assert_eq!(parse_pid("\u{200b}12"), None);
    assert_eq!(parse_pid("0x10"), None);

    for text in ["12345\n", " 7 ", "+42", "", "-1", "4294967296", "12a", "\u{3000}99"] {
        assert_eq!(parse_pid(text), text.trim().parse::<u32>().ok(), "{:?}", text);
    }
}

#[test]
fn the_lock_file_holds_the_pid_and_reads_back() {
    assert_eq!(LOCK_FILE, "kstrk.lock");
    assert_eq!(PID_FILE, "/tmp/kstrk.pid");
    assert_eq!(lock_file_text(12345), "12345\n");
    assert_eq!(lock_file_text(0), "0\n");
    assert_eq!(lock_file_text(u32::MAX), "4294967295\n");
    for pid in [0, 1, 9, 10, 99, 100, 65_535, 1_000_000, u32::MAX] {
        assert_eq!(parse_pid(&lock_file_text(pid)), Some(pid));
    }
    assert_eq!(Daemon::read_pid("4242\n"), Ok(4242));
    assert_eq!(Daemon::read_pid("not a pid"), Err(DaemonError::InvalidPidFile));
    assert_eq!(Daemon::read_pid(""), Err(DaemonError::InvalidPidFile));
}

#[test]
fn a_held_lock_names_its_holder_where_it_can() {
    assert_eq!(
        LockError::already_running(Some("4242\n"), "/data/kstrk.lock".to_string()),
        LockError::AlreadyRunning { pid: Some(4242), lock_path: "/data/kstrk.lock".to_string() }
    );
    assert_eq!(
        LockError::already_running(Some("garbage"), "/data/kstrk.lock".to_string()),
        LockError::AlreadyRunning { pid: None, lock_path: "/data/kstrk.lock".to_string() }
    );
    assert_eq!(
        LockError::already_running(None, "l".to_string()),
        LockError::AlreadyRunning { pid: None, lock_path: "l".to_string() }
    );
}

#[test]
fn lock_and_daemon_errors_have_their_messages() {
    let held = LockError::AlreadyRunning { pid: Some(4242), lock_path: "/data/kstrk.lock".to_string() };
    assert_eq!(
        held.message(),
        "/data/kstrk.lock is locked! PID Some(4242) may be running. If no kstrk process is running, delete the stale lock file."
    );
    let unknown = LockError::AlreadyRunning { pid: None, lock_path: "/data/kstrk.lock".to_string() };
    assert_eq!(
        unknown.message(),
        "/data/kstrk.lock is locked! PID None may be running. If no kstrk process is running, delete the stale lock file."
    );
    assert_eq!(LockError::Io("denied".to_string()).message(), "IO error: denied");

    assert_eq!(
        DaemonError::DaemonizeFailed("fork".to_string()).message(),
        "Failed to daemonize: fork"
    );
    assert_eq!(DaemonError::InvalidPidFile.message(), "Invalid PID file");
    assert_eq!(
        DaemonError::Lock(LockError::Io("denied".to_string())).message(),
        "Lock error: IO error: denied"
    );
    assert_eq!(DaemonError::Io("gone".to_string()).message(), "IO error: gone");
    assert_eq!(DaemonError::Capture("no tap".to_string()).message(), "Capture error: no tap");
}

#[test]
fn library_errors_have_their_messages() {
    assert_eq!(Error::AccessibilityDenied.message(), "Accessibility permission not granted");
    assert_eq!(Error::EventTapFailed("x".to_string()).message(), "Failed to create event tap: x");
    assert_eq!(Error::Database("locked".to_string()).message(), "Database error: locked");
    assert_eq!(Error::AlreadyRunning(4242).message(), "Already running (PID: 4242)");
    assert_eq!(Error::NotRunning.message(), "Not running");
    assert_eq!(Error::Io("gone".to_string()).message(), "IO error: gone");
    assert_eq!(Error::Serialization("eof".to_string()).message(), "Serialization error: eof");
    assert_eq!(Error::Config("bad key".to_string()).message(), "Configuration error: bad key");
    assert_eq!(Error::Daemon("stopped".to_string()).message(), "Daemon error: stopped");
}
