use kstrk::storage::aggregate::build_report;
use kstrk::storage::{
    HourlyStat, KeyRecord, ProcessRow, SqliteStorage, StorageError, WindowRow, SCHEMA,
};

fn process(id: i64, name: &str) -> ProcessRow {
    ProcessRow { id, name: name.to_string() }
}

fn window(id: i64, process_id: i64, title: &str) -> WindowRow {
    WindowRow { id, process_id, title: title.to_string() }
}

fn key(id: i64, window_id: i64, key_count: u32) -> KeyRecord {
    KeyRecord { id, window_id, created_at: 0, key_count, started_at: 0 }
}

fn stat(id: i64, hour_bucket: i64, key_type: &str, count: u64) -> HourlyStat {
    HourlyStat { id, hour_bucket, key_type: key_type.to_string(), count }
}

fn pairs(rows: &[(&str, u64)]) -> Vec<(String, u64)> {
    rows.iter().map(|(name, n)| (name.to_string(), *n)).collect()
}

#[test]
fn test_in_memory_storage() {
    let storage = SqliteStorage::in_memory();
    assert_eq!(storage.get_total_keystrokes().unwrap(), 0);
}

#[test]
fn test_record_keystroke() {
    let mut storage = SqliteStorage::in_memory();

    let id = storage
        .record_keystroke("VSCode", "main.rs - kstrk", 10)
        .unwrap();
    assert!(id > 0);

    assert_eq!(storage.get_total_keystrokes().unwrap(), 10);
}

#[test]
fn test_multiple_keystrokes() {
    let mut storage = SqliteStorage::in_memory();

    storage.record_keystroke("VSCode", "main.rs", 10).unwrap();
    storage.record_keystroke("VSCode", "main.rs", 20).unwrap();
    storage.record_keystroke("Terminal", "zsh", 5).unwrap();

    assert_eq!(storage.get_total_keystrokes().unwrap(), 35);
}

#[test]
fn test_keystrokes_by_process() {
    let mut storage = SqliteStorage::in_memory();

    storage.record_keystroke("VSCode", "main.rs", 100).unwrap();
    storage.record_keystroke("VSCode", "lib.rs", 50).unwrap();
    storage.record_keystroke("Terminal", "zsh", 30).unwrap();

    let by_process = storage.get_keystrokes_by_process().unwrap();

    assert_eq!(by_process.len(), 2);
    assert_eq!(by_process[0], ("VSCode".to_string(), 150));
    assert_eq!(by_process[1], ("Terminal".to_string(), 30));
}

#[test]
fn recording_a_pair_twice_makes_one_process_one_window_two_records() {
    let mut storage = SqliteStorage::in_memory();
    let first = storage.record_keystroke_at("VSCode", "main.rs", 10, 1_000).unwrap();
    let second = storage.record_keystroke_at("VSCode", "main.rs", 20, 2_000).unwrap();
    assert_eq!((first, second), (1, 2));

    assert_eq!(storage.processes().len(), 1);
    assert_eq!(storage.processes()[0].id, 1);
    assert_eq!(storage.processes()[0].name, "VSCode");
    assert_eq!(storage.windows().len(), 1);
    assert_eq!(storage.windows()[0].id, 1);
    assert_eq!(storage.windows()[0].process_id, 1);
    assert_eq!(storage.windows()[0].title, "main.rs");
    assert_eq!(
        storage.keys(),
        &vec![
            KeyRecord { id: 1, window_id: 1, created_at: 1_000, key_count: 10, started_at: 1_000 },
            KeyRecord { id: 2, window_id: 1, created_at: 2_000, key_count: 20, started_at: 2_000 },
        ]
    );
    assert_eq!(storage.get_total_keystrokes().unwrap(), 30);
    assert!(storage.hourly_stats().is_empty());
}

#[test]
fn a_title_is_unique_within_its_process_only() {
    let mut storage = SqliteStorage::in_memory();
    storage.record_keystroke_at("VSCode", "main.rs", 1, 0).unwrap();
    storage.record_keystroke_at("Vim", "main.rs", 2, 0).unwrap();
    storage.record_keystroke_at("VSCode", "lib.rs", 3, 0).unwrap();
    storage.record_keystroke_at("Vim", "main.rs", 4, 0).unwrap();
    assert_eq!(storage.processes().len(), 2);
    assert_eq!(storage.windows().len(), 3);
    let windows: Vec<(i64, i64, &str)> = storage
        .windows()
        .iter()
        .map(|w| (w.id, w.process_id, w.title.as_str()))
        .collect();
    assert_eq!(windows, vec![(1, 1, "main.rs"), (2, 2, "main.rs"), (3, 1, "lib.rs")]);
    let window_ids: Vec<i64> = storage.keys().iter().map(|k| k.window_id).collect();
    assert_eq!(window_ids, vec![1, 2, 3, 2]);
    assert_eq!(storage.get_total_keystrokes().unwrap(), 10);
}

#[test]
fn the_clock_stamps_a_key_record() {
    let before = chrono::Utc::now().timestamp_millis();
    let mut storage = SqliteStorage::in_memory();
    storage.record_keystroke("VSCode", "main.rs", 10).unwrap();
    let after = chrono::Utc::now().timestamp_millis();
    let record = storage.keys()[0];
    assert!(before <= record.started_at && record.started_at <= after);
    assert_eq!(record.created_at, record.started_at);
}

#[test]
fn by_process_orders_by_sum_and_keeps_ties_in_order() {
    let mut storage = SqliteStorage::in_memory();
    storage.record_keystroke_at("a", "w", 5, 0).unwrap();
    storage.record_keystroke_at("b", "w", 7, 0).unwrap();
    storage.record_keystroke_at("c", "w", 5, 0).unwrap();
    storage.record_keystroke_at("d", "w", 0, 0).unwrap();
    storage.record_keystroke_at("c", "v", 2, 0).unwrap();
    storage.record_keystroke_at("a", "v", 2, 0).unwrap();
    assert_eq!(
        storage.get_keystrokes_by_process().unwrap(),
        pairs(&[("a", 7), ("b", 7), ("c", 7), ("d", 0)])
    );
    let total: u64 = storage.get_keystrokes_by_process().unwrap().iter().map(|r| r.1).sum();
    assert_eq!(total, storage.get_total_keystrokes().unwrap());
}

#[test]
fn heatmap_of_a_store_without_hourly_stats_is_empty() {
    let mut storage = SqliteStorage::in_memory();
    assert_eq!(storage.get_heatmap_data().unwrap(), Vec::<(String, u64)>::new());
    storage.record_keystroke_at("VSCode", "main.rs", 10, 0).unwrap();
    assert!(storage.get_heatmap_data().unwrap().is_empty());
    assert!(storage.get_keystrokes_by_process().unwrap().len() == 1);
}

#[test]
fn hourly_stats_count_in_place() {
    let mut storage = SqliteStorage::in_memory();
    for _ in 0..5 {
        storage.record_hourly_stat(472_222, "a").unwrap();
    }
    storage.record_hourly_stat(472_222, "b").unwrap();
    storage.record_hourly_stat(472_223, "a").unwrap();
    storage.record_hourly_stat(472_222, "a").unwrap();

    let rows: Vec<(i64, i64, &str, u64)> = storage
        .hourly_stats()
        .iter()
        .map(|r| (r.id, r.hour_bucket, r.key_type.as_str(), r.count))
        .collect();
    assert_eq!(
        rows,
        vec![(1, 472_222, "a", 6), (2, 472_222, "b", 1), (3, 472_223, "a", 1)]
    );
    assert!(storage.keys().is_empty());
    assert!(storage.processes().is_empty());
}

#[test]
fn heatmap_sums_over_all_hour_buckets() {
    let mut storage = SqliteStorage::in_memory();
    for (bucket, key, times) in [(1, "e", 3), (1, "t", 4), (2, "e", 2), (-7, "special:space", 4), (3, "q", 1)] {
        for _ in 0..times {
            storage.record_hourly_stat(bucket, key).unwrap();
        }
    }
    assert_eq!(
        storage.get_heatmap_data().unwrap(),
        pairs(&[("e", 5), ("t", 4), ("special:space", 4), ("q", 1)])
    );
}

#[test]
fn a_report_groups_in_order_of_first_appearance_and_sorts_stably() {
    let entries = pairs(&[("x", 1), ("y", 3), ("x", 2), ("z", 3), ("w", 0), ("y", 0)]);
    assert_eq!(build_report(&entries).unwrap(), pairs(&[("x", 3), ("y", 3), ("z", 3), ("w", 0)]));
    assert_eq!(build_report(&Vec::new()).unwrap(), Vec::<(String, u64)>::new());
    assert_eq!(build_report(&pairs(&[("a", 1), ("b", 2), ("c", 3)])).unwrap(), pairs(&[("c", 3), ("b", 2), ("a", 1)]));
    assert_eq!(build_report(&pairs(&[("", 1), ("", 2)])).unwrap(), pairs(&[("", 3)]));
}

#[test]
fn a_sum_beyond_64_bits_is_an_overflow() {
    let entries = pairs(&[("a", u64::MAX), ("b", 1), ("a", 1)]);
    assert_eq!(build_report(&entries), Err(StorageError::Overflow));
    let entries = pairs(&[("a", u64::MAX), ("b", 1), ("a", 0)]);
    assert_eq!(build_report(&entries).unwrap(), pairs(&[("a", u64::MAX), ("b", 1)]));

    let storage = SqliteStorage::from_rows(
        vec![],
        vec![],
        vec![],
        vec![stat(1, 1, "a", u64::MAX), stat(2, 2, "a", 1)],
    )
    .unwrap();
    assert_eq!(storage.get_heatmap_data(), Err(StorageError::Overflow));
}

#[test]
fn a_full_hourly_count_is_an_overflow() {
    let mut storage =
        SqliteStorage::from_rows(vec![], vec![], vec![], vec![stat(1, 1, "a", u64::MAX)]).unwrap();
    assert_eq!(storage.record_hourly_stat(1, "a"), Err(StorageError::Overflow));
    assert_eq!(storage.hourly_stats()[0].count, u64::MAX);
    assert_eq!(storage.record_hourly_stat(1, "b"), Ok(()));
}

#[test]
fn a_table_without_free_identifiers_is_full() {
    let mut storage = SqliteStorage::from_rows(
        vec![process(1, "VSCode")],
        vec![window(1, 1, "main.rs")],
        vec![key(i64::MAX, 1, 3)],
        vec![stat(i64::MAX, 1, "a", 1)],
    )
    .unwrap();
    assert_eq!(storage.record_keystroke_at("VSCode", "main.rs", 1, 0), Err(StorageError::Full));
    assert_eq!(storage.keys().len(), 1);
    // The steps before the failing one stand.
    assert_eq!(storage.record_keystroke_at("Vim", "notes", 1, 0), Err(StorageError::Full));
    assert_eq!(storage.processes().len(), 2);
    assert_eq!(storage.windows().len(), 2);
    assert_eq!(storage.keys().len(), 1);
    assert_eq!(storage.record_hourly_stat(1, "b"), Err(StorageError::Full));
    assert_eq!(storage.record_hourly_stat(1, "a"), Ok(()));
    assert_eq!(storage.hourly_stats()[0].count, 2);

    let mut storage =
        SqliteStorage::from_rows(vec![process(i64::MAX, "VSCode")], vec![], vec![], vec![]).unwrap();
    assert_eq!(storage.record_keystroke_at("Vim", "notes", 1, 0), Err(StorageError::Full));
    assert_eq!(storage.processes().len(), 1);
    assert_eq!(storage.record_keystroke_at("VSCode", "notes", 1, 0), Ok(1));

    let mut storage = SqliteStorage::from_rows(
        vec![process(1, "VSCode")],
        vec![window(i64::MAX, 1, "main.rs")],
        vec![],
        vec![],
    )
    .unwrap();
    assert_eq!(storage.record_keystroke_at("VSCode", "lib.rs", 1, 0), Err(StorageError::Full));
    assert_eq!(storage.record_keystroke_at("VSCode", "main.rs", 1, 0), Ok(1));
    assert_eq!(storage.keys()[0].window_id, i64::MAX);
}

#[test]
fn rows_that_keep_the_rules_are_taken_as_they_are() {
    let storage = SqliteStorage::from_rows(
        vec![process(2, "VSCode"), process(5, "Terminal")],
        vec![window(1, 5, "zsh"), window(3, 2, "main.rs"), window(4, 2, "zsh")],
        vec![key(10, 3, 100), key(11, 4, 50), key(20, 1, 30)],
        vec![stat(1, 7, "a", 2), stat(2, 7, "b", 1), stat(9, 8, "a", 1)],
    )
    .unwrap();
    assert_eq!(storage.get_total_keystrokes().unwrap(), 180);
    assert_eq!(
        storage.get_keystrokes_by_process().unwrap(),
        pairs(&[("VSCode", 150), ("Terminal", 30)])
    );
    assert_eq!(storage.get_heatmap_data().unwrap(), pairs(&[("a", 3), ("b", 1)]));

    let mut storage = storage;
    assert_eq!(storage.record_keystroke_at("Terminal", "vim", 1, 0), Ok(21));
    assert_eq!(storage.windows()[3].id, 5);
    assert_eq!(storage.windows()[3].process_id, 5);
    assert_eq!(storage.record_keystroke_at("Safari", "news", 1, 0), Ok(22));
    assert_eq!(storage.processes()[2].id, 6);
}

#[test]
fn rows_that_break_a_rule_are_refused() {
    let refused = |p: Vec<ProcessRow>, w: Vec<WindowRow>, k: Vec<KeyRecord>, h: Vec<HourlyStat>| {
        matches!(SqliteStorage::from_rows(p, w, k, h), Err(StorageError::Invalid))
    };
    // Identifiers below one, out of order or repeated.
    assert!(refused(vec![process(0, "a")], vec![], vec![], vec![]));
    assert!(refused(vec![process(2, "a"), process(1, "b")], vec![], vec![], vec![]));
    assert!(refused(vec![process(1, "a"), process(1, "b")], vec![], vec![], vec![]));
    assert!(refused(vec![process(1, "a")], vec![window(-1, 1, "w")], vec![], vec![]));
    assert!(refused(vec![process(1, "a")], vec![window(1, 1, "w")], vec![key(2, 1, 0), key(2, 1, 0)], vec![]));
    assert!(refused(vec![], vec![], vec![], vec![stat(3, 1, "a", 1), stat(2, 1, "b", 1)]));
    // A name, a title of one process or a key type of one bucket twice.
    assert!(refused(vec![process(1, "a"), process(2, "a")], vec![], vec![], vec![]));
    assert!(refused(vec![process(1, "a")], vec![window(1, 1, "w"), window(2, 1, "w")], vec![], vec![]));
    assert!(refused(vec![], vec![], vec![], vec![stat(1, 1, "a", 1), stat(2, 1, "a", 1)]));
    // A window without its process, a key record without its window.
    assert!(refused(vec![process(1, "a")], vec![window(1, 2, "w")], vec![], vec![]));
    assert!(refused(vec![process(1, "a")], vec![window(1, 1, "w")], vec![key(1, 2, 5)], vec![]));
    // An hourly row that has counted nothing.
    assert!(refused(vec![], vec![], vec![], vec![stat(1, 1, "a", 0)]));
    // The same title under two processes and the same key type in two buckets are fine.
    assert!(!refused(
        vec![process(1, "a"), process(2, "b")],
        vec![window(1, 1, "w"), window(2, 2, "w")],
        vec![],
        vec![stat(1, 1, "a", 1), stat(2, 2, "a", 1)]
    ));
    assert!(!refused(vec![], vec![], vec![], vec![]));
}

#[test]
fn the_schema_creates_five_tables_if_absent() {
    let tables: Vec<&str> = SCHEMA
        .lines()
        .filter_map(|line| line.strip_prefix("CREATE TABLE IF NOT EXISTS "))
        .map(|rest| rest.trim_end_matches(" ("))
        .collect();
    assert_eq!(tables, vec!["processes", "windows", "keys", "hourly_stats", "sessions"]);
    assert!(SCHEMA.lines().all(|line| !line.starts_with("CREATE") || line.contains("IF NOT EXISTS")));
    assert!(SCHEMA.contains("name TEXT NOT NULL UNIQUE"));
    assert!(SCHEMA.contains("UNIQUE(process_id, title)"));
    assert!(SCHEMA.contains("UNIQUE(hour_bucket, key_type)"));
}

#[test]
fn the_schema_takes_the_rows_of_the_store() {
    let conn = rusqlite::Connection::open_in_memory().unwrap();
    conn.execute_batch(SCHEMA).unwrap();
    // Running it again changes nothing.
    conn.execute_batch(SCHEMA).unwrap();

    let mut storage = SqliteStorage::in_memory();
    storage.record_keystroke_at("VSCode", "main.rs", 10, 1_000).unwrap();
    storage.record_keystroke_at("VSCode", "main.rs", 20, 2_000).unwrap();
    storage.record_keystroke_at("Terminal", "zsh", 5, 3_000).unwrap();
    storage.record_hourly_stat(1, "a").unwrap();
    storage.record_hourly_stat(1, "a").unwrap();
    for row in storage.processes() {
        conn.execute("INSERT INTO processes (id, name) VALUES (?1, ?2)", (row.id, &row.name)).unwrap();
    }
    for row in storage.windows() {
        conn.execute(
            "INSERT INTO windows (id, process_id, title) VALUES (?1, ?2, ?3)",
            (row.id, row.process_id, &row.title),
        )
        .unwrap();
    }
    for row in storage.keys() {
        conn.execute(
            "INSERT INTO keys (id, window_id, key_count, started_at) VALUES (?1, ?2, ?3, ?4)",
            (row.id, row.window_id, row.key_count, row.started_at),
        )
        .unwrap();
    }
    for row in storage.hourly_stats() {
        conn.execute(
            "INSERT INTO hourly_stats (id, hour_bucket, key_type, count) VALUES (?1, ?2, ?3, ?4)",
            (row.id, row.hour_bucket, &row.key_type, row.count as i64),
        )
        .unwrap();
    }

    // The database sums what the store sums.
    let total: i64 = conn
        .query_row("SELECT COALESCE(SUM(key_count), 0) FROM keys", [], |row| row.get(0))
        .unwrap();
    assert_eq!(total as u64, storage.get_total_keystrokes().unwrap());
    let mut stmt = conn
        .prepare(
            "SELECT p.name, SUM(k.key_count) as total
             FROM keys k
             JOIN windows w ON k.window_id = w.id
             JOIN processes p ON w.process_id = p.id
             GROUP BY p.id
             ORDER BY total DESC",
        )
        .unwrap();
    let by_process: Vec<(String, u64)> = stmt
        .query_map([], |row| Ok((row.get::<_, String>(0)?, row.get::<_, i64>(1)? as u64)))
        .unwrap()
        .map(|row| row.unwrap())
        .collect();
    assert_eq!(by_process, storage.get_keystrokes_by_process().unwrap());
    let heat: (String, i64) = conn
        .query_row(
            "SELECT key_type, SUM(count) as total FROM hourly_stats GROUP BY key_type ORDER BY total DESC",
            [],
            |row| Ok((row.get(0)?, row.get(1)?)),
        )
        .unwrap();
    assert_eq!(vec![(heat.0, heat.1 as u64)], storage.get_heatmap_data().unwrap());

    // The rules of the schema refuse what the store would refuse.
    assert!(conn.execute("INSERT INTO processes (id, name) VALUES (9, 'VSCode')", []).is_err());
    assert!(conn
        .execute("INSERT INTO windows (id, process_id, title) VALUES (9, 1, 'main.rs')", [])
        .is_err());
    assert!(conn
        .execute("INSERT INTO hourly_stats (id, hour_bucket, key_type, count) VALUES (9, 1, 'a', 1)", [])
        .is_err());
}

#[test]
fn the_store_agrees_with_the_statements_in_sql() {
    let conn = rusqlite::Connection::open_in_memory().unwrap();
    conn.execute_batch(SCHEMA).unwrap();
    let mut storage = SqliteStorage::in_memory();

    let batches = [
        ("VSCode", "main.rs", 100u32),
        ("VSCode", "lib.rs", 50),
        ("Terminal", "zsh", 30),
        ("VSCode", "main.rs", 7),
        ("Terminal", "main.rs", 0),
        ("", "", 1),
        ("Terminal", "zsh", 30),
    ];
    for (process, window, count) in batches {
        conn.execute("INSERT OR IGNORE INTO processes (name) VALUES (?1)", [process]).unwrap();
        let process_id: i64 = conn
            .query_row("SELECT id FROM processes WHERE name = ?1", [process], |row| row.get(0))
            .unwrap();
        conn.execute(
            "INSERT OR IGNORE INTO windows (process_id, title) VALUES (?1, ?2)",
            (process_id, window),
        )
        .unwrap();
        let window_id: i64 = conn
            .query_row(
                "SELECT id FROM windows WHERE process_id = ?1 AND title = ?2",
                (process_id, window),
                |row| row.get(0),
            )
            .unwrap();
        conn.execute(
            "INSERT INTO keys (window_id, key_count, started_at) VALUES (?1, ?2, ?3)",
            (window_id, count, "now"),
        )
        .unwrap();
        let id = conn.last_insert_rowid();
        assert_eq!(storage.record_keystroke_at(process, window, count, 0), Ok(id));
    }
    let stats = [(10i64, "a"), (10, "b"), (10, "a"), (11, "a"), (-3, "special:space"), (10, "a")];
    for (bucket, key) in stats {
        conn.execute(
            "INSERT INTO hourly_stats (hour_bucket, key_type, count) VALUES (?1, ?2, 1)
             ON CONFLICT(hour_bucket, key_type) DO UPDATE SET count = count + 1",
            (bucket, key),
        )
        .unwrap();
        assert_eq!(storage.record_hourly_stat(bucket, key), Ok(()));
    }

    let mut stmt = conn.prepare("SELECT id, name FROM processes ORDER BY id").unwrap();
    let processes: Vec<(i64, String)> = stmt
        .query_map([], |row| Ok((row.get(0)?, row.get(1)?)))
        .unwrap()
        .map(|row| row.unwrap())
        .collect();
    let ours: Vec<(i64, String)> =
        storage.processes().iter().map(|r| (r.id, r.name.clone())).collect();
    assert_eq!(processes, ours);

    let mut stmt = conn.prepare("SELECT id, process_id, title FROM windows ORDER BY id").unwrap();
    let windows: Vec<(i64, i64, String)> = stmt
        .query_map([], |row| Ok((row.get(0)?, row.get(1)?, row.get(2)?)))
        .unwrap()
        .map(|row| row.unwrap())
        .collect();
    let ours: Vec<(i64, i64, String)> =
        storage.windows().iter().map(|r| (r.id, r.process_id, r.title.clone())).collect();
    assert_eq!(windows, ours);

    let mut stmt = conn.prepare("SELECT id, window_id, key_count FROM keys ORDER BY id").unwrap();
    let keys: Vec<(i64, i64, u32)> = stmt
        .query_map([], |row| Ok((row.get(0)?, row.get(1)?, row.get(2)?)))
        .unwrap()
        .map(|row| row.unwrap())
        .collect();
    let ours: Vec<(i64, i64, u32)> =
        storage.keys().iter().map(|r| (r.id, r.window_id, r.key_count)).collect();
    assert_eq!(keys, ours);

    let mut stmt =
        conn.prepare("SELECT id, hour_bucket, key_type, count FROM hourly_stats ORDER BY id").unwrap();
    let hourly: Vec<(i64, i64, String, i64)> = stmt
        .query_map([], |row| Ok((row.get(0)?, row.get(1)?, row.get(2)?, row.get(3)?)))
        .unwrap()
        .map(|row| row.unwrap())
        .collect();
    let ours: Vec<(i64, i64, String, i64)> = storage
        .hourly_stats()
        .iter()
        .map(|r| (r.id, r.hour_bucket, r.key_type.clone(), r.count as i64))
        .collect();
    assert_eq!(hourly, ours);

    let mut stmt = conn
        .prepare(
            "SELECT key_type, SUM(count) as total
             FROM hourly_stats
             GROUP BY key_type
             ORDER BY total DESC",
        )
        .unwrap();
    let mut heat: Vec<(String, u64)> = stmt
        .query_map([], |row| Ok((row.get::<_, String>(0)?, row.get::<_, i64>(1)? as u64)))
        .unwrap()
        .map(|row| row.unwrap())
        .collect();
    let mut ours = storage.get_heatmap_data().unwrap();
    // Both are descending; rows with equal sums may stand in either order.
    assert!(heat.windows(2).all(|pair| pair[0].1 >= pair[1].1));
    assert!(ours.windows(2).all(|pair| pair[0].1 >= pair[1].1));
    assert_eq!(ours, vec![("a".to_string(), 4), ("b".to_string(), 1), ("special:space".to_string(), 1)]);
    heat.sort();
    ours.sort();
    assert_eq!(heat, ours);
}
