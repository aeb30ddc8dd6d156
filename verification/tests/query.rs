use kstrk::query::QueryEngine;
use kstrk::storage::SqliteStorage;

#[test]
fn test_query_engine() {
    let storage = SqliteStorage::in_memory();
    let engine = QueryEngine::new(&storage);

    let total = engine.total_keystrokes().unwrap();
    assert_eq!(total, 0);
}

#[test]
fn by_process_keeps_the_top_rows() {
    let mut storage = SqliteStorage::in_memory();
    for (process, count) in [("a", 1), ("b", 5), ("c", 3), ("d", 4), ("b", 1)] {
        storage.record_keystroke_at(process, "w", count, 0).unwrap();
    }
    let engine = QueryEngine::new(&storage);
    let all = vec![
        ("b".to_string(), 6),
        ("d".to_string(), 4),
        ("c".to_string(), 3),
        ("a".to_string(), 1),
    ];
    assert_eq!(engine.by_process(0).unwrap(), Vec::<(String, u64)>::new());
    assert_eq!(engine.by_process(2).unwrap(), all[..2].to_vec());
    assert_eq!(engine.by_process(4).unwrap(), all);
    assert_eq!(engine.by_process(20).unwrap(), all);
    assert_eq!(engine.by_process(usize::MAX).unwrap(), all);
    assert_eq!(engine.total_keystrokes().unwrap(), 14);
}

#[test]
fn by_window_reports_nothing() {
    let mut storage = SqliteStorage::in_memory();
    storage.record_keystroke_at("a", "w", 1, 0).unwrap();
    let engine = QueryEngine::new(&storage);
    assert!(engine.by_window(None, None, 20).unwrap().is_empty());
    assert!(engine.by_window(Some("w"), Some("a"), 20).unwrap().is_empty());
}
