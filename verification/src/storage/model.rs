//! The tables of the store as plain values, the rules that they keep, and
//! what each operation of the store does to them.

use vstd::prelude::*;

use super::aggregate::{report, Tally};
use super::StorageError;
use crate::seq_find::first_index;

verus! {

/// A process that received key-downs. Names are unique.
#[derive(Debug, Clone)]
pub struct ProcessRow {
    pub id: i64,
    pub name: String,
}

/// A window of a process. A process has each title once.
#[derive(Debug, Clone)]
pub struct WindowRow {
    pub id: i64,
    pub process_id: i64,
    pub title: String,
}

/// One recorded batch of key-downs in a window.
#[derive(Debug, Clone, Copy, PartialEq, Eq, Structural)]
pub struct KeyRecord {
    pub id: i64,
    pub window_id: i64,
    pub created_at: i64,
    pub key_count: u32,
    pub started_at: i64,
}

/// How often a key type was pressed within one hour. An hour bucket has
/// each key type once.
#[derive(Debug, Clone)]
pub struct HourlyStat {
    pub id: i64,
    pub hour_bucket: i64,
    pub key_type: String,
    pub count: u64,
}

/// A process row, as plain values.
pub struct ProcessView {
    pub id: i64,
    pub name: Seq<char>,
}

/// A window row, as plain values.
pub struct WindowView {
    pub id: i64,
    pub process_id: i64,
    pub title: Seq<char>,
}

/// An hourly row, as plain values.
pub struct HourlyView {
    pub id: i64,
    pub hour_bucket: i64,
    pub key_type: Seq<char>,
    pub count: u64,
}

impl View for ProcessRow {
    type V = ProcessView;

    open spec fn view(&self) -> ProcessView {
        ProcessView { id: self.id, name: self.name@ }
    }
}

impl View for WindowRow {
    type V = WindowView;

    open spec fn view(&self) -> WindowView {
        WindowView { id: self.id, process_id: self.process_id, title: self.title@ }
    }
}

impl View for HourlyStat {
    type V = HourlyView;

    open spec fn view(&self) -> HourlyView {
        HourlyView {
            id: self.id,
            hour_bucket: self.hour_bucket,
            key_type: self.key_type@,
            count: self.count,
        }
    }
}

/// The four tables, as plain values.
pub struct StoreView {
    pub processes: Seq<ProcessView>,
    pub windows: Seq<WindowView>,
    pub keys: Seq<KeyRecord>,
    pub hourly: Seq<HourlyView>,
}

/// Identifiers that start at one or above and grow along the table.
pub open spec fn ascending(ids: Seq<i64>) -> bool {
    &&& forall|i: int| 0 <= i < ids.len() ==> #[trigger] ids[i] >= 1
    &&& forall|i: int, j: int| 0 <= i < j < ids.len() ==> #[trigger] ids[i] < #[trigger] ids[j]
}

/// The identifier that the next row of a table gets: one more than the last
/// row's, or one in an empty table.
pub open spec fn next_id(ids: Seq<i64>) -> int {
    if ids.len() == 0 {
        1
    } else {
        ids.last() + 1
    }
}

/// The condition of being the process called `name`.
pub open spec fn has_name(name: Seq<char>) -> spec_fn(ProcessView) -> bool {
    |row: ProcessView| row.name == name
}

/// The condition of being the process with the identifier `id`.
pub open spec fn has_process_id(id: i64) -> spec_fn(ProcessView) -> bool {
    |row: ProcessView| row.id == id
}

/// The condition of being the window of a process with a title.
pub open spec fn is_window(process_id: i64, title: Seq<char>) -> spec_fn(WindowView) -> bool {
    |row: WindowView| row.process_id == process_id && row.title == title
}

/// The condition of being the window with the identifier `id`.
pub open spec fn has_window_id(id: i64) -> spec_fn(WindowView) -> bool {
    |row: WindowView| row.id == id
}

/// The condition of being the row of a key type in an hour bucket.
pub open spec fn is_stat(hour_bucket: i64, key_type: Seq<char>) -> spec_fn(HourlyView) -> bool {
    |row: HourlyView| row.hour_bucket == hour_bucket && row.key_type == key_type
}

impl StoreView {
    /// The identifiers of the process rows, in table order.
    pub open spec fn process_ids(self) -> Seq<i64> {
        Seq::new(self.processes.len(), |i: int| self.processes[i].id)
    }

    /// The identifiers of the window rows, in table order.
    pub open spec fn window_ids(self) -> Seq<i64> {
        Seq::new(self.windows.len(), |i: int| self.windows[i].id)
    }

    /// The identifiers of the key records, in table order.
    pub open spec fn key_ids(self) -> Seq<i64> {
        Seq::new(self.keys.len(), |i: int| self.keys[i].id)
    }

    /// The identifiers of the hourly rows, in table order.
    pub open spec fn hourly_ids(self) -> Seq<i64> {
        Seq::new(self.hourly.len(), |i: int| self.hourly[i].id)
    }

    /// No two processes have the same name.
    pub open spec fn names_unique(self) -> bool {
        forall|i: int, j: int|
            0 <= i < j < self.processes.len() ==> (#[trigger] self.processes[i]).name != (
            #[trigger] self.processes[j]).name
    }

    /// No process has two windows with the same title.
    pub open spec fn windows_unique(self) -> bool {
        forall|i: int, j: int|
            0 <= i < j < self.windows.len() ==> !is_window(
                (#[trigger] self.windows[i]).process_id,
                self.windows[i].title,
            )(#[trigger] self.windows[j])
    }

    /// No hour bucket has two rows for the same key type.
    pub open spec fn stats_unique(self) -> bool {
        forall|i: int, j: int|
            0 <= i < j < self.hourly.len() ==> !is_stat(
                (#[trigger] self.hourly[i]).hour_bucket,
                self.hourly[i].key_type,
            )(#[trigger] self.hourly[j])
    }

    /// Every window belongs to a process of the store.
    pub open spec fn windows_have_processes(self) -> bool {
        forall|i: int|
            0 <= i < self.windows.len() ==> first_index(
                self.processes,
                has_process_id((#[trigger] self.windows[i]).process_id),
            ) is Some
    }

    /// Every key record belongs to a window of the store.
    pub open spec fn keys_have_windows(self) -> bool {
        forall|i: int|
            0 <= i < self.keys.len() ==> first_index(
                self.windows,
                has_window_id((#[trigger] self.keys[i]).window_id),
            ) is Some
    }

    /// Every hourly row has counted at least one key-down.
    pub open spec fn counts_positive(self) -> bool {
        forall|i: int| 0 <= i < self.hourly.len() ==> (#[trigger] self.hourly[i]).count >= 1
    }

    /// The rules of the schema: identifiers ascend in every table; process
    /// names, the titles of one process and the key types of one hour
    /// bucket are unique; every window has its process and every key record
    /// its window; every hourly count is at least one.
    pub open spec fn wf(self) -> bool {
        &&& ascending(self.process_ids())
        &&& ascending(self.window_ids())
        &&& ascending(self.key_ids())
        &&& ascending(self.hourly_ids())
        &&& self.names_unique()
        &&& self.windows_unique()
        &&& self.stats_unique()
        &&& self.windows_have_processes()
        &&& self.keys_have_windows()
        &&& self.counts_positive()
    }

    /// The store with nothing in it.
    pub open spec fn empty() -> StoreView {
        StoreView {
            processes: Seq::empty(),
            windows: Seq::empty(),
            keys: Seq::empty(),
            hourly: Seq::empty(),
        }
    }
}

/// Get-or-create of a process: the store and the process's identifier, or
/// no identifier where a new row was needed and the table is full.
pub open spec fn with_process(store: StoreView, name: Seq<char>) -> (StoreView, Option<i64>) {
    match first_index(store.processes, has_name(name)) {
        Some(i) => (store, Some(store.processes[i].id)),
        None => if next_id(store.process_ids()) > i64::MAX {
            (store, None)
        } else {
            let id = next_id(store.process_ids()) as i64;
            (
                StoreView { processes: store.processes.push(ProcessView { id, name }), ..store },
                Some(id),
            )
        },
    }
}

/// Get-or-create of a window of a process.
pub open spec fn with_window(store: StoreView, process_id: i64, title: Seq<char>) -> (
    StoreView,
    Option<i64>,
) {
    match first_index(store.windows, is_window(process_id, title)) {
        Some(i) => (store, Some(store.windows[i].id)),
        None => if next_id(store.window_ids()) > i64::MAX {
            (store, None)
        } else {
            let id = next_id(store.window_ids()) as i64;
            (
                StoreView {
                    windows: store.windows.push(WindowView { id, process_id, title }),
                    ..store
                },
                Some(id),
            )
        },
    }
}

/// A new key record at the end of the table, stamped with `now`.
pub open spec fn with_key(store: StoreView, window_id: i64, key_count: u32, now: i64) -> (
    StoreView,
    Option<i64>,
) {
    if next_id(store.key_ids()) > i64::MAX {
        (store, None)
    } else {
        let id = next_id(store.key_ids()) as i64;
        (
            StoreView {
                keys: store.keys.push(
                    KeyRecord { id, window_id, created_at: now, key_count, started_at: now },
                ),
                ..store
            },
            Some(id),
        )
    }
}

/// Recording a batch: get-or-create the process, get-or-create the window,
/// append the key record. Each step stands once it is done: a later step
/// that fails leaves the earlier rows in the store.
pub open spec fn record_keystroke_spec(
    store: StoreView,
    process: Seq<char>,
    window: Seq<char>,
    key_count: u32,
    now: i64,
) -> (StoreView, Result<i64, StorageError>) {
    let (store1, process_id) = with_process(store, process);
    match process_id {
        None => (store1, Err(StorageError::Full)),
        Some(process_id) => {
            let (store2, window_id) = with_window(store1, process_id, window);
            match window_id {
                None => (store2, Err(StorageError::Full)),
                Some(window_id) => {
                    let (store3, key_id) = with_key(store2, window_id, key_count, now);
                    match key_id {
                        None => (store3, Err(StorageError::Full)),
                        Some(key_id) => (store3, Ok(key_id)),
                    }
                },
            }
        },
    }
}

/// Counting one key-down of a key type in an hour bucket: the pair's row
/// counts one more, or a new row starts at one.
pub open spec fn record_hourly_spec(store: StoreView, hour_bucket: i64, key_type: Seq<char>) -> (
    StoreView,
    Result<(), StorageError>,
) {
    match first_index(store.hourly, is_stat(hour_bucket, key_type)) {
        Some(i) => if store.hourly[i].count == u64::MAX {
            (store, Err(StorageError::Overflow))
        } else {
            (
                StoreView {
                    hourly: store.hourly.update(
                        i,
                        HourlyView { count: (store.hourly[i].count + 1) as u64, ..store.hourly[i] },
                    ),
                    ..store
                },
                Ok(()),
            )
        },
        None => if next_id(store.hourly_ids()) > i64::MAX {
            (store, Err(StorageError::Full))
        } else {
            (
                StoreView {
                    hourly: store.hourly.push(
                        HourlyView {
                            id: next_id(store.hourly_ids()) as i64,
                            hour_bucket,
                            key_type,
                            count: 1,
                        },
                    ),
                    ..store
                },
                Ok(()),
            )
        },
    }
}

/// The sum of the key counts of all key records.
pub open spec fn total_keystrokes(keys: Seq<KeyRecord>) -> nat
    decreases keys.len(),
{
    if keys.len() == 0 {
        0
    } else {
        total_keystrokes(keys.drop_last()) + keys.last().key_count as nat
    }
}

/// The name of the process that a key record belongs to: the process of the
/// record's window.
pub open spec fn key_owner(store: StoreView, key: KeyRecord) -> Option<Seq<char>> {
    match first_index(store.windows, has_window_id(key.window_id)) {
        None => None,
        Some(w) => match first_index(
            store.processes,
            has_process_id(store.windows[w].process_id),
        ) {
            None => None,
            Some(p) => Some(store.processes[p].name),
        },
    }
}

/// The first `n` key records joined with their windows and processes: the
/// owner's name and the key count of each record that has an owner.
pub open spec fn joined_keys(store: StoreView, n: nat) -> Seq<Tally>
    decreases n,
{
    if n == 0 {
        Seq::empty()
    } else {
        let key = store.keys[n - 1];
        match key_owner(store, key) {
            Some(name) => joined_keys(store, (n - 1) as nat).push((name, key.key_count as nat)),
            None => joined_keys(store, (n - 1) as nat),
        }
    }
}

/// The key type and the count of each hourly row.
pub open spec fn hourly_entries(hourly: Seq<HourlyView>) -> Seq<Tally> {
    Seq::new(hourly.len(), |i: int| (hourly[i].key_type, hourly[i].count as nat))
}

/// Keystrokes per process, largest sum first.
pub open spec fn by_process_spec(store: StoreView) -> Seq<Tally> {
    report(joined_keys(store, store.keys.len()))
}

/// Key-downs per key type over all hour buckets, largest sum first.
pub open spec fn heatmap_spec(store: StoreView) -> Seq<Tally> {
    report(hourly_entries(store.hourly))
}

/// The tables that given rows make up.
pub open spec fn rows_view(
    processes: Seq<ProcessRow>,
    windows: Seq<WindowRow>,
    keys: Seq<KeyRecord>,
    hourly_stats: Seq<HourlyStat>,
) -> StoreView {
    StoreView {
        processes: Seq::new(processes.len(), |i: int| processes[i]@),
        windows: Seq::new(windows.len(), |i: int| windows[i]@),
        keys,
        hourly: Seq::new(hourly_stats.len(), |i: int| hourly_stats[i]@),
    }
}

} // verus!
