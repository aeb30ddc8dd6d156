//! The aggregation store: processes, windows, key records and hourly
//! statistics, held as rows.
//!
//! Two ways of counting live side by side. Key records are only ever
//! appended: one row per recorded batch, never merged. Hourly statistics are
//! counted in place: one row per hour bucket and key type.
//!
//! Instants count milliseconds since the Unix epoch, UTC.

pub mod aggregate;
pub mod laws;
pub mod model;

pub use laws::{
    all_recorded, batch_total, count_hourly_times, hourly_count, lemma_by_process_sums_to_total,
    lemma_hourly_counts_converge, lemma_joined_keys_account_for_all, lemma_record_hourly,
    lemma_record_hourly_keeps_wf, lemma_record_hourly_succeeds, lemma_record_keystroke,
    lemma_record_keystroke_keeps_keys, lemma_record_keystroke_succeeds,
    lemma_recording_a_pair_twice, lemma_recording_a_pair_twice_from_empty,
    lemma_total_is_the_sum_of_recorded_counts, lemma_total_keystrokes_grows, lemma_with_process,
    lemma_with_window, record_all, Batch,
};
pub use model::{
    ascending, by_process_spec, has_name, has_process_id, has_window_id, heatmap_spec,
    hourly_entries, is_stat, is_window, joined_keys, key_owner, next_id, record_hourly_spec,
    record_keystroke_spec, rows_view, total_keystrokes, with_key, with_process, with_window,
    HourlyStat, HourlyView, KeyRecord, ProcessRow, ProcessView, StoreView, WindowRow, WindowView,
};

use vstd::prelude::*;

use crate::clock::now_millis;
use crate::seq_find::{
    first_index, lemma_first_index, lemma_first_index_is, lemma_first_index_none,
};
use aggregate::{build_report, label_total, lemma_report_of_nothing, overflows, tallies};
use laws::{
    lemma_count_hourly_keeps_wf, lemma_push_hourly_keeps_wf, lemma_push_key_keeps_wf,
    lemma_push_process_keeps_wf, lemma_push_window_keeps_wf,
};

verus! {

/// The schema of the durable copy, as SQL. Every statement creates what is
/// missing and leaves what is there, so the text can be run at every
/// opening. The unique columns are the uniqueness rules of the rows.
pub const SCHEMA: &'static str = "
CREATE TABLE IF NOT EXISTS processes (
    id INTEGER PRIMARY KEY,
    name TEXT NOT NULL UNIQUE
);

CREATE TABLE IF NOT EXISTS windows (
    id INTEGER PRIMARY KEY,
    process_id INTEGER NOT NULL REFERENCES processes(id),
    title TEXT NOT NULL,
    UNIQUE(process_id, title)
);

CREATE TABLE IF NOT EXISTS keys (
    id INTEGER PRIMARY KEY,
    window_id INTEGER NOT NULL REFERENCES windows(id),
    created_at TIMESTAMP NOT NULL DEFAULT CURRENT_TIMESTAMP,
    key_text TEXT,
    key_count INTEGER NOT NULL,
    started_at TIMESTAMP NOT NULL
);

CREATE TABLE IF NOT EXISTS hourly_stats (
    id INTEGER PRIMARY KEY,
    hour_bucket INTEGER NOT NULL,
    key_type TEXT NOT NULL,
    count INTEGER NOT NULL DEFAULT 1,
    UNIQUE(hour_bucket, key_type)
);

CREATE TABLE IF NOT EXISTS sessions (
    id INTEGER PRIMARY KEY,
    started_at TIMESTAMP NOT NULL,
    ended_at TIMESTAMP,
    key_count INTEGER NOT NULL DEFAULT 0
);

CREATE INDEX IF NOT EXISTS idx_keys_window ON keys(window_id);
CREATE INDEX IF NOT EXISTS idx_keys_created ON keys(created_at);
CREATE INDEX IF NOT EXISTS idx_windows_process ON windows(process_id);
CREATE INDEX IF NOT EXISTS idx_hourly_bucket ON hourly_stats(hour_bucket);
";

/// Why the store refused an operation.
#[derive(Debug, Clone, Copy, PartialEq, Eq, Structural)]
pub enum StorageError {
    /// A table has used up its row identifiers.
    Full,
    /// A sum or a count does not fit in 64 bits.
    Overflow,
    /// The rows handed in break a rule of the schema.
    Invalid,
}

/// The store's tables, kept as rows in memory. A durable copy is the
/// caller's to keep: it can read the rows through the accessors and hand
/// them back to `from_rows`.
pub struct SqliteStorage {
    processes: Vec<ProcessRow>,
    windows: Vec<WindowRow>,
    keys: Vec<KeyRecord>,
    hourly_stats: Vec<HourlyStat>,
}

impl View for SqliteStorage {
    type V = StoreView;

    closed spec fn view(&self) -> StoreView {
        StoreView {
            processes: Seq::new(self.processes@.len(), |i: int| self.processes@[i]@),
            windows: Seq::new(self.windows@.len(), |i: int| self.windows@[i]@),
            keys: self.keys@,
            hourly: Seq::new(self.hourly_stats@.len(), |i: int| self.hourly_stats@[i]@),
        }
    }
}

impl SqliteStorage {
    /// An empty store.
    pub fn in_memory() -> (store: SqliteStorage)
        ensures
            store@ == StoreView::empty(),
            store@.wf(),
    {
        let store = SqliteStorage {
            processes: Vec::new(),
            windows: Vec::new(),
            keys: Vec::new(),
            hourly_stats: Vec::new(),
        };
        assert(store@.processes =~= Seq::empty());
        assert(store@.windows =~= Seq::empty());
        assert(store@.hourly =~= Seq::empty());
        assert(store@.process_ids() =~= Seq::empty());
        store
    }

    fn find_process(&self, name: &String) -> (found: Option<usize>)
        ensures
            match found {
                Some(i) => i < self@.processes.len() && first_index(
                    self@.processes,
                    has_name(name@),
                ) == Some(i as int),
                None => first_index(self@.processes, has_name(name@)) is None,
            },
    {
        let mut i: usize = 0;
        while i < self.processes.len()
            invariant
                i <= self.processes.len(),
                forall|k: int| 0 <= k < i ==> !has_name(name@)(#[trigger] self@.processes[k]),
            decreases self.processes.len() - i,
        {
            if self.processes[i].name == *name {
                proof {
                    assert(has_name(name@)(self@.processes[i as int]));
                    lemma_first_index_is(self@.processes, has_name(name@), i as int);
                }
                return Some(i);
            }
            i += 1;
        }
        proof {
            lemma_first_index_none(self@.processes, has_name(name@));
        }
        None
    }

    fn find_process_by_id(&self, id: i64) -> (found: Option<usize>)
        ensures
            match found {
                Some(i) => i < self@.processes.len() && first_index(
                    self@.processes,
                    has_process_id(id),
                ) == Some(i as int),
                None => first_index(self@.processes, has_process_id(id)) is None,
            },
    {
        let mut i: usize = 0;
        while i < self.processes.len()
            invariant
                i <= self.processes.len(),
                forall|k: int| 0 <= k < i ==> !has_process_id(id)(#[trigger] self@.processes[k]),
            decreases self.processes.len() - i,
        {
            if self.processes[i].id == id {
                proof {
                    assert(has_process_id(id)(self@.processes[i as int]));
                    lemma_first_index_is(self@.processes, has_process_id(id), i as int);
                }
                return Some(i);
            }
            i += 1;
        }
        proof {
            lemma_first_index_none(self@.processes, has_process_id(id));
        }
        None
    }

    fn find_window(&self, process_id: i64, title: &String) -> (found: Option<usize>)
        ensures
            match found {
                Some(i) => i < self@.windows.len() && first_index(
                    self@.windows,
                    is_window(process_id, title@),
                ) == Some(i as int),
                None => first_index(self@.windows, is_window(process_id, title@)) is None,
            },
    {
        let mut i: usize = 0;
        while i < self.windows.len()
            invariant
                i <= self.windows.len(),
                forall|k: int|
                    0 <= k < i ==> !is_window(process_id, title@)(#[trigger] self@.windows[k]),
            decreases self.windows.len() - i,
        {
            if self.windows[i].process_id == process_id && self.windows[i].title == *title {
                proof {
                    assert(is_window(process_id, title@)(self@.windows[i as int]));
                    lemma_first_index_is(self@.windows, is_window(process_id, title@), i as int);
                }
                return Some(i);
            }
            i += 1;
        }
        proof {
            lemma_first_index_none(self@.windows, is_window(process_id, title@));
        }
        None
    }

    fn find_window_by_id(&self, id: i64) -> (found: Option<usize>)
        ensures
            match found {
                Some(i) => i < self@.windows.len() && first_index(self@.windows, has_window_id(id))
                    == Some(i as int),
                None => first_index(self@.windows, has_window_id(id)) is None,
            },
    {
        let mut i: usize = 0;
        while i < self.windows.len()
            invariant
                i <= self.windows.len(),
                forall|k: int| 0 <= k < i ==> !has_window_id(id)(#[trigger] self@.windows[k]),
            decreases self.windows.len() - i,
        {
            if self.windows[i].id == id {
                proof {
                    assert(has_window_id(id)(self@.windows[i as int]));
                    lemma_first_index_is(self@.windows, has_window_id(id), i as int);
                }
                return Some(i);
            }
            i += 1;
        }
        proof {
            lemma_first_index_none(self@.windows, has_window_id(id));
        }
        None
    }

    fn find_stat(&self, hour_bucket: i64, key_type: &String) -> (found: Option<usize>)
        ensures
            match found {
                Some(i) => i < self@.hourly.len() && first_index(
                    self@.hourly,
                    is_stat(hour_bucket, key_type@),
                ) == Some(i as int),
                None => first_index(self@.hourly, is_stat(hour_bucket, key_type@)) is None,
            },
    {
        let mut i: usize = 0;
        while i < self.hourly_stats.len()
            invariant
                i <= self.hourly_stats.len(),
                forall|k: int|
                    0 <= k < i ==> !is_stat(hour_bucket, key_type@)(#[trigger] self@.hourly[k]),
            decreases self.hourly_stats.len() - i,
        {
            if self.hourly_stats[i].hour_bucket == hour_bucket && self.hourly_stats[i].key_type
                == *key_type {
                proof {
                    assert(is_stat(hour_bucket, key_type@)(self@.hourly[i as int]));
                    lemma_first_index_is(self@.hourly, is_stat(hour_bucket, key_type@), i as int);
                }
                return Some(i);
            }
            i += 1;
        }
        proof {
            lemma_first_index_none(self@.hourly, is_stat(hour_bucket, key_type@));
        }
        None
    }

    fn ensure_process(&mut self, name: String) -> (id: Option<i64>)
        ensures
            final(self)@ == with_process(old(self)@, name@).0,
            id == with_process(old(self)@, name@).1,
            old(self)@.wf() ==> final(self)@.wf(),
            id matches Some(id) ==> first_index(final(self)@.processes, has_process_id(id)) is Some,
    {
        match self.find_process(&name) {
            Some(i) => {
                let id: i64 = self.processes[i].id;
                proof {
                    assert(has_process_id(id)(self@.processes[i as int]));
                    lemma_first_index(self@.processes, has_process_id(id));
                }
                Some(id)
            },
            None => {
                let count: usize = self.processes.len();
                let last: i64 = if count == 0 {
                    0
                } else {
                    self.processes[count - 1].id
                };
                proof {
                    if count > 0 {
                        assert(self@.process_ids()[count - 1] == last);
                    }
                }
                if last == i64::MAX {
                    return None;
                }
                let id: i64 = last + 1;
                let ghost before = self@;
                self.processes.push(ProcessRow { id, name });
                proof {
                    let after = self@;
                    assert(after.processes == before.processes.push(ProcessView { id, name: name@ }));
                    assert(after.windows == before.windows);
                    assert(after.hourly == before.hourly);
                    lemma_first_index(before.processes, has_name(name@));
                    if before.wf() {
                        lemma_push_process_keeps_wf(before, ProcessView { id, name: name@ });
                    }
                    assert(has_process_id(id)(after.processes[count as int]));
                    lemma_first_index(after.processes, has_process_id(id));
                }
                Some(id)
            },
        }
    }

    fn ensure_window(&mut self, process_id: i64, title: String) -> (id: Option<i64>)
        ensures
            final(self)@ == with_window(old(self)@, process_id, title@).0,
            id == with_window(old(self)@, process_id, title@).1,
            old(self)@.wf() && first_index(old(self)@.processes, has_process_id(process_id)) is Some
                ==> final(self)@.wf(),
            id matches Some(id) ==> first_index(final(self)@.windows, has_window_id(id)) is Some,
    {
        match self.find_window(process_id, &title) {
            Some(i) => {
                let id: i64 = self.windows[i].id;
                proof {
                    assert(has_window_id(id)(self@.windows[i as int]));
                    lemma_first_index(self@.windows, has_window_id(id));
                }
                Some(id)
            },
            None => {
                let count: usize = self.windows.len();
                let last: i64 = if count == 0 {
                    0
                } else {
                    self.windows[count - 1].id
                };
                proof {
                    if count > 0 {
                        assert(self@.window_ids()[count - 1] == last);
                    }
                }
                if last == i64::MAX {
                    return None;
                }
                let id: i64 = last + 1;
                let ghost before = self@;
                self.windows.push(WindowRow { id, process_id, title });
                proof {
                    let after = self@;
                    let row = WindowView { id, process_id, title: title@ };
                    assert(after.windows == before.windows.push(row));
                    assert(after.processes == before.processes);
                    assert(after.hourly == before.hourly);
                    lemma_first_index(before.windows, is_window(process_id, title@));
                    if before.wf() && first_index(before.processes, has_process_id(process_id)) is Some {
                        lemma_push_window_keeps_wf(before, row);
                    }
                    assert(has_window_id(id)(after.windows[count as int]));
                    lemma_first_index(after.windows, has_window_id(id));
                }
                Some(id)
            },
        }
    }

    fn append_key(&mut self, window_id: i64, key_count: u32, now: i64) -> (id: Option<i64>)
        ensures
            final(self)@ == with_key(old(self)@, window_id, key_count, now).0,
            id == with_key(old(self)@, window_id, key_count, now).1,
            old(self)@.wf() && first_index(old(self)@.windows, has_window_id(window_id)) is Some
                ==> final(self)@.wf(),
    {
        let count: usize = self.keys.len();
        let last: i64 = if count == 0 {
            0
        } else {
            self.keys[count - 1].id
        };
        proof {
            if count > 0 {
                assert(self@.key_ids()[count - 1] == last);
            }
        }
        if last == i64::MAX {
            return None;
        }
        let id: i64 = last + 1;
        let ghost before = self@;
        self.keys.push(KeyRecord { id, window_id, created_at: now, key_count, started_at: now });
        proof {
            let after = self@;
            assert(after.processes == before.processes);
            assert(after.windows == before.windows);
            assert(after.hourly == before.hourly);
            if before.wf() && first_index(before.windows, has_window_id(window_id)) is Some {
                lemma_push_key_keeps_wf(
                    before,
                    KeyRecord { id, window_id, created_at: now, key_count, started_at: now },
                );
            }
        }
        Some(id)
    }

    /// Records a batch of `key_count` key-downs in a window of a process,
    /// stamped with the instant the system clock reads, and returns the new
    /// key record's identifier.
    pub fn record_keystroke(&mut self, process: &str, window: &str, key_count: u32) -> (result:
        Result<i64, StorageError>)
        ensures
            old(self)@.wf() ==> final(self)@.wf(),
            exists|now: i64|
                (final(self)@, result) == #[trigger] record_keystroke_spec(
                    old(self)@,
                    process@,
                    window@,
                    key_count,
                    now,
                ),
    {
        let now: i64 = now_millis();
        let result = self.record_keystroke_at(process, window, key_count, now);
        assert((self@, result) == record_keystroke_spec(
            old(self)@,
            process@,
            window@,
            key_count,
            now,
        ));
        result
    }

    /// Records a batch stamped with `now`. The process and the window are
    /// created where the store does not have them; the key record is always
    /// a new row. Fails only where a table has run out of identifiers.
    pub fn record_keystroke_at(
        &mut self,
        process: &str,
        window: &str,
        key_count: u32,
        now: i64,
    ) -> (result: Result<i64, StorageError>)
        ensures
            old(self)@.wf() ==> final(self)@.wf(),
            final(self)@ == record_keystroke_spec(old(self)@, process@, window@, key_count, now).0,
            result == record_keystroke_spec(old(self)@, process@, window@, key_count, now).1,
    {
        let process_id: i64 = match self.ensure_process(process.to_owned()) {
            Some(id) => id,
            None => {
                return Err(StorageError::Full);
            },
        };
        let window_id: i64 = match self.ensure_window(process_id, window.to_owned()) {
            Some(id) => id,
            None => {
                return Err(StorageError::Full);
            },
        };
        match self.append_key(window_id, key_count, now) {
            Some(id) => Ok(id),
            None => Err(StorageError::Full),
        }
    }

    /// Counts one key-down of `key_type` in `hour_bucket`.
    pub fn record_hourly_stat(&mut self, hour_bucket: i64, key_type: &str) -> (result: Result<
        (),
        StorageError,
    >)
        ensures
            old(self)@.wf() ==> final(self)@.wf(),
            final(self)@ == record_hourly_spec(old(self)@, hour_bucket, key_type@).0,
            result == record_hourly_spec(old(self)@, hour_bucket, key_type@).1,
    {
        let key_type: String = key_type.to_owned();
        match self.find_stat(hour_bucket, &key_type) {
            Some(i) => {
                let count: u64 = self.hourly_stats[i].count;
                if count == u64::MAX {
                    return Err(StorageError::Overflow);
                }
                let id: i64 = self.hourly_stats[i].id;
                let ghost before = self@;
                proof {
                    lemma_first_index(before.hourly, is_stat(hour_bucket, key_type@));
                }
                self.hourly_stats.set(i, HourlyStat { id, hour_bucket, key_type, count: count + 1 });
                proof {
                    let after = self@;
                    let row = HourlyView {
                        id,
                        hour_bucket,
                        key_type: key_type@,
                        count: (count + 1) as u64,
                    };
                    assert(after.hourly == before.hourly.update(i as int, row));
                    assert(after.processes == before.processes);
                    assert(after.windows == before.windows);
                    if before.wf() {
                        lemma_count_hourly_keeps_wf(before, i as int);
                    }
                }
                Ok(())
            },
            None => {
                let rows: usize = self.hourly_stats.len();
                let last: i64 = if rows == 0 {
                    0
                } else {
                    self.hourly_stats[rows - 1].id
                };
                proof {
                    if rows > 0 {
                        assert(self@.hourly_ids()[rows - 1] == last);
                    }
                }
                if last == i64::MAX {
                    return Err(StorageError::Full);
                }
                let id: i64 = last + 1;
                let ghost before = self@;
                self.hourly_stats.push(HourlyStat { id, hour_bucket, key_type, count: 1 });
                proof {
                    let after = self@;
                    let row = HourlyView { id, hour_bucket, key_type: key_type@, count: 1 };
                    assert(after.hourly == before.hourly.push(row));
                    assert(after.processes == before.processes);
                    assert(after.windows == before.windows);
                    lemma_first_index(before.hourly, is_stat(hour_bucket, key_type@));
                    if before.wf() {
                        lemma_push_hourly_keeps_wf(before, row);
                    }
                }
                Ok(())
            },
        }
    }
}

impl SqliteStorage {
    /// The sum of the key counts of all key records. Fails where the sum
    /// does not fit in 64 bits.
    pub fn get_total_keystrokes(&self) -> (result: Result<u64, StorageError>)
        ensures
            match result {
                Ok(total) => total == total_keystrokes(self@.keys),
                Err(error) => error == StorageError::Overflow && total_keystrokes(self@.keys)
                    > u64::MAX,
            },
    {
        let mut total: u64 = 0;
        let mut i: usize = 0;
        while i < self.keys.len()
            invariant
                i <= self.keys.len(),
                total == total_keystrokes(self.keys@.take(i as int)),
            decreases self.keys.len() - i,
        {
            proof {
                assert(self.keys@.take(i + 1).drop_last() == self.keys@.take(i as int));
            }
            match total.checked_add(self.keys[i].key_count as u64) {
                Some(sum) => {
                    total = sum;
                },
                None => {
                    proof {
                        lemma_total_keystrokes_grows(self.keys@, i + 1);
                    }
                    return Err(StorageError::Overflow);
                },
            }
            i += 1;
        }
        assert(self.keys@.take(self.keys.len() as int) == self.keys@);
        Ok(total)
    }

    /// Keystrokes per process, largest sum first; processes with equal sums
    /// stand in the order of their first key record. Fails where a sum does
    /// not fit in 64 bits.
    pub fn get_keystrokes_by_process(&self) -> (result: Result<Vec<(String, u64)>, StorageError>)
        ensures
            match result {
                Ok(rows) => tallies(rows@) == by_process_spec(self@),
                Err(error) => error == StorageError::Overflow,
            },
            result is Err <==> overflows(joined_keys(self@, self@.keys.len())),
    {
        let mut entries: Vec<(String, u64)> = Vec::new();
        let mut i: usize = 0;
        while i < self.keys.len()
            invariant
                i <= self.keys.len(),
                tallies(entries@) == joined_keys(self@, i as nat),
            decreases self.keys.len() - i,
        {
            let key: KeyRecord = self.keys[i];
            let ghost before = tallies(entries@);
            match self.find_window_by_id(key.window_id) {
                Some(w) => {
                    match self.find_process_by_id(self.windows[w].process_id) {
                        Some(p) => {
                            let name = self.processes[p].name.clone();
                            entries.push((name, key.key_count as u64));
                            assert(tallies(entries@) == before.push(
                                (self@.processes[p as int].name, key.key_count as nat),
                            ));
                        },
                        None => {},
                    }
                },
                None => {},
            }
            i += 1;
        }
        build_report(&entries)
    }

    /// Key-downs per key type, summed over all hour buckets, largest sum
    /// first; key types with equal sums stand in the order of their first
    /// row. Empty where nothing was counted. Fails where a sum does not fit
    /// in 64 bits.
    pub fn get_heatmap_data(&self) -> (result: Result<Vec<(String, u64)>, StorageError>)
        ensures
            match result {
                Ok(rows) => tallies(rows@) == heatmap_spec(self@),
                Err(error) => error == StorageError::Overflow,
            },
            result is Err <==> overflows(hourly_entries(self@.hourly)),
            self@.hourly.len() == 0 ==> result is Ok && result->Ok_0@.len() == 0,
    {
        let mut entries: Vec<(String, u64)> = Vec::new();
        let mut i: usize = 0;
        while i < self.hourly_stats.len()
            invariant
                i <= self.hourly_stats.len(),
                tallies(entries@) == hourly_entries(self@.hourly).take(i as int),
            decreases self.hourly_stats.len() - i,
        {
            let ghost before = tallies(entries@);
            let key_type = self.hourly_stats[i].key_type.clone();
            entries.push((key_type, self.hourly_stats[i].count));
            assert(tallies(entries@) == before.push(hourly_entries(self@.hourly)[i as int]));
            i += 1;
        }
        assert(hourly_entries(self@.hourly).take(self.hourly_stats.len() as int) == hourly_entries(
            self@.hourly,
        ));
        let result = build_report(&entries);
        proof {
            if self@.hourly.len() == 0 {
                let nothing = hourly_entries(self@.hourly);
                lemma_report_of_nothing(nothing);
                assert forall|key_type: Seq<char>| label_total(nothing, key_type) == 0 by {}
                assert(result->Ok_0@.len() == tallies(result->Ok_0@).len());
            }
        }
        result
    }

    /// The row that counts `key_type` in `hour_bucket`, where there is one.
    pub fn hourly_stat(&self, hour_bucket: i64, key_type: &str) -> (row: Option<&HourlyStat>)
        ensures
            match row {
                Some(row) => first_index(self@.hourly, is_stat(hour_bucket, key_type@)) is Some
                    && row@ == self@.hourly[first_index(
                    self@.hourly,
                    is_stat(hour_bucket, key_type@),
                )->0],
                None => first_index(self@.hourly, is_stat(hour_bucket, key_type@)) is None,
            },
    {
        let key_type: String = key_type.to_owned();
        match self.find_stat(hour_bucket, &key_type) {
            Some(i) => Some(&self.hourly_stats[i]),
            None => None,
        }
    }

    /// The process rows, in identifier order.
    pub fn processes(&self) -> (rows: &Vec<ProcessRow>)
        ensures
            rows@.len() == self@.processes.len(),
            forall|i: int| 0 <= i < rows@.len() ==> (#[trigger] rows@[i])@ == self@.processes[i],
    {
        &self.processes
    }

    /// The window rows, in identifier order.
    pub fn windows(&self) -> (rows: &Vec<WindowRow>)
        ensures
            rows@.len() == self@.windows.len(),
            forall|i: int| 0 <= i < rows@.len() ==> (#[trigger] rows@[i])@ == self@.windows[i],
    {
        &self.windows
    }

    /// The key records, in identifier order.
    pub fn keys(&self) -> (rows: &Vec<KeyRecord>)
        ensures
            rows@ == self@.keys,
    {
        &self.keys
    }

    /// The hourly rows, in identifier order.
    pub fn hourly_stats(&self) -> (rows: &Vec<HourlyStat>)
        ensures
            rows@.len() == self@.hourly.len(),
            forall|i: int| 0 <= i < rows@.len() ==> (#[trigger] rows@[i])@ == self@.hourly[i],
    {
        &self.hourly_stats
    }
}

fn ids_ascend(ids: &Vec<i64>) -> (ok: bool)
    ensures
        ok == ascending(ids@),
{
    let mut i: usize = 0;
    while i < ids.len()
        invariant
            i <= ids.len(),
            ascending(ids@.take(i as int)),
        decreases ids.len() - i,
    {
        if ids[i] < 1 || (i > 0 && ids[i - 1] >= ids[i]) {
            proof {
                if ids@[i as int] >= 1 {
                    assert(ids@[i - 1] >= ids@[i as int]);
                }
            }
            return false;
        }
        proof {
            let seen = ids@.take(i as int);
            let next = ids@.take(i + 1);
            assert forall|a: int, b: int| 0 <= a < b < next.len() implies #[trigger] next[a]
                < #[trigger] next[b] by {
                if b < i {
                    assert(seen[a] < seen[b]);
                } else if a < i - 1 {
                    assert(seen[a] < seen[i - 1]);
                }
            }
            assert forall|a: int| 0 <= a < next.len() implies #[trigger] next[a] >= 1 by {
                if a < i {
                    assert(seen[a] >= 1);
                }
            }
        }
        i += 1;
    }
    assert(ids@.take(ids.len() as int) == ids@);
    true
}

impl SqliteStorage {
    fn check_process_ids(&self) -> (ok: bool)
        ensures
            ok == ascending(self@.process_ids()),
    {
        let mut ids: Vec<i64> = Vec::new();
        let mut i: usize = 0;
        while i < self.processes.len()
            invariant
                i <= self.processes.len(),
                ids@ == self@.process_ids().take(i as int),
            decreases self.processes.len() - i,
        {
            ids.push(self.processes[i].id);
            assert(ids@ == self@.process_ids().take(i + 1));
            i += 1;
        }
        assert(self@.process_ids().take(self.processes.len() as int) == self@.process_ids());
        ids_ascend(&ids)
    }

    fn check_window_ids(&self) -> (ok: bool)
        ensures
            ok == ascending(self@.window_ids()),
    {
        let mut ids: Vec<i64> = Vec::new();
        let mut i: usize = 0;
        while i < self.windows.len()
            invariant
                i <= self.windows.len(),
                ids@ == self@.window_ids().take(i as int),
            decreases self.windows.len() - i,
        {
            ids.push(self.windows[i].id);
            assert(ids@ == self@.window_ids().take(i + 1));
            i += 1;
        }
        assert(self@.window_ids().take(self.windows.len() as int) == self@.window_ids());
        ids_ascend(&ids)
    }

    fn check_key_ids(&self) -> (ok: bool)
        ensures
            ok == ascending(self@.key_ids()),
    {
        let mut ids: Vec<i64> = Vec::new();
        let mut i: usize = 0;
        while i < self.keys.len()
            invariant
                i <= self.keys.len(),
                ids@ == self@.key_ids().take(i as int),
            decreases self.keys.len() - i,
        {
            ids.push(self.keys[i].id);
            assert(ids@ == self@.key_ids().take(i + 1));
            i += 1;
        }
        assert(self@.key_ids().take(self.keys.len() as int) == self@.key_ids());
        ids_ascend(&ids)
    }

    fn check_hourly_ids(&self) -> (ok: bool)
        ensures
            ok == ascending(self@.hourly_ids()),
    {
        let mut ids: Vec<i64> = Vec::new();
        let mut i: usize = 0;
        while i < self.hourly_stats.len()
            invariant
                i <= self.hourly_stats.len(),
                ids@ == self@.hourly_ids().take(i as int),
            decreases self.hourly_stats.len() - i,
        {
            ids.push(self.hourly_stats[i].id);
            assert(ids@ == self@.hourly_ids().take(i + 1));
            i += 1;
        }
        assert(self@.hourly_ids().take(self.hourly_stats.len() as int) == self@.hourly_ids());
        ids_ascend(&ids)
    }

    fn check_names_unique(&self) -> (ok: bool)
        ensures
            ok == self@.names_unique(),
    {
        let mut j: usize = 0;
        while j < self.processes.len()
            invariant
                j <= self.processes.len(),
                forall|a: int, b: int|
                    0 <= a < b < j ==> (#[trigger] self@.processes[a]).name != (
                    #[trigger] self@.processes[b]).name,
            decreases self.processes.len() - j,
        {
            let mut i: usize = 0;
            while i < j
                invariant
                    i <= j < self.processes.len(),
                    forall|a: int|
                        0 <= a < i ==> (#[trigger] self@.processes[a]).name
                            != self@.processes[j as int].name,
                decreases j - i,
            {
                if self.processes[i].name == self.processes[j].name {
                    assert(self@.processes[i as int].name == self@.processes[j as int].name);
                    return false;
                }
                i += 1;
            }
            j += 1;
        }
        true
    }

    fn check_windows_unique(&self) -> (ok: bool)
        ensures
            ok == self@.windows_unique(),
    {
        let mut j: usize = 0;
        while j < self.windows.len()
            invariant
                j <= self.windows.len(),
                forall|a: int, b: int|
                    0 <= a < b < j ==> !is_window(
                        (#[trigger] self@.windows[a]).process_id,
                        self@.windows[a].title,
                    )(#[trigger] self@.windows[b]),
            decreases self.windows.len() - j,
        {
            let mut i: usize = 0;
            while i < j
                invariant
                    i <= j < self.windows.len(),
                    forall|a: int|
                        0 <= a < i ==> !is_window(
                            (#[trigger] self@.windows[a]).process_id,
                            self@.windows[a].title,
                        )(self@.windows[j as int]),
                decreases j - i,
            {
                if self.windows[i].process_id == self.windows[j].process_id
                    && self.windows[i].title == self.windows[j].title {
                    assert(is_window(self@.windows[i as int].process_id, self@.windows[i as int].title)(
                        self@.windows[j as int],
                    ));
                    return false;
                }
                i += 1;
            }
            j += 1;
        }
        true
    }

    fn check_stats_unique(&self) -> (ok: bool)
        ensures
            ok == self@.stats_unique(),
    {
        let mut j: usize = 0;
        while j < self.hourly_stats.len()
            invariant
                j <= self.hourly_stats.len(),
                forall|a: int, b: int|
                    0 <= a < b < j ==> !is_stat(
                        (#[trigger] self@.hourly[a]).hour_bucket,
                        self@.hourly[a].key_type,
                    )(#[trigger] self@.hourly[b]),
            decreases self.hourly_stats.len() - j,
        {
            let mut i: usize = 0;
            while i < j
                invariant
                    i <= j < self.hourly_stats.len(),
                    forall|a: int|
                        0 <= a < i ==> !is_stat(
                            (#[trigger] self@.hourly[a]).hour_bucket,
                            self@.hourly[a].key_type,
                        )(self@.hourly[j as int]),
                decreases j - i,
            {
                if self.hourly_stats[i].hour_bucket == self.hourly_stats[j].hour_bucket
                    && self.hourly_stats[i].key_type == self.hourly_stats[j].key_type {
                    assert(is_stat(self@.hourly[i as int].hour_bucket, self@.hourly[i as int].key_type)(
                        self@.hourly[j as int],
                    ));
                    return false;
                }
                i += 1;
            }
            j += 1;
        }
        true
    }

    fn check_references(&self) -> (ok: bool)
        ensures
            ok == (self@.windows_have_processes() && self@.keys_have_windows()),
    {
        let mut i: usize = 0;
        while i < self.windows.len()
            invariant
                i <= self.windows.len(),
                forall|a: int|
                    0 <= a < i ==> first_index(
                        self@.processes,
                        has_process_id((#[trigger] self@.windows[a]).process_id),
                    ) is Some,
            decreases self.windows.len() - i,
        {
            if self.find_process_by_id(self.windows[i].process_id).is_none() {
                assert(first_index(
                    self@.processes,
                    has_process_id(self@.windows[i as int].process_id),
                ) is None);
                return false;
            }
            i += 1;
        }
        let mut k: usize = 0;
        while k < self.keys.len()
            invariant
                k <= self.keys.len(),
                self@.windows_have_processes(),
                forall|a: int|
                    0 <= a < k ==> first_index(
                        self@.windows,
                        has_window_id((#[trigger] self@.keys[a]).window_id),
                    ) is Some,
            decreases self.keys.len() - k,
        {
            if self.find_window_by_id(self.keys[k].window_id).is_none() {
                assert(first_index(self@.windows, has_window_id(self@.keys[k as int].window_id)) is None);
                return false;
            }
            k += 1;
        }
        true
    }

    fn check_counts(&self) -> (ok: bool)
        ensures
            ok == self@.counts_positive(),
    {
        let mut i: usize = 0;
        while i < self.hourly_stats.len()
            invariant
                i <= self.hourly_stats.len(),
                forall|a: int| 0 <= a < i ==> (#[trigger] self@.hourly[a]).count >= 1,
            decreases self.hourly_stats.len() - i,
        {
            if self.hourly_stats[i].count < 1 {
                assert(self@.hourly[i as int].count < 1);
                return false;
            }
            i += 1;
        }
        true
    }

    /// A store over rows that were kept elsewhere, each table in identifier
    /// order. The rows are taken as they are where they keep the rules of
    /// the schema, and refused as a whole where they break one. The time
    /// this takes grows with the square of the larger tables.
    pub fn from_rows(
        processes: Vec<ProcessRow>,
        windows: Vec<WindowRow>,
        keys: Vec<KeyRecord>,
        hourly_stats: Vec<HourlyStat>,
    ) -> (result: Result<SqliteStorage, StorageError>)
        ensures
            match result {
                Ok(store) => store@ == rows_view(processes@, windows@, keys@, hourly_stats@)
                    && store@.wf(),
                Err(error) => error == StorageError::Invalid && !rows_view(
                    processes@,
                    windows@,
                    keys@,
                    hourly_stats@,
                ).wf(),
            },
    {
        let store = SqliteStorage { processes, windows, keys, hourly_stats };
        assert(store@ == rows_view(processes@, windows@, keys@, hourly_stats@));
        if store.check_process_ids() && store.check_window_ids() && store.check_key_ids()
            && store.check_hourly_ids() && store.check_counts() && store.check_references()
            && store.check_names_unique() && store.check_windows_unique()
            && store.check_stats_unique() {
            Ok(store)
        } else {
            Err(StorageError::Invalid)
        }
    }
}

} // verus!
