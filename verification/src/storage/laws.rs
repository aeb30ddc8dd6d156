//! What holds of the store: the rules survive every operation, recording
//! appends, counting converges, and the reports account for every row.

use vstd::prelude::*;

use super::aggregate::{lemma_report_keeps_sum, tally_sum};
use super::model::{
    by_process_spec, has_name, has_process_id, has_window_id, is_stat, is_window, joined_keys,
    key_owner, next_id, record_hourly_spec, record_keystroke_spec, total_keystrokes, with_key,
    with_process, with_window, HourlyView, KeyRecord, ProcessView, StoreView, WindowView,
};
use super::StorageError;
use crate::seq_find::{
    first_index, lemma_first_index, lemma_first_index_is, lemma_first_index_none,
    lemma_first_index_push,
};

verus! {

/// The sum of the key counts only grows along the table.
pub proof fn lemma_total_keystrokes_grows(keys: Seq<KeyRecord>, n: int)
    requires
        0 <= n <= keys.len(),
    ensures
        total_keystrokes(keys.take(n)) <= total_keystrokes(keys),
    decreases keys.len() - n,
{
    if n < keys.len() {
        lemma_total_keystrokes_grows(keys, n + 1);
        assert(keys.take(n + 1).drop_last() == keys.take(n));
    } else {
        assert(keys.take(n) == keys);
    }
}

/// A new process with the next identifier and a name the table does not
/// have keeps the store well formed.
pub proof fn lemma_push_process_keeps_wf(store: StoreView, row: ProcessView)
    requires
        store.wf(),
        row.id == next_id(store.process_ids()),
        forall|k: int| 0 <= k < store.processes.len() ==> !has_name(row.name)(
            #[trigger] store.processes[k],
        ),
    ensures
        (StoreView { processes: store.processes.push(row), ..store }).wf(),
{
    let after = StoreView { processes: store.processes.push(row), ..store };
    let ids = store.process_ids();
    assert(after.process_ids() == ids.push(row.id));
    assert forall|i: int, j: int| 0 <= i < j < after.processes.len() implies (
    #[trigger] after.processes[i]).name != (#[trigger] after.processes[j]).name by {
        if j == store.processes.len() {
            assert(!has_name(row.name)(store.processes[i]));
        }
    }
    assert forall|i: int| 0 <= i < after.windows.len() implies first_index(
        after.processes,
        has_process_id((#[trigger] after.windows[i]).process_id),
    ) is Some by {
        lemma_first_index_push(
            store.processes,
            has_process_id(after.windows[i].process_id),
            row,
        );
    }
}

/// A new window with the next identifier, of a process the store has, with
/// a title that process does not have, keeps the store well formed.
pub proof fn lemma_push_window_keeps_wf(store: StoreView, row: WindowView)
    requires
        store.wf(),
        row.id == next_id(store.window_ids()),
        first_index(store.processes, has_process_id(row.process_id)) is Some,
        forall|k: int| 0 <= k < store.windows.len() ==> !is_window(row.process_id, row.title)(
            #[trigger] store.windows[k],
        ),
    ensures
        (StoreView { windows: store.windows.push(row), ..store }).wf(),
{
    let after = StoreView { windows: store.windows.push(row), ..store };
    let ids = store.window_ids();
    assert(after.window_ids() == ids.push(row.id));
    assert forall|i: int, j: int| 0 <= i < j < after.windows.len() implies !is_window(
        (#[trigger] after.windows[i]).process_id,
        after.windows[i].title,
    )(#[trigger] after.windows[j]) by {
        if j == store.windows.len() {
            assert(!is_window(row.process_id, row.title)(store.windows[i]));
        }
    }
    assert forall|i: int| 0 <= i < after.keys.len() implies first_index(
        after.windows,
        has_window_id((#[trigger] after.keys[i]).window_id),
    ) is Some by {
        lemma_first_index_push(
            store.windows,
            has_window_id(after.keys[i].window_id),
            row,
        );
    }
}

/// A new key record with the next identifier, in a window the store has,
/// keeps the store well formed.
pub proof fn lemma_push_key_keeps_wf(store: StoreView, row: KeyRecord)
    requires
        store.wf(),
        row.id == next_id(store.key_ids()),
        first_index(store.windows, has_window_id(row.window_id)) is Some,
    ensures
        (StoreView { keys: store.keys.push(row), ..store }).wf(),
{
    let after = StoreView { keys: store.keys.push(row), ..store };
    assert(after.key_ids() == store.key_ids().push(row.id));
}

/// A new hourly row with the next identifier, for a pair the table does not
/// have, keeps the store well formed.
pub proof fn lemma_push_hourly_keeps_wf(store: StoreView, row: HourlyView)
    requires
        store.wf(),
        row.id == next_id(store.hourly_ids()),
        row.count >= 1,
        forall|k: int| 0 <= k < store.hourly.len() ==> !is_stat(row.hour_bucket, row.key_type)(
            #[trigger] store.hourly[k],
        ),
    ensures
        (StoreView { hourly: store.hourly.push(row), ..store }).wf(),
{
    let after = StoreView { hourly: store.hourly.push(row), ..store };
    assert(after.hourly_ids() == store.hourly_ids().push(row.id));
    assert forall|i: int, j: int| 0 <= i < j < after.hourly.len() implies !is_stat(
        (#[trigger] after.hourly[i]).hour_bucket,
        after.hourly[i].key_type,
    )(#[trigger] after.hourly[j]) by {
        if j == store.hourly.len() {
            assert(!is_stat(row.hour_bucket, row.key_type)(store.hourly[i]));
        }
    }
}

/// Counting one more in an hourly row keeps the store well formed.
pub proof fn lemma_count_hourly_keeps_wf(store: StoreView, index: int)
    requires
        store.wf(),
        0 <= index < store.hourly.len(),
        store.hourly[index].count < u64::MAX,
    ensures
        (StoreView {
            hourly: store.hourly.update(
                index,
                HourlyView {
                    count: (store.hourly[index].count + 1) as u64,
                    ..store.hourly[index]
                },
            ),
            ..store
        }).wf(),
{
    let row = HourlyView { count: (store.hourly[index].count + 1) as u64, ..store.hourly[index] };
    let after = StoreView { hourly: store.hourly.update(index, row), ..store };
    assert(after.hourly_ids() == store.hourly_ids());
    assert forall|i: int, j: int| 0 <= i < j < after.hourly.len() implies !is_stat(
        (#[trigger] after.hourly[i]).hour_bucket,
        after.hourly[i].key_type,
    )(#[trigger] after.hourly[j]) by {
        assert(!is_stat(store.hourly[i].hour_bucket, store.hourly[i].key_type)(store.hourly[j]));
    }
}

/// Get-or-create of a process keeps the store well formed and leaves the
/// process in it; a second call for the same name creates nothing.
pub proof fn lemma_with_process(store: StoreView, name: Seq<char>)
    requires
        store.wf(),
    ensures
        with_process(store, name).0.wf(),
        with_process(store, name).0.windows == store.windows,
        with_process(store, name).0.keys == store.keys,
        with_process(store, name).0.hourly == store.hourly,
        with_process(store, name).1 matches Some(id) ==> {
            &&& first_index(with_process(store, name).0.processes, has_process_id(id)) is Some
            &&& first_index(with_process(store, name).0.processes, has_name(name)) is Some
            &&& with_process(with_process(store, name).0, name) == with_process(store, name)
            &&& with_process(store, name).0.processes.len() == store.processes.len() + (if first_index(
                store.processes,
                has_name(name),
            ) is Some {
                0int
            } else {
                1int
            })
        },
        with_process(store, name).1 is None ==> with_process(store, name).0 == store,
{
    let after = with_process(store, name).0;
    lemma_first_index(store.processes, has_name(name));
    match first_index(store.processes, has_name(name)) {
        Some(i) => {
            let id = store.processes[i].id;
            assert(has_process_id(id)(store.processes[i]));
            lemma_first_index(store.processes, has_process_id(id));
        },
        None => {
            if next_id(store.process_ids()) <= i64::MAX {
                let id = next_id(store.process_ids()) as i64;
                let row = ProcessView { id, name };
                lemma_push_process_keeps_wf(store, row);
                let at = store.processes.len() as int;
                assert(after.processes[at] == row);
                assert(has_process_id(id)(after.processes[at]));
                lemma_first_index(after.processes, has_process_id(id));
                assert(has_name(name)(after.processes[at]));
                lemma_first_index_is(after.processes, has_name(name), at);
            }
        },
    }
}

/// Get-or-create of a window keeps the store well formed and leaves the
/// window in it; a second call for the same pair creates nothing.
pub proof fn lemma_with_window(store: StoreView, process_id: i64, title: Seq<char>)
    requires
        store.wf(),
        first_index(store.processes, has_process_id(process_id)) is Some,
    ensures
        with_window(store, process_id, title).0.wf(),
        with_window(store, process_id, title).0.processes == store.processes,
        with_window(store, process_id, title).0.keys == store.keys,
        with_window(store, process_id, title).0.hourly == store.hourly,
        with_window(store, process_id, title).1 matches Some(id) ==> {
            &&& first_index(with_window(store, process_id, title).0.windows, has_window_id(id)) is Some
            &&& with_window(with_window(store, process_id, title).0, process_id, title)
                == with_window(store, process_id, title)
            &&& with_window(store, process_id, title).0.windows.len() == store.windows.len() + (
            if first_index(store.windows, is_window(process_id, title)) is Some {
                0int
            } else {
                1int
            })
        },
        with_window(store, process_id, title).1 is None ==> with_window(store, process_id, title).0
            == store,
{
    let after = with_window(store, process_id, title).0;
    lemma_first_index(store.windows, is_window(process_id, title));
    match first_index(store.windows, is_window(process_id, title)) {
        Some(i) => {
            let id = store.windows[i].id;
            assert(has_window_id(id)(store.windows[i]));
            lemma_first_index(store.windows, has_window_id(id));
        },
        None => {
            if next_id(store.window_ids()) <= i64::MAX {
                let id = next_id(store.window_ids()) as i64;
                let row = WindowView { id, process_id, title };
                lemma_push_window_keeps_wf(store, row);
                let at = store.windows.len() as int;
                assert(after.windows[at] == row);
                assert(has_window_id(id)(after.windows[at]));
                lemma_first_index(after.windows, has_window_id(id));
                assert(is_window(process_id, title)(after.windows[at]));
                lemma_first_index_is(after.windows, is_window(process_id, title), at);
            }
        },
    }
}

/// What recording a batch does: the store stays well formed, the hourly
/// table is untouched, and on success exactly one key record is added, at
/// the end, under the identifier that is returned; the total grows by the
/// batch's count; the process and the window are added only where the store
/// did not have them.
pub proof fn lemma_record_keystroke(
    store: StoreView,
    process: Seq<char>,
    window: Seq<char>,
    key_count: u32,
    now: i64,
)
    requires
        store.wf(),
    ensures
        record_keystroke_spec(store, process, window, key_count, now).0.wf(),
        record_keystroke_spec(store, process, window, key_count, now).0.hourly == store.hourly,
        record_keystroke_spec(store, process, window, key_count, now).1 matches Ok(id) ==> {
            let after = record_keystroke_spec(store, process, window, key_count, now).0;
            &&& after.keys.len() == store.keys.len() + 1
            &&& after.keys.drop_last() == store.keys
            &&& after.keys.last().id == id
            &&& after.keys.last().key_count == key_count
            &&& after.keys.last().created_at == now
            &&& after.keys.last().started_at == now
            &&& id == next_id(store.key_ids())
            &&& total_keystrokes(after.keys) == total_keystrokes(store.keys) + key_count
            &&& after.processes == with_process(store, process).0.processes
            &&& first_index(after.processes, has_name(process)) is Some
            &&& after.processes.len() == store.processes.len() + (if first_index(
                store.processes,
                has_name(process),
            ) is Some {
                0int
            } else {
                1int
            })
            &&& store.windows.len() <= after.windows.len() <= store.windows.len() + 1
        },
        record_keystroke_spec(store, process, window, key_count, now).1 matches Err(error) ==> error
            == StorageError::Full,
{
    lemma_with_process(store, process);
    let (store1, process_id) = with_process(store, process);
    if process_id is Some {
        lemma_with_window(store1, process_id->0, window);
        let (store2, window_id) = with_window(store1, process_id->0, window);
        if window_id is Some {
            let (store3, key_id) = with_key(store2, window_id->0, key_count, now);
            if key_id is Some {
                let row = KeyRecord {
                    id: key_id->0,
                    window_id: window_id->0,
                    created_at: now,
                    key_count,
                    started_at: now,
                };
                lemma_push_key_keeps_wf(store2, row);
                assert(store3.keys.drop_last() == store.keys);
                assert(store2.key_ids() == store.key_ids());
            }
        }
    }
}

/// Recording the same process and window twice adds the process once, the
/// window once and two key records; the total grows by both counts.
pub proof fn lemma_recording_a_pair_twice(
    store: StoreView,
    process: Seq<char>,
    window: Seq<char>,
    first_count: u32,
    first_now: i64,
    second_count: u32,
    second_now: i64,
)
    requires
        store.wf(),
        record_keystroke_spec(store, process, window, first_count, first_now).1 is Ok,
        record_keystroke_spec(
            record_keystroke_spec(store, process, window, first_count, first_now).0,
            process,
            window,
            second_count,
            second_now,
        ).1 is Ok,
    ensures
        ({
            let once = record_keystroke_spec(store, process, window, first_count, first_now).0;
            let twice = record_keystroke_spec(once, process, window, second_count, second_now).0;
            &&& twice.wf()
            &&& twice.processes == once.processes
            &&& twice.windows == once.windows
            &&& twice.processes.len() <= store.processes.len() + 1
            &&& twice.windows.len() <= store.windows.len() + 1
            &&& twice.keys.len() == store.keys.len() + 2
            &&& total_keystrokes(twice.keys) == total_keystrokes(store.keys) + first_count
                + second_count
        }),
{
    lemma_record_keystroke(store, process, window, first_count, first_now);
    let once = record_keystroke_spec(store, process, window, first_count, first_now).0;
    lemma_record_keystroke(once, process, window, second_count, second_now);
    lemma_with_process(store, process);
    let (store1, process_id) = with_process(store, process);
    lemma_with_window(store1, process_id->0, window);
    let (store2, window_id) = with_window(store1, process_id->0, window);
    // The second call finds what the first one left.
    assert(once.processes == store2.processes);
    assert(once.windows == store2.windows);
    let known = StoreView { keys: once.keys, ..store2 };
    assert(known == once);
    assert(with_process(once, process).1 == process_id) by {
        assert(with_process(store1, process) == (store1, process_id));
    }
    assert(with_process(once, process).0 == once);
    assert(with_window(once, process_id->0, window).0 == once);
}

/// In an empty store, recording the same process and window twice leaves
/// exactly one process, one window and two key records, and the total is the
/// sum of the two counts. Neither call can fail.
pub proof fn lemma_recording_a_pair_twice_from_empty(
    process: Seq<char>,
    window: Seq<char>,
    first_count: u32,
    first_now: i64,
    second_count: u32,
    second_now: i64,
)
    ensures
        ({
            let once = record_keystroke_spec(
                StoreView::empty(),
                process,
                window,
                first_count,
                first_now,
            );
            let twice = record_keystroke_spec(once.0, process, window, second_count, second_now);
            &&& once.1 == Ok::<i64, StorageError>(1)
            &&& twice.1 == Ok::<i64, StorageError>(2)
            &&& twice.0.processes.len() == 1
            &&& twice.0.windows.len() == 1
            &&& twice.0.keys.len() == 2
            &&& total_keystrokes(twice.0.keys) == first_count + second_count
        }),
{
    let empty = StoreView::empty();
    assert(empty.process_ids() =~= Seq::empty());
    assert(empty.window_ids() =~= Seq::empty());
    assert(empty.key_ids() =~= Seq::empty());
    assert(empty.hourly_ids() =~= Seq::empty());
    assert(empty.wf());
    lemma_with_process(empty, process);
    let (store1, process_id) = with_process(empty, process);
    lemma_with_window(store1, process_id->0, window);
    lemma_record_keystroke(empty, process, window, first_count, first_now);
    let once = record_keystroke_spec(empty, process, window, first_count, first_now);
    assert(once.1 is Ok);
    assert(once.0.key_ids() =~= seq![1i64]);
    lemma_record_keystroke(once.0, process, window, second_count, second_now);
    let twice = record_keystroke_spec(once.0, process, window, second_count, second_now);
    assert(twice.1 is Ok) by {
        lemma_with_process(once.0, process);
        let (again1, again_id) = with_process(once.0, process);
        lemma_with_window(again1, again_id->0, window);
    }
    lemma_recording_a_pair_twice(
        empty,
        process,
        window,
        first_count,
        first_now,
        second_count,
        second_now,
    );
    assert(total_keystrokes(empty.keys) == 0);
}

/// The count that the store holds for a key type in an hour bucket; zero
/// where it has no row for the pair.
pub open spec fn hourly_count(store: StoreView, hour_bucket: i64, key_type: Seq<char>) -> nat {
    match first_index(store.hourly, is_stat(hour_bucket, key_type)) {
        Some(i) => store.hourly[i].count as nat,
        None => 0,
    }
}

/// What counting one key-down does: the pair's count grows by one; the table
/// grows by one row where the pair is new and keeps its length otherwise;
/// the counts of all other pairs and the other tables stay as they are.
pub proof fn lemma_record_hourly(
    store: StoreView,
    hour_bucket: i64,
    key_type: Seq<char>,
    other_bucket: i64,
    other_type: Seq<char>,
)
    requires
        store.wf(),
        record_hourly_spec(store, hour_bucket, key_type).1 is Ok,
    ensures
        ({
            let after = record_hourly_spec(store, hour_bucket, key_type).0;
            &&& after.wf()
            &&& after.processes == store.processes
            &&& after.windows == store.windows
            &&& after.keys == store.keys
            &&& hourly_count(after, hour_bucket, key_type) == hourly_count(
                store,
                hour_bucket,
                key_type,
            ) + 1
            &&& after.hourly.len() == store.hourly.len() + (if hourly_count(
                store,
                hour_bucket,
                key_type,
            ) == 0 {
                1int
            } else {
                0int
            })
            &&& (other_bucket != hour_bucket || other_type != key_type) ==> hourly_count(
                after,
                other_bucket,
                other_type,
            ) == hourly_count(store, other_bucket, other_type)
        }),
{
    let after = record_hourly_spec(store, hour_bucket, key_type).0;
    let wanted = is_stat(hour_bucket, key_type);
    let other = is_stat(other_bucket, other_type);
    lemma_first_index(store.hourly, wanted);
    lemma_first_index(store.hourly, other);
    match first_index(store.hourly, wanted) {
        Some(i) => {
            lemma_count_hourly_keeps_wf(store, i);
            assert(wanted(after.hourly[i]));
            assert forall|k: int| 0 <= k < i implies !wanted(#[trigger] after.hourly[k]) by {
                assert(!wanted(store.hourly[k]));
            }
            lemma_first_index_is(after.hourly, wanted, i);
            if other_bucket != hour_bucket || other_type != key_type {
                match first_index(store.hourly, other) {
                    Some(o) => {
                        assert(other(after.hourly[o]));
                        assert forall|k: int| 0 <= k < o implies !other(
                            #[trigger] after.hourly[k],
                        ) by {
                            assert(!other(store.hourly[k]));
                        }
                        lemma_first_index_is(after.hourly, other, o);
                    },
                    None => {
                        assert forall|k: int| 0 <= k < after.hourly.len() implies !other(
                            #[trigger] after.hourly[k],
                        ) by {
                            assert(!other(store.hourly[k]));
                        }
                        lemma_first_index_none(after.hourly, other);
                    },
                }
            }
        },
        None => {
            let row = HourlyView {
                id: next_id(store.hourly_ids()) as i64,
                hour_bucket,
                key_type,
                count: 1,
            };
            lemma_push_hourly_keeps_wf(store, row);
            lemma_first_index_push(store.hourly, wanted, row);
            lemma_first_index_push(store.hourly, other, row);
            assert(wanted(row));
        },
    }
}

/// The store after `n` key-downs of one key type in one hour bucket.
pub open spec fn count_hourly_times(
    store: StoreView,
    hour_bucket: i64,
    key_type: Seq<char>,
    n: nat,
) -> StoreView
    decreases n,
{
    if n == 0 {
        store
    } else {
        record_hourly_spec(
            count_hourly_times(store, hour_bucket, key_type, (n - 1) as nat),
            hour_bucket,
            key_type,
        ).0
    }
}

/// Any number of key-downs of one key type in one hour bucket end in one
/// row for the pair that holds their number: the count grows by `n`, and the
/// table by one row at most, however large `n` is.
pub proof fn lemma_hourly_counts_converge(
    store: StoreView,
    hour_bucket: i64,
    key_type: Seq<char>,
    n: nat,
)
    requires
        store.wf(),
        hourly_count(store, hour_bucket, key_type) + n <= u64::MAX,
        next_id(store.hourly_ids()) <= i64::MAX,
    ensures
        count_hourly_times(store, hour_bucket, key_type, n).wf(),
        hourly_count(count_hourly_times(store, hour_bucket, key_type, n), hour_bucket, key_type)
            == hourly_count(store, hour_bucket, key_type) + n,
        count_hourly_times(store, hour_bucket, key_type, n).hourly.len() == store.hourly.len() + (
        if n > 0 && hourly_count(store, hour_bucket, key_type) == 0 {
            1int
        } else {
            0int
        }),
    decreases n,
{
    if n > 0 {
        let before = count_hourly_times(store, hour_bucket, key_type, (n - 1) as nat);
        lemma_hourly_counts_converge(store, hour_bucket, key_type, (n - 1) as nat);
        lemma_first_index(before.hourly, is_stat(hour_bucket, key_type));
        lemma_first_index(store.hourly, is_stat(hour_bucket, key_type));
        assert(record_hourly_spec(before, hour_bucket, key_type).1 is Ok) by {
            if first_index(before.hourly, is_stat(hour_bucket, key_type)) is None {
                assert(before.hourly.len() == store.hourly.len());
                assert(n == 1);
                assert(before == store);
            }
        }
        lemma_record_hourly(before, hour_bucket, key_type, hour_bucket, key_type);
        if hourly_count(before, hour_bucket, key_type) == 0 {
            // A row of the pair would hold at least one.
            if first_index(before.hourly, is_stat(hour_bucket, key_type)) is Some {
                assert(before.hourly[first_index(
                    before.hourly,
                    is_stat(hour_bucket, key_type),
                )->0].count >= 1);
            }
        }
    }
}

/// Where recording a batch fails, the key table is as it was.
pub proof fn lemma_record_keystroke_keeps_keys(
    store: StoreView,
    process: Seq<char>,
    window: Seq<char>,
    key_count: u32,
    now: i64,
)
    ensures
        record_keystroke_spec(store, process, window, key_count, now).1 is Err
            ==> record_keystroke_spec(store, process, window, key_count, now).0.keys == store.keys,
{
}

/// Counting a key-down keeps the store well formed and touches nothing but
/// the hourly table, whether the store takes it or refuses it.
pub proof fn lemma_record_hourly_keeps_wf(store: StoreView, hour_bucket: i64, key_type: Seq<char>)
    requires
        store.wf(),
    ensures
        record_hourly_spec(store, hour_bucket, key_type).0.wf(),
        record_hourly_spec(store, hour_bucket, key_type).0.processes == store.processes,
        record_hourly_spec(store, hour_bucket, key_type).0.windows == store.windows,
        record_hourly_spec(store, hour_bucket, key_type).0.keys == store.keys,
        record_hourly_spec(store, hour_bucket, key_type).1 is Err ==> record_hourly_spec(
            store,
            hour_bucket,
            key_type,
        ).0 == store,
{
    if record_hourly_spec(store, hour_bucket, key_type).1 is Ok {
        lemma_record_hourly(store, hour_bucket, key_type, hour_bucket, key_type);
    }
}

/// In a well-formed store every key record has an owner, so the joined
/// rows account for every key count.
pub proof fn lemma_joined_keys_account_for_all(store: StoreView, n: nat)
    requires
        store.wf(),
        n <= store.keys.len(),
    ensures
        tally_sum(joined_keys(store, n)) == total_keystrokes(store.keys.take(n as int)),
    decreases n,
{
    if n > 0 {
        lemma_joined_keys_account_for_all(store, (n - 1) as nat);
        let key = store.keys[n - 1];
        lemma_first_index(store.windows, has_window_id(key.window_id));
        let w = first_index(store.windows, has_window_id(key.window_id))->0;
        assert(first_index(store.processes, has_process_id(store.windows[w].process_id)) is Some);
        assert(key_owner(store, key) is Some);
        assert(store.keys.take(n as int).drop_last() == store.keys.take(n - 1));
        assert(store.keys.take(n as int).last() == key);
        let name = key_owner(store, key)->0;
        assert(joined_keys(store, n).drop_last() == joined_keys(store, (n - 1) as nat));
    }
}

/// The report by process accounts for every keystroke: its sums add up to
/// the total of the store.
pub proof fn lemma_by_process_sums_to_total(store: StoreView)
    requires
        store.wf(),
    ensures
        tally_sum(by_process_spec(store)) == total_keystrokes(store.keys),
{
    lemma_joined_keys_account_for_all(store, store.keys.len());
    lemma_report_keeps_sum(joined_keys(store, store.keys.len()));
    assert(store.keys.take(store.keys.len() as int) == store.keys);
}

/// One call of `record_keystroke`, as plain values.
pub struct Batch {
    pub process: Seq<char>,
    pub window: Seq<char>,
    pub key_count: u32,
    pub now: i64,
}

/// The store after the given batches were recorded, in order.
pub open spec fn record_all(store: StoreView, batches: Seq<Batch>) -> StoreView
    decreases batches.len(),
{
    if batches.len() == 0 {
        store
    } else {
        let batch = batches.last();
        record_keystroke_spec(
            record_all(store, batches.drop_last()),
            batch.process,
            batch.window,
            batch.key_count,
            batch.now,
        ).0
    }
}

/// Whether the store took every one of the batches.
pub open spec fn all_recorded(store: StoreView, batches: Seq<Batch>) -> bool
    decreases batches.len(),
{
    batches.len() == 0 || {
        let batch = batches.last();
        &&& all_recorded(store, batches.drop_last())
        &&& record_keystroke_spec(
            record_all(store, batches.drop_last()),
            batch.process,
            batch.window,
            batch.key_count,
            batch.now,
        ).1 is Ok
    }
}

/// The sum of the key counts of the batches.
pub open spec fn batch_total(batches: Seq<Batch>) -> nat
    decreases batches.len(),
{
    if batches.len() == 0 {
        0
    } else {
        batch_total(batches.drop_last()) + batches.last().key_count as nat
    }
}

/// The total is the sum of all recorded counts: every batch that the store
/// took added one key record and its count, and nothing else changed the
/// key table.
pub proof fn lemma_total_is_the_sum_of_recorded_counts(store: StoreView, batches: Seq<Batch>)
    requires
        store.wf(),
        all_recorded(store, batches),
    ensures
        record_all(store, batches).wf(),
        record_all(store, batches).keys.len() == store.keys.len() + batches.len(),
        total_keystrokes(record_all(store, batches).keys) == total_keystrokes(store.keys)
            + batch_total(batches),
        record_all(store, batches).hourly == store.hourly,
    decreases batches.len(),
{
    if batches.len() > 0 {
        let batch = batches.last();
        lemma_total_is_the_sum_of_recorded_counts(store, batches.drop_last());
        lemma_record_keystroke(
            record_all(store, batches.drop_last()),
            batch.process,
            batch.window,
            batch.key_count,
            batch.now,
        );
    }
}

/// When recording a batch succeeds: always, unless a table that needs a new
/// row has used up its identifiers. In particular it succeeds whenever every
/// table has an identifier left.
pub proof fn lemma_record_keystroke_succeeds(
    store: StoreView,
    process: Seq<char>,
    window: Seq<char>,
    key_count: u32,
    now: i64,
)
    requires
        next_id(store.process_ids()) <= i64::MAX,
        next_id(store.window_ids()) <= i64::MAX,
        next_id(store.key_ids()) <= i64::MAX,
    ensures
        record_keystroke_spec(store, process, window, key_count, now).1 is Ok,
{
    let (store1, process_id) = with_process(store, process);
    assert(store1.window_ids() == store.window_ids());
    let (store2, window_id) = with_window(store1, process_id->0, window);
    assert(store2.key_ids() == store.key_ids());
}

/// When counting a key-down succeeds: where the pair has a row, unless its
/// count is full; where it has none, unless the table has used up its
/// identifiers.
pub proof fn lemma_record_hourly_succeeds(store: StoreView, hour_bucket: i64, key_type: Seq<char>)
    ensures
        record_hourly_spec(store, hour_bucket, key_type).1 is Ok <==> (match first_index(
            store.hourly,
            is_stat(hour_bucket, key_type),
        ) {
            Some(i) => store.hourly[i].count < u64::MAX,
            None => next_id(store.hourly_ids()) <= i64::MAX,
        }),
        record_hourly_spec(store, hour_bucket, key_type).1 is Err ==> record_hourly_spec(
            store,
            hour_bucket,
            key_type,
        ).0 == store,
{
}

} // verus!
