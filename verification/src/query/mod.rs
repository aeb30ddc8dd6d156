//! Reports over the store.

use vstd::prelude::*;

use crate::storage::aggregate::{overflows, tallies, Tally};
use crate::storage::{
    by_process_spec, joined_keys, total_keystrokes, SqliteStorage, StorageError, StoreView,
};

verus! {

/// Reports over a store that it borrows.
pub struct QueryEngine<'a> {
    storage: &'a SqliteStorage,
}

impl<'a> View for QueryEngine<'a> {
    type V = StoreView;

    closed spec fn view(&self) -> StoreView {
        self.storage@
    }
}

/// The first `limit` rows of a report, or all of them where there are fewer.
pub open spec fn top(rows: Seq<Tally>, limit: nat) -> Seq<Tally> {
    if limit < rows.len() {
        rows.take(limit as int)
    } else {
        rows
    }
}

impl<'a> QueryEngine<'a> {
    /// An engine over the given store.
    pub fn new(storage: &'a SqliteStorage) -> (engine: QueryEngine<'a>)
        ensures
            engine@ == storage@,
    {
        QueryEngine { storage }
    }

    /// The `limit` processes with the most keystrokes, largest sum first.
    pub fn by_process(&self, limit: usize) -> (result: Result<Vec<(String, u64)>, StorageError>)
        ensures
            match result {
                Ok(rows) => tallies(rows@) == top(by_process_spec(self@), limit as nat),
                Err(error) => error == StorageError::Overflow,
            },
            result is Err <==> overflows(joined_keys(self@, self@.keys.len())),
    {
        match self.storage.get_keystrokes_by_process() {
            Ok(rows) => {
                let mut rows = rows;
                let ghost all = tallies(rows@);
                rows.truncate(limit);
                assert(tallies(rows@) == top(all, limit as nat));
                Ok(rows)
            },
            Err(error) => Err(error),
        }
    }

    /// Keystrokes by window. No window is reported: the result is always
    /// empty, whatever the patterns and the limit.
    pub fn by_window(
        &self,
        _title_pattern: Option<&str>,
        _process_pattern: Option<&str>,
        _limit: usize,
    ) -> (result: Result<Vec<(String, String, u64)>, StorageError>)
        ensures
            result is Ok,
            result->Ok_0@.len() == 0,
    {
        Ok(Vec::new())
    }

    /// The sum of the key counts of all key records.
    pub fn total_keystrokes(&self) -> (result: Result<u64, StorageError>)
        ensures
            match result {
                Ok(total) => total == total_keystrokes(self@.keys),
                Err(error) => error == StorageError::Overflow && total_keystrokes(self@.keys)
                    > u64::MAX,
            },
    {
        self.storage.get_total_keystrokes()
    }
}

} // verus!
