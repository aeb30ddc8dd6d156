//! The consumer of the key stream: every key-down goes, in the order it
//! came, to the tokenizer, to the live statistics and to the store.

pub mod lock;

pub use lock::{lock_file_text, LockError, LOCK_FILE};

use vstd::prelude::*;

use crate::capture::KeyEvent;
use crate::clock::now_millis;
use crate::config::Config;
use crate::stats::{record_spec, LiveStats, Milestone, StatsState};
use crate::storage::{
    record_hourly_spec, record_keystroke_spec, SqliteStorage, StorageError, StoreView,
};
use crate::tokenize::{step, token_view, Token, TokenView, Tokenizer, TokenizerConfig, TokenizerState};

verus! {

/// The file that holds the identifier of the running process.
pub const PID_FILE: &'static str = "/tmp/kstrk.pid";

/// Milliseconds in one hour.
pub const MILLIS_PER_HOUR: i64 = 3_600_000;

/// The hour bucket of an instant: the whole hours from the Unix epoch to
/// the instant. Every bucket spans exactly one hour; the hours before the
/// epoch have negative buckets.
pub open spec fn hour_bucket_of(millis: i64) -> int {
    millis as int / 3_600_000
}

/// The hour bucket of an instant given in milliseconds since the epoch.
pub fn hour_bucket(millis: i64) -> (bucket: i64)
    ensures
        bucket == hour_bucket_of(millis),
{
    if millis >= 0 {
        millis / MILLIS_PER_HOUR
    } else {
        (millis + 1) / MILLIS_PER_HOUR - 1
    }
}

/// Why the tracker could not run.
#[derive(Debug, Clone, PartialEq, Eq)]
pub enum DaemonError {
    DaemonizeFailed(String),
    InvalidPidFile,
    Lock(LockError),
    Io(String),
    Capture(String),
}

impl DaemonError {
    /// The text shown to the user for this error.
    pub open spec fn message_spec(self) -> Seq<char> {
        match self {
            DaemonError::DaemonizeFailed(why) => "Failed to daemonize: "@ + why@,
            DaemonError::InvalidPidFile => "Invalid PID file"@,
            DaemonError::Lock(error) => "Lock error: "@ + error.message_spec(),
            DaemonError::Io(why) => "IO error: "@ + why@,
            DaemonError::Capture(why) => "Capture error: "@ + why@,
        }
    }

    /// The text shown to the user for this error.
    pub fn message(&self) -> (s: String)
        ensures
            s@ == self.message_spec(),
    {
        match self {
            DaemonError::DaemonizeFailed(why) => {
                let mut s = String::from_str("Failed to daemonize: ");
                s.append(why.as_str());
                s
            },
            DaemonError::InvalidPidFile => String::from_str("Invalid PID file"),
            DaemonError::Lock(error) => {
                let mut s = String::from_str("Lock error: ");
                let inner = error.message();
                s.append(inner.as_str());
                s
            },
            DaemonError::Io(why) => {
                let mut s = String::from_str("IO error: ");
                s.append(why.as_str());
                s
            },
            DaemonError::Capture(why) => {
                let mut s = String::from_str("Capture error: ");
                s.append(why.as_str());
                s
            },
        }
    }
}

/// What the three consumers hold, as plain values.
pub struct DaemonState {
    pub tokenizer: TokenizerState,
    pub stats: StatsState,
    pub store: StoreView,
}

/// What one key-down brought about.
pub struct EventOutcome {
    /// The token that the key-down completed.
    pub token: Option<Token>,
    /// The milestone that the key-down fired.
    pub milestone: Option<Milestone>,
    /// The identifier of the key record, or why the store refused it.
    pub stored: Result<i64, StorageError>,
    /// Whether the hourly count took the key-down, or why the store refused
    /// it.
    pub counted: Result<(), StorageError>,
}

/// What an outcome holds, as plain values.
pub struct OutcomeView {
    pub token: Option<TokenView>,
    pub milestone: Option<Milestone>,
    pub stored: Result<i64, StorageError>,
    pub counted: Result<(), StorageError>,
}

impl View for EventOutcome {
    type V = OutcomeView;

    open spec fn view(&self) -> OutcomeView {
        OutcomeView {
            token: token_view(self.token),
            milestone: self.milestone,
            stored: self.stored,
            counted: self.counted,
        }
    }
}

/// One key-down handled at `now`. The tokenizer takes the event; the
/// statistics record a key-down at `now`; the store appends a key record of
/// one key-down, stamped with `now`, for the window that is not known, and
/// counts the key's name in the hour bucket of the event. A refusal of the
/// store is reported in the outcome and holds nothing else up.
pub open spec fn process_spec(state: DaemonState, event: KeyEvent, now: i64) -> (
    DaemonState,
    OutcomeView,
) {
    let (tokenizer, token) = step(state.tokenizer, event);
    let (stats, milestone) = record_spec(state.stats, now);
    let (store1, stored) = record_keystroke_spec(state.store, "Unknown"@, "Unknown"@, 1, now);
    let (store2, counted) = record_hourly_spec(
        store1,
        hour_bucket_of(event.timestamp) as i64,
        event.key_type.name_spec(),
    );
    (
        DaemonState { tokenizer, stats, store: store2 },
        OutcomeView { token, milestone, stored, counted },
    )
}

/// The state after a batch of key-downs, the `i`-th handled at `nows[i]`.
pub open spec fn drain_spec(state: DaemonState, events: Seq<KeyEvent>, nows: Seq<i64>) -> DaemonState
    decreases events.len(),
{
    if events.len() == 0 {
        state
    } else {
        process_spec(
            drain_spec(state, events.drop_last(), nows.drop_last()),
            events.last(),
            nows.last(),
        ).0
    }
}

/// The consumer: the settings, the store, the statistics and the tokenizer
/// of one session.
pub struct Daemon {
    config: Config,
    storage: SqliteStorage,
    stats: LiveStats,
    tokenizer: Tokenizer,
}

impl View for Daemon {
    type V = DaemonState;

    closed spec fn view(&self) -> DaemonState {
        DaemonState { tokenizer: self.tokenizer@, stats: self.stats@, store: self.storage@ }
    }
}

impl Daemon {
    /// The settings that the consumer was made with.
    pub closed spec fn settings(&self) -> Config {
        self.config
    }

    /// A consumer over the given store. The session begins at the instant the
    /// system clock reads; the window of the statistics and the gap
    /// threshold of the tokenizer come from the settings.
    pub fn new(config: Config, storage: SqliteStorage) -> (daemon: Daemon)
        ensures
            daemon.settings() == config,
            daemon@.store == storage@,
            exists|now: i64|
                daemon@.stats == #[trigger] crate::stats::fresh(config.stats.apm_window_secs, now),
            daemon@.tokenizer == (TokenizerState {
                config: TokenizerConfig {
                    gap_threshold_ms: config.capture.token_gap_threshold,
                    min_token_length: 2,
                },
                buffer: Seq::empty(),
                last_timestamp: None,
            }),
    {
        let stats = LiveStats::new(config.stats.apm_window_secs);
        let tokenizer = Tokenizer::new(
            TokenizerConfig {
                gap_threshold_ms: config.capture.token_gap_threshold,
                min_token_length: 2,
            },
        );
        Daemon { config, storage, stats, tokenizer }
    }

    /// Handles one key-down at the instant the system clock reads.
    pub fn process_event(&mut self, event: KeyEvent) -> (outcome: EventOutcome)
        requires
            old(self)@.stats.total < u64::MAX,
            old(self)@.stats.streak < u32::MAX,
        ensures
            final(self).settings() == old(self).settings(),
            old(self)@.store.wf() ==> final(self)@.store.wf(),
            exists|now: i64|
                (final(self)@, outcome@) == #[trigger] process_spec(old(self)@, event, now),
    {
        let now: i64 = now_millis();
        let outcome = self.process_event_at(event, now);
        assert((self@, outcome@) == process_spec(old(self)@, event, now));
        outcome
    }

    /// Handles one key-down at `now`.
    pub fn process_event_at(&mut self, event: KeyEvent, now: i64) -> (outcome: EventOutcome)
        requires
            old(self)@.stats.total < u64::MAX,
            old(self)@.stats.streak < u32::MAX,
        ensures
            final(self).settings() == old(self).settings(),
            old(self)@.store.wf() ==> final(self)@.store.wf(),
            final(self)@ == process_spec(old(self)@, event, now).0,
            outcome@ == process_spec(old(self)@, event, now).1,
    {
        let token = self.tokenizer.process(event);
        let milestone = self.stats.record_at(now);
        let stored = self.storage.record_keystroke_at("Unknown", "Unknown", 1, now);
        let key_name = event.key_type.name();
        let counted = self.storage.record_hourly_stat(hour_bucket(event.timestamp), key_name.as_str());
        EventOutcome { token, milestone, stored, counted }
    }

    /// Handles a batch of key-downs in the order given, each at the instant
    /// the system clock reads when its turn comes, and returns one outcome
    /// per key-down. No key-down is skipped.
    pub fn drain(&mut self, events: &Vec<KeyEvent>) -> (outcomes: Vec<EventOutcome>)
        requires
            old(self)@.stats.total + events.len() <= u64::MAX,
            old(self)@.stats.streak + events.len() <= u32::MAX,
        ensures
            final(self).settings() == old(self).settings(),
            old(self)@.store.wf() ==> final(self)@.store.wf(),
            outcomes.len() == events.len(),
            exists|nows: Seq<i64>|
                {
                    &&& nows.len() == events.len()
                    &&& final(self)@ == #[trigger] drain_spec(old(self)@, events@, nows)
                    &&& forall|i: int|
                        0 <= i < events.len() ==> (#[trigger] outcomes[i])@ == process_spec(
                            drain_spec(old(self)@, events@.take(i), nows.take(i)),
                            events[i],
                            nows[i],
                        ).1
                },
    {
        let mut outcomes: Vec<EventOutcome> = Vec::new();
        let ghost mut nows: Seq<i64> = Seq::empty();
        let mut i: usize = 0;
        while i < events.len()
            invariant
                i <= events.len(),
                self.settings() == old(self).settings(),
                old(self)@.store.wf() ==> self@.store.wf(),
                old(self)@.stats.total + events.len() <= u64::MAX,
                old(self)@.stats.streak + events.len() <= u32::MAX,
                self@.stats.total == old(self)@.stats.total + i,
                self@.stats.streak <= old(self)@.stats.streak + i,
                nows.len() == i,
                outcomes.len() == i,
                self@ == drain_spec(old(self)@, events@.take(i as int), nows),
                forall|k: int|
                    0 <= k < i ==> (#[trigger] outcomes[k])@ == process_spec(
                        drain_spec(old(self)@, events@.take(k), nows.take(k)),
                        events[k],
                        nows[k],
                    ).1,
            decreases events.len() - i,
        {
            let now: i64 = now_millis();
            let ghost before = self@;
            let ghost earlier = nows;
            let outcome = self.process_event_at(events[i], now);
            outcomes.push(outcome);
            proof {
                nows = nows.push(now);
                assert(nows.drop_last() == earlier);
                assert(events@.take(i + 1).drop_last() == events@.take(i as int));
                assert(events@.take(i + 1).last() == events@[i as int]);
                assert(nows.take(i as int) == earlier);
                assert forall|k: int| 0 <= k < i implies nows.take(k) == earlier.take(k) by {}
            }
            i += 1;
        }
        proof {
            assert(events@.take(events.len() as int) == events@);
            assert forall|k: int| 0 <= k < events.len() implies events@.take(k) == events@.take(k) by {}
        }
        outcomes
    }

    /// Reads the identifier of the running process from the text of the PID
    /// file.
    pub fn read_pid(text: &str) -> (pid: Result<u32, DaemonError>)
        ensures
            match pid {
                Ok(pid) => crate::numeral::parse_pid_spec(text@) == Some(pid),
                Err(error) => error == DaemonError::InvalidPidFile && crate::numeral::parse_pid_spec(
                    text@,
                ) is None,
            },
    {
        match crate::numeral::parse_pid(text) {
            Some(pid) => Ok(pid),
            None => Err(DaemonError::InvalidPidFile),
        }
    }

    /// The statistics of the session.
    pub fn stats(&self) -> (stats: &LiveStats)
        ensures
            stats@ == self@.stats,
    {
        &self.stats
    }

    /// The store.
    pub fn storage(&self) -> (storage: &SqliteStorage)
        ensures
            storage@ == self@.store,
    {
        &self.storage
    }

    /// The settings.
    pub fn config(&self) -> (config: &Config)
        ensures
            *config == self.settings(),
    {
        &self.config
    }
}

/// A batch reaches the tokenizer and the statistics whole and in order: the
/// tokenizer has taken exactly the events of the batch, the statistics one
/// key-down per event, and the total has grown by the size of the batch.
pub proof fn lemma_drain_feeds_every_consumer(
    state: DaemonState,
    events: Seq<KeyEvent>,
    nows: Seq<i64>,
)
    requires
        nows.len() == events.len(),
    ensures
        drain_spec(state, events, nows).tokenizer == crate::tokenize::run(state.tokenizer, events),
        drain_spec(state, events, nows).stats == crate::stats::run(state.stats, nows),
        drain_spec(state, events, nows).stats.total == state.stats.total + events.len(),
    decreases events.len(),
{
    if events.len() > 0 {
        lemma_drain_feeds_every_consumer(state, events.drop_last(), nows.drop_last());
    }
}

/// A batch leaves a well-formed store well formed, whatever the store
/// refused on the way, and adds at most one key record per event.
pub proof fn lemma_drain_keeps_store_well_formed(
    state: DaemonState,
    events: Seq<KeyEvent>,
    nows: Seq<i64>,
)
    requires
        nows.len() == events.len(),
        state.store.wf(),
    ensures
        drain_spec(state, events, nows).store.wf(),
        state.store.keys.len() <= drain_spec(state, events, nows).store.keys.len()
            <= state.store.keys.len() + events.len(),
    decreases events.len(),
{
    if events.len() > 0 {
        lemma_drain_keeps_store_well_formed(state, events.drop_last(), nows.drop_last());
        let before = drain_spec(state, events.drop_last(), nows.drop_last());
        let event = events.last();
        let now = nows.last();
        crate::storage::lemma_record_keystroke(before.store, "Unknown"@, "Unknown"@, 1, now);
        let (store1, stored) = record_keystroke_spec(before.store, "Unknown"@, "Unknown"@, 1, now);
        crate::storage::lemma_record_keystroke_keeps_keys(before.store, "Unknown"@, "Unknown"@, 1, now);
        let bucket = hour_bucket_of(event.timestamp) as i64;
        let name = event.key_type.name_spec();
        crate::storage::lemma_record_hourly_keeps_wf(store1, bucket, name);
    }
}

} // verus!
