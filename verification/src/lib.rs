//! Keystroke tracking core: key normalization, tokenization, live statistics
//! and the aggregation store.

pub mod capture;
pub mod clock;
pub mod config;
pub mod daemon;
pub mod numeral;
pub mod query;
pub mod seq_find;
pub mod stats;
pub mod storage;
pub mod text;
pub mod tokenize;
pub mod viz;

pub use capture::{KeyEvent, KeyType};
pub use config::Config;
pub use storage::SqliteStorage;

use vstd::prelude::*;

verus! {

/// What can go wrong in the tracker.
#[derive(Debug, Clone, PartialEq, Eq)]
pub enum Error {
    AccessibilityDenied,
    EventTapFailed(String),
    Database(String),
    AlreadyRunning(u32),
    NotRunning,
    Io(String),
    Serialization(String),
    Config(String),
    Daemon(String),
}

impl Error {
    /// The text shown to the user for this error.
    pub open spec fn message_spec(self) -> Seq<char> {
        match self {
            Error::AccessibilityDenied => "Accessibility permission not granted"@,
            Error::EventTapFailed(why) => "Failed to create event tap: "@ + why@,
            Error::Database(why) => "Database error: "@ + why@,
            Error::AlreadyRunning(pid) => "Already running (PID: "@ + text::decimal(pid as nat)
                + ")"@,
            Error::NotRunning => "Not running"@,
            Error::Io(why) => "IO error: "@ + why@,
            Error::Serialization(why) => "Serialization error: "@ + why@,
            Error::Config(why) => "Configuration error: "@ + why@,
            Error::Daemon(why) => "Daemon error: "@ + why@,
        }
    }

    /// The text shown to the user for this error.
    pub fn message(&self) -> (s: String)
        ensures
            s@ == self.message_spec(),
    {
        match self {
            Error::AccessibilityDenied => String::from_str("Accessibility permission not granted"),
            Error::EventTapFailed(why) => prefixed("Failed to create event tap: ", why),
            Error::Database(why) => prefixed("Database error: ", why),
            Error::AlreadyRunning(pid) => {
                let mut s = String::from_str("Already running (PID: ");
                text::push_decimal(&mut s, *pid as u64);
                s.append(")");
                s
            },
            Error::NotRunning => String::from_str("Not running"),
            Error::Io(why) => prefixed("IO error: ", why),
            Error::Serialization(why) => prefixed("Serialization error: ", why),
            Error::Config(why) => prefixed("Configuration error: ", why),
            Error::Daemon(why) => prefixed("Daemon error: ", why),
        }
    }
}

fn prefixed(prefix: &str, rest: &String) -> (s: String)
    ensures
        s@ == prefix@ + rest@,
{
    let mut s = String::from_str(prefix);
    s.append(rest.as_str());
    s
}

} // verus!
