//! The single-instance lock: what its file holds and how a failure reads.

use vstd::prelude::*;

use crate::numeral::{
    is_whitespace, leading_whitespace, lemma_decimal_reads_back, parse_pid, parse_pid_spec,
    trailing_whitespace, trimmed,
};
use crate::text::{decimal, push_decimal};

verus! {

/// The name of the lock file inside the data directory.
pub const LOCK_FILE: &'static str = "kstrk.lock";

/// Why the single-instance lock could not be taken.
#[derive(Debug, Clone, PartialEq, Eq)]
pub enum LockError {
    /// Another process holds the lock. `pid` is that process, where the lock
    /// file could be read.
    AlreadyRunning { pid: Option<u32>, lock_path: String },
    Io(String),
}

/// How an optional process identifier is written: `Some(` the number `)`,
/// or `None`.
pub open spec fn optional_pid_text(pid: Option<u32>) -> Seq<char> {
    match pid {
        Some(pid) => "Some("@ + decimal(pid as nat) + ")"@,
        None => "None"@,
    }
}

impl LockError {
    /// The text shown to the user for this error.
    pub open spec fn message_spec(self) -> Seq<char> {
        match self {
            LockError::AlreadyRunning { pid, lock_path } => lock_path@ + " is locked! PID "@
                + optional_pid_text(pid)
                + " may be running. If no kstrk process is running, delete the stale lock file."@,
            LockError::Io(why) => "IO error: "@ + why@,
        }
    }

    /// The text shown to the user for this error.
    pub fn message(&self) -> (s: String)
        ensures
            s@ == self.message_spec(),
    {
        match self {
            LockError::AlreadyRunning { pid, lock_path } => {
                let mut s = lock_path.clone();
                s.append(" is locked! PID ");
                match pid {
                    Some(pid) => {
                        s.append("Some(");
                        push_decimal(&mut s, *pid as u64);
                        s.append(")");
                    },
                    None => {
                        s.append("None");
                    },
                }
                s.append(
                    " may be running. If no kstrk process is running, delete the stale lock file.",
                );
                s
            },
            LockError::Io(why) => {
                let mut s = String::from_str("IO error: ");
                s.append(why.as_str());
                s
            },
        }
    }

    /// The error for a lock that another process holds. `existing` is the
    /// text of the lock file, where it could be read.
    pub fn already_running(existing: Option<&str>, lock_path: String) -> (error: LockError)
        ensures
            error == (LockError::AlreadyRunning {
                pid: match existing {
                    Some(text) => parse_pid_spec(text@),
                    None => None,
                },
                lock_path,
            }),
    {
        let pid: Option<u32> = match existing {
            Some(text) => parse_pid(text),
            None => None,
        };
        LockError::AlreadyRunning { pid, lock_path }
    }
}

/// What the holder of the lock writes into the lock file: its process
/// identifier as a decimal numeral, and a line feed.
pub open spec fn lock_file_text_spec(pid: u32) -> Seq<char> {
    decimal(pid as nat).push('\n')
}

/// What the holder of the lock writes into the lock file.
pub fn lock_file_text(pid: u32) -> (text: String)
    ensures
        text@ == lock_file_text_spec(pid),
{
    let mut text = String::new();
    push_decimal(&mut text, pid as u64);
    text.push('\n');
    text
}

/// A text that begins with no white space has none at its front.
proof fn lemma_no_leading_whitespace(s: Seq<char>)
    requires
        s.len() > 0,
        !is_whitespace(s[0]),
    ensures
        leading_whitespace(s) == 0,
{
}

/// What the holder writes is read back as the holder's identifier.
pub proof fn lemma_lock_file_reads_back(pid: u32)
    ensures
        parse_pid_spec(lock_file_text_spec(pid)) == Some(pid),
{
    let numeral = decimal(pid as nat);
    let text = lock_file_text_spec(pid);
    lemma_decimal_reads_back(pid as nat);
    assert(text[0] == numeral[0]);
    assert('0' <= numeral[0] <= '9');
    lemma_no_leading_whitespace(text);
    assert(text.skip(0) == text);
    assert(text.last() == '\n');
    assert(is_whitespace('\n'));
    assert(text.drop_last() == numeral);
    assert(numeral.last() == numeral[numeral.len() - 1]);
    assert('0' <= numeral[numeral.len() - 1] <= '9');
    assert(trailing_whitespace(numeral) == 0);
    assert(trailing_whitespace(text) == 1);
    assert(trimmed(text) == text.take(text.len() - 1));
    assert(text.take(text.len() - 1) == numeral);
    assert(numeral[0] != '+');
}

} // verus!
