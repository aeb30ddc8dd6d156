//! The milestone catalogue: five keystroke totals worth marking.

use vstd::prelude::*;

verus! {

/// A total to reach. `reached_at` is the instant, in milliseconds since the
/// Unix epoch, at which a session reached it.
#[derive(Clone, Copy, Debug)]
pub struct Milestone {
    pub threshold: u64,
    pub name: &'static str,
    pub emoji: &'static str,
    pub reached_at: Option<i64>,
}

/// The catalogue, in ascending order of threshold, with nothing reached.
pub open spec fn catalogue_spec() -> Seq<Milestone> {
    seq![
        Milestone { threshold: 1_000, name: "First Thousand", emoji: "🎯", reached_at: None },
        Milestone { threshold: 10_000, name: "Ten Thousand Club", emoji: "🎖️", reached_at: None },
        Milestone { threshold: 100_000, name: "Centurion", emoji: "💯", reached_at: None },
        Milestone { threshold: 1_000_000, name: "Millionaire", emoji: "🏆", reached_at: None },
        Milestone { threshold: 10_000_000, name: "Legend", emoji: "👑", reached_at: None },
    ]
}

impl Milestone {
    /// A fresh copy of the catalogue for one session.
    pub fn catalogue() -> (list: Vec<Milestone>)
        ensures
            list@ == catalogue_spec(),
    {
        let list: Vec<Milestone> = vec![
            Milestone { threshold: 1_000, name: "First Thousand", emoji: "🎯", reached_at: None },
            Milestone {
                threshold: 10_000,
                name: "Ten Thousand Club",
                emoji: "🎖️",
                reached_at: None,
            },
            Milestone { threshold: 100_000, name: "Centurion", emoji: "💯", reached_at: None },
            Milestone { threshold: 1_000_000, name: "Millionaire", emoji: "🏆", reached_at: None },
            Milestone { threshold: 10_000_000, name: "Legend", emoji: "👑", reached_at: None },
        ];
        assert(list@ =~= catalogue_spec());
        list
    }

    /// How many keystrokes are still missing at a total of `current`.
    pub open spec fn remaining_spec(self, current: u64) -> int {
        if current >= self.threshold {
            0
        } else {
            self.threshold - current
        }
    }

    /// How many keystrokes are still missing at a total of `current`.
    pub fn remaining(&self, current: u64) -> (left: u64)
        ensures
            left == self.remaining_spec(current),
    {
        if current >= self.threshold {
            0
        } else {
            self.threshold - current
        }
    }

    /// Whether a total of `current` has reached the threshold.
    pub fn is_reached_by(&self, current: u64) -> (reached: bool)
        ensures
            reached == (current >= self.threshold),
            reached == (self.remaining_spec(current) == 0),
    {
        current >= self.threshold
    }
}

} // verus!
