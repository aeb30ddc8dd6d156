//! Live statistics: the rolling window of recent key-downs, the running
//! total, the day streak and the milestones of a session.
//!
//! Instants count milliseconds since the Unix epoch, UTC; days are whole days
//! since the epoch.

pub mod milestones;

pub use milestones::{catalogue_spec, Milestone};

use std::collections::VecDeque;
use vstd::prelude::*;

use crate::clock::{day_number, day_of, now_millis};
use crate::seq_find::{first_index, lemma_first_index, lemma_first_index_is, lemma_first_index_none};

verus! {

/// The span, in milliseconds, over which keys per second are sampled.
pub const KPS_SPAN_MS: i64 = 5_000;

/// What the engine holds, as plain values.
pub struct StatsState {
    /// The instants of the key-downs still in the window, oldest first.
    pub recent: Seq<i64>,
    /// The length of the window in seconds.
    pub window_secs: u64,
    /// All key-downs recorded in the session.
    pub total: nat,
    /// When the session began.
    pub session_start: i64,
    /// The number of consecutive days with activity.
    pub streak: nat,
    /// The day of the latest key-down, if there was one.
    pub last_active_day: Option<i64>,
    /// The session's own copy of the catalogue.
    pub milestones: Seq<Milestone>,
}

/// The state of a session that has recorded nothing yet.
pub open spec fn fresh(window_secs: u64, now: i64) -> StatsState {
    StatsState {
        recent: Seq::empty(),
        window_secs,
        total: 0,
        session_start: now,
        streak: 0,
        last_active_day: None,
        milestones: catalogue_spec(),
    }
}

/// The oldest instant that a window ending at `now` still holds.
pub open spec fn cutoff(now: i64, window_secs: u64) -> int {
    now - window_secs * 1000
}

/// How many entries at the front are older than the cutoff. Counting stops
/// at the first entry that is not, whatever follows it.
pub open spec fn expired_prefix(recent: Seq<i64>, cutoff: int) -> nat
    decreases recent.len(),
{
    if recent.len() > 0 && recent[0] < cutoff {
        1 + expired_prefix(recent.drop_first(), cutoff)
    } else {
        0
    }
}

/// The window without its expired front.
pub open spec fn evicted(recent: Seq<i64>, cutoff: int) -> Seq<i64> {
    recent.skip(expired_prefix(recent, cutoff) as int)
}

/// The streak after a key-down on `today`: it starts at one, stays on the
/// same day, grows on the next day and starts over after a longer break. A
/// day earlier than the last active one leaves it as it is.
pub open spec fn streak_after(streak: nat, last_active_day: Option<i64>, today: int) -> nat {
    match last_active_day {
        None => 1,
        Some(last) => if today - last == 1 {
            streak + 1
        } else if today - last > 1 {
            1
        } else {
            streak
        },
    }
}

/// A milestone that is not marked yet although the total has reached it.
pub open spec fn is_due(milestone: Milestone, total: nat) -> bool {
    milestone.reached_at is None && milestone.threshold <= total
}

/// The condition of being due at a total of `total`.
pub open spec fn due_at(total: nat) -> spec_fn(Milestone) -> bool {
    |milestone: Milestone| is_due(milestone, total)
}

/// The index of the first due milestone, if any is due.
pub open spec fn first_due(milestones: Seq<Milestone>, total: nat) -> Option<int> {
    first_index(milestones, due_at(total))
}

/// The milestone with `reached_at` set to `now`.
pub open spec fn marked(milestone: Milestone, now: i64) -> Milestone {
    Milestone {
        threshold: milestone.threshold,
        name: milestone.name,
        emoji: milestone.emoji,
        reached_at: Some(now),
    }
}

/// The milestones after a key-down at `now` that brought the total to
/// `total`: the first due one is marked, all others are untouched.
pub open spec fn milestones_after(milestones: Seq<Milestone>, total: nat, now: i64) -> Seq<
    Milestone,
> {
    match first_due(milestones, total) {
        Some(i) => milestones.update(i, marked(milestones[i], now)),
        None => milestones,
    }
}

/// One key-down at `now`: the next state and the milestone that fired.
pub open spec fn record_spec(state: StatsState, now: i64) -> (StatsState, Option<Milestone>) {
    let total = state.total + 1;
    (
        StatsState {
            recent: evicted(state.recent.push(now), cutoff(now, state.window_secs)),
            window_secs: state.window_secs,
            total,
            session_start: state.session_start,
            streak: streak_after(state.streak, state.last_active_day, day_of(now)),
            last_active_day: Some(day_of(now) as i64),
            milestones: milestones_after(state.milestones, total, now),
        },
        match first_due(state.milestones, total) {
            Some(i) => Some(marked(state.milestones[i], now)),
            None => None,
        },
    )
}

/// How many entries of the window are no older than `since`.
pub open spec fn count_since(recent: Seq<i64>, since: int) -> nat
    decreases recent.len(),
{
    if recent.len() == 0 {
        0
    } else {
        count_since(recent.drop_last(), since) + if recent.last() >= since {
            1nat
        } else {
            0nat
        }
    }
}

/// The five-second sample at `now`: the entries of the window that are at
/// most five seconds older than `now`.
pub open spec fn kps_count(recent: Seq<i64>, now: i64) -> nat {
    count_since(recent, now - KPS_SPAN_MS)
}

/// The milliseconds from `start` to `now`; zero when `now` lies before.
pub open spec fn elapsed(start: i64, now: i64) -> nat {
    if now >= start {
        (now - start) as nat
    } else {
        0
    }
}

/// Whether `index` is the milestone reached last: it is reached, none was
/// reached later, and of those reached at the same instant it stands last.
pub open spec fn is_latest(milestones: Seq<Milestone>, index: int) -> bool {
    &&& 0 <= index < milestones.len()
    &&& milestones[index].reached_at is Some
    &&& forall|j: int|
        0 <= j < milestones.len() && (#[trigger] milestones[j]).reached_at is Some ==> {
            ||| milestones[j].reached_at->0 < milestones[index].reached_at->0
            ||| (milestones[j].reached_at->0 == milestones[index].reached_at->0 && j <= index)
        }
}

/// The expired front is a prefix of the window: every entry in it is older
/// than the cutoff, and the entry after it, if there is one, is not.
pub proof fn lemma_expired_prefix_is_the_old_front(recent: Seq<i64>, cutoff: int)
    ensures
        expired_prefix(recent, cutoff) <= recent.len(),
        forall|j: int| 0 <= j < expired_prefix(recent, cutoff) ==> #[trigger] recent[j] < cutoff,
        expired_prefix(recent, cutoff) < recent.len() ==> recent[expired_prefix(
            recent,
            cutoff,
        ) as int] >= cutoff,
    decreases recent.len(),
{
    if recent.len() > 0 && recent[0] < cutoff {
        let rest = recent.drop_first();
        lemma_expired_prefix_is_the_old_front(rest, cutoff);
        assert forall|j: int| 0 <= j < expired_prefix(recent, cutoff) implies #[trigger] recent[j]
            < cutoff by {
            if j > 0 {
                assert(recent[j] == rest[j - 1]);
            }
        }
        if expired_prefix(recent, cutoff) < recent.len() {
            assert(recent[expired_prefix(recent, cutoff) as int] == rest[expired_prefix(
                rest,
                cutoff,
            ) as int]);
        }
    }
}

/// The statistics engine of one session.
pub struct LiveStats {
    recent_events: VecDeque<i64>,
    window_secs: u64,
    total_keystrokes: u64,
    session_start: i64,
    current_streak: u32,
    last_active_date: Option<i64>,
    milestones_reached: Vec<Milestone>,
}

impl View for LiveStats {
    type V = StatsState;

    closed spec fn view(&self) -> StatsState {
        StatsState {
            recent: self.recent_events@,
            window_secs: self.window_secs,
            total: self.total_keystrokes as nat,
            session_start: self.session_start,
            streak: self.current_streak as nat,
            last_active_day: self.last_active_date,
            milestones: self.milestones_reached@,
        }
    }
}

impl LiveStats {
    /// A session that begins now, by the system clock, with a window of
    /// `window_secs` seconds.
    pub fn new(window_secs: u64) -> (stats: LiveStats)
        ensures
            exists|now: i64| stats@ == fresh(window_secs, now),
            well_formed(stats@),
    {
        let now: i64 = now_millis();
        let stats = LiveStats::new_at(window_secs, now);
        assert(stats@ == fresh(window_secs, now));
        stats
    }

    /// A session that begins at `now`.
    pub fn new_at(window_secs: u64, now: i64) -> (stats: LiveStats)
        ensures
            stats@ == fresh(window_secs, now),
            well_formed(stats@),
    {
        LiveStats {
            recent_events: VecDeque::with_capacity(1000),
            window_secs,
            total_keystrokes: 0,
            session_start: now,
            current_streak: 0,
            last_active_date: None,
            milestones_reached: Milestone::catalogue(),
        }
    }

    /// Records one key-down at the instant the system clock reads, and
    /// returns the milestone that it fired, if any.
    pub fn record(&mut self) -> (fired: Option<Milestone>)
        requires
            old(self)@.total < u64::MAX,
            old(self)@.streak < u32::MAX,
        ensures
            exists|now: i64|
                final(self)@ == record_spec(old(self)@, now).0 && fired == record_spec(
                    old(self)@,
                    now,
                ).1,
            well_formed(old(self)@) ==> well_formed(final(self)@),
    {
        let now: i64 = now_millis();
        let fired = self.record_at(now);
        assert(self@ == record_spec(old(self)@, now).0 && fired == record_spec(old(self)@, now).1);
        fired
    }

    /// Records one key-down at `now`: the window takes it in and lets go of
    /// its expired front, the total grows by one, the streak follows the day
    /// of `now`, and at most one milestone fires.
    pub fn record_at(&mut self, now: i64) -> (fired: Option<Milestone>)
        requires
            old(self)@.total < u64::MAX,
            old(self)@.streak < u32::MAX,
        ensures
            final(self)@ == record_spec(old(self)@, now).0,
            fired == record_spec(old(self)@, now).1,
            well_formed(old(self)@) ==> well_formed(final(self)@),
    {
        self.recent_events.push_back(now);
        self.total_keystrokes += 1;

        let limit: i128 = now as i128 - (self.window_secs as i128) * 1000;
        let ghost pushed = self.recent_events@;
        while self.recent_events.len() > 0 && (self.recent_events[0] as i128) < limit
            invariant
                limit == cutoff(now, self.window_secs),
                evicted(pushed, limit as int) == evicted(self.recent_events@, limit as int),
                self.window_secs == old(self).window_secs,
                self.total_keystrokes == old(self).total_keystrokes + 1,
                self.session_start == old(self).session_start,
                self.current_streak == old(self).current_streak,
                self.last_active_date == old(self).last_active_date,
                self.milestones_reached == old(self).milestones_reached,
            decreases self.recent_events.len(),
        {
            let ghost before = self.recent_events@;
            self.recent_events.pop_front();
            proof {
                assert(self.recent_events@ == before.drop_first());
                lemma_expired_prefix_is_the_old_front(before.drop_first(), limit as int);
                assert(before.skip(1 + expired_prefix(before.drop_first(), limit as int) as int)
                    =~= before.drop_first().skip(
                    expired_prefix(before.drop_first(), limit as int) as int,
                ));
            }
        }
        assert(evicted(self.recent_events@, limit as int) == self.recent_events@);

        let today: i64 = day_number(now);
        match self.last_active_date {
            Some(last) => {
                let apart: i128 = today as i128 - last as i128;
                if apart == 1 {
                    self.current_streak += 1;
                } else if apart > 1 {
                    self.current_streak = 1;
                }
            },
            None => {
                self.current_streak = 1;
            },
        }
        self.last_active_date = Some(today);

        let count: usize = self.milestones_reached.len();
        let mut i: usize = 0;
        while i < count
            invariant
                i <= count,
                count == self.milestones_reached.len(),
                self.milestones_reached == old(self).milestones_reached,
                self.total_keystrokes == old(self).total_keystrokes + 1,
                self.recent_events@ == evicted(
                    old(self).recent_events@.push(now),
                    cutoff(now, old(self).window_secs),
                ),
                self.window_secs == old(self).window_secs,
                self.session_start == old(self).session_start,
                self.current_streak == streak_after(
                    old(self).current_streak as nat,
                    old(self).last_active_date,
                    day_of(now),
                ),
                self.last_active_date == Some(day_of(now) as i64),
                forall|j: int|
                    0 <= j < i ==> !due_at(self.total_keystrokes as nat)(
                        #[trigger] self.milestones_reached@[j],
                    ),
            decreases count - i,
        {
            let milestone: Milestone = self.milestones_reached[i];
            if milestone.reached_at.is_none() && self.total_keystrokes >= milestone.threshold {
                let reached = Milestone {
                    threshold: milestone.threshold,
                    name: milestone.name,
                    emoji: milestone.emoji,
                    reached_at: Some(now),
                };
                proof {
                    assert(due_at(self.total_keystrokes as nat)(self.milestones_reached@[i as int]));
                    lemma_first_index_is(
                        self.milestones_reached@,
                        due_at(self.total_keystrokes as nat),
                        i as int,
                    );
                }
                self.milestones_reached.set(i, reached);
                proof {
                    if well_formed(old(self)@) {
                        lemma_record_keeps_well_formed(old(self)@, now);
                    }
                }
                return Some(reached);
            }
            i += 1;
        }
        proof {
            lemma_first_index_none(self.milestones_reached@, due_at(self.total_keystrokes as nat));
            if well_formed(old(self)@) {
                lemma_record_keeps_well_formed(old(self)@, now);
            }
        }
        None
    }

    /// The number of key-downs in the window. Divided by the window's length
    /// in minutes it is the rate per minute.
    pub fn events_in_window(&self) -> (count: usize)
        ensures
            count == self@.recent.len(),
    {
        self.recent_events.len()
    }

    /// The length of the window in seconds.
    pub fn window_secs(&self) -> (secs: u64)
        ensures
            secs == self@.window_secs,
    {
        self.window_secs
    }

    /// The number of key-downs of the window that are at most five seconds
    /// older than `now`. Divided by five it is the rate per second.
    pub fn kps_sample_at(&self, now: i64) -> (count: usize)
        ensures
            count == kps_count(self@.recent, now),
    {
        let since: i128 = now as i128 - KPS_SPAN_MS as i128;
        let mut count: usize = 0;
        let mut i: usize = 0;
        while i < self.recent_events.len()
            invariant
                i <= self.recent_events.len(),
                count <= i,
                since == now - KPS_SPAN_MS,
                count == count_since(self.recent_events@.take(i as int), since as int),
            decreases self.recent_events.len() - i,
        {
            proof {
                assert(self.recent_events@.take(i + 1).drop_last() == self.recent_events@.take(
                    i as int,
                ));
            }
            if self.recent_events[i] as i128 >= since {
                count += 1;
            }
            i += 1;
        }
        assert(self.recent_events@.take(self.recent_events.len() as int) == self.recent_events@);
        count
    }

    /// The five-second sample taken at the instant the system clock reads.
    pub fn kps_sample(&self) -> (count: usize)
        ensures
            exists|now: i64| count == #[trigger] kps_count(self@.recent, now),
    {
        let now: i64 = now_millis();
        let count = self.kps_sample_at(now);
        assert(count == kps_count(self@.recent, now));
        count
    }

    /// The milliseconds from the start of the session to `now`; zero when
    /// `now` lies before the start.
    pub fn session_duration_at(&self, now: i64) -> (millis: u64)
        ensures
            millis == elapsed(self@.session_start, now),
    {
        if now >= self.session_start {
            (now as i128 - self.session_start as i128) as u64
        } else {
            0
        }
    }

    /// The length of the session so far, by the system clock.
    pub fn session_duration(&self) -> (millis: u64)
        ensures
            exists|now: i64| millis == #[trigger] elapsed(self@.session_start, now),
    {
        let now: i64 = now_millis();
        let millis = self.session_duration_at(now);
        assert(millis == elapsed(self@.session_start, now));
        millis
    }

    /// All key-downs recorded in the session.
    pub fn total(&self) -> (total: u64)
        ensures
            total == self@.total,
    {
        self.total_keystrokes
    }

    /// The current streak in days.
    pub fn streak(&self) -> (days: u32)
        ensures
            days == self@.streak,
    {
        self.current_streak
    }

    /// The session's milestones, in catalogue order.
    pub fn milestones(&self) -> (list: &[Milestone])
        ensures
            list@ == self@.milestones,
    {
        self.milestones_reached.as_slice()
    }

    /// The milestone reached last, or nothing where none is reached.
    pub fn latest_milestone(&self) -> (latest: Option<&Milestone>)
        ensures
            match latest {
                Some(milestone) => exists|index: int|
                    is_latest(self@.milestones, index) && *milestone == self@.milestones[index],
                None => forall|j: int|
                    0 <= j < self@.milestones.len() ==> (
                    #[trigger] self@.milestones[j]).reached_at is None,
            },
    {
        let mut best: Option<usize> = None;
        let mut i: usize = 0;
        while i < self.milestones_reached.len()
            invariant
                i <= self.milestones_reached.len(),
                match best {
                    Some(b) => b < i && is_latest(self.milestones_reached@.take(i as int), b as int),
                    None => forall|j: int|
                        0 <= j < i ==> (#[trigger] self.milestones_reached@[j]).reached_at is None,
                },
            decreases self.milestones_reached.len() - i,
        {
            let ghost seen = self.milestones_reached@.take(i as int);
            let ghost next = self.milestones_reached@.take(i + 1);
            proof {
                assert(forall|j: int| 0 <= j < i ==> next[j] == seen[j]);
                assert(next[i as int] == self.milestones_reached@[i as int]);
            }
            match self.milestones_reached[i].reached_at {
                Some(at) => {
                    let later: bool = match best {
                        Some(b) => match self.milestones_reached[b].reached_at {
                            Some(best_at) => at >= best_at,
                            None => true,
                        },
                        None => true,
                    };
                    if later {
                        best = Some(i);
                        assert(is_latest(next, i as int)) by {
                            assert forall|j: int|
                                0 <= j < next.len() && (#[trigger] next[j]).reached_at is Some implies {
                                ||| next[j].reached_at->0 < next[i as int].reached_at->0
                                ||| (next[j].reached_at->0 == next[i as int].reached_at->0 && j
                                    <= i)
                            } by {
                                if j < i {
                                    assert(seen[j].reached_at is Some);
                                }
                            }
                        }
                    } else {
                        assert(is_latest(next, best->0 as int)) by {
                            assert forall|j: int|
                                0 <= j < next.len() && (#[trigger] next[j]).reached_at is Some implies {
                                ||| next[j].reached_at->0 < next[best->0 as int].reached_at->0
                                ||| (next[j].reached_at->0 == next[best->0 as int].reached_at->0
                                    && j <= best->0)
                            } by {
                                if j < i {
                                    assert(seen[j].reached_at is Some);
                                }
                            }
                        }
                    }
                },
                None => {
                    match best {
                        Some(b) => {
                            assert(is_latest(next, b as int)) by {
                                assert forall|j: int|
                                    0 <= j < next.len() && (
                                    #[trigger] next[j]).reached_at is Some implies {
                                    ||| next[j].reached_at->0 < next[b as int].reached_at->0
                                    ||| (next[j].reached_at->0 == next[b as int].reached_at->0
                                        && j <= b)
                                } by {
                                    assert(seen[j].reached_at is Some);
                                }
                            }
                        },
                        None => {},
                    }
                },
            }
            i += 1;
        }
        assert(self.milestones_reached@.take(self.milestones_reached.len() as int)
            == self.milestones_reached@);
        match best {
            Some(b) => Some(&self.milestones_reached[b]),
            None => None,
        }
    }
}

/// The state after key-downs at the given instants, in order.
pub open spec fn run(state: StatsState, nows: Seq<i64>) -> StatsState
    decreases nows.len(),
{
    if nows.len() == 0 {
        state
    } else {
        record_spec(run(state, nows.drop_last()), nows.last()).0
    }
}

/// The first due milestone is due, stands in the list, and no due one
/// stands before it.
pub proof fn lemma_first_due_is_due(milestones: Seq<Milestone>, total: nat)
    ensures
        first_due(milestones, total) matches Some(index) ==> {
            &&& 0 <= index < milestones.len()
            &&& is_due(milestones[index], total)
            &&& forall|j: int| 0 <= j < index ==> !is_due(#[trigger] milestones[j], total)
        },
        first_due(milestones, total) is None ==> forall|j: int|
            0 <= j < milestones.len() ==> !is_due(#[trigger] milestones[j], total),
{
    lemma_first_index(milestones, due_at(total));
    match first_due(milestones, total) {
        Some(index) => {
            assert forall|j: int| 0 <= j < index implies !is_due(#[trigger] milestones[j], total) by {
                assert(!due_at(total)(milestones[j]));
            }
        },
        None => {
            assert forall|j: int| 0 <= j < milestones.len() implies !is_due(
                #[trigger] milestones[j],
                total,
            ) by {
                assert(!due_at(total)(milestones[j]));
            }
        },
    }
}

/// One key-down changes no milestone that is already reached, and of the
/// others nothing but `reached_at`: the list keeps its length, its order,
/// its thresholds and its names.
pub proof fn lemma_record_keeps_reached(state: StatsState, now: i64, index: int)
    requires
        0 <= index < state.milestones.len(),
    ensures
        record_spec(state, now).0.milestones.len() == state.milestones.len(),
        record_spec(state, now).0.milestones[index].threshold == state.milestones[index].threshold,
        record_spec(state, now).0.milestones[index].name == state.milestones[index].name,
        record_spec(state, now).0.milestones[index].emoji == state.milestones[index].emoji,
        state.milestones[index].reached_at is Some ==> record_spec(state, now).0.milestones[index]
            == state.milestones[index],
{
    lemma_first_due_is_due(state.milestones, state.total + 1);
}

/// Once set, `reached_at` is never cleared or changed, however many
/// key-downs follow.
pub proof fn lemma_reached_milestones_are_stable(state: StatsState, nows: Seq<i64>, index: int)
    requires
        0 <= index < state.milestones.len(),
    ensures
        run(state, nows).milestones.len() == state.milestones.len(),
        run(state, nows).milestones[index].threshold == state.milestones[index].threshold,
        run(state, nows).milestones[index].name == state.milestones[index].name,
        run(state, nows).milestones[index].emoji == state.milestones[index].emoji,
        state.milestones[index].reached_at is Some ==> run(state, nows).milestones[index]
            == state.milestones[index],
    decreases nows.len(),
{
    if nows.len() > 0 {
        lemma_reached_milestones_are_stable(state, nows.drop_last(), index);
        lemma_record_keeps_reached(run(state, nows.drop_last()), nows.last(), index);
    }
}

/// The list is the catalogue but for the `reached_at` marks.
pub open spec fn follows_catalogue(milestones: Seq<Milestone>) -> bool {
    &&& milestones.len() == catalogue_spec().len()
    &&& forall|i: int|
        0 <= i < milestones.len() ==> {
            &&& (#[trigger] milestones[i]).threshold == catalogue_spec()[i].threshold
            &&& milestones[i].name == catalogue_spec()[i].name
            &&& milestones[i].emoji == catalogue_spec()[i].emoji
        }
}

/// What holds of every session: the milestones are those of the catalogue,
/// a milestone is marked exactly when the total has reached its threshold,
/// and the window holds no more key-downs than were recorded.
pub open spec fn well_formed(state: StatsState) -> bool {
    &&& follows_catalogue(state.milestones)
    &&& forall|i: int|
        0 <= i < state.milestones.len() ==> ((#[trigger] state.milestones[i]).reached_at is Some
            <==> state.milestones[i].threshold <= state.total)
    &&& state.recent.len() <= state.total
}

/// A session that has recorded nothing is well formed.
pub proof fn lemma_fresh_is_well_formed(window_secs: u64, now: i64)
    ensures
        well_formed(fresh(window_secs, now)),
{
}

/// A key-down keeps a session well formed, and the new key-down is the
/// last entry of the window.
pub proof fn lemma_record_keeps_well_formed(state: StatsState, now: i64)
    requires
        well_formed(state),
    ensures
        well_formed(record_spec(state, now).0),
        record_spec(state, now).0.recent.len() > 0,
        record_spec(state, now).0.recent.last() == now,
{
    let total = state.total + 1;
    let after = record_spec(state, now).0;
    lemma_first_due_is_due(state.milestones, total);
    let pushed = state.recent.push(now);
    let limit = cutoff(now, state.window_secs);
    lemma_expired_prefix_is_the_old_front(pushed, limit);
    let k = expired_prefix(pushed, limit);
    if k == pushed.len() {
        assert(pushed[pushed.len() - 1] < limit);
    }
    assert forall|i: int| 0 <= i < after.milestones.len() implies ((
    #[trigger] after.milestones[i]).reached_at is Some <==> after.milestones[i].threshold
        <= after.total) by {
        assert(state.milestones[i].threshold == catalogue_spec()[i].threshold);
        match first_due(state.milestones, total) {
            Some(d) => {
                assert(state.milestones[d].threshold == catalogue_spec()[d].threshold);
            },
            None => {},
        }
    }
}

/// Every session that began fresh is well formed.
pub proof fn lemma_run_is_well_formed(state: StatsState, nows: Seq<i64>)
    requires
        well_formed(state),
    ensures
        well_formed(run(state, nows)),
        run(state, nows).total == state.total + nows.len(),
        run(state, nows).window_secs == state.window_secs,
        run(state, nows).session_start == state.session_start,
    decreases nows.len(),
{
    if nows.len() > 0 {
        lemma_run_is_well_formed(state, nows.drop_last());
        lemma_record_keeps_well_formed(run(state, nows.drop_last()), nows.last());
    }
}

/// After `n` key-downs of a fresh session the total is `n`, and exactly the
/// milestones with a threshold of at most `n` are marked: none below is
/// missing and none above has fired.
pub proof fn lemma_session_marks_what_the_total_reached(
    window_secs: u64,
    start: i64,
    nows: Seq<i64>,
    index: int,
)
    requires
        0 <= index < catalogue_spec().len(),
    ensures
        run(fresh(window_secs, start), nows).total == nows.len(),
        run(fresh(window_secs, start), nows).milestones.len() == catalogue_spec().len(),
        run(fresh(window_secs, start), nows).milestones[index].reached_at is Some
            <==> catalogue_spec()[index].threshold <= nows.len(),
{
    lemma_run_is_well_formed(fresh(window_secs, start), nows);
    let after = run(fresh(window_secs, start), nows);
    assert(after.milestones[index].threshold == catalogue_spec()[index].threshold);
}

/// Instants of which none is older than the cutoff of a later one.
pub open spec fn within_window(nows: Seq<i64>, window_secs: u64) -> bool {
    forall|i: int, j: int|
        0 <= i <= j < nows.len() ==> #[trigger] nows[i] >= cutoff(#[trigger] nows[j], window_secs)
}

/// The rate per minute as a fraction: the key-downs in the window times
/// sixty, over the seconds of the window.
pub open spec fn apm_fraction(state: StatsState) -> (nat, nat) {
    (state.recent.len() * 60, state.window_secs as nat)
}

/// Key-downs that all fall within one window are all counted: after `N` of
/// them in a window of `W` seconds the window holds `N` entries, and the
/// rate per minute is `N * 60 / W`.
pub proof fn lemma_window_counts_all_within(state: StatsState, nows: Seq<i64>)
    requires
        within_window(state.recent + nows, state.window_secs),
    ensures
        run(state, nows).recent == state.recent + nows,
        run(state, nows).window_secs == state.window_secs,
        state.recent.len() == 0 ==> apm_fraction(run(state, nows)) == (
            nows.len() * 60,
            state.window_secs as nat,
        ),
    decreases nows.len(),
{
    if nows.len() == 0 {
        assert(state.recent + nows == state.recent);
    } else {
        let front = nows.drop_last();
        let all = state.recent + nows;
        assert(state.recent + front == all.drop_last());
        assert forall|i: int, j: int| 0 <= i <= j < all.drop_last().len() implies
            #[trigger] all.drop_last()[i] >= cutoff(#[trigger] all.drop_last()[j], state.window_secs) by {
            assert(all.drop_last()[i] == all[i]);
            assert(all.drop_last()[j] == all[j]);
        }
        lemma_window_counts_all_within(state, front);
        let before = run(state, front);
        let pushed = before.recent.push(nows.last());
        assert(pushed == all);
        let limit = cutoff(nows.last(), state.window_secs);
        assert(all[all.len() - 1] == nows.last());
        assert(all[0] >= cutoff(all[all.len() - 1], state.window_secs));
        assert(expired_prefix(pushed, limit) == 0);
        assert(pushed.skip(0) == pushed);
    }
}

} // verus!
