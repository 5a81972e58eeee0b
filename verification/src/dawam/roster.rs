//! The week: who is on it, when it may change, and what is traded.

pub mod coverage;
pub mod notices;
pub mod open_shifts;
pub mod swaps;
pub mod views;

use vstd::prelude::*;

use crate::calendar::{day_of_week, valid_clock, valid_day, ClockTime, Day, Id};

verus! {

/// A shift's own times on one weekday.
#[derive(Debug, Clone, Copy, PartialEq, Eq, Structural)]
pub struct DayTime {
    /// 0 = Sunday … 6 = Saturday.
    pub day_of_week: i16,
    pub start_time: ClockTime,
    pub end_time: ClockTime,
}

/// A block of work that can be rostered.
#[derive(Debug, Clone)]
pub struct WorkShiftBrief {
    pub id: Id,
    pub name: String,
    pub branch_id: Option<Id>,
    pub start_time: ClockTime,
    pub end_time: ClockTime,
    pub crosses_midnight: bool,
    pub grace_minutes: i32,
    /// How long before its start a check-in opens.
    pub checkin_window_minutes: i32,
    /// Weekdays it may be rostered on (0 = Sunday … 6 = Saturday): offer it
    /// only on those.
    pub valid_days: Vec<i16>,
    /// Its own times on some weekdays; show that day's times.
    pub day_times: Vec<DayTime>,
}

/// The first of a weekday's own times on a list.
pub open spec fn first_time(list: Seq<DayTime>, dow: int) -> Option<DayTime>
    decreases list.len(),
{
    if list.len() == 0 {
        None
    } else {
        match first_time(list.drop_last(), dow) {
            Some(t) => Some(t),
            None => if list.last().day_of_week == dow {
                Some(list.last())
            } else {
                None
            },
        }
    }
}

proof fn lemma_first_time_stays(list: Seq<DayTime>, dow: int, k: int)
    requires
        0 <= k <= list.len(),
        first_time(list.take(k), dow) is Some,
    ensures
        first_time(list, dow) == first_time(list.take(k), dow),
    decreases list.len() - k,
{
    if k == list.len() {
        assert(list.take(k) =~= list);
    } else {
        assert(list.take(k + 1).drop_last() =~= list.take(k));
        lemma_first_time_stays(list, dow, k + 1);
    }
}

impl WorkShiftBrief {
    /// A block whose times are on the clock.
    pub open spec fn valid(self) -> bool {
        &&& valid_clock(self.start_time)
        &&& valid_clock(self.end_time)
        &&& forall|i: int|
            0 <= i < self.day_times@.len() ==> valid_clock((#[trigger] self.day_times@[i]).start_time)
                && valid_clock(self.day_times@[i].end_time)
    }

    /// The block's times on a date: that weekday's own, else its default.
    pub open spec fn times(self, d: Day) -> (ClockTime, ClockTime) {
        match first_time(self.day_times@, d as int % 7) {
            Some(t) => (t.start_time, t.end_time),
            None => (self.start_time, self.end_time),
        }
    }

    /// The block may be rostered on a date.
    pub open spec fn runs_on(self, d: Day) -> bool {
        self.valid_days@.contains((d as int % 7) as i16)
    }

    /// The block's times on `d`: that weekday's own, else its default.
    pub fn times_on(&self, d: Day) -> (r: (ClockTime, ClockTime))
        requires
            valid_day(d),
        ensures
            r == self.times(d),
            self.valid() ==> valid_clock(r.0) && valid_clock(r.1),
    {
        let dow: i16 = day_of_week(d) as i16;
        let mut i: usize = 0;
        while i < self.day_times.len()
            invariant
                i <= self.day_times@.len(),
                dow == d as int % 7,
                first_time(self.day_times@.take(i as int), dow as int) is None,
            decreases self.day_times@.len() - i,
        {
            assert(self.day_times@.take(i + 1).drop_last() =~= self.day_times@.take(i as int));
            let t: DayTime = self.day_times[i];
            if t.day_of_week == dow {
                proof {
                    lemma_first_time_stays(self.day_times@, dow as int, i + 1);
                }
                return (t.start_time, t.end_time);
            }
            i += 1;
        }
        assert(self.day_times@.take(self.day_times@.len() as int) =~= self.day_times@);
        (self.start_time, self.end_time)
    }

    /// Whether the block may be rostered on `d`.
    pub fn valid_on(&self, d: Day) -> (r: bool)
        requires
            valid_day(d),
        ensures
            r == self.runs_on(d),
    {
        has_day(&self.valid_days, day_of_week(d) as i16)
    }
}

/// Whether a list of weekdays holds one.
pub fn has_day(list: &Vec<i16>, dow: i16) -> (r: bool)
    ensures
        r == list@.contains(dow),
{
    let mut i: usize = 0;
    while i < list.len()
        invariant
            i <= list@.len(),
            forall|k: int| 0 <= k < i ==> list@[k] != dow,
        decreases list@.len() - i,
    {
        if list[i] == dow {
            return true;
        }
        i += 1;
    }
    false
}

/// Someone on the roster.
#[derive(Debug, Clone)]
pub struct RosterPerson {
    pub employee_id: Id,
    pub name: String,
    /// `m` · `f`
    pub gender: Option<String>,
    /// `morning` · `evening`
    pub pref_time: Option<String>,
    /// Days they can't work: 0 = Sunday … 6 = Saturday.
    pub cant_work_days: Vec<i16>,
    pub department_id: Option<Id>,
    /// Who set the preferences last: `employee` or `manager`.
    pub prefs_set_by: String,
}

/// A block's times on a date are the first of that weekday's own, else its
/// default, and never another weekday's.
pub proof fn law_a_weekday_has_its_own_times(b: WorkShiftBrief, d: Day, i: int)
    requires
        i >= 0,
        forall|j: int|
            0 <= j < i && j < b.day_times@.len() ==> (#[trigger] b.day_times@[j]).day_of_week
                != d as int % 7,
        i < b.day_times@.len() ==> b.day_times@[i].day_of_week == d as int % 7,
    ensures
        i < b.day_times@.len() ==> b.times(d) == (
            b.day_times@[i].start_time,
            b.day_times@[i].end_time,
        ),
        i >= b.day_times@.len() ==> b.times(d) == (b.start_time, b.end_time),
{
    lemma_first_own_time(b.day_times@, d as int % 7, i);
}

proof fn lemma_first_own_time(list: Seq<DayTime>, dow: int, i: int)
    requires
        i >= 0,
        forall|j: int|
            0 <= j < i && j < list.len() ==> (#[trigger] list[j]).day_of_week != dow,
        i < list.len() ==> list[i].day_of_week == dow,
    ensures
        first_time(list, dow) == if i < list.len() {
            Some(list[i])
        } else {
            None
        },
    decreases list.len(),
{
    if list.len() > 0 {
        let short = list.drop_last();
        assert(forall|j: int| 0 <= j < short.len() ==> #[trigger] short[j] == list[j]);
        lemma_first_own_time(short, dow, i);
        assert(list[list.len() - 1] == list.last());
    }
}

/// A block runs on the weekdays it lists, every week alike.
pub proof fn law_a_block_runs_every_week_alike(b: WorkShiftBrief, d: Day)
    requires
        d <= 2_000_000_000,
    ensures
        b.runs_on(d) <==> b.valid_days@.contains((d as int % 7) as i16),
        b.runs_on((d + 7) as Day) == b.runs_on(d),
        b.times((d + 7) as Day) == b.times(d),
{
}

} // verus!
