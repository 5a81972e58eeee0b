//! The attendance sweep: what one pass over every business decides.
//!
//! 1. Forgotten checkouts are closed at the scheduled end, with no overtime.
//! 2. A shift that is over and has no record is an absence, or leave.
//! 3. Closed days not yet priced are priced.
//! 4. Coordinates that have served their purpose are dropped.

use vstd::prelude::*;

use crate::attendance::derive::{AttendanceStatus, Derived};
use crate::calendar::{
    lasts, minutes_between, minutes_from, valid_day, valid_moment, ClockTime, Day, Moment, MAX_DAY,
    MIN_DAY, NANOS_PER_MINUTE,
};
use crate::dawam::presence::pings::LOW_BATTERY;
use crate::days::{dow, weekday};
use crate::text::same_text;

verus! {

/// Off where the switch says so.
pub open spec fn switched_off(v: Option<Seq<char>>) -> bool {
    v is Some && (v->0 == "0"@ || v->0 == "false"@ || v->0 == "no"@ || v->0 == "off"@)
}

/// Whether the sweep's switch turns it off.
pub fn sweep_disabled(v: Option<&str>) -> (r: bool)
    ensures
        r == switched_off(
            match v {
                Some(s) => Some(s@),
                None => None,
            },
        ),
{
    match v {
        Some(s) => same_text(s, "0") || same_text(s, "false") || same_text(s, "no") || same_text(
            s,
            "off",
        ),
        None => false,
    }
}

/// The seconds between two passes: as set, ten minutes where nothing is, a
/// minute at the least.
pub fn sweep_seconds(set: Option<u64>) -> (r: u64)
    ensures
        r == match set {
            Some(s) => if s < 60 {
                60
            } else {
                s
            },
            None => 600,
        },
{
    match set {
        Some(s) => if s < 60 {
            60
        } else {
            s
        },
        None => 600,
    }
}

/// How long a phone is silent before its shift is quiet: pings come every 15
/// minutes; three missed is quiet.
pub const QUIET_MINUTES: i128 = 45;

/// A shift gone quiet after a low battery reads "phone likely died", never
/// "left the branch": its last ping is old, its battery was low, and nobody was
/// told yet.
pub fn phone_died(
    last_ping: Moment,
    battery_percent: Option<i16>,
    flagged: bool,
    now: Moment,
) -> (r: bool)
    requires
        valid_moment(now),
    ensures
        r == (last_ping < now - QUIET_MINUTES * NANOS_PER_MINUTE && battery_percent is Some
            && battery_percent->0 <= LOW_BATTERY && !flagged),
        r <==> now - last_ping > 45 * 60_000_000_000 && battery_percent is Some
            && battery_percent->0 <= 15 && !flagged,
{
    let low: bool = match battery_percent {
        Some(b) => b <= LOW_BATTERY,
        None => false,
    };
    last_ping < now - QUIET_MINUTES * NANOS_PER_MINUTE && low && !flagged
}

/// Ten in the evening.
pub const TEN_PM: ClockTime = 79_200_000_000_000;

/// The Saturday on or after a date.
pub open spec fn next_saturday(d: Day) -> int {
    d + (6 - weekday(d))
}

/// The suggestions of the coming week are due: from Wednesday ten in the
/// evening, branch time, to the end of Friday.
pub open spec fn precompute_due(d: Day, t: ClockTime) -> bool {
    (weekday(d) == 3 && t >= TEN_PM) || weekday(d) == 4 || weekday(d) == 5
}

/// The week to compute suggestions for at a branch's local time, if it is due
/// and not held already.
pub fn precompute_week(date: Day, time: ClockTime, held: bool) -> (r: Option<Day>)
    requires
        MIN_DAY <= date <= MAX_DAY - 6,
    ensures
        r == if precompute_due(date, time) && !held {
            Some(next_saturday(date) as Day)
        } else {
            None
        },
{
    let d: i16 = dow(date);
    let due: bool = (d == 3 && time >= TEN_PM) || d == 4 || d == 5;
    if due && !held {
        Some(date + (6 - d as i32))
    } else {
        None
    }
}

/// The week suggestions are computed for starts on the Saturday to come.
pub proof fn law_the_week_ahead_starts_on_saturday(d: Day, t: ClockTime)
    requires
        MIN_DAY <= d <= MAX_DAY - 6,
        precompute_due(d, t),
    ensures
        weekday(next_saturday(d) as Day) == 6,
        d < next_saturday(d) <= d + 3,
{
}

/// Minutes past the scheduled end before a checkout counts as forgotten, where
/// the business set none.
pub const DEFAULT_BUFFER_MINUTES: i32 = 120;

/// A checkout counts as forgotten: past the scheduled end and the buffer.
pub open spec fn is_forgotten(end: Moment, buffer: Option<i32>, now: Moment) -> bool {
    let minutes = match buffer {
        Some(b) => b,
        None => DEFAULT_BUFFER_MINUTES,
    };
    now > end + minutes * NANOS_PER_MINUTE
}

pub fn forgotten(end: Moment, buffer: Option<i32>, now: Moment) -> (r: bool)
    requires
        valid_moment(end),
    ensures
        r == is_forgotten(end, buffer, now),
{
    let minutes: i32 = match buffer {
        Some(b) => b,
        None => DEFAULT_BUFFER_MINUTES,
    };
    now > end + minutes as i128 * NANOS_PER_MINUTE
}

/// The minutes a shift is scheduled for, none where it ends before it starts.
pub fn scheduled_minutes(start: Moment, end: Moment) -> (r: i64)
    requires
        valid_moment(start),
        valid_moment(end),
    ensures
        r == if minutes_between(start, end) > 0 {
            minutes_between(start, end)
        } else {
            0
        },
        forall|m: int| #[trigger] lasts(start as int, end as int, m) ==> r == m,
        end <= start ==> r == 0,
{
    let n: i64 = minutes_from(start, end);
    if n > 0 {
        n
    } else {
        0
    }
}

/// A record closed automatically.
#[derive(Debug, Clone, Copy, PartialEq, Eq, Structural)]
pub struct AutoClosed {
    pub check_out_at: Moment,
    pub figures: Derived,
}

/// A forgotten checkout is closed at the scheduled end. It accrues no overtime:
/// the service knows when the shift was supposed to finish, not when the person
/// left. Late minutes were settled at check-in; only the closing figures move.
pub fn close_forgotten(
    end: Moment,
    worked_minutes: i64,
    late_minutes: i64,
    status: AttendanceStatus,
) -> (r: AutoClosed)
    ensures
        r.check_out_at == end,
        r.figures == (Derived {
            late_minutes,
            early_leave_minutes: 0,
            overtime_minutes: 0,
            worked_minutes,
            status,
        }),
{
    AutoClosed {
        check_out_at: end,
        figures: Derived {
            late_minutes,
            early_leave_minutes: 0,
            overtime_minutes: 0,
            worked_minutes,
            status,
        },
    }
}

/// A rostered shift, with what is known of its day.
#[derive(Debug, Clone, Copy, PartialEq, Eq, Structural)]
pub struct RosteredShift {
    /// It has a branch.
    pub at_branch: bool,
    pub business_date: Day,
    pub scheduled_start_at: Moment,
    pub scheduled_end_at: Moment,
    /// When the business first saved its rules, if it did.
    pub rules_saved_at: Option<Moment>,
    /// A confirmed public holiday.
    pub holiday: bool,
    /// There is a record of it already.
    pub recorded: bool,
    /// Approved leave or an approved mission covers the day.
    pub excused: bool,
}

/// The shift started once the business had saved its rules: nobody could clock
/// in before, so nobody is marked absent or charged.
pub open spec fn under_rules(s: RosteredShift) -> bool {
    s.rules_saved_at is Some && s.scheduled_start_at >= s.rules_saved_at->0
}

/// The shift is missed: yesterday's or today's in its branch's calendar, begun
/// under the business's rules, over, not on a holiday, and without a record. A sweep that reached back further
/// would bring back absences someone had deleted.
pub open spec fn missed(s: RosteredShift, today: Day, now: Moment) -> bool {
    &&& s.at_branch
    &&& under_rules(s)
    &&& today - 1 <= s.business_date <= today
    &&& now > s.scheduled_end_at
    &&& !s.holiday
    &&& !s.recorded
}

fn begun_under_rules(s: &RosteredShift) -> (r: bool)
    ensures
        r == under_rules(*s),
{
    match s.rules_saved_at {
        Some(t) => s.scheduled_start_at >= t,
        None => false,
    }
}

/// What a shift nobody clocked in for becomes, if it is missed: leave where
/// approved leave or a mission covers the day, otherwise an absence.
pub fn mark_absence(s: &RosteredShift, today: Day, now: Moment) -> (r: Option<AttendanceStatus>)
    requires
        valid_day(today),
    ensures
        r == if missed(*s, today, now) {
            Some(
                if s.excused {
                    AttendanceStatus::OnLeave
                } else {
                    AttendanceStatus::Absent
                },
            )
        } else {
            None
        },
{
    if s.at_branch && begun_under_rules(s) && today - 1 <= s.business_date && s.business_date <= today && now
        > s.scheduled_end_at && !s.holiday && !s.recorded {
        if s.excused {
            Some(AttendanceStatus::OnLeave)
        } else {
            Some(AttendanceStatus::Absent)
        }
    } else {
        None
    }
}

/// The sweep never marks a shift that started before the rules were saved, nor
/// any while they are not.
pub proof fn law_nothing_is_missed_before_the_rules(s: RosteredShift, today: Day, now: Moment)
    requires
        s.rules_saved_at is None || s.scheduled_start_at < s.rules_saved_at->0,
    ensures
        !missed(s, today, now),
{
}

/// What a rostered shift becomes when a past holiday is dismissed again: as the
/// sweep would have marked it.
pub fn restore_absence(s: &RosteredShift, now: Moment) -> (r: Option<AttendanceStatus>)
    ensures
        r == if s.at_branch && under_rules(*s) && now > s.scheduled_end_at && !s.recorded {
            Some(
                if s.excused {
                    AttendanceStatus::OnLeave
                } else {
                    AttendanceStatus::Absent
                },
            )
        } else {
            None
        },
{
    if s.at_branch && begun_under_rules(s) && now > s.scheduled_end_at && !s.recorded {
        if s.excused {
            Some(AttendanceStatus::OnLeave)
        } else {
            Some(AttendanceStatus::Absent)
        }
    } else {
        None
    }
}

/// How far back days are priced that were not priced yet.
pub const PRICED_BACK_DAYS: i32 = 7;

/// A recent day that is closed (or missed), costs something and carries no
/// automatic deduction yet is to be priced.
pub fn needs_pricing(
    business_date: Day,
    today: Day,
    checked_out: bool,
    missed: bool,
    late_minutes: i32,
    priced: bool,
) -> (r: bool)
    requires
        valid_day(today),
    ensures
        r == (business_date >= today - PRICED_BACK_DAYS && (checked_out || missed) && (late_minutes
            > 0 || missed) && !priced),
        r <==> today - business_date <= 7 && !priced && (missed || checked_out && late_minutes > 0),
{
    business_date >= today - PRICED_BACK_DAYS && (checked_out || missed) && (late_minutes > 0
        || missed) && !priced
}

/// How long a punch's coordinates are kept.
pub const COORD_RETENTION_DAYS: i32 = 90;

/// A record whose coordinates have been kept long enough. Times, distances and
/// how it was made stay.
pub fn coordinates_stale(business_date: Day, today: Day, located: bool) -> (r: bool)
    requires
        valid_day(today),
    ensures
        r == (business_date < today - COORD_RETENTION_DAYS && located),
        r <==> located && today - business_date > 90,
{
    business_date < today - COORD_RETENTION_DAYS && located
}

/// A checkout is forgotten once the buffer after the scheduled end is over, two
/// hours where none is set; a longer buffer never makes it so sooner.
pub proof fn law_a_checkout_is_forgotten_after_the_buffer(
    end: Moment,
    buffer: Option<i32>,
    longer: i32,
    now: Moment,
)
    ensures
        buffer is Some ==> (is_forgotten(end, buffer, now) <==> now - end > buffer->0
            * 60_000_000_000),
        is_forgotten(end, None, now) <==> now - end > 2 * 3_600_000_000_000,
        buffer is Some && buffer->0 <= longer && is_forgotten(end, Some(longer), now)
            ==> is_forgotten(end, buffer, now),
{
}

/// A shift is missed exactly where it has a branch, is yesterday's or today's,
/// began under saved rules, is over, and is neither on a holiday nor on record.
pub proof fn law_which_shift_is_missed(s: RosteredShift, today: Day, now: Moment)
    ensures
        missed(s, today, now) <==> {
            &&& s.at_branch
            &&& s.business_date == today || s.business_date == today - 1
            &&& s.rules_saved_at is Some
            &&& s.rules_saved_at->0 <= s.scheduled_start_at
            &&& s.scheduled_end_at < now
            &&& !s.holiday
            &&& !s.recorded
        },
{
}

/// Suggestions are due from Wednesday at ten in the evening to the end of
/// Friday, for the Saturday after, which starts the same week whichever of these
/// days it is.
pub proof fn law_suggestions_are_due_before_the_weekend(d: Day, t: ClockTime)
    ensures
        d as int % 7 == 3 ==> (precompute_due(d, t) <==> t >= 22 * 3_600_000_000_000),
        d as int % 7 == 4 || d as int % 7 == 5 ==> precompute_due(d, t),
        d as int % 7 == 0 || d as int % 7 == 1 || d as int % 7 == 2 || d as int % 7 == 6
            ==> !precompute_due(d, t),
        d as int % 7 == 3 ==> next_saturday(d) == d + 3,
        d as int % 7 == 4 ==> next_saturday(d) == d + 2,
        d as int % 7 == 5 ==> next_saturday(d) == d + 1,
{
}

/// The switch turns the sweep off by one of four words, and by no other.
pub proof fn law_four_words_turn_the_sweep_off(word: Seq<char>)
    ensures
        !switched_off(None),
        switched_off(Some(word)) <==> word == "0"@ || word == "false"@ || word == "no"@ || word
            == "off"@,
{
}

} // verus!
