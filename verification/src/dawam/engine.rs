//! The roster engine's pure parts: what counts as late or night, the labour
//! limits and coverage hours.

pub mod learning;
pub mod limits;
pub mod moves;

use std::ops::Range;

use vstd::prelude::*;

use crate::calendar::{
    max_of, minutes_between, minutes_from, valid_clock, valid_moment, whole_units, ClockTime, Day,
    Id, Moment,
};
use crate::dawam::{roster_day, saturday_of, week_start};
use crate::decimal::{as_i64, has_room, multiplied, power10, product, product_fits, without_fraction, Dec};

verus! {

/// The minute of the day a time falls in.
pub open spec fn minute(t: ClockTime) -> int {
    t as int / 60_000_000_000
}

/// The minute of the day a time falls in.
pub fn minute_of(t: ClockTime) -> (r: i32)
    requires
        valid_clock(t),
    ensures
        r == minute(t),
        0 <= r < 1440,
{
    (t / 60_000_000_000) as i32
}

/// The minutes from `s` to `e` share a minute with the band from `a` to `b`.
pub open spec fn meets(s: int, e: int, a: int, b: int) -> bool {
    s < b && a < e
}

/// The minutes from `s` to `e` touch the night from `ns` to `ne`, which goes
/// over midnight unless it ends after it starts.
pub open spec fn touches_night(s: int, e: int, ns: int, ne: int) -> bool {
    if ns < ne {
        meets(s, e, ns, ne)
    } else {
        meets(s, e, ns, 1440) || meets(s, e, 0, ne)
    }
}

/// Late or night: starts at 16:00 or later, crosses midnight, or touches the
/// night window.
pub open spec fn late_shift(
    start: ClockTime,
    end: ClockTime,
    crosses_midnight: bool,
    night: (ClockTime, ClockTime),
) -> bool {
    ||| crosses_midnight
    ||| start >= 57_600_000_000_000
    ||| touches_night(minute(start), minute(end), minute(night.0), minute(night.1))
}

/// Late or night: starts at 16:00 or later, crosses midnight, or touches the
/// night window.
pub fn is_late(
    start: ClockTime,
    end: ClockTime,
    crosses_midnight: bool,
    night: (ClockTime, ClockTime),
) -> (r: bool)
    requires
        valid_clock(start),
        valid_clock(end),
        valid_clock(night.0),
        valid_clock(night.1),
    ensures
        r == late_shift(start, end, crosses_midnight, night),
{
    if crosses_midnight || start >= 57_600_000_000_000 {
        return true;
    }
    let s: i32 = minute_of(start);
    let e: i32 = minute_of(end);
    let ns: i32 = minute_of(night.0);
    let ne: i32 = minute_of(night.1);
    if ns < ne {
        s < ne && ns < e
    } else {
        (s < 1440 && ns < e) || (s < ne && 0 < e)
    }
}

/// The minute a shift ends at, counted from its own date's midnight.
pub open spec fn end_minute(start: ClockTime, end: ClockTime, crosses_midnight: bool) -> int {
    if crosses_midnight || minute(end) <= minute(start) {
        minute(end) + 1440
    } else {
        minute(end)
    }
}

/// The clock hours a shift touches, counted from its own date's midnight
/// (24.. is the next morning).
pub fn shift_hours(start: ClockTime, end: ClockTime, crosses_midnight: bool) -> (r: Range<i32>)
    requires
        valid_clock(start),
        valid_clock(end),
    ensures
        r.start == minute(start) / 60,
        r.end == (end_minute(start, end, crosses_midnight) + 59) / 60,
        0 <= r.start < 24,
        r.end <= 48,
{
    let s: i32 = minute_of(start);
    let mut e: i32 = minute_of(end);
    if crosses_midnight || e <= s {
        e += 1440;
    }
    (s / 60)..((e + 59) / 60)
}

/// A shift touches the hour it starts in, and every hour it touches has a
/// minute of the shift in it.
pub proof fn law_shift_hours_are_those_with_a_minute(
    start: ClockTime,
    end: ClockTime,
    crosses_midnight: bool,
    hour: int,
)
    requires
        valid_clock(start),
        valid_clock(end),
    ensures
        minute(start) / 60 <= hour < (end_minute(start, end, crosses_midnight) + 59) / 60 <==> (
        exists|m: int|
            #![trigger meets(m, m + 1, hour * 60, hour * 60 + 60)]
            minute(start) <= m < end_minute(start, end, crosses_midnight) && meets(
                m,
                m + 1,
                hour * 60,
                hour * 60 + 60,
            )),
{
    let s = minute(start);
    let e = end_minute(start, end, crosses_midnight);
    if s / 60 <= hour < (e + 59) / 60 {
        let m = if s >= hour * 60 {
            s
        } else {
            hour * 60
        };
        assert(meets(m, m + 1, hour * 60, hour * 60 + 60));
    }
}

/// The clock hours a coverage band touches.
pub fn band_hours(start: ClockTime, end: ClockTime) -> (r: Range<i32>)
    requires
        valid_clock(start),
        valid_clock(end),
    ensures
        r.start == minute(start) / 60,
        r.end == (minute(end) + 59) / 60,
        0 <= r.start < 24,
        0 <= r.end <= 24,
{
    (minute_of(start) / 60)..((minute_of(end) + 59) / 60)
}

/// The need an hour's sales show: `orders` over `weeks` weeks, one person per
/// `per_staff` orders of the average hour (at least one whenever anything
/// sells). Past what an `i32` holds, the largest `i32`.
pub open spec fn need_of(orders: int, weeks: int, per_staff: int) -> int {
    if orders <= 0 {
        0
    } else {
        let per = weeks * max_of(per_staff, 1);
        let people = (orders + per - 1) / per;
        if people > i32::MAX {
            i32::MAX as int
        } else {
            people
        }
    }
}

/// Sales-derived need for an hour: one person per `per_staff` orders of the
/// average hour (at least one whenever anything sells).
pub fn pos_need(orders: i64, weeks: u8, per_staff: i32) -> (r: i32)
    requires
        weeks > 0,
    ensures
        r == need_of(orders as int, weeks as int, per_staff as int),
{
    if orders <= 0 {
        return 0;
    }
    let each: i128 = if per_staff < 1 {
        1
    } else {
        per_staff as i128
    };
    proof {
        assert(weeks as int * each as int >= 1 && weeks as int * each as int <= 255
            * 2_147_483_647) by (nonlinear_arith)
            requires
                1 <= weeks <= 255,
                1 <= each <= 2_147_483_647,
        ;
    }
    let per: i128 = weeks as i128 * each;
    let total: i128 = orders as i128 + per - 1;
    let people: i128 = total / per;
    proof {
        assert(people >= 0 && people <= total) by (nonlinear_arith)
            requires
                people == total as int / per as int,
                per >= 1,
                total >= 0,
        ;
    }
    if people > 2_147_483_647 {
        2_147_483_647
    } else {
        people as i32
    }
}

/// The need is the fewest people who take the average hour's orders at
/// `per_staff` each.
pub proof fn law_need_is_the_fewest(orders: int, weeks: int, per_staff: int, people: int)
    requires
        weeks > 0,
        per_staff >= 1,
        orders > 0,
        need_of(orders, weeks, per_staff) < i32::MAX,
    ensures
        people * (weeks * per_staff) >= orders <==> people >= need_of(orders, weeks, per_staff),
{
    let per = weeks * per_staff;
    let need = (orders + per - 1) / per;
    assert(per >= 1) by (nonlinear_arith)
        requires
            weeks > 0,
            per_staff >= 1,
            per == weeks * per_staff,
    ;
    assert(need * per >= orders && (need - 1) * per < orders) by (nonlinear_arith)
        requires
            per >= 1,
            need == (orders + per - 1) / per,
    ;
    if people >= need {
        assert(people * per >= need * per) by (nonlinear_arith)
            requires
                people >= need,
                per >= 1,
        ;
    } else {
        assert(people * per <= (need - 1) * per) by (nonlinear_arith)
            requires
                people <= need - 1,
                per >= 1,
        ;
    }
}

/// Labour limits in minutes.
#[derive(Clone, Copy, Debug)]
pub struct Limits {
    pub day: i64,
    pub week: i64,
    pub presence: i64,
    pub rest: i64,
}

/// Labour limits in hours, as they are set.
#[derive(Clone, Copy, Debug)]
pub struct LimitHours {
    pub limit_day_hours: Dec,
    pub limit_week_hours: Dec,
    pub limit_presence_hours: Dec,
    pub limit_rest_hours: Dec,
}

/// The minutes of an hour.
pub open spec fn an_hour() -> Dec {
    Dec { mantissa: 60, scale: 0 }
}

/// A number of hours that can be turned into minutes.
pub open spec fn valid_hours(h: Dec) -> bool {
    h.valid() && product_fits(h, an_hour())
}

/// The whole minutes of a number of hours.
pub open spec fn minutes_of(h: Dec) -> i64 {
    let m = product(h.mantissa as int, h.scale as int, 60, 0);
    match as_i64(whole_units(m.mantissa as int, power10(m.scale as int))) {
        Some(n) => n,
        None => i64::MAX,
    }
}

/// A number of hours, none or more, that lasts so many whole minutes.
pub open spec fn hours_last(h: Dec, minutes: i64) -> bool {
    &&& h.mantissa >= 0
    &&& has_room(h.mantissa * 60)
    &&& minutes * power10(h.scale as int) <= h.mantissa * 60 < (minutes + 1) * power10(
        h.scale as int,
    )
}

/// A number of hours in minutes.
pub(crate) fn times60(h: Dec) -> (r: Dec)
    requires
        valid_hours(h),
    ensures
        r == product(h.mantissa as int, h.scale as int, 60, 0),
        r.valid(),
        h.mantissa == 0 ==> r.mantissa == 0 && r.scale == 0,
        h.mantissa != 0 && has_room(h.mantissa * 60) ==> r.mantissa == h.mantissa * 60 && r.scale
            == h.scale,
{
    multiplied(h, Dec { mantissa: 60, scale: 0 })
}

fn minutes(h: Dec) -> (r: i64)
    requires
        valid_hours(h),
    ensures
        r == minutes_of(h),
        forall|n: i64| #[trigger] hours_last(h, n) ==> r == n,
{
    let m: Dec = times60(h);
    let r: i64 = match without_fraction(m) {
        Some(n) => n,
        None => i64::MAX,
    };
    assert forall|n: i64| #[trigger] hours_last(h, n) implies r == n by {
        let unit = power10(h.scale as int);
        lemma_power_is_positive(h.scale as int);
        assert(power10(0) == 1);
        assert(h.mantissa * 60 / unit == n) by (nonlinear_arith)
            requires
                n * unit <= h.mantissa * 60 < (n + 1) * unit,
                unit > 0,
        ;
        if h.mantissa == 0 {
            assert(n == 0) by (nonlinear_arith)
                requires
                    n * unit <= 0 < (n + 1) * unit,
                    unit > 0,
            ;
        }
    }
    r
}

pub(crate) proof fn lemma_power_is_positive(n: int)
    ensures
        power10(n) > 0,
    decreases n,
{
    if n > 0 {
        lemma_power_is_positive(n - 1);
    }
}

impl Limits {
    /// The limits in minutes of those set in hours.
    pub fn of(s: &LimitHours) -> (r: Self)
        requires
            valid_hours(s.limit_day_hours),
            valid_hours(s.limit_week_hours),
            valid_hours(s.limit_presence_hours),
            valid_hours(s.limit_rest_hours),
        ensures
            r.day == minutes_of(s.limit_day_hours),
            r.week == minutes_of(s.limit_week_hours),
            r.presence == minutes_of(s.limit_presence_hours),
            r.rest == minutes_of(s.limit_rest_hours),
            forall|n: i64| #[trigger] hours_last(s.limit_day_hours, n) ==> r.day == n,
            forall|n: i64| #[trigger] hours_last(s.limit_week_hours, n) ==> r.week == n,
            forall|n: i64| #[trigger] hours_last(s.limit_presence_hours, n) ==> r.presence == n,
            forall|n: i64| #[trigger] hours_last(s.limit_rest_hours, n) ==> r.rest == n,
    {
        Limits {
            day: minutes(s.limit_day_hours),
            week: minutes(s.limit_week_hours),
            presence: minutes(s.limit_presence_hours),
            rest: minutes(s.limit_rest_hours),
        }
    }
}

/// One rostered shift of one person.
#[derive(Clone, Copy, Debug)]
pub struct Span {
    pub date: Day,
    pub start: Moment,
    pub end: Moment,
}

impl Span {
    /// A shift the calendar holds.
    pub open spec fn valid(self) -> bool {
        roster_day(self.date) && valid_moment(self.start) && valid_moment(self.end)
    }
}

/// The minutes of all spans, whichever way each runs.
pub open spec fn length_of(spans: Seq<Span>) -> int
    decreases spans.len(),
{
    if spans.len() == 0 {
        0
    } else {
        let n = minutes_between(spans.last().start, spans.last().end);
        length_of(spans.drop_last()) + if n < 0 {
            -n
        } else {
            n
        }
    }
}

/// Spans the calendar holds, whose minutes an `i64` adds up.
pub open spec fn valid_spans(spans: Seq<Span>) -> bool {
    held_spans(spans) && length_of(spans) <= i64::MAX
}

/// Which limit a roster breaks.
#[derive(Clone, Copy, Debug, PartialEq, Eq, Hash, Structural)]
pub enum LabourKind {
    DayHours,
    WeekHours,
    Presence,
    Rest,
    WeeklyRest,
    OvertimeDay,
}

impl LabourKind {
    /// The kind's name on the wire.
    pub open spec fn name(self) -> Seq<char> {
        match self {
            LabourKind::DayHours => "day_hours"@,
            LabourKind::WeekHours => "week_hours"@,
            LabourKind::Presence => "presence"@,
            LabourKind::Rest => "rest"@,
            LabourKind::WeeklyRest => "weekly_rest"@,
            LabourKind::OvertimeDay => "overtime_day"@,
        }
    }

    /// `day_hours` · `week_hours` · `presence` · `rest` · `weekly_rest` · `overtime_day`
    pub fn as_str(&self) -> (r: &'static str)
        ensures
            r@ == self.name(),
    {
        match self {
            LabourKind::DayHours => "day_hours",
            LabourKind::WeekHours => "week_hours",
            LabourKind::Presence => "presence",
            LabourKind::Rest => "rest",
            LabourKind::WeeklyRest => "weekly_rest",
            LabourKind::OvertimeDay => "overtime_day",
        }
    }
}

/// A roster past a labour limit. Warns, never blocks.
#[derive(Clone, Copy, Debug, PartialEq, Eq, Hash)]
pub struct LabourWarning {
    pub employee_id: Id,
    /// The day (or, for a week's limit, the Saturday it starts).
    pub date: Day,
    pub kind: LabourKind,
    pub minutes: i64,
    pub limit_minutes: i64,
}

/// A broken limit: the day it falls on, which one, by how much of how much.
pub struct Break {
    pub date: int,
    pub kind: LabourKind,
    pub minutes: int,
    pub limit: int,
}

impl LabourWarning {
    pub open spec fn broken(self) -> Break {
        Break {
            date: self.date as int,
            kind: self.kind,
            minutes: self.minutes as int,
            limit: self.limit_minutes as int,
        }
    }
}

/// What a list of warnings says.
pub open spec fn broken_limits(ws: Seq<LabourWarning>) -> Seq<Break> {
    Seq::new(ws.len(), |i: int| ws[i].broken())
}

/// A broken limit, with room for every sum.
#[derive(Clone, Copy)]
struct Found {
    date: Day,
    kind: LabourKind,
    minutes: i128,
    limit: i64,
}

impl Found {
    spec fn broken(self) -> Break {
        Break {
            date: self.date as int,
            kind: self.kind,
            minutes: self.minutes as int,
            limit: self.limit as int,
        }
    }
}

/// What a list of broken limits says.
spec fn found_limits(fs: Seq<Found>) -> Seq<Break> {
    Seq::new(fs.len(), |i: int| fs[i].broken())
}

/// Spans the calendar holds.
pub open spec fn held_spans(spans: Seq<Span>) -> bool {
    forall|i: int| 0 <= i < spans.len() ==> (#[trigger] spans[i]).valid()
}

/// A list of dates in ascending order with one more date, unless it is there.
pub open spec fn with_day(days: Seq<Day>, d: Day) -> Seq<Day>
    decreases days.len(),
{
    if days.len() == 0 || days.last() < d {
        days.push(d)
    } else if days.last() == d {
        days
    } else {
        with_day(days.drop_last(), d).push(days.last())
    }
}

/// The dates of a roster, each once, in ascending order.
pub open spec fn days_of(spans: Seq<Span>) -> Seq<Day>
    decreases spans.len(),
{
    if spans.len() == 0 {
        Seq::empty()
    } else {
        with_day(days_of(spans.drop_last()), spans.last().date)
    }
}

/// The minutes worked on a date.
pub open spec fn worked_on(spans: Seq<Span>, d: Day) -> int
    decreases spans.len(),
{
    if spans.len() == 0 {
        0
    } else {
        let s = spans.last();
        worked_on(spans.drop_last(), d) + if s.date == d {
            minutes_between(s.start, s.end)
        } else {
            0
        }
    }
}

/// A moment no shift of the date starts before, and one of them starts at.
pub open spec fn starts_first(spans: Seq<Span>, d: Day, t: Moment) -> bool {
    &&& exists|i: int| 0 <= i < spans.len() && (#[trigger] spans[i]).date == d && spans[i].start == t
    &&& forall|i: int|
        0 <= i < spans.len() && (#[trigger] spans[i]).date == d ==> t <= spans[i].start
}

/// A moment no shift of the date ends after, and one of them ends at.
pub open spec fn ends_last(spans: Seq<Span>, d: Day, t: Moment) -> bool {
    &&& exists|i: int| 0 <= i < spans.len() && (#[trigger] spans[i]).date == d && spans[i].end == t
    &&& forall|i: int| 0 <= i < spans.len() && (#[trigger] spans[i]).date == d ==> t >= spans[i].end
}

/// The minutes from a date's first start to its last end.
pub open spec fn present_on(spans: Seq<Span>, d: Day) -> int {
    minutes_between(
        choose|t: Moment| starts_first(spans, d, t),
        choose|t: Moment| ends_last(spans, d, t),
    )
}

/// The limits a single date breaks: hours worked, then hours present.
pub open spec fn day_breaks(spans: Seq<Span>, d: Day, l: Limits) -> Seq<Break> {
    let worked = worked_on(spans, d);
    let present = present_on(spans, d);
    let hours = if worked > l.day {
        seq![
            Break {
                date: d as int,
                kind: LabourKind::DayHours,
                minutes: worked,
                limit: l.day as int,
            },
        ]
    } else {
        Seq::empty()
    };
    let presence = if present > l.presence {
        seq![
            Break {
                date: d as int,
                kind: LabourKind::Presence,
                minutes: present,
                limit: l.presence as int,
            },
        ]
    } else {
        Seq::empty()
    };
    hours + presence
}

/// The limits a list of dates breaks, date by date.
pub open spec fn days_break(spans: Seq<Span>, days: Seq<Day>, l: Limits) -> Seq<Break>
    decreases days.len(),
{
    if days.len() == 0 {
        Seq::empty()
    } else {
        days_break(spans, days.drop_last(), l) + day_breaks(spans, days.last(), l)
    }
}

/// The Saturdays of ascending dates, each once.
pub open spec fn weeks_of(days: Seq<Day>) -> Seq<int>
    decreases days.len(),
{
    if days.len() == 0 {
        Seq::empty()
    } else {
        let before = weeks_of(days.drop_last());
        let w = saturday_of(days.last());
        if before.len() > 0 && before.last() == w {
            before
        } else {
            before.push(w)
        }
    }
}

/// The minutes worked over a week.
pub open spec fn worked_in_week(spans: Seq<Span>, week: int) -> int
    decreases spans.len(),
{
    if spans.len() == 0 {
        0
    } else {
        let s = spans.last();
        worked_in_week(spans.drop_last(), week) + if saturday_of(s.date) == week {
            minutes_between(s.start, s.end)
        } else {
            0
        }
    }
}

/// The dates of a week.
pub open spec fn days_in_week(days: Seq<Day>, week: int) -> int
    decreases days.len(),
{
    if days.len() == 0 {
        0
    } else {
        days_in_week(days.drop_last(), week) + if saturday_of(days.last()) == week {
            1int
        } else {
            0
        }
    }
}

/// The limits a single week breaks: its hours, then its day of rest.
pub open spec fn week_breaks(spans: Seq<Span>, days: Seq<Day>, week: int, l: Limits) -> Seq<Break> {
    let worked = worked_in_week(spans, week);
    let hours = if worked > l.week {
        seq![
            Break {
                date: week,
                kind: LabourKind::WeekHours,
                minutes: worked,
                limit: l.week as int,
            },
        ]
    } else {
        Seq::empty()
    };
    let rest = if days_in_week(days, week) >= 7 {
        seq![Break { date: week, kind: LabourKind::WeeklyRest, minutes: 0, limit: 1440 }]
    } else {
        Seq::empty()
    };
    hours + rest
}

/// The limits a list of weeks breaks, week by week.
pub open spec fn weeks_break(
    spans: Seq<Span>,
    days: Seq<Day>,
    weeks: Seq<int>,
    l: Limits,
) -> Seq<Break>
    decreases weeks.len(),
{
    if weeks.len() == 0 {
        Seq::empty()
    } else {
        weeks_break(spans, days, weeks.drop_last(), l) + week_breaks(spans, days, weeks.last(), l)
    }
}

/// Spans in order of their start with one more, after those that start with it.
pub open spec fn with_span(sorted: Seq<Span>, s: Span) -> Seq<Span>
    decreases sorted.len(),
{
    if sorted.len() == 0 || sorted.last().start <= s.start {
        sorted.push(s)
    } else {
        with_span(sorted.drop_last(), s).push(sorted.last())
    }
}

/// Spans in order of their start; those that start together keep their order.
pub open spec fn by_start(spans: Seq<Span>) -> Seq<Span>
    decreases spans.len(),
{
    if spans.len() == 0 {
        Seq::empty()
    } else {
        with_span(by_start(spans.drop_last()), spans.last())
    }
}

/// The rest a span leaves too little of after the one before it. Split shifts
/// on one date are allowed; rest is between dates.
pub open spec fn rest_break(before: Span, after: Span, l: Limits) -> Seq<Break> {
    let gap = minutes_between(before.end, after.start);
    if before.date != after.date && gap < l.rest {
        seq![
            Break {
                date: after.date as int,
                kind: LabourKind::Rest,
                minutes: max_of(gap, 0),
                limit: l.rest as int,
            },
        ]
    } else {
        Seq::empty()
    }
}

/// The rests a row of spans leaves too little of.
pub open spec fn rests_break(sorted: Seq<Span>, l: Limits) -> Seq<Break>
    decreases sorted.len(),
{
    if sorted.len() < 2 {
        Seq::empty()
    } else {
        rests_break(sorted.drop_last(), l) + rest_break(
            sorted[sorted.len() - 2],
            sorted.last(),
            l,
        )
    }
}

/// Every limit one person's spans break: by date, then by week, then the rests.
pub open spec fn limits_broken(spans: Seq<Span>, l: Limits) -> Seq<Break> {
    let days = days_of(spans);
    days_break(spans, days, l) + weeks_break(spans, days, weeks_of(days), l) + rests_break(
        by_start(spans),
        l,
    )
}

/// Two moments that both start a date first are one.
proof fn lemma_first_is_one(spans: Seq<Span>, d: Day, a: Moment, b: Moment)
    requires
        starts_first(spans, d, a),
        starts_first(spans, d, b),
    ensures
        a == b,
{
    let i = choose|i: int|
        0 <= i < spans.len() && (#[trigger] spans[i]).date == d && spans[i].start == a;
    let j = choose|j: int|
        0 <= j < spans.len() && (#[trigger] spans[j]).date == d && spans[j].start == b;
    assert(spans[i].date == d && spans[j].date == d);
}

/// Two moments that both end a date last are one.
proof fn lemma_last_is_one(spans: Seq<Span>, d: Day, a: Moment, b: Moment)
    requires
        ends_last(spans, d, a),
        ends_last(spans, d, b),
    ensures
        a == b,
{
    let i = choose|i: int|
        0 <= i < spans.len() && (#[trigger] spans[i]).date == d && spans[i].end == a;
    let j = choose|j: int|
        0 <= j < spans.len() && (#[trigger] spans[j]).date == d && spans[j].end == b;
    assert(spans[i].date == d && spans[j].date == d);
}

/// What a date is present for, from its first start and last end.
pub(crate) proof fn lemma_present(spans: Seq<Span>, d: Day, first: Moment, last: Moment)
    requires
        starts_first(spans, d, first),
        ends_last(spans, d, last),
    ensures
        present_on(spans, d) == minutes_between(first, last),
{
    lemma_first_is_one(spans, d, first, choose|t: Moment| starts_first(spans, d, t));
    lemma_last_is_one(spans, d, last, choose|t: Moment| ends_last(spans, d, t));
}

/// A date added to a list: the list's dates and it, no others.
proof fn lemma_with_day(days: Seq<Day>, d: Day)
    ensures
        forall|x: Day| #[trigger]
            with_day(days, d).contains(x) <==> days.contains(x) || x == d,
        with_day(days, d).len() <= days.len() + 1,
    decreases days.len(),
{
    if days.len() == 0 || days.last() < d {
        assert forall|x: Day| #[trigger] days.push(d).contains(x) implies days.contains(x) || x
            == d by {
            let i = choose|i: int| 0 <= i < days.push(d).len() && days.push(d)[i] == x;
            if i < days.len() {
                assert(days[i] == x);
            }
        }
        assert forall|x: Day| days.contains(x) || x == d implies #[trigger] days.push(d).contains(
            x,
        ) by {
            if days.contains(x) {
                let i = choose|i: int| 0 <= i < days.len() && days[i] == x;
                assert(days.push(d)[i] == x);
            } else {
                assert(days.push(d)[days.len() as int] == x);
            }
        }
    } else if days.last() == d {
        assert(days[days.len() - 1] == d);
    } else {
        let short = days.drop_last();
        lemma_with_day(short, d);
        let inner = with_day(short, d);
        assert forall|x: Day| #[trigger] inner.push(days.last()).contains(x) implies days.contains(
            x,
        ) || x == d by {
            let i = choose|i: int|
                0 <= i < inner.push(days.last()).len() && inner.push(days.last())[i] == x;
            if i < inner.len() {
                assert(inner[i] == x);
                assert(inner.contains(x));
                if short.contains(x) {
                    let j = choose|j: int| 0 <= j < short.len() && short[j] == x;
                    assert(days[j] == x);
                }
            } else {
                assert(days[days.len() - 1] == x);
            }
        }
        assert forall|x: Day| days.contains(x) || x == d implies #[trigger] inner.push(
            days.last(),
        ).contains(x) by {
            if x == d || short.contains(x) {
                assert(inner.contains(x));
                let i = choose|i: int| 0 <= i < inner.len() && inner[i] == x;
                assert(inner.push(days.last())[i] == x);
            } else {
                let i = choose|i: int| 0 <= i < days.len() && days[i] == x;
                if i < short.len() {
                    assert(short[i] == x);
                }
                assert(inner.push(days.last())[inner.len() as int] == x);
            }
        }
    }
}

/// The dates of a roster are those its spans fall on.
pub proof fn law_days_are_the_spans_dates(spans: Seq<Span>, d: Day)
    ensures
        days_of(spans).contains(d) <==> exists|i: int|
            0 <= i < spans.len() && (#[trigger] spans[i]).date == d,
        days_of(spans).len() <= spans.len(),
    decreases spans.len(),
{
    if spans.len() > 0 {
        let short = spans.drop_last();
        law_days_are_the_spans_dates(short, d);
        lemma_with_day(days_of(short), spans.last().date);
        if exists|i: int| 0 <= i < spans.len() && (#[trigger] spans[i]).date == d {
            let i = choose|i: int| 0 <= i < spans.len() && (#[trigger] spans[i]).date == d;
            if i < short.len() {
                assert(short[i].date == d);
            }
        }
        if days_of(short).contains(d) {
            let i = choose|i: int| 0 <= i < short.len() && (#[trigger] short[i]).date == d;
            assert(spans[i].date == d);
        }
        if spans.last().date == d {
            assert(spans[spans.len() - 1].date == d);
        }
    }
}

/// Puts a date in its place, unless it is there.
fn put_day(days: &mut Vec<Day>, d: Day)
    ensures
        final(days)@ == with_day(old(days)@, d),
{
    let ghost s = days@;
    let mut i: usize = days.len();
    assert(s.take(i as int) =~= s);
    assert(with_day(s, d) =~= with_day(s.take(i as int), d) + s.skip(i as int));
    while i > 0 && days[i - 1] > d
        invariant
            days@ == s,
            i <= s.len(),
            with_day(s, d) == with_day(s.take(i as int), d) + s.skip(i as int),
        decreases i,
    {
        let ghost front = s.take(i as int);
        i -= 1;
        assert(front.drop_last() =~= s.take(i as int));
        assert(with_day(s.take(i as int), d).push(s[i as int]) + s.skip(i + 1) =~= with_day(
            s.take(i as int),
            d,
        ) + s.skip(i as int));
    }
    if i > 0 && days[i - 1] == d {
        assert(s.take(i as int) + s.skip(i as int) =~= s);
        return ;
    }
    days.insert(i, d);
    assert(days@ =~= s.take(i as int).push(d) + s.skip(i as int));
}

/// Puts a span after those that start no later.
fn put_span(sorted: &mut Vec<Span>, x: Span)
    ensures
        final(sorted)@ == with_span(old(sorted)@, x),
{
    let ghost s = sorted@;
    let mut i: usize = sorted.len();
    assert(s.take(i as int) =~= s);
    assert(with_span(s, x) =~= with_span(s.take(i as int), x) + s.skip(i as int));
    while i > 0 && sorted[i - 1].start > x.start
        invariant
            sorted@ == s,
            i <= s.len(),
            with_span(s, x) == with_span(s.take(i as int), x) + s.skip(i as int),
        decreases i,
    {
        let ghost front = s.take(i as int);
        i -= 1;
        assert(front.drop_last() =~= s.take(i as int));
        assert(with_span(s.take(i as int), x).push(s[i as int]) + s.skip(i + 1) =~= with_span(
            s.take(i as int),
            x,
        ) + s.skip(i as int));
    }
    sorted.insert(i, x);
    assert(sorted@ =~= s.take(i as int).push(x) + s.skip(i as int));
}

/// A date's minutes worked, first start and last end.
fn day_totals(spans: &[Span], d: Day) -> (r: (i128, Moment, Moment))
    requires
        held_spans(spans@),
        exists|i: int| 0 <= i < spans@.len() && (#[trigger] spans@[i]).date == d,
    ensures
        r.0 == worked_on(spans@, d),
        starts_first(spans@, d, r.1),
        ends_last(spans@, d, r.2),
        valid_moment(r.1),
        valid_moment(r.2),
{
    let mut worked: i128 = 0;
    let mut first: Moment = 0;
    let mut last: Moment = 0;
    let mut seen: bool = false;
    let ghost mut fi: int = 0;
    let ghost mut la: int = 0;
    let mut i: usize = 0;
    while i < spans.len()
        invariant
            i <= spans@.len(),
            held_spans(spans@),
            worked == worked_on(spans@.take(i as int), d),
            -(i * 300_000_000_000) <= worked <= i * 300_000_000_000,
            !seen ==> forall|k: int| 0 <= k < i ==> (#[trigger] spans@[k]).date != d,
            seen ==> 0 <= fi < i && spans@[fi].date == d && spans@[fi].start == first,
            seen ==> 0 <= la < i && spans@[la].date == d && spans@[la].end == last,
            seen ==> forall|k: int|
                0 <= k < i && (#[trigger] spans@[k]).date == d ==> first <= spans@[k].start && last
                    >= spans@[k].end,
            valid_moment(first),
            valid_moment(last),
        decreases spans@.len() - i,
    {
        let s: Span = spans[i];
        assert(spans@.take(i + 1).drop_last() =~= spans@.take(i as int));
        assert(spans@[i as int].valid());
        if s.date == d {
            worked += minutes_from(s.start, s.end) as i128;
            if !seen || s.start < first {
                first = s.start;
                proof {
                    fi = i as int;
                }
            }
            if !seen || s.end > last {
                last = s.end;
                proof {
                    la = i as int;
                }
            }
            seen = true;
        }
        i += 1;
    }
    assert(spans@.take(spans@.len() as int) =~= spans@);
    (worked, first, last)
}

/// The minutes worked over a week.
fn week_total(spans: &[Span], week: Day) -> (r: i128)
    requires
        held_spans(spans@),
    ensures
        r == worked_in_week(spans@, week as int),
{
    let mut worked: i128 = 0;
    let mut i: usize = 0;
    while i < spans.len()
        invariant
            i <= spans@.len(),
            held_spans(spans@),
            worked == worked_in_week(spans@.take(i as int), week as int),
            -(i * 300_000_000_000) <= worked <= i * 300_000_000_000,
        decreases spans@.len() - i,
    {
        let s: Span = spans[i];
        assert(spans@.take(i + 1).drop_last() =~= spans@.take(i as int));
        assert(spans@[i as int].valid());
        if week_start(s.date) == week {
            worked += minutes_from(s.start, s.end) as i128;
        }
        i += 1;
    }
    assert(spans@.take(spans@.len() as int) =~= spans@);
    worked
}

/// The dates of a week.
fn week_days(days: &Vec<Day>, week: Day) -> (r: usize)
    requires
        forall|i: int| 0 <= i < days@.len() ==> roster_day(#[trigger] days@[i]),
    ensures
        r == days_in_week(days@, week as int),
{
    let mut n: usize = 0;
    let mut i: usize = 0;
    while i < days.len()
        invariant
            i <= days@.len(),
            n <= i,
            forall|i: int| 0 <= i < days@.len() ==> roster_day(#[trigger] days@[i]),
            n == days_in_week(days@.take(i as int), week as int),
        decreases days@.len() - i,
    {
        assert(days@.take(i + 1).drop_last() =~= days@.take(i as int));
        if week_start(days[i]) == week {
            n += 1;
        }
        i += 1;
    }
    assert(days@.take(days@.len() as int) =~= days@);
    n
}

/// Adds one broken limit to a list.
fn warn(out: &mut Vec<Found>, date: Day, kind: LabourKind, minutes: i128, limit: i64)
    ensures
        found_limits(final(out)@) == found_limits(old(out)@) + seq![
            Break { date: date as int, kind, minutes: minutes as int, limit: limit as int },
        ],
{
    let ghost before = found_limits(out@);
    let f: Found = Found { date, kind, minutes, limit };
    out.push(f);
    assert(found_limits(out@) =~= before + seq![f.broken()]);
}

/// The dates of a roster, each once, in ascending order.
fn list_days(spans: &[Span]) -> (days: Vec<Day>)
    requires
        held_spans(spans@),
    ensures
        days@ == days_of(spans@),
        forall|i: int| 0 <= i < days@.len() ==> roster_day(#[trigger] days@[i]),
        forall|k: int|
            0 <= k < days@.len() ==> exists|i: int|
                0 <= i < spans@.len() && (#[trigger] spans@[i]).date == #[trigger] days@[k],
{
    let mut days: Vec<Day> = Vec::new();
    let mut i: usize = 0;
    while i < spans.len()
        invariant
            i <= spans@.len(),
            days@ == days_of(spans@.take(i as int)),
        decreases spans@.len() - i,
    {
        assert(spans@.take(i + 1).drop_last() =~= spans@.take(i as int));
        put_day(&mut days, spans[i].date);
        i += 1;
    }
    assert(spans@.take(spans@.len() as int) =~= spans@);
    proof {
        assert forall|k: int| 0 <= k < days@.len() implies roster_day(#[trigger] days@[k])
            && exists|i: int| 0 <= i < spans@.len() && (#[trigger] spans@[i]).date == days@[k] by {
            law_days_are_the_spans_dates(spans@, days@[k]);
            assert(days@.contains(days@[k]));
            let i = choose|i: int| 0 <= i < spans@.len() && (#[trigger] spans@[i]).date == days@[k];
            assert(spans@[i].valid());
        }
    }
    days
}

/// The Saturdays of ascending dates, each once.
fn list_weeks(days: &Vec<Day>) -> (weeks: Vec<Day>)
    requires
        forall|i: int| 0 <= i < days@.len() ==> roster_day(#[trigger] days@[i]),
    ensures
        weeks@.len() == weeks_of(days@).len(),
        forall|k: int| 0 <= k < weeks@.len() ==> #[trigger] weeks@[k] == weeks_of(days@)[k],
{
    let mut weeks: Vec<Day> = Vec::new();
    let mut i: usize = 0;
    while i < days.len()
        invariant
            i <= days@.len(),
            forall|i: int| 0 <= i < days@.len() ==> roster_day(#[trigger] days@[i]),
            weeks@.len() == weeks_of(days@.take(i as int)).len(),
            forall|k: int|
                0 <= k < weeks@.len() ==> #[trigger] weeks@[k] == weeks_of(days@.take(i as int))[k],
        decreases days@.len() - i,
    {
        assert(days@.take(i + 1).drop_last() =~= days@.take(i as int));
        let w: Day = week_start(days[i]);
        if weeks.len() == 0 || weeks[weeks.len() - 1] != w {
            weeks.push(w);
        }
        i += 1;
    }
    assert(days@.take(days@.len() as int) =~= days@);
    weeks
}

/// Spans in order of their start; those that start together keep their order.
fn sort_spans(spans: &[Span]) -> (sorted: Vec<Span>)
    ensures
        sorted@ == by_start(spans@),
{
    let mut sorted: Vec<Span> = Vec::new();
    let mut i: usize = 0;
    while i < spans.len()
        invariant
            i <= spans@.len(),
            sorted@ == by_start(spans@.take(i as int)),
        decreases spans@.len() - i,
    {
        assert(spans@.take(i + 1).drop_last() =~= spans@.take(i as int));
        put_span(&mut sorted, spans[i]);
        i += 1;
    }
    assert(spans@.take(spans@.len() as int) =~= spans@);
    sorted
}

/// A span put among valid ones leaves them valid.
proof fn lemma_with_span_valid(sorted: Seq<Span>, s: Span)
    requires
        s.valid(),
        forall|i: int| 0 <= i < sorted.len() ==> (#[trigger] sorted[i]).valid(),
    ensures
        forall|i: int|
            0 <= i < with_span(sorted, s).len() ==> (#[trigger] with_span(sorted, s)[i]).valid(),
    decreases sorted.len(),
{
    if sorted.len() == 0 || sorted.last().start <= s.start {
    } else {
        assert(sorted[sorted.len() - 1].valid());
        assert forall|i: int| 0 <= i < sorted.drop_last().len() implies (
        #[trigger] sorted.drop_last()[i]).valid() by {
            assert(sorted[i].valid());
        }
        lemma_with_span_valid(sorted.drop_last(), s);
        let inner = with_span(sorted.drop_last(), s);
        assert(with_span(sorted, s) == inner.push(sorted.last()));
        assert forall|i: int| 0 <= i < inner.push(sorted.last()).len() implies (
        #[trigger] inner.push(sorted.last())[i]).valid() by {
            if i < inner.len() {
                assert(inner[i].valid());
            }
        }
    }
}

/// Sorting leaves spans valid.
proof fn lemma_by_start_valid(spans: Seq<Span>)
    requires
        forall|i: int| 0 <= i < spans.len() ==> (#[trigger] spans[i]).valid(),
    ensures
        forall|i: int| 0 <= i < by_start(spans).len() ==> (#[trigger] by_start(spans)[i]).valid(),
    decreases spans.len(),
{
    if spans.len() > 0 {
        assert(spans[spans.len() - 1].valid());
        assert forall|i: int| 0 <= i < spans.drop_last().len() implies (
        #[trigger] spans.drop_last()[i]).valid() by {
            assert(spans[i].valid());
        }
        lemma_by_start_valid(spans.drop_last());
        lemma_with_span_valid(by_start(spans.drop_last()), spans.last());
    }
}

/// Every limit a row of spans breaks.
fn find_breaks(spans: &[Span], l: &Limits) -> (out: Vec<Found>)
    requires
        held_spans(spans@),
    ensures
        found_limits(out@) == limits_broken(spans@, *l),
{
    let mut out: Vec<Found> = Vec::new();
    let days: Vec<Day> = list_days(spans);
    let mut i: usize = 0;
    assert(found_limits(out@) =~= days_break(spans@, days@.take(0), *l));
    while i < days.len()
        invariant
            i <= days@.len(),
            held_spans(spans@),
            forall|k: int|
                0 <= k < days@.len() ==> exists|i: int|
                    0 <= i < spans@.len() && (#[trigger] spans@[i]).date == #[trigger] days@[k],
            found_limits(out@) == days_break(spans@, days@.take(i as int), *l),
        decreases days@.len() - i,
    {
        assert(days@.take(i + 1).drop_last() =~= days@.take(i as int));
        let d: Day = days[i];
        let (worked, first, last) = day_totals(spans, d);
        let ghost start = found_limits(out@);
        if worked > l.day as i128 {
            warn(&mut out, d, LabourKind::DayHours, worked, l.day);
        }
        let present: i64 = minutes_from(first, last);
        proof {
            lemma_present(spans@, d, first, last);
        }
        if present > l.presence {
            warn(&mut out, d, LabourKind::Presence, present as i128, l.presence);
        }
        assert(found_limits(out@) =~= start + day_breaks(spans@, d, *l));
        i += 1;
    }
    assert(days@.take(days@.len() as int) =~= days@);
    let ghost by_day = found_limits(out@);
    let weeks: Vec<Day> = list_weeks(&days);
    let ghost all = weeks_of(days@);
    let mut j: usize = 0;
    assert(found_limits(out@) =~= by_day + weeks_break(spans@, days@, all.take(0), *l));
    while j < weeks.len()
        invariant
            j <= weeks@.len(),
            held_spans(spans@),
            forall|i: int| 0 <= i < days@.len() ==> roster_day(#[trigger] days@[i]),
            weeks@.len() == all.len(),
            forall|k: int| 0 <= k < weeks@.len() ==> #[trigger] weeks@[k] == all[k],
            found_limits(out@) == by_day + weeks_break(spans@, days@, all.take(j as int), *l),
        decreases weeks@.len() - j,
    {
        assert(all.take(j + 1).drop_last() =~= all.take(j as int));
        let w: Day = weeks[j];
        let ghost start = found_limits(out@);
        let worked: i128 = week_total(spans, w);
        if worked > l.week as i128 {
            warn(&mut out, w, LabourKind::WeekHours, worked, l.week);
        }
        if week_days(&days, w) >= 7 {
            warn(&mut out, w, LabourKind::WeeklyRest, 0, 1440);
        }
        assert(found_limits(out@) =~= start + week_breaks(spans@, days@, w as int, *l));
        assert(found_limits(out@) =~= by_day + (weeks_break(
            spans@,
            days@,
            all.take(j as int),
            *l,
        ) + week_breaks(spans@, days@, w as int, *l)));
        j += 1;
    }
    assert(all.take(all.len() as int) =~= all);
    let ghost by_week = found_limits(out@);
    let sorted: Vec<Span> = sort_spans(spans);
    proof {
        lemma_by_start_valid(spans@);
    }
    let mut k: usize = 1;
    assert(found_limits(out@) =~= by_week + rests_break(sorted@.take(min_len(1, sorted@)), *l));
    while k < sorted.len()
        invariant
            1 <= k,
            forall|i: int| 0 <= i < sorted@.len() ==> (#[trigger] sorted@[i]).valid(),
            found_limits(out@) == by_week + rests_break(
                sorted@.take(min_len(k as int, sorted@)),
                *l,
            ),
        decreases sorted@.len() - k,
    {
        let a: Span = sorted[k - 1];
        let b: Span = sorted[k];
        assert(sorted@[k - 1].valid() && sorted@[k as int].valid());
        let ghost start = found_limits(out@);
        let ghost front = sorted@.take(k + 1);
        assert(front.drop_last() =~= sorted@.take(k as int));
        assert(front[front.len() - 2] == a && front.last() == b);
        if a.date != b.date {
            let gap: i64 = minutes_from(a.end, b.start);
            if gap < l.rest {
                let shown: i64 = if gap < 0 {
                    0
                } else {
                    gap
                };
                warn(&mut out, b.date, LabourKind::Rest, shown as i128, l.rest);
            }
        }
        assert(found_limits(out@) =~= start + rest_break(a, b, *l));
        assert(found_limits(out@) =~= by_week + (rests_break(sorted@.take(k as int), *l)
            + rest_break(a, b, *l)));
        k += 1;
    }
    assert(sorted@.take(min_len(k as int, sorted@)) =~= sorted@);
    out
}

/// What is worked on a date or over a week is part of all minutes.
proof fn lemma_sums_fit(spans: Seq<Span>, d: Day, week: int)
    ensures
        -length_of(spans) <= worked_on(spans, d) <= length_of(spans),
        -length_of(spans) <= worked_in_week(spans, week) <= length_of(spans),
    decreases spans.len(),
{
    if spans.len() > 0 {
        lemma_sums_fit(spans.drop_last(), d, week);
    }
}

/// Every figure of the broken limits of some spans fits an `i64`.
proof fn lemma_breaks_fit(spans: Seq<Span>, l: Limits, i: int)
    requires
        valid_spans(spans),
        0 <= i < limits_broken(spans, l).len(),
    ensures
        i64::MIN <= limits_broken(spans, l)[i].minutes <= i64::MAX,
{
    let days = days_of(spans);
    let a = days_break(spans, days, l);
    let b = weeks_break(spans, days, weeks_of(days), l);
    lemma_by_start_valid(spans);
    assert forall|k: int| 0 <= k < days.len() implies valid_moment_days(spans, #[trigger] days[k]) by {
        law_days_are_the_spans_dates(spans, days[k]);
        assert(days.contains(days[k]));
        lemma_presence_fits(spans, days[k]);
    }
    lemma_days_break_fit(spans, days, l);
    lemma_weeks_break_fit(spans, days, weeks_of(days), l);
    lemma_rests_break_fit(by_start(spans), l);
    if i < a.len() {
        assert(limits_broken(spans, l)[i] == a[i]);
    } else if i < a.len() + b.len() {
        assert(limits_broken(spans, l)[i] == b[i - a.len()]);
    } else {
        assert(limits_broken(spans, l)[i] == rests_break(by_start(spans), l)[i - a.len()
            - b.len()]);
    }
}

/// The minutes from a date's first start to its last end fit.
spec fn valid_moment_days(spans: Seq<Span>, d: Day) -> bool {
    -300_000_000_000 < present_on(spans, d) < 300_000_000_000
}

proof fn lemma_presence_fits(spans: Seq<Span>, d: Day)
    requires
        held_spans(spans),
        exists|i: int| 0 <= i < spans.len() && (#[trigger] spans[i]).date == d,
    ensures
        valid_moment_days(spans, d),
{
    lemma_a_first_start(spans, d);
    lemma_a_last_end(spans, d);
    let first = choose|t: Moment| starts_first(spans, d, t);
    let last = choose|t: Moment| ends_last(spans, d, t);
    let i = choose|i: int|
        0 <= i < spans.len() && (#[trigger] spans[i]).date == d && spans[i].start == first;
    let j = choose|j: int|
        0 <= j < spans.len() && (#[trigger] spans[j]).date == d && spans[j].end == last;
    assert(spans[i].valid() && spans[j].valid());
}

/// A date with a span has a first start.
proof fn lemma_a_first_start(spans: Seq<Span>, d: Day)
    requires
        exists|i: int| 0 <= i < spans.len() && (#[trigger] spans[i]).date == d,
    ensures
        exists|t: Moment| starts_first(spans, d, t),
    decreases spans.len(),
{
    let short = spans.drop_last();
    let s = spans.last();
    if exists|i: int| 0 <= i < short.len() && (#[trigger] short[i]).date == d {
        lemma_a_first_start(short, d);
        let t = choose|t: Moment| starts_first(short, d, t);
        let k = choose|k: int|
            0 <= k < short.len() && (#[trigger] short[k]).date == d && short[k].start == t;
        assert(spans[k] == short[k]);
        let first = if s.date == d && s.start < t {
            s.start
        } else {
            t
        };
        assert(spans[spans.len() - 1] == s);
        assert forall|i: int| 0 <= i < spans.len() && (#[trigger] spans[i]).date == d implies first
            <= spans[i].start by {
            if i < short.len() {
                assert(short[i] == spans[i]);
            }
        }
        assert(starts_first(spans, d, first));
    } else {
        let i = choose|i: int| 0 <= i < spans.len() && (#[trigger] spans[i]).date == d;
        assert forall|k: int| 0 <= k < spans.len() && (#[trigger] spans[k]).date == d implies k
            == spans.len() - 1 by {
            if k < short.len() {
                assert(short[k].date == d);
            }
        }
        assert(starts_first(spans, d, spans[i].start));
    }
}

/// A date with a span has a last end.
proof fn lemma_a_last_end(spans: Seq<Span>, d: Day)
    requires
        exists|i: int| 0 <= i < spans.len() && (#[trigger] spans[i]).date == d,
    ensures
        exists|t: Moment| ends_last(spans, d, t),
    decreases spans.len(),
{
    let short = spans.drop_last();
    let s = spans.last();
    if exists|i: int| 0 <= i < short.len() && (#[trigger] short[i]).date == d {
        lemma_a_last_end(short, d);
        let t = choose|t: Moment| ends_last(short, d, t);
        let k = choose|k: int|
            0 <= k < short.len() && (#[trigger] short[k]).date == d && short[k].end == t;
        assert(spans[k] == short[k]);
        let last = if s.date == d && s.end > t {
            s.end
        } else {
            t
        };
        assert(spans[spans.len() - 1] == s);
        assert forall|i: int| 0 <= i < spans.len() && (#[trigger] spans[i]).date == d implies last
            >= spans[i].end by {
            if i < short.len() {
                assert(short[i] == spans[i]);
            }
        }
        assert(ends_last(spans, d, last));
    } else {
        let i = choose|i: int| 0 <= i < spans.len() && (#[trigger] spans[i]).date == d;
        assert forall|k: int| 0 <= k < spans.len() && (#[trigger] spans[k]).date == d implies k
            == spans.len() - 1 by {
            if k < short.len() {
                assert(short[k].date == d);
            }
        }
        assert(ends_last(spans, d, spans[i].end));
    }
}

proof fn lemma_days_break_fit(spans: Seq<Span>, days: Seq<Day>, l: Limits)
    requires
        valid_spans(spans),
        forall|k: int| 0 <= k < days.len() ==> valid_moment_days(spans, #[trigger] days[k]),
    ensures
        forall|i: int|
            0 <= i < days_break(spans, days, l).len() ==> i64::MIN <= (#[trigger] days_break(
                spans,
                days,
                l,
            )[i]).minutes <= i64::MAX,
    decreases days.len(),
{
    if days.len() > 0 {
        assert(valid_moment_days(spans, days[days.len() - 1]));
        assert forall|k: int| 0 <= k < days.drop_last().len() implies valid_moment_days(
            spans,
            #[trigger] days.drop_last()[k],
        ) by {
            assert(valid_moment_days(spans, days[k]));
        }
        lemma_days_break_fit(spans, days.drop_last(), l);
        lemma_sums_fit(spans, days.last(), 0);
    }
}

proof fn lemma_weeks_break_fit(spans: Seq<Span>, days: Seq<Day>, weeks: Seq<int>, l: Limits)
    requires
        valid_spans(spans),
    ensures
        forall|i: int|
            0 <= i < weeks_break(spans, days, weeks, l).len() ==> i64::MIN <= (
            #[trigger] weeks_break(spans, days, weeks, l)[i]).minutes <= i64::MAX,
    decreases weeks.len(),
{
    if weeks.len() > 0 {
        lemma_weeks_break_fit(spans, days, weeks.drop_last(), l);
        lemma_sums_fit(spans, 0, weeks.last());
    }
}

proof fn lemma_rests_break_fit(sorted: Seq<Span>, l: Limits)
    requires
        held_spans(sorted),
    ensures
        forall|i: int|
            0 <= i < rests_break(sorted, l).len() ==> i64::MIN <= (#[trigger] rests_break(
                sorted,
                l,
            )[i]).minutes <= i64::MAX,
    decreases sorted.len(),
{
    if sorted.len() >= 2 {
        assert forall|i: int| 0 <= i < sorted.drop_last().len() implies (
        #[trigger] sorted.drop_last()[i]).valid() by {
            assert(sorted[i].valid());
        }
        lemma_rests_break_fit(sorted.drop_last(), l);
        let a = sorted[sorted.len() - 2];
        let b = sorted[sorted.len() - 1];
        assert(a.valid() && b.valid());
        assert(-300_000_000_000 < minutes_between(a.end, b.start) < 300_000_000_000);
    }
}

/// Every limit one person's spans break.
pub fn breaks(employee_id: Id, spans: &[Span], l: &Limits) -> (out: Vec<LabourWarning>)
    requires
        valid_spans(spans@),
    ensures
        broken_limits(out@) == limits_broken(spans@, *l),
        forall|i: int| 0 <= i < out@.len() ==> (#[trigger] out@[i]).employee_id == employee_id,
{
    let found: Vec<Found> = find_breaks(spans, l);
    let mut out: Vec<LabourWarning> = Vec::new();
    let mut i: usize = 0;
    while i < found.len()
        invariant
            i <= found@.len(),
            valid_spans(spans@),
            found_limits(found@) == limits_broken(spans@, *l),
            out@.len() == i,
            forall|k: int| 0 <= k < i ==> (#[trigger] out@[k]).broken() == found@[k].broken(),
            forall|k: int| 0 <= k < i ==> (#[trigger] out@[k]).employee_id == employee_id,
        decreases found@.len() - i,
    {
        let f: Found = found[i];
        proof {
            assert(found_limits(found@)[i as int] == f.broken());
            assert(found_limits(found@).len() == found@.len());
            lemma_breaks_fit(spans@, *l, i as int);
        }
        out.push(
            LabourWarning {
                employee_id,
                date: f.date,
                kind: f.kind,
                minutes: f.minutes as i64,
                limit_minutes: f.limit,
            },
        );
        i += 1;
    }
    assert(broken_limits(out@) =~= found_limits(found@));
    out
}

/// `n`, or the length of a shorter list.
spec fn min_len(n: int, s: Seq<Span>) -> int {
    if n <= s.len() {
        n
    } else {
        s.len() as int
    }
}

/// A broken limit of the same kind on the same day is on the list.
pub open spec fn already(list: Seq<Break>, b: Break) -> bool {
    exists|j: int|
        0 <= j < list.len() && (#[trigger] list[j]).date == b.date && list[j].kind == b.kind
}

/// Adding a span breaks no limit the spans don't already break.
pub open spec fn no_new_break(spans: Seq<Span>, extra: Span, l: Limits) -> bool {
    let after = limits_broken(spans.push(extra), l);
    forall|i: int|
        0 <= i < after.len() ==> already(limits_broken(spans, l), #[trigger] after[i])
}

/// Would adding `extra` keep to every limit the person doesn't already break?
pub fn fits(spans: &[Span], extra: Span, l: &Limits) -> (r: bool)
    requires
        held_spans(spans@),
        extra.valid(),
    ensures
        r == no_new_break(spans@, extra, *l),
{
    let before: Vec<Found> = find_breaks(spans, l);
    let mut with: Vec<Span> = Vec::new();
    let mut i: usize = 0;
    while i < spans.len()
        invariant
            i <= spans@.len(),
            with@ == spans@.take(i as int),
        decreases spans@.len() - i,
    {
        with.push(spans[i]);
        i += 1;
        assert(spans@.take(i as int) =~= spans@.take(i - 1).push(spans@[i - 1]));
    }
    assert(spans@.take(spans@.len() as int) =~= spans@);
    with.push(extra);
    assert(held_spans(with@));
    let after: Vec<Found> = find_breaks(with.as_slice(), l);
    let ghost had = limits_broken(spans@, *l);
    let ghost has = limits_broken(spans@.push(extra), *l);
    let mut k: usize = 0;
    while k < after.len()
        invariant
            k <= after@.len(),
            had == limits_broken(spans@, *l),
            has == limits_broken(spans@.push(extra), *l),
            found_limits(before@) == had,
            found_limits(after@) == has,
            forall|i: int| 0 <= i < k ==> already(had, #[trigger] has[i]),
        decreases after@.len() - k,
    {
        let mut found: bool = false;
        let mut j: usize = 0;
        while j < before.len()
            invariant
                j <= before@.len(),
                k < after@.len(),
                found_limits(before@) == had,
                found_limits(after@) == has,
                found <==> exists|m: int|
                    0 <= m < j && (#[trigger] had[m]).date == has[k as int].date && had[m].kind
                        == has[k as int].kind,
            decreases before@.len() - j,
        {
            assert(had[j as int] == before@[j as int].broken());
            assert(has[k as int] == after@[k as int].broken());
            if before[j].date == after[k].date && before[j].kind == after[k].kind {
                found = true;
            }
            j += 1;
        }
        if !found {
            assert(had.len() == before@.len() && has.len() == after@.len());
            assert(!already(had, has[k as int]));
            return false;
        }
        assert(already(had, has[k as int]));
        k += 1;
    }
    true
}

/// Somebody within every limit stays within every limit when what is added
/// fits.
pub proof fn law_what_fits_keeps_the_limits(spans: Seq<Span>, extra: Span, l: Limits)
    requires
        limits_broken(spans, l).len() == 0,
        no_new_break(spans, extra, l),
    ensures
        limits_broken(spans.push(extra), l).len() == 0,
{
    let after = limits_broken(spans.push(extra), l);
    if after.len() > 0 {
        assert(already(limits_broken(spans, l), after[0]));
    }
}

/// Learning freezes when managers accept under 40% of suggestions over the
/// last 4 weeks (needs a handful to judge).
pub open spec fn learning_stops(accepted: int, decided: int) -> bool {
    decided >= 5 && 100 * accepted < 40 * decided
}

/// Learning freezes when managers accept under 40% of suggestions over the
/// last 4 weeks (needs a handful to judge).
pub fn frozen(accepted: i64, decided: i64) -> (r: bool)
    ensures
        r == learning_stops(accepted as int, decided as int),
{
    decided >= 5 && 5 * (accepted as i128) < 2 * (decided as i128)
}

} // verus!
