//! Dates, times of day and instants as plain numbers, and the calendar between
//! them.
//!
//! A [`Day`] counts days from the start of the common era (1 January of year 1
//! is day 1). A [`ClockTime`] counts nanoseconds from midnight. A [`Moment`]
//! counts nanoseconds from the Unix epoch.

use chrono::{Datelike, TimeZone};
use vstd::prelude::*;

use crate::text::{digit_char, two_digits};

verus! {

/// An identifier: the 128 bits of a UUID.
pub type Id = u128;

/// A calendar date.
pub type Day = i32;

/// A time of day.
pub type ClockTime = u64;

/// An instant.
pub type Moment = i128;

pub const NANOS_PER_SECOND: i128 = 1_000_000_000;

pub const NANOS_PER_MINUTE: i128 = 60_000_000_000;

pub const NANOS_PER_HOUR: i128 = 3_600_000_000_000;

pub const NANOS_PER_DAY: i128 = 86_400_000_000_000;

/// One day past the last nanosecond of a day, as a time of day.
pub const DAY_END: ClockTime = 86_400_000_000_000;

/// The first date there is: 1 January of year -262143.
pub const MIN_DAY: Day = -95_746_129;

/// The last date there is: 31 December of year 262142.
pub const MAX_DAY: Day = 95_745_399;

/// The Unix epoch, 1 January 1970.
pub const EPOCH_DAY: Day = 719_163;

/// A date the calendar holds.
pub open spec fn valid_day(d: Day) -> bool {
    MIN_DAY <= d <= MAX_DAY
}

/// A time on the clock.
pub open spec fn valid_clock(t: ClockTime) -> bool {
    t < DAY_END
}

/// An instant the calendar holds.
pub open spec fn valid_moment(t: Moment) -> bool {
    (MIN_DAY - EPOCH_DAY) * NANOS_PER_DAY <= t < (MAX_DAY + 1 - EPOCH_DAY) * NANOS_PER_DAY
}

/// Midnight UTC at the start of a date, plus a time of day.
pub open spec fn utc_moment(d: Day, t: ClockTime) -> int {
    (d - EPOCH_DAY) * NANOS_PER_DAY + t
}

/// `span` in whole `unit`s, the part of a unit dropped (toward zero).
pub open spec fn whole_units(span: int, unit: int) -> int {
    if span >= 0 {
        span / unit
    } else {
        -((-span) / unit)
    }
}

/// Whether two ids are one, or neither is any.
pub(crate) fn same_id(a: Option<Id>, b: Option<Id>) -> (r: bool)
    ensures
        r == (a == b),
{
    match a {
        Some(x) => match b {
            Some(y) => x == y,
            None => false,
        },
        None => b.is_none(),
    }
}

/// The whole minutes from one instant to another.
pub open spec fn minutes_between(from: Moment, to: Moment) -> int {
    whole_units(to - from, NANOS_PER_MINUTE as int)
}

/// The whole minutes from `from` to `to`, negative where `to` is the earlier.
pub fn minutes_from(from: Moment, to: Moment) -> (r: i64)
    requires
        valid_moment(from),
        valid_moment(to),
    ensures
        r == minutes_between(from, to),
        -300_000_000_000 < r < 300_000_000_000,
{
    let span: i128 = to - from;
    if span >= 0 {
        (span / NANOS_PER_MINUTE) as i64
    } else {
        -(((-span) / NANOS_PER_MINUTE) as i64)
    }
}

/// `m` whole minutes go by from one instant to another no earlier.
pub open spec fn lasts(from: int, to: int, m: int) -> bool {
    0 <= m && m * 60_000_000_000 <= to - from < (m + 1) * 60_000_000_000
}

/// The minutes between two instants are those that go by, and are taken back
/// the other way.
pub proof fn law_the_minutes_between_go_by(from: Moment, to: Moment, m: int)
    requires
        lasts(from as int, to as int, m),
    ensures
        minutes_between(from, to) == m,
        minutes_between(to, from) == -m,
{
}

/// The smaller of two integers.
pub open spec fn min_of(a: int, b: int) -> int {
    if a <= b {
        a
    } else {
        b
    }
}

/// The larger of two integers.
pub open spec fn max_of(a: int, b: int) -> int {
    if a >= b {
        a
    } else {
        b
    }
}

pub open spec fn leap_year(y: int) -> bool {
    (y % 4 == 0 && y % 100 != 0) || y % 400 == 0
}

pub open spec fn month_length(y: int, m: int) -> int {
    if m == 2 {
        if leap_year(y) {
            29
        } else {
            28
        }
    } else if m == 4 || m == 6 || m == 9 || m == 11 {
        30
    } else {
        31
    }
}

/// A date of the Gregorian calendar.
pub open spec fn valid_ymd(y: int, m: int, d: int) -> bool {
    1 <= m <= 12 && 1 <= d <= month_length(y, m)
}

/// The days of year `y` before month `m`.
pub open spec fn days_before_month(y: int, m: int) -> int
    decreases m,
{
    if m <= 1 {
        0
    } else {
        days_before_month(y, m - 1) + month_length(y, m - 1)
    }
}

/// The number of a date: every year before it, every month before it, its day.
#[verifier::opaque]
pub open spec fn day_number(y: int, m: int, d: int) -> int {
    365 * (y - 1) + (y - 1) / 4 - (y - 1) / 100 + (y - 1) / 400 + days_before_month(y, m) + d
}

/// The years the calendar holds.
pub open spec fn valid_year(y: int) -> bool {
    -262_143 <= y <= 262_142
}

/// The date of a year, month and day of the month.
///
/// Calls `chrono::NaiveDate::from_ymd_opt` and hands the date back as its
/// number (`Datelike::num_days_from_ce`): a date of the Gregorian calendar
/// within the years it holds, and nothing otherwise.
#[verifier::external_body]
pub(crate) fn day_of(y: i32, m: u32, d: u32) -> (r: Option<Day>)
    ensures
        match r {
            Some(v) => valid_year(y as int) && valid_ymd(y as int, m as int, d as int) && v
                == day_number(y as int, m as int, d as int) && valid_day(v),
            None => !(valid_year(y as int) && valid_ymd(y as int, m as int, d as int)),
        },
{
    chrono::NaiveDate::from_ymd_opt(y, m, d).map(|x| x.num_days_from_ce())
}

/// The year, month and day of the month of a date.
///
/// Calls `Datelike::year`, `month` and `day` on the `chrono::NaiveDate` of that
/// number: the one date of the calendar with it.
#[verifier::external_body]
pub(crate) fn ymd_of(day: Day) -> (r: (i32, u32, u32))
    requires
        valid_day(day),
    ensures
        valid_year(r.0 as int),
        valid_ymd(r.0 as int, r.1 as int, r.2 as int),
        day_number(r.0 as int, r.1 as int, r.2 as int) == day,
{
    let d = chrono::NaiveDate::from_num_days_from_ce_opt(day).unwrap();
    (d.year(), d.month(), d.day())
}

/// The day of the week, Sunday = 0 up to Saturday = 6.
///
/// Calls `Datelike::weekday` and `Weekday::num_days_from_sunday`: day 1 of the
/// common era is a Monday and the week has seven days.
#[verifier::external_body]
pub(crate) fn day_of_week(day: Day) -> (r: u32)
    requires
        valid_day(day),
    ensures
        r as int == day as int % 7,
{
    let d = chrono::NaiveDate::from_num_days_from_ce_opt(day).unwrap();
    d.weekday().num_days_from_sunday()
}

/// The first day of a year.
pub open spec fn new_year(y: int) -> int {
    day_number(y, 1, 1)
}

/// A date falls in a year.
pub open spec fn in_year(day: int, y: int) -> bool {
    new_year(y) <= day < new_year(y + 1)
}

/// A year is 365 days long, or 366 in a leap year.
pub proof fn law_year_length(y: int)
    ensures
        new_year(y + 1) == new_year(y) + if leap_year(y) {
            366int
        } else {
            365
        },
{
    lemma_next_multiple_4(y);
    lemma_next_multiple_100(y);
    lemma_next_multiple_400(y);
    lemma_new_year(y);
    lemma_new_year(y + 1);
}

/// The first day of a year, without its months.
pub proof fn lemma_new_year(y: int)
    ensures
        new_year(y) == 365 * (y - 1) + (y - 1) / 4 - (y - 1) / 100 + (y - 1) / 400 + 1,
{
    reveal(day_number);
    assert(days_before_month(y, 1) == 0);
}

proof fn lemma_next_multiple_4(y: int)
    ensures
        y / 4 == (y - 1) / 4 + if y % 4 == 0 {
            1int
        } else {
            0
        },
        y % 100 == 0 ==> y % 4 == 0,
{
}

proof fn lemma_next_multiple_100(y: int)
    ensures
        y / 100 == (y - 1) / 100 + if y % 100 == 0 {
            1int
        } else {
            0
        },
        y % 400 == 0 ==> y % 100 == 0,
{
}

proof fn lemma_next_multiple_400(y: int)
    ensures
        y / 400 == (y - 1) / 400 + if y % 400 == 0 {
            1int
        } else {
            0
        },
{
}

/// A later year starts later.
proof fn lemma_years_follow(a: int, b: int)
    requires
        a <= b,
    ensures
        new_year(a) + 365 * (b - a) <= new_year(b),
    decreases b - a,
{
    if a < b {
        lemma_years_follow(a, b - 1);
        law_year_length(b - 1);
    }
}

/// The days of a year before a month are within the year.
pub proof fn lemma_month_starts(y: int, m: int)
    requires
        1 <= m <= 13,
    ensures
        28 * (m - 1) <= days_before_month(y, m),
        m == 13 ==> days_before_month(y, m) == if leap_year(y) {
            366int
        } else {
            365
        },
        m < 13 ==> days_before_month(y, m) + month_length(y, m) <= if leap_year(y) {
            366int
        } else {
            365
        },
{
    reveal_with_fuel(days_before_month, 14);
}

/// A date of the calendar falls in its own year and in no other.
pub proof fn law_a_date_has_one_year(y: int, m: int, d: int, other: int)
    requires
        valid_ymd(y, m, d),
    ensures
        in_year(day_number(y, m, d), other) <==> other == y,
{
    lemma_month_starts(y, m);
    let n = day_number(y, m, d);
    law_year_length(y);
    assert(n == new_year(y) + days_before_month(y, m) + d - 1) by {
        reveal(day_number);
        lemma_new_year(y);
    }
    lemma_month_starts(y, m);
    assert(in_year(n, y));
    if other < y {
        lemma_years_follow(other + 1, y);
    }
    if other > y {
        lemma_years_follow(y + 1, other);
    }
}

/// No date the calendar holds falls in a year it does not hold.
pub proof fn lemma_held_years(y: int)
    requires
        !valid_year(y),
    ensures
        forall|d: Day| valid_day(d) ==> !#[trigger] in_year(d as int, y),
{
    lemma_new_year(-262_143);
    lemma_new_year(262_143);
    assert(new_year(-262_143) == MIN_DAY);
    assert(new_year(262_143) == MAX_DAY + 1);
    if y < -262_143 {
        lemma_years_follow(y + 1, -262_143);
    } else {
        lemma_years_follow(262_143, y);
    }
}

/// The year a date falls in.
pub fn year_of(day: Day) -> (r: i32)
    requires
        valid_day(day),
    ensures
        valid_year(r as int),
        forall|y: int| #[trigger] in_year(day as int, y) <==> y == r,
{
    let (y, m, d) = ymd_of(day);
    proof {
        assert forall|other: int| #[trigger] in_year(day as int, other) <==> other == y by {
            law_a_date_has_one_year(y as int, m as int, d as int, other);
        }
    }
    y
}

/// A year in four digits.
pub open spec fn four_digits(n: int) -> Seq<char> {
    two_digits(n / 100) + two_digits(n % 100)
}

/// `YYYY-MM-DD`.
pub open spec fn ymd_chars(y: int, m: int, d: int) -> Seq<char> {
    four_digits(y) + seq!['-'] + two_digits(m) + seq!['-'] + two_digits(d)
}

/// The date `str::parse::<chrono::NaiveDate>` reads in a text.
pub uninterp spec fn parsed_day(s: Seq<char>) -> Option<Day>;

/// A date as `chrono::NaiveDate` writes it.
pub uninterp spec fn day_chars(day: Day) -> Seq<char>;

/// A date as text.
///
/// Calls the `Display` of `chrono::NaiveDate`: `YYYY-MM-DD` for the years 0 to
/// 9999, and a text that parses back to the same date for every year.
#[verifier::external_body]
pub(crate) fn day_text(day: Day) -> (r: String)
    requires
        valid_day(day),
    ensures
        r@ == day_chars(day),
        parsed_day(r@) == Some(day),
        forall|y: int, m: int, d: int|
            0 <= y <= 9999 && valid_ymd(y, m, d) && #[trigger] day_number(y, m, d) == day ==> r@
                == ymd_chars(y, m, d),
{
    chrono::NaiveDate::from_num_days_from_ce_opt(day).unwrap().to_string()
}

/// The date a text holds.
///
/// Calls `str::parse::<chrono::NaiveDate>`, whose result depends on the text
/// alone.
#[verifier::external_body]
pub(crate) fn parse_day(s: &str) -> (r: Option<Day>)
    ensures
        r == parsed_day(s@),
        r is Some ==> valid_day(r->0),
{
    s.parse::<chrono::NaiveDate>().ok().map(|x| x.num_days_from_ce())
}

/// The instant (Unix seconds and nanoseconds) of a local date, second of the
/// day and nanosecond in a named time zone, where there is one: the earlier one
/// where the clock shows it twice.
pub uninterp spec fn zone_instant(
    zone: Seq<char>,
    day: Day,
    second: u32,
    nano: u32,
) -> Option<(i64, u32)>;

/// Whether a time zone of that name is known.
pub uninterp spec fn zone_exists(zone: Seq<char>) -> bool;

/// Whether a time zone of that name is known.
///
/// Calls `str::parse::<chrono_tz::Tz>`, whose answer depends on the name alone.
#[verifier::external_body]
pub(crate) fn zone_known(zone: &str) -> (r: bool)
    ensures
        r == zone_exists(zone@),
{
    zone.parse::<chrono_tz::Tz>().is_ok()
}

/// The instant of a local time in a named zone.
///
/// Calls `TimeZone::from_local_datetime` and `MappedLocalTime::earliest` of the
/// `chrono_tz::Tz` of that name: an offset of whole seconds, less than a day
/// either way.
#[verifier::external_body]
fn local_to_utc(zone: &str, day: Day, second: u32, nano: u32) -> (r: Option<(i64, u32)>)
    requires
        MIN_DAY + 2 <= day <= MAX_DAY - 2,
        second < 86_400,
        nano < 1_000_000_000,
    ensures
        r == zone_instant(zone@, day, second, nano),
        r matches Some(t) ==> t.1 == nano && -86_400 < t.0 - ((day - EPOCH_DAY) * 86_400 + second)
            < 86_400,
{
    let tz = zone.parse::<chrono_tz::Tz>().ok()?;
    let d = chrono::NaiveDate::from_num_days_from_ce_opt(day).unwrap();
    let t = chrono::NaiveTime::from_num_seconds_from_midnight_opt(second, nano).unwrap();
    let at = tz.from_local_datetime(&d.and_time(t)).earliest()?;
    Some((at.timestamp(), at.timestamp_subsec_nanos()))
}

/// The instant of a local date and time in a named zone.
pub open spec fn local_instant(zone: Seq<char>, day: Day, clock: ClockTime) -> Option<Moment> {
    match zone_instant(
        zone,
        day,
        (clock / 1_000_000_000) as u32,
        (clock % 1_000_000_000) as u32,
    ) {
        Some((s, n)) => Some((s * 1_000_000_000 + n) as Moment),
        None => None,
    }
}

/// The instant of a local date and time in a named zone, within a day of the
/// same time in UTC.
pub fn local_moment(zone: &str, day: Day, clock: ClockTime) -> (r: Option<Moment>)
    requires
        MIN_DAY + 2 <= day <= MAX_DAY - 2,
        valid_clock(clock),
    ensures
        r == local_instant(zone@, day, clock),
        r is Some ==> valid_moment(r->0) && -NANOS_PER_DAY < r->0 - utc_moment(day, clock)
            < NANOS_PER_DAY,
{
    match local_to_utc(
        zone,
        day,
        (clock / 1_000_000_000) as u32,
        (clock % 1_000_000_000) as u32,
    ) {
        Some((s, n)) => Some(s as i128 * NANOS_PER_SECOND + n as i128),
        None => None,
    }
}

/// The hexadecimal digit of a value below sixteen.
pub open spec fn hex_char(v: int) -> char {
    if v < 10 {
        digit_char(v)
    } else {
        (97 + (v - 10)) as char
    }
}

/// The place among an id's 32 hexadecimal digits of a place in its text.
pub open spec fn hex_place(i: int) -> int {
    if i < 8 {
        i
    } else if i < 13 {
        i - 1
    } else if i < 18 {
        i - 2
    } else if i < 23 {
        i - 3
    } else {
        i - 4
    }
}

/// Sixteen to the power `n`.
pub open spec fn power16(n: int) -> int
    decreases n,
{
    if n <= 0 {
        1
    } else {
        16 * power16(n - 1)
    }
}

/// An id as text: 32 lower-case hexadecimal digits in groups of 8, 4, 4, 4 and
/// 12, with hyphens between.
pub open spec fn id_chars(id: Id) -> Seq<char> {
    Seq::new(
        36,
        |i: int|
            if i == 8 || i == 13 || i == 18 || i == 23 {
                '-'
            } else {
                hex_char((id as int / power16(31 - hex_place(i))) % 16)
            },
    )
}

/// An id as text.
///
/// Calls the `Display` of `uuid::Uuid`: the hyphenated, lower-case form of its
/// 128 bits.
#[verifier::external_body]
pub(crate) fn id_text(id: Id) -> (r: String)
    ensures
        r@ == id_chars(id),
{
    uuid::Uuid::from_u128(id).to_string()
}

/// The month after, and its year.
pub open spec fn next_month(y: int, m: int) -> (int, int) {
    if m == 12 {
        (y + 1, 1)
    } else {
        (y, m + 1)
    }
}

/// The month before, and its year.
pub open spec fn month_before(y: int, m: int) -> (int, int) {
    if m == 1 {
        (y - 1, 12)
    } else {
        (y, m - 1)
    }
}

proof fn lemma_months_follow(y: int, a: int, b: int)
    requires
        1 <= a < b <= 13,
    ensures
        days_before_month(y, a) + month_length(y, a) <= days_before_month(y, b),
    decreases b,
{
    if a < b - 1 {
        lemma_months_follow(y, a, b - 1);
    }
}

/// Two dates of the calendar with one number are one date.
pub proof fn law_a_day_is_one_date(y: int, m: int, d: int, y2: int, m2: int, d2: int)
    requires
        valid_ymd(y, m, d),
        valid_ymd(y2, m2, d2),
        day_number(y, m, d) == day_number(y2, m2, d2),
    ensures
        y == y2,
        m == m2,
        d == d2,
{
    law_a_date_has_one_year(y, m, d, y);
    law_a_date_has_one_year(y2, m2, d2, y);
    reveal(day_number);
    if m < m2 {
        lemma_months_follow(y, m, m2);
    } else if m2 < m {
        lemma_months_follow(y, m2, m);
    }
}

/// A month's date falls as many days before the same date of the next month as
/// the month is long.
pub proof fn lemma_month_later(y: int, m: int, d: int)
    requires
        1 <= m <= 12,
    ensures
        day_number(next_month(y, m).0, next_month(y, m).1, d) == day_number(y, m, d)
            + month_length(y, m),
{
    reveal(day_number);
    if m == 12 {
        law_year_length(y);
        lemma_month_starts(y, 12);
        lemma_month_starts(y, 13);
        assert(days_before_month(y, 13) == days_before_month(y, 12) + month_length(y, 12));
        assert(days_before_month(y + 1, 1) == 0);
        assert(days_before_month(y, 1) == 0);
    }
}

/// A date as `chrono` writes it in a format.
pub uninterp spec fn formatted(day: Day, format: Seq<char>) -> Seq<char>;

/// A month's short English name.
pub open spec fn short_month(m: int) -> Seq<char> {
    if m == 1 {
        "Jan"@
    } else if m == 2 {
        "Feb"@
    } else if m == 3 {
        "Mar"@
    } else if m == 4 {
        "Apr"@
    } else if m == 5 {
        "May"@
    } else if m == 6 {
        "Jun"@
    } else if m == 7 {
        "Jul"@
    } else if m == 8 {
        "Aug"@
    } else if m == 9 {
        "Sep"@
    } else if m == 10 {
        "Oct"@
    } else if m == 11 {
        "Nov"@
    } else {
        "Dec"@
    }
}

/// A day of a month, such as `05 Sep`.
pub open spec fn day_month(m: int, d: int) -> Seq<char> {
    two_digits(d) + seq![' '] + short_month(m)
}

/// A date's day and short month, such as `05 Sep`, or these and its year.
///
/// Calls `chrono::NaiveDate::format`; the text depends on the date and the
/// format alone. The day comes in two digits, the month by its English name,
/// and a year from 0 to 9999 in four digits; how other years are written is
/// left unsaid.
#[verifier::external_body]
pub(crate) fn day_format(day: Day, format: &str) -> (r: String)
    requires
        valid_day(day),
        format@ == "%d %b"@ || format@ == "%d %b %Y"@,
    ensures
        r@ == formatted(day, format@),
        forall|y: int, m: int, d: int|
            valid_ymd(y, m, d) && #[trigger] day_number(y, m, d) == day && format@ == "%d %b"@
                ==> r@ == day_month(m, d),
        forall|y: int, m: int, d: int|
            0 <= y <= 9999 && valid_ymd(y, m, d) && #[trigger] day_number(y, m, d) == day && format@
                == "%d %b %Y"@ ==> r@ == day_month(m, d) + seq![' '] + four_digits(y),
{
    chrono::NaiveDate::from_num_days_from_ce_opt(day).unwrap().format(format).to_string()
}

} // verus!
