//! Public holidays: suggested, never applied on their own.
//!
//! Egypt's fixed-date holidays and its Islamic ones are suggested for every
//! year; the owner decides each (`holiday` = nobody is marked absent and
//! working it pays the holiday multiplier, `dismissed` = a normal day).
//!
//! The Islamic dates come from the arithmetic (tabular) Hijri calendar, so the
//! suggestions never run out. They are the expected dates; the moon can move
//! them a day, which is why every one waits for a person to confirm it. Where
//! the published expectation is known it wins over the arithmetic.

use vstd::prelude::*;

use crate::calendar::{
    day_number, day_of, in_year, law_year_length, lemma_held_years, lemma_new_year, new_year,
    valid_day, valid_year, whole_units, year_of, Day, EPOCH_DAY, MAX_DAY, MIN_DAY,
};
use crate::errors::{bad_request, either, given, not_found, refusal, AppError, ErrorView};
use crate::text::{copy_text, maybe, same_text};

verus! {

/// A public holiday Egypt keeps.
#[derive(Clone, Copy, Debug, PartialEq, Eq, Structural)]
pub enum Feast {
    CopticChristmas,
    January25,
    SinaiLiberation,
    LabourDay,
    June30,
    July23,
    ArmedForces,
    EidAlFitr,
    EidAlAdha,
    IslamicNewYear,
    ProphetsBirthday,
}

impl Feast {
    pub open spec fn en(self) -> Seq<char> {
        match self {
            Feast::CopticChristmas => "Coptic Christmas"@,
            Feast::January25 => "Revolution Day (25 January)"@,
            Feast::SinaiLiberation => "Sinai Liberation Day"@,
            Feast::LabourDay => "Labour Day"@,
            Feast::June30 => "30 June Revolution"@,
            Feast::July23 => "Revolution Day (23 July)"@,
            Feast::ArmedForces => "Armed Forces Day"@,
            Feast::EidAlFitr => "Eid al-Fitr"@,
            Feast::EidAlAdha => "Eid al-Adha"@,
            Feast::IslamicNewYear => "Islamic New Year"@,
            Feast::ProphetsBirthday => "Prophet's Birthday"@,
        }
    }

    pub open spec fn ar(self) -> Seq<char> {
        match self {
            Feast::CopticChristmas => "عيد الميلاد المجيد"@,
            Feast::January25 => "عيد ثورة 25 يناير"@,
            Feast::SinaiLiberation => "عيد تحرير سيناء"@,
            Feast::LabourDay => "عيد العمال"@,
            Feast::June30 => "ذكرى ثورة 30 يونيو"@,
            Feast::July23 => "عيد ثورة 23 يوليو"@,
            Feast::ArmedForces => "عيد القوات المسلحة"@,
            Feast::EidAlFitr => "عيد الفطر"@,
            Feast::EidAlAdha => "عيد الأضحى"@,
            Feast::IslamicNewYear => "رأس السنة الهجرية"@,
            Feast::ProphetsBirthday => "المولد النبوي"@,
        }
    }

    /// The name in English.
    pub fn name_en(&self) -> (r: &'static str)
        ensures
            r@ == self.en(),
    {
        match self {
            Feast::CopticChristmas => "Coptic Christmas",
            Feast::January25 => "Revolution Day (25 January)",
            Feast::SinaiLiberation => "Sinai Liberation Day",
            Feast::LabourDay => "Labour Day",
            Feast::June30 => "30 June Revolution",
            Feast::July23 => "Revolution Day (23 July)",
            Feast::ArmedForces => "Armed Forces Day",
            Feast::EidAlFitr => "Eid al-Fitr",
            Feast::EidAlAdha => "Eid al-Adha",
            Feast::IslamicNewYear => "Islamic New Year",
            Feast::ProphetsBirthday => "Prophet's Birthday",
        }
    }

    /// The name in Arabic.
    pub fn name_ar(&self) -> (r: &'static str)
        ensures
            r@ == self.ar(),
    {
        match self {
            Feast::CopticChristmas => "عيد الميلاد المجيد",
            Feast::January25 => "عيد ثورة 25 يناير",
            Feast::SinaiLiberation => "عيد تحرير سيناء",
            Feast::LabourDay => "عيد العمال",
            Feast::June30 => "ذكرى ثورة 30 يونيو",
            Feast::July23 => "عيد ثورة 23 يوليو",
            Feast::ArmedForces => "عيد القوات المسلحة",
            Feast::EidAlFitr => "عيد الفطر",
            Feast::EidAlAdha => "عيد الأضحى",
            Feast::IslamicNewYear => "رأس السنة الهجرية",
            Feast::ProphetsBirthday => "المولد النبوي",
        }
    }
}

// ── The calendar ────────────────────────────────────────────────────────────

/// Julian day number of 1 Muharram 1 AH (16 July 622, Julian calendar).
pub const ISLAMIC_EPOCH_JDN: i64 = 1_948_440;

/// Julian day number of 1 January 1970.
pub const UNIX_EPOCH_JDN: i64 = 2_440_588;

/// Julian day number of a date in the arithmetic Islamic calendar: months
/// alternate 30 and 29 days, and 11 of every 30 years have a leap day at the
/// end of Dhu al-Hijjah.
pub open spec fn jdn_of_hijri(year: int, month: int, day: int) -> int {
    day + whole_units(59 * (month - 1) + 1, 2) + (year - 1) * 354 + (3 + 11 * year) / 30
        + ISLAMIC_EPOCH_JDN - 1
}

/// Julian day number (at noon) of a date in the arithmetic Islamic calendar
/// (the civil / Friday epoch, 16 July 622 CE Julian).
pub fn hijri_to_jdn(year: i64, month: i64, day: i64) -> (r: i64)
    requires
        i64::MIN <= jdn_of_hijri(year as int, month as int, day as int) <= i64::MAX,
    ensures
        r == jdn_of_hijri(year as int, month as int, day as int),
{
    wide_jdn(year, month, day) as i64
}

/// The same number, with room for every date.
fn wide_jdn(year: i64, month: i64, day: i64) -> (r: i128)
    ensures
        r == jdn_of_hijri(year as int, month as int, day as int),
        -4_000_000_000_000_000_000_000_000 < r < 4_000_000_000_000_000_000_000_000,
{
    let halves: i128 = 59 * (month as i128 - 1) + 1;
    let month_days: i128 = if halves >= 0 {
        halves / 2
    } else {
        -((-halves) / 2)
    };
    let cycle: i128 = 3 + 11 * (year as i128);
    let leap_days: i128 = if cycle >= 0 {
        cycle / 30
    } else {
        -((-cycle + 29) / 30)
    };
    day as i128 + month_days + (year as i128 - 1) * 354 + leap_days + ISLAMIC_EPOCH_JDN as i128 - 1
}

/// The Gregorian date of a Julian day number.
pub open spec fn day_of_jdn(jdn: int) -> Option<Day> {
    let d = jdn - UNIX_EPOCH_JDN + EPOCH_DAY;
    if MIN_DAY <= d <= MAX_DAY {
        Some(d as Day)
    } else {
        None
    }
}

/// The Gregorian date of a Julian day number.
pub fn jdn_to_date(jdn: i64) -> (r: Option<Day>)
    ensures
        r == day_of_jdn(jdn as int),
{
    wide_jdn_to_date(jdn as i128)
}

fn wide_jdn_to_date(jdn: i128) -> (r: Option<Day>)
    requires
        -4_000_000_000_000_000_000_000_000 < jdn < 4_000_000_000_000_000_000_000_000,
    ensures
        r == day_of_jdn(jdn as int),
{
    let d: i128 = jdn - UNIX_EPOCH_JDN as i128 + EPOCH_DAY as i128;
    if MIN_DAY as i128 <= d && d <= MAX_DAY as i128 {
        Some(d as Day)
    } else {
        None
    }
}

/// The expected Gregorian date of a Hijri date.
pub open spec fn expected_date(year: int, month: int, day: int) -> Option<Day> {
    day_of_jdn(jdn_of_hijri(year, month, day))
}

/// The expected Gregorian date of a Hijri date.
pub fn hijri_to_gregorian(year: i64, month: i64, day: i64) -> (r: Option<Day>)
    ensures
        r == expected_date(year as int, month as int, day as int),
{
    wide_jdn_to_date(wide_jdn(year, month, day))
}

/// The next day of a Hijri month is the next day.
pub proof fn law_hijri_days_follow(year: int, month: int, day: int)
    ensures
        jdn_of_hijri(year, month, day + 1) == jdn_of_hijri(year, month, day) + 1,
{
}

/// Months alternate 30 and 29 days; a year is 354 days, or 355 in a leap year.
pub proof fn law_hijri_months_and_years(year: int, month: int)
    requires
        1 <= month <= 11,
    ensures
        jdn_of_hijri(year, month + 1, 1) - jdn_of_hijri(year, month, 1) == if month % 2 == 1 {
            30int
        } else {
            29
        },
        354 <= jdn_of_hijri(year + 1, 1, 1) - jdn_of_hijri(year, 1, 1) <= 355,
        jdn_of_hijri(year + 30, 1, 1) - jdn_of_hijri(year, 1, 1) == 30 * 354 + 11,
{
}

/// The month and day of an Islamic holiday in the Hijri calendar.
pub open spec fn hijri_day(f: Feast) -> (int, int) {
    match f {
        Feast::EidAlFitr => (10, 1),
        Feast::EidAlAdha => (12, 10),
        Feast::IslamicNewYear => (1, 1),
        _ => (3, 12),
    }
}

/// Published expectations that differ from the arithmetic calendar: the month
/// and day. Kept where known; the arithmetic answers every other year.
pub open spec fn published_day(year: int, f: Feast) -> Option<(int, int)> {
    if year == 2026 {
        match f {
            Feast::EidAlFitr => Some((3int, 20int)),
            Feast::EidAlAdha => Some((5int, 27int)),
            Feast::IslamicNewYear => Some((6int, 16int)),
            Feast::ProphetsBirthday => Some((8int, 25int)),
            _ => None,
        }
    } else if year == 2027 {
        match f {
            Feast::EidAlFitr => Some((3int, 10int)),
            Feast::EidAlAdha => Some((5int, 16int)),
            Feast::IslamicNewYear => Some((6int, 6int)),
            Feast::ProphetsBirthday => Some((8int, 15int)),
            _ => None,
        }
    } else {
        None
    }
}

/// The published date where it is the same holiday (a day or two apart), else
/// the arithmetic one.
pub open spec fn believed_date(year: int, f: Feast, date: Day) -> Day {
    match published_day(year, f) {
        Some((m, d)) => {
            let p = day_number(year, m, d);
            if -2 <= p - date <= 2 {
                p as Day
            } else {
                date
            }
        },
        None => date,
    }
}

/// The list with an Islamic holiday of one Hijri year, where it falls in the
/// year and is not listed already.
pub open spec fn with_islamic(
    list: Seq<(Day, Feast)>,
    year: int,
    hijri: int,
    f: Feast,
) -> Seq<(Day, Feast)> {
    match expected_date(hijri, hijri_day(f).0, hijri_day(f).1) {
        Some(date) => {
            let believed = believed_date(year, f, date);
            if in_year(date as int, year) && !list.contains((believed, f)) {
                list.push((believed, f))
            } else {
                list
            }
        },
        None => list,
    }
}

/// The list with the Islamic holidays of one Hijri year.
#[verifier::opaque]
pub open spec fn with_hijri_year(list: Seq<(Day, Feast)>, year: int, hijri: int) -> Seq<
    (Day, Feast),
> {
    with_islamic(
        with_islamic(
            with_islamic(
                with_islamic(list, year, hijri, Feast::EidAlFitr),
                year,
                hijri,
                Feast::EidAlAdha,
            ),
            year,
            hijri,
            Feast::IslamicNewYear,
        ),
        year,
        hijri,
        Feast::ProphetsBirthday,
    )
}

/// The Hijri year a Gregorian year starts in, give or take one.
pub open spec fn about_hijri(year: int) -> int {
    whole_units((year - 622) * 33, 32)
}

/// The holidays of fixed date.
pub open spec fn fixed_holidays(year: int) -> Seq<(Day, Feast)> {
    if valid_year(year) {
        seq![
            (day_number(year, 1, 7) as Day, Feast::CopticChristmas),
            (day_number(year, 1, 25) as Day, Feast::January25),
            (day_number(year, 4, 25) as Day, Feast::SinaiLiberation),
            (day_number(year, 5, 1) as Day, Feast::LabourDay),
            (day_number(year, 6, 30) as Day, Feast::June30),
            (day_number(year, 7, 23) as Day, Feast::July23),
            (day_number(year, 10, 6) as Day, Feast::ArmedForces),
        ]
    } else {
        Seq::empty()
    }
}

/// The holidays of a year as they are found: the fixed ones, then the Islamic
/// ones of the Hijri years that can touch it.
pub open spec fn found_holidays(year: int) -> Seq<(Day, Feast)> {
    let a = about_hijri(year);
    with_hijri_year(
        with_hijri_year(
            with_hijri_year(with_hijri_year(fixed_holidays(year), year, a - 1), year, a),
            year,
            a + 1,
        ),
        year,
        a + 2,
    )
}

/// A list in order of date with one more holiday, after those of its date.
pub open spec fn with_holiday(list: Seq<(Day, Feast)>, h: (Day, Feast)) -> Seq<(Day, Feast)>
    decreases list.len(),
{
    if list.len() == 0 || list.last().0 <= h.0 {
        list.push(h)
    } else {
        with_holiday(list.drop_last(), h).push(list.last())
    }
}

/// The list in order of date; those of one date keep their order.
pub open spec fn in_date_order(list: Seq<(Day, Feast)>) -> Seq<(Day, Feast)>
    decreases list.len(),
{
    if list.len() == 0 {
        Seq::empty()
    } else {
        with_holiday(in_date_order(list.drop_last()), list.last())
    }
}

/// The public holidays of a year.
#[verifier::opaque]
pub open spec fn year_holidays(year: int) -> Seq<(Day, Feast)> {
    in_date_order(found_holidays(year))
}

/// Adds an Islamic holiday of one Hijri year, where it falls in the year and is
/// not listed already.
fn add_islamic(list: &mut Vec<(Day, Feast)>, year: i32, hijri: i64, f: Feast)
    requires
        valid_year(year as int),
    ensures
        final(list)@ == with_islamic(old(list)@, year as int, hijri as int, f),
{
    let (m, d): (i64, i64) = match f {
        Feast::EidAlFitr => (10, 1),
        Feast::EidAlAdha => (12, 10),
        Feast::IslamicNewYear => (1, 1),
        _ => (3, 12),
    };
    let date: Day = match hijri_to_gregorian(hijri, m, d) {
        Some(date) => date,
        None => {
            return ;
        },
    };
    if year_of(date) != year {
        assert(!in_year(date as int, year as int));
        return ;
    }
    assert(in_year(date as int, year as int));
    let published: Option<(u32, u32)> = if year == 2026 {
        match f {
            Feast::EidAlFitr => Some((3, 20)),
            Feast::EidAlAdha => Some((5, 27)),
            Feast::IslamicNewYear => Some((6, 16)),
            Feast::ProphetsBirthday => Some((8, 25)),
            _ => None,
        }
    } else if year == 2027 {
        match f {
            Feast::EidAlFitr => Some((3, 10)),
            Feast::EidAlAdha => Some((5, 16)),
            Feast::IslamicNewYear => Some((6, 6)),
            Feast::ProphetsBirthday => Some((8, 15)),
            _ => None,
        }
    } else {
        None
    };
    let believed: Day = match published {
        Some((pm, pd)) => match day_of(year, pm, pd) {
            Some(p) => if p as i64 - date as i64 <= 2 && date as i64 - p as i64 <= 2 {
                p
            } else {
                date
            },
            None => date,
        },
        None => date,
    };
    if !is_listed(list, believed, f) {
        list.push((believed, f));
    }
}

/// Whether a holiday is on a list.
fn is_listed(list: &Vec<(Day, Feast)>, date: Day, f: Feast) -> (r: bool)
    ensures
        r == list@.contains((date, f)),
{
    let mut i: usize = 0;
    while i < list.len()
        invariant
            i <= list@.len(),
            forall|k: int| 0 <= k < i ==> #[trigger] list@[k] != (date, f),
        decreases list@.len() - i,
    {
        if list[i].0 == date && list[i].1 == f {
            assert(list@[i as int] == (date, f));
            return true;
        }
        i += 1;
    }
    false
}

/// Adds the Islamic holidays of one Hijri year.
fn add_hijri_year(list: &mut Vec<(Day, Feast)>, year: i32, hijri: i64)
    requires
        valid_year(year as int),
    ensures
        final(list)@ == with_hijri_year(old(list)@, year as int, hijri as int),
{
    reveal(with_hijri_year);
    add_islamic(list, year, hijri, Feast::EidAlFitr);
    add_islamic(list, year, hijri, Feast::EidAlAdha);
    add_islamic(list, year, hijri, Feast::IslamicNewYear);
    add_islamic(list, year, hijri, Feast::ProphetsBirthday);
}

/// Adds a holiday of fixed date.
fn add_fixed(list: &mut Vec<(Day, Feast)>, year: i32, m: u32, d: u32, f: Feast)
    requires
        valid_year(year as int),
        1 <= m <= 12,
        1 <= d <= 28 || (d == 30 && m == 6),
    ensures
        final(list)@ == old(list)@.push((day_number(year as int, m as int, d as int) as Day, f)),
{
    if let Some(day) = day_of(year, m, d) {
        list.push((day, f));
    }
}

/// No date falls in a year the calendar does not hold.
proof fn lemma_no_such_year(list: Seq<(Day, Feast)>, year: int, hijri: int)
    requires
        !valid_year(year),
    ensures
        with_hijri_year(list, year, hijri) == list,
{
    reveal(with_hijri_year);
    lemma_held_years(year);
}

/// Puts a holiday after those of its date and before.
fn put_holiday(list: &mut Vec<(Day, Feast)>, h: (Day, Feast))
    ensures
        final(list)@ == with_holiday(old(list)@, h),
{
    let ghost s = list@;
    let mut i: usize = list.len();
    assert(s.take(i as int) =~= s);
    assert(with_holiday(s, h) =~= with_holiday(s.take(i as int), h) + s.skip(i as int));
    while i > 0 && list[i - 1].0 > h.0
        invariant
            list@ == s,
            i <= s.len(),
            with_holiday(s, h) == with_holiday(s.take(i as int), h) + s.skip(i as int),
        decreases i,
    {
        let ghost front = s.take(i as int);
        i -= 1;
        assert(front.drop_last() =~= s.take(i as int));
        assert(with_holiday(s.take(i as int), h).push(s[i as int]) + s.skip(i + 1) =~= with_holiday(
            s.take(i as int),
            h,
        ) + s.skip(i as int));
    }
    list.insert(i, h);
    assert(list@ =~= s.take(i as int).push(h) + s.skip(i as int));
}

/// Egypt's public holidays falling in `year`, suggested — never applied
/// automatically. An Islamic holiday can fall twice in one Gregorian year
/// (the lunar year is 11 days shorter); both are suggested.
pub fn egypt_holidays(year: i32) -> (r: Vec<(Day, Feast)>)
    ensures
        r@ == year_holidays(year as int),
{
    reveal(year_holidays);
    let mut found: Vec<(Day, Feast)> = Vec::new();
    if year < -262_143 || year > 262_142 {
        proof {
            let a = about_hijri(year as int);
            lemma_no_such_year(Seq::empty(), year as int, a - 1);
            lemma_no_such_year(Seq::empty(), year as int, a);
            lemma_no_such_year(Seq::empty(), year as int, a + 1);
            lemma_no_such_year(Seq::empty(), year as int, a + 2);
            assert(in_date_order(Seq::<(Day, Feast)>::empty()) =~= Seq::empty());
        }
        return found;
    }
    add_fixed(&mut found, year, 1, 7, Feast::CopticChristmas);
    add_fixed(&mut found, year, 1, 25, Feast::January25);
    add_fixed(&mut found, year, 4, 25, Feast::SinaiLiberation);
    add_fixed(&mut found, year, 5, 1, Feast::LabourDay);
    add_fixed(&mut found, year, 6, 30, Feast::June30);
    add_fixed(&mut found, year, 7, 23, Feast::July23);
    add_fixed(&mut found, year, 10, 6, Feast::ArmedForces);
    assert(found@ =~= fixed_holidays(year as int));
    // Hijri years that can touch this Gregorian year.
    let since: i64 = (year as i64 - 622) * 33;
    let about: i64 = if since >= 0 {
        since / 32
    } else {
        -((-since) / 32)
    };
    add_hijri_year(&mut found, year, about - 1);
    add_hijri_year(&mut found, year, about);
    add_hijri_year(&mut found, year, about + 1);
    add_hijri_year(&mut found, year, about + 2);
    let mut out: Vec<(Day, Feast)> = Vec::new();
    let mut i: usize = 0;
    while i < found.len()
        invariant
            i <= found@.len(),
            out@ == in_date_order(found@.take(i as int)),
        decreases found@.len() - i,
    {
        assert(found@.take(i + 1).drop_last() =~= found@.take(i as int));
        put_holiday(&mut out, found[i]);
        i += 1;
    }
    assert(found@.take(found@.len() as int) =~= found@);
    out
}

/// Inserting a holiday keeps the list's and adds it.
proof fn lemma_with_holiday_holds(list: Seq<(Day, Feast)>, h: (Day, Feast), x: (Day, Feast))
    ensures
        with_holiday(list, h).contains(x) <==> list.contains(x) || x == h,
    decreases list.len(),
{
    broadcast use vstd::seq_lib::group_seq_properties;

    if list.len() == 0 || list.last().0 <= h.0 {
    } else {
        lemma_with_holiday_holds(list.drop_last(), h, x);
        assert(list =~= list.drop_last().push(list.last()));
    }
}

/// Putting holidays in order of date drops none and adds none.
pub proof fn law_ordering_keeps_the_holidays(list: Seq<(Day, Feast)>, x: (Day, Feast))
    ensures
        in_date_order(list).contains(x) <==> list.contains(x),
    decreases list.len(),
{
    broadcast use vstd::seq_lib::group_seq_properties;

    if list.len() > 0 {
        law_ordering_keeps_the_holidays(list.drop_last(), x);
        lemma_with_holiday_holds(in_date_order(list.drop_last()), list.last(), x);
        assert(list =~= list.drop_last().push(list.last()));
    }
}

proof fn lemma_with_islamic_keeps(
    list: Seq<(Day, Feast)>,
    year: int,
    hijri: int,
    f: Feast,
    x: (Day, Feast),
)
    requires
        list.contains(x),
    ensures
        with_islamic(list, year, hijri, f).contains(x),
{
    broadcast use vstd::seq_lib::group_seq_properties;

}

proof fn lemma_with_hijri_year_keeps(
    list: Seq<(Day, Feast)>,
    year: int,
    hijri: int,
    x: (Day, Feast),
)
    requires
        list.contains(x),
    ensures
        with_hijri_year(list, year, hijri).contains(x),
{
    reveal(with_hijri_year);
    let a = with_islamic(list, year, hijri, Feast::EidAlFitr);
    let b = with_islamic(a, year, hijri, Feast::EidAlAdha);
    let c = with_islamic(b, year, hijri, Feast::IslamicNewYear);
    lemma_with_islamic_keeps(list, year, hijri, Feast::EidAlFitr, x);
    lemma_with_islamic_keeps(a, year, hijri, Feast::EidAlAdha, x);
    lemma_with_islamic_keeps(b, year, hijri, Feast::IslamicNewYear, x);
    lemma_with_islamic_keeps(c, year, hijri, Feast::ProphetsBirthday, x);
}

/// An Islamic holiday that falls in the year is on the list.
proof fn lemma_islamic_is_listed(list: Seq<(Day, Feast)>, year: int, hijri: int, f: Feast)
    requires
        islamic(f),
        expected_date(hijri, hijri_day(f).0, hijri_day(f).1) is Some,
        in_year(expected_date(hijri, hijri_day(f).0, hijri_day(f).1)->0 as int, year),
    ensures
        with_hijri_year(list, year, hijri).contains(
            (
                believed_date(
                    year,
                    f,
                    expected_date(hijri, hijri_day(f).0, hijri_day(f).1)->0,
                ),
                f,
            ),
        ),
{
    broadcast use vstd::seq_lib::group_seq_properties;

    reveal(with_hijri_year);
    let date = expected_date(hijri, hijri_day(f).0, hijri_day(f).1)->0;
    let x = (believed_date(year, f, date), f);
    let a = with_islamic(list, year, hijri, Feast::EidAlFitr);
    let b = with_islamic(a, year, hijri, Feast::EidAlAdha);
    let c = with_islamic(b, year, hijri, Feast::IslamicNewYear);
    if f == Feast::EidAlFitr {
        assert(a.contains(x));
        lemma_with_islamic_keeps(a, year, hijri, Feast::EidAlAdha, x);
        lemma_with_islamic_keeps(b, year, hijri, Feast::IslamicNewYear, x);
        lemma_with_islamic_keeps(c, year, hijri, Feast::ProphetsBirthday, x);
    } else if f == Feast::EidAlAdha {
        assert(b.contains(x));
        lemma_with_islamic_keeps(b, year, hijri, Feast::IslamicNewYear, x);
        lemma_with_islamic_keeps(c, year, hijri, Feast::ProphetsBirthday, x);
    } else if f == Feast::IslamicNewYear {
        assert(c.contains(x));
        lemma_with_islamic_keeps(c, year, hijri, Feast::ProphetsBirthday, x);
    }
}

/// An Islamic holiday.
pub open spec fn islamic(f: Feast) -> bool {
    f == Feast::EidAlFitr || f == Feast::EidAlAdha || f == Feast::IslamicNewYear || f
        == Feast::ProphetsBirthday
}

/// The number of the day a holiday falls on in a Hijri year.
pub open spec fn hijri_number(f: Feast, hijri: int) -> int {
    jdn_of_hijri(hijri, hijri_day(f).0, hijri_day(f).1) - UNIX_EPOCH_JDN + EPOCH_DAY
}

/// The first of the Hijri years that can touch a year is not past it, and the
/// last is not before it.
proof fn lemma_hijri_years_reach(f: Feast, year: int)
    requires
        islamic(f),
        -2_193 <= year <= 3_373,
    ensures
        hijri_number(f, about_hijri(year) - 1) < new_year(year + 1),
        hijri_number(f, about_hijri(year) + 2) >= new_year(year),
{
    lemma_new_year(year);
    lemma_new_year(year + 1);
    let s = year - 622;
    let a = about_hijri(year);
    if s >= 0 {
        let k = s / 32;
        let r = s % 32;
        assert(s * 33 == 32 * (33 * k + r) + r);
        assert(a == 33 * k + r);
    } else {
        let k = (-s) / 32;
        let r = (-s) % 32;
        assert((-s) * 33 == 32 * (33 * k + r) + r);
        assert(a == -(33 * k + r));
    }
}

/// One of the Hijri years that can touch a year has the holiday in it.
proof fn lemma_a_hijri_year(f: Feast, year: int) -> (h: int)
    requires
        islamic(f),
        -2_193 <= year <= 3_373,
    ensures
        about_hijri(year) - 1 <= h <= about_hijri(year) + 2,
        in_year(hijri_number(f, h), year),
{
    let a = about_hijri(year);
    lemma_hijri_years_reach(f, year);
    law_year_length(year);
    lemma_hijri_year_length(f, a - 1);
    lemma_hijri_year_length(f, a);
    lemma_hijri_year_length(f, a + 1);
    if hijri_number(f, a - 1) >= new_year(year) {
        a - 1
    } else if hijri_number(f, a) >= new_year(year) {
        a
    } else if hijri_number(f, a + 1) >= new_year(year) {
        a + 1
    } else {
        a + 2
    }
}

proof fn lemma_hijri_year_length(f: Feast, h: int)
    ensures
        354 <= hijri_number(f, h + 1) - hijri_number(f, h) <= 355,
{
}

/// Every year has its Islamic holidays, also one that falls on another
/// holiday's date.
pub proof fn law_every_year_has_its_islamic_holidays(f: Feast, year: int)
    requires
        islamic(f),
        -2_193 <= year <= 3_373,
    ensures
        exists|i: int|
            0 <= i < year_holidays(year).len() && (#[trigger] year_holidays(year)[i]).1 == f,
{
    let a = about_hijri(year);
    let h = lemma_a_hijri_year(f, year);
    lemma_new_year(year);
    lemma_new_year(year + 1);
    let date = expected_date(h, hijri_day(f).0, hijri_day(f).1);
    assert(date == Some(hijri_number(f, h) as Day));
    let x = (believed_date(year, f, date->0), f);
    let n0 = fixed_holidays(year);
    let n1 = with_hijri_year(n0, year, a - 1);
    let n2 = with_hijri_year(n1, year, a);
    let n3 = with_hijri_year(n2, year, a + 1);
    if h == a - 1 {
        lemma_islamic_is_listed(n0, year, h, f);
        lemma_with_hijri_year_keeps(n1, year, a, x);
        lemma_with_hijri_year_keeps(n2, year, a + 1, x);
        lemma_with_hijri_year_keeps(n3, year, a + 2, x);
    } else if h == a {
        lemma_islamic_is_listed(n1, year, h, f);
        lemma_with_hijri_year_keeps(n2, year, a + 1, x);
        lemma_with_hijri_year_keeps(n3, year, a + 2, x);
    } else if h == a + 1 {
        lemma_islamic_is_listed(n2, year, h, f);
        lemma_with_hijri_year_keeps(n3, year, a + 2, x);
    } else {
        lemma_islamic_is_listed(n3, year, h, f);
    }
    reveal(year_holidays);
    law_ordering_keeps_the_holidays(found_holidays(year), x);
    let r = year_holidays(year);
    assert(r.contains(x));
    let i = choose|i: int| 0 <= i < r.len() && r[i] == x;
    assert(r[i].1 == f);
}

/// The dates never go back.
pub open spec fn ascending(list: Seq<(Day, Feast)>) -> bool {
    forall|i: int, j: int| 0 <= i <= j < list.len() ==> (#[trigger] list[i]).0 <= (
    #[trigger] list[j]).0
}

proof fn lemma_with_holiday_ascends(list: Seq<(Day, Feast)>, h: (Day, Feast))
    requires
        ascending(list),
    ensures
        ascending(with_holiday(list, h)),
        with_holiday(list, h).last().0 == if list.len() > 0 && list.last().0 > h.0 {
            list.last().0
        } else {
            h.0
        },
        with_holiday(list, h).len() == list.len() + 1,
    decreases list.len(),
{
    if list.len() == 0 || list.last().0 <= h.0 {
        let r = list.push(h);
        assert forall|i: int, j: int| 0 <= i <= j < r.len() implies (#[trigger] r[i]).0 <= (
        #[trigger] r[j]).0 by {
            if j == list.len() && i < list.len() {
                assert(list[i].0 <= list[list.len() - 1].0);
            }
        }
    } else {
        let short = list.drop_last();
        assert(ascending(short)) by {
            assert forall|i: int, j: int| 0 <= i <= j < short.len() implies (#[trigger] short[i]).0
                <= (#[trigger] short[j]).0 by {
                assert(list[i].0 <= list[j].0);
            }
        }
        lemma_with_holiday_ascends(short, h);
        let inner = with_holiday(short, h);
        let r = inner.push(list.last());
        if short.len() > 0 {
            assert(list[short.len() - 1].0 <= list[list.len() - 1].0);
        }
        assert forall|i: int, j: int| 0 <= i <= j < r.len() implies (#[trigger] r[i]).0 <= (
        #[trigger] r[j]).0 by {
            if i < inner.len() {
                assert(inner[i].0 <= inner[inner.len() - 1].0);
                if j < inner.len() {
                    assert(inner[i].0 <= inner[j].0);
                }
            }
        }
    }
}

/// A year's holidays come in order of date.
pub proof fn law_holidays_ascend(list: Seq<(Day, Feast)>)
    ensures
        ascending(in_date_order(list)),
    decreases list.len(),
{
    if list.len() > 0 {
        law_holidays_ascend(list.drop_last());
        lemma_with_holiday_ascends(in_date_order(list.drop_last()), list.last());
    }
}

/// The holidays of the years from `first` up to but not including `end`.
pub open spec fn holidays_of_years(first: int, end: int) -> Seq<(Day, Feast)>
    decreases end - first,
{
    if end <= first {
        Seq::empty()
    } else {
        holidays_of_years(first, end - 1) + year_holidays(end - 1)
    }
}

/// The holidays from one date to another.
pub open spec fn between(list: Seq<(Day, Feast)>, from: Day, to: Day) -> Seq<(Day, Feast)> {
    list.filter(|h: (Day, Feast)| from <= h.0 <= to)
}

/// The suggestions in `[from, to]`.
pub fn suggested_between(from: Day, to: Day) -> (r: Vec<(Day, Feast)>)
    requires
        valid_day(from),
        valid_day(to),
    ensures
        forall|a: int, b: int|
            in_year(from as int, a) && in_year(to as int, b) ==> r@ == #[trigger] between(
                holidays_of_years(a, b + 1),
                from,
                to,
            ),
{
    let first: i32 = year_of(from);
    let last: i32 = year_of(to);
    let mut out: Vec<(Day, Feast)> = Vec::new();
    let mut y: i32 = first;
    let ghost f = |h: (Day, Feast)| from <= h.0 <= to;
    assert(out@ =~= holidays_of_years(first as int, y as int).filter(f));
    while y <= last
        invariant
            first <= y,
            y <= last + 1 || y == first,
            last <= 262_142,
            f == (|h: (Day, Feast)| from <= h.0 <= to),
            out@ == holidays_of_years(first as int, y as int).filter(f),
        decreases last + 1 - y,
    {
        let of_year: Vec<(Day, Feast)> = egypt_holidays(y);
        let ghost before = out@;
        let mut i: usize = 0;
        assert(out@ =~= before + of_year@.take(0).filter(f));
        while i < of_year.len()
            invariant
                i <= of_year@.len(),
                f == (|h: (Day, Feast)| from <= h.0 <= to),
                out@ == before + of_year@.take(i as int).filter(f),
            decreases of_year@.len() - i,
        {
            let h: (Day, Feast) = of_year[i];
            proof {
                assert(of_year@.take(i + 1).drop_last() =~= of_year@.take(i as int));
                reveal(Seq::filter);
            }
            if h.0 >= from && h.0 <= to {
                out.push(h);
                assert(out@ =~= before + of_year@.take(i as int).filter(f).push(h));
            }
            i += 1;
        }
        proof {
            assert(of_year@.take(of_year@.len() as int) =~= of_year@);
            lemma_filter_joins(holidays_of_years(first as int, y as int), of_year@, f);
        }
        y += 1;
    }
    proof {
        if last < first {
            assert(holidays_of_years(first as int, last + 1) =~= Seq::empty());
            assert(holidays_of_years(first as int, first as int) =~= Seq::empty());
        }
        assert forall|a: int, b: int| in_year(from as int, a) && in_year(to as int, b) implies out@
            == #[trigger] between(holidays_of_years(a, b + 1), from, to) by {
            assert(a == first && b == last);
        }
    }
    out
}

/// Filtering a joined list joins the filtered lists.
proof fn lemma_filter_joins<A>(a: Seq<A>, b: Seq<A>, f: spec_fn(A) -> bool)
    ensures
        (a + b).filter(f) == a.filter(f) + b.filter(f),
    decreases b.len(),
{
    reveal(Seq::filter);
    if b.len() == 0 {
        assert(a + b =~= a);
        assert(b.filter(f) =~= Seq::empty());
        assert(a.filter(f) + b.filter(f) =~= a.filter(f));
    } else {
        assert((a + b).drop_last() =~= a + b.drop_last());
        assert((a + b).last() == b.last());
        lemma_filter_joins(a, b.drop_last(), f);
        assert((a + b).filter(f) =~= a.filter(f) + b.filter(f));
    }
}

// ── Suggestions and decisions ───────────────────────────────────────────────

/// A holiday as it is shown.
#[derive(Debug, Clone, PartialEq, Eq)]
pub struct HolidayView {
    pub on_date: Day,
    pub name_en: String,
    pub name_ar: String,
    /// `None` = not decided yet: a normal day unless set up.
    pub decision: Option<String>,
}

/// What a [`HolidayView`] says.
#[verifier::ext_equal]
pub struct Shown {
    pub on_date: Day,
    pub en: Seq<char>,
    pub ar: Seq<char>,
    pub decision: Option<Seq<char>>,
}

impl View for HolidayView {
    type V = Shown;

    open spec fn view(&self) -> Shown {
        Shown {
            on_date: self.on_date,
            en: self.name_en@,
            ar: self.name_ar@,
            decision: maybe(self.decision),
        }
    }
}

/// What a list of holidays says.
pub open spec fn shown(list: Seq<HolidayView>) -> Seq<Shown> {
    Seq::new(list.len(), |i: int| list[i]@)
}

/// The suggestions, none of them decided.
pub open spec fn undecided(suggested: Seq<(Day, Feast)>) -> Seq<Shown> {
    Seq::new(
        suggested.len(),
        |i: int|
            Shown {
                on_date: suggested[i].0,
                en: suggested[i].1.en(),
                ar: suggested[i].1.ar(),
                decision: None,
            },
    )
}

/// A holiday of that date is on the list.
pub open spec fn on_the_list(list: Seq<Shown>, date: Day) -> bool {
    exists|i: int| 0 <= i < list.len() && (#[trigger] list[i]).on_date == date
}

/// A list with the decision of a stored row on every suggestion of its date.
pub open spec fn decided_by(list: Seq<Shown>, row: Shown) -> Seq<Shown> {
    Seq::new(
        list.len(),
        |i: int|
            if list[i].on_date == row.on_date {
                Shown { decision: row.decision, ..list[i] }
            } else {
                list[i]
            },
    )
}

/// The list with one stored row: its decision on every suggestion of its date,
/// or the row itself where nothing is suggested that day.
pub open spec fn overlaid(list: Seq<Shown>, row: Shown) -> Seq<Shown> {
    if on_the_list(list, row.on_date) {
        decided_by(list, row)
    } else {
        list.push(row)
    }
}

/// The list with stored rows, one after another.
pub open spec fn overlaid_all(list: Seq<Shown>, stored: Seq<Shown>) -> Seq<Shown>
    decreases stored.len(),
{
    if stored.len() == 0 {
        list
    } else {
        overlaid(overlaid_all(list, stored.drop_last()), stored.last())
    }
}

/// A list in order of date with one more, after those of its date.
pub open spec fn with_shown(list: Seq<Shown>, h: Shown) -> Seq<Shown>
    decreases list.len(),
{
    if list.len() == 0 || list.last().on_date <= h.on_date {
        list.push(h)
    } else {
        with_shown(list.drop_last(), h).push(list.last())
    }
}

/// The list in order of date; those of one date keep their order.
pub open spec fn shown_by_date(list: Seq<Shown>) -> Seq<Shown>
    decreases list.len(),
{
    if list.len() == 0 {
        Seq::empty()
    } else {
        with_shown(shown_by_date(list.drop_last()), list.last())
    }
}

/// Every suggestion with the decision on it, and every decided day that is no
/// longer suggested, in order of date.
pub open spec fn merged(suggested: Seq<(Day, Feast)>, stored: Seq<Shown>) -> Seq<Shown> {
    shown_by_date(overlaid_all(undecided(suggested), stored))
}

/// Puts a stored row's decision on every suggestion of its date; whether there
/// is one.
fn put_decision(list: &mut Vec<HolidayView>, row: &HolidayView) -> (r: bool)
    ensures
        r == on_the_list(shown(old(list)@), row.on_date),
        shown(final(list)@) == decided_by(shown(old(list)@), row@),
{
    let ghost was = shown(list@);
    let n: usize = list.len();
    let mut found: bool = false;
    let mut i: usize = 0;
    while i < n
        invariant
            i <= n == list@.len() == was.len(),
            was == shown(old(list)@),
            forall|k: int| 0 <= k < i ==> (#[trigger] list@[k])@ == decided_by(was, row@)[k],
            forall|k: int| i <= k < n ==> (#[trigger] list@[k])@ == was[k],
            found == exists|k: int| 0 <= k < i && (#[trigger] was[k]).on_date == row.on_date,
        decreases n - i,
    {
        assert(list@[i as int]@ == was[i as int]);
        if list[i].on_date == row.on_date {
            let h: HolidayView = HolidayView {
                on_date: list[i].on_date,
                name_en: list[i].name_en.as_str().to_owned(),
                name_ar: list[i].name_ar.as_str().to_owned(),
                decision: copy_text(&row.decision),
            };
            list.set(i, h);
            found = true;
        }
        i += 1;
    }
    assert(shown(list@) =~= decided_by(was, row@));
    found
}

/// Puts a holiday after those of its date and before.
fn put_shown(list: &mut Vec<HolidayView>, h: HolidayView)
    ensures
        shown(final(list)@) == with_shown(shown(old(list)@), h@),
{
    let ghost s = shown(list@);
    let mut i: usize = list.len();
    assert(s.take(i as int) =~= s);
    assert(with_shown(s, h@) =~= with_shown(s.take(i as int), h@) + s.skip(i as int));
    while i > 0 && list[i - 1].on_date > h.on_date
        invariant
            *list == *old(list),
            s == shown(list@),
            i <= s.len(),
            with_shown(s, h@) == with_shown(s.take(i as int), h@) + s.skip(i as int),
        decreases i,
    {
        let ghost front = s.take(i as int);
        i -= 1;
        assert(front.drop_last() =~= s.take(i as int));
        assert(front.last() == list@[i as int]@);
        assert(with_shown(s.take(i as int), h@).push(s[i as int]) + s.skip(i + 1) =~= with_shown(
            s.take(i as int),
            h@,
        ) + s.skip(i as int));
    }
    proof {
        if i > 0 {
            assert(s.take(i as int).last() == list@[i - 1]@);
        }
    }
    list.insert(i, h);
    assert(shown(list@) =~= s.take(i as int).push(h@) + s.skip(i as int));
}

/// The suggestions with the decisions on them.
pub fn merge(suggested: Vec<(Day, Feast)>, stored: Vec<HolidayView>) -> (r: Vec<HolidayView>)
    ensures
        shown(r@) == merged(suggested@, shown(stored@)),
{
    let mut out: Vec<HolidayView> = Vec::new();
    let mut i: usize = 0;
    while i < suggested.len()
        invariant
            i <= suggested@.len(),
            shown(out@) == undecided(suggested@.take(i as int)),
        decreases suggested@.len() - i,
    {
        let on_date: Day = suggested[i].0;
        let f: Feast = suggested[i].1;
        let ghost before = out@;
        out.push(
            HolidayView {
                on_date,
                name_en: f.name_en().to_owned(),
                name_ar: f.name_ar().to_owned(),
                decision: None,
            },
        );
        i += 1;
        assert(out@.len() == i) by {
            assert(shown(before).len() == undecided(suggested@.take(i - 1)).len());
        }
        assert forall|k: int| 0 <= k < i implies #[trigger] shown(out@)[k] == undecided(
            suggested@.take(i as int),
        )[k] by {
            if k < i - 1 {
                assert(shown(before)[k] == undecided(suggested@.take(i - 1))[k]);
            }
        }
        assert(shown(out@) =~= undecided(suggested@.take(i as int)));
    }
    assert(suggested@.take(suggested@.len() as int) =~= suggested@);
    let ghost base = undecided(suggested@);
    let mut j: usize = 0;
    while j < stored.len()
        invariant
            j <= stored@.len(),
            shown(out@) == overlaid_all(base, shown(stored@).take(j as int)),
        decreases stored@.len() - j,
    {
        let row: &HolidayView = &stored[j];
        let ghost before = shown(out@);
        proof {
            assert(shown(stored@).take(j + 1).drop_last() =~= shown(stored@).take(j as int));
            assert(shown(stored@).take(j + 1).last() == row@);
        }
        if !put_decision(&mut out, row) {
            assert(decided_by(before, row@) =~= before) by {
                assert forall|k: int| 0 <= k < before.len() implies (#[trigger] before[k]).on_date
                    != row.on_date by {}
            }
            let h: HolidayView = HolidayView {
                on_date: row.on_date,
                name_en: row.name_en.as_str().to_owned(),
                name_ar: row.name_ar.as_str().to_owned(),
                decision: copy_text(&row.decision),
            };
            let ghost kept = shown(out@);
            out.push(h);
            assert(shown(out@) =~= kept.push(h@));
        }
        assert(shown(out@) =~= overlaid(before, row@));
        j += 1;
    }
    assert(shown(stored@).take(stored@.len() as int) =~= shown(stored@));
    let ghost all = shown(out@);
    let mut sorted: Vec<HolidayView> = Vec::new();
    let n: usize = out.len();
    let mut k: usize = 0;
    assert(shown(sorted@) =~= shown_by_date(all.take(0)));
    while k < n
        invariant
            k <= n == all.len(),
            shown(out@) == all.skip(k as int),
            shown(sorted@) == shown_by_date(all.take(k as int)),
        decreases n - k,
    {
        assert(shown(out@).len() == n - k);
        let ghost before = out@;
        let h: HolidayView = out.remove(0);
        assert(all.take(k + 1).drop_last() =~= all.take(k as int));
        assert(h@ == all.skip(k as int)[0]);
        put_shown(&mut sorted, h);
        k += 1;
        assert forall|j: int| 0 <= j < n - k implies #[trigger] shown(out@)[j] == all.skip(
            k as int,
        )[j] by {
            assert(out@[j] == before[j + 1]);
            assert(shown(before)[j + 1] == all.skip(k - 1)[j + 1]);
        }
        assert(shown(out@) =~= all.skip(k as int));
    }
    assert(all.take(n as int) =~= all);
    sorted
}

/// Every holiday of that date has that decision.
pub open spec fn all_decided(list: Seq<Shown>, date: Day, decision: Option<Seq<char>>) -> bool {
    forall|i: int|
        0 <= i < list.len() && (#[trigger] list[i]).on_date == date ==> list[i].decision == decision
}

proof fn lemma_with_shown_holds(list: Seq<Shown>, h: Shown, x: Shown)
    ensures
        with_shown(list, h).contains(x) <==> list.contains(x) || x == h,
    decreases list.len(),
{
    broadcast use vstd::seq_lib::group_seq_properties;

    if list.len() == 0 || list.last().on_date <= h.on_date {
    } else {
        lemma_with_shown_holds(list.drop_last(), h, x);
        assert(list =~= list.drop_last().push(list.last()));
    }
}

proof fn lemma_shown_by_date_holds(list: Seq<Shown>, x: Shown)
    ensures
        shown_by_date(list).contains(x) <==> list.contains(x),
    decreases list.len(),
{
    broadcast use vstd::seq_lib::group_seq_properties;

    if list.len() > 0 {
        lemma_shown_by_date_holds(list.drop_last(), x);
        lemma_with_shown_holds(shown_by_date(list.drop_last()), list.last(), x);
        assert(list =~= list.drop_last().push(list.last()));
    }
}

/// A stored row of another date leaves a day as it was.
proof fn lemma_overlay_keeps(list: Seq<Shown>, row: Shown, date: Day, decision: Option<Seq<char>>)
    ensures
        on_the_list(list, date) ==> on_the_list(overlaid(list, row), date),
        row.on_date != date && all_decided(list, date, decision) ==> all_decided(
            overlaid(list, row),
            date,
            decision,
        ),
        on_the_list(overlaid(list, row), row.on_date),
        all_decided(overlaid(list, row), row.on_date, row.decision),
{
    let r = overlaid(list, row);
    if on_the_list(list, date) {
        let i = choose|i: int| 0 <= i < list.len() && (#[trigger] list[i]).on_date == date;
        assert(r[i].on_date == date);
    }
    if on_the_list(list, row.on_date) {
        let i = choose|i: int| 0 <= i < list.len() && (#[trigger] list[i]).on_date == row.on_date;
        assert(r[i].on_date == row.on_date);
    } else {
        assert(r[r.len() - 1] == row);
    }
    if row.on_date != date && all_decided(list, date, decision) {
        assert forall|i: int| 0 <= i < r.len() && (#[trigger] r[i]).on_date == date implies
            r[i].decision == decision by {
            assert(r[i] == list[i]);
        }
    }
}

proof fn lemma_overlays_keep(list: Seq<Shown>, stored: Seq<Shown>, date: Day)
    ensures
        on_the_list(list, date) ==> on_the_list(overlaid_all(list, stored), date),
    decreases stored.len(),
{
    if stored.len() > 0 {
        lemma_overlays_keep(list, stored.drop_last(), date);
        lemma_overlay_keeps(
            overlaid_all(list, stored.drop_last()),
            stored.last(),
            date,
            None,
        );
    }
}

proof fn lemma_overlays_decide(list: Seq<Shown>, stored: Seq<Shown>, k: int)
    requires
        0 <= k < stored.len(),
        forall|j: int| k < j < stored.len() ==> (#[trigger] stored[j]).on_date != stored[k].on_date,
    ensures
        on_the_list(overlaid_all(list, stored), stored[k].on_date),
        all_decided(overlaid_all(list, stored), stored[k].on_date, stored[k].decision),
    decreases stored.len(),
{
    let before = overlaid_all(list, stored.drop_last());
    if k < stored.len() - 1 {
        assert(stored.drop_last()[k] == stored[k]);
        lemma_overlays_decide(list, stored.drop_last(), k);
    }
    lemma_overlay_keeps(before, stored.last(), stored[k].on_date, stored[k].decision);
}

proof fn lemma_overlays_leave(list: Seq<Shown>, stored: Seq<Shown>, date: Day)
    requires
        all_decided(list, date, None),
        forall|j: int| 0 <= j < stored.len() ==> (#[trigger] stored[j]).on_date != date,
    ensures
        all_decided(overlaid_all(list, stored), date, None),
    decreases stored.len(),
{
    if stored.len() > 0 {
        assert(stored[stored.len() - 1].on_date != date);
        assert forall|j: int| 0 <= j < stored.len() - 1 implies (
        #[trigger] stored.drop_last()[j]).on_date != date by {
            assert(stored[j].on_date != date);
        }
        lemma_overlays_leave(list, stored.drop_last(), date);
        lemma_overlay_keeps(overlaid_all(list, stored.drop_last()), stored.last(), date, None);
    }
}

/// What holds of the days of a list holds of them in order of date.
proof fn lemma_in_order_alike(list: Seq<Shown>, date: Day, decision: Option<Seq<char>>)
    ensures
        on_the_list(list, date) ==> on_the_list(shown_by_date(list), date),
        all_decided(list, date, decision) ==> all_decided(shown_by_date(list), date, decision),
{
    let r = shown_by_date(list);
    if on_the_list(list, date) {
        let i = choose|i: int| 0 <= i < list.len() && (#[trigger] list[i]).on_date == date;
        lemma_shown_by_date_holds(list, list[i]);
        assert(list.contains(list[i]));
        let j = choose|j: int| 0 <= j < r.len() && r[j] == list[i];
        assert(r[j].on_date == date);
    }
    if all_decided(list, date, decision) {
        assert forall|j: int| 0 <= j < r.len() && (#[trigger] r[j]).on_date == date implies
            r[j].decision == decision by {
            lemma_shown_by_date_holds(list, r[j]);
            assert(r.contains(r[j]));
            let i = choose|i: int| 0 <= i < list.len() && list[i] == r[j];
            assert(list[i].on_date == date);
        }
    }
}

/// Every suggested date is shown, decided or not.
pub proof fn law_every_suggestion_is_shown(
    suggested: Seq<(Day, Feast)>,
    stored: Seq<Shown>,
    k: int,
)
    requires
        0 <= k < suggested.len(),
    ensures
        on_the_list(merged(suggested, stored), suggested[k].0),
{
    let base = undecided(suggested);
    let date = suggested[k].0;
    assert(base[k].on_date == date);
    lemma_overlays_keep(base, stored, date);
    lemma_in_order_alike(overlaid_all(base, stored), date, None);
}

/// Every stored decision is shown on its date, suggested or not, on every
/// holiday of that date (the last one where a date is stored twice).
pub proof fn law_every_decision_is_shown(
    suggested: Seq<(Day, Feast)>,
    stored: Seq<Shown>,
    k: int,
)
    requires
        0 <= k < stored.len(),
        forall|j: int| k < j < stored.len() ==> (#[trigger] stored[j]).on_date != stored[k].on_date,
    ensures
        on_the_list(merged(suggested, stored), stored[k].on_date),
        all_decided(merged(suggested, stored), stored[k].on_date, stored[k].decision),
{
    let base = undecided(suggested);
    lemma_overlays_decide(base, stored, k);
    lemma_in_order_alike(overlaid_all(base, stored), stored[k].on_date, stored[k].decision);
}

/// A suggestion of a date nothing is stored for is not decided yet.
pub proof fn law_the_rest_is_undecided(
    suggested: Seq<(Day, Feast)>,
    stored: Seq<Shown>,
    date: Day,
)
    requires
        forall|j: int| 0 <= j < stored.len() ==> (#[trigger] stored[j]).on_date != date,
    ensures
        all_decided(merged(suggested, stored), date, None),
{
    lemma_overlays_leave(undecided(suggested), stored, date);
    lemma_in_order_alike(overlaid_all(undecided(suggested), stored), date, None);
}

// ── Deciding ────────────────────────────────────────────────────────────────

/// A decision on a public holiday.
pub struct HolidayDecision {
    /// `holiday` (nobody marked absent; working it pays the multiplier) or
    /// `dismissed` (a normal day).
    pub decision: String,
}

/// What a decision asks for.
#[derive(Debug, Clone, Copy, PartialEq, Eq, Structural)]
pub enum HolidayAct {
    /// The absences marked on the day go, with their automatic deductions.
    ForgiveAbsences,
    /// The rostered shifts nobody clocked are absences again.
    RestoreAbsences,
}

/// What is known when a holiday is decided.
pub struct HolidayFacts {
    /// A public holiday is the business's, every branch at once: the right to
    /// publish the roster everywhere.
    pub everywhere: Result<(), AppError>,
    /// The holidays shown on the date.
    pub known: Vec<HolidayView>,
    /// The day's pay changes with the decision: an approved month is frozen.
    pub month_open: Result<(), AppError>,
}

/// Why a decision is refused.
pub open spec fn holiday_refused(f: HolidayFacts, decision: Seq<char>) -> Option<ErrorView> {
    either(
        refusal(f.everywhere),
        either(
            given(
                decision != "holiday"@ && decision != "dismissed"@,
                ErrorView::BadRequest("decision is holiday or dismissed"@),
            ),
            either(
                given(
                    f.known@.len() == 0,
                    ErrorView::NotFound("No public holiday on that date."@),
                ),
                refusal(f.month_open),
            ),
        ),
    )
}

/// Decide a public holiday: only a date with one, only to one of the two. What
/// is stored, and what it asks for.
pub fn decide_holiday(f: HolidayFacts, body: &HolidayDecision) -> (r: Result<
    (HolidayView, HolidayAct),
    AppError,
>)
    ensures
        match holiday_refused(f, body.decision@) {
            Some(e) => r is Err && r->Err_0@ == e,
            None => {
                &&& r is Ok
                &&& (r->Ok_0).0.on_date == f.known@[0].on_date
                &&& (r->Ok_0).0.name_en@ == f.known@[0].name_en@
                &&& (r->Ok_0).0.name_ar@ == f.known@[0].name_ar@
                &&& (r->Ok_0).0.decision is Some
                &&& ((r->Ok_0).0.decision->0)@ == body.decision@
                &&& (r->Ok_0).1 == if body.decision@ == "holiday"@ {
                    HolidayAct::ForgiveAbsences
                } else {
                    HolidayAct::RestoreAbsences
                }
            },
        },
{
    f.everywhere?;
    let holiday: bool = same_text(body.decision.as_str(), "holiday");
    if !holiday && !same_text(body.decision.as_str(), "dismissed") {
        return Err(bad_request("decision is holiday or dismissed"));
    }
    if f.known.len() == 0 {
        return Err(not_found("No public holiday on that date."));
    }
    f.month_open?;
    let known: &HolidayView = &f.known[0];
    let row: HolidayView = HolidayView {
        on_date: known.on_date,
        name_en: known.name_en.as_str().to_owned(),
        name_ar: known.name_ar.as_str().to_owned(),
        decision: Some(body.decision.as_str().to_owned()),
    };
    Ok(
        (
            row,
            if holiday {
                HolidayAct::ForgiveAbsences
            } else {
                HolidayAct::RestoreAbsences
            },
        ),
    )
}

/// A record on a day declared a holiday.
#[derive(Debug, Clone, Copy, PartialEq, Eq, Structural)]
pub struct MarkedDay {
    pub absent: bool,
    pub checked_in: bool,
    /// Set or punched by a person.
    pub is_manual: bool,
    pub created_by_somebody: bool,
    pub status_overridden: bool,
    /// It covers somebody else's shift.
    pub cover: bool,
}

/// The sweep marked the day absent, and no person had a hand in it.
pub open spec fn swept(d: MarkedDay) -> bool {
    d.absent && !d.checked_in && !d.is_manual && !d.created_by_somebody && !d.status_overridden
        && !d.cover
}

/// A day declared a holiday marks nobody absent: the absences the sweep wrote on
/// it go. A day a person set or punched is left alone.
pub fn forgiven(d: &MarkedDay) -> (r: bool)
    ensures
        r == swept(*d),
{
    d.absent && !d.checked_in && !d.is_manual && !d.created_by_somebody && !d.status_overridden
        && !d.cover
}

/// A deduction a forgiven absence carried.
#[derive(Debug, Clone, Copy, PartialEq, Eq, Structural)]
pub struct CarriedLine {
    /// Entered by hand.
    pub manual: bool,
    pub created_by_somebody: bool,
    pub waived: bool,
    pub overridden: bool,
}

/// The automatic deductions of a forgiven absence go with it; a waived or
/// overridden line is a decision and stays.
pub fn goes_with_it(l: &CarriedLine) -> (r: bool)
    ensures
        r == !(l.manual || l.created_by_somebody || l.waived || l.overridden),
{
    !(l.manual || l.created_by_somebody || l.waived || l.overridden)
}

// ── What the calendar keeps ─────────────────────────────────────────────────

/// The Islamic calendar starts on the day it was set to start on, and has a leap
/// day in eleven of every thirty years: those of which eleven times the year and
/// fourteen leaves less than eleven by thirty.
pub proof fn law_the_hijri_calendar_starts_at_its_epoch(year: int)
    ensures
        jdn_of_hijri(1, 1, 1) == 1_948_440,
        jdn_of_hijri(year + 1, 1, 1) - jdn_of_hijri(year, 1, 1) == if (11 * year + 14) % 30 < 11 {
            355int
        } else {
            354
        },
{
}

/// Dates are as many days apart as their Julian day numbers, and the number of
/// 1 January 1970 is that date.
pub proof fn law_julian_days_are_days(a: int, b: int)
    ensures
        day_of_jdn(a) is Some && day_of_jdn(b) is Some ==> day_of_jdn(a)->0 - day_of_jdn(b)->0 == a
            - b,
        day_of_jdn(2_440_588) == Some(EPOCH_DAY as Day),
{
}

/// The Islamic holidays fall on 1 Shawwal, 10 Dhu al-Hijjah, 1 Muharram and
/// 12 Rabi al-Awwal.
pub proof fn law_islamic_holidays_have_their_hijri_dates()
    ensures
        hijri_day(Feast::EidAlFitr) == (10int, 1int),
        hijri_day(Feast::EidAlAdha) == (12int, 10int),
        hijri_day(Feast::IslamicNewYear) == (1int, 1int),
        hijri_day(Feast::ProphetsBirthday) == (3int, 12int),
{
}

/// The date in a year of a holiday that has a fixed one: the month and the day.
pub open spec fn fixed_day(f: Feast) -> (int, int) {
    match f {
        Feast::CopticChristmas => (1, 7),
        Feast::January25 => (1, 25),
        Feast::SinaiLiberation => (4, 25),
        Feast::LabourDay => (5, 1),
        Feast::June30 => (6, 30),
        Feast::July23 => (7, 23),
        _ => (10, 6),
    }
}

/// A holiday of a year is one of fixed date on its date, or an Islamic one no
/// more than two days from the arithmetic date of some Hijri year that falls in
/// the year.
pub open spec fn of_the_year(h: (Day, Feast), year: int) -> bool {
    if islamic(h.1) {
        exists|hijri: int|
            in_year(#[trigger] hijri_number(h.1, hijri), year) && -2 <= h.0 - hijri_number(
                h.1,
                hijri,
            ) <= 2
    } else {
        h.0 == day_number(year, fixed_day(h.1).0, fixed_day(h.1).1) as Day
    }
}

/// Every holiday of a year is one that the year has.
pub proof fn law_a_years_holidays_are_its_own(year: int, i: int)
    requires
        0 <= i < year_holidays(year).len(),
    ensures
        of_the_year(year_holidays(year)[i], year),
{
    reveal(year_holidays);
    let x = year_holidays(year)[i];
    let a = about_hijri(year);
    let fixed = fixed_holidays(year);
    let one = with_hijri_year(fixed, year, a - 1);
    let two = with_hijri_year(one, year, a);
    let three = with_hijri_year(two, year, a + 1);
    assert(year_holidays(year).contains(x));
    law_ordering_keeps_the_holidays(found_holidays(year), x);
    if fixed.contains(x) {
        let k = choose|k: int| 0 <= k < fixed.len() && fixed[k] == x;
        assert(of_the_year(x, year));
    }
    lemma_with_hijri_year_adds(fixed, year, a - 1, x);
    lemma_with_hijri_year_adds(one, year, a, x);
    lemma_with_hijri_year_adds(two, year, a + 1, x);
    lemma_with_hijri_year_adds(three, year, a + 2, x);
}

proof fn lemma_with_hijri_year_adds(
    list: Seq<(Day, Feast)>,
    year: int,
    hijri: int,
    x: (Day, Feast),
)
    ensures
        with_hijri_year(list, year, hijri).contains(x) ==> list.contains(x) || of_the_year(x, year),
{
    reveal(with_hijri_year);
    let a = with_islamic(list, year, hijri, Feast::EidAlFitr);
    let b = with_islamic(a, year, hijri, Feast::EidAlAdha);
    let c = with_islamic(b, year, hijri, Feast::IslamicNewYear);
    lemma_with_islamic_adds(list, year, hijri, Feast::EidAlFitr, x);
    lemma_with_islamic_adds(a, year, hijri, Feast::EidAlAdha, x);
    lemma_with_islamic_adds(b, year, hijri, Feast::IslamicNewYear, x);
    lemma_with_islamic_adds(c, year, hijri, Feast::ProphetsBirthday, x);
}

proof fn lemma_with_islamic_adds(
    list: Seq<(Day, Feast)>,
    year: int,
    hijri: int,
    f: Feast,
    x: (Day, Feast),
)
    requires
        islamic(f),
    ensures
        with_islamic(list, year, hijri, f).contains(x) ==> list.contains(x) || of_the_year(x, year),
{
    broadcast use vstd::seq_lib::group_seq_properties;

    let date = expected_date(hijri, hijri_day(f).0, hijri_day(f).1);
    if with_islamic(list, year, hijri, f).contains(x) && !list.contains(x) {
        assert(date is Some);
        assert(date->0 == hijri_number(f, hijri));
        assert(x == (believed_date(year, f, date->0), f));
        assert(in_year(hijri_number(x.1, hijri), year));
        assert(MIN_DAY <= date->0 <= MAX_DAY);
        assert(-2 <= x.0 - hijri_number(x.1, hijri) <= 2);
    }
}

/// Every year has its holidays of fixed date, each on its date.
pub proof fn law_every_year_has_its_fixed_holidays(year: int, f: Feast)
    requires
        valid_year(year),
        !islamic(f),
    ensures
        year_holidays(year).contains(
            (day_number(year, fixed_day(f).0, fixed_day(f).1) as Day, f),
        ),
{
    reveal(year_holidays);
    let x = (day_number(year, fixed_day(f).0, fixed_day(f).1) as Day, f);
    let a = about_hijri(year);
    let fixed = fixed_holidays(year);
    let k: int = match f {
        Feast::CopticChristmas => 0,
        Feast::January25 => 1,
        Feast::SinaiLiberation => 2,
        Feast::LabourDay => 3,
        Feast::June30 => 4,
        Feast::July23 => 5,
        _ => 6,
    };
    assert(fixed[k] == x);
    assert(fixed.contains(x));
    let one = with_hijri_year(fixed, year, a - 1);
    let two = with_hijri_year(one, year, a);
    let three = with_hijri_year(two, year, a + 1);
    lemma_with_hijri_year_keeps(fixed, year, a - 1, x);
    lemma_with_hijri_year_keeps(one, year, a, x);
    lemma_with_hijri_year_keeps(two, year, a + 1, x);
    lemma_with_hijri_year_keeps(three, year, a + 2, x);
    law_ordering_keeps_the_holidays(found_holidays(year), x);
}

/// The holidays between two dates are those of the list from the one to the
/// other, both with them.
pub proof fn law_holidays_between_are_within(
    list: Seq<(Day, Feast)>,
    from: Day,
    to: Day,
    h: (Day, Feast),
)
    ensures
        between(list, from, to).contains(h) <==> list.contains(h) && from <= h.0 && h.0 <= to,
{
    let f = |h: (Day, Feast)| from <= h.0 <= to;
    if between(list, from, to).contains(h) {
        let i = choose|i: int|
            0 <= i < between(list, from, to).len() && between(list, from, to)[i] == h;
        list.lemma_filter_contains_rev(f, h);
        list.lemma_filter_pred(f, i);
    }
    if list.contains(h) && from <= h.0 && h.0 <= to {
        list.lemma_filter_contains(f, choose|i: int| 0 <= i < list.len() && list[i] == h);
    }
}

/// The holidays of some years are those of each.
pub proof fn law_holidays_of_years_are_each_years(first: int, end: int, h: (Day, Feast))
    ensures
        holidays_of_years(first, end).contains(h) <==> exists|y: int|
            first <= y < end && #[trigger] year_holidays(y).contains(h),
    decreases end - first,
{
    broadcast use vstd::seq_lib::group_seq_properties;

    if end > first {
        law_holidays_of_years_are_each_years(first, end - 1, h);
        let a = holidays_of_years(first, end - 1);
        let b = year_holidays(end - 1);
        assert((a + b).contains(h) <==> a.contains(h) || b.contains(h));
    }
}

/// Every suggestion is shown under its own names on its own date, and a decision
/// changes neither.
pub proof fn law_a_suggestion_keeps_its_names(
    suggested: Seq<(Day, Feast)>,
    stored: Seq<Shown>,
    k: int,
)
    requires
        0 <= k < suggested.len(),
    ensures
        exists|i: int|
            0 <= i < merged(suggested, stored).len() && (#[trigger] merged(
                suggested,
                stored,
            )[i]).on_date == suggested[k].0 && merged(suggested, stored)[i].en
                == suggested[k].1.en() && merged(suggested, stored)[i].ar == suggested[k].1.ar(),
{
    let list = overlaid_all(undecided(suggested), stored);
    lemma_overlays_keep_names(undecided(suggested), stored, k);
    let x = list[k];
    assert(list.contains(x));
    lemma_shown_by_date_holds(list, x);
    let all = merged(suggested, stored);
    let i = choose|i: int| 0 <= i < all.len() && all[i] == x;
    assert(all[i].on_date == suggested[k].0);
}

proof fn lemma_overlays_keep_names(list: Seq<Shown>, stored: Seq<Shown>, k: int)
    requires
        0 <= k < list.len(),
    ensures
        overlaid_all(list, stored).len() >= list.len(),
        overlaid_all(list, stored)[k].on_date == list[k].on_date,
        overlaid_all(list, stored)[k].en == list[k].en,
        overlaid_all(list, stored)[k].ar == list[k].ar,
    decreases stored.len(),
{
    if stored.len() > 0 {
        lemma_overlays_keep_names(list, stored.drop_last(), k);
    }
}

/// Holidays are shown in order of date.
pub proof fn law_holidays_are_shown_by_date(list: Seq<Shown>)
    ensures
        shown_by_date(list).len() == list.len(),
        forall|i: int, j: int|
            0 <= i < j < list.len() ==> (#[trigger] shown_by_date(list)[i]).on_date <= (
            #[trigger] shown_by_date(list)[j]).on_date,
    decreases list.len(),
{
    if list.len() > 0 {
        law_holidays_are_shown_by_date(list.drop_last());
        lemma_with_shown_by_date(shown_by_date(list.drop_last()), list.last());
    }
}

proof fn lemma_with_shown_by_date(list: Seq<Shown>, h: Shown)
    requires
        forall|i: int, j: int|
            0 <= i < j < list.len() ==> (#[trigger] list[i]).on_date <= (#[trigger] list[j]).on_date,
    ensures
        with_shown(list, h).len() == list.len() + 1,
        forall|i: int, j: int|
            0 <= i < j < list.len() + 1 ==> (#[trigger] with_shown(list, h)[i]).on_date <= (
            #[trigger] with_shown(list, h)[j]).on_date,
    decreases list.len(),
{
    let all = with_shown(list, h);
    if list.len() == 0 || list.last().on_date <= h.on_date {
        assert forall|i: int, j: int| 0 <= i < j < all.len() implies (#[trigger] all[i]).on_date <= (
        #[trigger] all[j]).on_date by {
            if j == list.len() && i < list.len() - 1 {
                assert(list[i].on_date <= list[list.len() - 1].on_date);
            }
        }
    } else {
        let short = list.drop_last();
        lemma_with_shown_by_date(short, h);
        let front = with_shown(short, h);
        assert forall|i: int, j: int| 0 <= i < j < all.len() implies (#[trigger] all[i]).on_date <= (
        #[trigger] all[j]).on_date by {
            if j == front.len() {
                lemma_with_shown_holds(short, h, front[i]);
                assert(front.contains(front[i]));
                if front[i] != h {
                    let k = choose|k: int| 0 <= k < short.len() && short[k] == front[i];
                    assert(list[k].on_date <= list[list.len() - 1].on_date);
                }
            } else {
                assert(all[i] == front[i] && all[j] == front[j]);
            }
        }
    }
}

/// A holiday is decided by who publishes the roster everywhere, to one of the
/// two, on a date that has one, in an open month.
pub proof fn law_who_decides_a_holiday(f: HolidayFacts, decision: Seq<char>)
    ensures
        holiday_refused(f, decision) is None <==> {
            &&& f.everywhere is Ok
            &&& decision == "holiday"@ || decision == "dismissed"@
            &&& f.known@.len() > 0
            &&& f.month_open is Ok
        },
{
}

/// Only an absence nobody had a hand in is forgiven: any one hand keeps it.
pub proof fn law_a_hand_in_it_keeps_an_absence(d: MarkedDay)
    ensures
        d.checked_in || d.is_manual || d.created_by_somebody || d.status_overridden || d.cover
            || !d.absent ==> !swept(d),
        swept(
            MarkedDay {
                absent: true,
                checked_in: false,
                is_manual: false,
                created_by_somebody: false,
                status_overridden: false,
                cover: false,
            },
        ),
{
}

/// What deciding a holiday is refused for first.
pub proof fn law_how_deciding_a_holiday_is_refused(f: HolidayFacts, decision: Seq<char>)
    ensures
        ({
            holiday_refused(f, decision) == if f.everywhere is Err {
                Some(f.everywhere->Err_0@)
            } else if !(decision == "holiday"@ || decision == "dismissed"@) {
                Some(ErrorView::BadRequest("decision is holiday or dismissed"@))
            } else if f.known@.len() == 0 {
                Some(ErrorView::NotFound("No public holiday on that date."@))
            } else if f.month_open is Err {
                Some(f.month_open->Err_0@)
            } else {
                None
            }
        }),
{
}

} // verus!
