//! Preferences, and how many people a week needs.

use vstd::prelude::*;

use crate::calendar::{ClockTime, Id};
use crate::dawam::engine::{need_of, pos_need};
use crate::errors::{bad_request, AppError, ErrorView};
use crate::ordered::{put_item, sorted_once};
use crate::text::{blank_to_none, chars_of, maybe, same_text, unblank};

verus! {

/// The longest note a change of preferences carries, in characters.
pub const MAX_NOTE: usize = 300;

/// When someone would rather work, and when they can't.
pub struct Preferences {
    /// `morning` · `evening`
    pub pref_time: Option<String>,
    /// Days I can't work: 0 = Sunday … 6 = Saturday.
    pub cant_work_days: Vec<i16>,
    /// Why (a manager's override).
    pub note: Option<String>,
}

/// Preferences there can be: a time there is, days of the week, and a note no
/// longer than it may be.
pub open spec fn can_prefer(body: Preferences) -> bool {
    &&& match maybe(body.pref_time) {
        Some(p) => p == "morning"@ || p == "evening"@,
        None => true,
    }
    &&& forall|i: int|
        0 <= i < body.cant_work_days@.len() ==> 0 <= #[trigger] body.cant_work_days@[i] <= 6
    &&& match maybe(body.note) {
        Some(n) => n.len() <= MAX_NOTE,
        None => true,
    }
}

fn known_days(days: &Vec<i16>) -> (r: bool)
    ensures
        r == forall|i: int| 0 <= i < days@.len() ==> 0 <= #[trigger] days@[i] <= 6,
{
    let mut i: usize = 0;
    while i < days.len()
        invariant
            i <= days@.len(),
            forall|k: int| 0 <= k < i ==> 0 <= #[trigger] days@[k] <= 6,
        decreases days@.len() - i,
    {
        if days[i] < 0 || days[i] > 6 {
            return false;
        }
        i += 1;
    }
    true
}

/// The days someone can't work, in order and once each.
pub fn check_preferences(body: &Preferences) -> (r: Result<Vec<i16>, AppError>)
    ensures
        match r {
            Ok(days) => can_prefer(*body) && days@ == sorted_once(body.cant_work_days@),
            Err(e) => !can_prefer(*body) && e@ == ErrorView::BadRequest("Invalid preferences"@),
        },
{
    let time: bool = match &body.pref_time {
        Some(p) => same_text(p.as_str(), "morning") || same_text(p.as_str(), "evening"),
        None => true,
    };
    let note: bool = match &body.note {
        Some(n) => chars_of(n.as_str()).len() <= MAX_NOTE,
        None => true,
    };
    if !time || !known_days(&body.cant_work_days) || !note {
        return Err(bad_request("Invalid preferences"));
    }
    let days: &Vec<i16> = &body.cant_work_days;
    let mut out: Vec<i16> = Vec::new();
    let mut i: usize = 0;
    while i < days.len()
        invariant
            i <= days@.len(),
            out@ == sorted_once(days@.take(i as int)),
        decreases days@.len() - i,
    {
        assert(days@.take(i + 1).drop_last() =~= days@.take(i as int));
        put_item(&mut out, days[i]);
        i += 1;
    }
    assert(days@.take(days@.len() as int) =~= days@);
    Ok(out)
}

/// Who set someone's preferences last.
#[derive(Debug, Clone, Copy, PartialEq, Eq, Structural)]
pub enum SetBy {
    Employee,
    Manager,
}

/// What saving preferences stores and logs.
#[derive(Debug, Clone, PartialEq, Eq)]
pub struct SavedPreferences {
    pub cant_work_days: Vec<i16>,
    pub note: Option<String>,
    pub set_by: SetBy,
    /// The person is told: someone else changed them.
    pub tell: bool,
}

/// Save preferences: someone's own, or a manager's override, of which the
/// person is told.
pub fn save_preferences(body: &Preferences, manager: bool, own: bool) -> (r: Result<
    SavedPreferences,
    AppError,
>)
    ensures
        match r {
            Ok(s) => {
                &&& can_prefer(*body)
                &&& s.cant_work_days@ == sorted_once(body.cant_work_days@)
                &&& maybe(s.note) == unblank(maybe(body.note))
                &&& s.set_by == if manager {
                    SetBy::Manager
                } else {
                    SetBy::Employee
                }
                &&& s.tell == (manager && !own)
            },
            Err(e) => !can_prefer(*body) && e@ == ErrorView::BadRequest("Invalid preferences"@),
        },
{
    let days: Vec<i16> = check_preferences(body)?;
    Ok(
        SavedPreferences {
            cant_work_days: days,
            note: blank_to_none(&body.note),
            set_by: if manager {
                SetBy::Manager
            } else {
                SetBy::Employee
            },
            tell: manager && !own,
        },
    )
}

/// One band of the weekly coverage grid.
#[derive(Debug, Clone, Copy, PartialEq, Eq, Structural)]
pub struct CoverageNeed {
    /// 0 = Sunday … 6 = Saturday.
    pub day_of_week: i16,
    pub band_start: ClockTime,
    pub band_end: ClockTime,
    pub staff: i16,
    /// Only people of this department count toward it.
    pub department_id: Option<Id>,
}

/// The orders of one hour of one weekday over some weeks.
#[derive(Debug, Clone, Copy, PartialEq, Eq, Structural)]
pub struct HourOrders {
    pub day_of_week: i16,
    pub hour: u8,
    pub orders: i64,
}

/// The weeks of sales a need is derived from.
pub const SALES_WEEKS: u8 = 8;

/// An hour on the clock, in nanoseconds.
pub const HOUR: ClockTime = 3_600_000_000_000;

/// The last second of the day.
pub const LAST_SECOND: ClockTime = 86_399_000_000_000;

/// The lowest sixteen bits of a number, read as an `i16`.
pub open spec fn low_bits(n: int) -> int {
    if n % 65_536 < 32_768 {
        n % 65_536
    } else {
        n % 65_536 - 65_536
    }
}

fn lowest(n: i32) -> (r: i16)
    requires
        n >= 0,
    ensures
        r == low_bits(n as int),
{
    let m: i32 = n % 65_536;
    if m < 32_768 {
        m as i16
    } else {
        (m - 65_536) as i16
    }
}

/// The people an hour's orders ask for.
pub open spec fn people_for(h: HourOrders, per_staff: i32) -> int {
    need_of(h.orders as int, SALES_WEEKS as int, per_staff as int)
}

/// The band an hour's orders ask for.
pub open spec fn hour_need(h: HourOrders, per_staff: i32) -> CoverageNeed {
    CoverageNeed {
        day_of_week: h.day_of_week,
        band_start: (h.hour * HOUR) as ClockTime,
        band_end: if h.hour < 23 {
            ((h.hour + 1) * HOUR) as ClockTime
        } else {
            LAST_SECOND
        },
        staff: low_bits(people_for(h, per_staff)) as i16,
        department_id: None,
    }
}

/// The bands the sales suggest: one for each hour that needs anyone.
pub open spec fn sales_needs(hours: Seq<HourOrders>, per_staff: i32) -> Seq<CoverageNeed>
    decreases hours.len(),
{
    if hours.len() == 0 {
        Seq::empty()
    } else {
        let before = sales_needs(hours.drop_last(), per_staff);
        if people_for(hours.last(), per_staff) > 0 {
            before.push(hour_need(hours.last(), per_staff))
        } else {
            before
        }
    }
}

/// What the engine goes by.
#[derive(Debug, Clone, Copy, PartialEq, Eq, Structural)]
pub enum CoverageSource {
    /// The typed grid.
    Grid,
    /// Derived from sales.
    Pos,
    /// The standing pattern's own coverage.
    Pattern,
}

impl CoverageSource {
    /// The name it is shown under.
    pub open spec fn name(self) -> Seq<char> {
        match self {
            CoverageSource::Grid => "grid"@,
            CoverageSource::Pos => "pos"@,
            CoverageSource::Pattern => "pattern"@,
        }
    }

    pub fn as_str(&self) -> (r: &'static str)
        ensures
            r@ == self.name(),
    {
        match self {
            CoverageSource::Grid => "grid",
            CoverageSource::Pos => "pos",
            CoverageSource::Pattern => "pattern",
        }
    }
}

/// What POS sales suggest, when POS is on, and what the engine goes by: the
/// typed grid where there is one, else the sales, else the pattern.
pub fn get_coverage(
    typed: usize,
    pos_on: bool,
    hours: &Vec<HourOrders>,
    orders_per_staff: i32,
) -> (r: (Vec<CoverageNeed>, CoverageSource))
    requires
        forall|i: int| 0 <= i < hours@.len() ==> (#[trigger] hours@[i]).hour < 24,
    ensures
        r.0@ == if pos_on {
            sales_needs(hours@, orders_per_staff)
        } else {
            Seq::<CoverageNeed>::empty()
        },
        r.1 == if typed > 0 {
            CoverageSource::Grid
        } else if r.0@.len() > 0 {
            CoverageSource::Pos
        } else {
            CoverageSource::Pattern
        },
{
    let mut derived: Vec<CoverageNeed> = Vec::new();
    if pos_on {
        let mut i: usize = 0;
        while i < hours.len()
            invariant
                i <= hours@.len(),
                forall|k: int| 0 <= k < hours@.len() ==> (#[trigger] hours@[k]).hour < 24,
                derived@ == sales_needs(hours@.take(i as int), orders_per_staff),
            decreases hours@.len() - i,
        {
            assert(hours@.take(i + 1).drop_last() =~= hours@.take(i as int));
            let h: HourOrders = hours[i];
            let staff: i32 = pos_need(h.orders, SALES_WEEKS, orders_per_staff);
            if staff > 0 {
                let need: CoverageNeed = CoverageNeed {
                    day_of_week: h.day_of_week,
                    band_start: h.hour as u64 * HOUR,
                    band_end: if h.hour < 23 {
                        (h.hour as u64 + 1) * HOUR
                    } else {
                        LAST_SECOND
                    },
                    staff: lowest(staff),
                    department_id: None,
                };
                derived.push(need);
            }
            i += 1;
        }
        assert(hours@.take(hours@.len() as int) =~= hours@);
    }
    let source: CoverageSource = if typed > 0 {
        CoverageSource::Grid
    } else if derived.len() > 0 {
        CoverageSource::Pos
    } else {
        CoverageSource::Pattern
    };
    (derived, source)
}

/// Preferences are taken for mornings, evenings or neither, for days of the week,
/// with a note of three hundred characters at most.
pub proof fn law_which_preferences_are_taken(body: Preferences)
    ensures
        can_prefer(body) <==> {
            &&& body.pref_time is None || (body.pref_time->0)@ == "morning"@ || (
            body.pref_time->0)@ == "evening"@
            &&& forall|i: int|
                0 <= i < body.cant_work_days@.len() ==> 0 <= #[trigger] body.cant_work_days@[i]
                    && body.cant_work_days@[i] < 7
            &&& body.note is None || (body.note->0)@.len() <= 300
        },
{
}

/// The people an hour asks for are the fewest who take its orders of eight weeks
/// at so many each a week.
pub proof fn law_an_hour_asks_for_the_fewest(h: HourOrders, per_staff: i32, people: int)
    requires
        per_staff >= 1,
        h.orders > 0,
        people_for(h, per_staff) < i32::MAX,
    ensures
        people * (8 * per_staff) >= h.orders <==> people >= people_for(h, per_staff),
{
    crate::dawam::engine::law_need_is_the_fewest(
        h.orders as int,
        8,
        per_staff as int,
        people,
    );
}

/// A band covers its own hour, from its start to the next one's or to the day's
/// last second, for everybody of the branch.
pub proof fn law_a_band_covers_its_hour(h: HourOrders, per_staff: i32)
    requires
        h.hour < 24,
        people_for(h, per_staff) < 32_768,
    ensures
        ({
            let b = hour_need(h, per_staff);
            &&& b.day_of_week == h.day_of_week
            &&& b.band_start == h.hour * 3_600_000_000_000
            &&& h.hour < 23 ==> b.band_end == b.band_start + 3_600_000_000_000
            &&& h.hour == 23 ==> b.band_end == 24 * 3_600_000_000_000 - 1_000_000_000
            &&& b.staff == people_for(h, per_staff)
            &&& b.department_id is None
        }),
{
    assert(people_for(h, per_staff) >= 0) by {
        crate::dawam::engine::limits::law_an_hour_that_sells_needs_somebody(
            h.orders as int,
            8,
            per_staff as int,
        );
    }
}

/// Sales suggest a band for each hour that sells, in order, and for no other.
pub proof fn law_hours_that_sell_have_a_band(
    hours: Seq<HourOrders>,
    h: HourOrders,
    per_staff: i32,
)
    ensures
        sales_needs(hours.push(h), per_staff) == if h.orders > 0 {
            sales_needs(hours, per_staff).push(hour_need(h, per_staff))
        } else {
            sales_needs(hours, per_staff)
        },
        sales_needs(Seq::empty(), per_staff).len() == 0,
{
    assert(hours.push(h).drop_last() =~= hours);
    crate::dawam::engine::limits::law_an_hour_that_sells_needs_somebody(
        h.orders as int,
        8,
        per_staff as int,
    );
}

} // verus!
