//! Location privacy: the notice is accepted per employee and phone. A new phone
//! starts unaccepted, and so does a restored session on it until the person
//! says yes: pings, and punches that carry a location, are refused before that.
//!
//! Exact coordinates are taken out once the payroll month they belong to is
//! approved. Distances, inside or outside, times and flags are kept.

use vstd::prelude::*;

use crate::attendance::punches::{
    check_in_refused, check_out_refused, CheckInFacts, CheckOutFacts,
};
use crate::calendar::{valid_day, Day, Moment};
use crate::dawam::presence::covers::{cover_refused, CoverFacts, OpenCover};
use crate::dawam::presence::pings::PingFacts;
use crate::errors::{coded, coded_view, either, given, refusal, AppError, ErrorView};

verus! {

/// The refusal before the notice is accepted on this phone.
pub open spec fn notice_refusal() -> ErrorView {
    coded_view(403, "PRIVACY_NOT_ACCEPTED"@, "Accept the location notice in the app first."@)
}

/// The refusal before the notice is accepted on this phone.
pub fn not_accepted() -> (e: AppError)
    ensures
        e@ == notice_refusal(),
{
    coded(403, "PRIVACY_NOT_ACCEPTED", "Accept the location notice in the app first.")
}

/// Location is collected only after the notice was accepted on this phone.
pub fn require_accepted(accepted_at: Option<Moment>) -> (r: Result<(), AppError>)
    ensures
        refusal(r) == given(accepted_at is None, notice_refusal()),
{
    match accepted_at {
        Some(_) => Ok(()),
        None => Err(not_accepted()),
    }
}

/// When a phone accepted the notice, once the person says yes at `now`: the
/// first time counts.
pub fn accept(accepted_at: Option<Moment>, now: Moment) -> (r: Moment)
    ensures
        r == match accepted_at {
            Some(t) => t,
            None => now,
        },
{
    match accepted_at {
        Some(t) => t,
        None => now,
    }
}

/// A place on the ground, in billionths of a degree.
#[derive(Debug, Clone, Copy, PartialEq, Eq, Structural)]
pub struct Coordinates {
    pub latitude: i64,
    pub longitude: i64,
}

/// A punch or a ping that carries a location.
#[derive(Debug, Clone, Copy, PartialEq, Eq, Structural)]
pub struct Located {
    /// The business date of the record it was taken on.
    pub business_date: Day,
    pub at: Option<Moment>,
    pub place: Option<Coordinates>,
    pub distance_meters: Option<i64>,
    pub inside: bool,
}

/// The same without where exactly it was.
pub open spec fn placeless(x: Located) -> Located {
    Located {
        business_date: x.business_date,
        at: x.at,
        place: None,
        distance_meters: x.distance_meters,
        inside: x.inside,
    }
}

/// What is left of the locations of a month's days.
pub open spec fn wiped(list: Seq<Located>, from: Day, to: Day) -> Seq<Located> {
    Seq::new(
        list.len(),
        |i: int|
            if from <= list[i].business_date <= to {
                placeless(list[i])
            } else {
                list[i]
            },
    )
}

/// How many of the locations of a month's days have a place.
pub open spec fn placed(list: Seq<Located>, from: Day, to: Day) -> int
    decreases list.len(),
{
    if list.len() == 0 {
        0
    } else {
        placed(list.drop_last(), from, to) + if from <= list.last().business_date <= to
            && list.last().place is Some {
            1int
        } else {
            0
        }
    }
}

/// Take the exact coordinates out of the days `from..=to`. The rows touched.
pub fn wipe_period_coordinates(list: &mut Vec<Located>, from: Day, to: Day) -> (touched: usize)
    ensures
        final(list)@ == wiped(old(list)@, from, to),
        touched == placed(old(list)@, from, to),
{
    let ghost start = list@;
    let mut touched: usize = 0;
    let mut i: usize = 0;
    while i < list.len()
        invariant
            i <= list@.len(),
            list@.len() == start.len(),
            touched <= i,
            touched == placed(start.take(i as int), from, to),
            forall|k: int| 0 <= k < i ==> #[trigger] list@[k] == wiped(start, from, to)[k],
            forall|k: int| i <= k < start.len() ==> #[trigger] list@[k] == start[k],
        decreases start.len() - i,
    {
        assert(start.take(i + 1).drop_last() =~= start.take(i as int));
        let x: Located = list[i];
        assert(x == start[i as int]);
        if from <= x.business_date && x.business_date <= to && x.place.is_some() {
            list.set(
                i,
                Located {
                    business_date: x.business_date,
                    at: x.at,
                    place: None,
                    distance_meters: x.distance_meters,
                    inside: x.inside,
                },
            );
            touched += 1;
        }
        i += 1;
    }
    assert(start.take(start.len() as int) =~= start);
    assert(list@ =~= wiped(start, from, to));
    touched
}

/// A payroll period as the wipe sees it.
#[derive(Debug, Clone, Copy, PartialEq, Eq, Structural)]
pub struct ApprovedMonth {
    /// Approved, paid or closed.
    pub approved: bool,
    /// Its coordinates were taken out before.
    pub wiped: bool,
    pub end_date: Day,
    /// A punch or a ping of its days has a place.
    pub located: bool,
}

/// How far back a month is looked at again.
pub const LATE_WIPE_DAYS: i32 = 120;

/// An approved month is due where it was not wiped yet, or where something with
/// a place was added to a recent one since.
pub fn wipe_due(m: &ApprovedMonth, today: Day) -> (r: bool)
    requires
        valid_day(today),
    ensures
        r == (m.approved && (!m.wiped || m.end_date >= today - LATE_WIPE_DAYS && m.located)),
        r <==> m.approved && (m.wiped ==> m.located && today - m.end_date <= 120),
{
    m.approved && (!m.wiped || (m.end_date >= today - LATE_WIPE_DAYS && m.located))
}

/// After the wipe no day of the month has a place, everything else is as it
/// was, and a second wipe touches nothing.
pub proof fn law_a_wiped_month_has_no_place(list: Seq<Located>, from: Day, to: Day)
    ensures
        forall|i: int|
            0 <= i < list.len() && from <= list[i].business_date <= to ==> (#[trigger] wiped(
                list,
                from,
                to,
            )[i]).place is None,
        forall|i: int|
            0 <= i < list.len() ==> placeless(#[trigger] wiped(list, from, to)[i]) == placeless(
                list[i],
            ),
        placed(wiped(list, from, to), from, to) == 0,
        wiped(wiped(list, from, to), from, to) == wiped(list, from, to),
{
    lemma_none_placed(list, from, to);
    assert(wiped(wiped(list, from, to), from, to) =~= wiped(list, from, to));
}

proof fn lemma_none_placed(list: Seq<Located>, from: Day, to: Day)
    ensures
        placed(wiped(list, from, to), from, to) == 0,
    decreases list.len(),
{
    if list.len() > 0 {
        lemma_none_placed(list.drop_last(), from, to);
        assert(wiped(list, from, to).drop_last() =~= wiped(list.drop_last(), from, to));
    }
}

/// No location before consent: where the notice was not accepted on the phone, a
/// ping and a check-out are refused for that, and a check-in and a cover are
/// refused (for that, once the business's rules are saved).
pub proof fn law_no_location_before_consent(
    ping: PingFacts,
    came: CheckInFacts,
    left: CheckOutFacts,
    cover: CoverFacts,
    ask: OpenCover,
)
    requires
        refusal(came.accepted) == Some(notice_refusal()),
        refusal(left.accepted) == Some(notice_refusal()),
        refusal(cover.accepted) == Some(notice_refusal()),
    ensures
        either(Some(notice_refusal()), ping.refused()) == Some(notice_refusal()),
        check_out_refused(left) == Some(notice_refusal()),
        check_in_refused(came) is Some,
        came.rules_saved ==> check_in_refused(came) == Some(notice_refusal()),
        cover_refused(cover, ask) is Some,
        cover.rules is Ok ==> cover_refused(cover, ask) == Some(notice_refusal()),
{
}

/// A wipe takes the place and nothing else: the day, the time, the distance and
/// whether it was inside stay, and a day outside the month keeps its place too.
pub proof fn law_a_wipe_takes_the_place_alone(list: Seq<Located>, from: Day, to: Day, i: int)
    requires
        0 <= i < list.len(),
    ensures
        ({
            let x = wiped(list, from, to)[i];
            &&& x.business_date == list[i].business_date
            &&& x.at == list[i].at
            &&& x.distance_meters == list[i].distance_meters
            &&& x.inside == list[i].inside
            &&& x.place is Some <==> list[i].place is Some && (list[i].business_date < from || to
                < list[i].business_date)
            &&& x.place is Some ==> x.place == list[i].place
        }),
        wiped(list, from, to).len() == list.len(),
{
}

/// A wipe touches what has a place in the month, each once.
pub proof fn law_a_wipe_touches_what_has_a_place(
    list: Seq<Located>,
    x: Located,
    from: Day,
    to: Day,
)
    ensures
        placed(list.push(x), from, to) == placed(list, from, to) + if x.place is Some && from
            <= x.business_date && x.business_date <= to {
            1int
        } else {
            0
        },
        placed(Seq::empty(), from, to) == 0,
{
    assert(list.push(x).drop_last() =~= list);
}

} // verus!
