//! When a roster breaks a labour limit, and by how much.

use vstd::prelude::*;

use crate::calendar::{lasts, law_the_minutes_between_go_by, ClockTime, Day};
use crate::dawam::engine::moves::{
    ascending, has_date, has_week, lemma_broken_is_listed, lemma_by_start_is_in_order,
    lemma_days_ascend, lemma_week_dates_grow, lemma_with_span_at, listed, short_rest,
};
use crate::dawam::engine::{
    already, by_start, day_breaks, days_break, days_in_week, days_of, end_minute, ends_last,
    late_shift, law_days_are_the_spans_dates, learning_stops, lemma_present, limits_broken, minute,
    need_of, no_new_break, present_on, rest_break, rests_break, starts_first, touches_night,
    week_breaks, weeks_break, weeks_of, worked_in_week, worked_on, Break, LabourKind, Limits, Span,
};
use crate::dawam::saturday_of;

verus! {

// ── what each limit counts ──────────────────────────────────────────────────

/// A shift adds its minutes to its own date and to its own week, Saturday to
/// Friday, and to no other.
pub proof fn law_a_shift_counts_on_its_date(spans: Seq<Span>, x: Span, d: Day, week: int, m: int)
    requires
        lasts(x.start as int, x.end as int, m),
        week % 7 == 6,
    ensures
        worked_on(spans.push(x), d) == worked_on(spans, d) + if x.date == d {
            m
        } else {
            0
        },
        worked_in_week(spans.push(x), week) == worked_in_week(spans, week) + if week <= x.date
            < week + 7 {
            m
        } else {
            0
        },
        worked_on(Seq::empty(), d) == 0,
        worked_in_week(Seq::empty(), week) == 0,
{
    assert(spans.push(x).drop_last() =~= spans);
    law_the_minutes_between_go_by(x.start, x.end, m);
}

/// A date is present from its first start to its last end, whatever lies
/// between.
pub proof fn law_presence_is_from_first_to_last(
    spans: Seq<Span>,
    d: Day,
    a: int,
    b: int,
    m: int,
)
    requires
        0 <= a < spans.len(),
        0 <= b < spans.len(),
        spans[a].date == d,
        spans[b].date == d,
        forall|i: int|
            0 <= i < spans.len() && (#[trigger] spans[i]).date == d ==> spans[a].start
                <= spans[i].start && spans[i].end <= spans[b].end,
        lasts(spans[a].start as int, spans[b].end as int, m),
    ensures
        present_on(spans, d) == m,
{
    assert(starts_first(spans, d, spans[a].start));
    assert(ends_last(spans, d, spans[b].end));
    lemma_present(spans, d, spans[a].start, spans[b].end);
    law_the_minutes_between_go_by(spans[a].start, spans[b].end, m);
}

/// A date's hours are too many when more is worked on it than the day's limit,
/// and its presence too long when it is longer than the presence limit.
pub proof fn law_a_days_limits_are_passed(spans: Seq<Span>, l: Limits, d: Day, a: int)
    requires
        0 <= a < spans.len(),
        spans[a].date == d,
    ensures
        listed(limits_broken(spans, l), d as int, LabourKind::DayHours) <==> worked_on(spans, d)
            > l.day,
        listed(limits_broken(spans, l), d as int, LabourKind::Presence) <==> present_on(spans, d)
            > l.presence,
{
    lemma_broken_is_listed(spans, l, d as int, LabourKind::DayHours);
    lemma_broken_is_listed(spans, l, d as int, LabourKind::Presence);
    assert(has_date(spans, d as int));
}

/// A week's hours are too many when more is worked in it than the week's limit,
/// and it has no day of rest when each of its seven dates is worked.
pub proof fn law_a_weeks_limits_are_passed(spans: Seq<Span>, l: Limits, week: Day, a: int)
    requires
        week % 7 == 6,
        week < 2_000_000_000,
        0 <= a < spans.len(),
        week <= spans[a].date < week + 7,
    ensures
        listed(limits_broken(spans, l), week as int, LabourKind::WeekHours) <==> worked_in_week(
            spans,
            week as int,
        ) > l.week,
        listed(limits_broken(spans, l), week as int, LabourKind::WeeklyRest) <==> forall|d: int|
            week <= d < week + 7 ==> #[trigger] has_date(spans, d),
{
    let w = week as int;
    lemma_broken_is_listed(spans, l, w, LabourKind::WeekHours);
    lemma_broken_is_listed(spans, l, w, LabourKind::WeeklyRest);
    assert(saturday_of(spans[a].date) == w);
    assert(has_week(spans, w));
    let days = days_of(spans);
    lemma_days_ascend(spans);
    if forall|d: int| week <= d < week + 7 ==> #[trigger] has_date(spans, d) {
        let all = Seq::new(7, |i: int| (week + i) as Day);
        assert forall|i: int| 0 <= i < all.len() implies days.contains(#[trigger] all[i]) by {
            assert(has_date(spans, week + i));
            law_days_are_the_spans_dates(spans, all[i]);
        }
        lemma_seven_days(week);
        lemma_week_dates_grow(all, days, w);
    } else {
        let d = choose|d: int| week <= d < week + 7 && !#[trigger] has_date(spans, d);
        law_days_are_the_spans_dates(spans, d as Day);
        assert(!days.contains(d as Day));
        let top = if days.len() == 0 {
            0
        } else {
            days.last() + 1
        };
        assert forall|i: int| 0 <= i < days.len() implies #[trigger] days[i] < top by {
            if i < days.len() - 1 {
                assert(days[i] < days[days.len() - 1]);
            }
        }
        lemma_a_missing_day(days, w, d as Day, top);
    }
}

proof fn lemma_seven_days(week: Day)
    requires
        week % 7 == 6,
        week < 2_000_000_000,
    ensures
        ({
            let all = Seq::new(7, |i: int| (week + i) as Day);
            ascending(all) && days_in_week(all, week as int) == 7
        }),
{
    let all = Seq::new(7, |i: int| (week + i) as Day);
    lemma_first_days(week, 7);
    assert(all =~= Seq::new(7, |i: int| (week + i) as Day));
}

proof fn lemma_first_days(week: Day, n: nat)
    requires
        week % 7 == 6,
        week < 2_000_000_000,
        n <= 7,
    ensures
        days_in_week(Seq::new(n, |i: int| (week + i) as Day), week as int) == n,
    decreases n,
{
    if n > 0 {
        let k = (n - 1) as nat;
        lemma_first_days(week, k);
        assert(Seq::new(n, |i: int| (week + i) as Day).drop_last() =~= Seq::new(
            k,
            |i: int| (week + i) as Day,
        ));
    }
}

proof fn lemma_a_missing_day(days: Seq<Day>, week: int, d: Day, top: int)
    requires
        ascending(days),
        week % 7 == 6,
        week <= d < week + 7,
        !days.contains(d),
        forall|i: int| 0 <= i < days.len() ==> #[trigger] days[i] < top,
    ensures
        days_in_week(days, week) <= if top <= week {
            0
        } else if top <= d {
            top - week
        } else if top <= week + 7 {
            top - week - 1
        } else {
            6
        },
    decreases days.len(),
{
    if days.len() > 0 {
        let short = days.drop_last();
        let x = days.last();
        assert(days[days.len() - 1] == x);
        assert(x != d);
        assert forall|i: int| 0 <= i < short.len() implies #[trigger] short[i] < x by {
            assert(days[i] < days[days.len() - 1]);
        }
        assert(!short.contains(d)) by {
            if short.contains(d) {
                let i = choose|i: int| 0 <= i < short.len() && short[i] == d;
                assert(days[i] == d);
            }
        }
        lemma_a_missing_day(short, week, d, x as int);
    }
}

/// Rest is too short before a shift when it starts less than the limit after the
/// end of the one before it, in the order of their starts, on another date. Two
/// shifts of one date are a split day, not a short rest.
pub proof fn law_rest_is_between_dates(spans: Seq<Span>, l: Limits, d: Day)
    requires
        l.rest > 0,
    ensures
        listed(limits_broken(spans, l), d as int, LabourKind::Rest) <==> exists|k: int|
            0 <= k < spans.len() - 1 && (#[trigger] by_start(spans)[k + 1]).date == d && by_start(
                spans,
            )[k].date != d && by_start(spans)[k + 1].start - by_start(spans)[k].end < l.rest
                * 60_000_000_000,
{
    lemma_broken_is_listed(spans, l, d as int, LabourKind::Rest);
    lemma_by_start_is_in_order(spans);
    let t = by_start(spans);
    assert forall|k: int| 0 <= k < t.len() - 1 && #[trigger] t[k + 1].date == d && t[k].date != d
        && t[k + 1].start - t[k].end < l.rest * 60_000_000_000 implies short_rest(
        t,
        l,
        d as int,
        k,
    ) by {
    }
    if exists|k: int| #[trigger] short_rest(t, l, d as int, k) {
        let k = choose|k: int| #[trigger] short_rest(t, l, d as int, k);
        assert(t[k + 1].date == d);
    }
}

/// The order of the starts is an order of the same shifts: none starts before
/// the one ahead of it, and none is lost or added.
pub proof fn law_starts_are_in_order(spans: Seq<Span>)
    ensures
        by_start(spans).len() == spans.len(),
        by_start(spans).to_multiset() == spans.to_multiset(),
        forall|i: int, j: int|
            0 <= i < j < spans.len() ==> (#[trigger] by_start(spans)[i]).start <= (
            #[trigger] by_start(spans)[j]).start,
    decreases spans.len(),
{
    lemma_by_start_is_in_order(spans);
    if spans.len() > 0 {
        let short = spans.drop_last();
        let x = spans.last();
        law_starts_are_in_order(short);
        lemma_by_start_is_in_order(short);
        let at = lemma_with_span_at(by_start(short), x);
        vstd::seq_lib::to_multiset_insert(by_start(short), at, x);
        assert(spans =~= short.push(x));
        vstd::seq_lib::to_multiset_build(short, x);
    } else {
        assert(by_start(spans) =~= spans);
    }
}

/// A broken limit says by how much: more worked or present than the limit of its
/// kind allows, or less rest than it asks for.
pub open spec fn says_how_much(spans: Seq<Span>, l: Limits, b: Break) -> bool {
    match b.kind {
        LabourKind::DayHours => b.minutes == worked_on(spans, b.date as Day) && b.limit == l.day
            && b.minutes > b.limit,
        LabourKind::Presence => b.minutes == present_on(spans, b.date as Day) && b.limit
            == l.presence && b.minutes > b.limit,
        LabourKind::WeekHours => b.minutes == worked_in_week(spans, b.date) && b.limit == l.week
            && b.minutes > b.limit,
        LabourKind::WeeklyRest => b.minutes == 0 && b.limit == 1440,
        LabourKind::Rest => b.limit == l.rest && b.minutes >= 0 && (l.rest > 0 ==> b.minutes
            < b.limit),
        LabourKind::OvertimeDay => false,
    }
}

proof fn lemma_days_say(spans: Seq<Span>, days: Seq<Day>, l: Limits)
    ensures
        forall|i: int|
            0 <= i < days_break(spans, days, l).len() ==> says_how_much(
                spans,
                l,
                #[trigger] days_break(spans, days, l)[i],
            ),
    decreases days.len(),
{
    if days.len() > 0 {
        lemma_days_say(spans, days.drop_last(), l);
        let before = days_break(spans, days.drop_last(), l);
        let one = day_breaks(spans, days.last(), l);
        let all = days_break(spans, days, l);
        assert forall|i: int| 0 <= i < all.len() implies says_how_much(
            spans,
            l,
            #[trigger] all[i],
        ) by {
            if i < before.len() {
                assert(all[i] == before[i]);
            } else {
                assert(all[i] == one[i - before.len()]);
            }
        }
    }
}

proof fn lemma_weeks_say(spans: Seq<Span>, days: Seq<Day>, weeks: Seq<int>, l: Limits)
    ensures
        forall|i: int|
            0 <= i < weeks_break(spans, days, weeks, l).len() ==> says_how_much(
                spans,
                l,
                #[trigger] weeks_break(spans, days, weeks, l)[i],
            ),
    decreases weeks.len(),
{
    if weeks.len() > 0 {
        lemma_weeks_say(spans, days, weeks.drop_last(), l);
        let before = weeks_break(spans, days, weeks.drop_last(), l);
        let one = week_breaks(spans, days, weeks.last(), l);
        let all = weeks_break(spans, days, weeks, l);
        assert forall|i: int| 0 <= i < all.len() implies says_how_much(
            spans,
            l,
            #[trigger] all[i],
        ) by {
            if i < before.len() {
                assert(all[i] == before[i]);
            } else {
                assert(all[i] == one[i - before.len()]);
            }
        }
    }
}

proof fn lemma_rests_say(spans: Seq<Span>, sorted: Seq<Span>, l: Limits)
    ensures
        forall|i: int|
            0 <= i < rests_break(sorted, l).len() ==> says_how_much(
                spans,
                l,
                #[trigger] rests_break(sorted, l)[i],
            ),
    decreases sorted.len(),
{
    if sorted.len() >= 2 {
        lemma_rests_say(spans, sorted.drop_last(), l);
        let before = rests_break(sorted.drop_last(), l);
        let one = rest_break(sorted[sorted.len() - 2], sorted.last(), l);
        let all = rests_break(sorted, l);
        assert forall|i: int| 0 <= i < all.len() implies says_how_much(
            spans,
            l,
            #[trigger] all[i],
        ) by {
            if i < before.len() {
                assert(all[i] == before[i]);
            } else {
                assert(all[i] == one[i - before.len()]);
            }
        }
    }
}

/// Every broken limit says by how much it is broken.
pub proof fn law_a_broken_limit_says_by_how_much(spans: Seq<Span>, l: Limits, i: int)
    requires
        0 <= i < limits_broken(spans, l).len(),
    ensures
        says_how_much(spans, l, limits_broken(spans, l)[i]),
{
    let days = days_of(spans);
    lemma_days_say(spans, days, l);
    lemma_weeks_say(spans, days, weeks_of(days), l);
    lemma_rests_say(spans, by_start(spans), l);
}

/// A shift that leaves every limit kept always fits, and one that breaks a limit
/// on a date where none of that kind was broken never does.
pub proof fn law_what_keeps_the_limits_fits(spans: Seq<Span>, extra: Span, l: Limits, i: int)
    ensures
        limits_broken(spans.push(extra), l).len() == 0 ==> no_new_break(spans, extra, l),
        0 <= i < limits_broken(spans.push(extra), l).len() && (forall|j: int|
            0 <= j < limits_broken(spans, l).len() ==> (#[trigger] limits_broken(spans, l)[j]).date
                != limits_broken(spans.push(extra), l)[i].date || limits_broken(spans, l)[j].kind
                != limits_broken(spans.push(extra), l)[i].kind) ==> !no_new_break(spans, extra, l),
{
    let after = limits_broken(spans.push(extra), l);
    if 0 <= i < after.len() && (forall|j: int|
        0 <= j < limits_broken(spans, l).len() ==> (#[trigger] limits_broken(spans, l)[j]).date
            != after[i].date || limits_broken(spans, l)[j].kind != after[i].kind) {
        assert(!already(limits_broken(spans, l), after[i]));
    }
}

// ── late shifts ─────────────────────────────────────────────────────────────

/// A minute of the day lies in a night, which goes over midnight unless it ends
/// after it starts.
pub open spec fn by_night(m: int, from: int, to: int) -> bool {
    if from < to {
        from <= m < to
    } else {
        from <= m || m < to
    }
}

/// A shift is late when it goes over midnight, when it starts at four in the
/// afternoon or after, and when a minute of it lies in the night; and only
/// then.
pub proof fn law_a_late_shift_touches_the_night(
    start: ClockTime,
    end: ClockTime,
    crosses_midnight: bool,
    night: (ClockTime, ClockTime),
)
    requires
        0 <= start < 86_400_000_000_000,
        0 <= end < 86_400_000_000_000,
        0 <= night.0 < 86_400_000_000_000,
        0 <= night.1 < 86_400_000_000_000,
        start / 60_000_000_000 < end / 60_000_000_000,
    ensures
        late_shift(start, end, crosses_midnight, night) <==> {
            ||| crosses_midnight
            ||| start >= 16 * 3_600_000_000_000
            ||| exists|m: int|
                start as int / 60_000_000_000 <= m < end as int / 60_000_000_000 && #[trigger]
                    by_night(m, night.0 as int / 60_000_000_000, night.1 as int / 60_000_000_000)
        },
{
    let s = minute(start);
    let e = minute(end);
    let ns = minute(night.0);
    let ne = minute(night.1);
    if touches_night(s, e, ns, ne) {
        let m = if ns < ne {
            if s >= ns {
                s
            } else {
                ns
            }
        } else if e > ns {
            if s >= ns {
                s
            } else {
                ns
            }
        } else {
            s
        };
        assert(s <= m < e && by_night(m, ns, ne));
    }
}

/// A shift that ends no later in the day than it starts, or is said to go over
/// midnight, ends on the next day.
pub proof fn law_a_shift_may_end_the_next_day(
    start: ClockTime,
    end: ClockTime,
    crosses_midnight: bool,
)
    ensures
        ({
            let from = start as int / 60_000_000_000;
            let to = end as int / 60_000_000_000;
            &&& crosses_midnight || to <= from ==> end_minute(start, end, crosses_midnight) == to
                + 24 * 60
            &&& !crosses_midnight && from < to ==> end_minute(start, end, crosses_midnight) == to
        }),
{
}

/// An hour without orders needs nobody, and one with any needs somebody; fewer
/// than one order to a person count as one.
pub proof fn law_an_hour_that_sells_needs_somebody(orders: int, weeks: int, per_staff: int)
    requires
        weeks > 0,
    ensures
        orders <= 0 ==> need_of(orders, weeks, per_staff) == 0,
        orders > 0 ==> 1 <= need_of(orders, weeks, per_staff) <= i32::MAX,
        per_staff <= 1 ==> need_of(orders, weeks, per_staff) == need_of(orders, weeks, 1),
{
    if orders > 0 {
        let per = weeks * if per_staff >= 1 {
            per_staff
        } else {
            1
        };
        assert(per >= 1) by (nonlinear_arith)
            requires
                weeks > 0,
                per == weeks * if per_staff >= 1 {
                    per_staff
                } else {
                    1
                },
        ;
        assert((orders + per - 1) / per >= 1) by (nonlinear_arith)
            requires
                orders >= 1,
                per >= 1,
        ;
    }
}

/// Learning pauses where fewer than two in five of at least five decisions
/// accepted: never on fewer decisions, and never for one more acceptance.
pub proof fn law_learning_pauses_below_two_in_five(accepted: int, decided: int)
    ensures
        learning_stops(accepted, decided) <==> decided >= 5 && 5 * accepted < 2 * decided,
        learning_stops(accepted + 1, decided) ==> learning_stops(accepted, decided),
{
}

} // verus!
