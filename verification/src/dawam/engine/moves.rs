//! What taking a shift off a roster, or listing it elsewhere, does to the
//! labour limits: nothing new is broken.

use vstd::prelude::*;

use crate::calendar::{minutes_between, whole_units, Day, Moment, NANOS_PER_MINUTE};
use crate::dawam::engine::{
    already, by_start, day_breaks, days_break, days_in_week, days_of, ends_last,
    law_days_are_the_spans_dates, lemma_a_first_start, lemma_a_last_end, lemma_with_day,
    limits_broken, present_on, rest_break, rests_break, starts_first, week_breaks, weeks_break,
    weeks_of, with_day, with_span, worked_in_week, worked_on, Break, LabourKind, Limits, Span,
};
use crate::dawam::saturday_of;

verus! {

// ── the order of starts ─────────────────────────────────────────────────────

/// In order of their start.
pub open spec fn in_start_order(s: Seq<Span>) -> bool {
    forall|i: int, j: int| 0 <= i < j < s.len() ==> (#[trigger] s[i]).start <= (#[trigger] s[j]).start
}

/// A span goes in at a place: what is before starts no later, what is after
/// starts later.
pub open spec fn goes_at(s: Seq<Span>, x: Span, at: int) -> bool {
    &&& 0 <= at <= s.len()
    &&& forall|i: int| 0 <= i < at ==> (#[trigger] s[i]).start <= x.start
    &&& forall|i: int| at <= i < s.len() ==> (#[trigger] s[i]).start > x.start
}

pub(crate) proof fn lemma_with_span_at(s: Seq<Span>, x: Span) -> (at: int)
    requires
        in_start_order(s),
    ensures
        goes_at(s, x, at),
        with_span(s, x) == s.insert(at, x),
        in_start_order(with_span(s, x)),
    decreases s.len(),
{
    if s.len() == 0 || s.last().start <= x.start {
        assert(s.push(x) =~= s.insert(s.len() as int, x));
        assert forall|i: int| 0 <= i < s.len() implies (#[trigger] s[i]).start <= x.start by {
            if i < s.len() - 1 {
                assert(s[i].start <= s[s.len() - 1].start);
            }
        }
        s.len() as int
    } else {
        let short = s.drop_last();
        let at = lemma_with_span_at(short, x);
        assert(short.insert(at, x).push(s.last()) =~= s.insert(at, x));
        assert forall|i: int| 0 <= i < at implies (#[trigger] s[i]).start <= x.start by {
            assert(short[i] == s[i]);
        }
        assert forall|i: int| at <= i < s.len() implies (#[trigger] s[i]).start > x.start by {
            if i < short.len() {
                assert(short[i] == s[i]);
            }
        }
        assert(in_start_order(s.insert(at, x)));
        at
    }
}

/// The spans in order of their start are in order.
pub(crate) proof fn lemma_by_start_is_in_order(s: Seq<Span>)
    ensures
        in_start_order(by_start(s)),
        by_start(s).len() == s.len(),
    decreases s.len(),
{
    if s.len() > 0 {
        lemma_by_start_is_in_order(s.drop_last());
        let at = lemma_with_span_at(by_start(s.drop_last()), s.last());
    }
}

/// Taking one span off takes it off the ordered spans.
proof fn lemma_by_start_without(s: Seq<Span>, i: int) -> (k: int)
    requires
        0 <= i < s.len(),
    ensures
        0 <= k < s.len(),
        by_start(s)[k] == s[i],
        by_start(s.remove(i)) == by_start(s).remove(k),
    decreases s.len(),
{
    let short = s.drop_last();
    let z = s.last();
    let t = by_start(short);
    lemma_by_start_is_in_order(short);
    let at = lemma_with_span_at(t, z);
    if i == s.len() - 1 {
        assert(s.remove(i) =~= short);
        assert(t.insert(at, z).remove(at) =~= t);
        at
    } else {
        let k = lemma_by_start_without(short, i);
        let r = t.remove(k);
        assert(s.remove(i).drop_last() =~= short.remove(i));
        assert(s.remove(i).last() == z);
        lemma_by_start_is_in_order(short.remove(i));
        let at2 = lemma_with_span_at(r, z);
        assert(forall|j: int| 0 <= j < r.len() ==> #[trigger] r[j] == t[if j < k {
            j
        } else {
            j + 1
        }]);
        if k < at {
            assert(at2 == at - 1) by {
                if at2 < at - 1 {
                    assert(r[at2] == t[if at2 < k {
                        at2
                    } else {
                        at2 + 1
                    }]);
                } else if at2 > at - 1 {
                    assert(r[at - 1] == t[at]);
                }
            }
            assert(r.insert(at2, z) =~= t.insert(at, z).remove(k));
            k
        } else {
            assert(at2 == at) by {
                if at2 < at {
                    assert(r[at2] == t[at2]);
                } else if at2 > at {
                    assert(r[at] == t[at + 1]);
                }
            }
            assert(r.insert(at2, z) =~= t.insert(at, z).remove(k + 1));
            k + 1
        }
    }
}

/// Two spans with different starts go in in either order.
proof fn lemma_with_two(t: Seq<Span>, x: Span, z: Span)
    requires
        in_start_order(t),
        x.start < z.start,
    ensures
        with_span(with_span(t, x), z) == with_span(with_span(t, z), x),
{
    let ax = lemma_with_span_at(t, x);
    let az = lemma_with_span_at(t, z);
    let tx = t.insert(ax, x);
    let tz = t.insert(az, z);
    let axz = lemma_with_span_at(tx, z);
    let azx = lemma_with_span_at(tz, x);
    assert(ax <= az) by {
        if az < ax {
            assert(t[az].start > z.start);
            assert(t[az].start <= x.start);
        }
    }
    assert(azx == ax) by {
        if azx < ax {
            assert(tz[azx] == t[azx]);
        } else if ax < azx {
            if ax < az {
                assert(tz[ax] == t[ax]);
            } else {
                assert(tz[ax] == z);
            }
        }
    }
    assert(axz == az + 1) by {
        if axz < az + 1 {
            if axz < ax {
                assert(tx[axz] == t[axz]);
            } else if axz == ax {
                assert(tx[axz] == x);
            } else {
                assert(tx[axz] == t[axz - 1]);
            }
        } else if az + 1 < axz {
            assert(tx[az + 1] == t[az]);
        }
    }
    assert(tx.insert(axz, z) =~= tz.insert(azx, x));
}

/// A span that starts with none listed after it is ordered the same wherever it
/// is listed.
proof fn lemma_by_start_moved(r: Seq<Span>, i: int, x: Span)
    requires
        0 <= i <= r.len(),
        forall|j: int| i <= j < r.len() ==> (#[trigger] r[j]).start != x.start,
    ensures
        by_start(r.insert(i, x)) == by_start(r.push(x)),
    decreases r.len(),
{
    if i == r.len() {
        assert(r.insert(i, x) =~= r.push(x));
    } else {
        let short = r.drop_last();
        let z = r.last();
        assert forall|j: int| i <= j < short.len() implies (#[trigger] short[j]).start
            != x.start by {
            assert(short[j] == r[j]);
        }
        lemma_by_start_moved(short, i, x);
        assert(r.insert(i, x).drop_last() =~= short.insert(i, x));
        assert(r.insert(i, x).last() == z);
        assert(short.push(x).drop_last() =~= short);
        assert(r.push(x).drop_last() =~= r);
        assert(r[r.len() - 1].start != x.start);
        lemma_by_start_is_in_order(short);
        assert(by_start(r.insert(i, x)) == with_span(by_start(short.insert(i, x)), z));
        assert(by_start(short.push(x)) == with_span(by_start(short), x));
        assert(by_start(r) == with_span(by_start(short), z));
        assert(by_start(r.push(x)) == with_span(by_start(r), x));
        if x.start < z.start {
            lemma_with_two(by_start(short), x, z);
        } else {
            lemma_with_two(by_start(short), z, x);
        }
    }
}

// ── which limits are broken ─────────────────────────────────────────────────

/// A list has a span on the date.
pub open spec fn has_date(s: Seq<Span>, d: int) -> bool {
    exists|i: int| 0 <= i < s.len() && (#[trigger] s[i]).date == d
}

/// A list has a span in the week.
pub open spec fn has_week(s: Seq<Span>, w: int) -> bool {
    exists|i: int| 0 <= i < s.len() && saturday_of((#[trigger] s[i]).date) == w
}

/// The span after the `k`th has too little rest before it, on the date.
pub open spec fn short_rest(sorted: Seq<Span>, l: Limits, d: int, k: int) -> bool {
    &&& 0 <= k < sorted.len() - 1
    &&& sorted[k].date != sorted[k + 1].date
    &&& minutes_between(sorted[k].end, sorted[k + 1].start) < l.rest
    &&& sorted[k + 1].date == d
}

/// The limit of a kind is broken on the date.
pub open spec fn broke(s: Seq<Span>, l: Limits, d: int, kind: LabourKind) -> bool {
    match kind {
        LabourKind::DayHours => has_date(s, d) && worked_on(s, d as Day) > l.day,
        LabourKind::Presence => has_date(s, d) && present_on(s, d as Day) > l.presence,
        LabourKind::WeekHours => has_week(s, d) && worked_in_week(s, d) > l.week,
        LabourKind::WeeklyRest => has_week(s, d) && days_in_week(days_of(s), d) >= 7,
        LabourKind::Rest => exists|k: int| #[trigger] short_rest(by_start(s), l, d, k),
        LabourKind::OvertimeDay => false,
    }
}

/// A broken limit of the kind on the date is on the list.
pub open spec fn listed(list: Seq<Break>, d: int, kind: LabourKind) -> bool {
    exists|j: int| 0 <= j < list.len() && (#[trigger] list[j]).date == d && list[j].kind == kind
}

proof fn lemma_listed_add(a: Seq<Break>, b: Seq<Break>, d: int, kind: LabourKind)
    ensures
        listed(a + b, d, kind) <==> listed(a, d, kind) || listed(b, d, kind),
{
    let r = a + b;
    if listed(a, d, kind) {
        let j = choose|j: int| 0 <= j < a.len() && (#[trigger] a[j]).date == d && a[j].kind == kind;
        assert(r[j] == a[j]);
    }
    if listed(b, d, kind) {
        let j = choose|j: int| 0 <= j < b.len() && (#[trigger] b[j]).date == d && b[j].kind == kind;
        assert(r[a.len() + j] == b[j]);
    }
    if listed(r, d, kind) {
        let j = choose|j: int| 0 <= j < r.len() && (#[trigger] r[j]).date == d && r[j].kind == kind;
        if j < a.len() {
            assert(a[j] == r[j]);
        } else {
            assert(b[j - a.len()] == r[j]);
        }
    }
}

proof fn lemma_day_breaks_listed(s: Seq<Span>, at: Day, l: Limits, d: int, kind: LabourKind)
    ensures
        listed(day_breaks(s, at, l), d, kind) <==> at == d && (kind == LabourKind::DayHours
            && worked_on(s, at) > l.day || kind == LabourKind::Presence && present_on(s, at)
            > l.presence),
{
    let all = day_breaks(s, at, l);
    if at == d && kind == LabourKind::DayHours && worked_on(s, at) > l.day {
        assert(all[0].date == d && all[0].kind == kind);
    }
    if at == d && kind == LabourKind::Presence && present_on(s, at) > l.presence {
        assert(all[all.len() - 1].date == d && all[all.len() - 1].kind == kind);
    }
}

proof fn lemma_days_break_listed(
    s: Seq<Span>,
    days: Seq<Day>,
    l: Limits,
    d: int,
    kind: LabourKind,
)
    ensures
        listed(days_break(s, days, l), d, kind) <==> exists|i: int|
            0 <= i < days.len() && (#[trigger] days[i]) == d && (kind == LabourKind::DayHours
                && worked_on(s, days[i]) > l.day || kind == LabourKind::Presence && present_on(
                s,
                days[i],
            ) > l.presence),
    decreases days.len(),
{
    if days.len() > 0 {
        let short = days.drop_last();
        lemma_days_break_listed(s, short, l, d, kind);
        lemma_listed_add(days_break(s, short, l), day_breaks(s, days.last(), l), d, kind);
        lemma_day_breaks_listed(s, days.last(), l, d, kind);
        assert(days[days.len() - 1] == days.last());
        assert(forall|i: int| 0 <= i < short.len() ==> #[trigger] short[i] == days[i]);
        if listed(days_break(s, short, l), d, kind) {
            let i = choose|i: int|
                0 <= i < short.len() && (#[trigger] short[i]) == d && (kind == LabourKind::DayHours
                    && worked_on(s, short[i]) > l.day || kind == LabourKind::Presence && present_on(
                    s,
                    short[i],
                ) > l.presence);
            assert(days[i] == d);
        }
        if listed(days_break(s, days, l), d, kind) && !listed(days_break(s, short, l), d, kind) {
            assert(days[days.len() - 1] == d);
        }
        if exists|i: int|
            0 <= i < days.len() && (#[trigger] days[i]) == d && (kind == LabourKind::DayHours
                && worked_on(s, days[i]) > l.day || kind == LabourKind::Presence && present_on(
                s,
                days[i],
            ) > l.presence) {
            let i = choose|i: int|
                0 <= i < days.len() && (#[trigger] days[i]) == d && (kind == LabourKind::DayHours
                    && worked_on(s, days[i]) > l.day || kind == LabourKind::Presence && present_on(
                    s,
                    days[i],
                ) > l.presence);
            if i < short.len() {
                assert(short[i] == d);
            }
        }
    }
}

proof fn lemma_week_breaks_listed(
    s: Seq<Span>,
    days: Seq<Day>,
    w: int,
    l: Limits,
    d: int,
    kind: LabourKind,
)
    ensures
        listed(week_breaks(s, days, w, l), d, kind) <==> w == d && (kind == LabourKind::WeekHours
            && worked_in_week(s, w) > l.week || kind == LabourKind::WeeklyRest && days_in_week(
            days,
            w,
        ) >= 7),
{
    let all = week_breaks(s, days, w, l);
    if w == d && kind == LabourKind::WeekHours && worked_in_week(s, w) > l.week {
        assert(all[0].date == d && all[0].kind == kind);
    }
    if w == d && kind == LabourKind::WeeklyRest && days_in_week(days, w) >= 7 {
        assert(all[all.len() - 1].date == d && all[all.len() - 1].kind == kind);
    }
}

proof fn lemma_weeks_break_listed(
    s: Seq<Span>,
    days: Seq<Day>,
    weeks: Seq<int>,
    l: Limits,
    d: int,
    kind: LabourKind,
)
    ensures
        listed(weeks_break(s, days, weeks, l), d, kind) <==> weeks.contains(d) && (kind
            == LabourKind::WeekHours && worked_in_week(s, d) > l.week || kind
            == LabourKind::WeeklyRest && days_in_week(days, d) >= 7),
    decreases weeks.len(),
{
    if weeks.len() > 0 {
        let short = weeks.drop_last();
        lemma_weeks_break_listed(s, days, short, l, d, kind);
        lemma_listed_add(
            weeks_break(s, days, short, l),
            week_breaks(s, days, weeks.last(), l),
            d,
            kind,
        );
        lemma_week_breaks_listed(s, days, weeks.last(), l, d, kind);
        assert(weeks[weeks.len() - 1] == weeks.last());
        assert(forall|i: int| 0 <= i < short.len() ==> #[trigger] short[i] == weeks[i]);
        if weeks.contains(d) {
            let i = choose|i: int| 0 <= i < weeks.len() && weeks[i] == d;
            if i < short.len() {
                assert(short[i] == d);
            }
        }
        if short.contains(d) {
            let i = choose|i: int| 0 <= i < short.len() && short[i] == d;
            assert(weeks[i] == d);
        }
    }
}

proof fn lemma_rests_break_listed(sorted: Seq<Span>, l: Limits, d: int, kind: LabourKind)
    ensures
        listed(rests_break(sorted, l), d, kind) <==> kind == LabourKind::Rest && exists|k: int|
            #[trigger] short_rest(sorted, l, d, k),
    decreases sorted.len(),
{
    if sorted.len() >= 2 {
        let short = sorted.drop_last();
        let n = sorted.len() as int;
        let one = rest_break(sorted[n - 2], sorted.last(), l);
        lemma_rests_break_listed(short, l, d, kind);
        lemma_listed_add(rests_break(short, l), one, d, kind);
        if kind == LabourKind::Rest && short_rest(sorted, l, d, n - 2) {
            assert(one[0].date == d && one[0].kind == kind);
        }
        assert(forall|i: int| 0 <= i < short.len() ==> #[trigger] short[i] == sorted[i]);
        if exists|k: int| #[trigger] short_rest(short, l, d, k) {
            let k = choose|k: int| #[trigger] short_rest(short, l, d, k);
            assert(short_rest(sorted, l, d, k));
        }
        if exists|k: int| #[trigger] short_rest(sorted, l, d, k) {
            let k = choose|k: int| #[trigger] short_rest(sorted, l, d, k);
            if k < n - 2 {
                assert(short_rest(short, l, d, k));
            }
        }
        if listed(one, d, kind) {
            assert(short_rest(sorted, l, d, n - 2));
        }
    }
}

proof fn lemma_weeks_of(days: Seq<Day>, w: int)
    ensures
        weeks_of(days).contains(w) <==> exists|i: int|
            0 <= i < days.len() && saturday_of(#[trigger] days[i]) == w,
    decreases days.len(),
{
    if days.len() > 0 {
        let short = days.drop_last();
        lemma_weeks_of(short, w);
        let before = weeks_of(short);
        let x = saturday_of(days.last());
        let all = weeks_of(days);
        assert(forall|i: int| 0 <= i < short.len() ==> #[trigger] short[i] == days[i]);
        assert(days[days.len() - 1] == days.last());
        if before.contains(w) {
            let i = choose|i: int| 0 <= i < before.len() && before[i] == w;
            assert(all[i] == w);
            let k = choose|k: int| 0 <= k < short.len() && saturday_of(#[trigger] short[k]) == w;
            assert(saturday_of(days[k]) == w);
        }
        if x == w {
            assert(all[all.len() - 1] == w);
        }
        if all.contains(w) {
            let i = choose|i: int| 0 <= i < all.len() && all[i] == w;
            if i < before.len() {
                assert(before[i] == w);
            }
        }
        if exists|i: int| 0 <= i < days.len() && saturday_of(#[trigger] days[i]) == w {
            let i = choose|i: int| 0 <= i < days.len() && saturday_of(#[trigger] days[i]) == w;
            if i < short.len() {
                assert(saturday_of(short[i]) == w);
            }
        }
    }
}

/// Which limits the list of broken ones has.
pub(crate) proof fn lemma_broken_is_listed(s: Seq<Span>, l: Limits, d: int, kind: LabourKind)
    ensures
        listed(limits_broken(s, l), d, kind) <==> broke(s, l, d, kind),
{
    let days = days_of(s);
    let a = days_break(s, days, l);
    let b = weeks_break(s, days, weeks_of(days), l);
    let c = rests_break(by_start(s), l);
    lemma_listed_add(a + b, c, d, kind);
    lemma_listed_add(a, b, d, kind);
    lemma_days_break_listed(s, days, l, d, kind);
    lemma_weeks_break_listed(s, days, weeks_of(days), l, d, kind);
    lemma_rests_break_listed(by_start(s), l, d, kind);
    lemma_weeks_of(days, d);
    assert(has_date(s, d) <==> exists|i: int| 0 <= i < days.len() && (#[trigger] days[i]) == d) by {
        if has_date(s, d) {
            law_days_are_the_spans_dates(s, d as Day);
            assert(days.contains(d as Day));
            let i = choose|i: int| 0 <= i < days.len() && days[i] == d as Day;
            assert(days[i] == d);
        }
        if exists|i: int| 0 <= i < days.len() && (#[trigger] days[i]) == d {
            let i = choose|i: int| 0 <= i < days.len() && (#[trigger] days[i]) == d;
            law_days_are_the_spans_dates(s, days[i]);
            assert(days.contains(days[i]));
        }
    }
    assert(has_week(s, d) <==> exists|i: int|
        0 <= i < days.len() && saturday_of(#[trigger] days[i]) == d) by {
        if has_week(s, d) {
            let k = choose|k: int| 0 <= k < s.len() && saturday_of((#[trigger] s[k]).date) == d;
            law_days_are_the_spans_dates(s, s[k].date);
            assert(days.contains(s[k].date));
            let i = choose|i: int| 0 <= i < days.len() && days[i] == s[k].date;
            assert(saturday_of(days[i]) == d);
        }
        if exists|i: int| 0 <= i < days.len() && saturday_of(#[trigger] days[i]) == d {
            let i = choose|i: int| 0 <= i < days.len() && saturday_of(#[trigger] days[i]) == d;
            law_days_are_the_spans_dates(s, days[i]);
            assert(days.contains(days[i]));
            let k = choose|k: int| 0 <= k < s.len() && (#[trigger] s[k]).date == days[i];
            assert(saturday_of(s[k].date) == d);
        }
    }
}

// ── what each limit counts ──────────────────────────────────────────────────

proof fn lemma_worked_without(s: Seq<Span>, i: int, d: Day)
    requires
        0 <= i < s.len(),
    ensures
        worked_on(s, d) == worked_on(s.remove(i), d) + if s[i].date == d {
            minutes_between(s[i].start, s[i].end)
        } else {
            0
        },
    decreases s.len(),
{
    let short = s.drop_last();
    if i == s.len() - 1 {
        assert(s.remove(i) =~= short);
    } else {
        lemma_worked_without(short, i, d);
        assert(s.remove(i).drop_last() =~= short.remove(i));
        assert(s.remove(i).last() == s.last());
    }
}

proof fn lemma_week_without(s: Seq<Span>, i: int, w: int)
    requires
        0 <= i < s.len(),
    ensures
        worked_in_week(s, w) == worked_in_week(s.remove(i), w) + if saturday_of(s[i].date) == w {
            minutes_between(s[i].start, s[i].end)
        } else {
            0
        },
    decreases s.len(),
{
    let short = s.drop_last();
    if i == s.len() - 1 {
        assert(s.remove(i) =~= short);
    } else {
        lemma_week_without(short, i, w);
        assert(s.remove(i).drop_last() =~= short.remove(i));
        assert(s.remove(i).last() == s.last());
    }
}

/// Every span of one list is on the other.
spec fn within(a: Seq<Span>, b: Seq<Span>) -> bool {
    forall|i: int| 0 <= i < a.len() ==> b.contains(#[trigger] a[i])
}

proof fn lemma_present_grows(a: Seq<Span>, b: Seq<Span>, d: Day)
    requires
        within(a, b),
        has_date(a, d as int),
    ensures
        present_on(a, d) <= present_on(b, d),
        has_date(b, d as int),
{
    lemma_has_date(a, b, d as int);
    lemma_a_first_start(a, d);
    lemma_a_last_end(a, d);
    lemma_a_first_start(b, d);
    lemma_a_last_end(b, d);
    let fa = choose|t: Moment| starts_first(a, d, t);
    let la = choose|t: Moment| ends_last(a, d, t);
    let fb = choose|t: Moment| starts_first(b, d, t);
    let lb = choose|t: Moment| ends_last(b, d, t);
    let i = choose|i: int| 0 <= i < a.len() && (#[trigger] a[i]).date == d && a[i].start == fa;
    let k = choose|k: int| 0 <= k < a.len() && (#[trigger] a[k]).date == d && a[k].end == la;
    assert(b.contains(a[i]) && b.contains(a[k]));
    let bi = choose|n: int| 0 <= n < b.len() && b[n] == a[i];
    let bk = choose|n: int| 0 <= n < b.len() && b[n] == a[k];
    assert(b[bi].date == d && b[bk].date == d);
    lemma_minutes_grow(la - fa, lb - fb);
}

proof fn lemma_has_date(a: Seq<Span>, b: Seq<Span>, d: int)
    requires
        within(a, b),
        has_date(a, d),
    ensures
        has_date(b, d),
{
    let i = choose|i: int| 0 <= i < a.len() && (#[trigger] a[i]).date == d;
    assert(b.contains(a[i]));
    let k = choose|n: int| 0 <= n < b.len() && b[n] == a[i];
    assert(b[k].date == d);
}

proof fn lemma_has_week(a: Seq<Span>, b: Seq<Span>, w: int)
    requires
        within(a, b),
        has_week(a, w),
    ensures
        has_week(b, w),
{
    let i = choose|i: int| 0 <= i < a.len() && saturday_of((#[trigger] a[i]).date) == w;
    assert(b.contains(a[i]));
    let k = choose|n: int| 0 <= n < b.len() && b[n] == a[i];
    assert(saturday_of(b[k].date) == w);
}

proof fn lemma_minutes_grow(a: int, b: int)
    requires
        a <= b,
    ensures
        whole_units(a, NANOS_PER_MINUTE as int) <= whole_units(b, NANOS_PER_MINUTE as int),
        b >= 0 ==> whole_units(b, NANOS_PER_MINUTE as int) >= 0,
{
}

/// Ascending dates.
pub open spec fn ascending(days: Seq<Day>) -> bool {
    forall|i: int, j: int| 0 <= i < j < days.len() ==> #[trigger] days[i] < #[trigger] days[j]
}

proof fn lemma_with_day_ascends(days: Seq<Day>, d: Day)
    requires
        ascending(days),
    ensures
        ascending(with_day(days, d)),
    decreases days.len(),
{
    if days.len() == 0 || days.last() < d {
        assert forall|i: int, j: int| 0 <= i < j < days.push(d).len() implies #[trigger] days.push(
            d,
        )[i] < #[trigger] days.push(d)[j] by {
            if i < days.len() - 1 {
                assert(days[i] < days[days.len() - 1]);
            }
        }
    } else if days.last() > d {
        let short = days.drop_last();
        lemma_with_day_ascends(short, d);
        lemma_with_day(short, d);
        let inner = with_day(short, d);
        let all = inner.push(days.last());
        assert forall|i: int, j: int| 0 <= i < j < all.len() implies #[trigger] all[i]
            < #[trigger] all[j] by {
            if j == inner.len() {
                assert(inner.contains(inner[i]));
                if inner[i] != d {
                    let k = choose|k: int| 0 <= k < short.len() && short[k] == inner[i];
                    assert(days[k] < days[days.len() - 1]);
                }
            }
        }
    }
}

pub(crate) proof fn lemma_days_ascend(s: Seq<Span>)
    ensures
        ascending(days_of(s)),
    decreases s.len(),
{
    if s.len() > 0 {
        lemma_days_ascend(s.drop_last());
        lemma_with_day_ascends(days_of(s.drop_last()), s.last().date);
    }
}

/// The dates of a week among ascending dates are no more than among more dates.
pub(crate) proof fn lemma_week_dates_grow(a: Seq<Day>, b: Seq<Day>, w: int)
    requires
        ascending(a),
        ascending(b),
        forall|i: int| 0 <= i < a.len() ==> b.contains(#[trigger] a[i]),
    ensures
        days_in_week(a, w) <= days_in_week(b, w),
    decreases b.len(),
{
    if b.len() == 0 {
        if a.len() > 0 {
            assert(b.contains(a[0]));
        }
    } else {
        let bs = b.drop_last();
        let top = b.last();
        if a.len() > 0 && a.last() == top {
            let s = a.drop_last();
            assert forall|i: int| 0 <= i < s.len() implies bs.contains(#[trigger] s[i]) by {
                assert(b.contains(a[i]));
                let k = choose|k: int| 0 <= k < b.len() && b[k] == a[i];
                assert(a[i] < a[a.len() - 1]);
                assert(bs[k] == a[i]);
            }
            lemma_week_dates_grow(s, bs, w);
        } else {
            assert forall|i: int| 0 <= i < a.len() implies bs.contains(#[trigger] a[i]) by {
                assert(b.contains(a[i]));
                let k = choose|k: int| 0 <= k < b.len() && b[k] == a[i];
                if k == b.len() - 1 {
                    // The last date would be on the list, and nothing after it.
                    if i < a.len() - 1 {
                        assert(a[i] < a[a.len() - 1]);
                        assert(b.contains(a[a.len() - 1]));
                        let m = choose|m: int| 0 <= m < b.len() && b[m] == a[a.len() - 1];
                        if m < k {
                            assert(b[m] < b[k]);
                        }
                    }
                }
                assert(bs[k] == a[i]);
            }
            lemma_week_dates_grow(a, bs, w);
        }
    }
}

proof fn lemma_week_days_grow(a: Seq<Span>, b: Seq<Span>, w: int)
    requires
        within(a, b),
    ensures
        days_in_week(days_of(a), w) <= days_in_week(days_of(b), w),
{
    lemma_days_ascend(a);
    lemma_days_ascend(b);
    assert forall|i: int| 0 <= i < days_of(a).len() implies days_of(b).contains(
        #[trigger] days_of(a)[i],
    ) by {
        let d = days_of(a)[i];
        law_days_are_the_spans_dates(a, d);
        law_days_are_the_spans_dates(b, d);
        assert(days_of(a).contains(d));
        assert(has_date(a, d as int));
        lemma_has_date(a, b, d as int);
    }
    lemma_week_dates_grow(days_of(a), days_of(b), w);
}

// ── the two moves ───────────────────────────────────────────────────────────

/// A span overlaps none of the others.
pub open spec fn alone(s: Seq<Span>, i: int) -> bool {
    forall|j: int|
        0 <= j < s.len() && j != i ==> !((#[trigger] s[j]).start < s[i].end && s[i].start < s[j].end)
}

proof fn lemma_by_start_alone(s: Seq<Span>, j: int) -> (n: int)
    requires
        0 <= j < by_start(s).len(),
    ensures
        0 <= n < s.len(),
        s[n] == by_start(s)[j],
    decreases s.len(),
{
    lemma_by_start_is_in_order(s);
    let short = s.drop_last();
    lemma_by_start_is_in_order(short);
    let at = lemma_with_span_at(by_start(short), s.last());
    if j == at {
        s.len() - 1
    } else if j < at {
        let n = lemma_by_start_alone(short, j);
        n
    } else {
        let n = lemma_by_start_alone(short, j - 1);
        n
    }
}

proof fn lemma_rest_without(s: Seq<Span>, i: int, l: Limits, d: int, k: int)
    requires
        0 <= i < s.len(),
        s[i].start < s[i].end,
        alone(s, i),
        short_rest(by_start(s.remove(i)), l, d, k),
    ensures
        exists|k2: int| #[trigger] short_rest(by_start(s), l, d, k2),
{
    let t = by_start(s);
    let r = by_start(s.remove(i));
    lemma_by_start_is_in_order(s);
    let at = lemma_by_start_without(s, i);
    let x = s[i];
    if k + 1 < at {
        assert(r[k] == t[k] && r[k + 1] == t[k + 1]);
        assert(short_rest(t, l, d, k));
    } else if k >= at {
        assert(r[k] == t[k + 1] && r[k + 1] == t[k + 2]);
        assert(short_rest(t, l, d, k + 1));
    } else {
        let a = t[k];
        let c = t[k + 2];
        assert(r[k] == a && t[k + 1] == x && r[k + 1] == c);
        assert(a.start <= x.start && x.start <= c.start);
        if x.date == c.date {
            lemma_minutes_grow(x.start - a.end, c.start - a.end);
            assert(short_rest(t, l, d, k));
        } else {
            lemma_before_is_over(s, i, at, k);
            lemma_minutes_grow(c.start - x.end, c.start - a.end);
            assert(short_rest(t, l, d, k + 1));
        }
    }
}

/// What starts before a span that overlaps nothing is over when it starts.
proof fn lemma_before_is_over(s: Seq<Span>, i: int, at: int, k: int)
    requires
        0 <= i < s.len(),
        s[i].start < s[i].end,
        alone(s, i),
        by_start(s.remove(i)) == by_start(s).remove(at),
        by_start(s)[at] == s[i],
        0 <= k < at < s.len(),
    ensures
        by_start(s)[k].end <= s[i].start,
{
    lemma_by_start_is_in_order(s);
    let t = by_start(s);
    let r = s.remove(i);
    assert(by_start(r)[k] == t[k]);
    lemma_by_start_is_in_order(r);
    let n = lemma_by_start_alone(r, k);
    let m = if n < i {
        n
    } else {
        n + 1
    };
    assert(r[n] == s[m]);
    assert(t[k].start <= t[at].start);
    assert(!(s[m].start < s[i].end && s[i].start < s[m].end));
}

proof fn lemma_within_without(s: Seq<Span>, i: int)
    requires
        0 <= i < s.len(),
    ensures
        within(s.remove(i), s),
{
    let r = s.remove(i);
    assert forall|j: int| 0 <= j < r.len() implies s.contains(#[trigger] r[j]) by {
        assert(r[j] == s[if j < i {
            j
        } else {
            j + 1
        }]);
    }
}

/// Taking off a span that overlaps no other breaks no limit that was kept.
pub proof fn law_taking_off_breaks_nothing(s: Seq<Span>, i: int, l: Limits, b: Break)
    requires
        0 <= i < s.len(),
        s[i].start < s[i].end,
        alone(s, i),
        already(limits_broken(s.remove(i), l), b),
    ensures
        already(limits_broken(s, l), b),
{
    let r = s.remove(i);
    let d = b.date;
    lemma_broken_is_listed(r, l, d, b.kind);
    lemma_broken_is_listed(s, l, d, b.kind);
    assert(listed(limits_broken(r, l), d, b.kind));
    lemma_within_without(s, i);
    lemma_minutes_grow(0, s[i].end - s[i].start);
    match b.kind {
        LabourKind::DayHours => {
            lemma_has_date(r, s, d);
            lemma_worked_without(s, i, d as Day);
        },
        LabourKind::Presence => {
            lemma_present_grows(r, s, d as Day);
        },
        LabourKind::WeekHours => {
            lemma_has_week(r, s, d);
            lemma_week_without(s, i, d);
        },
        LabourKind::WeeklyRest => {
            lemma_has_week(r, s, d);
            lemma_week_days_grow(r, s, d);
        },
        LabourKind::Rest => {
            let k = choose|k: int| #[trigger] short_rest(by_start(r), l, d, k);
            lemma_rest_without(s, i, l, d, k);
        },
        LabourKind::OvertimeDay => {},
    }
    assert(listed(limits_broken(s, l), d, b.kind));
}

/// Listing a span elsewhere breaks no limit that was kept, where none of those
/// it comes before starts with it.
pub proof fn law_listing_elsewhere_breaks_nothing(r: Seq<Span>, i: int, x: Span, l: Limits, b: Break)
    requires
        0 <= i <= r.len(),
        forall|j: int| i <= j < r.len() ==> (#[trigger] r[j]).start != x.start,
        already(limits_broken(r.insert(i, x), l), b),
    ensures
        already(limits_broken(r.push(x), l), b),
{
    let a = r.insert(i, x);
    let z = r.push(x);
    let d = b.date;
    lemma_broken_is_listed(a, l, d, b.kind);
    lemma_broken_is_listed(z, l, d, b.kind);
    assert(listed(limits_broken(a, l), d, b.kind));
    assert(within(a, z)) by {
        assert forall|j: int| 0 <= j < a.len() implies z.contains(#[trigger] a[j]) by {
            if j < i {
                assert(z[j] == a[j]);
            } else if j == i {
                assert(z[r.len() as int] == a[j]);
            } else {
                assert(z[j - 1] == a[j]);
            }
        }
    }
    assert(a.remove(i) =~= r);
    assert(z.remove(r.len() as int) =~= r);
    match b.kind {
        LabourKind::DayHours => {
            lemma_has_date(a, z, d);
            lemma_worked_without(a, i, d as Day);
            lemma_worked_without(z, r.len() as int, d as Day);
        },
        LabourKind::Presence => {
            lemma_present_grows(a, z, d as Day);
        },
        LabourKind::WeekHours => {
            lemma_has_week(a, z, d);
            lemma_week_without(a, i, d);
            lemma_week_without(z, r.len() as int, d);
        },
        LabourKind::WeeklyRest => {
            lemma_has_week(a, z, d);
            lemma_week_days_grow(a, z, d);
        },
        LabourKind::Rest => {
            lemma_by_start_moved(r, i, x);
        },
        LabourKind::OvertimeDay => {},
    }
    assert(listed(limits_broken(z, l), d, b.kind));
}

/// No two spans start at once.
pub open spec fn apart_in_time(s: Seq<Span>) -> bool {
    forall|i: int, j: int|
        0 <= i < s.len() && 0 <= j < s.len() && i != j ==> (#[trigger] s[i]).start != (
        #[trigger] s[j]).start
}

/// One span off each of two lists of the same spans leaves lists of the same.
proof fn lemma_same_without(a: Seq<Span>, b: Seq<Span>) -> (i: int)
    requires
        a.to_multiset() == b.to_multiset(),
        a.len() > 0,
        apart_in_time(a),
    ensures
        0 <= i < b.len(),
        b[i] == a.last(),
        a.drop_last().to_multiset() == b.remove(i).to_multiset(),
        apart_in_time(a.drop_last()),
        b.remove(i).insert(i, a.last()) == b,
{
    broadcast use vstd::seq_lib::group_to_multiset_ensures;

    let x = a.last();
    let short = a.drop_last();
    assert(a =~= short.push(x));
    assert(a.contains(x)) by {
        assert(a[a.len() - 1] == x);
    }
    assert(b.to_multiset().count(x) > 0);
    assert(b.contains(x));
    let i = choose|i: int| 0 <= i < b.len() && b[i] == x;
    let r = b.remove(i);
    assert(r.insert(i, x) =~= b);
    assert(short.to_multiset() =~= a.to_multiset().remove(x));
    assert(r.to_multiset() =~= b.to_multiset().remove(x));
    assert forall|k: int, l: int| 0 <= k < short.len() && 0 <= l < short.len() && k != l implies (
    #[trigger] short[k]).start != (#[trigger] short[l]).start by {
        assert(a[k].start != a[l].start);
    }
    i
}

/// However they are listed, no two of the same spans start at once.
proof fn lemma_still_apart(a: Seq<Span>, b: Seq<Span>)
    requires
        a.to_multiset() == b.to_multiset(),
        apart_in_time(a),
    ensures
        apart_in_time(b),
    decreases a.len(),
{
    lemma_same_length(a, b);
    if a.len() > 0 {
        let i = lemma_same_without(a, b);
        let short = a.drop_last();
        let r = b.remove(i);
        lemma_still_apart(short, r);
        lemma_same_within(r, short);
        assert forall|k: int| 0 <= k < r.len() implies (#[trigger] r[k]).start
            != a.last().start by {
            assert(short.contains(r[k]));
            let j = choose|j: int| 0 <= j < short.len() && short[j] == r[k];
            assert(a[j].start != a[a.len() - 1].start);
        }
        assert forall|k: int, l: int| 0 <= k < b.len() && 0 <= l < b.len() && k != l implies (
        #[trigger] b[k]).start != (#[trigger] b[l]).start by {
            let kk = if k < i {
                k
            } else {
                k - 1
            };
            let ll = if l < i {
                l
            } else {
                l - 1
            };
            if k != i && l != i {
                assert(r[kk].start != r[ll].start);
            } else if k == i {
                assert(r[ll].start != a.last().start);
            } else {
                assert(r[kk].start != a.last().start);
            }
        }
    }
}

/// The same spans are in one order by start.
proof fn lemma_one_start_order(a: Seq<Span>, b: Seq<Span>)
    requires
        a.to_multiset() == b.to_multiset(),
        apart_in_time(a),
        apart_in_time(b),
    ensures
        by_start(a) == by_start(b),
    decreases a.len(),
{
    lemma_same_length(a, b);
    if a.len() > 0 {
        let i = lemma_same_without(a, b);
        let x = a.last();
        let r = b.remove(i);
        lemma_still_apart(a.drop_last(), r);
        lemma_one_start_order(a.drop_last(), r);
        assert forall|j: int| i <= j < r.len() implies (#[trigger] r[j]).start != x.start by {
            assert(b[j + 1].start != b[i].start);
        }
        lemma_by_start_moved(r, i, x);
        assert(r.push(x).drop_last() =~= r);
    } else {
        assert(a =~= b);
    }
}

proof fn lemma_same_length(a: Seq<Span>, b: Seq<Span>)
    requires
        a.to_multiset() == b.to_multiset(),
    ensures
        a.len() == b.len(),
{
    broadcast use vstd::seq_lib::group_to_multiset_ensures;

    assert(a.len() == a.to_multiset().len());
}

/// The same spans work the same minutes.
proof fn lemma_same_minutes(a: Seq<Span>, b: Seq<Span>, d: Day, w: int)
    requires
        a.to_multiset() == b.to_multiset(),
        apart_in_time(a),
        apart_in_time(b),
    ensures
        worked_on(a, d) == worked_on(b, d),
        worked_in_week(a, w) == worked_in_week(b, w),
    decreases a.len(),
{
    lemma_same_length(a, b);
    if a.len() > 0 {
        let i = lemma_same_without(a, b);
        lemma_still_apart(a.drop_last(), b.remove(i));
        lemma_same_minutes(a.drop_last(), b.remove(i), d, w);
        lemma_worked_without(b, i, d);
        lemma_week_without(b, i, w);
    }
}

proof fn lemma_same_within(a: Seq<Span>, b: Seq<Span>)
    requires
        a.to_multiset() == b.to_multiset(),
    ensures
        within(a, b),
{
    broadcast use vstd::seq_lib::group_to_multiset_ensures;

    assert forall|i: int| 0 <= i < a.len() implies b.contains(#[trigger] a[i]) by {
        assert(a.contains(a[i]));
        assert(b.to_multiset().count(a[i]) > 0);
    }
}

/// Two lists of dates in strict order with the same dates are one.
proof fn lemma_one_ascent(a: Seq<Day>, b: Seq<Day>)
    requires
        ascending(a),
        ascending(b),
        forall|d: Day| a.contains(d) <==> b.contains(d),
    ensures
        a == b,
    decreases a.len(),
{
    if a.len() == 0 {
        if b.len() > 0 {
            assert(b.contains(b[0]));
        }
        assert(a =~= b);
    } else {
        let x = a.last();
        assert(a.contains(x)) by {
            assert(a[a.len() - 1] == x);
        }
        assert(b.contains(x));
        let y = b.last();
        assert(b.contains(y)) by {
            assert(b[b.len() - 1] == y);
        }
        assert(a.contains(y));
        let i = choose|i: int| 0 <= i < b.len() && b[i] == x;
        let j = choose|j: int| 0 <= j < a.len() && a[j] == y;
        assert(x == y) by {
            if i < b.len() - 1 {
                assert(b[i] < b[b.len() - 1]);
            }
            if j < a.len() - 1 {
                assert(a[j] < a[a.len() - 1]);
            }
        }
        let c = a.drop_last();
        let e = b.drop_last();
        assert forall|k: int, l: int| 0 <= k < l < c.len() implies (#[trigger] c[k]) < (
        #[trigger] c[l]) by {
            assert(a[k] < a[l]);
        }
        assert forall|k: int, l: int| 0 <= k < l < e.len() implies (#[trigger] e[k]) < (
        #[trigger] e[l]) by {
            assert(b[k] < b[l]);
        }
        assert forall|d: Day| c.contains(d) <==> e.contains(d) by {
            if c.contains(d) {
                let k = choose|k: int| 0 <= k < c.len() && c[k] == d;
                assert(a[k] == d && a[k] < a[a.len() - 1]);
                assert(a.contains(d));
                assert(b.contains(d));
                let n = choose|n: int| 0 <= n < b.len() && b[n] == d;
                assert(n < b.len() - 1);
                assert(e[n] == d);
            }
            if e.contains(d) {
                let k = choose|k: int| 0 <= k < e.len() && e[k] == d;
                assert(b[k] == d && b[k] < b[b.len() - 1]);
                assert(b.contains(d));
                assert(a.contains(d));
                let n = choose|n: int| 0 <= n < a.len() && a[n] == d;
                assert(n < a.len() - 1);
                assert(c[n] == d);
            }
        }
        lemma_one_ascent(c, e);
        assert(a =~= c.push(x));
        assert(b =~= e.push(y));
    }
}

proof fn lemma_same_days(a: Seq<Span>, b: Seq<Span>)
    requires
        within(a, b),
        within(b, a),
    ensures
        days_of(a) == days_of(b),
{
    lemma_days_ascend(a);
    lemma_days_ascend(b);
    assert forall|d: Day| days_of(a).contains(d) <==> days_of(b).contains(d) by {
        law_days_are_the_spans_dates(a, d);
        law_days_are_the_spans_dates(b, d);
        if has_date(a, d as int) {
            lemma_has_date(a, b, d as int);
        }
        if has_date(b, d as int) {
            lemma_has_date(b, a, d as int);
        }
    }
    lemma_one_ascent(days_of(a), days_of(b));
}

proof fn lemma_same_day_breaks(a: Seq<Span>, b: Seq<Span>, days: Seq<Day>, l: Limits)
    requires
        forall|i: int|
            0 <= i < days.len() ==> worked_on(a, #[trigger] days[i]) == worked_on(b, days[i])
                && present_on(a, days[i]) == present_on(b, days[i]),
    ensures
        days_break(a, days, l) == days_break(b, days, l),
    decreases days.len(),
{
    if days.len() > 0 {
        let short = days.drop_last();
        assert forall|i: int| 0 <= i < short.len() implies worked_on(a, #[trigger] short[i])
            == worked_on(b, short[i]) && present_on(a, short[i]) == present_on(b, short[i]) by {
            assert(short[i] == days[i]);
        }
        lemma_same_day_breaks(a, b, short, l);
        assert(days[days.len() - 1] == days.last());
    }
}

proof fn lemma_same_week_breaks(
    a: Seq<Span>,
    b: Seq<Span>,
    days: Seq<Day>,
    weeks: Seq<int>,
    l: Limits,
)
    requires
        forall|w: int| #[trigger] worked_in_week(a, w) == worked_in_week(b, w),
    ensures
        weeks_break(a, days, weeks, l) == weeks_break(b, days, weeks, l),
    decreases weeks.len(),
{
    if weeks.len() > 0 {
        lemma_same_week_breaks(a, b, days, weeks.drop_last(), l);
        assert(worked_in_week(a, weeks.last()) == worked_in_week(b, weeks.last()));
    }
}

/// Which limits are broken does not turn on the order the spans are listed in,
/// where no two start at once.
pub proof fn law_the_order_of_spans_breaks_nothing(a: Seq<Span>, b: Seq<Span>, l: Limits)
    requires
        a.to_multiset() == b.to_multiset(),
        apart_in_time(a),
    ensures
        limits_broken(a, l) == limits_broken(b, l),
{
    lemma_same_within(a, b);
    lemma_same_within(b, a);
    lemma_still_apart(a, b);
    lemma_one_start_order(a, b);
    lemma_same_days(a, b);
    let days = days_of(a);
    assert forall|i: int| 0 <= i < days.len() implies worked_on(a, #[trigger] days[i]) == worked_on(
        b,
        days[i],
    ) && present_on(a, days[i]) == present_on(b, days[i]) by {
        let d = days[i];
        lemma_same_minutes(a, b, d, 0);
        law_days_are_the_spans_dates(a, d);
        assert(days.contains(d));
        assert(has_date(a, d as int));
        lemma_present_grows(a, b, d);
        lemma_present_grows(b, a, d);
    }
    lemma_same_day_breaks(a, b, days, l);
    assert forall|w: int| #[trigger] worked_in_week(a, w) == worked_in_week(b, w) by {
        lemma_same_minutes(a, b, 0, w);
    }
    lemma_same_week_breaks(a, b, days, weeks_of(days), l);
}

} // verus!
