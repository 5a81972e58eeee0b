//! What a loaded week says of what it was loaded from.

use vstd::prelude::*;

use crate::calendar::{max_of, zone_exists, ClockTime, Day, Id};
use crate::dawam::engine::{late_shift, need_of};
use crate::dawam::roster::coverage::{CoverageNeed, HourOrders};
use crate::dawam::roster::WorkShiftBrief;
use crate::dawam::suggest::hourly::first_need;
use crate::dawam::suggest::loading::{
    added_up, capped, counted, counts_late, grid_day, index_of, intends, late_block, late_on,
    late_shifts_of, lemma_one_more_bounded, loads, of_branch, one_more, placed, sales_day, turnout_of,
    usual_of, week_needs, with_hours, with_need, AttendanceCount, PastShift, PatternFact,
    RosterFact, WeekFacts,
};
use crate::dawam::suggest::{intended, Need, PatternNeed, Placed, Problem};

verus! {

// ── blocks ──────────────────────────────────────────────────────────────────

/// A block is found by its id, the last of those that share it.
pub proof fn law_a_block_is_found_by_its_id(shifts: Seq<WorkShiftBrief>, id: Id)
    ensures
        match index_of(shifts, id) {
            Some(i) => 0 <= i < shifts.len() && shifts[i].id == id && forall|j: int|
                i < j < shifts.len() ==> (#[trigger] shifts[j]).id != id,
            None => forall|j: int| 0 <= j < shifts.len() ==> (#[trigger] shifts[j]).id != id,
        },
    decreases shifts.len(),
{
    if shifts.len() > 0 {
        let short = shifts.drop_last();
        law_a_block_is_found_by_its_id(short, id);
        assert forall|j: int| 0 <= j < short.len() implies #[trigger] shifts[j] == short[j] by {}
        assert(shifts[shifts.len() - 1] == shifts.last());
    }
}

/// A block is the branch's own, or the whole business's.
pub proof fn law_whose_block_it_is(w: WorkShiftBrief, branch: Id)
    ensures
        of_branch(w, branch) <==> (w.branch_id is Some ==> w.branch_id == Some(branch)),
{
}

/// A block is late that is late on one of the week's dates it runs, at that
/// date's times; one that ends no later than it starts goes over midnight.
pub proof fn law_a_late_block_is_late_on_a_day(
    w: WorkShiftBrief,
    week: Day,
    night: (ClockTime, ClockTime),
    i: int,
)
    requires
        0 <= i < 7,
        week <= 2_000_000_000,
    ensures
        w.runs_on((week + i) as Day) && late_shift(
            w.times((week + i) as Day).0,
            w.times((week + i) as Day).1,
            w.times((week + i) as Day).1 <= w.times((week + i) as Day).0,
            night,
        ) ==> late_block(w, week, night),
        late_block(w, week, night) ==> exists|k: int|
            0 <= k < 7 && #[trigger] w.runs_on((week + k) as Day),
{
    if w.runs_on((week + i) as Day) && late_shift(
        w.times((week + i) as Day).0,
        w.times((week + i) as Day).1,
        w.times((week + i) as Day).1 <= w.times((week + i) as Day).0,
        night,
    ) {
        assert(late_on(w, (week + i) as Day, night));
    }
    if late_block(w, week, night) {
        let k = choose|k: int| 0 <= k < 7 && #[trigger] late_on(w, (week + k) as Day, night);
        assert(w.runs_on((week + k) as Day));
    }
}

// ── who is where ────────────────────────────────────────────────────────────

/// The limits count every assignment, at whatever branch, but for those on a day
/// their person is on leave.
pub proof fn law_limits_count_every_branch(
    roster: Seq<RosterFact>,
    r: RosterFact,
    leave: Seq<(Id, Day)>,
)
    ensures
        counted(roster.push(r), leave) == if leave.contains((r.employee_id, r.span.date)) {
            counted(roster, leave)
        } else {
            counted(roster, leave).push((r.employee_id, r.span))
        },
        counted(Seq::empty(), leave).len() == 0,
{
    assert(roster.push(r).drop_last() =~= roster);
}

/// A slot is filled by an assignment at the branch, of one of its blocks, in the
/// week, whose person is not on leave that day; and by no other.
pub proof fn law_a_slot_is_filled_at_the_branch(
    roster: Seq<RosterFact>,
    r: RosterFact,
    leave: Seq<(Id, Day)>,
    shifts: Seq<WorkShiftBrief>,
    branch: Id,
    week: Day,
)
    ensures
        ({
            let before = placed(roster, leave, shifts, branch, week);
            let at = index_of(shifts, r.work_shift_id);
            placed(roster.push(r), leave, shifts, branch, week) == if at is Some && r.branch_id
                == Some(branch) && week <= r.span.date && r.span.date <= week + 6
                && !leave.contains((r.employee_id, r.span.date)) {
                before.push(
                    Placed { date: r.span.date, shift: at->0 as usize, person: r.employee_id },
                )
            } else {
                before
            }
        }),
        placed(Seq::empty(), leave, shifts, branch, week).len() == 0,
{
    assert(roster.push(r).drop_last() =~= roster);
}

/// A shift is usual for whoever was on it in the weeks before.
pub proof fn law_a_usual_shift_was_worked(
    past: Seq<PastShift>,
    shifts: Seq<WorkShiftBrief>,
    who: Id,
    w: usize,
)
    requires
        shifts.len() <= usize::MAX,
    ensures
        usual_of(past, shifts).contains((who, w)) <==> exists|i: int|
            0 <= i < past.len() && (#[trigger] past[i]).employee_id == who && index_of(
                shifts,
                past[i].work_shift_id,
            ) == Some(w as int),
    decreases past.len(),
{
    broadcast use vstd::seq_lib::group_seq_properties;

    if past.len() > 0 {
        let short = past.drop_last();
        law_a_usual_shift_was_worked(short, shifts, who, w);
        let p = past.last();
        law_a_block_is_found_by_its_id(shifts, p.work_shift_id);
        assert forall|j: int| 0 <= j < short.len() implies #[trigger] past[j] == short[j] by {}
        assert(past[past.len() - 1] == p);
    }
}

/// Late shifts of the weeks before count one by one, for who was on them.
pub proof fn law_past_late_shifts_count(
    past: Seq<PastShift>,
    p: PastShift,
    shifts: Seq<WorkShiftBrief>,
    late: Seq<bool>,
    who: Id,
)
    ensures
        ({
            let at = index_of(shifts, p.work_shift_id);
            late_shifts_of(past.push(p), shifts, late, who) == late_shifts_of(
                past,
                shifts,
                late,
                who,
            ) + if p.employee_id == who && at is Some && late[at->0] {
                1int
            } else {
                0
            }
        }),
        late_shifts_of(Seq::empty(), shifts, late, who) == 0,
{
    assert(past.push(p).drop_last() =~= past);
}

/// Attendance is added up per person and class of shift: shifts to shifts,
/// absences to absences, lateness to lateness. A block that is not the branch's
/// counts as a day one.
pub proof fn law_attendance_is_added_up_by_class(
    rows: Seq<AttendanceCount>,
    r: AttendanceCount,
    shifts: Seq<WorkShiftBrief>,
    late: Seq<bool>,
    who: Id,
    class: bool,
)
    ensures
        ({
            let at = index_of(shifts, r.work_shift_id);
            let of_late = at is Some && late[at->0];
            let (a, b, c) = added_up(rows, shifts, late, who, class);
            added_up(rows.push(r), shifts, late, who, class) == if r.employee_id == who && of_late
                == class {
                (a + r.shifts, b + r.absent, c + r.late)
            } else {
                (a, b, c)
            }
        }),
        added_up(Seq::empty(), shifts, late, who, class) == (0int, 0int, 0int),
{
    assert(rows.push(r).drop_last() =~= rows);
}

/// A turnout says the sums, as far as a count goes.
pub proof fn law_a_turnout_says_the_sums(a: int, b: int, c: int)
    requires
        0 <= a,
        0 <= b,
        0 <= c,
    ensures
        ({
            let t = turnout_of((a, b, c));
            &&& a <= u32::MAX ==> t.shifts == a
            &&& b <= u32::MAX ==> t.absent == b
            &&& c <= u32::MAX ==> t.late == c
            &&& a > u32::MAX ==> t.shifts == u32::MAX
            &&& b > u32::MAX ==> t.absent == u32::MAX
            &&& c > u32::MAX ==> t.late == u32::MAX
        }),
{
}

// ── what the pattern intends ────────────────────────────────────────────────

/// No block on a date is listed twice.
pub open spec fn listed_once(list: Seq<PatternNeed>) -> bool
    decreases list.len(),
{
    list.len() > 0 ==> listed_once(list.drop_last()) && intended(
        list.drop_last(),
        list.last().date,
        list.last().shift as int,
    ) is None
}

/// The headcount a list has of a block on a date.
pub open spec fn headcount_in(list: Seq<PatternNeed>, d: Day, w: int) -> int {
    match intended(list, d, w) {
        Some(n) => n as int,
        None => 0,
    }
}

proof fn lemma_one_more(list: Seq<PatternNeed>, d: Day, w: int, e: Day, v: int)
    requires
        listed_once(list),
        0 <= w <= usize::MAX,
        forall|k: int| 0 <= k < list.len() ==> (#[trigger] list[k]).staff < i64::MAX,
    ensures
        listed_once(one_more(list, d, w)),
        intended(one_more(list, d, w), e, v) == if d == e && w == v {
            Some((headcount_in(list, d, w) + 1) as i64)
        } else {
            intended(list, e, v)
        },
        headcount_in(list, d, w) < i64::MAX,
    decreases list.len(),
{
    if list.len() == 0 {
        let one = seq![PatternNeed { date: d, shift: w as usize, staff: 1 }];
        assert(one.drop_last() =~= Seq::empty());
        assert(intended(one.drop_last(), e, v) is None);
        assert(listed_once(one.drop_last()));
        assert(intended(one.drop_last(), d, w) is None);
    } else {
        let short = list.drop_last();
        let n = list.last();
        assert(list[list.len() - 1].staff < i64::MAX);
        assert forall|k: int| 0 <= k < short.len() implies (#[trigger] short[k]).staff
            < i64::MAX by {
            assert(list[k].staff < i64::MAX);
        }
        lemma_one_more(short, d, w, e, v);
        lemma_one_more(short, d, w, n.date, n.shift as int);
        let out = one_more(list, d, w);
        if n.date == d && n.shift == w {
            assert(out.drop_last() =~= short);
        } else {
            assert(out.drop_last() =~= one_more(short, d, w));
        }
    }
}

proof fn lemma_intends(pattern: Seq<PatternFact>, shifts: Seq<WorkShiftBrief>, branch: Id)
    requires
        pattern.len() < i64::MAX,
        shifts.len() <= usize::MAX,
    ensures
        listed_once(intends(pattern, shifts, branch)),
        forall|k: int|
            0 <= k < intends(pattern, shifts, branch).len() ==> 0 <= (#[trigger] intends(
                pattern,
                shifts,
                branch,
            )[k]).staff <= pattern.len(),
    decreases pattern.len(),
{
    if pattern.len() > 0 {
        let short = pattern.drop_last();
        let p = pattern.last();
        lemma_intends(short, shifts, branch);
        law_a_block_is_found_by_its_id(shifts, p.work_shift_id);
        let before = intends(short, shifts, branch);
        match index_of(shifts, p.work_shift_id) {
            Some(i) if p.branch_id == Some(branch) => {
                lemma_one_more(before, p.date, i, p.date, i);
                lemma_one_more_bounded(before, p.date, i, short.len() as int);
            },
            _ => {},
        }
    }
}

/// Each assignment the pattern intends at the branch is one more on its block on
/// its date, and nowhere else.
pub proof fn law_each_assignment_intends_one_more(
    pattern: Seq<PatternFact>,
    p: PatternFact,
    shifts: Seq<WorkShiftBrief>,
    branch: Id,
    d: Day,
    w: int,
)
    requires
        pattern.len() + 1 < i64::MAX,
        shifts.len() <= usize::MAX,
    ensures
        headcount_in(intends(pattern.push(p), shifts, branch), d, w) == headcount_in(
            intends(pattern, shifts, branch),
            d,
            w,
        ) + if p.branch_id == Some(branch) && p.date == d && index_of(shifts, p.work_shift_id)
            == Some(w) {
            1int
        } else {
            0
        },
        headcount_in(intends(Seq::empty(), shifts, branch), d, w) == 0,
{
    assert(pattern.push(p).drop_last() =~= pattern);
    lemma_intends(pattern, shifts, branch);
    law_a_block_is_found_by_its_id(shifts, p.work_shift_id);
    let before = intends(pattern, shifts, branch);
    assert(intended(intends(Seq::empty(), shifts, branch), d, w) is None);
    match index_of(shifts, p.work_shift_id) {
        Some(i) if p.branch_id == Some(branch) => {
            lemma_one_more(before, p.date, i, d, w);
        },
        _ => {},
    }
}

// ── what the hours need ─────────────────────────────────────────────────────

/// No hour of a department is listed twice.
pub open spec fn needed_once(list: Seq<Need>) -> bool
    decreases list.len(),
{
    list.len() > 0 ==> needed_once(list.drop_last()) && first_need(
        list.drop_last(),
        list.last().date,
        list.last().hour as int,
        list.last().department,
    ) is None
}

/// At least so many, on top of what is needed already.
pub open spec fn at_least(need: Option<int>, staff: int) -> Option<int> {
    match need {
        Some(n) => Some(max_of(n, staff)),
        None => Some(max_of(staff, 0)),
    }
}

proof fn lemma_with_need(
    list: Seq<Need>,
    d: Day,
    h: int,
    dept: Option<Id>,
    staff: int,
    e: Day,
    g: int,
    other: Option<Id>,
)
    requires
        needed_once(list),
        0 <= h < 24,
        i32::MIN <= staff <= i32::MAX,
    ensures
        needed_once(with_need(list, d, h, dept, staff)),
        first_need(with_need(list, d, h, dept, staff), e, g, other) == if d == e && h == g && dept
            == other {
            at_least(first_need(list, d, h, dept), staff)
        } else {
            first_need(list, e, g, other)
        },
    decreases list.len(),
{
    let out = with_need(list, d, h, dept, staff);
    if list.len() == 0 {
        assert(out.drop_last() =~= Seq::empty());
        assert(first_need(out.drop_last(), e, g, other) is None);
        assert(first_need(out.drop_last(), d, h, dept) is None);
        assert(needed_once(out.drop_last()));
    } else {
        let short = list.drop_last();
        let n = list.last();
        lemma_with_need(short, d, h, dept, staff, e, g, other);
        lemma_with_need(short, d, h, dept, staff, n.date, n.hour as int, n.department);
        if n.date == d && n.hour == h && n.department == dept {
            assert(out.drop_last() =~= short);
        } else {
            assert(out.drop_last() =~= with_need(short, d, h, dept, staff));
        }
    }
}

proof fn lemma_with_hours(
    list: Seq<Need>,
    d: Day,
    from: int,
    to: int,
    dept: Option<Id>,
    staff: int,
    e: Day,
    g: int,
    other: Option<Id>,
)
    requires
        needed_once(list),
        0 <= from,
        to <= 24,
        i32::MIN <= staff <= i32::MAX,
    ensures
        needed_once(with_hours(list, d, from, to, dept, staff)),
        first_need(with_hours(list, d, from, to, dept, staff), e, g, other) == if d == e && from
            <= g < to && dept == other {
            at_least(first_need(list, e, g, other), staff)
        } else {
            first_need(list, e, g, other)
        },
    decreases to - from,
{
    if from < to {
        lemma_with_need(list, d, from, dept, staff, e, g, other);
        lemma_with_hours(
            with_need(list, d, from, dept, staff),
            d,
            from + 1,
            to,
            dept,
            staff,
            e,
            g,
            other,
        );
    }
}

proof fn lemma_grid_day(
    list: Seq<Need>,
    d: Day,
    grid: Seq<CoverageNeed>,
    e: Day,
    g: int,
    other: Option<Id>,
)
    requires
        needed_once(list),
        forall|i: int| 0 <= i < grid.len() ==> on_the_clock(#[trigger] grid[i]),
    ensures
        needed_once(grid_day(list, d, grid)),
        d != e ==> first_need(grid_day(list, d, grid), e, g, other) == first_need(
            list,
            e,
            g,
            other,
        ),
    decreases grid.len(),
{
    if grid.len() > 0 {
        let short = grid.drop_last();
        let b = grid.last();
        assert(on_the_clock(grid[grid.len() - 1]));
        assert forall|i: int| 0 <= i < short.len() implies on_the_clock(#[trigger] short[i]) by {
            assert(on_the_clock(grid[i]));
        }
        lemma_grid_day(list, d, short, e, g, other);
        let from = b.band_start as int / 60_000_000_000 / 60;
        let to = (b.band_end as int / 60_000_000_000 + 59) / 60;
        lemma_with_hours(
            grid_day(list, d, short),
            d,
            from,
            to,
            b.department_id,
            b.staff as int,
            e,
            g,
            other,
        );
    }
}

/// A band within a day.
pub open spec fn on_the_clock(b: CoverageNeed) -> bool {
    0 <= b.band_start < 86_400_000_000_000 && 0 <= b.band_end < 86_400_000_000_000
}

/// A band of the typed grid asks for at least its people at every hour it
/// touches, on its weekday and of its department; and changes no other hour.
pub proof fn law_a_band_asks_for_its_hours(
    list: Seq<Need>,
    d: Day,
    grid: Seq<CoverageNeed>,
    b: CoverageNeed,
    h: int,
    dept: Option<Id>,
)
    requires
        needed_once(list),
        on_the_clock(b),
        forall|i: int| 0 <= i < grid.len() ==> on_the_clock(#[trigger] grid[i]),
    ensures
        ({
            let before = first_need(grid_day(list, d, grid), d, h, dept);
            let touched = b.band_start < (h + 1) * 3_600_000_000_000 && (h * 60 + 1)
                * 60_000_000_000 <= b.band_end;
            first_need(grid_day(list, d, grid.push(b)), d, h, dept) == if b.day_of_week == d as int
                % 7 && b.department_id == dept && touched {
                at_least(before, b.staff as int)
            } else {
                before
            }
        }),
{
    assert(grid.push(b).drop_last() =~= grid);
    lemma_grid_day(list, d, grid, d, h, dept);
    let from = b.band_start as int / 60_000_000_000 / 60;
    let to = (b.band_end as int / 60_000_000_000 + 59) / 60;
    lemma_with_hours(
        grid_day(list, d, grid),
        d,
        from,
        to,
        b.department_id,
        b.staff as int,
        d,
        h,
        dept,
    );
}

proof fn lemma_sales_day(
    list: Seq<Need>,
    d: Day,
    hours: Seq<HourOrders>,
    per_staff: i32,
    e: Day,
    g: int,
    other: Option<Id>,
)
    requires
        needed_once(list),
        forall|i: int| 0 <= i < hours.len() ==> (#[trigger] hours[i]).hour < 24,
    ensures
        needed_once(sales_day(list, d, hours, per_staff)),
        d != e ==> first_need(sales_day(list, d, hours, per_staff), e, g, other) == first_need(
            list,
            e,
            g,
            other,
        ),
    decreases hours.len(),
{
    if hours.len() > 0 {
        let short = hours.drop_last();
        let x = hours.last();
        assert(hours[hours.len() - 1].hour < 24);
        assert forall|i: int| 0 <= i < short.len() implies (#[trigger] short[i]).hour < 24 by {
            assert(hours[i].hour < 24);
        }
        lemma_sales_day(list, d, short, per_staff, e, g, other);
        let staff = need_of(x.orders as int, 8, per_staff as int);
        if staff > 0 {
            lemma_with_need(
                sales_day(list, d, short, per_staff),
                d,
                x.hour as int,
                None,
                staff,
                e,
                g,
                other,
            );
        }
    }
}

/// Sales ask for people of any department at the hour they were made, on that
/// weekday, and change no other hour.
pub proof fn law_sales_ask_for_their_hour(
    list: Seq<Need>,
    d: Day,
    hours: Seq<HourOrders>,
    x: HourOrders,
    per_staff: i32,
    h: int,
    dept: Option<Id>,
)
    requires
        needed_once(list),
        x.hour < 24,
        forall|i: int| 0 <= i < hours.len() ==> (#[trigger] hours[i]).hour < 24,
    ensures
        ({
            let before = first_need(sales_day(list, d, hours, per_staff), d, h, dept);
            let staff = need_of(x.orders as int, 8, per_staff as int);
            first_need(sales_day(list, d, hours.push(x), per_staff), d, h, dept) == if x.day_of_week
                == d as int % 7 && x.hour == h && dept is None && staff > 0 {
                at_least(before, staff)
            } else {
                before
            }
        }),
{
    assert(hours.push(x).drop_last() =~= hours);
    lemma_sales_day(list, d, hours, per_staff, d, h, dept);
    let staff = need_of(x.orders as int, 8, per_staff as int);
    if staff > 0 {
        lemma_with_need(
            sales_day(list, d, hours, per_staff),
            d,
            x.hour as int,
            None,
            staff,
            d,
            h,
            dept,
        );
    }
}

/// A typed grid settles the week alone: what was sold changes nothing then.
pub proof fn law_a_typed_grid_wins_over_sales(
    week: Day,
    n: int,
    grid: Seq<CoverageNeed>,
    hours: Seq<HourOrders>,
    others: Seq<HourOrders>,
    per_staff: i32,
    other_staff: i32,
)
    requires
        grid.len() > 0,
    ensures
        week_needs(week, n, grid, hours, per_staff) == week_needs(
            week,
            n,
            grid,
            others,
            other_staff,
        ),
    decreases n,
{
    if n > 0 {
        law_a_typed_grid_wins_over_sales(week, n - 1, grid, hours, others, per_staff, other_staff);
    }
}

/// What an hour of the week needs is what its own date asks for: no other date
/// of the week changes it.
pub proof fn law_a_date_needs_what_it_asks_for(
    week: Day,
    n: int,
    grid: Seq<CoverageNeed>,
    hours: Seq<HourOrders>,
    per_staff: i32,
    e: Day,
    h: int,
    dept: Option<Id>,
)
    requires
        0 <= n <= 7,
        week <= 2_000_000_000,
        forall|i: int| 0 <= i < grid.len() ==> on_the_clock(#[trigger] grid[i]),
        forall|i: int| 0 <= i < hours.len() ==> (#[trigger] hours[i]).hour < 24,
    ensures
        needed_once(week_needs(week, n, grid, hours, per_staff)),
        n >= 1 && e != week + n - 1 ==> first_need(
            week_needs(week, n, grid, hours, per_staff),
            e,
            h,
            dept,
        ) == first_need(week_needs(week, n - 1, grid, hours, per_staff), e, h, dept),
        e < week || week + n <= e ==> first_need(
            week_needs(week, n, grid, hours, per_staff),
            e,
            h,
            dept,
        ) is None,
    decreases n,
{
    if n > 0 {
        law_a_date_needs_what_it_asks_for(week, n - 1, grid, hours, per_staff, e, h, dept);
        let before = week_needs(week, n - 1, grid, hours, per_staff);
        let d = (week + n - 1) as Day;
        if grid.len() > 0 {
            lemma_grid_day(before, d, grid, e, h, dept);
        } else {
            lemma_sales_day(before, d, hours, per_staff, e, h, dept);
        }
    }
}

// ── the record of a class ───────────────────────────────────────────────────

/// Attendance on late blocks alone is no day record, and on the others alone no
/// night record; late shifts before are those of late blocks.
pub proof fn law_a_record_is_of_its_class(f: WeekFacts, p: Problem, i: int)
    requires
        loads(f, p),
        0 <= i < f.staff@.len(),
    ensures
        (forall|k: int|
            0 <= k < f.attendance@.len() && (#[trigger] f.attendance@[k]).employee_id
                == f.staff@[i].employee_id ==> counts_late(
                f.shifts(),
                p.late@,
                f.attendance@[k].work_shift_id,
            )) ==> p.reliability@[i].day.shifts == 0 && p.reliability@[i].day.absent == 0
            && p.reliability@[i].day.late == 0,
        (forall|k: int|
            0 <= k < f.attendance@.len() && (#[trigger] f.attendance@[k]).employee_id
                == f.staff@[i].employee_id ==> !counts_late(
                f.shifts(),
                p.late@,
                f.attendance@[k].work_shift_id,
            )) ==> p.reliability@[i].night.shifts == 0 && p.reliability@[i].night.absent == 0
            && p.reliability@[i].night.late == 0,
        (forall|k: int|
            0 <= k < f.past@.len() && (#[trigger] f.past@[k]).employee_id
                == f.staff@[i].employee_id ==> !counts_late(
                f.shifts(),
                p.late@,
                f.past@[k].work_shift_id,
            )) ==> p.late_history@[i] == 0,
{
    let who = f.staff@[i].employee_id;
    let shifts = f.shifts();
    assert(p.reliability@[i].day == turnout_of(
        added_up(f.attendance@, shifts, p.late@, who, false),
    ));
    if forall|k: int|
        0 <= k < f.attendance@.len() && (#[trigger] f.attendance@[k]).employee_id == who
            ==> counts_late(shifts, p.late@, f.attendance@[k].work_shift_id) {
        lemma_none_of_class(f.attendance@, shifts, p.late@, who, false);
    }
    if forall|k: int|
        0 <= k < f.attendance@.len() && (#[trigger] f.attendance@[k]).employee_id == who
            ==> !counts_late(shifts, p.late@, f.attendance@[k].work_shift_id) {
        lemma_none_of_class(f.attendance@, shifts, p.late@, who, true);
    }
    if forall|k: int|
        0 <= k < f.past@.len() && (#[trigger] f.past@[k]).employee_id == who ==> !counts_late(
            shifts,
            p.late@,
            f.past@[k].work_shift_id,
        ) {
        lemma_none_late(f.past@, shifts, p.late@, who);
        assert(p.late_history@[i] == capped(late_shifts_of(f.past@, shifts, p.late@, who)));
    }
}

proof fn lemma_none_of_class(
    rows: Seq<AttendanceCount>,
    shifts: Seq<WorkShiftBrief>,
    late: Seq<bool>,
    who: Id,
    class: bool,
)
    requires
        forall|k: int|
            0 <= k < rows.len() && (#[trigger] rows[k]).employee_id == who ==> counts_late(
                shifts,
                late,
                rows[k].work_shift_id,
            ) != class,
    ensures
        added_up(rows, shifts, late, who, class) == (0int, 0int, 0int),
    decreases rows.len(),
{
    if rows.len() > 0 {
        let short = rows.drop_last();
        assert forall|k: int|
            0 <= k < short.len() && (#[trigger] short[k]).employee_id == who implies counts_late(
            shifts,
            late,
            short[k].work_shift_id,
        ) != class by {
            assert(rows[k] == short[k]);
        }
        lemma_none_of_class(short, shifts, late, who, class);
        assert(rows[rows.len() - 1] == rows.last());
    }
}

proof fn lemma_none_late(
    past: Seq<PastShift>,
    shifts: Seq<WorkShiftBrief>,
    late: Seq<bool>,
    who: Id,
)
    requires
        forall|k: int|
            0 <= k < past.len() && (#[trigger] past[k]).employee_id == who ==> !counts_late(
                shifts,
                late,
                past[k].work_shift_id,
            ),
    ensures
        late_shifts_of(past, shifts, late, who) == 0,
    decreases past.len(),
{
    if past.len() > 0 {
        let short = past.drop_last();
        assert forall|k: int|
            0 <= k < short.len() && (#[trigger] short[k]).employee_id == who implies !counts_late(
            shifts,
            late,
            short[k].work_shift_id,
        ) by {
            assert(past[k] == short[k]);
        }
        lemma_none_late(short, shifts, late, who);
        assert(past[past.len() - 1] == past.last());
    }
}

/// The week is solved in the branch's own zone where it is one, and in Cairo's
/// otherwise; with the staff, the leave and the settings as they are.
pub proof fn law_a_week_is_loaded_as_it_is(f: WeekFacts, p: Problem)
    requires
        loads(f, p),
    ensures
        zone_exists(f.zone@) ==> p.zone@ == f.zone@,
        !zone_exists(f.zone@) ==> p.zone@ == "Africa/Cairo"@,
        p.staff@ == f.staff@,
        p.leave@ == f.leave@,
        p.learned@ == f.learned@,
        p.decided@ == f.decided@,
        p.frozen == f.frozen,
        p.week == f.week,
        p.gender_mode@ == f.gender_mode@,
        p.gender_default == f.gender_default,
        p.limits == f.limits,
{
}

} // verus!
