//! Loading a week: what the solver needs, from what is stored.

use vstd::prelude::*;

use crate::calendar::{
    same_id, valid_clock, zone_exists, zone_known, ClockTime, Day, Id, MAX_DAY, MIN_DAY,
};
use crate::dawam::engine::{band_hours, is_late, late_shift, minute, need_of, pos_need, Limits, Span};
use crate::dawam::roster::coverage::{CoverageNeed, HourOrders, SALES_WEEKS};
use crate::dawam::roster::{RosterPerson, WorkShiftBrief};
use crate::dawam::suggest::{
    has_leave, has_usual, Learned, Need, PatternNeed, Placed, Problem, Reliability, Score,
    Turnout, IN_MEMORY, MAX_PART,
};
use crate::days::{dow, weekday};

verus! {

/// A block of the branch, or of the whole business.
pub open spec fn of_branch(w: WorkShiftBrief, branch: Id) -> bool {
    w.branch_id is None || w.branch_id == Some(branch)
}

/// The blocks of the branch, in order.
pub fn branch_shifts(all: Vec<WorkShiftBrief>, branch: Id) -> (r: Vec<WorkShiftBrief>)
    ensures
        r@ == all@.filter(|w: WorkShiftBrief| of_branch(w, branch)),
{
    let ghost f = |w: WorkShiftBrief| of_branch(w, branch);
    let mut rest: Vec<WorkShiftBrief> = all;
    let mut out: Vec<WorkShiftBrief> = Vec::new();
    proof {
        reveal(Seq::filter);
        assert(Seq::empty() + rest@.filter(f) =~= all@.filter(f));
    }
    while rest.len() > 0
        invariant
            f == (|w: WorkShiftBrief| of_branch(w, branch)),
            all@.filter(f) == out@ + rest@.filter(f),
        decreases rest@.len(),
    {
        let ghost was = rest@;
        let ghost had = out@;
        let w: WorkShiftBrief = rest.remove(0);
        let keep: bool = match w.branch_id {
            Some(b) => b == branch,
            None => true,
        };
        proof {
            assert(was =~= seq![w] + rest@);
            Seq::filter_distributes_over_add(seq![w], rest@, f);
            reveal_with_fuel(Seq::filter, 2);
            assert(seq![w].drop_last() =~= Seq::empty());
            assert(seq![w].last() == w);
            assert(keep == f(w));
            if keep {
                assert(seq![w].filter(f) =~= seq![w]);
                assert(had + (seq![w] + rest@.filter(f)) =~= had.push(w) + rest@.filter(f));
            } else {
                assert(seq![w].filter(f) =~= Seq::empty());
                assert(Seq::empty() + rest@.filter(f) =~= rest@.filter(f));
            }
        }
        if keep {
            out.push(w);
        }
    }
    proof {
        reveal(Seq::filter);
        assert(rest@ =~= Seq::empty());
        assert(out@ + Seq::<WorkShiftBrief>::empty() =~= out@);
    }
    out
}

/// The block is late or night on a date it runs.
pub open spec fn late_on(w: WorkShiftBrief, d: Day, night: (ClockTime, ClockTime)) -> bool {
    let (s, e) = w.times(d);
    w.runs_on(d) && late_shift(s, e, e <= s, night)
}

/// Late or night on any of its days of the week is a late block.
pub open spec fn late_block(w: WorkShiftBrief, week: Day, night: (ClockTime, ClockTime)) -> bool {
    exists|i: int| 0 <= i < 7 && #[trigger] late_on(w, (week + i) as Day, night)
}

/// Which of the blocks is late or night in the week.
pub fn late_blocks(shifts: &Vec<WorkShiftBrief>, week: Day, night: (ClockTime, ClockTime)) -> (r:
    Vec<bool>)
    requires
        MIN_DAY + 40 <= week <= MAX_DAY - 40,
        valid_clock(night.0),
        valid_clock(night.1),
        forall|i: int| 0 <= i < shifts@.len() ==> (#[trigger] shifts@[i]).valid(),
    ensures
        r@.len() == shifts@.len(),
        forall|i: int|
            0 <= i < r@.len() ==> #[trigger] r@[i] == late_block(shifts@[i], week, night),
{
    let mut out: Vec<bool> = Vec::new();
    let mut i: usize = 0;
    while i < shifts.len()
        invariant
            i <= shifts@.len(),
            MIN_DAY + 40 <= week <= MAX_DAY - 40,
            valid_clock(night.0),
            valid_clock(night.1),
            forall|k: int| 0 <= k < shifts@.len() ==> (#[trigger] shifts@[k]).valid(),
            out@.len() == i,
            forall|k: int|
                0 <= k < i ==> #[trigger] out@[k] == late_block(shifts@[k], week, night),
        decreases shifts@.len() - i,
    {
        let w: &WorkShiftBrief = &shifts[i];
        assert(shifts@[i as int].valid());
        let mut late: bool = false;
        let mut j: i32 = 0;
        while j < 7
            invariant
                0 <= j <= 7,
                MIN_DAY + 40 <= week <= MAX_DAY - 40,
                valid_clock(night.0),
                valid_clock(night.1),
                w.valid(),
                late == exists|k: int| 0 <= k < j && #[trigger] late_on(*w, (week + k) as Day, night),
            decreases 7 - j,
        {
            let d: Day = week + j;
            let (s, e) = w.times_on(d);
            let on: bool = w.valid_on(d) && is_late(s, e, e <= s, night);
            assert(on == late_on(*w, (week + j) as Day, night));
            late = late || on;
            j += 1;
        }
        out.push(late);
        i += 1;
    }
    out
}

/// Where a block stands among the branch's.
pub open spec fn index_of(shifts: Seq<WorkShiftBrief>, id: Id) -> Option<int>
    decreases shifts.len(),
{
    if shifts.len() == 0 {
        None
    } else if shifts.last().id == id {
        Some(shifts.len() - 1)
    } else {
        index_of(shifts.drop_last(), id)
    }
}

/// Where a block stands among the branch's.
pub fn find_block(shifts: &Vec<WorkShiftBrief>, id: Id) -> (r: Option<usize>)
    ensures
        match r {
            Some(i) => index_of(shifts@, id) == Some(i as int) && i < shifts@.len(),
            None => index_of(shifts@, id) is None,
        },
{
    let mut n: usize = shifts.len();
    assert(shifts@.take(n as int) =~= shifts@);
    while n > 0
        invariant
            n <= shifts@.len(),
            index_of(shifts@, id) == index_of(shifts@.take(n as int), id),
        decreases n,
    {
        assert(shifts@.take(n as int).drop_last() =~= shifts@.take(n - 1));
        assert(shifts@.take(n as int).last() == shifts@[n - 1]);
        if shifts[n - 1].id == id {
            return Some(n - 1);
        }
        n -= 1;
    }
    None
}

/// One assignment of the staff, wherever it is.
#[derive(Clone, Copy, Debug)]
pub struct RosterFact {
    pub employee_id: Id,
    pub work_shift_id: Id,
    pub branch_id: Option<Id>,
    pub span: Span,
}

/// The person is on leave on the date of the assignment.
pub open spec fn on_leave(r: RosterFact, leave: Seq<(Id, Day)>) -> bool {
    leave.contains((r.employee_id, r.span.date))
}

/// The spans the limits count: every branch's, but none on leave.
pub open spec fn counted(roster: Seq<RosterFact>, leave: Seq<(Id, Day)>) -> Seq<(Id, Span)>
    decreases roster.len(),
{
    if roster.len() == 0 {
        Seq::empty()
    } else {
        let before = counted(roster.drop_last(), leave);
        let r = roster.last();
        if on_leave(r, leave) {
            before
        } else {
            before.push((r.employee_id, r.span))
        }
    }
}

/// The week's slots at the branch that are filled: this branch's blocks, none
/// on leave.
pub open spec fn placed(
    roster: Seq<RosterFact>,
    leave: Seq<(Id, Day)>,
    shifts: Seq<WorkShiftBrief>,
    branch: Id,
    week: Day,
) -> Seq<Placed>
    decreases roster.len(),
{
    if roster.len() == 0 {
        Seq::empty()
    } else {
        let before = placed(roster.drop_last(), leave, shifts, branch, week);
        let r = roster.last();
        match index_of(shifts, r.work_shift_id) {
            Some(i) if !on_leave(r, leave) && week <= r.span.date <= week + 6 && r.branch_id
                == Some(branch) => before.push(
                Placed { date: r.span.date, shift: i as usize, person: r.employee_id },
            ),
            _ => before,
        }
    }
}

/// The spans the limits count, and the branch's slots that are filled.
pub fn place_week(
    roster: &Vec<RosterFact>,
    leave: &Vec<(Id, Day)>,
    shifts: &Vec<WorkShiftBrief>,
    branch: Id,
    week: Day,
) -> (r: (Vec<(Id, Span)>, Vec<Placed>))
    requires
        MIN_DAY + 40 <= week <= MAX_DAY - 40,
        forall|i: int| 0 <= i < roster@.len() ==> (#[trigger] roster@[i]).span.valid(),
    ensures
        r.0@ == counted(roster@, leave@),
        r.1@ == placed(roster@, leave@, shifts@, branch, week),
        forall|i: int| 0 <= i < r.0@.len() ==> (#[trigger] r.0@[i]).1.valid(),
        forall|i: int| 0 <= i < r.1@.len() ==> (#[trigger] r.1@[i]).shift < shifts@.len(),
{
    let mut spans: Vec<(Id, Span)> = Vec::new();
    let mut filled: Vec<Placed> = Vec::new();
    let mut i: usize = 0;
    while i < roster.len()
        invariant
            i <= roster@.len(),
            MIN_DAY + 40 <= week <= MAX_DAY - 40,
            forall|k: int| 0 <= k < roster@.len() ==> (#[trigger] roster@[k]).span.valid(),
            spans@ == counted(roster@.take(i as int), leave@),
            filled@ == placed(roster@.take(i as int), leave@, shifts@, branch, week),
            forall|k: int| 0 <= k < spans@.len() ==> (#[trigger] spans@[k]).1.valid(),
            forall|k: int| 0 <= k < filled@.len() ==> (#[trigger] filled@[k]).shift < shifts@.len(),
        decreases roster@.len() - i,
    {
        assert(roster@.take(i + 1).drop_last() =~= roster@.take(i as int));
        assert(roster@[i as int].span.valid());
        let r: RosterFact = roster[i];
        let away: bool = has_leave(leave, r.employee_id, r.span.date);
        let here: bool = match r.branch_id {
            Some(b) => b == branch,
            None => false,
        };
        let block: Option<usize> = find_block(shifts, r.work_shift_id);
        if !away {
            spans.push((r.employee_id, r.span));
            if week <= r.span.date && r.span.date <= week + 6 && here {
                if let Some(w) = block {
                    filled.push(Placed { date: r.span.date, shift: w, person: r.employee_id });
                }
            }
        }
        i += 1;
    }
    assert(roster@.take(roster@.len() as int) =~= roster@);
    (spans, filled)
}

/// One assignment the standing pattern intends.
#[derive(Clone, Copy, Debug, PartialEq, Eq, Structural)]
pub struct PatternFact {
    pub date: Day,
    pub work_shift_id: Id,
    pub branch_id: Option<Id>,
}

/// One more on the block on the date.
pub open spec fn one_more(list: Seq<PatternNeed>, d: Day, w: int) -> Seq<PatternNeed>
    decreases list.len(),
{
    if list.len() == 0 {
        seq![PatternNeed { date: d, shift: w as usize, staff: 1 }]
    } else {
        let n = list.last();
        if n.date == d && n.shift == w {
            list.drop_last().push(
                PatternNeed { date: d, shift: w as usize, staff: (n.staff + 1) as i64 },
            )
        } else {
            one_more(list.drop_last(), d, w).push(n)
        }
    }
}

/// The headcount the pattern intends on the branch's blocks.
pub open spec fn intends(
    pattern: Seq<PatternFact>,
    shifts: Seq<WorkShiftBrief>,
    branch: Id,
) -> Seq<PatternNeed>
    decreases pattern.len(),
{
    if pattern.len() == 0 {
        Seq::empty()
    } else {
        let before = intends(pattern.drop_last(), shifts, branch);
        let p = pattern.last();
        match index_of(shifts, p.work_shift_id) {
            Some(i) if p.branch_id == Some(branch) => one_more(before, p.date, i),
            _ => before,
        }
    }
}

fn add_one(list: &mut Vec<PatternNeed>, d: Day, w: usize)
    requires
        forall|k: int| 0 <= k < old(list)@.len() ==> (#[trigger] old(list)@[k]).staff < i64::MAX,
    ensures
        final(list)@ == one_more(old(list)@, d, w as int),
{
    let ghost start = list@;
    let mut n: usize = list.len();
    proof {
        assert(start.take(n as int) =~= start);
        assert(one_more(start, d, w as int) + start.skip(n as int) =~= one_more(start, d, w as int));
    }
    while n > 0
        invariant
            n <= list@.len(),
            list@ == start,
            start == old(list)@,
            forall|k: int| 0 <= k < start.len() ==> (#[trigger] start[k]).staff < i64::MAX,
            one_more(start, d, w as int) == one_more(start.take(n as int), d, w as int)
                + start.skip(n as int),
        decreases n,
    {
        let x: PatternNeed = list[n - 1];
        let ghost cut = start.take(n as int);
        proof {
            assert(cut.last() == start[n - 1]);
            assert(cut.drop_last() =~= start.take(n - 1));
        }
        if x.date == d && x.shift == w {
            assert(start[n - 1].staff < i64::MAX);
            list.set(n - 1, PatternNeed { date: d, shift: w, staff: x.staff + 1 });
            proof {
                assert(list@ =~= cut.drop_last().push(
                    PatternNeed { date: d, shift: w, staff: (x.staff + 1) as i64 },
                ) + start.skip(n as int));
            }
            return ;
        }
        proof {
            assert(one_more(cut.drop_last(), d, w as int).push(cut.last()) + start.skip(n as int)
                =~= one_more(cut.drop_last(), d, w as int) + start.skip(n - 1));
        }
        n -= 1;
    }
    list.insert(0, PatternNeed { date: d, shift: w, staff: 1 });
    proof {
        assert(start.take(0) =~= Seq::empty());
        assert(list@ =~= seq![PatternNeed { date: d, shift: w, staff: 1 }] + start.skip(0));
    }
}

/// No headcount is above the number of assignments it was counted from.
pub(crate) proof fn lemma_one_more_bounded(list: Seq<PatternNeed>, d: Day, w: int, most: int)
    requires
        forall|k: int| 0 <= k < list.len() ==> 0 <= (#[trigger] list[k]).staff <= most,
        0 <= most < i64::MAX,
    ensures
        forall|k: int|
            0 <= k < one_more(list, d, w).len() ==> 0 <= (#[trigger] one_more(list, d, w)[k]).staff
                <= most + 1,
    decreases list.len(),
{
    if list.len() > 0 {
        let n = list.last();
        assert(0 <= list[list.len() - 1].staff <= most);
        assert forall|k: int| 0 <= k < list.drop_last().len() implies 0 <= (
        #[trigger] list.drop_last()[k]).staff <= most by {
            assert(list[k].staff <= most);
        }
        let out = one_more(list, d, w);
        if n.date == d && n.shift == w {
            assert forall|k: int| 0 <= k < out.len() implies 0 <= (#[trigger] out[k]).staff <= most
                + 1 by {
                if k < list.len() - 1 {
                    assert(out[k] == list.drop_last()[k]);
                }
            }
        } else {
            lemma_one_more_bounded(list.drop_last(), d, w, most);
            let moved = one_more(list.drop_last(), d, w);
            assert forall|k: int| 0 <= k < out.len() implies 0 <= (#[trigger] out[k]).staff <= most
                + 1 by {
                if k < moved.len() {
                    assert(out[k] == moved[k]);
                }
            }
        }
    }
}

/// What the standing pattern intends: the headcount of each of the branch's
/// blocks on each date.
pub fn pattern_counts(
    pattern: &Vec<PatternFact>,
    shifts: &Vec<WorkShiftBrief>,
    branch: Id,
) -> (r: Vec<PatternNeed>)
    requires
        pattern@.len() < i64::MAX,
    ensures
        r@ == intends(pattern@, shifts@, branch),
{
    let mut out: Vec<PatternNeed> = Vec::new();
    let mut i: usize = 0;
    while i < pattern.len()
        invariant
            i <= pattern@.len(),
            pattern@.len() < i64::MAX,
            out@ == intends(pattern@.take(i as int), shifts@, branch),
            forall|k: int| 0 <= k < out@.len() ==> 0 <= (#[trigger] out@[k]).staff <= i,
        decreases pattern@.len() - i,
    {
        assert(pattern@.take(i + 1).drop_last() =~= pattern@.take(i as int));
        let p: PatternFact = pattern[i];
        let here: bool = match p.branch_id {
            Some(b) => b == branch,
            None => false,
        };
        let block: Option<usize> = find_block(shifts, p.work_shift_id);
        if here {
            if let Some(w) = block {
                proof {
                    lemma_one_more_bounded(out@, p.date, w as int, i as int);
                }
                add_one(&mut out, p.date, w);
            }
        }
        i += 1;
    }
    assert(pattern@.take(pattern@.len() as int) =~= pattern@);
    out
}

/// A shift someone was rostered on in the four weeks before.
#[derive(Clone, Copy, Debug, PartialEq, Eq, Structural)]
pub struct PastShift {
    pub employee_id: Id,
    pub work_shift_id: Id,
}

/// Who was on which block, once each.
pub open spec fn usual_of(past: Seq<PastShift>, shifts: Seq<WorkShiftBrief>) -> Seq<(Id, usize)>
    decreases past.len(),
{
    if past.len() == 0 {
        Seq::empty()
    } else {
        let before = usual_of(past.drop_last(), shifts);
        match index_of(shifts, past.last().work_shift_id) {
            Some(i) if !before.contains((past.last().employee_id, i as usize)) => before.push(
                (past.last().employee_id, i as usize),
            ),
            _ => before,
        }
    }
}

/// How many late shifts the person was on.
pub open spec fn late_shifts_of(
    past: Seq<PastShift>,
    shifts: Seq<WorkShiftBrief>,
    late: Seq<bool>,
    who: Id,
) -> int
    decreases past.len(),
{
    if past.len() == 0 {
        0
    } else {
        let before = late_shifts_of(past.drop_last(), shifts, late, who);
        let p = past.last();
        match index_of(shifts, p.work_shift_id) {
            Some(i) if p.employee_id == who && late[i] => before + 1,
            _ => before,
        }
    }
}

/// Everyone's usual shifts.
pub fn usual_shifts(past: &Vec<PastShift>, shifts: &Vec<WorkShiftBrief>) -> (r: Vec<(Id, usize)>)
    ensures
        r@ == usual_of(past@, shifts@),
{
    let mut out: Vec<(Id, usize)> = Vec::new();
    let mut i: usize = 0;
    while i < past.len()
        invariant
            i <= past@.len(),
            out@ == usual_of(past@.take(i as int), shifts@),
        decreases past@.len() - i,
    {
        assert(past@.take(i + 1).drop_last() =~= past@.take(i as int));
        let p: PastShift = past[i];
        if let Some(w) = find_block(shifts, p.work_shift_id) {
            if !has_usual(&out, p.employee_id, w) {
                out.push((p.employee_id, w));
            }
        }
        i += 1;
    }
    assert(past@.take(past@.len() as int) =~= past@);
    out
}

/// The most a count says.
pub open spec fn capped(n: int) -> u32 {
    if n > u32::MAX {
        u32::MAX
    } else {
        n as u32
    }
}

/// The late shifts of one of the staff over the four weeks before.
pub fn late_history_of(
    past: &Vec<PastShift>,
    shifts: &Vec<WorkShiftBrief>,
    late: &Vec<bool>,
    who: Id,
) -> (r: u32)
    requires
        late@.len() == shifts@.len(),
    ensures
        r == capped(late_shifts_of(past@, shifts@, late@, who)),
{
    let mut n: u64 = 0;
    let mut i: usize = 0;
    while i < past.len()
        invariant
            i <= past@.len(),
            late@.len() == shifts@.len(),
            n == late_shifts_of(past@.take(i as int), shifts@, late@, who),
            n <= i,
        decreases past@.len() - i,
    {
        assert(past@.take(i + 1).drop_last() =~= past@.take(i as int));
        let p: PastShift = past[i];
        if let Some(w) = find_block(shifts, p.work_shift_id) {
            if p.employee_id == who && late[w] {
                n = n + 1;
            }
        }
        i += 1;
    }
    assert(past@.take(past@.len() as int) =~= past@);
    if n > u32::MAX as u64 {
        u32::MAX
    } else {
        n as u32
    }
}

/// Someone's attendance on one block over eight weeks.
#[derive(Clone, Copy, Debug, PartialEq, Eq, Structural)]
pub struct AttendanceCount {
    pub employee_id: Id,
    pub work_shift_id: Id,
    pub shifts: u32,
    pub absent: u32,
    pub late: u32,
}

/// The block is a late one of the branch; one of another branch counts as a day
/// one.
pub open spec fn counts_late(shifts: Seq<WorkShiftBrief>, late: Seq<bool>, id: Id) -> bool {
    match index_of(shifts, id) {
        Some(i) => late[i],
        None => false,
    }
}

/// The shifts, absences and lates of the person, late blocks or the others,
/// added up.
pub open spec fn added_up(
    rows: Seq<AttendanceCount>,
    shifts: Seq<WorkShiftBrief>,
    late: Seq<bool>,
    who: Id,
    class: bool,
) -> (int, int, int)
    decreases rows.len(),
{
    if rows.len() == 0 {
        (0, 0, 0)
    } else {
        let before = added_up(rows.drop_last(), shifts, late, who, class);
        let r = rows.last();
        if r.employee_id == who && counts_late(shifts, late, r.work_shift_id) == class {
            (before.0 + r.shifts, before.1 + r.absent, before.2 + r.late)
        } else {
            before
        }
    }
}

/// What the sums say of someone's turnout.
pub open spec fn turnout_of(sums: (int, int, int)) -> Turnout {
    Turnout { shifts: capped(sums.0), absent: capped(sums.1), late: capped(sums.2) }
}

fn cap(n: u128) -> (r: u32)
    ensures
        r == capped(n as int),
{
    if n > u32::MAX as u128 {
        u32::MAX
    } else {
        n as u32
    }
}

fn add_up(
    rows: &Vec<AttendanceCount>,
    shifts: &Vec<WorkShiftBrief>,
    late: &Vec<bool>,
    who: Id,
    class: bool,
) -> (r: Turnout)
    requires
        late@.len() == shifts@.len(),
    ensures
        r == turnout_of(added_up(rows@, shifts@, late@, who, class)),
{
    let mut n: u128 = 0;
    let mut absent: u128 = 0;
    let mut tardy: u128 = 0;
    let mut i: usize = 0;
    while i < rows.len()
        invariant
            i <= rows@.len(),
            late@.len() == shifts@.len(),
            (n as int, absent as int, tardy as int) == added_up(
                rows@.take(i as int),
                shifts@,
                late@,
                who,
                class,
            ),
            n <= i * 4_294_967_295,
            absent <= i * 4_294_967_295,
            tardy <= i * 4_294_967_295,
        decreases rows@.len() - i,
    {
        assert(rows@.take(i + 1).drop_last() =~= rows@.take(i as int));
        let r: AttendanceCount = rows[i];
        let is: bool = match find_block(shifts, r.work_shift_id) {
            Some(w) => late[w],
            None => false,
        };
        if r.employee_id == who && is == class {
            n = n + r.shifts as u128;
            absent = absent + r.absent as u128;
            tardy = tardy + r.late as u128;
        }
        i += 1;
    }
    assert(rows@.take(rows@.len() as int) =~= rows@);
    Turnout { shifts: cap(n), absent: cap(absent), late: cap(tardy) }
}

/// People needed at an hour, at least so many.
pub open spec fn with_need(
    list: Seq<Need>,
    d: Day,
    h: int,
    dept: Option<Id>,
    staff: int,
) -> Seq<Need>
    decreases list.len(),
{
    if list.len() == 0 {
        seq![
            Need {
                date: d,
                hour: h as i32,
                department: dept,
                staff: if staff > 0 {
                    staff as i32
                } else {
                    0
                },
            },
        ]
    } else {
        let n = list.last();
        if n.date == d && n.hour == h && n.department == dept {
            list.drop_last().push(
                Need {
                    date: d,
                    hour: h as i32,
                    department: dept,
                    staff: if staff > n.staff {
                        staff as i32
                    } else {
                        n.staff
                    },
                },
            )
        } else {
            with_need(list.drop_last(), d, h, dept, staff).push(n)
        }
    }
}

fn add_need(list: &mut Vec<Need>, d: Day, h: i32, dept: Option<Id>, staff: i32)
    ensures
        final(list)@ == with_need(old(list)@, d, h as int, dept, staff as int),
{
    let ghost start = list@;
    let mut n: usize = list.len();
    proof {
        assert(start.take(n as int) =~= start);
        assert(with_need(start, d, h as int, dept, staff as int) + start.skip(n as int)
            =~= with_need(start, d, h as int, dept, staff as int));
    }
    while n > 0
        invariant
            n <= list@.len(),
            list@ == start,
            start == old(list)@,
            with_need(start, d, h as int, dept, staff as int) == with_need(
                start.take(n as int),
                d,
                h as int,
                dept,
                staff as int,
            ) + start.skip(n as int),
        decreases n,
    {
        let x: Need = list[n - 1];
        let ghost cut = start.take(n as int);
        proof {
            assert(cut.last() == start[n - 1]);
            assert(cut.drop_last() =~= start.take(n - 1));
        }
        if x.date == d && x.hour == h && same_id(x.department, dept) {
            let most: i32 = if staff > x.staff {
                staff
            } else {
                x.staff
            };
            let now: Need = Need { date: d, hour: h, department: dept, staff: most };
            list.set(n - 1, now);
            proof {
                assert(list@ =~= cut.drop_last().push(now) + start.skip(n as int));
            }
            return ;
        }
        proof {
            let moved = with_need(cut.drop_last(), d, h as int, dept, staff as int);
            assert(moved.push(cut.last()) + start.skip(n as int) =~= moved + start.skip(n - 1));
        }
        n -= 1;
    }
    let fresh: Need = Need {
        date: d,
        hour: h,
        department: dept,
        staff: if staff > 0 {
            staff
        } else {
            0
        },
    };
    list.insert(0, fresh);
    proof {
        assert(start.take(0) =~= Seq::empty());
        assert(list@ =~= seq![fresh] + start.skip(0));
    }
}

/// The needs of the hours of a band, from one hour on.
pub open spec fn with_hours(
    list: Seq<Need>,
    d: Day,
    from: int,
    to: int,
    dept: Option<Id>,
    staff: int,
) -> Seq<Need>
    decreases to - from,
{
    if from >= to {
        list
    } else {
        with_hours(with_need(list, d, from, dept, staff), d, from + 1, to, dept, staff)
    }
}

/// The needs of a date from the typed grid.
pub open spec fn grid_day(list: Seq<Need>, d: Day, grid: Seq<CoverageNeed>) -> Seq<Need>
    decreases grid.len(),
{
    if grid.len() == 0 {
        list
    } else {
        let before = grid_day(list, d, grid.drop_last());
        let g = grid.last();
        if g.day_of_week == weekday(d) {
            with_hours(
                before,
                d,
                minute(g.band_start) / 60,
                (minute(g.band_end) + 59) / 60,
                g.department_id,
                g.staff as int,
            )
        } else {
            before
        }
    }
}

/// The needs of a date from the sales.
pub open spec fn sales_day(
    list: Seq<Need>,
    d: Day,
    hours: Seq<HourOrders>,
    per_staff: i32,
) -> Seq<Need>
    decreases hours.len(),
{
    if hours.len() == 0 {
        list
    } else {
        let before = sales_day(list, d, hours.drop_last(), per_staff);
        let h = hours.last();
        let staff = need_of(h.orders as int, SALES_WEEKS as int, per_staff as int);
        if h.day_of_week == weekday(d) && staff > 0 {
            with_need(before, d, h.hour as int, None, staff)
        } else {
            before
        }
    }
}

/// The needs of the first days of the week.
pub open spec fn week_needs(
    week: Day,
    n: int,
    grid: Seq<CoverageNeed>,
    hours: Seq<HourOrders>,
    per_staff: i32,
) -> Seq<Need>
    decreases n,
{
    if n <= 0 {
        Seq::empty()
    } else {
        let before = week_needs(week, n - 1, grid, hours, per_staff);
        let d = (week + n - 1) as Day;
        if grid.len() > 0 {
            grid_day(before, d, grid)
        } else {
            sales_day(before, d, hours, per_staff)
        }
    }
}

/// Needs close to the week, at hours on the clock.
pub open spec fn held_needs(list: Seq<Need>, week: Day) -> bool {
    forall|i: int|
        0 <= i < list.len() ==> week <= (#[trigger] list[i]).date <= week + 6 && 0 <= list[i].hour
            < 24
}

proof fn lemma_with_need_held(
    list: Seq<Need>,
    d: Day,
    h: int,
    dept: Option<Id>,
    staff: int,
    week: Day,
)
    requires
        held_needs(list, week),
        week <= d <= week + 6,
        0 <= h < 24,
    ensures
        held_needs(with_need(list, d, h, dept, staff), week),
    decreases list.len(),
{
    if list.len() > 0 {
        let n = list.last();
        assert(list[list.len() - 1] == n);
        assert(held_needs(list.drop_last(), week)) by {
            assert forall|i: int| 0 <= i < list.drop_last().len() implies week <= (
            #[trigger] list.drop_last()[i]).date <= week + 6 && 0 <= list.drop_last()[i].hour
                < 24 by {
                assert(list[i] == list.drop_last()[i]);
            }
        }
        if !(n.date == d && n.hour == h && n.department == dept) {
            lemma_with_need_held(list.drop_last(), d, h, dept, staff, week);
        }
    }
}

fn fill_grid_day(list: &mut Vec<Need>, d: Day, grid: &Vec<CoverageNeed>, week: Day)
    requires
        MIN_DAY + 40 <= week <= MAX_DAY - 40,
        week <= d <= week + 6,
        held_needs(old(list)@, week),
        forall|i: int|
            0 <= i < grid@.len() ==> valid_clock((#[trigger] grid@[i]).band_start) && valid_clock(
                grid@[i].band_end,
            ),
    ensures
        final(list)@ == grid_day(old(list)@, d, grid@),
        held_needs(final(list)@, week),
{
    let today: i16 = dow(d);
    let ghost start = list@;
    let mut i: usize = 0;
    while i < grid.len()
        invariant
            i <= grid@.len(),
            MIN_DAY + 40 <= week <= MAX_DAY - 40,
            week <= d <= week + 6,
            today == weekday(d),
            forall|k: int|
                0 <= k < grid@.len() ==> valid_clock((#[trigger] grid@[k]).band_start)
                    && valid_clock(grid@[k].band_end),
            list@ == grid_day(start, d, grid@.take(i as int)),
            held_needs(list@, week),
        decreases grid@.len() - i,
    {
        assert(grid@.take(i + 1).drop_last() =~= grid@.take(i as int));
        let g: CoverageNeed = grid[i];
        assert(valid_clock(grid@[i as int].band_start));
        if g.day_of_week == today {
            let band: std::ops::Range<i32> = band_hours(g.band_start, g.band_end);
            let from: i32 = band.start;
            let to: i32 = band.end;
            let ghost had = list@;
            let mut h: i32 = from;
            while h < to
                invariant
                    0 <= from <= h,
                    h <= to || h == from,
                    to <= 24,
                    MIN_DAY + 40 <= week <= MAX_DAY - 40,
                    week <= d <= week + 6,
                    held_needs(list@, week),
                    with_hours(had, d, from as int, to as int, g.department_id, g.staff as int)
                        == with_hours(
                        list@,
                        d,
                        h as int,
                        to as int,
                        g.department_id,
                        g.staff as int,
                    ),
                decreases to - h,
            {
                proof {
                    lemma_with_need_held(
                        list@,
                        d,
                        h as int,
                        g.department_id,
                        g.staff as int,
                        week,
                    );
                }
                add_need(list, d, h, g.department_id, g.staff as i32);
                h += 1;
            }
        }
        i += 1;
    }
    assert(grid@.take(grid@.len() as int) =~= grid@);
}

fn fill_sales_day(
    list: &mut Vec<Need>,
    d: Day,
    hours: &Vec<HourOrders>,
    per_staff: i32,
    week: Day,
)
    requires
        MIN_DAY + 40 <= week <= MAX_DAY - 40,
        week <= d <= week + 6,
        held_needs(old(list)@, week),
        forall|i: int| 0 <= i < hours@.len() ==> (#[trigger] hours@[i]).hour < 24,
    ensures
        final(list)@ == sales_day(old(list)@, d, hours@, per_staff),
        held_needs(final(list)@, week),
{
    let today: i16 = dow(d);
    let ghost start = list@;
    let mut i: usize = 0;
    while i < hours.len()
        invariant
            i <= hours@.len(),
            MIN_DAY + 40 <= week <= MAX_DAY - 40,
            week <= d <= week + 6,
            today == weekday(d),
            forall|k: int| 0 <= k < hours@.len() ==> (#[trigger] hours@[k]).hour < 24,
            list@ == sales_day(start, d, hours@.take(i as int), per_staff),
            held_needs(list@, week),
        decreases hours@.len() - i,
    {
        assert(hours@.take(i + 1).drop_last() =~= hours@.take(i as int));
        let h: HourOrders = hours[i];
        assert(hours@[i as int].hour < 24);
        let staff: i32 = pos_need(h.orders, SALES_WEEKS, per_staff);
        if h.day_of_week == today && staff > 0 {
            proof {
                lemma_with_need_held(list@, d, h.hour as int, None, staff as int, week);
            }
            add_need(list, d, h.hour as i32, None, staff);
        }
        i += 1;
    }
    assert(hours@.take(hours@.len() as int) =~= hours@);
}

/// Hourly coverage need for the week: the typed grid, else what the sales
/// suggest (none without POS). Empty = fall back to the pattern.
pub fn coverage_need(
    week: Day,
    grid: &Vec<CoverageNeed>,
    hours: &Vec<HourOrders>,
    per_staff: i32,
) -> (r: Vec<Need>)
    requires
        MIN_DAY + 40 <= week <= MAX_DAY - 40,
        forall|i: int|
            0 <= i < grid@.len() ==> valid_clock((#[trigger] grid@[i]).band_start) && valid_clock(
                grid@[i].band_end,
            ),
        forall|i: int| 0 <= i < hours@.len() ==> (#[trigger] hours@[i]).hour < 24,
    ensures
        r@ == week_needs(week, 7, grid@, hours@, per_staff),
        held_needs(r@, week),
{
    let mut out: Vec<Need> = Vec::new();
    let mut i: i32 = 0;
    while i < 7
        invariant
            0 <= i <= 7,
            MIN_DAY + 40 <= week <= MAX_DAY - 40,
            forall|k: int|
                0 <= k < grid@.len() ==> valid_clock((#[trigger] grid@[k]).band_start)
                    && valid_clock(grid@[k].band_end),
            forall|k: int| 0 <= k < hours@.len() ==> (#[trigger] hours@[k]).hour < 24,
            out@ == week_needs(week, i as int, grid@, hours@, per_staff),
            held_needs(out@, week),
        decreases 7 - i,
    {
        let d: Day = week + i;
        if grid.len() > 0 {
            fill_grid_day(&mut out, d, grid, week);
        } else {
            fill_sales_day(&mut out, d, hours, per_staff, week);
        }
        i += 1;
    }
    out
}

/// The zone a week is solved in where the branch's own is not known.
pub open spec fn default_zone() -> Seq<char> {
    "Africa/Cairo"@
}

/// The branch's zone, or the default one where it is not known.
pub fn branch_zone(name: String) -> (r: String)
    ensures
        r@ == if zone_exists(name@) {
            name@
        } else {
            default_zone()
        },
{
    if zone_known(name.as_str()) {
        name
    } else {
        "Africa/Cairo".to_owned()
    }
}

/// Everything a branch's week is loaded from.
pub struct WeekFacts {
    /// The Saturday.
    pub week: Day,
    pub branch_id: Id,
    pub zone: String,
    /// The night, from and to.
    pub night: (ClockTime, ClockTime),
    /// The blocks of the business.
    pub blocks: Vec<WorkShiftBrief>,
    pub staff: Vec<RosterPerson>,
    pub limits: Limits,
    pub gender_mode: String,
    pub gender_default: Score,
    pub leave: Vec<(Id, Day)>,
    /// The staff's assignments this week and a day either side.
    pub roster: Vec<RosterFact>,
    /// What the standing pattern intends this week.
    pub pattern: Vec<PatternFact>,
    /// The staff's assignments of the four weeks before.
    pub past: Vec<PastShift>,
    /// The staff's attendance over the eight weeks before.
    pub attendance: Vec<AttendanceCount>,
    /// What was learned of each of the staff.
    pub learned: Vec<Option<Learned>>,
    pub frozen: bool,
    /// The suggestions already decided.
    pub decided: Vec<String>,
    /// The typed coverage grid.
    pub grid: Vec<CoverageNeed>,
    /// The orders of each hour, where POS is on.
    pub orders: Vec<HourOrders>,
    pub orders_per_staff: i32,
}

impl WeekFacts {
    /// Facts a week can be solved from.
    pub open spec fn valid(self) -> bool {
        &&& MIN_DAY + 40 <= self.week <= MAX_DAY - 40
        &&& self.blocks@.len() <= IN_MEMORY
        &&& self.pattern@.len() < i64::MAX
        &&& self.learned@.len() == self.staff@.len()
        &&& 0 <= self.gender_default <= MAX_PART
        &&& valid_clock(self.night.0)
        &&& valid_clock(self.night.1)
        &&& forall|i: int| 0 <= i < self.blocks@.len() ==> (#[trigger] self.blocks@[i]).valid()
        &&& forall|i: int| 0 <= i < self.roster@.len() ==> (#[trigger] self.roster@[i]).span.valid()
        &&& forall|i: int|
            0 <= i < self.grid@.len() ==> valid_clock((#[trigger] self.grid@[i]).band_start)
                && valid_clock(self.grid@[i].band_end)
        &&& forall|i: int| 0 <= i < self.orders@.len() ==> (#[trigger] self.orders@[i]).hour < 24
        &&& forall|i: int|
            0 <= i < self.learned@.len() && (#[trigger] self.learned@[i]) is Some ==> -MAX_PART
                <= self.learned@[i]->0.day_fit <= MAX_PART && -MAX_PART
                <= self.learned@[i]->0.late_fit <= MAX_PART
        &&& forall|i: int, j: int|
            0 <= i < j < self.staff@.len() ==> (#[trigger] self.staff@[i]).employee_id != (
            #[trigger] self.staff@[j]).employee_id
    }

    /// The branch's blocks.
    pub open spec fn shifts(self) -> Seq<WorkShiftBrief> {
        self.blocks@.filter(|w: WorkShiftBrief| of_branch(w, self.branch_id))
    }
}

/// The problem is the one the facts make.
pub open spec fn loads(f: WeekFacts, p: Problem) -> bool {
    &&& p.week == f.week
    &&& p.zone@ == if zone_exists(f.zone@) {
        f.zone@
    } else {
        default_zone()
    }
    &&& p.staff@ == f.staff@
    &&& p.shifts@ == f.shifts()
    &&& p.late@.len() == p.shifts@.len()
    &&& forall|i: int|
        0 <= i < p.late@.len() ==> #[trigger] p.late@[i] == late_block(
            p.shifts@[i],
            f.week,
            f.night,
        )
    &&& p.limits == f.limits
    &&& p.gender_mode@ == f.gender_mode@
    &&& p.gender_default == f.gender_default
    &&& p.spans@ == counted(f.roster@, f.leave@)
    &&& p.by_day@ == placed(f.roster@, f.leave@, f.shifts(), f.branch_id, f.week)
    &&& p.pattern_need@ == intends(f.pattern@, f.shifts(), f.branch_id)
    &&& p.need@ == week_needs(f.week, 7, f.grid@, f.orders@, f.orders_per_staff)
    &&& p.leave@ == f.leave@
    &&& p.learned@ == f.learned@
    &&& p.frozen == f.frozen
    &&& p.reliability@.len() == f.staff@.len()
    &&& p.late_history@.len() == f.staff@.len()
    &&& forall|i: int|
        0 <= i < f.staff@.len() ==> {
            let who = f.staff@[i].employee_id;
            &&& (#[trigger] p.reliability@[i]).day == turnout_of(
                added_up(f.attendance@, f.shifts(), p.late@, who, false),
            )
            &&& p.reliability@[i].night == turnout_of(
                added_up(f.attendance@, f.shifts(), p.late@, who, true),
            )
        }
    &&& forall|i: int|
        0 <= i < f.staff@.len() ==> #[trigger] p.late_history@[i] == capped(
            late_shifts_of(f.past@, f.shifts(), p.late@, f.staff@[i].employee_id),
        )
    &&& p.usual@ == usual_of(f.past@, f.shifts())
    &&& p.decided@ == f.decided@
}

/// Everything the solver needs for one branch's week.
pub fn load_problem(f: WeekFacts) -> (r: Problem)
    requires
        f.valid(),
    ensures
        loads(f, r),
        r.valid(),
{
    let shifts: Vec<WorkShiftBrief> = branch_shifts(f.blocks, f.branch_id);
    proof {
        lemma_kept_blocks(f.blocks@, f.branch_id);
    }
    let late: Vec<bool> = late_blocks(&shifts, f.week, f.night);
    let (spans, by_day) = place_week(&f.roster, &f.leave, &shifts, f.branch_id, f.week);
    let pattern_need: Vec<PatternNeed> = pattern_counts(&f.pattern, &shifts, f.branch_id);
    let need: Vec<Need> = coverage_need(f.week, &f.grid, &f.orders, f.orders_per_staff);
    let usual: Vec<(Id, usize)> = usual_shifts(&f.past, &shifts);
    let mut reliability: Vec<Reliability> = Vec::new();
    let mut late_history: Vec<u32> = Vec::new();
    let staff: Vec<RosterPerson> = f.staff;
    let mut i: usize = 0;
    while i < staff.len()
        invariant
            i <= staff@.len(),
            late@.len() == shifts@.len(),
            reliability@.len() == i,
            late_history@.len() == i,
            forall|k: int|
                0 <= k < i ==> {
                    let who = staff@[k].employee_id;
                    &&& (#[trigger] reliability@[k]).day == turnout_of(
                        added_up(f.attendance@, shifts@, late@, who, false),
                    )
                    &&& reliability@[k].night == turnout_of(
                        added_up(f.attendance@, shifts@, late@, who, true),
                    )
                },
            forall|k: int|
                0 <= k < i ==> #[trigger] late_history@[k] == capped(
                    late_shifts_of(f.past@, shifts@, late@, staff@[k].employee_id),
                ),
        decreases staff@.len() - i,
    {
        let who: Id = staff[i].employee_id;
        reliability.push(
            Reliability {
                day: add_up(&f.attendance, &shifts, &late, who, false),
                night: add_up(&f.attendance, &shifts, &late, who, true),
            },
        );
        late_history.push(late_history_of(&f.past, &shifts, &late, who));
        i += 1;
    }
    Problem {
        week: f.week,
        zone: branch_zone(f.zone),
        staff,
        shifts,
        late,
        limits: f.limits,
        gender_mode: f.gender_mode,
        gender_default: f.gender_default,
        spans,
        by_day,
        pattern_need,
        need,
        leave: f.leave,
        learned: f.learned,
        frozen: f.frozen,
        reliability,
        late_history,
        usual,
        decided: f.decided,
    }
}

/// The branch's blocks are blocks of the business.
proof fn lemma_kept_blocks(blocks: Seq<WorkShiftBrief>, branch: Id)
    requires
        forall|i: int| 0 <= i < blocks.len() ==> (#[trigger] blocks[i]).valid(),
    ensures
        ({
            let kept = blocks.filter(|w: WorkShiftBrief| of_branch(w, branch));
            &&& kept.len() <= blocks.len()
            &&& forall|i: int| 0 <= i < kept.len() ==> (#[trigger] kept[i]).valid()
        }),
    decreases blocks.len(),
{
    reveal(Seq::filter);
    if blocks.len() > 0 {
        let rest = blocks.drop_last();
        assert forall|i: int| 0 <= i < rest.len() implies (#[trigger] rest[i]).valid() by {
            assert(blocks[i].valid());
        }
        lemma_kept_blocks(rest, branch);
        assert(blocks[blocks.len() - 1].valid());
    }
}

/// A block that cannot be the branch's is never suggested: only the branch's
/// own and the whole business's blocks are loaded.
pub proof fn law_only_the_branchs_blocks_are_loaded(f: WeekFacts, i: int)
    requires
        0 <= i < f.shifts().len(),
    ensures
        of_branch(f.shifts()[i], f.branch_id),
{
    broadcast use vstd::seq_lib::group_filter_ensures;

    let g = |w: WorkShiftBrief| of_branch(w, f.branch_id);
    assert(f.shifts() == f.blocks@.filter(g));
    assert(g(f.shifts()[i]));
}

} // verus!
