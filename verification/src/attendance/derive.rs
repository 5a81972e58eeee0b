//! What a record's stamps imply, once the day's approved requests have been
//! taken into account.

pub mod forgiven;

use vstd::prelude::*;

use crate::calendar::{
    max_of, min_of, minutes_between, minutes_from, valid_moment, Id, Moment,
};

verus! {

/// How a day counts.
#[derive(Clone, Copy, Debug, PartialEq, Eq, Structural)]
pub enum AttendanceStatus {
    Present,
    Late,
    Absent,
    HalfDay,
    OnLeave,
}

impl AttendanceStatus {
    /// The status in the database.
    pub open spec fn name(self) -> Seq<char> {
        match self {
            AttendanceStatus::Present => "present"@,
            AttendanceStatus::Late => "late"@,
            AttendanceStatus::Absent => "absent"@,
            AttendanceStatus::HalfDay => "half_day"@,
            AttendanceStatus::OnLeave => "on_leave"@,
        }
    }

    /// The status in the database.
    pub fn as_str(&self) -> (r: &'static str)
        ensures
            r@ == self.name(),
    {
        match self {
            AttendanceStatus::Present => "present",
            AttendanceStatus::Late => "late",
            AttendanceStatus::Absent => "absent",
            AttendanceStatus::HalfDay => "half_day",
            AttendanceStatus::OnLeave => "on_leave",
        }
    }
}

/// The numbers a record's stamps imply. Computed identically for a live
/// check-out and for an admin's manual correction, so a corrected row is
/// indistinguishable from one that was clocked properly.
#[derive(Clone, Copy, Debug, PartialEq, Eq, Structural)]
pub struct Derived {
    pub late_minutes: i64,
    pub early_leave_minutes: i64,
    pub overtime_minutes: i64,
    pub worked_minutes: i64,
    pub status: AttendanceStatus,
}

/// An approved window of time off inside a shift, and whether it is paid.
#[derive(Clone, Copy, Debug, PartialEq, Eq, Structural)]
pub struct ExcusedWindow {
    pub from: Moment,
    pub to: Moment,
    pub paid: bool,
}

impl ExcusedWindow {
    pub open spec fn valid(self) -> bool {
        valid_moment(self.from) && valid_moment(self.to)
    }

    /// The whole minutes the window shares with `[from, to]`.
    pub open spec fn shared(self, from: Moment, to: Moment) -> int {
        max_of(
            minutes_between(
                max_of(self.from as int, from as int) as Moment,
                min_of(self.to as int, to as int) as Moment,
            ),
            0,
        )
    }

    /// Minutes of this window inside `[from, to]`.
    pub fn minutes_within(&self, from: Moment, to: Moment) -> (r: i64)
        requires
            self.valid(),
            valid_moment(from),
            valid_moment(to),
        ensures
            r == self.shared(from, to),
            0 <= r < 300_000_000_000,
    {
        let a: Moment = if self.from >= from {
            self.from
        } else {
            from
        };
        let b: Moment = if self.to <= to {
            self.to
        } else {
            to
        };
        let n: i64 = minutes_from(a, b);
        if n > 0 {
            n
        } else {
            0
        }
    }
}

/// A window shares no more minutes with another than either holds.
pub proof fn law_shared_minutes_are_within_both(w: ExcusedWindow, from: Moment, to: Moment)
    ensures
        0 <= w.shared(from, to),
        w.shared(from, to) <= max_of(minutes_between(w.from, w.to), 0),
        w.shared(from, to) <= max_of(minutes_between(from, to), 0),
{
    let a = max_of(w.from as int, from as int) as Moment;
    let b = min_of(w.to as int, to as int) as Moment;
    if b >= a {
        assert(b - a <= w.to - w.from && b - a <= to - from);
    }
}

/// One approved late arrival or early departure: the agreed time on the
/// business date and on the day after (a night shift's arrival after
/// midnight), and the shift it names, if any.
#[derive(Debug, Clone)]
pub struct TimedRequest {
    pub candidates: Vec<Moment>,
    pub work_shift_id: Option<Id>,
    pub paid: bool,
}

/// One approved excuse: the window on the business date and on the day after.
#[derive(Debug, Clone)]
pub struct WindowRequest {
    pub candidates: Vec<(Moment, Moment)>,
    pub work_shift_id: Option<Id>,
    pub paid: bool,
}

/// What the day's approved requests forgive.
///
/// A request belongs to one shift of the day: the one it names, else the one
/// its time falls in. [`DayAdjustments::for_shift`] picks what applies to a
/// shift, so on a split day an arrival agreed for the evening never excuses the
/// morning, and a night shift's after-midnight time lands on the next calendar
/// day.
#[derive(Debug, Clone)]
pub struct DayAdjustments {
    pub late_arrivals: Vec<TimedRequest>,
    pub early_departures: Vec<TimedRequest>,
    pub excuses: Vec<WindowRequest>,
    /// Approved leave or mission covers the whole day (or a half-day leave
    /// under the business's "counts as the whole day" rule).
    pub on_leave: bool,
    /// Whether that day off is paid (a mission always is).
    pub leave_paid: bool,
    /// A half-day leave: the half of the day's rostered time that is off.
    pub half_off: Option<ExcusedWindow>,
}

/// [`DayAdjustments`] resolved for one shift.
#[derive(Debug, Clone)]
pub struct ShiftAdjustments {
    /// The grace deadline moves to this instant (a late arrival, or the end
    /// of a first-half leave).
    pub excused_until: Option<Moment>,
    /// Leaving after this instant is not early (an early departure, or the
    /// start of a second-half leave).
    pub excused_from: Option<Moment>,
    /// The approved early departure alone (not a half-day leave), with its pay.
    pub early_departure: Option<(Moment, bool)>,
    pub excuses: Vec<ExcusedWindow>,
    /// The whole shift is off.
    pub on_leave: bool,
    /// Minutes of this shift on leave (all of it when `on_leave`), and whether
    /// they are paid.
    pub leave_minutes: i64,
    pub leave_paid: bool,
}

/// A request belongs to a shift: it names it, or names none.
pub open spec fn belongs(named: Option<Id>, shift: Option<Id>) -> bool {
    named is None || named == shift
}

/// The latest of the times within `(s, e]`, or `cur` where none is later.
pub open spec fn latest_time(
    times: Seq<Moment>,
    s: Moment,
    e: Moment,
    cur: Option<Moment>,
) -> Option<Moment>
    decreases times.len(),
{
    if times.len() == 0 {
        cur
    } else {
        let best = latest_time(times.drop_last(), s, e, cur);
        let c = times.last();
        if s < c <= e && (best is None || c > best->0) {
            Some(c)
        } else {
            best
        }
    }
}

/// The latest arrival agreed for a shift, inside it.
pub open spec fn latest_arrival(
    rs: Seq<TimedRequest>,
    shift: Option<Id>,
    s: Moment,
    e: Moment,
) -> Option<Moment>
    decreases rs.len(),
{
    if rs.len() == 0 {
        None
    } else {
        let best = latest_arrival(rs.drop_last(), shift, s, e);
        if belongs(rs.last().work_shift_id, shift) {
            latest_time(rs.last().candidates@, s, e, best)
        } else {
            best
        }
    }
}

/// The earliest of the times within `[s, e)` with its pay, or `cur` where none
/// is earlier.
pub open spec fn earliest_time(
    times: Seq<Moment>,
    paid: bool,
    s: Moment,
    e: Moment,
    cur: Option<(Moment, bool)>,
) -> Option<(Moment, bool)>
    decreases times.len(),
{
    if times.len() == 0 {
        cur
    } else {
        let best = earliest_time(times.drop_last(), paid, s, e, cur);
        let c = times.last();
        if s <= c < e && (best is None || c < (best->0).0) {
            Some((c, paid))
        } else {
            best
        }
    }
}

/// The earliest departure agreed for a shift, inside it, with its pay.
pub open spec fn earliest_departure(
    rs: Seq<TimedRequest>,
    shift: Option<Id>,
    s: Moment,
    e: Moment,
) -> Option<(Moment, bool)>
    decreases rs.len(),
{
    if rs.len() == 0 {
        None
    } else {
        let best = earliest_departure(rs.drop_last(), shift, s, e);
        let r = rs.last();
        if belongs(r.work_shift_id, shift) {
            earliest_time(r.candidates@, r.paid, s, e, best)
        } else {
            best
        }
    }
}

/// The first of the windows that meets a shift.
pub open spec fn first_meeting(ws: Seq<(Moment, Moment)>, s: Moment, e: Moment) -> Option<
    (Moment, Moment),
>
    decreases ws.len(),
{
    if ws.len() == 0 {
        None
    } else {
        match first_meeting(ws.drop_last(), s, e) {
            Some(w) => Some(w),
            None => if ws.last().0 < e && ws.last().1 > s {
                Some(ws.last())
            } else {
                None
            },
        }
    }
}

/// The window of an excuse that applies: the first that meets the shift, or
/// without a rostered shift the first there is.
pub open spec fn applying_window(
    r: WindowRequest,
    window: Option<(Moment, Moment)>,
) -> Option<(Moment, Moment)> {
    match window {
        Some((s, e)) => first_meeting(r.candidates@, s, e),
        None => if r.candidates@.len() > 0 {
            Some(r.candidates@[0])
        } else {
            None
        },
    }
}

/// The excuses that apply to a shift.
pub open spec fn shift_excuses(
    rs: Seq<WindowRequest>,
    shift: Option<Id>,
    window: Option<(Moment, Moment)>,
) -> Seq<ExcusedWindow>
    decreases rs.len(),
{
    if rs.len() == 0 {
        Seq::empty()
    } else {
        let before = shift_excuses(rs.drop_last(), shift, window);
        let r = rs.last();
        match applying_window(r, window) {
            Some((from, to)) => if belongs(r.work_shift_id, shift) {
                before.push(ExcusedWindow { from, to, paid: r.paid })
            } else {
                before
            },
            None => before,
        }
    }
}

/// A shift's rostered window, where it has both ends.
pub open spec fn rostered(start: Option<Moment>, end: Option<Moment>) -> Option<(Moment, Moment)> {
    if start is Some && end is Some {
        Some((start->0, end->0))
    } else {
        None
    }
}

/// The minutes of a rostered window.
pub open spec fn window_length(window: Option<(Moment, Moment)>) -> int {
    match window {
        Some((s, e)) => max_of(minutes_between(s, e), 0),
        None => 0,
    }
}

/// The half-day leave that bears on a shift: none on a day wholly off, and none
/// that shares no minute with it.
pub open spec fn half_day(day: DayAdjustments, window: Option<(Moment, Moment)>) -> Option<
    ExcusedWindow,
> {
    if day.on_leave || day.half_off is None || window is None || day.half_off->0.shared(
        (window->0).0,
        (window->0).1,
    ) <= 0 {
        None
    } else {
        day.half_off
    }
}

/// The half-day leave covers the whole shift.
pub open spec fn covers(off: ExcusedWindow, window: (Moment, Moment)) -> bool {
    off.from <= window.0 && off.to >= window.1
}

/// What applies to a shift of the day.
pub open spec fn applies(
    day: DayAdjustments,
    start: Option<Moment>,
    end: Option<Moment>,
    shift: Option<Id>,
    out: ShiftAdjustments,
) -> bool {
    let w = rostered(start, end);
    let half = half_day(day, w);
    let arrival = match w {
        Some((s, e)) => latest_arrival(day.late_arrivals@, shift, s, e),
        None => None,
    };
    let departure = match w {
        Some((s, e)) => earliest_departure(day.early_departures@, shift, s, e),
        None => None,
    };
    let off_all = half is Some && covers(half->0, w->0);
    let off_first = half is Some && !off_all && half->0.from <= (w->0).0;
    let off_second = half is Some && !off_all && half->0.from > (w->0).0;
    &&& out.excuses@ == shift_excuses(day.excuses@, shift, w)
    &&& out.early_departure == departure
    &&& out.on_leave == (day.on_leave || off_all)
    &&& out.leave_paid == match half {
        Some(off) => off.paid,
        None => day.leave_paid,
    }
    &&& out.leave_minutes == if day.on_leave || off_all {
        window_length(w)
    } else if half is Some {
        half->0.shared((w->0).0, (w->0).1)
    } else {
        0
    }
    // First half off: they are due when it ends.
    &&& out.excused_until == if off_first && (arrival is None || half->0.to > arrival->0) {
        Some(half->0.to)
    } else {
        arrival
    }
    // Second half off: they may leave when it starts.
    &&& out.excused_from == if off_second && (departure is None || half->0.from < (departure->0).0) {
        Some(half->0.from)
    } else {
        match departure {
            Some(d) => Some(d.0),
            None => None,
        }
    }
}

/// Instants the calendar holds.
pub open spec fn valid_stamp(t: Option<Moment>) -> bool {
    t is Some ==> valid_moment(t->0)
}

impl DayAdjustments {
    /// Requests whose times the calendar holds.
    pub open spec fn valid(self) -> bool {
        &&& self.half_off is Some ==> self.half_off->0.valid()
        &&& forall|i: int, k: int|
            0 <= i < self.late_arrivals@.len() && 0 <= k < self.late_arrivals@[i].candidates@.len()
                ==> valid_moment(#[trigger] self.late_arrivals@[i].candidates@[k])
        &&& forall|i: int, k: int|
            0 <= i < self.early_departures@.len() && 0 <= k
                < self.early_departures@[i].candidates@.len() ==> valid_moment(
                #[trigger] self.early_departures@[i].candidates@[k],
            )
        &&& forall|i: int, k: int|
            0 <= i < self.excuses@.len() && 0 <= k < self.excuses@[i].candidates@.len()
                ==> valid_moment((#[trigger] self.excuses@[i].candidates@[k]).0) && valid_moment(
                self.excuses@[i].candidates@[k].1,
            )
    }

    /// What applies to the shift `[start, end]` (`shift` = its template).
    /// Without a rostered window only the whole-day facts and the excuses
    /// apply; lateness and early leave need a schedule to exist at all.
    pub fn for_shift(&self, start: Option<Moment>, end: Option<Moment>, shift: Option<Id>) -> (out:
        ShiftAdjustments)
        requires
            self.valid(),
            valid_stamp(start),
            valid_stamp(end),
        ensures
            applies(*self, start, end, shift, out),
            out.valid(),
    {
        let window: Option<(Moment, Moment)> = match (start, end) {
            (Some(s), Some(e)) => Some((s, e)),
            _ => None,
        };
        let excuses: Vec<ExcusedWindow> = self.list_excuses(shift, window);
        let (s, e): (Moment, Moment) = match window {
            Some(w) => w,
            None => {
                return ShiftAdjustments {
                    excused_until: None,
                    excused_from: None,
                    early_departure: None,
                    excuses,
                    on_leave: self.on_leave,
                    leave_minutes: 0,
                    leave_paid: self.leave_paid,
                };
            },
        };
        let whole: i64 = {
            let n: i64 = minutes_from(s, e);
            if n > 0 {
                n
            } else {
                0
            }
        };
        let arrival: Option<Moment> = self.find_arrival(shift, s, e);
        let departure: Option<(Moment, bool)> = self.find_departure(shift, s, e);
        let mut out: ShiftAdjustments = ShiftAdjustments {
            excused_until: arrival,
            excused_from: match departure {
                Some(d) => Some(d.0),
                None => None,
            },
            early_departure: departure,
            excuses,
            on_leave: self.on_leave,
            leave_minutes: if self.on_leave {
                whole
            } else {
                0
            },
            leave_paid: self.leave_paid,
        };
        if let Some(off) = self.half_off {
            if !self.on_leave {
                let inside: i64 = off.minutes_within(s, e);
                if inside > 0 {
                    out.leave_paid = off.paid;
                    if off.from <= s && off.to >= e {
                        out.on_leave = true;
                        out.leave_minutes = whole;
                    } else {
                        out.leave_minutes = inside;
                        if off.from <= s {
                            let later: bool = match arrival {
                                Some(cur) => off.to > cur,
                                None => true,
                            };
                            if later {
                                out.excused_until = Some(off.to);
                            }
                        } else {
                            let earlier: bool = match departure {
                                Some(d) => off.from < d.0,
                                None => true,
                            };
                            if earlier {
                                out.excused_from = Some(off.from);
                            }
                        }
                    }
                }
            }
        }
        out
    }

    /// A late arrival's agreed time inside the shift; the latest wins (the more
    /// generous one is the one last agreed).
    fn find_arrival(&self, shift: Option<Id>, s: Moment, e: Moment) -> (r: Option<Moment>)
        requires
            self.valid(),
        ensures
            r == latest_arrival(self.late_arrivals@, shift, s, e),
            valid_stamp(r),
    {
        let rs: &Vec<TimedRequest> = &self.late_arrivals;
        let mut best: Option<Moment> = None;
        let mut i: usize = 0;
        while i < rs.len()
            invariant
                i <= rs@.len(),
                self.valid(),
                rs@ == self.late_arrivals@,
                best == latest_arrival(rs@.take(i as int), shift, s, e),
                valid_stamp(best),
            decreases rs@.len() - i,
        {
            assert(rs@.take(i + 1).drop_last() =~= rs@.take(i as int));
            let mine: bool = match rs[i].work_shift_id {
                Some(n) => shift.is_some() && shift.unwrap() == n,
                None => true,
            };
            if mine {
                let cs: &Vec<Moment> = &rs[i].candidates;
                let ghost before = best;
                let mut k: usize = 0;
                while k < cs.len()
                    invariant
                        k <= cs@.len(),
                        i < rs@.len(),
                        self.valid(),
                        rs@ == self.late_arrivals@,
                        cs@ == rs@[i as int].candidates@,
                        best == latest_time(cs@.take(k as int), s, e, before),
                        valid_stamp(best),
                    decreases cs@.len() - k,
                {
                    assert(cs@.take(k + 1).drop_last() =~= cs@.take(k as int));
                    let c: Moment = cs[k];
                    assert(valid_moment(self.late_arrivals@[i as int].candidates@[k as int]));
                    let later: bool = match best {
                        Some(cur) => c > cur,
                        None => true,
                    };
                    if c > s && c <= e && later {
                        best = Some(c);
                    }
                    k += 1;
                }
                assert(cs@.take(cs@.len() as int) =~= cs@);
            }
            i += 1;
        }
        assert(rs@.take(rs@.len() as int) =~= rs@);
        best
    }

    /// An early departure's agreed time inside the shift; the earliest wins.
    fn find_departure(&self, shift: Option<Id>, s: Moment, e: Moment) -> (r: Option<(Moment, bool)>)
        requires
            self.valid(),
        ensures
            r == earliest_departure(self.early_departures@, shift, s, e),
            r is Some ==> valid_moment((r->0).0),
    {
        let rs: &Vec<TimedRequest> = &self.early_departures;
        let mut best: Option<(Moment, bool)> = None;
        let mut i: usize = 0;
        while i < rs.len()
            invariant
                i <= rs@.len(),
                self.valid(),
                rs@ == self.early_departures@,
                best == earliest_departure(rs@.take(i as int), shift, s, e),
                best is Some ==> valid_moment((best->0).0),
            decreases rs@.len() - i,
        {
            assert(rs@.take(i + 1).drop_last() =~= rs@.take(i as int));
            let mine: bool = match rs[i].work_shift_id {
                Some(n) => shift.is_some() && shift.unwrap() == n,
                None => true,
            };
            if mine {
                let paid: bool = rs[i].paid;
                let cs: &Vec<Moment> = &rs[i].candidates;
                let ghost before = best;
                let mut k: usize = 0;
                while k < cs.len()
                    invariant
                        k <= cs@.len(),
                        i < rs@.len(),
                        self.valid(),
                        rs@ == self.early_departures@,
                        cs@ == rs@[i as int].candidates@,
                        best == earliest_time(cs@.take(k as int), paid, s, e, before),
                        best is Some ==> valid_moment((best->0).0),
                    decreases cs@.len() - k,
                {
                    assert(cs@.take(k + 1).drop_last() =~= cs@.take(k as int));
                    let c: Moment = cs[k];
                    assert(valid_moment(self.early_departures@[i as int].candidates@[k as int]));
                    let earlier: bool = match best {
                        Some(cur) => c < cur.0,
                        None => true,
                    };
                    if c >= s && c < e && earlier {
                        best = Some((c, paid));
                    }
                    k += 1;
                }
                assert(cs@.take(cs@.len() as int) =~= cs@);
            }
            i += 1;
        }
        assert(rs@.take(rs@.len() as int) =~= rs@);
        best
    }

    /// The excuses that apply to a shift.
    fn list_excuses(&self, shift: Option<Id>, window: Option<(Moment, Moment)>) -> (r: Vec<
        ExcusedWindow,
    >)
        requires
            self.valid(),
        ensures
            r@ == shift_excuses(self.excuses@, shift, window),
            forall|i: int| 0 <= i < r@.len() ==> (#[trigger] r@[i]).valid(),
    {
        let rs: &Vec<WindowRequest> = &self.excuses;
        let mut out: Vec<ExcusedWindow> = Vec::new();
        let mut i: usize = 0;
        while i < rs.len()
            invariant
                i <= rs@.len(),
                self.valid(),
                rs@ == self.excuses@,
                out@ == shift_excuses(rs@.take(i as int), shift, window),
                forall|i: int| 0 <= i < out@.len() ==> (#[trigger] out@[i]).valid(),
            decreases rs@.len() - i,
        {
            assert(rs@.take(i + 1).drop_last() =~= rs@.take(i as int));
            let mine: bool = match rs[i].work_shift_id {
                Some(n) => shift.is_some() && shift.unwrap() == n,
                None => true,
            };
            let found: Option<(Moment, Moment)> = match window {
                Some((s, e)) => find_meeting(&rs[i].candidates, s, e),
                None => if rs[i].candidates.len() > 0 {
                    Some(rs[i].candidates[0])
                } else {
                    None
                },
            };
            proof {
                if window is Some {
                    lemma_first_meeting_is_one(rs@[i as int].candidates@, (window->0).0, (window->0).1);
                }
                assert(found is Some ==> exists|k: int|
                    0 <= k < rs@[i as int].candidates@.len() && found->0 == (
                    #[trigger] self.excuses@[i as int].candidates@[k]));
            }
            if mine {
                if let Some((from, to)) = found {
                    out.push(ExcusedWindow { from, to, paid: rs[i].paid });
                }
            }
            i += 1;
        }
        assert(rs@.take(rs@.len() as int) =~= rs@);
        out
    }
}

/// The window found is one of the list.
proof fn lemma_first_meeting_is_one(ws: Seq<(Moment, Moment)>, s: Moment, e: Moment)
    ensures
        first_meeting(ws, s, e) is Some ==> exists|k: int|
            0 <= k < ws.len() && first_meeting(ws, s, e)->0 == #[trigger] ws[k],
    decreases ws.len(),
{
    if ws.len() > 0 {
        lemma_first_meeting_is_one(ws.drop_last(), s, e);
        if first_meeting(ws.drop_last(), s, e) is Some {
            let k = choose|k: int|
                0 <= k < ws.drop_last().len() && first_meeting(ws.drop_last(), s, e)->0
                    == #[trigger] ws.drop_last()[k];
            assert(ws[k] == ws.drop_last()[k]);
        } else {
            assert(ws[ws.len() - 1] == ws.last());
        }
    }
}

proof fn lemma_first_meeting_stays(ws: Seq<(Moment, Moment)>, s: Moment, e: Moment, k: int)
    requires
        0 <= k <= ws.len(),
        first_meeting(ws.take(k), s, e) is Some,
    ensures
        first_meeting(ws, s, e) == first_meeting(ws.take(k), s, e),
    decreases ws.len() - k,
{
    if k == ws.len() {
        assert(ws.take(k) =~= ws);
    } else {
        assert(ws.take(k + 1).drop_last() =~= ws.take(k));
        lemma_first_meeting_stays(ws, s, e, k + 1);
    }
}

/// The first of the windows that meets a shift.
fn find_meeting(ws: &Vec<(Moment, Moment)>, s: Moment, e: Moment) -> (r: Option<(Moment, Moment)>)
    ensures
        r == first_meeting(ws@, s, e),
{
    let mut i: usize = 0;
    while i < ws.len()
        invariant
            i <= ws@.len(),
            first_meeting(ws@.take(i as int), s, e) is None,
        decreases ws@.len() - i,
    {
        assert(ws@.take(i + 1).drop_last() =~= ws@.take(i as int));
        if ws[i].0 < e && ws[i].1 > s {
            proof {
                lemma_first_meeting_stays(ws@, s, e, i + 1);
            }
            return Some(ws[i]);
        }
        i += 1;
    }
    assert(ws@.take(ws@.len() as int) =~= ws@);
    None
}

/// A request that names another shift excuses nothing of this one: what applies
/// is the same without it.
pub proof fn law_a_request_excuses_only_its_shift(
    rs: Seq<TimedRequest>,
    r: TimedRequest,
    shift: Option<Id>,
    s: Moment,
    e: Moment,
)
    requires
        !belongs(r.work_shift_id, shift),
    ensures
        latest_arrival(rs.push(r), shift, s, e) == latest_arrival(rs, shift, s, e),
        earliest_departure(rs.push(r), shift, s, e) == earliest_departure(rs, shift, s, e),
{
    assert(rs.push(r).drop_last() =~= rs);
}

/// An agreed arrival lies inside the shift, and no time agreed for the shift is
/// later.
pub proof fn law_the_latest_arrival_wins(
    rs: Seq<TimedRequest>,
    shift: Option<Id>,
    s: Moment,
    e: Moment,
    i: int,
    k: int,
)
    ensures
        latest_arrival(rs, shift, s, e) is Some ==> s < latest_arrival(rs, shift, s, e)->0 <= e,
        0 <= i < rs.len() && belongs(rs[i].work_shift_id, shift) && 0 <= k
            < rs[i].candidates@.len() && s < rs[i].candidates@[k] <= e ==> latest_arrival(
            rs,
            shift,
            s,
            e,
        ) is Some && rs[i].candidates@[k] <= latest_arrival(rs, shift, s, e)->0,
    decreases rs.len(),
{
    if rs.len() > 0 {
        law_the_latest_arrival_wins(rs.drop_last(), shift, s, e, i, k);
        let best = latest_arrival(rs.drop_last(), shift, s, e);
        lemma_latest_time(rs.last().candidates@, s, e, best, k);
    }
}

proof fn lemma_latest_time(times: Seq<Moment>, s: Moment, e: Moment, cur: Option<Moment>, k: int)
    requires
        cur is Some ==> s < cur->0 <= e,
    ensures
        latest_time(times, s, e, cur) is Some ==> s < latest_time(times, s, e, cur)->0 <= e,
        cur is Some ==> latest_time(times, s, e, cur) is Some && cur->0 <= latest_time(
            times,
            s,
            e,
            cur,
        )->0,
        0 <= k < times.len() && s < times[k] <= e ==> latest_time(times, s, e, cur) is Some
            && times[k] <= latest_time(times, s, e, cur)->0,
    decreases times.len(),
{
    if times.len() > 0 {
        lemma_latest_time(times.drop_last(), s, e, cur, k);
    }
}

/// The minutes of the paid (or the unpaid) excuses inside `[from, to]`.
pub open spec fn excused_sum(ws: Seq<ExcusedWindow>, from: Moment, to: Moment, paid: bool) -> int
    decreases ws.len(),
{
    if ws.len() == 0 {
        0
    } else {
        excused_sum(ws.drop_last(), from, to, paid) + if ws.last().paid == paid {
            ws.last().shared(from, to)
        } else {
            0
        }
    }
}

/// More excuses never excuse less.
proof fn lemma_excused_grows(
    ws: Seq<ExcusedWindow>,
    from: Moment,
    to: Moment,
    paid: bool,
    n: int,
)
    requires
        0 <= n <= ws.len(),
    ensures
        0 <= excused_sum(ws.take(n), from, to, paid) <= excused_sum(ws, from, to, paid),
    decreases ws.len(),
{
    if ws.len() > 0 {
        if n == ws.len() {
            assert(ws.take(n) =~= ws);
            lemma_excused_grows(ws.drop_last(), from, to, paid, n - 1);
            assert(ws.drop_last().take(n - 1) =~= ws.drop_last());
        } else {
            lemma_excused_grows(ws.drop_last(), from, to, paid, n);
            assert(ws.drop_last().take(n) =~= ws.take(n));
        }
    } else {
        assert(ws.take(n) =~= ws);
    }
}

/// The minutes of approved but unpaid time off inside a closed shift.
pub open spec fn unpaid_sum(
    adj: ShiftAdjustments,
    check_in: Option<Moment>,
    check_out: Option<Moment>,
    scheduled_end: Option<Moment>,
) -> int {
    if check_in is Some && check_out is Some {
        excused_sum(adj.excuses@, check_in->0, check_out->0, false) + unpaid_tail(
            adj.early_departure,
            check_out->0,
            scheduled_end,
        )
    } else {
        0
    }
}

/// The tail of a shift an unpaid early departure covers.
pub open spec fn unpaid_tail(
    departure: Option<(Moment, bool)>,
    out_at: Moment,
    end: Option<Moment>,
) -> int {
    if departure is Some && !(departure->0).1 && end is Some && out_at < end->0 {
        max_of(
            minutes_between(max_of(out_at as int, (departure->0).0 as int) as Moment, end->0),
            0,
        )
    } else {
        0
    }
}

impl ShiftAdjustments {
    /// Adjustments whose times the calendar holds.
    pub open spec fn valid(self) -> bool {
        &&& valid_stamp(self.excused_until)
        &&& valid_stamp(self.excused_from)
        &&& self.early_departure is Some ==> valid_moment((self.early_departure->0).0)
        &&& forall|i: int| 0 <= i < self.excuses@.len() ==> (#[trigger] self.excuses@[i]).valid()
    }

    /// Minutes inside `[in, out]` that an approved excuse forgives, paid or
    /// unpaid as asked.
    ///
    /// Clipped to the attendance window because an excuse that runs past
    /// check-out did not consume time the employee was being paid for anyway;
    /// crediting it would pay them for being absent twice over.
    pub fn excused_minutes(&self, check_in: Moment, check_out: Moment, paid: bool) -> (r: i64)
        requires
            self.valid(),
            valid_moment(check_in),
            valid_moment(check_out),
            excused_sum(self.excuses@, check_in, check_out, paid) <= i64::MAX,
        ensures
            r == excused_sum(self.excuses@, check_in, check_out, paid),
            r >= 0,
    {
        let mut sum: i64 = 0;
        let mut i: usize = 0;
        while i < self.excuses.len()
            invariant
                i <= self.excuses@.len(),
                self.valid(),
                valid_moment(check_in),
                valid_moment(check_out),
                sum == excused_sum(self.excuses@.take(i as int), check_in, check_out, paid),
                excused_sum(self.excuses@, check_in, check_out, paid) <= i64::MAX,
                0 <= sum,
            decreases self.excuses@.len() - i,
        {
            assert(self.excuses@.take(i + 1).drop_last() =~= self.excuses@.take(i as int));
            assert(self.excuses@[i as int].valid());
            let w: ExcusedWindow = self.excuses[i];
            proof {
                lemma_excused_grows(self.excuses@, check_in, check_out, paid, i + 1);
            }
            if w.paid == paid {
                sum += w.minutes_within(check_in, check_out);
            }
            i += 1;
        }
        assert(self.excuses@.take(self.excuses@.len() as int) =~= self.excuses@);
        sum
    }

    /// Minutes of approved but unpaid time off inside a closed shift: an unpaid
    /// excuse while clocked in, and the tail of the shift an unpaid early
    /// departure covers. Priced as an `excused_unpaid` deduction.
    pub fn unpaid_excused_minutes(
        &self,
        check_in: Option<Moment>,
        check_out: Option<Moment>,
        scheduled_end: Option<Moment>,
    ) -> (r: i64)
        requires
            self.valid(),
            valid_stamp(check_in),
            valid_stamp(check_out),
            valid_stamp(scheduled_end),
            unpaid_sum(*self, check_in, check_out, scheduled_end) <= i64::MAX,
        ensures
            r == unpaid_sum(*self, check_in, check_out, scheduled_end),
    {
        match (check_in, check_out) {
            (Some(in_at), Some(out_at)) => {
                let mut minutes: i64 = self.excused_minutes(in_at, out_at, false);
                if let (Some((from, paid)), Some(end)) = (self.early_departure, scheduled_end) {
                    if !paid && out_at < end {
                        let left: Moment = if out_at >= from {
                            out_at
                        } else {
                            from
                        };
                        let tail: i64 = minutes_from(left, end);
                        if tail > 0 {
                            minutes += tail;
                        }
                    }
                }
                minutes
            },
            _ => 0,
        }
    }
}

/// What the derivation reads of a shift's template.
#[derive(Debug, Clone, Copy)]
pub struct ShiftRules {
    pub work_shift_id: Id,
    pub grace_minutes: i32,
    pub break_minutes: i32,
    pub paid_break: bool,
    pub overtime_threshold_minutes: i32,
    pub half_day_threshold_minutes: Option<i32>,
    /// The minutes of the shift.
    pub span_minutes: i64,
}

/// A record's stamps: the punches and the schedule.
#[derive(Debug, Clone, Copy)]
pub struct Stamps {
    pub check_in_at: Option<Moment>,
    pub check_out_at: Option<Moment>,
    pub scheduled_start_at: Option<Moment>,
    pub scheduled_end_at: Option<Moment>,
}

impl Stamps {
    pub open spec fn valid(self) -> bool {
        &&& valid_stamp(self.check_in_at)
        &&& valid_stamp(self.check_out_at)
        &&& valid_stamp(self.scheduled_start_at)
        &&& valid_stamp(self.scheduled_end_at)
    }
}

/// What the lateness rule is asked.
#[derive(Debug, Clone, Copy, PartialEq, Eq, Structural)]
pub struct LateAsk {
    pub start: Moment,
    pub actual: Moment,
    pub grace_minutes: i32,
    pub excused_until: Option<Moment>,
}

/// What the worked-time rule is asked.
#[derive(Debug, Clone, Copy, PartialEq, Eq, Structural)]
pub struct WorkedAsk {
    pub in_at: Moment,
    pub out_at: Moment,
    pub break_minutes: i32,
    pub paid_break: bool,
}

/// What the closing rules (early leave and overtime) are asked.
#[derive(Debug, Clone, Copy, PartialEq, Eq, Structural)]
pub struct CloseAsk {
    pub end: Moment,
    pub out_at: Moment,
    pub overtime_threshold_minutes: i32,
}

/// What the pay rules are asked about a record. A rule that is not asked
/// counts nothing.
#[derive(Debug, Clone, Copy, PartialEq, Eq, Structural)]
pub struct RuleAsks {
    pub late: Option<LateAsk>,
    pub worked: Option<WorkedAsk>,
    pub close: Option<CloseAsk>,
}

/// What the pay rules answered.
#[derive(Debug, Clone, Copy)]
pub struct RuleAnswers {
    pub late: i64,
    pub worked: i64,
    pub early_leave: i64,
    pub overtime: i64,
}

/// What the pay rules are asked about a record.
pub open spec fn asks_of(st: Stamps, shift: Option<ShiftRules>, adj: ShiftAdjustments) -> RuleAsks {
    RuleAsks {
        // Nobody is late for a shift they have off.
        late: if !adj.on_leave && st.scheduled_start_at is Some && st.check_in_at is Some {
            Some(
                LateAsk {
                    start: st.scheduled_start_at->0,
                    actual: st.check_in_at->0,
                    grace_minutes: if shift is Some {
                        shift->0.grace_minutes
                    } else {
                        0
                    },
                    excused_until: adj.excused_until,
                },
            )
        } else {
            None
        },
        worked: if st.check_in_at is Some && st.check_out_at is Some {
            Some(
                WorkedAsk {
                    in_at: st.check_in_at->0,
                    out_at: st.check_out_at->0,
                    break_minutes: if shift is Some {
                        shift->0.break_minutes
                    } else {
                        0
                    },
                    paid_break: shift is None || shift->0.paid_break,
                },
            )
        } else {
            None
        },
        close: if st.scheduled_end_at is Some && st.check_out_at is Some {
            Some(
                CloseAsk {
                    end: st.scheduled_end_at->0,
                    out_at: st.check_out_at->0,
                    overtime_threshold_minutes: if shift is Some {
                        shift->0.overtime_threshold_minutes
                    } else {
                        0
                    },
                },
            )
        } else {
            None
        },
    }
}

/// What to ask the pay rules about a record.
pub fn rule_asks(st: &Stamps, shift: &Option<ShiftRules>, adj: &ShiftAdjustments) -> (r: RuleAsks)
    ensures
        r == asks_of(*st, *shift, *adj),
{
    let grace: i32 = match shift {
        Some(s) => s.grace_minutes,
        None => 0,
    };
    let pause: i32 = match shift {
        Some(s) => s.break_minutes,
        None => 0,
    };
    let paid_break: bool = match shift {
        Some(s) => s.paid_break,
        None => true,
    };
    let threshold: i32 = match shift {
        Some(s) => s.overtime_threshold_minutes,
        None => 0,
    };
    let late: Option<LateAsk> = match (st.scheduled_start_at, st.check_in_at) {
        (Some(start), Some(actual)) => if adj.on_leave {
            None
        } else {
            Some(
                LateAsk { start, actual, grace_minutes: grace, excused_until: adj.excused_until },
            )
        },
        _ => None,
    };
    let worked: Option<WorkedAsk> = match (st.check_in_at, st.check_out_at) {
        (Some(in_at), Some(out_at)) => Some(
            WorkedAsk { in_at, out_at, break_minutes: pause, paid_break },
        ),
        _ => None,
    };
    let close: Option<CloseAsk> = match (st.scheduled_end_at, st.check_out_at) {
        (Some(end), Some(out_at)) => Some(
            CloseAsk { end, out_at, overtime_threshold_minutes: threshold },
        ),
        _ => None,
    };
    RuleAsks { late, worked, close }
}

/// An integer brought within `i64`.
pub open spec fn clipped(n: int) -> int {
    if n < i64::MIN {
        i64::MIN as int
    } else if n > i64::MAX {
        i64::MAX as int
    } else {
        n
    }
}

/// The minutes left early: an approved early departure means leaving at (or
/// after) the agreed time is not early at all; before it, the excess still
/// counts.
pub open spec fn early_minutes(close: CloseAsk, from: Option<Moment>, answer: int) -> int {
    match from {
        Some(from) => if close.out_at >= from {
            0
        } else {
            clipped(answer - max_of(minutes_between(from, close.end), 0))
        },
        None => answer,
    }
}

/// The figures a record's stamps imply.
#[derive(Debug, Clone, Copy, PartialEq, Eq, Structural)]
pub struct Figures {
    pub late: i64,
    pub worked: i64,
    pub early: i64,
    pub overtime: i64,
}

/// The figures are those of the rules' answers.
pub open spec fn figures_of(
    st: Stamps,
    shift: Option<ShiftRules>,
    adj: ShiftAdjustments,
    ans: RuleAnswers,
    f: Figures,
) -> bool {
    let asks = asks_of(st, shift, adj);
    &&& f.late == if asks.late is Some {
        ans.late as int
    } else {
        0
    }
    // A paid excuse credits the time back; an unpaid one leaves it alone.
    &&& f.worked == if asks.worked is Some {
        ans.worked + excused_sum(adj.excuses@, st.check_in_at->0, st.check_out_at->0, true)
    } else {
        0
    }
    &&& f.early == if asks.close is Some {
        early_minutes(asks.close->0, adj.excused_from, ans.early_leave as int)
    } else {
        0
    }
    &&& f.overtime == if asks.close is Some {
        ans.overtime as int
    } else {
        0
    }
}

/// The minutes of paid excuses inside a closed record.
pub open spec fn credited(excuses: Seq<ExcusedWindow>, st: Stamps) -> int {
    if st.check_in_at is Some && st.check_out_at is Some {
        excused_sum(excuses, st.check_in_at->0, st.check_out_at->0, true)
    } else {
        0
    }
}

/// The worked minutes with those credited back fit an `i64`.
pub open spec fn addable(excuses: Seq<ExcusedWindow>, st: Stamps, worked: i64) -> bool {
    credited(excuses, st) <= i64::MAX && worked + credited(excuses, st) <= i64::MAX
}

/// The figures of a record, from the rules' answers.
pub fn figures(
    st: &Stamps,
    shift: &Option<ShiftRules>,
    adj: &ShiftAdjustments,
    ans: &RuleAnswers,
) -> (f: Figures)
    requires
        st.valid(),
        adj.valid(),
        addable(adj.excuses@, *st, ans.worked),
    ensures
        figures_of(*st, *shift, *adj, *ans, f),
{
    let asks: RuleAsks = rule_asks(st, shift, adj);
    proof {
        if st.check_in_at is Some && st.check_out_at is Some {
            lemma_excused_grows(adj.excuses@, st.check_in_at->0, st.check_out_at->0, true, 0);
        }
    }
    let late: i64 = if asks.late.is_some() {
        ans.late
    } else {
        0
    };
    let worked: i64 = match (st.check_in_at, st.check_out_at) {
        (Some(in_at), Some(out_at)) => ans.worked + adj.excused_minutes(in_at, out_at, true),
        _ => 0,
    };
    let (early, overtime): (i64, i64) = match asks.close {
        Some(c) => {
            let early: i64 = match adj.excused_from {
                Some(from) => if c.out_at >= from {
                    0
                } else {
                    let agreed: i64 = minutes_from(from, c.end);
                    let off: i64 = if agreed > 0 {
                        agreed
                    } else {
                        0
                    };
                    match ans.early_leave.checked_sub(off) {
                        Some(n) => n,
                        None => i64::MIN,
                    }
                },
                None => ans.early_leave,
            };
            (early, ans.overtime)
        },
        None => (0, 0),
    };
    Figures { late, worked, early, overtime }
}

/// How a record's status is settled.
#[derive(Debug, Clone, Copy, PartialEq, Eq, Structural)]
pub enum StatusAsk {
    /// Settled by the stamps alone.
    Known(AttendanceStatus),
    /// The classifying rule is asked.
    Classify {
        checked_in: bool,
        worked: i64,
        owed: i64,
        half_day_threshold: Option<i32>,
        late: i64,
    },
}

/// The minutes a person owed: the shift's, less the head and the tail an
/// approved late arrival, early departure or half day excuses.
pub open spec fn owed_minutes(
    st: Stamps,
    shift: Option<ShiftRules>,
    adj: ShiftAdjustments,
) -> int {
    let span = if shift is Some {
        shift->0.span_minutes as int
    } else {
        0
    };
    let tail = if adj.excused_from is Some && st.scheduled_end_at is Some {
        max_of(minutes_between(adj.excused_from->0, st.scheduled_end_at->0), 0)
    } else {
        0
    };
    let head = if adj.excused_until is Some && st.scheduled_start_at is Some {
        max_of(minutes_between(st.scheduled_start_at->0, adj.excused_until->0), 0)
    } else {
        0
    };
    max_of(span - tail - head, 0)
}

/// How a record's status is settled. Still clocked in: the day is not over, so
/// it is not yet a half day; present or late from the arrival alone.
pub open spec fn status_of(
    st: Stamps,
    shift: Option<ShiftRules>,
    adj: ShiftAdjustments,
    f: Figures,
) -> StatusAsk {
    if adj.on_leave {
        StatusAsk::Known(AttendanceStatus::OnLeave)
    } else if st.check_out_at is None {
        if st.check_in_at is None {
            StatusAsk::Known(AttendanceStatus::Absent)
        } else if f.late > 0 {
            StatusAsk::Known(AttendanceStatus::Late)
        } else {
            StatusAsk::Known(AttendanceStatus::Present)
        }
    } else {
        StatusAsk::Classify {
            checked_in: st.check_in_at is Some,
            worked: f.worked,
            owed: owed_minutes(st, shift, adj) as i64,
            half_day_threshold: if shift is Some {
                shift->0.half_day_threshold_minutes
            } else {
                None
            },
            late: f.late,
        }
    }
}

/// How a record's status is settled.
pub fn status_ask(
    st: &Stamps,
    shift: &Option<ShiftRules>,
    adj: &ShiftAdjustments,
    f: &Figures,
) -> (r: StatusAsk)
    requires
        st.valid(),
        adj.valid(),
    ensures
        r == status_of(*st, *shift, *adj, *f),
{
    if adj.on_leave {
        return StatusAsk::Known(AttendanceStatus::OnLeave);
    }
    if st.check_out_at.is_none() {
        return if st.check_in_at.is_none() {
            StatusAsk::Known(AttendanceStatus::Absent)
        } else if f.late > 0 {
            StatusAsk::Known(AttendanceStatus::Late)
        } else {
            StatusAsk::Known(AttendanceStatus::Present)
        };
    }
    let span: i64 = match shift {
        Some(s) => s.span_minutes,
        None => 0,
    };
    let tail: i64 = match (adj.excused_from, st.scheduled_end_at) {
        (Some(from), Some(end)) => {
            let n: i64 = minutes_from(from, end);
            if n > 0 {
                n
            } else {
                0
            }
        },
        _ => 0,
    };
    let head: i64 = match (adj.excused_until, st.scheduled_start_at) {
        (Some(until), Some(start)) => {
            let n: i64 = minutes_from(start, until);
            if n > 0 {
                n
            } else {
                0
            }
        },
        _ => 0,
    };
    let left: i128 = span as i128 - tail as i128 - head as i128;
    StatusAsk::Classify {
        checked_in: st.check_in_at.is_some(),
        worked: f.worked,
        owed: if left > 0 {
            left as i64
        } else {
            0
        },
        half_day_threshold: match shift {
            Some(s) => s.half_day_threshold_minutes,
            None => None,
        },
        late: f.late,
    }
}

/// The numbers a record's stamps imply, from the figures and the classifying
/// rule's answer where it was asked.
pub fn derive(f: &Figures, ask: &StatusAsk, classified: AttendanceStatus) -> (r: Derived)
    ensures
        r == (Derived {
            late_minutes: f.late,
            early_leave_minutes: f.early,
            overtime_minutes: f.overtime,
            worked_minutes: f.worked,
            status: match *ask {
                StatusAsk::Known(s) => s,
                StatusAsk::Classify { .. } => classified,
            },
        }),
{
    Derived {
        late_minutes: f.late,
        early_leave_minutes: f.early,
        overtime_minutes: f.overtime,
        worked_minutes: f.worked,
        status: match ask {
            StatusAsk::Known(s) => *s,
            StatusAsk::Classify { .. } => classified,
        },
    }
}

/// The template of a shift, where there is one.
pub open spec fn template(shift: Option<ShiftRules>) -> Option<Id> {
    match shift {
        Some(s) => Some(s.work_shift_id),
        None => None,
    }
}

/// The numbers a record's stamps imply under the day's approved requests: what
/// applies to the shift, the figures of the rules' answers and the status they
/// come to.
pub open spec fn implied(
    day: DayAdjustments,
    st: Stamps,
    shift: Option<ShiftRules>,
    ans: RuleAnswers,
    classified: AttendanceStatus,
    r: Derived,
) -> bool {
    exists|adj: ShiftAdjustments, f: Figures|
        {
            &&& applies(day, st.scheduled_start_at, st.scheduled_end_at, template(shift), adj)
            &&& #[trigger] figures_of(st, shift, adj, ans, f)
            &&& r.late_minutes == f.late
            &&& r.early_leave_minutes == f.early
            &&& r.overtime_minutes == f.overtime
            &&& r.worked_minutes == f.worked
            &&& r.status == match status_of(st, shift, adj, f) {
                StatusAsk::Known(s) => s,
                StatusAsk::Classify { .. } => classified,
            }
        }
}

/// The numbers a record's stamps imply under the day's approved requests, from
/// the pay rules' answers to [`rule_asks`] and to [`status_ask`].
pub fn derive_day(
    day: &DayAdjustments,
    st: &Stamps,
    shift: &Option<ShiftRules>,
    ans: &RuleAnswers,
    classified: AttendanceStatus,
) -> (r: Derived)
    requires
        day.valid(),
        st.valid(),
        addable(
            shift_excuses(
                day.excuses@,
                template(*shift),
                rostered(st.scheduled_start_at, st.scheduled_end_at),
            ),
            *st,
            ans.worked,
        ),
    ensures
        implied(*day, *st, *shift, *ans, classified, r),
{
    let adj: ShiftAdjustments = day.for_shift(
        st.scheduled_start_at,
        st.scheduled_end_at,
        match shift {
            Some(s) => Some(s.work_shift_id),
            None => None,
        },
    );
    let f: Figures = figures(st, shift, &adj, ans);
    let ask: StatusAsk = status_ask(st, shift, &adj, &f);
    let r: Derived = derive(&f, &ask, classified);
    assert(figures_of(*st, *shift, adj, *ans, f));
    r
}

/// The same stamps under the same requests and answers imply the same numbers.
pub proof fn law_stamps_imply_one_set_of_numbers(
    day: DayAdjustments,
    st: Stamps,
    shift: Option<ShiftRules>,
    ans: RuleAnswers,
    classified: AttendanceStatus,
    a: Derived,
    b: Derived,
)
    requires
        implied(day, st, shift, ans, classified, a),
        implied(day, st, shift, ans, classified, b),
    ensures
        a == b,
{
}

/// The same day without the excuses that are not paid.
pub open spec fn paid_only(day: DayAdjustments, other: DayAdjustments) -> bool {
    &&& other.excuses@ == day.excuses@.filter(|r: WindowRequest| r.paid)
    &&& other.late_arrivals@ == day.late_arrivals@
    &&& other.early_departures@ == day.early_departures@
    &&& other.on_leave == day.on_leave
    &&& other.leave_paid == day.leave_paid
    &&& other.half_off == day.half_off
}

/// The paid excuses are credited alike with the unpaid ones and without.
proof fn lemma_unpaid_credit_nothing(
    rs: Seq<WindowRequest>,
    shift: Option<Id>,
    window: Option<(Moment, Moment)>,
    from: Moment,
    to: Moment,
)
    ensures
        excused_sum(shift_excuses(rs, shift, window), from, to, true) == excused_sum(
            shift_excuses(rs.filter(|r: WindowRequest| r.paid), shift, window),
            from,
            to,
            true,
        ),
    decreases rs.len(),
{
    reveal(Seq::filter);
    let paid = |r: WindowRequest| r.paid;
    if rs.len() > 0 {
        let short = rs.drop_last();
        lemma_unpaid_credit_nothing(short, shift, window, from, to);
        let kept = short.filter(paid);
        if rs.last().paid {
            assert(rs.filter(paid) == kept.push(rs.last()));
            assert(kept.push(rs.last()).drop_last() =~= kept);
        }
        let before = shift_excuses(short, shift, window);
        let all = shift_excuses(rs, shift, window);
        if all != before {
            assert(all.drop_last() =~= before);
        }
        let fewer = shift_excuses(kept, shift, window);
        let paid_all = shift_excuses(rs.filter(paid), shift, window);
        if paid_all != fewer {
            assert(paid_all.drop_last() =~= fewer);
        }
    }
}

/// An unpaid excuse changes no derived figure: without the unpaid ones the same
/// stamps imply the same numbers.
pub proof fn law_an_unpaid_excuse_changes_no_figure(
    day: DayAdjustments,
    other: DayAdjustments,
    st: Stamps,
    shift: Option<ShiftRules>,
    ans: RuleAnswers,
    classified: AttendanceStatus,
    a: Derived,
    b: Derived,
)
    requires
        paid_only(day, other),
        implied(day, st, shift, ans, classified, a),
        implied(other, st, shift, ans, classified, b),
    ensures
        a == b,
{
    if st.check_in_at is Some && st.check_out_at is Some {
        lemma_unpaid_credit_nothing(
            day.excuses@,
            template(shift),
            rostered(st.scheduled_start_at, st.scheduled_end_at),
            st.check_in_at->0,
            st.check_out_at->0,
        );
    }
}

/// A day wholly on leave is nobody's lateness, whatever was punched and
/// whatever the rules say.
pub proof fn law_a_day_off_is_on_leave(
    day: DayAdjustments,
    st: Stamps,
    shift: Option<ShiftRules>,
    ans: RuleAnswers,
    classified: AttendanceStatus,
    r: Derived,
)
    requires
        day.on_leave,
        implied(day, st, shift, ans, classified, r),
    ensures
        r.late_minutes == 0,
        r.status == AttendanceStatus::OnLeave,
{
}

/// A shift wholly on leave is never late and counts as on leave, whatever was
/// punched.
pub proof fn law_leave_is_never_late(
    st: Stamps,
    shift: Option<ShiftRules>,
    adj: ShiftAdjustments,
    ans: RuleAnswers,
    f: Figures,
)
    requires
        adj.on_leave,
        figures_of(st, shift, adj, ans, f),
    ensures
        f.late == 0,
        status_of(st, shift, adj, f) == StatusAsk::Known(AttendanceStatus::OnLeave),
{
}

/// Leaving at or after the agreed time is never early.
pub proof fn law_an_agreed_departure_is_not_early(
    st: Stamps,
    shift: Option<ShiftRules>,
    adj: ShiftAdjustments,
    ans: RuleAnswers,
    f: Figures,
)
    requires
        adj.excused_from is Some,
        st.check_out_at is Some,
        st.check_out_at->0 >= adj.excused_from->0,
        figures_of(st, shift, adj, ans, f),
    ensures
        f.early == 0,
{
}

} // verus!
