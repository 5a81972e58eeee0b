//! What an approved request forgives of a shift, and by how much.

use vstd::prelude::*;

use crate::attendance::derive::{
    applies, asks_of, belongs, earliest_departure, earliest_time, figures_of, first_meeting,
    implied, latest_arrival, latest_time, shift_excuses, status_of, template, unpaid_sum,
    AttendanceStatus, DayAdjustments, Derived, ExcusedWindow, Figures, RuleAnswers,
    ShiftAdjustments, ShiftRules, Stamps, StatusAsk, TimedRequest, WindowRequest,
};
use crate::calendar::{lasts, law_the_minutes_between_go_by, Id, Moment};

verus! {

// ── leaving early ───────────────────────────────────────────────────────────

/// Leaving before an agreed time that lies before the shift's end counts what
/// the rule answers less the minutes from the agreed time to the end. So where
/// the rule answers the minutes from leaving to the end, on whole minutes, what
/// counts is exactly the minutes short of the agreed time.
pub proof fn law_short_of_the_agreed_time(
    st: Stamps,
    shift: Option<ShiftRules>,
    adj: ShiftAdjustments,
    ans: RuleAnswers,
    f: Figures,
    left: Moment,
    agreed: Moment,
    end: Moment,
    m: int,
)
    requires
        figures_of(st, shift, adj, ans, f),
        st.check_out_at == Some(left),
        st.scheduled_end_at == Some(end),
        adj.excused_from == Some(agreed),
        left < agreed <= end,
        lasts(agreed as int, end as int, m),
        ans.early_leave - m >= i64::MIN,
    ensures
        f.early == ans.early_leave - m,
        end - agreed == m * 60_000_000_000 && end - left == ans.early_leave * 60_000_000_000
            ==> f.early * 60_000_000_000 == agreed - left,
{
    law_the_minutes_between_go_by(agreed, end, m);
}

/// An agreed time at or after the shift's end takes nothing off, and without one
/// the rule's answer stands.
pub proof fn law_a_late_agreement_takes_nothing_off(
    st: Stamps,
    shift: Option<ShiftRules>,
    adj: ShiftAdjustments,
    ans: RuleAnswers,
    f: Figures,
)
    requires
        figures_of(st, shift, adj, ans, f),
        st.check_out_at is Some,
        st.scheduled_end_at is Some,
        adj.excused_from is Some ==> st.check_out_at->0 < adj.excused_from->0
            && st.scheduled_end_at->0 <= adj.excused_from->0,
    ensures
        f.early == ans.early_leave,
{
}

/// The earlier the agreed time, the less counts: of two agreements the earlier
/// one never leaves more minutes early.
pub proof fn law_an_earlier_agreement_forgives_more(
    st: Stamps,
    shift: Option<ShiftRules>,
    adj: ShiftAdjustments,
    other: ShiftAdjustments,
    ans: RuleAnswers,
    f: Figures,
    g: Figures,
)
    requires
        figures_of(st, shift, adj, ans, f),
        figures_of(st, shift, other, ans, g),
        adj.excused_from is Some,
        other.excused_from is Some,
        adj.excused_from->0 <= other.excused_from->0,
        st.check_out_at is Some,
        st.check_out_at->0 < adj.excused_from->0,
    ensures
        f.early <= g.early,
{
}

/// Overtime is what the rule answers, whatever was agreed.
pub proof fn law_no_agreement_moves_overtime(
    st: Stamps,
    shift: Option<ShiftRules>,
    adj: ShiftAdjustments,
    ans: RuleAnswers,
    f: Figures,
)
    requires
        figures_of(st, shift, adj, ans, f),
    ensures
        st.check_out_at is Some && st.scheduled_end_at is Some ==> f.overtime == ans.overtime,
        st.check_out_at is None || st.scheduled_end_at is None ==> f.overtime == 0 && f.early == 0,
{
}

/// Lateness is what the rule answers for somebody who came to a rostered shift
/// and had none of it off, and nothing otherwise.
pub proof fn law_lateness_is_the_rules_answer(
    st: Stamps,
    shift: Option<ShiftRules>,
    adj: ShiftAdjustments,
    ans: RuleAnswers,
    f: Figures,
)
    requires
        figures_of(st, shift, adj, ans, f),
    ensures
        f.late == if !adj.on_leave && st.check_in_at is Some && st.scheduled_start_at is Some {
            ans.late as int
        } else {
            0
        },
{
}

/// Each rule is asked of the record's own stamps and of the shift's terms:
/// lateness of the rostered start and the arrival, worked time of the arrival
/// and the departure, the closing rules of the rostered end and the departure.
pub proof fn law_the_rules_are_asked_of_the_stamps(
    st: Stamps,
    shift: Option<ShiftRules>,
    adj: ShiftAdjustments,
)
    ensures
        ({
            let asks = asks_of(st, shift, adj);
            &&& asks.late is Some ==> st.scheduled_start_at == Some(asks.late->0.start)
                && st.check_in_at == Some(asks.late->0.actual) && asks.late->0.excused_until
                == adj.excused_until
            &&& asks.worked is Some ==> st.check_in_at == Some(asks.worked->0.in_at)
                && st.check_out_at == Some(asks.worked->0.out_at)
            &&& asks.close is Some ==> st.scheduled_end_at == Some(asks.close->0.end)
                && st.check_out_at == Some(asks.close->0.out_at)
            &&& shift is Some && asks.late is Some ==> asks.late->0.grace_minutes
                == shift->0.grace_minutes
            &&& shift is Some && asks.worked is Some ==> asks.worked->0.break_minutes
                == shift->0.break_minutes && asks.worked->0.paid_break == shift->0.paid_break
            &&& shift is Some && asks.close is Some ==> asks.close->0.overtime_threshold_minutes
                == shift->0.overtime_threshold_minutes
            &&& shift is None && asks.late is Some ==> asks.late->0.grace_minutes == 0
            &&& shift is None && asks.worked is Some ==> asks.worked->0.break_minutes == 0
            &&& shift is None && asks.close is Some ==> asks.close->0.overtime_threshold_minutes
                == 0
        }),
{
}

// ── excuses ─────────────────────────────────────────────────────────────────

/// An excuse shares with a stay the minutes from the later beginning to the
/// earlier end, and none where the one ends before the other begins.
pub proof fn law_an_excuse_shares_what_overlaps(
    w: ExcusedWindow,
    from: Moment,
    to: Moment,
    a: Moment,
    b: Moment,
    m: int,
)
    requires
        a == w.from && from <= w.from || a == from && w.from <= from,
        b == w.to && w.to <= to || b == to && to <= w.to,
    ensures
        lasts(a as int, b as int, m) ==> w.shared(from, to) == m,
        b <= a ==> w.shared(from, to) == 0,
{
    if lasts(a as int, b as int, m) {
        law_the_minutes_between_go_by(a, b, m);
    }
}

/// A paid excuse credits exactly the minutes it shares with the stay, and an
/// unpaid one none: one more excuse moves the worked minutes by that and
/// nothing else.
pub proof fn law_a_paid_excuse_is_credited(
    st: Stamps,
    shift: Option<ShiftRules>,
    adj: ShiftAdjustments,
    more: ShiftAdjustments,
    w: ExcusedWindow,
    ans: RuleAnswers,
    f: Figures,
    g: Figures,
)
    requires
        figures_of(st, shift, adj, ans, f),
        figures_of(st, shift, more, ans, g),
        more.excuses@ == adj.excuses@.push(w),
        more.excused_until == adj.excused_until,
        more.excused_from == adj.excused_from,
        more.on_leave == adj.on_leave,
        st.check_in_at is Some,
        st.check_out_at is Some,
    ensures
        w.paid ==> g.worked == f.worked + w.shared(st.check_in_at->0, st.check_out_at->0),
        !w.paid ==> g.worked == f.worked,
        g.late == f.late,
        g.early == f.early,
        g.overtime == f.overtime,
{
    assert(adj.excuses@.push(w).drop_last() =~= adj.excuses@);
}

/// Without an excuse the worked minutes are what the rule answers, and a record
/// that is not closed has none.
pub proof fn law_worked_is_the_rules_answer(
    st: Stamps,
    shift: Option<ShiftRules>,
    adj: ShiftAdjustments,
    ans: RuleAnswers,
    f: Figures,
)
    requires
        figures_of(st, shift, adj, ans, f),
        adj.excuses@.len() == 0,
    ensures
        f.worked == if st.check_in_at is Some && st.check_out_at is Some {
            ans.worked as int
        } else {
            0
        },
{
}

/// What an unpaid request costs: each unpaid excuse the minutes it shares with
/// the stay and each paid one none.
pub proof fn law_an_unpaid_excuse_is_charged(
    adj: ShiftAdjustments,
    more: ShiftAdjustments,
    w: ExcusedWindow,
    check_in: Moment,
    check_out: Moment,
    end: Option<Moment>,
)
    requires
        more.excuses@ == adj.excuses@.push(w),
        more.early_departure == adj.early_departure,
    ensures
        unpaid_sum(more, Some(check_in), Some(check_out), end) == unpaid_sum(
            adj,
            Some(check_in),
            Some(check_out),
            end,
        ) + if w.paid {
            0
        } else {
            w.shared(check_in, check_out)
        },
{
    assert(adj.excuses@.push(w).drop_last() =~= adj.excuses@);
}

/// What an unpaid early departure costs: the minutes from the agreed time, or
/// from leaving where that is later, to the shift's end; a paid one costs
/// nothing, nor does one where nobody left early.
pub proof fn law_an_unpaid_departure_is_charged(
    adj: ShiftAdjustments,
    check_in: Moment,
    check_out: Moment,
    end: Moment,
    agreed: Moment,
    paid: bool,
    m: int,
)
    requires
        adj.excuses@.len() == 0,
        adj.early_departure == Some((agreed, paid)),
    ensures
        ({
            let cost = unpaid_sum(adj, Some(check_in), Some(check_out), Some(end));
            &&& paid || end <= check_out || end <= agreed ==> cost == 0
            &&& !paid && check_out <= agreed && check_out < end && lasts(
                agreed as int,
                end as int,
                m,
            ) ==> cost == m
            &&& !paid && agreed <= check_out && lasts(check_out as int, end as int, m) ==> cost == m
        }),
{
    if lasts(agreed as int, end as int, m) {
        law_the_minutes_between_go_by(agreed, end, m);
    }
    if lasts(check_out as int, end as int, m) {
        law_the_minutes_between_go_by(check_out, end, m);
    }
}

// ── what is owed ────────────────────────────────────────────────────────────

/// Permission to come later or leave sooner shortens what is owed by just those
/// minutes, down to nothing.
pub proof fn law_permission_shortens_what_is_owed(
    st: Stamps,
    shift: ShiftRules,
    adj: ShiftAdjustments,
    f: Figures,
    head: int,
    tail: int,
)
    requires
        !adj.on_leave,
        st.check_out_at is Some,
        adj.excused_until is Some && st.scheduled_start_at is Some ==> lasts(
            st.scheduled_start_at->0 as int,
            adj.excused_until->0 as int,
            head,
        ),
        adj.excused_until is None || st.scheduled_start_at is None ==> head == 0,
        adj.excused_from is Some && st.scheduled_end_at is Some ==> lasts(
            adj.excused_from->0 as int,
            st.scheduled_end_at->0 as int,
            tail,
        ),
        adj.excused_from is None || st.scheduled_end_at is None ==> tail == 0,
    ensures
        status_of(st, Some(shift), adj, f) == (StatusAsk::Classify {
            checked_in: st.check_in_at is Some,
            worked: f.worked,
            owed: if shift.span_minutes >= head + tail {
                (shift.span_minutes - head - tail) as i64
            } else {
                0
            },
            half_day_threshold: shift.half_day_threshold_minutes,
            late: f.late,
        }),
{
    if adj.excused_until is Some && st.scheduled_start_at is Some {
        law_the_minutes_between_go_by(st.scheduled_start_at->0, adj.excused_until->0, head);
    }
    if adj.excused_from is Some && st.scheduled_end_at is Some {
        law_the_minutes_between_go_by(adj.excused_from->0, st.scheduled_end_at->0, tail);
    }
}

/// Before the day is over it is told by the arrival alone: absent without one,
/// late or present with it, never a half day.
pub proof fn law_an_open_day_is_told_by_the_arrival(
    day: DayAdjustments,
    st: Stamps,
    shift: Option<ShiftRules>,
    ans: RuleAnswers,
    classified: AttendanceStatus,
    r: Derived,
)
    requires
        implied(day, st, shift, ans, classified, r),
        st.check_out_at is None,
        r.status != AttendanceStatus::OnLeave,
    ensures
        st.check_in_at is None ==> r.status == AttendanceStatus::Absent,
        st.check_in_at is Some && r.late_minutes > 0 ==> r.status == AttendanceStatus::Late,
        st.check_in_at is Some && r.late_minutes <= 0 ==> r.status == AttendanceStatus::Present,
        r.worked_minutes == 0,
        r.early_leave_minutes == 0,
        r.overtime_minutes == 0,
{
}

/// A closed day that is not off is what the classifying rule answers.
pub proof fn law_a_closed_day_is_classified(
    day: DayAdjustments,
    st: Stamps,
    shift: Option<ShiftRules>,
    ans: RuleAnswers,
    classified: AttendanceStatus,
    r: Derived,
)
    requires
        implied(day, st, shift, ans, classified, r),
        st.check_out_at is Some,
        !day.on_leave,
        day.half_off is None,
    ensures
        r.status == classified,
{
}

// ── which requests apply ────────────────────────────────────────────────────

/// An agreed arrival is one that was agreed for the shift.
pub proof fn law_an_arrival_was_agreed(
    rs: Seq<TimedRequest>,
    shift: Option<Id>,
    s: Moment,
    e: Moment,
)
    ensures
        latest_arrival(rs, shift, s, e) is Some ==> exists|i: int, k: int|
            0 <= i < rs.len() && (rs[i].work_shift_id is None || rs[i].work_shift_id == shift) && 0
                <= k < rs[i].candidates@.len() && #[trigger] rs[i].candidates@[k]
                == latest_arrival(rs, shift, s, e)->0,
    decreases rs.len(),
{
    if rs.len() > 0 {
        let short = rs.drop_last();
        law_an_arrival_was_agreed(short, shift, s, e);
        let before = latest_arrival(short, shift, s, e);
        let now = latest_arrival(rs, shift, s, e);
        if now is Some {
            if now == before {
                let (i, k) = choose|i: int, k: int|
                    0 <= i < short.len() && (short[i].work_shift_id is None
                        || short[i].work_shift_id == shift) && 0 <= k < short[i].candidates@.len()
                        && #[trigger] short[i].candidates@[k] == before->0;
                assert(rs[i].candidates@[k] == now->0);
            } else {
                let times = rs.last().candidates@;
                lemma_latest_is_one(times, s, e, before);
                let k = choose|k: int| 0 <= k < times.len() && #[trigger] times[k] == now->0;
                assert(rs[rs.len() - 1].candidates@[k] == now->0);
            }
        }
    }
}

proof fn lemma_latest_is_one(times: Seq<Moment>, s: Moment, e: Moment, cur: Option<Moment>)
    ensures
        latest_time(times, s, e, cur) == cur || (latest_time(times, s, e, cur) is Some && exists|
            k: int,
        |
            0 <= k < times.len() && #[trigger] times[k] == latest_time(times, s, e, cur)->0),
    decreases times.len(),
{
    if times.len() > 0 {
        let short = times.drop_last();
        lemma_latest_is_one(short, s, e, cur);
        let before = latest_time(short, s, e, cur);
        let now = latest_time(times, s, e, cur);
        if now != before {
            assert(times[times.len() - 1] == now->0);
        } else if before != cur {
            let k = choose|k: int| 0 <= k < short.len() && #[trigger] short[k] == before->0;
            assert(times[k] == now->0);
        }
    }
}

/// An agreed departure is one that was agreed for the shift, with its pay; it
/// lies inside the shift, and none agreed for the shift is earlier.
pub proof fn law_the_earliest_departure_wins(
    rs: Seq<TimedRequest>,
    shift: Option<Id>,
    s: Moment,
    e: Moment,
)
    ensures
        earliest_departure(rs, shift, s, e) is Some ==> s <= (earliest_departure(
            rs,
            shift,
            s,
            e,
        )->0).0 < e && exists|i: int, k: int|
            0 <= i < rs.len() && (rs[i].work_shift_id is None || rs[i].work_shift_id == shift) && 0
                <= k < rs[i].candidates@.len() && earliest_departure(rs, shift, s, e)->0 == (
                #[trigger] rs[i].candidates@[k],
                rs[i].paid,
            ),
        forall|i: int, k: int|
            0 <= i < rs.len() && (rs[i].work_shift_id is None || rs[i].work_shift_id == shift) && 0
                <= k < rs[i].candidates@.len() && s <= #[trigger] rs[i].candidates@[k] < e
                ==> earliest_departure(rs, shift, s, e) is Some && (earliest_departure(
                rs,
                shift,
                s,
                e,
            )->0).0 <= rs[i].candidates@[k],
    decreases rs.len(),
{
    if rs.len() > 0 {
        let short = rs.drop_last();
        law_the_earliest_departure_wins(short, shift, s, e);
        let before = earliest_departure(short, shift, s, e);
        let now = earliest_departure(rs, shift, s, e);
        let r = rs.last();
        if belongs(r.work_shift_id, shift) {
            lemma_earliest_time(r.candidates@, r.paid, s, e, before);
        }
        if now is Some {
            if now == before {
                let (i, k) = choose|i: int, k: int|
                    0 <= i < short.len() && (short[i].work_shift_id is None
                        || short[i].work_shift_id == shift) && 0 <= k < short[i].candidates@.len()
                        && before->0 == (#[trigger] short[i].candidates@[k], short[i].paid);
                assert(now->0 == (rs[i].candidates@[k], rs[i].paid));
            } else {
                let times = r.candidates@;
                let k = choose|k: int|
                    0 <= k < times.len() && (#[trigger] times[k], r.paid) == now->0;
                assert(now->0 == (rs[rs.len() - 1].candidates@[k], rs[rs.len() - 1].paid));
            }
        }
        assert forall|i: int, k: int|
            0 <= i < rs.len() && (rs[i].work_shift_id is None || rs[i].work_shift_id == shift) && 0
                <= k < rs[i].candidates@.len() && s <= #[trigger] rs[i].candidates@[k]
                < e implies now is Some && (now->0).0 <= rs[i].candidates@[k] by {
            if i < short.len() {
                assert(short[i].candidates@[k] == rs[i].candidates@[k]);
            } else {
                assert(r.candidates@[k] == rs[i].candidates@[k]);
            }
        }
    }
}

proof fn lemma_earliest_time(
    times: Seq<Moment>,
    paid: bool,
    s: Moment,
    e: Moment,
    cur: Option<(Moment, bool)>,
)
    requires
        cur is Some ==> s <= (cur->0).0 < e,
    ensures
        ({
            let best = earliest_time(times, paid, s, e, cur);
            &&& best is Some ==> s <= (best->0).0 < e
            &&& cur is Some ==> best is Some && (best->0).0 <= (cur->0).0
            &&& best == cur || (best is Some && exists|k: int|
                0 <= k < times.len() && (#[trigger] times[k], paid) == best->0)
            &&& forall|k: int|
                0 <= k < times.len() && s <= #[trigger] times[k] < e ==> best is Some && (best->0).0
                    <= times[k]
        }),
    decreases times.len(),
{
    if times.len() > 0 {
        let short = times.drop_last();
        lemma_earliest_time(short, paid, s, e, cur);
        let before = earliest_time(short, paid, s, e, cur);
        let now = earliest_time(times, paid, s, e, cur);
        if now != before {
            assert((times[times.len() - 1], paid) == now->0);
        } else if before != cur {
            let k = choose|k: int| 0 <= k < short.len() && (#[trigger] short[k], paid) == before->0;
            assert((times[k], paid) == now->0);
        }
        assert forall|k: int| 0 <= k < times.len() && s <= #[trigger] times[k] < e implies now
            is Some && (now->0).0 <= times[k] by {
            if k < short.len() {
                assert(short[k] == times[k]);
            }
        }
    }
}

/// The window of an excuse that is taken meets the shift, and none before it on
/// the list does.
pub proof fn law_the_first_window_that_meets(ws: Seq<(Moment, Moment)>, s: Moment, e: Moment)
    ensures
        match first_meeting(ws, s, e) {
            Some(w) => exists|k: int|
                0 <= k < ws.len() && #[trigger] ws[k] == w && w.0 < e && s < w.1 && forall|j: int|
                    0 <= j < k ==> !((#[trigger] ws[j]).0 < e && s < ws[j].1),
            None => forall|j: int| 0 <= j < ws.len() ==> !((#[trigger] ws[j]).0 < e && s < ws[j].1),
        },
    decreases ws.len(),
{
    if ws.len() > 0 {
        let short = ws.drop_last();
        law_the_first_window_that_meets(short, s, e);
        match first_meeting(short, s, e) {
            Some(w) => {
                let k = choose|k: int|
                    0 <= k < short.len() && #[trigger] short[k] == w && w.0 < e && s < w.1
                        && forall|j: int|
                        0 <= j < k ==> !((#[trigger] short[j]).0 < e && s < short[j].1);
                assert(ws[k] == w);
                assert forall|j: int| 0 <= j < k implies !((#[trigger] ws[j]).0 < e && s
                    < ws[j].1) by {
                    assert(short[j] == ws[j]);
                }
            },
            None => {
                assert forall|j: int| 0 <= j < short.len() implies !((#[trigger] ws[j]).0 < e && s
                    < ws[j].1) by {
                    assert(short[j] == ws[j]);
                }
                if first_meeting(ws, s, e) is Some {
                    assert(ws[ws.len() - 1] == first_meeting(ws, s, e)->0);
                }
            },
        }
    }
}

/// An excuse for the shift with a window that meets it applies with that window
/// and its own pay; one that names another shift, or meets it nowhere, does not.
pub proof fn law_an_excuse_applies_where_it_meets(
    rs: Seq<WindowRequest>,
    r: WindowRequest,
    shift: Option<Id>,
    s: Moment,
    e: Moment,
)
    ensures
        ({
            let before = shift_excuses(rs, shift, Some((s, e)));
            let now = shift_excuses(rs.push(r), shift, Some((s, e)));
            let mine = r.work_shift_id is None || r.work_shift_id == shift;
            match first_meeting(r.candidates@, s, e) {
                Some(w) => now == if mine {
                    before.push(ExcusedWindow { from: w.0, to: w.1, paid: r.paid })
                } else {
                    before
                },
                None => now == before,
            }
        }),
{
    assert(rs.push(r).drop_last() =~= rs);
}

/// The first half of a shift off: they are due when it ends, no sooner, and may
/// not leave sooner; the minutes off are those from the start, paid as the leave
/// is.
pub proof fn law_the_first_half_off(
    day: DayAdjustments,
    s: Moment,
    e: Moment,
    shift: Option<Id>,
    out: ShiftAdjustments,
    off: ExcusedWindow,
    m: int,
)
    requires
        applies(day, Some(s), Some(e), shift, out),
        !day.on_leave,
        day.half_off == Some(off),
        off.from <= s,
        off.to < e,
        lasts(s as int, off.to as int, m),
        m >= 1,
    ensures
        !out.on_leave,
        out.leave_paid == off.paid,
        out.leave_minutes == m,
        out.excused_until is Some && out.excused_until->0 >= off.to,
        day.late_arrivals@.len() == 0 ==> out.excused_until == Some(off.to),
        day.early_departures@.len() == 0 ==> out.excused_from is None,
{
    law_an_excuse_shares_what_overlaps(off, s, e, s, off.to, m);
}

/// The second half of a shift off: they may leave when it starts, and are due
/// no later; the minutes off are those to the end, paid as the leave is.
pub proof fn law_the_second_half_off(
    day: DayAdjustments,
    s: Moment,
    e: Moment,
    shift: Option<Id>,
    out: ShiftAdjustments,
    off: ExcusedWindow,
    m: int,
)
    requires
        applies(day, Some(s), Some(e), shift, out),
        !day.on_leave,
        day.half_off == Some(off),
        s < off.from,
        e <= off.to,
        lasts(off.from as int, e as int, m),
        m >= 1,
    ensures
        !out.on_leave,
        out.leave_paid == off.paid,
        out.leave_minutes == m,
        out.excused_from is Some && out.excused_from->0 <= off.from,
        day.early_departures@.len() == 0 ==> out.excused_from == Some(off.from),
        day.late_arrivals@.len() == 0 ==> out.excused_until is None,
{
    law_an_excuse_shares_what_overlaps(off, s, e, off.from, e, m);
}

/// A half day off that covers a shift is the whole of it off; one that shares
/// not a minute with it is none of it.
pub proof fn law_a_half_day_may_be_a_whole_shift(
    day: DayAdjustments,
    s: Moment,
    e: Moment,
    shift: Option<Id>,
    out: ShiftAdjustments,
    off: ExcusedWindow,
    m: int,
)
    requires
        applies(day, Some(s), Some(e), shift, out),
        !day.on_leave,
        day.half_off == Some(off),
    ensures
        off.from <= s && e <= off.to && lasts(s as int, e as int, m) && m >= 1 ==> out.on_leave
            && out.leave_minutes == m && out.leave_paid == off.paid,
        off.to <= s || e <= off.from ==> !out.on_leave && out.leave_minutes == 0 && out.leave_paid
            == day.leave_paid,
{
    if lasts(s as int, e as int, m) {
        law_the_minutes_between_go_by(s, e, m);
    }
}

/// A day wholly off takes every minute of its shifts, paid as the day is.
pub proof fn law_a_day_off_takes_the_whole_shift(
    day: DayAdjustments,
    s: Moment,
    e: Moment,
    shift: Option<Id>,
    out: ShiftAdjustments,
    m: int,
)
    requires
        applies(day, Some(s), Some(e), shift, out),
        day.on_leave,
        lasts(s as int, e as int, m),
    ensures
        out.on_leave,
        out.leave_minutes == m,
        out.leave_paid == day.leave_paid,
{
    law_the_minutes_between_go_by(s, e, m);
}

/// Leaving before the one time agreed for the shift counts the rule's answer
/// less the minutes from it to the shift's end, for the day as a whole.
pub proof fn law_a_day_counts_the_minutes_short(
    day: DayAdjustments,
    st: Stamps,
    shift: Option<ShiftRules>,
    ans: RuleAnswers,
    classified: AttendanceStatus,
    r: Derived,
    s: Moment,
    e: Moment,
    left: Moment,
    agreed: Moment,
    m: int,
)
    requires
        implied(day, st, shift, ans, classified, r),
        st.scheduled_start_at == Some(s),
        st.scheduled_end_at == Some(e),
        st.check_out_at == Some(left),
        day.half_off is None,
        day.early_departures@.len() == 1,
        day.early_departures@[0].candidates@ == seq![agreed],
        day.early_departures@[0].work_shift_id is None,
        s <= agreed < e,
        lasts(agreed as int, e as int, m),
        ans.early_leave - m >= i64::MIN,
    ensures
        agreed <= left ==> r.early_leave_minutes == 0,
        left < agreed ==> r.early_leave_minutes == ans.early_leave - m,
{
    let rs = day.early_departures@;
    law_the_minutes_between_go_by(agreed, e, m);
    law_the_earliest_departure_wins(rs, template(shift), s, e);
    assert(rs[0].candidates@[0] == agreed);
    let (adj, f) = choose|adj: ShiftAdjustments, f: Figures|
        {
            &&& applies(day, st.scheduled_start_at, st.scheduled_end_at, template(shift), adj)
            &&& #[trigger] figures_of(st, shift, adj, ans, f)
            &&& r.late_minutes == f.late
            &&& r.early_leave_minutes == f.early
            &&& r.overtime_minutes == f.overtime
            &&& r.worked_minutes == f.worked
            &&& r.status == match status_of(st, shift, adj, f) {
                StatusAsk::Known(s) => s,
                StatusAsk::Classify { .. } => classified,
            }
        };
    let d = earliest_departure(rs, template(shift), s, e);
    assert(d is Some && (d->0).0 == agreed);
    assert(adj.excused_from == Some(agreed));
    assert(figures_of(st, shift, adj, ans, f));
}

/// A plain day, with nothing agreed and nothing excused, is what the rules answer
/// of it: lateness of who came, and for who left the worked time, the minutes left
/// early and the overtime.
pub proof fn law_a_plain_day_is_what_the_rules_answer(
    day: DayAdjustments,
    st: Stamps,
    shift: Option<ShiftRules>,
    ans: RuleAnswers,
    classified: AttendanceStatus,
    r: Derived,
)
    requires
        implied(day, st, shift, ans, classified, r),
        !day.on_leave,
        day.half_off is None,
        day.late_arrivals@.len() == 0,
        day.early_departures@.len() == 0,
        day.excuses@.len() == 0,
        st.scheduled_start_at is Some,
        st.scheduled_end_at is Some,
        st.check_in_at is Some,
    ensures
        r.late_minutes == ans.late,
        st.check_out_at is Some ==> r.worked_minutes == ans.worked,
        st.check_out_at is Some ==> r.early_leave_minutes == ans.early_leave,
        st.check_out_at is Some ==> r.overtime_minutes == ans.overtime,
{
    let (adj, f) = choose|adj: ShiftAdjustments, f: Figures|
        {
            &&& applies(day, st.scheduled_start_at, st.scheduled_end_at, template(shift), adj)
            &&& #[trigger] figures_of(st, shift, adj, ans, f)
            &&& r.late_minutes == f.late
            &&& r.early_leave_minutes == f.early
            &&& r.overtime_minutes == f.overtime
            &&& r.worked_minutes == f.worked
            &&& r.status == match status_of(st, shift, adj, f) {
                StatusAsk::Known(s) => s,
                StatusAsk::Classify { .. } => classified,
            }
        };
    assert(adj.excuses@.len() == 0);
    assert(adj.excused_from is None);
    assert(figures_of(st, shift, adj, ans, f));
}

} // verus!
