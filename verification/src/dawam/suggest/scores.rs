//! What moves a score, and by how much.

use vstd::prelude::*;

use crate::calendar::{Day, Id, NANOS_PER_MINUTE};
use crate::dawam::engine::{no_new_break, Span};
use crate::dawam::roster::RosterPerson;
use crate::dawam::suggest::{
    all_spans, clash, clashes, has_span_on, is_on_block, lemma_with_pick_holds, on_late, people_on,
    proposed_late, proposed_on, proposed_spans, rostered_late, rostered_on, spans_of, times_in,
    with_pick, Learned, Pick, Placed, Problem, Proposal, Slot, Turnout,
};
use crate::text::{holds_text, is_text};

verus! {

/// Two optional texts say the same.
pub open spec fn say_alike(a: Option<String>, b: Option<String>) -> bool {
    match (a, b) {
        (Some(x), Some(y)) => x@ == y@,
        (None, None) => true,
        _ => false,
    }
}

/// Neither mornings nor evenings were asked for.
pub open spec fn states_nothing(who: RosterPerson) -> bool {
    !is_text(who.pref_time, "morning"@) && !is_text(who.pref_time, "evening"@)
}

/// Two of the staff have as many late shifts, this week and in the four weeks
/// before it.
pub open spec fn same_lates(p: Problem, props: Seq<Proposal>, i: int, j: int) -> bool {
    &&& p.late_history@[i] == p.late_history@[j]
    &&& times_in(on_late(p, props), p.staff@[i].employee_id) == times_in(
        on_late(p, props),
        p.staff@[j].employee_id,
    )
}

/// One of the staff is on a block this week, or used to be.
pub open spec fn at_home(p: Problem, props: Seq<Proposal>, slot: Slot, i: int) -> bool {
    let u = p.staff@[i].employee_id;
    is_on_block(p, props, u, slot.shift as int) || p.usual@.contains((u, slot.shift))
}

/// One of the staff has a shift on a slot's date already.
pub open spec fn works_that_day(p: Problem, props: Seq<Proposal>, slot: Slot, i: int) -> bool {
    has_span_on(all_spans(p, props, p.staff@[i].employee_id), slot.date)
}

/// Two of the staff are both at home on a slot's block or neither, and both
/// have a shift that day or neither.
pub open spec fn same_days(p: Problem, props: Seq<Proposal>, slot: Slot, i: int, j: int) -> bool {
    &&& at_home(p, props, slot, i) == at_home(p, props, slot, j)
    &&& works_that_day(p, props, slot, i) == works_that_day(p, props, slot, j)
}

/// Two of the staff stated the same and are of one gender.
pub open spec fn same_wishes(p: Problem, i: int, j: int) -> bool {
    &&& say_alike(p.staff@[i].pref_time, p.staff@[j].pref_time)
    &&& say_alike(p.staff@[i].gender, p.staff@[j].gender)
}

/// A fraction does not fall as what is divided grows, and rises where that
/// grows by what divides it.
proof fn lemma_shares(a: int, b: int, n: int)
    requires
        0 <= a <= b,
        n > 0,
    ensures
        0 <= a / n <= b / n,
        b - a >= n ==> a / n < b / n,
        n * (b / n) <= b < n * (b / n + 1),
{
    assert(0 <= a / n <= b / n && (b - a >= n ==> a / n < b / n) && n * (b / n) <= b < n * (b / n
        + 1)) by (nonlinear_arith)
        requires
            0 <= a <= b,
            n > 0,
    ;
}

/// Attendance counts against: of two people alike but for their attendance, with
/// as many shifts of the slot's class behind them, the one with more absences or
/// more lateness never scores higher, and with enough more of them scores
/// lower.
pub proof fn law_attendance_counts_against(
    p: Problem,
    props: Seq<Proposal>,
    slot: Slot,
    i: int,
    j: int,
    a: Turnout,
    b: Turnout,
)
    requires
        same_wishes(p, i, j),
        p.learned@[i] == p.learned@[j],
        same_lates(p, props, i, j),
        same_days(p, props, slot, i, j),
        p.late@[slot.shift as int] ==> a == p.reliability@[i].night && b == p.reliability@[j].night,
        !p.late@[slot.shift as int] ==> a == p.reliability@[i].day && b == p.reliability@[j].day,
        a.shifts == b.shifts,
        a.absent <= b.absent,
        a.late <= b.late,
    ensures
        p.score_of(props, slot, j) <= p.score_of(props, slot, i),
        (2 * (b.absent - a.absent) + (b.late - a.late)) * 1_000_000_000 >= 4 * (a.shifts + 2)
            ==> p.score_of(props, slot, j) < p.score_of(props, slot, i),
{
    lemma_shares(
        (2 * a.absent + a.late) * 1_000_000_000,
        (2 * b.absent + b.late) * 1_000_000_000,
        4 * (a.shifts + 2),
    );
}

/// What absences and lateness cost: beside somebody alike with as many shifts
/// and nothing missed, half the share of absences and a quarter of the share of
/// late arrivals, of the shifts and two more, down to the billionth.
pub proof fn law_an_absence_costs_half_its_share(
    p: Problem,
    props: Seq<Proposal>,
    slot: Slot,
    i: int,
    j: int,
    a: Turnout,
    b: Turnout,
)
    requires
        same_wishes(p, i, j),
        p.learned@[i] == p.learned@[j],
        same_lates(p, props, i, j),
        same_days(p, props, slot, i, j),
        p.late@[slot.shift as int] ==> a == p.reliability@[i].night && b == p.reliability@[j].night,
        !p.late@[slot.shift as int] ==> a == p.reliability@[i].day && b == p.reliability@[j].day,
        a.shifts == b.shifts,
        a.absent == 0,
        a.late == 0,
    ensures
        ({
            let cost = p.score_of(props, slot, i) - p.score_of(props, slot, j);
            let missed = (2 * b.absent + b.late) * 1_000_000_000;
            4 * (b.shifts + 2) * cost <= missed < 4 * (b.shifts + 2) * (cost + 1)
        }),
{
    lemma_shares(0, (2 * b.absent + b.late) * 1_000_000_000, 4 * (b.shifts + 2));
    assert(0int / (4 * (b.shifts + 2)) == 0) by (nonlinear_arith)
        requires
            b.shifts >= 0,
    ;
}

/// The same people at the same places are on late blocks, and in the same spans.
proof fn lemma_same_board(p: Problem, q: Problem, props: Seq<Proposal>, u: Id)
    requires
        p.staff == q.staff,
        p.late == q.late,
    ensures
        proposed_late(p, props) == proposed_late(q, props),
        proposed_spans(p, props, u) == proposed_spans(q, props, u),
    decreases props.len(),
{
    if props.len() > 0 {
        lemma_same_board(p, q, props.drop_last(), u);
    }
}

/// The same people are rostered on late blocks.
proof fn lemma_same_roster(p: Problem, q: Problem, n: int)
    requires
        p.late == q.late,
        p.by_day == q.by_day,
        0 <= n <= p.by_day@.len(),
    ensures
        rostered_late(p, p.by_day@.take(n)) == rostered_late(q, p.by_day@.take(n)),
    decreases n,
{
    if n > 0 {
        lemma_same_roster(p, q, n - 1);
        assert(p.by_day@.take(n).drop_last() =~= p.by_day@.take(n - 1));
    }
}

/// Nobody's score is raised by an absence or a lateness, and a record of one
/// class of shift moves no score of the other: a problem that differs in the
/// attendance alone, with as many shifts of the slot's class and no fewer
/// absences and late arrivals, scores nobody higher.
pub proof fn law_no_absence_raises_a_score(
    p: Problem,
    q: Problem,
    props: Seq<Proposal>,
    slot: Slot,
    i: int,
    a: Turnout,
    b: Turnout,
)
    requires
        q == (Problem { reliability: q.reliability, ..p }),
        p.late@[slot.shift as int] ==> a == p.reliability@[i].night && b == q.reliability@[i].night,
        !p.late@[slot.shift as int] ==> a == p.reliability@[i].day && b == q.reliability@[i].day,
        a.shifts == b.shifts,
        a.absent <= b.absent,
        a.late <= b.late,
    ensures
        q.score_of(props, slot, i) <= p.score_of(props, slot, i),
        a == b ==> q.score_of(props, slot, i) == p.score_of(props, slot, i),
        (2 * (b.absent - a.absent) + (b.late - a.late)) * 1_000_000_000 >= 4 * (a.shifts + 2)
            ==> q.score_of(props, slot, i) < p.score_of(props, slot, i),
{
    lemma_same_board(p, q, props, p.id_of(i));
    lemma_same_roster(p, q, p.by_day@.len() as int);
    assert(p.by_day@.take(p.by_day@.len() as int) =~= p.by_day@);
    assert(is_on_block(p, props, p.id_of(i), slot.shift as int) == is_on_block(
        q,
        props,
        p.id_of(i),
        slot.shift as int,
    )) by {
        assert(forall|k: int| p.id_of(k) == q.id_of(k));
    }
    lemma_shares(
        (2 * a.absent + a.late) * 1_000_000_000,
        (2 * b.absent + b.late) * 1_000_000_000,
        4 * (a.shifts + 2),
    );
}

/// A stated preference is worth a point for the shifts it asks for and costs a
/// point on the others, beside somebody alike who stated nothing and whom no
/// default helps.
pub proof fn law_a_preference_is_a_point(
    p: Problem,
    props: Seq<Proposal>,
    slot: Slot,
    i: int,
    j: int,
)
    requires
        states_nothing(p.staff@[j]),
        !is_text(p.staff@[j].gender, "m"@),
        p.learned@[i] == p.learned@[j],
        p.reliability@[i] == p.reliability@[j],
        same_lates(p, props, i, j),
        same_days(p, props, slot, i, j),
    ensures
        ({
            let more = p.score_of(props, slot, i) - p.score_of(props, slot, j);
            let late = p.late@[slot.shift as int];
            &&& is_text(p.staff@[i].pref_time, "evening"@) ==> more == if late {
                1_000_000_000int
            } else {
                -1_000_000_000
            }
            &&& is_text(p.staff@[i].pref_time, "morning"@) ==> more == if late {
                -1_000_000_000int
            } else {
                1_000_000_000
            }
        }),
{
    reveal_strlit("morning");
    reveal_strlit("evening");
    assert("morning"@[0] != "evening"@[0]);
}

/// The gender default helps a man alone, on a late shift alone, where he stated
/// nothing, fewer than three things were learned of him for late shifts and it
/// is not off; by its weight.
pub proof fn law_the_default_is_a_mans_late_shift(
    p: Problem,
    props: Seq<Proposal>,
    slot: Slot,
    i: int,
    j: int,
)
    requires
        say_alike(p.staff@[i].pref_time, p.staff@[j].pref_time),
        is_text(p.staff@[i].gender, "m"@),
        !is_text(p.staff@[j].gender, "m"@),
        p.learned@[i] == p.learned@[j],
        p.reliability@[i] == p.reliability@[j],
        same_lates(p, props, i, j),
        same_days(p, props, slot, i, j),
    ensures
        ({
            let more = p.score_of(props, slot, i) - p.score_of(props, slot, j);
            let helped = p.late@[slot.shift as int] && p.gender_mode@ != "off"@ && states_nothing(
                p.staff@[i],
            ) && (p.frozen || p.learned@[i] is None || p.learned@[i]->0.late_events < 3);
            more == if helped {
                p.gender_default as int
            } else {
                0
            }
        }),
{
}

/// What was learned counts as it is, for the slot's class of shift, and not at
/// all while learning is paused.
pub proof fn law_what_was_learned_counts(
    p: Problem,
    props: Seq<Proposal>,
    slot: Slot,
    i: int,
    j: int,
    a: Learned,
    b: Learned,
)
    requires
        same_wishes(p, i, j),
        p.learned@[i] == Some(a),
        p.learned@[j] == Some(b),
        a.late_events == b.late_events,
        p.reliability@[i] == p.reliability@[j],
        same_lates(p, props, i, j),
        same_days(p, props, slot, i, j),
    ensures
        ({
            let more = p.score_of(props, slot, i) - p.score_of(props, slot, j);
            more == if p.frozen {
                0
            } else if p.late@[slot.shift as int] {
                a.late_fit - b.late_fit
            } else {
                a.day_fit - b.day_fit
            }
        }),
{
}

/// Late shifts are spread: each one this week costs a tenth of a point and each
/// of the four weeks before a fortieth, on late shifts alone.
pub proof fn law_late_shifts_are_spread(
    p: Problem,
    props: Seq<Proposal>,
    slot: Slot,
    i: int,
    j: int,
)
    requires
        same_wishes(p, i, j),
        p.learned@[i] == p.learned@[j],
        p.reliability@[i] == p.reliability@[j],
        same_days(p, props, slot, i, j),
    ensures
        ({
            let more = p.score_of(props, slot, i) - p.score_of(props, slot, j);
            let week = times_in(on_late(p, props), p.staff@[j].employee_id) - times_in(
                on_late(p, props),
                p.staff@[i].employee_id,
            );
            let before = p.late_history@[j] - p.late_history@[i];
            more == if p.late@[slot.shift as int] {
                100_000_000 * week + 25_000_000 * before
            } else {
                0
            }
        }),
{
}

/// A block somebody is on or used to be on is worth a tenth of a point, and a
/// second shift that day costs three tenths.
pub proof fn law_habit_and_a_second_shift(
    p: Problem,
    props: Seq<Proposal>,
    slot: Slot,
    i: int,
    j: int,
)
    requires
        same_wishes(p, i, j),
        p.learned@[i] == p.learned@[j],
        p.reliability@[i] == p.reliability@[j],
        same_lates(p, props, i, j),
    ensures
        ({
            let more = p.score_of(props, slot, i) - p.score_of(props, slot, j);
            &&& at_home(p, props, slot, i) == at_home(p, props, slot, j) && works_that_day(
                p,
                props,
                slot,
                i,
            ) && !works_that_day(p, props, slot, j) ==> more == -300_000_000
            &&& works_that_day(p, props, slot, i) == works_that_day(p, props, slot, j) && at_home(
                p,
                props,
                slot,
                i,
            ) && !at_home(p, props, slot, j) ==> more == 100_000_000
        }),
{
}

/// A proposal for a late block is one more late shift of whom it proposes, and
/// no other changes anybody's.
pub proof fn law_a_late_proposal_is_a_late_shift(
    p: Problem,
    props: Seq<Proposal>,
    x: Proposal,
    u: Id,
)
    ensures
        times_in(on_late(p, props.push(x)), u) == times_in(on_late(p, props), u) + if p.late@[
        x.slot.shift as int] && p.staff@[x.person as int].employee_id == u {
            1int
        } else {
            0
        },
{
    assert(props.push(x).drop_last() =~= props);
    let y = p.id_of(x.person as int);
    if p.late@[x.slot.shift as int] {
        assert(on_late(p, props.push(x)) =~= on_late(p, props).push(y));
        assert(on_late(p, props).push(y).drop_last() =~= on_late(p, props));
    }
}

/// Whoever is rostered on a late block has a late shift, and who is on none has
/// none.
pub proof fn law_the_rosters_late_shifts_count(p: Problem, u: Id)
    ensures
        times_in(on_late(p, Seq::empty()), u) > 0 <==> exists|k: int|
            0 <= k < p.by_day@.len() && (#[trigger] p.by_day@[k]).person == u && p.late@[
            p.by_day@[k].shift as int],
{
    assert(on_late(p, Seq::empty()) =~= rostered_late(p, p.by_day@));
    lemma_rostered_late(p, p.by_day@.len() as int, u);
    assert(p.by_day@.take(p.by_day@.len() as int) =~= p.by_day@);
}

proof fn lemma_rostered_late(p: Problem, n: int, u: Id)
    requires
        0 <= n <= p.by_day@.len(),
    ensures
        times_in(rostered_late(p, p.by_day@.take(n)), u) >= 0,
        times_in(rostered_late(p, p.by_day@.take(n)), u) > 0 <==> exists|k: int|
            0 <= k < n && (#[trigger] p.by_day@[k]).person == u && p.late@[
            p.by_day@[k].shift as int],
    decreases n,
{
    if n > 0 {
        lemma_rostered_late(p, n - 1, u);
        let list = p.by_day@.take(n);
        assert(list.drop_last() =~= p.by_day@.take(n - 1));
        let before = rostered_late(p, list.drop_last());
        let x = p.by_day@[n - 1];
        assert(list.last() == x);
        if p.late@[x.shift as int] {
            assert(before.push(x.person).drop_last() =~= before);
        }
    }
}

/// A list of candidates is ranked: the higher score first, and of those alike
/// the first of the staff.
pub open spec fn ranked(list: Seq<Pick>) -> bool {
    forall|a: int, b: int|
        0 <= a < b < list.len() ==> (#[trigger] list[a]).score > (#[trigger] list[b]).score || (
        list[a].score == list[b].score && list[a].person < list[b].person)
}

proof fn lemma_ranked(list: Seq<Pick>, x: Pick)
    requires
        ranked(list),
        forall|k: int| 0 <= k < list.len() ==> (#[trigger] list[k]).person < x.person,
    ensures
        ranked(with_pick(list, x)),
    decreases list.len(),
{
    let all = with_pick(list, x);
    if list.len() == 0 || list.last().score >= x.score {
        assert forall|a: int, b: int| 0 <= a < b < all.len() implies (#[trigger] all[a]).score > (
        #[trigger] all[b]).score || (all[a].score == all[b].score && all[a].person
            < all[b].person) by {
            if b == list.len() && a < list.len() - 1 {
                assert(list[a].score >= list[list.len() - 1].score);
            }
        }
    } else {
        let short = list.drop_last();
        lemma_ranked(short, x);
        lemma_with_pick_holds(short, x);
        let front = with_pick(short, x);
        assert forall|a: int, b: int| 0 <= a < b < all.len() implies (#[trigger] all[a]).score > (
        #[trigger] all[b]).score || (all[a].score == all[b].score && all[a].person
            < all[b].person) by {
            if b == front.len() {
                assert(front.contains(front[a]));
                if front[a] != x {
                    let k = choose|k: int| 0 <= k < short.len() && short[k] == front[a];
                    assert(list[k] == front[a]);
                    assert(list[list.len() - 1] == list.last());
                }
            } else {
                assert(all[a] == front[a] && all[b] == front[b]);
            }
        }
    }
}

/// Everybody who may take a slot is among its candidates, once, and nobody
/// else; the best score comes first, and of those alike the first of the staff.
pub proof fn law_candidates_come_best_first(
    p: Problem,
    props: Seq<Proposal>,
    slot: Slot,
    dept: Option<Id>,
    from: Option<Id>,
    n: int,
)
    requires
        0 <= n <= p.staff@.len() <= usize::MAX,
    ensures
        ranked(p.picks(props, slot, dept, from, n)),
        forall|i: int|
            0 <= i < n ==> (p.may_take(props, slot, dept, from, i) <==> p.picks(
                props,
                slot,
                dept,
                from,
                n,
            ).contains(#[trigger] p.pick_of(props, slot, i))),
        forall|k: int|
            0 <= k < p.picks(props, slot, dept, from, n).len() ==> (#[trigger] p.picks(
                props,
                slot,
                dept,
                from,
                n,
            )[k]).person < n,
    decreases n,
{
    if n > 0 {
        law_candidates_come_best_first(p, props, slot, dept, from, n - 1);
        let before = p.picks(props, slot, dept, from, n - 1);
        let all = p.picks(props, slot, dept, from, n);
        let x = p.pick_of(props, slot, n - 1);
        lemma_with_pick_holds(before, x);
        if p.may_take(props, slot, dept, from, n - 1) {
            lemma_ranked(before, x);
        }
        assert forall|k: int| 0 <= k < all.len() implies (#[trigger] all[k]).person < n by {
            assert(all.contains(all[k]));
            if all[k] != x {
                let at = choose|at: int| 0 <= at < before.len() && before[at] == all[k];
                assert(before[at].person < n);
            }
        }
        assert forall|i: int| 0 <= i < n implies (p.may_take(props, slot, dept, from, i)
            <==> all.contains(#[trigger] p.pick_of(props, slot, i))) by {
            if all.contains(x) && before.contains(x) {
                let at = choose|at: int| 0 <= at < before.len() && before[at] == x;
                assert(before[at].person < n - 1);
            }
        }
    }
}

/// Who may take a slot: nobody takes one on a weekday they can't work or are on
/// leave, of another department than asked for, that they are on already or that
/// was decided on before, past a labour limit they keep, or beside a shift that it
/// overlaps or that lies within two hours of it that day; nor, under the hard
/// mode, does a woman take a late one who neither asked for evenings nor showed
/// that she takes them.
pub proof fn law_who_may_take_a_slot(
    p: Problem,
    props: Seq<Proposal>,
    slot: Slot,
    dept: Option<Id>,
    from: Option<Id>,
    i: int,
    k: int,
)
    requires
        p.may_take(props, slot, dept, from, i),
        0 <= k < all_spans(p, props, p.staff@[i].employee_id).len(),
    ensures
        ({
            let who = p.staff@[i];
            let s = all_spans(p, props, who.employee_id)[k];
            let two_hours = 120 * NANOS_PER_MINUTE;
            &&& !who.cant_work_days@.contains((slot.date as int % 7) as i16)
            &&& !p.leave@.contains((who.employee_id, slot.date))
            &&& dept is Some ==> who.department_id == dept
            &&& !people_on(p, props, slot.date, slot.shift as int).contains(who.employee_id)
            &&& !holds_text(p.decided@, p.offer_id(slot, from, who.employee_id))
            &&& no_new_break(all_spans(p, props, who.employee_id), slot.span, p.limits)
            &&& s.end <= slot.span.start || slot.span.end <= s.start
            &&& s.date == slot.span.date ==> s.end + two_hours <= slot.span.start || slot.span.end
                + two_hours <= s.start
            &&& p.late@[slot.shift as int] && p.gender_mode@ == "hard"@ && is_text(who.gender, "f"@)
                ==> is_text(who.pref_time, "evening"@) || (!p.frozen && p.learned@[i] is Some
                && p.learned@[i]->0.willing_late)
        }),
{
}

/// Nothing else keeps anybody from a slot.
pub proof fn law_nothing_else_keeps_anybody_from_a_slot(
    p: Problem,
    props: Seq<Proposal>,
    slot: Slot,
    dept: Option<Id>,
    from: Option<Id>,
    i: int,
)
    requires
        ({
            let who = p.staff@[i];
            let two_hours = 120 * NANOS_PER_MINUTE;
            &&& !who.cant_work_days@.contains((slot.date as int % 7) as i16)
            &&& !p.leave@.contains((who.employee_id, slot.date))
            &&& dept is None || who.department_id == dept
            &&& !people_on(p, props, slot.date, slot.shift as int).contains(who.employee_id)
            &&& !holds_text(p.decided@, p.offer_id(slot, from, who.employee_id))
            &&& no_new_break(all_spans(p, props, who.employee_id), slot.span, p.limits)
            &&& forall|k: int|
                0 <= k < all_spans(p, props, who.employee_id).len() ==> {
                    let s = #[trigger] all_spans(p, props, who.employee_id)[k];
                    &&& s.end <= slot.span.start || slot.span.end <= s.start
                    &&& s.date != slot.span.date || s.end + two_hours <= slot.span.start
                        || slot.span.end + two_hours <= s.start
                }
            &&& !p.late@[slot.shift as int] || p.gender_mode@ != "hard"@ || !is_text(
                who.gender,
                "f"@,
            ) || is_text(who.pref_time, "evening"@) || (!p.frozen && p.learned@[i] is Some
                && p.learned@[i]->0.willing_late)
        }),
    ensures
        p.may_take(props, slot, dept, from, i),
{
    let list = all_spans(p, props, p.staff@[i].employee_id);
    if clashes(list, slot.span) {
        let k = choose|k: int| 0 <= k < list.len() && clash(#[trigger] list[k], slot.span);
        assert(list[k].end <= slot.span.start || slot.span.end <= list[k].start);
    }
}

/// Whoever is rostered on a block on a date is on it, and whoever is proposed for
/// it; nobody else is.
pub proof fn law_who_is_on_a_block(p: Problem, props: Seq<Proposal>, d: Day, w: int, u: Id)
    ensures
        people_on(p, props, d, w).contains(u) <==> {
            ||| exists|i: int|
                0 <= i < p.by_day@.len() && (#[trigger] p.by_day@[i]).person == u
                    && p.by_day@[i].date == d && p.by_day@[i].shift == w
            ||| exists|i: int|
                0 <= i < props.len() && p.id_of((#[trigger] props[i]).person as int) == u
                    && props[i].slot.date == d && props[i].slot.shift == w
        },
{
    lemma_rostered_on(p.by_day@, d, w, u);
    lemma_proposed_on(p, props, d, w, u);
    let a = rostered_on(p.by_day@, d, w);
    let b = proposed_on(p, props, d, w);
    let all = a + b;
    if a.contains(u) {
        let i = choose|i: int| 0 <= i < a.len() && a[i] == u;
        assert(all[i] == u);
    }
    if b.contains(u) {
        let i = choose|i: int| 0 <= i < b.len() && b[i] == u;
        assert(all[a.len() + i] == u);
    }
    if all.contains(u) {
        let i = choose|i: int| 0 <= i < all.len() && all[i] == u;
        if i < a.len() {
            assert(a[i] == u);
        } else {
            assert(b[i - a.len()] == u);
        }
    }
}

proof fn lemma_rostered_on(list: Seq<Placed>, d: Day, w: int, u: Id)
    ensures
        rostered_on(list, d, w).contains(u) <==> exists|i: int|
            0 <= i < list.len() && (#[trigger] list[i]).person == u && list[i].date == d
                && list[i].shift == w,
    decreases list.len(),
{
    broadcast use vstd::seq_lib::group_seq_properties;

    if list.len() > 0 {
        let short = list.drop_last();
        lemma_rostered_on(short, d, w, u);
        assert forall|i: int| 0 <= i < short.len() implies #[trigger] list[i] == short[i] by {}
        assert(list[list.len() - 1] == list.last());
    }
}

proof fn lemma_proposed_on(p: Problem, props: Seq<Proposal>, d: Day, w: int, u: Id)
    ensures
        proposed_on(p, props, d, w).contains(u) <==> exists|i: int|
            0 <= i < props.len() && p.id_of((#[trigger] props[i]).person as int) == u
                && props[i].slot.date == d && props[i].slot.shift == w,
    decreases props.len(),
{
    broadcast use vstd::seq_lib::group_seq_properties;

    if props.len() > 0 {
        let short = props.drop_last();
        lemma_proposed_on(p, short, d, w, u);
        assert forall|i: int| 0 <= i < short.len() implies #[trigger] props[i] == short[i] by {}
        assert(props[props.len() - 1] == props.last());
    }
}

/// Everything somebody is on: one more shift of theirs is one more, whether it is
/// on the roster or proposed, and nobody else's is.
pub proof fn law_what_somebody_is_on(
    p: Problem,
    props: Seq<Proposal>,
    x: Proposal,
    list: Seq<(Id, Span)>,
    s: (Id, Span),
    u: Id,
)
    ensures
        all_spans(p, props.push(x), u) == if p.staff@[x.person as int].employee_id == u {
            all_spans(p, props, u).push(x.slot.span)
        } else {
            all_spans(p, props, u)
        },
        spans_of(list.push(s), u) == if s.0 == u {
            spans_of(list, u).push(s.1)
        } else {
            spans_of(list, u)
        },
        all_spans(p, Seq::empty(), u) == spans_of(p.spans@, u),
        spans_of(Seq::empty(), u).len() == 0,
{
    assert(props.push(x).drop_last() =~= props);
    assert(list.push(s).drop_last() =~= list);
    assert(all_spans(p, Seq::empty(), u) =~= spans_of(p.spans@, u));
    if p.id_of(x.person as int) == u {
        assert(all_spans(p, props.push(x), u) =~= all_spans(p, props, u).push(x.slot.span));
    }
}

} // verus!
