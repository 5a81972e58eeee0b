//! What a manager and an employee see of the roster.

use vstd::prelude::*;

use crate::calendar::{valid_day, Day, Id, Moment, MAX_DAY, MIN_DAY};
use crate::dawam::engine::{
    breaks, broken_limits, held_spans, lemma_power_is_positive, length_of, limits_broken, times60, valid_hours, valid_spans,
    Break, LabourKind, LabourWarning, Limits, Span,
};
use crate::dawam::presence::covers::has_id;
use crate::dawam::roster::open_shifts::OpenStatus;
use crate::dawam::{roster_day, saturday_of, week_start};
use crate::decimal::{half_even, has_room, power10, product, rounded_even, Dec};
use crate::errors::{bad_request, either, given, refusal, AppError, ErrorView};
use crate::ordered::{in_order, put_item, with_item, BranchDay, PersonDay};

verus! {

pub const MAX_DAYS: i64 = 62;

/// What a range of the roster is refused for, if anything.
pub open spec fn roster_range_refused(from: Day, to: Day) -> Option<ErrorView> {
    given(
        to < from || to - from > MAX_DAYS,
        ErrorView::BadRequest("The range must be 0–62 days"@),
    )
}

/// A range of the roster in order and no wider than a request may ask for.
pub fn check_range(from: Day, to: Day) -> (r: Result<(), AppError>)
    ensures
        refusal(r) == roster_range_refused(from, to),
{
    if to < from || to as i64 - from as i64 > MAX_DAYS {
        Err(bad_request("The range must be 0–62 days"))
    } else {
        Ok(())
    }
}

/// A person's approved leave or mission, first day to last.
#[derive(Debug, Clone, Copy, PartialEq, Eq, Structural)]
pub struct Leave {
    pub employee_id: Id,
    pub from: Day,
    pub to: Day,
}

/// The person is away on the date by one of the leaves, within the range.
pub open spec fn is_away(leaves: Seq<Leave>, from: Day, to: Day, k: PersonDay) -> bool {
    from <= k.date <= to && exists|i: int|
        0 <= i < leaves.len() && (#[trigger] leaves[i]).employee_id == k.employee_id
            && leaves[i].from <= k.date <= leaves[i].to
}

proof fn lemma_put_item(list: Seq<PersonDay>, x: PersonDay)
    requires
        in_order(list),
    ensures
        in_order(with_item(list, x)),
        forall|k: PersonDay| #[trigger] with_item(list, x).contains(k) <==> k == x
            || list.contains(k),
{
    crate::ordered::lemma_with_item(list, x);
}

/// Approved leave and missions per person and day, within the range.
pub fn leave_days(leaves: &Vec<Leave>, from: Day, to: Day) -> (r: Vec<PersonDay>)
    requires
        valid_day(from),
        valid_day(to),
    ensures
        in_order(r@),
        forall|k: PersonDay| #[trigger] r@.contains(k) <==> is_away(leaves@, from, to, k),
{
    let mut out: Vec<PersonDay> = Vec::new();
    let mut i: usize = 0;
    while i < leaves.len()
        invariant
            i <= leaves@.len(),
            valid_day(from),
            valid_day(to),
            in_order(out@),
            forall|k: PersonDay|
                #[trigger] out@.contains(k) <==> is_away(leaves@.take(i as int), from, to, k),
        decreases leaves@.len() - i,
    {
        let l: Leave = leaves[i];
        let lo: Day = if l.from >= from {
            l.from
        } else {
            from
        };
        let hi: Day = if l.to <= to {
            l.to
        } else {
            to
        };
        let mut d: i64 = lo as i64;
        let ghost before = out@;
        while d <= hi as i64
            invariant
                l == leaves@[i as int],
                i < leaves@.len(),
                valid_day(to),
                lo <= d,
                d <= hi + 1 || d == lo,
                hi <= to,
                in_order(out@),
                forall|k: PersonDay|
                    #[trigger] out@.contains(k) <==> before.contains(k) || (k.employee_id
                        == l.employee_id && lo <= k.date < d && k.date <= hi),
            decreases hi + 1 - d,
        {
            let k: PersonDay = PersonDay { employee_id: l.employee_id, date: d as Day };
            proof {
                lemma_put_item(out@, k);
            }
            put_item(&mut out, k);
            d = d + 1;
        }
        proof {
            let cut = leaves@.take(i + 1);
            assert forall|k: PersonDay| #[trigger] out@.contains(k) <==> is_away(
                cut,
                from,
                to,
                k,
            ) by {
                if is_away(cut, from, to, k) {
                    let j = choose|j: int|
                        0 <= j < cut.len() && (#[trigger] cut[j]).employee_id == k.employee_id
                            && cut[j].from <= k.date <= cut[j].to;
                    if j < i {
                        assert(leaves@.take(i as int)[j] == cut[j]);
                        assert(before.contains(k));
                    }
                }
                if before.contains(k) {
                    let part = leaves@.take(i as int);
                    let j = choose|j: int|
                        0 <= j < part.len() && (#[trigger] part[j]).employee_id == k.employee_id
                            && part[j].from <= k.date <= part[j].to;
                    assert(cut[j] == part[j]);
                }
                if k.employee_id == l.employee_id && lo <= k.date <= hi {
                    assert(cut[i as int] == l);
                }
            }
        }
        i += 1;
    }
    assert(leaves@.take(leaves@.len() as int) =~= leaves@);
    out
}

/// One shift of the roster, as it is resolved.
#[derive(Debug, Clone, Copy, PartialEq, Eq, Structural)]
pub struct ResolvedRow {
    pub whose: PersonDay,
    pub branch_id: Option<Id>,
    pub start_at: Moment,
    pub end_at: Moment,
}

/// One shift as the roster shows it.
#[derive(Debug, Clone, Copy, PartialEq, Eq, Structural)]
pub struct RosterShift {
    /// Its place among the resolved ones.
    pub row: usize,
    pub whose: PersonDay,
    pub branch_id: Id,
    pub start_at: Moment,
    pub end_at: Moment,
    /// Changed after its week was published.
    pub changed: bool,
    /// On approved leave or a mission that day.
    pub on_leave: bool,
}

/// The shift is shown: it has a branch, and that is the one asked for where one
/// is.
pub open spec fn is_shown(r: ResolvedRow, branch: Option<Id>) -> bool {
    r.branch_id is Some && (branch is None || branch == r.branch_id)
}

/// The shifts the roster shows, in order.
pub open spec fn shown_rows(
    rows: Seq<ResolvedRow>,
    branch: Option<Id>,
    changed: Seq<PersonDay>,
    leave: Seq<PersonDay>,
) -> Seq<RosterShift>
    decreases rows.len(),
{
    if rows.len() == 0 {
        Seq::empty()
    } else {
        let before = shown_rows(rows.drop_last(), branch, changed, leave);
        let r = rows.last();
        if is_shown(r, branch) {
            before.push(
                RosterShift {
                    row: (rows.len() - 1) as usize,
                    whose: r.whose,
                    branch_id: r.branch_id->0,
                    start_at: r.start_at,
                    end_at: r.end_at,
                    changed: changed.contains(r.whose),
                    on_leave: leave.contains(r.whose),
                },
            )
        } else {
            before
        }
    }
}

fn has_person_day(list: &Vec<PersonDay>, k: &PersonDay) -> (r: bool)
    ensures
        r == list@.contains(*k),
{
    let mut i: usize = 0;
    while i < list.len()
        invariant
            i <= list@.len(),
            forall|j: int| 0 <= j < i ==> list@[j] != *k,
        decreases list@.len() - i,
    {
        if list[i].employee_id == k.employee_id && list[i].date == k.date {
            assert(list@[i as int] == *k);
            return true;
        }
        i += 1;
    }
    false
}

/// People's shifts as roster rows; only those worked at the branch where one is
/// given.
pub fn roster_rows(
    rows: &Vec<ResolvedRow>,
    branch: Option<Id>,
    changed: &Vec<PersonDay>,
    leave: &Vec<PersonDay>,
) -> (r: Vec<RosterShift>)
    ensures
        r@ == shown_rows(rows@, branch, changed@, leave@),
{
    let mut out: Vec<RosterShift> = Vec::new();
    let mut i: usize = 0;
    while i < rows.len()
        invariant
            i <= rows@.len(),
            out@ == shown_rows(rows@.take(i as int), branch, changed@, leave@),
        decreases rows@.len() - i,
    {
        assert(rows@.take(i + 1).drop_last() =~= rows@.take(i as int));
        let r: ResolvedRow = rows[i];
        if let Some(at) = r.branch_id {
            let asked: bool = match branch {
                Some(b) => b == at,
                None => true,
            };
            if asked {
                out.push(
                    RosterShift {
                        row: i,
                        whose: r.whose,
                        branch_id: at,
                        start_at: r.start_at,
                        end_at: r.end_at,
                        changed: has_person_day(changed, &r.whose),
                        on_leave: has_person_day(leave, &r.whose),
                    },
                );
            }
        }
        i += 1;
    }
    assert(rows@.take(rows@.len() as int) =~= rows@);
    out
}

/// The week of the date is published at the branch. `published` holds the
/// Saturdays.
pub open spec fn is_published(published: Seq<BranchDay>, branch: Id, date: Day) -> bool {
    published.contains(BranchDay { date: saturday_of(date) as Day, branch_id: branch })
}

fn has_branch_day(list: &Vec<BranchDay>, k: &BranchDay) -> (r: bool)
    ensures
        r == list@.contains(*k),
{
    let mut i: usize = 0;
    while i < list.len()
        invariant
            i <= list@.len(),
            forall|j: int| 0 <= j < i ==> list@[j] != *k,
        decreases list@.len() - i,
    {
        if list[i].branch_id == k.branch_id && list[i].date == k.date {
            assert(list@[i as int] == *k);
            return true;
        }
        i += 1;
    }
    false
}

fn week_published(published: &Vec<BranchDay>, branch: Id, date: Day) -> (r: bool)
    requires
        roster_day(date),
    ensures
        r == is_published(published@, branch, date),
{
    has_branch_day(published, &BranchDay { date: week_start(date), branch_id: branch })
}

/// My shift is shown to me once its week is published at its branch.
pub open spec fn mine_shown(s: RosterShift, published: Seq<BranchDay>) -> bool {
    is_published(published, s.branch_id, s.whose.date)
}

/// A colleague's shift is shown to me: at one of my branches, published, and
/// they are not away.
pub open spec fn team_shown(s: RosterShift, branches: Seq<Id>, published: Seq<BranchDay>) -> bool {
    branches.contains(s.branch_id) && mine_shown(s, published) && !s.on_leave
}

/// The branch my roster is read at, the first of mine; somebody without one is
/// told so.
pub fn my_home(range: Result<(), AppError>, branches: &Vec<Id>) -> (r: Result<Id, AppError>)
    ensures
        match either(
            refusal(range),
            given(
                branches@.len() == 0,
                ErrorView::BadRequest("You have no branch yet — ask your manager."@),
            ),
        ) {
            Some(e) => r is Err && r->Err_0@ == e,
            None => r == Ok::<Id, AppError>(branches@[0]),
        },
{
    range?;
    if branches.len() == 0 {
        return Err(bad_request("You have no branch yet — ask your manager."));
    }
    Ok(branches[0])
}

/// Everybody of a list but one person, each once, in the order they first come.
pub open spec fn others_once(people: Seq<Id>, me: Id) -> Seq<Id>
    decreases people.len(),
{
    if people.len() == 0 {
        Seq::empty()
    } else {
        let before = others_once(people.drop_last(), me);
        let p = people.last();
        if p == me || before.contains(p) {
            before
        } else {
            before.push(p)
        }
    }
}

/// My colleagues: everybody of my branches but me, each once.
pub fn colleagues(people: &Vec<Id>, me: Id) -> (r: Vec<Id>)
    ensures
        r@ == others_once(people@, me),
{
    let mut out: Vec<Id> = Vec::new();
    let mut i: usize = 0;
    while i < people.len()
        invariant
            i <= people@.len(),
            out@ == others_once(people@.take(i as int), me),
        decreases people@.len() - i,
    {
        assert(people@.take(i + 1).drop_last() =~= people@.take(i as int));
        let p: Id = people[i];
        if p != me && !has_id(&out, p) {
            out.push(p);
        }
        i += 1;
    }
    assert(people@.take(people@.len() as int) =~= people@);
    out
}

/// My colleagues are everybody at my branches but me, and nobody comes twice.
pub proof fn law_colleagues_are_the_others_once(people: Seq<Id>, me: Id, who: Id)
    ensures
        others_once(people, me).contains(who) <==> people.contains(who) && who != me,
        others_once(people, me).no_duplicates(),
    decreases people.len(),
{
    broadcast use vstd::seq_lib::group_seq_properties;

    if people.len() > 0 {
        law_colleagues_are_the_others_once(people.drop_last(), me, who);
        assert(people =~= people.drop_last().push(people.last()));
    }
}

/// My published shifts.
pub fn my_roster(shifts: &Vec<RosterShift>, published: &Vec<BranchDay>) -> (r: Vec<RosterShift>)
    requires
        forall|i: int| 0 <= i < shifts@.len() ==> roster_day((#[trigger] shifts@[i]).whose.date),
    ensures
        r@ == shifts@.filter(|s: RosterShift| mine_shown(s, published@)),
{
    let mut out: Vec<RosterShift> = Vec::new();
    let mut i: usize = 0;
    while i < shifts.len()
        invariant
            i <= shifts@.len(),
            forall|k: int|
                0 <= k < shifts@.len() ==> roster_day((#[trigger] shifts@[k]).whose.date),
            out@ == shifts@.take(i as int).filter(|s: RosterShift| mine_shown(s, published@)),
        decreases shifts@.len() - i,
    {
        assert(roster_day(shifts@[i as int].whose.date));
        let keep: bool = week_published(published, shifts[i].branch_id, shifts[i].whose.date);
        proof {
            let f = |s: RosterShift| mine_shown(s, published@);
            reveal(Seq::filter);
            assert(shifts@.take(i + 1).drop_last() =~= shifts@.take(i as int));
            assert(keep == f(shifts@[i as int]));
        }
        if keep {
            out.push(shifts[i]);
        }
        i += 1;
    }
    assert(shifts@.take(shifts@.len() as int) =~= shifts@);
    out
}

/// Colleagues' published shifts at my branches: what a swap can be with.
pub fn my_team(
    shifts: &Vec<RosterShift>,
    branches: &Vec<Id>,
    published: &Vec<BranchDay>,
) -> (r: Vec<RosterShift>)
    requires
        forall|i: int| 0 <= i < shifts@.len() ==> roster_day((#[trigger] shifts@[i]).whose.date),
    ensures
        r@ == shifts@.filter(|s: RosterShift| team_shown(s, branches@, published@)),
{
    let mut out: Vec<RosterShift> = Vec::new();
    let mut i: usize = 0;
    while i < shifts.len()
        invariant
            i <= shifts@.len(),
            forall|k: int|
                0 <= k < shifts@.len() ==> roster_day((#[trigger] shifts@[k]).whose.date),
            out@ == shifts@.take(i as int).filter(
                |s: RosterShift| team_shown(s, branches@, published@),
            ),
        decreases shifts@.len() - i,
    {
        assert(roster_day(shifts@[i as int].whose.date));
        let s: RosterShift = shifts[i];
        let keep: bool = has_id(branches, s.branch_id) && week_published(
            published,
            s.branch_id,
            s.whose.date,
        ) && !s.on_leave;
        proof {
            let f = |s: RosterShift| team_shown(s, branches@, published@);
            reveal(Seq::filter);
            assert(shifts@.take(i + 1).drop_last() =~= shifts@.take(i as int));
            assert(keep == f(s));
        }
        if keep {
            out.push(s);
        }
        i += 1;
    }
    assert(shifts@.take(shifts@.len() as int) =~= shifts@);
    out
}

/// The Saturdays from one on, up to a date, whose week is not published at the
/// branch.
pub open spec fn unpublished_from(
    published: Seq<BranchDay>,
    home: Id,
    w: int,
    to: Day,
) -> Seq<int>
    decreases to - w + 7,
{
    if w > to {
        Seq::empty()
    } else if published.contains(BranchDay { date: w as Day, branch_id: home }) {
        unpublished_from(published, home, w + 7, to)
    } else {
        seq![w] + unpublished_from(published, home, w + 7, to)
    }
}

/// Days as integers.
pub open spec fn day_ints(list: Seq<Day>) -> Seq<int> {
    Seq::new(list.len(), |i: int| list[i] as int)
}

/// The weeks in range that are not published yet at my branch.
pub fn unpublished_weeks(published: &Vec<BranchDay>, home: Id, from: Day, to: Day) -> (r: Vec<
    Day,
>)
    requires
        roster_day(from),
        MIN_DAY <= to <= MAX_DAY - 7,
    ensures
        day_ints(r@) == unpublished_from(published@, home, saturday_of(from), to),
{
    let mut out: Vec<Day> = Vec::new();
    let mut w: Day = week_start(from);
    assert(day_ints(out@) =~= Seq::empty());
    assert(Seq::empty() + unpublished_from(published@, home, w as int, to) =~= unpublished_from(
        published@,
        home,
        w as int,
        to,
    ));
    while w <= to
        invariant
            MIN_DAY <= to <= MAX_DAY - 7,
            MIN_DAY <= w <= MAX_DAY,
            unpublished_from(published@, home, saturday_of(from), to) == day_ints(out@)
                + unpublished_from(published@, home, w as int, to),
        decreases to - w + 7,
    {
        let ghost had = out@;
        let ghost rest = unpublished_from(published@, home, w + 7, to);
        if !has_branch_day(published, &BranchDay { date: w, branch_id: home }) {
            out.push(w);
            proof {
                assert(day_ints(out@) =~= day_ints(had).push(w as int));
                assert(day_ints(had) + (seq![w as int] + rest) =~= day_ints(out@) + rest);
            }
        }
        w = w + 7;
    }
    assert(day_ints(out@) + Seq::<int>::empty() =~= day_ints(out@));
    out
}

/// An open shift as it is listed.
#[derive(Debug, Clone, Copy, PartialEq, Eq, Structural)]
pub struct ListedShift {
    pub branch_id: Id,
    pub on_date: Day,
    pub status: OpenStatus,
    pub claimed_by: Option<Id>,
    pub start_at: Option<Moment>,
}

/// Open and not yet started.
pub open spec fn claimable(o: ListedShift, now: Moment) -> bool {
    o.status == OpenStatus::Open && (o.start_at is None || o.start_at->0 > now)
}

/// The shift is offered to the person: one to claim, or one they claimed, in a
/// published week.
pub open spec fn offered(o: ListedShift, who: Id, published: Seq<BranchDay>, now: Moment) -> bool {
    (claimable(o, now) || o.claimed_by == Some(who)) && is_published(
        published,
        o.branch_id,
        o.on_date,
    )
}

fn is_claimable(o: &ListedShift, now: Moment) -> (r: bool)
    ensures
        r == claimable(*o, now),
{
    let open: bool = match o.status {
        OpenStatus::Open => true,
        _ => false,
    };
    let ahead: bool = match o.start_at {
        Some(s) => s > now,
        None => true,
    };
    open && ahead
}

/// Whether an open shift is offered to the person.
pub fn offer_open_shift(
    o: &ListedShift,
    who: Id,
    published: &Vec<BranchDay>,
    now: Moment,
) -> (r: bool)
    requires
        roster_day(o.on_date),
    ensures
        r == offered(*o, who, published@, now),
{
    let mine: bool = match o.claimed_by {
        Some(c) => c == who,
        None => false,
    };
    (is_claimable(o, now) || mine) && week_published(published, o.branch_id, o.on_date)
}

/// The dates of the shifts still to be claimed, one after another and none
/// twice in a row.
pub open spec fn claimable_dates(list: Seq<ListedShift>, now: Moment) -> Seq<Day>
    decreases list.len(),
{
    if list.len() == 0 {
        Seq::empty()
    } else {
        let before = claimable_dates(list.drop_last(), now);
        let o = list.last();
        if claimable(o, now) && (before.len() == 0 || before.last() != o.on_date) {
            before.push(o.on_date)
        } else {
            before
        }
    }
}

/// What publishing a week announces: each open shift by its own date, one
/// notice per date; one that already started is not. The list comes by date.
pub fn publish(list: &Vec<ListedShift>, now: Moment) -> (r: Vec<Day>)
    ensures
        r@ == claimable_dates(list@, now),
{
    let mut out: Vec<Day> = Vec::new();
    let mut i: usize = 0;
    while i < list.len()
        invariant
            i <= list@.len(),
            out@ == claimable_dates(list@.take(i as int), now),
        decreases list@.len() - i,
    {
        assert(list@.take(i + 1).drop_last() =~= list@.take(i as int));
        let o: ListedShift = list[i];
        if is_claimable(&o, now) && (out.len() == 0 || out[out.len() - 1] != o.on_date) {
            out.push(o.on_date);
        }
        i += 1;
    }
    assert(list@.take(list@.len() as int) =~= list@);
    out
}

/// A person's shifts the limits count, in order: those not on leave.
pub open spec fn counted_spans(shifts: Seq<RosterShift>, who: Id) -> Seq<Span>
    decreases shifts.len(),
{
    if shifts.len() == 0 {
        Seq::empty()
    } else {
        let before = counted_spans(shifts.drop_last(), who);
        let s = shifts.last();
        if s.whose.employee_id == who && !s.on_leave {
            before.push(Span { date: s.whose.date, start: s.start_at, end: s.end_at })
        } else {
            before
        }
    }
}

/// Every shift's span.
pub open spec fn every_span(shifts: Seq<RosterShift>) -> Seq<Span> {
    Seq::new(
        shifts.len(),
        |i: int|
            Span { date: shifts[i].whose.date, start: shifts[i].start_at, end: shifts[i].end_at },
    )
}

/// Shifts the calendar holds, whose minutes an `i64` adds up.
pub open spec fn held_shifts(shifts: Seq<RosterShift>) -> bool {
    &&& length_of(every_span(shifts)) <= i64::MAX
    &&& forall|i: int|
        0 <= i < shifts.len() ==> (Span {
            date: (#[trigger] shifts[i]).whose.date,
            start: shifts[i].start_at,
            end: shifts[i].end_at,
        }).valid()
}

/// One person's minutes are part of everybody's.
proof fn lemma_counted_is_part(shifts: Seq<RosterShift>, who: Id)
    ensures
        length_of(counted_spans(shifts, who)) <= length_of(every_span(shifts)),
    decreases shifts.len(),
{
    if shifts.len() > 0 {
        let short = shifts.drop_last();
        lemma_counted_is_part(short, who);
        let all = every_span(shifts);
        assert(all.drop_last() =~= every_span(short));
        let before = counted_spans(short, who);
        let own = counted_spans(shifts, who);
        if own != before {
            assert(own.drop_last() =~= before);
        }
    }
}

fn spans_of_person(shifts: &Vec<RosterShift>, who: Id) -> (r: Vec<Span>)
    requires
        held_shifts(shifts@),
    ensures
        r@ == counted_spans(shifts@, who),
        valid_spans(r@),
{
    let mut out: Vec<Span> = Vec::new();
    let mut i: usize = 0;
    while i < shifts.len()
        invariant
            i <= shifts@.len(),
            held_shifts(shifts@),
            out@ == counted_spans(shifts@.take(i as int), who),
            held_spans(out@),
        decreases shifts@.len() - i,
    {
        assert(shifts@.take(i + 1).drop_last() =~= shifts@.take(i as int));
        let s: RosterShift = shifts[i];
        proof {
            assert(shifts@[i as int] == s);
        }
        if s.whose.employee_id == who && !s.on_leave {
            let span: Span = Span { date: s.whose.date, start: s.start_at, end: s.end_at };
            assert(span.valid());
            out.push(span);
        }
        i += 1;
    }
    assert(shifts@.take(shifts@.len() as int) =~= shifts@);
    proof {
        lemma_counted_is_part(shifts@, who);
    }
    out
}

/// The limits a list of warnings says are broken, and whose.
pub open spec fn warned(list: Seq<LabourWarning>) -> Seq<(Id, Break)> {
    Seq::new(list.len(), |i: int| (list[i].employee_id, list[i].broken()))
}

/// Each person's broken limits, one person after another.
pub open spec fn all_broken(
    staff: Seq<Id>,
    shifts: Seq<RosterShift>,
    limits: Limits,
) -> Seq<(Id, Break)>
    decreases staff.len(),
{
    if staff.len() == 0 {
        Seq::empty()
    } else {
        let who = staff.last();
        let broken = limits_broken(counted_spans(shifts, who), limits);
        all_broken(staff.drop_last(), shifts, limits) + Seq::new(
            broken.len(),
            |i: int| (who, broken[i]),
        )
    }
}

/// The minutes of overtime a day may have, from hours.
pub open spec fn overtime_cap(hours: Dec) -> int {
    let n = half_even(product(hours.mantissa as int, hours.scale as int, 60, 0));
    if i64::MIN <= n <= i64::MAX {
        n
    } else {
        i64::MAX as int
    }
}

proof fn lemma_whole_minutes(hours: Dec)
    ensures
        forall|m: i64|
            hours.mantissa >= 0 && #[trigger] (m * power10(hours.scale as int)) == hours.mantissa
                * 60 ==> (hours.mantissa * 60) / power10(hours.scale as int) == m && (hours.mantissa
                * 60) % power10(hours.scale as int) == 0,
        power10(hours.scale as int) > 0,
        power10(0) == 1,
        half_even(Dec { mantissa: 0, scale: 0 }) == 0,
{
    let unit = power10(hours.scale as int);
    lemma_power_is_positive(hours.scale as int);
    assert forall|m: i64| hours.mantissa >= 0 && #[trigger] (m * unit) == hours.mantissa
        * 60 implies (hours.mantissa * 60) / unit == m && (hours.mantissa * 60) % unit == 0 by {
        assert(m >= 0) by (nonlinear_arith)
            requires
                m * unit >= 0,
                unit > 0,
        ;
        vstd::arithmetic::div_mod::lemma_div_by_multiple(m as int, unit);
        vstd::arithmetic::div_mod::lemma_mod_multiples_basic(m as int, unit);
    }
}

/// The minutes of overtime a day may have, from hours.
pub fn overtime_cap_minutes(hours: Dec) -> (r: i64)
    requires
        valid_hours(hours),
    ensures
        r == overtime_cap(hours),
        // On whole minutes it is just those.
        forall|m: i64|
            hours.mantissa >= 0 && has_room(hours.mantissa * 60) && #[trigger] (m * power10(
                hours.scale as int,
            )) == hours.mantissa * 60 ==> r == m,
{
    proof {
        lemma_whole_minutes(hours);
    }
    let n: i128 = rounded_even(times60(hours));
    if n >= i64::MIN as i128 && n <= i64::MAX as i128 {
        n as i64
    } else {
        i64::MAX
    }
}

/// A person's recorded overtime on a day.
#[derive(Debug, Clone, Copy, PartialEq, Eq, Structural)]
pub struct DayOvertime {
    pub whose: PersonDay,
    pub minutes: i64,
}

/// The days whose overtime went past the cap, in order.
pub open spec fn over_cap(list: Seq<DayOvertime>, cap: int) -> Seq<(Id, Break)>
    decreases list.len(),
{
    if list.len() == 0 {
        Seq::empty()
    } else {
        let before = over_cap(list.drop_last(), cap);
        let o = list.last();
        if o.minutes > cap {
            before.push(
                (
                    o.whose.employee_id,
                    Break {
                        date: o.whose.date as int,
                        kind: LabourKind::OvertimeDay,
                        minutes: o.minutes as int,
                        limit: cap,
                    },
                ),
            )
        } else {
            before
        }
    }
}

/// The labour limits over a roster range: the rostered limits per person, then
/// the days whose recorded overtime went past the daily cap. Warnings, never
/// blocks.
pub fn labour_warnings(
    staff: &Vec<Id>,
    shifts: &Vec<RosterShift>,
    limits: &Limits,
    overtime: &Vec<DayOvertime>,
    cap: i64,
) -> (r: Vec<LabourWarning>)
    requires
        held_shifts(shifts@),
    ensures
        warned(r@) == all_broken(staff@, shifts@, *limits) + over_cap(overtime@, cap as int),
{
    let mut out: Vec<LabourWarning> = Vec::new();
    assert(warned(out@) =~= Seq::empty());
    let mut i: usize = 0;
    while i < staff.len()
        invariant
            i <= staff@.len(),
            held_shifts(shifts@),
            warned(out@) == all_broken(staff@.take(i as int), shifts@, *limits),
        decreases staff@.len() - i,
    {
        assert(staff@.take(i + 1).drop_last() =~= staff@.take(i as int));
        let who: Id = staff[i];
        let spans: Vec<Span> = spans_of_person(shifts, who);
        let mut found: Vec<LabourWarning> = breaks(who, spans.as_slice(), limits);
        let ghost had = out@;
        let ghost more = found@;
        out.append(&mut found);
        proof {
            let broken = limits_broken(counted_spans(shifts@, who), *limits);
            assert(broken_limits(more) == broken);
            assert(warned(out@) =~= warned(had) + Seq::new(
                broken.len(),
                |k: int| (who, broken[k]),
            )) by {
                assert forall|k: int| 0 <= k < more.len() implies (#[trigger] more[k]).broken()
                    == broken[k] by {
                    assert(broken_limits(more)[k] == more[k].broken());
                }
            }
        }
        i += 1;
    }
    assert(staff@.take(staff@.len() as int) =~= staff@);
    let ghost rostered = warned(out@);
    assert(rostered + Seq::<(Id, Break)>::empty() =~= rostered);
    let mut j: usize = 0;
    while j < overtime.len()
        invariant
            j <= overtime@.len(),
            warned(out@) == rostered + over_cap(overtime@.take(j as int), cap as int),
        decreases overtime@.len() - j,
    {
        assert(overtime@.take(j + 1).drop_last() =~= overtime@.take(j as int));
        let o: DayOvertime = overtime[j];
        if o.minutes > cap {
            let ghost had = out@;
            let w: LabourWarning = LabourWarning {
                employee_id: o.whose.employee_id,
                date: o.whose.date,
                kind: LabourKind::OvertimeDay,
                minutes: o.minutes,
                limit_minutes: cap,
            };
            out.push(w);
            proof {
                assert(warned(out@) =~= warned(had).push((w.employee_id, w.broken())));
                assert(warned(out@) =~= rostered + over_cap(overtime@.take(j + 1), cap as int));
            }
        }
        j += 1;
    }
    assert(overtime@.take(overtime@.len() as int) =~= overtime@);
    out
}

/// Nothing of a week nobody published is shown to staff.
pub proof fn law_staff_see_published_weeks_only(
    s: RosterShift,
    o: ListedShift,
    branches: Seq<Id>,
    published: Seq<BranchDay>,
    who: Id,
    now: Moment,
)
    ensures
        team_shown(s, branches, published) ==> is_published(published, s.branch_id, s.whose.date),
        offered(o, who, published, now) ==> is_published(published, o.branch_id, o.on_date),
{
}

/// The grid of a branch: of everybody's shifts, wherever worked, those worked
/// there.
pub fn shifts_at(everywhere: Vec<RosterShift>, branch: Id) -> (r: Vec<RosterShift>)
    ensures
        r@ == everywhere@.filter(|s: RosterShift| s.branch_id == branch),
{
    let mut out: Vec<RosterShift> = Vec::new();
    let mut i: usize = 0;
    while i < everywhere.len()
        invariant
            i <= everywhere@.len(),
            out@ == everywhere@.take(i as int).filter(|s: RosterShift| s.branch_id == branch),
        decreases everywhere@.len() - i,
    {
        let keep: bool = everywhere[i].branch_id == branch;
        proof {
            let f = |s: RosterShift| s.branch_id == branch;
            reveal(Seq::filter);
            assert(everywhere@.take(i + 1).drop_last() =~= everywhere@.take(i as int));
            assert(keep == f(everywhere@[i as int]));
        }
        if keep {
            out.push(everywhere[i]);
        }
        i += 1;
    }
    assert(everywhere@.take(everywhere@.len() as int) =~= everywhere@);
    out
}

/// A range of the roster runs forward and spans sixty-two days at most.
pub proof fn law_a_roster_spans_so_many_days(from: Day, to: Day)
    ensures
        roster_range_refused(from, to) is None <==> from <= to && to - from <= 62,
{
}

/// A shift with a branch is shown, where no other branch is asked for, as it is
/// resolved, marked where its day changed or its person is away.
pub proof fn law_a_branchs_shifts_are_shown(
    rows: Seq<ResolvedRow>,
    r: ResolvedRow,
    branch: Option<Id>,
    changed: Seq<PersonDay>,
    leave: Seq<PersonDay>,
)
    requires
        rows.len() <= usize::MAX,
    ensures
        ({
            let before = shown_rows(rows, branch, changed, leave);
            let now = shown_rows(rows.push(r), branch, changed, leave);
            if r.branch_id is Some && (branch is None || branch == r.branch_id) {
                let x = now.last();
                &&& now.len() == before.len() + 1
                &&& now.drop_last() == before
                &&& x.row == rows.len()
                &&& x.whose == r.whose
                &&& Some(x.branch_id) == r.branch_id
                &&& x.start_at == r.start_at
                &&& x.end_at == r.end_at
                &&& x.changed <==> changed.contains(r.whose)
                &&& x.on_leave <==> leave.contains(r.whose)
            } else {
                now == before
            }
        }),
{
    assert(rows.push(r).drop_last() =~= rows);
    let before = shown_rows(rows, branch, changed, leave);
    let now = shown_rows(rows.push(r), branch, changed, leave);
    if r.branch_id is Some && (branch is None || branch == r.branch_id) {
        assert(now.drop_last() =~= before);
    }
}

/// A date is published at a branch where its Saturday is, and so with the whole
/// week.
pub proof fn law_a_week_is_published_as_a_whole(
    published: Seq<BranchDay>,
    branch: Id,
    date: Day,
    saturday: Day,
)
    requires
        saturday % 7 == 6,
        saturday <= date < saturday + 7,
    ensures
        is_published(published, branch, date) <==> published.contains(
            BranchDay { date: saturday, branch_id: branch },
        ),
{
}

/// I see my shifts of published weeks, and my colleagues' at my branches who are
/// not away.
pub proof fn law_what_a_colleague_is_shown(
    s: RosterShift,
    branches: Seq<Id>,
    published: Seq<BranchDay>,
)
    ensures
        mine_shown(s, published) <==> is_published(published, s.branch_id, s.whose.date),
        team_shown(s, branches, published) <==> branches.contains(s.branch_id) && is_published(
            published,
            s.branch_id,
            s.whose.date,
        ) && !s.on_leave,
{
}

/// A shift is offered to who claimed it and, while it is open and ahead, to
/// everybody; in published weeks alone.
pub proof fn law_which_open_shift_is_offered(
    o: ListedShift,
    who: Id,
    published: Seq<BranchDay>,
    now: Moment,
)
    ensures
        offered(o, who, published, now) <==> {
            &&& is_published(published, o.branch_id, o.on_date)
            &&& o.claimed_by == Some(who) || (o.status == OpenStatus::Open && (o.start_at is Some
                ==> now < o.start_at->0))
        },
{
}

/// A date with an open shift ahead is announced, and no other.
pub proof fn law_dates_with_an_open_shift_are_announced(
    list: Seq<ListedShift>,
    now: Moment,
    d: Day,
)
    ensures
        claimable_dates(list, now).contains(d) <==> exists|i: int|
            0 <= i < list.len() && (#[trigger] list[i]).on_date == d && list[i].status
                == OpenStatus::Open && (list[i].start_at is Some ==> now < list[i].start_at->0),
    decreases list.len(),
{
    broadcast use vstd::seq_lib::group_seq_properties;

    if list.len() > 0 {
        let short = list.drop_last();
        law_dates_with_an_open_shift_are_announced(short, now, d);
        let before = claimable_dates(short, now);
        let o = list.last();
        assert(list[list.len() - 1] == o);
        assert forall|i: int| 0 <= i < short.len() implies #[trigger] list[i] == short[i] by {}
        if before.len() > 0 && before.last() == o.on_date {
            assert(before[before.len() - 1] == o.on_date);
            assert(before.contains(o.on_date));
        }
        if claimable_dates(list, now).contains(d) && !before.contains(d) {
            assert(o.on_date == d && claimable(o, now));
        }
    }
}

/// The weeks not published are the Saturdays up to a date that are not, in
/// order.
pub proof fn law_unpublished_weeks_are_those_not_published(
    published: Seq<BranchDay>,
    home: Id,
    from: int,
    to: Day,
    w: int,
)
    ensures
        unpublished_from(published, home, from, to).contains(w) <==> from <= w <= to && (w - from)
            % 7 == 0 && !published.contains(BranchDay { date: w as Day, branch_id: home }),
    decreases to - from + 7,
{
    broadcast use vstd::seq_lib::group_seq_properties;

    if from <= to {
        law_unpublished_weeks_are_those_not_published(published, home, from + 7, to, w);
        let rest = unpublished_from(published, home, from + 7, to);
        assert((seq![from] + rest).contains(w) <==> w == from || rest.contains(w)) by {
            if rest.contains(w) {
                let i = choose|i: int| 0 <= i < rest.len() && rest[i] == w;
                assert((seq![from] + rest)[i + 1] == w);
            }
            if w == from {
                assert((seq![from] + rest)[0] == w);
            }
            if (seq![from] + rest).contains(w) && w != from {
                let i = choose|i: int| 0 <= i < rest.len() + 1 && (seq![from] + rest)[i] == w;
                assert(rest[i - 1] == w);
            }
        }
    }
}

/// The limits count a person's own shifts, but for those they are away from, each
/// at its own times.
pub proof fn law_limits_count_who_is_there(shifts: Seq<RosterShift>, s: RosterShift, who: Id)
    ensures
        counted_spans(shifts.push(s), who) == if s.whose.employee_id == who && !s.on_leave {
            counted_spans(shifts, who).push(
                Span { date: s.whose.date, start: s.start_at, end: s.end_at },
            )
        } else {
            counted_spans(shifts, who)
        },
        counted_spans(Seq::empty(), who).len() == 0,
{
    assert(shifts.push(s).drop_last() =~= shifts);
}

/// Overtime past the cap is warned of on its day, with what it was; up to the
/// cap it is not.
pub proof fn law_overtime_past_the_cap_is_warned_of(
    list: Seq<DayOvertime>,
    o: DayOvertime,
    cap: int,
)
    ensures
        o.minutes <= cap ==> over_cap(list.push(o), cap) == over_cap(list, cap),
        o.minutes > cap ==> ({
            let now = over_cap(list.push(o), cap);
            &&& now.drop_last() == over_cap(list, cap)
            &&& now.len() == over_cap(list, cap).len() + 1
            &&& now.last().0 == o.whose.employee_id
            &&& now.last().1.date == o.whose.date
            &&& now.last().1.kind == LabourKind::OvertimeDay
            &&& now.last().1.minutes == o.minutes
            &&& now.last().1.limit == cap
        }),
        over_cap(Seq::empty(), cap).len() == 0,
{
    assert(list.push(o).drop_last() =~= list);
    if o.minutes > cap {
        assert(over_cap(list.push(o), cap).drop_last() =~= over_cap(list, cap));
    }
}

/// Every limit a person of the staff breaks is warned of under their name, and
/// nothing else is.
pub proof fn law_each_persons_limits_are_warned_of(
    staff: Seq<Id>,
    shifts: Seq<RosterShift>,
    limits: Limits,
    who: Id,
    b: Break,
)
    ensures
        all_broken(staff, shifts, limits).contains((who, b)) <==> staff.contains(who)
            && limits_broken(counted_spans(shifts, who), limits).contains(b),
    decreases staff.len(),
{
    if staff.len() > 0 {
        let short = staff.drop_last();
        law_each_persons_limits_are_warned_of(short, shifts, limits, who, b);
        let last = staff.last();
        let broken = limits_broken(counted_spans(shifts, last), limits);
        let before = all_broken(short, shifts, limits);
        let more = Seq::new(broken.len(), |i: int| (last, broken[i]));
        let all = all_broken(staff, shifts, limits);
        assert(all == before + more);
        assert(staff.contains(who) <==> short.contains(who) || who == last) by {
            if staff.contains(who) {
                let i = choose|i: int| 0 <= i < staff.len() && staff[i] == who;
                if i < short.len() {
                    assert(short[i] == who);
                }
            }
            if short.contains(who) {
                let i = choose|i: int| 0 <= i < short.len() && short[i] == who;
                assert(staff[i] == who);
            }
            assert(staff[staff.len() - 1] == last);
        }
        if all.contains((who, b)) {
            let i = choose|i: int| 0 <= i < all.len() && all[i] == (who, b);
            if i < before.len() {
                assert(before[i] == (who, b));
            } else {
                assert(more[i - before.len()] == (who, b));
                assert(broken[i - before.len()] == b);
            }
        }
        if before.contains((who, b)) {
            let i = choose|i: int| 0 <= i < before.len() && before[i] == (who, b);
            assert(all[i] == (who, b));
        }
        if who == last && broken.contains(b) {
            let i = choose|i: int| 0 <= i < broken.len() && broken[i] == b;
            assert(more[i] == (who, b));
            assert(all[before.len() + i] == (who, b));
        }
    }
}

/// Somebody is away on the dates of each of their leaves, both ends with them,
/// within the range.
pub proof fn law_who_is_away(leaves: Seq<Leave>, l: Leave, from: Day, to: Day, k: PersonDay)
    ensures
        is_away(leaves.push(l), from, to, k) <==> is_away(leaves, from, to, k) || (l.employee_id
            == k.employee_id && l.from <= k.date && k.date <= l.to && from <= k.date && k.date
            <= to),
        !is_away(Seq::empty(), from, to, k),
{
    let all = leaves.push(l);
    if is_away(leaves, from, to, k) {
        let i = choose|i: int|
            0 <= i < leaves.len() && (#[trigger] leaves[i]).employee_id == k.employee_id
                && leaves[i].from <= k.date <= leaves[i].to;
        assert(all[i] == leaves[i]);
    }
    if l.employee_id == k.employee_id && l.from <= k.date && k.date <= l.to && from <= k.date
        && k.date <= to {
        assert(all[all.len() - 1] == l);
    }
    if is_away(all, from, to, k) {
        let i = choose|i: int|
            0 <= i < all.len() && (#[trigger] all[i]).employee_id == k.employee_id && all[i].from
                <= k.date <= all[i].to;
        if i < leaves.len() {
            assert(leaves[i] == all[i]);
        }
    }
}

} // verus!
