//! Covering a colleague's missed shift, and the overtime of a shift.

use vstd::prelude::*;

use crate::calendar::{valid_moment, Day, Id, Moment, NANOS_PER_MINUTE};
use crate::dawam::clock::Stamped;
use crate::errors::{
    coded, coded_view, conflict, either, given, not_found, refusal, refused, AppError, ErrorView,
};

verus! {

/// A rostered shift of a colleague, with what is known of it.
pub struct MissedShift {
    pub employee_id: Id,
    pub employee_name: String,
    pub branch_id: Option<Id>,
    pub work_shift_id: Id,
    pub shift_name: String,
    pub business_date: Day,
    pub scheduled_start_at: Moment,
    pub scheduled_end_at: Moment,
    pub grace_minutes: i32,
    /// They punched for it, or someone covers it and was not turned down.
    pub punched: bool,
    /// On approved leave or a mission that day.
    pub on_leave: bool,
}

/// A shift that can be covered now.
#[derive(Debug, Clone, PartialEq, Eq)]
pub struct CoverableShift {
    pub employee_id: Id,
    pub employee_name: String,
    pub branch_id: Id,
    pub work_shift_id: Id,
    pub shift_name: String,
    pub business_date: Day,
    pub scheduled_start_at: Moment,
    pub scheduled_end_at: Moment,
}

/// What a [`CoverableShift`] says.
pub struct CoverableView {
    pub employee_id: Id,
    pub employee_name: Seq<char>,
    pub branch_id: Id,
    pub work_shift_id: Id,
    pub shift_name: Seq<char>,
    pub business_date: Day,
    pub scheduled_start_at: Moment,
    pub scheduled_end_at: Moment,
}

impl View for CoverableShift {
    type V = CoverableView;

    open spec fn view(&self) -> CoverableView {
        CoverableView {
            employee_id: self.employee_id,
            employee_name: self.employee_name@,
            branch_id: self.branch_id,
            work_shift_id: self.work_shift_id,
            shift_name: self.shift_name@,
            business_date: self.business_date,
            scheduled_start_at: self.scheduled_start_at,
            scheduled_end_at: self.scheduled_end_at,
        }
    }
}

impl MissedShift {
    pub open spec fn valid(self) -> bool {
        valid_moment(self.scheduled_start_at) && valid_moment(self.scheduled_end_at)
    }

    /// Can be covered: at one of the branches, its owner past grace without a
    /// punch, not on leave, and the shift not over.
    pub open spec fn coverable(self, mine: Seq<Id>, now: Moment) -> bool {
        &&& self.branch_id is Some && mine.contains(self.branch_id->0)
        &&& now > self.scheduled_start_at + self.grace_minutes * NANOS_PER_MINUTE
        &&& now < self.scheduled_end_at
        &&& !self.punched
        &&& !self.on_leave
    }

    /// The shift as the one who may cover it sees it.
    pub open spec fn as_coverable(self) -> CoverableView {
        CoverableView {
            employee_id: self.employee_id,
            employee_name: self.employee_name@,
            branch_id: self.branch_id->0,
            work_shift_id: self.work_shift_id,
            shift_name: self.shift_name@,
            business_date: self.business_date,
            scheduled_start_at: self.scheduled_start_at,
            scheduled_end_at: self.scheduled_end_at,
        }
    }
}

/// The shifts of the list that can be covered, in its order.
pub open spec fn coverable_of(
    shifts: Seq<MissedShift>,
    mine: Seq<Id>,
    now: Moment,
) -> Seq<CoverableView>
    decreases shifts.len(),
{
    if shifts.len() == 0 {
        Seq::empty()
    } else {
        let before = coverable_of(shifts.drop_last(), mine, now);
        if shifts.last().coverable(mine, now) {
            before.push(shifts.last().as_coverable())
        } else {
            before
        }
    }
}

/// What each shift of a list says.
pub open spec fn coverable_views(list: Seq<CoverableShift>) -> Seq<CoverableView> {
    Seq::new(list.len(), |i: int| list[i]@)
}

/// Whether the list holds the id.
pub fn has_id(list: &Vec<Id>, id: Id) -> (r: bool)
    ensures
        r == list@.contains(id),
{
    let mut i: usize = 0;
    while i < list.len()
        invariant
            i <= list@.len(),
            forall|k: int| 0 <= k < i ==> list@[k] != id,
        decreases list@.len() - i,
    {
        if list[i] == id {
            return true;
        }
        i += 1;
    }
    false
}

/// Rostered shifts at my branches whose owner is past grace without a punch,
/// until the shift ends, as of `now` (a cover queued offline is judged at its
/// own time).
pub fn coverable_for(shifts: &Vec<MissedShift>, mine: &Vec<Id>, now: Moment) -> (r: Vec<
    CoverableShift,
>)
    requires
        forall|i: int| 0 <= i < shifts@.len() ==> (#[trigger] shifts@[i]).valid(),
    ensures
        coverable_views(r@) == coverable_of(shifts@, mine@, now),
{
    let mut out: Vec<CoverableShift> = Vec::new();
    assert(coverable_views(out@) =~= Seq::empty());
    let mut i: usize = 0;
    while i < shifts.len()
        invariant
            i <= shifts@.len(),
            forall|k: int| 0 <= k < shifts@.len() ==> (#[trigger] shifts@[k]).valid(),
            coverable_views(out@) == coverable_of(shifts@.take(i as int), mine@, now),
        decreases shifts@.len() - i,
    {
        let s: &MissedShift = &shifts[i];
        let ghost had = out@;
        proof {
            assert(shifts@.take(i + 1).drop_last() =~= shifts@.take(i as int));
            assert(shifts@[i as int].valid());
        }
        if let Some(branch_id) = s.branch_id {
            let grace: i128 = s.grace_minutes as i128 * NANOS_PER_MINUTE;
            if has_id(mine, branch_id) && now > s.scheduled_start_at + grace && now
                < s.scheduled_end_at && !s.punched && !s.on_leave {
                out.push(
                    CoverableShift {
                        employee_id: s.employee_id,
                        employee_name: s.employee_name.as_str().to_owned(),
                        branch_id,
                        work_shift_id: s.work_shift_id,
                        shift_name: s.shift_name.as_str().to_owned(),
                        business_date: s.business_date,
                        scheduled_start_at: s.scheduled_start_at,
                        scheduled_end_at: s.scheduled_end_at,
                    },
                );
                assert(coverable_views(out@) =~= coverable_views(had).push(s.as_coverable()));
            }
        }
        i += 1;
    }
    assert(shifts@.take(shifts@.len() as int) =~= shifts@);
    out
}

/// What is known when a shift is to be covered.
pub struct CoverFacts {
    /// The business has saved its rules.
    pub rules: Result<(), AppError>,
    /// The privacy notice was accepted on this phone.
    pub accepted: Result<(), AppError>,
    /// When the cover starts.
    pub stamped: Result<Stamped, AppError>,
    /// The shifts that can be covered then.
    pub coverable: Vec<CoverableShift>,
    /// The month of the shift asked for is still open.
    pub month_open: Result<(), AppError>,
    /// The phone is inside the branch's fence.
    pub fence: Result<(), AppError>,
    /// The caller is clocked in to a shift.
    pub clocked_in: bool,
    /// The fix looks made up.
    pub suspicious: bool,
}

/// Whose shift is asked for.
#[derive(Debug, Clone, Copy, PartialEq, Eq, Structural)]
pub struct OpenCover {
    /// Whose shift.
    pub employee_id: Id,
    pub work_shift_id: Id,
}

/// The shift is the one asked for.
pub open spec fn asked_for(s: CoverableShift, body: OpenCover) -> bool {
    s.employee_id == body.employee_id && s.work_shift_id == body.work_shift_id
}

/// Where the first shift asked for stands in the list, if it does.
pub open spec fn first_asked(list: Seq<CoverableShift>, body: OpenCover) -> Option<int>
    decreases list.len(),
{
    if list.len() == 0 {
        None
    } else {
        match first_asked(list.drop_last(), body) {
            Some(i) => Some(i),
            None => if asked_for(list.last(), body) {
                Some(list.len() - 1)
            } else {
                None
            },
        }
    }
}

/// What opening a cover does: a record for the shift, and its flags.
#[derive(Debug, Clone, Copy, PartialEq, Eq, Structural)]
pub struct CoverPlan {
    /// Where the shift stands among those that can be covered.
    pub shift: usize,
    /// When it starts.
    pub at: Moment,
    /// Flag "time unverified".
    pub time_unverified: bool,
    /// Flag "location suspicious".
    pub suspicious: bool,
}

/// What opening a cover is refused for, if anything.
pub open spec fn cover_refused(f: CoverFacts, body: OpenCover) -> Option<ErrorView> {
    either(
        refusal(f.rules),
        either(
            refusal(f.accepted),
            either(
                refusal(f.stamped),
                either(
                    given(
                        first_asked(f.coverable@, body) is None,
                        ErrorView::Refused {
                            code: "SHIFT_NOT_COVERABLE"@,
                            reason: "That shift can't be covered now."@,
                        },
                    ),
                    either(
                        refusal(f.month_open),
                        either(
                            refusal(f.fence),
                            given(
                                f.clocked_in,
                                ErrorView::Conflict("Clock out of your own shift first."@),
                            ),
                        ),
                    ),
                ),
            ),
        ),
    )
}

fn find_asked(list: &Vec<CoverableShift>, body: &OpenCover) -> (r: Option<usize>)
    ensures
        match r {
            Some(i) => first_asked(list@, *body) == Some(i as int) && i < list@.len(),
            None => first_asked(list@, *body) is None,
        },
{
    let mut at: Option<usize> = None;
    let mut i: usize = 0;
    while i < list.len()
        invariant
            i <= list@.len(),
            match at {
                Some(k) => first_asked(list@.take(i as int), *body) == Some(k as int) && k < i,
                None => first_asked(list@.take(i as int), *body) is None,
            },
        decreases list@.len() - i,
    {
        proof {
            assert(list@.take(i + 1).drop_last() =~= list@.take(i as int));
        }
        if at.is_none() && list[i].employee_id == body.employee_id && list[i].work_shift_id
            == body.work_shift_id {
            at = Some(i);
        }
        i += 1;
    }
    assert(list@.take(list@.len() as int) =~= list@);
    at
}

/// Open a colleague's missed shift as a cover: the same phone and fence checks
/// as a clock-in; flagged for the manager; paid only once confirmed.
pub fn open_cover(f: CoverFacts, body: &OpenCover) -> (r: Result<CoverPlan, AppError>)
    ensures
        match cover_refused(f, *body) {
            Some(e) => r is Err && r->Err_0@ == e,
            None => {
                &&& r is Ok
                &&& first_asked(f.coverable@, *body) == Some((r->Ok_0).shift as int)
                &&& (r->Ok_0).at == (f.stamped->Ok_0).at
                &&& (r->Ok_0).time_unverified == (f.stamped->Ok_0).unverified
                &&& (r->Ok_0).suspicious == f.suspicious
            },
        },
{
    f.rules?;
    f.accepted?;
    let stamped: Stamped = f.stamped?;
    let shift: usize = match find_asked(&f.coverable, body) {
        Some(i) => i,
        None => {
            return Err(refused("SHIFT_NOT_COVERABLE", "That shift can't be covered now."));
        },
    };
    f.month_open?;
    f.fence?;
    if f.clocked_in {
        return Err(conflict("Clock out of your own shift first."));
    }
    Ok(
        CoverPlan {
            shift,
            at: stamped.at,
            time_unverified: stamped.unverified,
            suspicious: f.suspicious,
        },
    )
}

/// An approval or a rejection.
#[derive(Debug, Clone, Copy, PartialEq, Eq, Structural)]
pub struct Decide {
    pub approve: bool,
}

/// A cover waiting for a decision: the accounts of the two people in it.
#[derive(Debug, Clone, Copy, PartialEq, Eq, Structural)]
pub struct PendingCover {
    pub coverer_user: Option<Id>,
    pub owner_user: Option<Id>,
}

/// What is known when a cover is to be decided.
pub struct CoverDecisionFacts {
    /// The cover, if one waits.
    pub cover: Option<PendingCover>,
    /// The caller may confirm covers at its branch.
    pub right: Result<(), AppError>,
    /// Who decides.
    pub by: Id,
    /// The month of the shift is still open.
    pub month_open: Result<(), AppError>,
}

/// What a cover becomes, and what the one who covered is told.
#[derive(Debug, Clone, Copy, PartialEq, Eq)]
pub struct CoverDecision {
    /// The record's and its flag's new status.
    pub status: &'static str,
    pub notice: &'static str,
}

/// The decider is one of the two people in the cover.
pub open spec fn takes_part(c: PendingCover, by: Id) -> bool {
    c.coverer_user == Some(by) || c.owner_user == Some(by)
}

/// What deciding a cover is refused for, if anything.
pub open spec fn cover_decision_refused(f: CoverDecisionFacts, approve: bool) -> Option<ErrorView> {
    match f.cover {
        None => Some(ErrorView::NotFound("No cover waiting here."@)),
        Some(c) => either(
            refusal(f.right),
            either(
                given(
                    takes_part(c, f.by),
                    coded_view(403, "OWN_COVER"@, "You can't confirm a cover you're part of."@),
                ),
                if approve {
                    refusal(f.month_open)
                } else {
                    None
                },
            ),
        ),
    }
}

/// Decide one pending cover: confirmed pays it, rejected pays nothing. The one
/// who decides is neither person in it. Confirming pays, so never into a closed
/// month; rejecting may still be recorded.
pub fn decide_cover_record(f: CoverDecisionFacts, body: &Decide) -> (r: Result<
    CoverDecision,
    AppError,
>)
    ensures
        match cover_decision_refused(f, body.approve) {
            Some(e) => r is Err && r->Err_0@ == e,
            None => {
                &&& r is Ok
                &&& (r->Ok_0).status@ == if body.approve {
                    "confirmed"@
                } else {
                    "rejected"@
                }
                &&& (r->Ok_0).notice@ == if body.approve {
                    "staff.n_cover_confirmed"@
                } else {
                    "staff.n_cover_rejected"@
                }
            },
        },
{
    let cover: PendingCover = match f.cover {
        Some(c) => c,
        None => {
            return Err(not_found("No cover waiting here."));
        },
    };
    f.right?;
    let covers: bool = match cover.coverer_user {
        Some(u) => u == f.by,
        None => false,
    };
    let owns: bool = match cover.owner_user {
        Some(u) => u == f.by,
        None => false,
    };
    if covers || owns {
        return Err(coded(403, "OWN_COVER", "You can't confirm a cover you're part of."));
    }
    if body.approve {
        f.month_open?;
        Ok(CoverDecision { status: "confirmed", notice: "staff.n_cover_confirmed" })
    } else {
        Ok(CoverDecision { status: "rejected", notice: "staff.n_cover_rejected" })
    }
}

/// One decision only: a second one, or a race, finds nothing pending.
pub fn decided_once(rows_affected: u64) -> (r: Result<(), AppError>)
    ensures
        match r {
            Ok(_) => rows_affected > 0,
            Err(e) => rows_affected == 0 && e@ == ErrorView::Conflict(
                "That cover was already decided."@,
            ),
        },
{
    if rows_affected == 0 {
        Err(conflict("That cover was already decided."))
    } else {
        Ok(())
    }
}

/// What is known when a shift's overtime is to be decided.
pub struct OvertimeFacts {
    /// The caller may approve overtime somewhere.
    pub gate: Result<(), AppError>,
    /// Overtime waits on the record.
    pub waiting: bool,
    /// It is the caller's own.
    pub own: bool,
    /// The caller may approve overtime at its branch.
    pub right: Result<(), AppError>,
    /// The month of the shift is still open.
    pub month_open: Result<(), AppError>,
    /// The shift can be priced.
    pub priced: bool,
    /// The price is within the caller's limit.
    pub limit: Result<(), AppError>,
}

/// What becomes of a shift's overtime, and what the employee is told.
#[derive(Debug, Clone, Copy, PartialEq, Eq)]
pub struct OvertimeDecision {
    pub status: &'static str,
    pub notice: &'static str,
}

/// What deciding overtime is refused for, if anything.
pub open spec fn overtime_refused(f: OvertimeFacts, approve: bool) -> Option<ErrorView> {
    either(
        refusal(f.gate),
        either(
            given(!f.waiting, ErrorView::NotFound("No overtime waiting here."@)),
            either(
                given(
                    f.own,
                    coded_view(403, "OWN_OVERTIME"@, "You can't approve your own overtime."@),
                ),
                either(
                    refusal(f.right),
                    if approve {
                        either(
                            refusal(f.month_open),
                            either(
                                given(
                                    !f.priced,
                                    ErrorView::NotFound("No overtime waiting here."@),
                                ),
                                refusal(f.limit),
                            ),
                        )
                    } else {
                        None
                    },
                ),
            ),
        ),
    )
}

/// Approve or reject a shift's overtime, within the approver's money limit.
/// Rejecting moves no money, so it can be done in a closed month too.
pub fn decide_overtime(f: OvertimeFacts, body: &Decide) -> (r: Result<OvertimeDecision, AppError>)
    ensures
        match overtime_refused(f, body.approve) {
            Some(e) => r is Err && r->Err_0@ == e,
            None => {
                &&& r is Ok
                &&& (r->Ok_0).status@ == if body.approve {
                    "approved"@
                } else {
                    "rejected"@
                }
                &&& (r->Ok_0).notice@ == if body.approve {
                    "staff.n_overtime_approved"@
                } else {
                    "staff.n_overtime_rejected"@
                }
            },
        },
{
    f.gate?;
    if !f.waiting {
        return Err(not_found("No overtime waiting here."));
    }
    if f.own {
        return Err(coded(403, "OWN_OVERTIME", "You can't approve your own overtime."));
    }
    f.right?;
    if body.approve {
        f.month_open?;
        if !f.priced {
            return Err(not_found("No overtime waiting here."));
        }
        f.limit?;
        Ok(OvertimeDecision { status: "approved", notice: "staff.n_overtime_approved" })
    } else {
        Ok(OvertimeDecision { status: "rejected", notice: "staff.n_overtime_rejected" })
    }
}

/// Nobody in a cover decides it.
pub proof fn law_a_cover_is_decided_by_a_third(f: CoverDecisionFacts, approve: bool)
    requires
        f.cover is Some,
        takes_part(f.cover->0, f.by),
    ensures
        cover_decision_refused(f, approve) is Some,
{
}

/// Confirming a cover or approving overtime never pays into a closed month.
pub proof fn law_nothing_is_paid_into_a_closed_month(c: CoverDecisionFacts, o: OvertimeFacts)
    ensures
        c.month_open is Err ==> cover_decision_refused(c, true) is Some,
        o.month_open is Err ==> overtime_refused(o, true) is Some,
{
}

/// A listed shift is that of a missed one.
pub open spec fn shift_of(v: CoverableView, s: MissedShift) -> bool {
    &&& v.employee_id == s.employee_id
    &&& v.employee_name == s.employee_name@
    &&& Some(v.branch_id) == s.branch_id
    &&& v.work_shift_id == s.work_shift_id
    &&& v.shift_name == s.shift_name@
    &&& v.business_date == s.business_date
    &&& v.scheduled_start_at == s.scheduled_start_at
    &&& v.scheduled_end_at == s.scheduled_end_at
}

/// Every shift to cover is one of the list whose owner is neither on leave nor
/// on a mission, has not punched and is past grace, that is still to end, at one
/// of the caller's branches.
pub proof fn law_only_a_missed_shift_is_covered(
    shifts: Seq<MissedShift>,
    mine: Seq<Id>,
    now: Moment,
    i: int,
)
    requires
        0 <= i < coverable_of(shifts, mine, now).len(),
    ensures
        exists|k: int|
            0 <= k < shifts.len() && shift_of(
                coverable_of(shifts, mine, now)[i],
                #[trigger] shifts[k],
            ) && !shifts[k].on_leave && !shifts[k].punched && shifts[k].scheduled_start_at
                + shifts[k].grace_minutes * 60_000_000_000 < now && now
                < shifts[k].scheduled_end_at && mine.contains(shifts[k].branch_id->0),
    decreases shifts.len(),
{
    let short = shifts.drop_last();
    let before = coverable_of(short, mine, now);
    if i < before.len() {
        law_only_a_missed_shift_is_covered(short, mine, now, i);
        let k = choose|k: int|
            0 <= k < short.len() && shift_of(before[i], #[trigger] short[k]) && !short[k].on_leave
                && !short[k].punched && short[k].scheduled_start_at + short[k].grace_minutes
                * 60_000_000_000 < now && now < short[k].scheduled_end_at && mine.contains(
                short[k].branch_id->0,
            );
        assert(shifts[k] == short[k]);
        assert(coverable_of(shifts, mine, now)[i] == before[i]);
    } else {
        assert(shift_of(coverable_of(shifts, mine, now)[i], shifts[shifts.len() - 1]));
    }
}

/// Every such shift can be covered: none is left out.
pub proof fn law_every_missed_shift_can_be_covered(
    shifts: Seq<MissedShift>,
    mine: Seq<Id>,
    now: Moment,
    k: int,
)
    requires
        0 <= k < shifts.len(),
        !shifts[k].on_leave,
        !shifts[k].punched,
        shifts[k].scheduled_start_at + shifts[k].grace_minutes * 60_000_000_000 < now,
        now < shifts[k].scheduled_end_at,
        shifts[k].branch_id is Some,
        mine.contains(shifts[k].branch_id->0),
    ensures
        exists|i: int|
            0 <= i < coverable_of(shifts, mine, now).len() && shift_of(
                #[trigger] coverable_of(shifts, mine, now)[i],
                shifts[k],
            ),
    decreases shifts.len(),
{
    let short = shifts.drop_last();
    let before = coverable_of(short, mine, now);
    let all = coverable_of(shifts, mine, now);
    if k < short.len() {
        assert(short[k] == shifts[k]);
        law_every_missed_shift_can_be_covered(short, mine, now, k);
        let i = choose|i: int| 0 <= i < before.len() && shift_of(#[trigger] before[i], short[k]);
        assert(all[i] == before[i]);
    } else {
        assert(all.len() == before.len() + 1);
        assert(shift_of(all[all.len() - 1], shifts[k]));
    }
}

/// Nobody on leave and nobody who punched has a shift to cover: the list is the
/// same without theirs.
pub proof fn law_leave_and_a_punch_leave_nothing_to_cover(
    shifts: Seq<MissedShift>,
    s: MissedShift,
    mine: Seq<Id>,
    now: Moment,
)
    requires
        s.on_leave || s.punched || s.branch_id is None || now <= s.scheduled_start_at
            + s.grace_minutes * 60_000_000_000 || s.scheduled_end_at <= now,
    ensures
        coverable_of(shifts.push(s), mine, now) == coverable_of(shifts, mine, now),
{
    assert(shifts.push(s).drop_last() =~= shifts);
}

/// The shift covered is the first on the list of the person and the block asked
/// for.
pub proof fn law_the_shift_asked_for_is_covered(list: Seq<CoverableShift>, body: OpenCover)
    ensures
        match first_asked(list, body) {
            Some(i) => 0 <= i < list.len() && list[i].employee_id == body.employee_id
                && list[i].work_shift_id == body.work_shift_id && forall|j: int|
                0 <= j < i ==> (#[trigger] list[j]).employee_id != body.employee_id
                    || list[j].work_shift_id != body.work_shift_id,
            None => forall|j: int|
                0 <= j < list.len() ==> (#[trigger] list[j]).employee_id != body.employee_id
                    || list[j].work_shift_id != body.work_shift_id,
        },
    decreases list.len(),
{
    if list.len() > 0 {
        let short = list.drop_last();
        law_the_shift_asked_for_is_covered(short, body);
        assert forall|j: int| 0 <= j < short.len() implies #[trigger] list[j] == short[j] by {}
    }
}

/// A cover is opened under the saved rules, by somebody who accepted the notice,
/// at a time that stands, for a shift that can be covered, in an open month,
/// inside the fence and not clocked in elsewhere; and for nothing less.
pub proof fn law_a_cover_passes_every_check(f: CoverFacts, body: OpenCover)
    ensures
        cover_refused(f, body) is None <==> {
            &&& f.rules is Ok
            &&& f.accepted is Ok
            &&& f.stamped is Ok
            &&& exists|i: int|
                0 <= i < f.coverable@.len() && (#[trigger] f.coverable@[i]).employee_id
                    == body.employee_id && f.coverable@[i].work_shift_id == body.work_shift_id
            &&& f.month_open is Ok
            &&& f.fence is Ok
            &&& !f.clocked_in
        },
{
    law_the_shift_asked_for_is_covered(f.coverable@, body);
    let at = first_asked(f.coverable@, body);
    if at is Some {
        assert(f.coverable@[at->0].employee_id == body.employee_id);
    }
}

/// A waiting cover is decided by who may confirm it and is neither person in it;
/// confirming also needs the month open, rejecting does not.
pub proof fn law_a_cover_is_confirmed_in_an_open_month(f: CoverDecisionFacts, approve: bool)
    ensures
        cover_decision_refused(f, approve) is None <==> {
            &&& f.cover is Some
            &&& f.right is Ok
            &&& f.cover->0.coverer_user != Some(f.by)
            &&& f.cover->0.owner_user != Some(f.by)
            &&& approve ==> f.month_open is Ok
        },
{
}

/// Waiting overtime is decided by somebody else who may; approving also needs
/// the month open and a price within the approver's limit, rejecting does not.
pub proof fn law_overtime_is_approved_within_the_limit(f: OvertimeFacts, approve: bool)
    ensures
        overtime_refused(f, approve) is None <==> {
            &&& f.gate is Ok
            &&& f.waiting
            &&& !f.own
            &&& f.right is Ok
            &&& approve ==> f.month_open is Ok && f.priced && f.limit is Ok
        },
{
}

/// What opening a cover is refused for first.
pub proof fn law_how_a_cover_is_refused(f: CoverFacts, body: OpenCover)
    ensures
        ({
            cover_refused(f, body) == if f.rules is Err {
                Some(f.rules->Err_0@)
            } else if f.accepted is Err {
                Some(f.accepted->Err_0@)
            } else if f.stamped is Err {
                Some(f.stamped->Err_0@)
            } else if first_asked(f.coverable@, body) is None {
                Some(
                    ErrorView::Refused { code: "SHIFT_NOT_COVERABLE"@,
                        reason: "That shift can't be covered now."@ },
                )
            } else if f.month_open is Err {
                Some(f.month_open->Err_0@)
            } else if f.fence is Err {
                Some(f.fence->Err_0@)
            } else if f.clocked_in {
                Some(ErrorView::Conflict("Clock out of your own shift first."@))
            } else {
                None
            }
        }),
{
}

/// What deciding a cover is refused for first.
pub proof fn law_how_a_covers_decision_is_refused(f: CoverDecisionFacts, approve: bool)
    ensures
        ({
            cover_decision_refused(f, approve) == if f.cover is None {
                Some(ErrorView::NotFound("No cover waiting here."@))
            } else if f.right is Err {
                Some(f.right->Err_0@)
            } else if !(f.cover->0.coverer_user != Some(f.by)
                && f.cover->0.owner_user != Some(f.by)) {
                Some(coded_view(403, "OWN_COVER"@, "You can't confirm a cover you're part of."@))
            } else if approve && f.month_open is Err {
                Some(f.month_open->Err_0@)
            } else {
                None
            }
        }),
{
}

/// What deciding overtime is refused for first.
pub proof fn law_how_overtime_is_refused(f: OvertimeFacts, approve: bool)
    ensures
        ({
            overtime_refused(f, approve) == if f.gate is Err {
                Some(f.gate->Err_0@)
            } else if !f.waiting {
                Some(ErrorView::NotFound("No overtime waiting here."@))
            } else if f.own {
                Some(coded_view(403, "OWN_OVERTIME"@, "You can't approve your own overtime."@))
            } else if f.right is Err {
                Some(f.right->Err_0@)
            } else if approve && f.month_open is Err {
                Some(f.month_open->Err_0@)
            } else if approve && !f.priced {
                Some(ErrorView::NotFound("No overtime waiting here."@))
            } else if approve && f.limit is Err {
                Some(f.limit->Err_0@)
            } else {
                None
            }
        }),
{
}

} // verus!
