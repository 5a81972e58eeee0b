//! Open shifts: posted, claimed, decided, taken back.

use vstd::prelude::*;

use crate::calendar::{valid_day, Day, Id, Moment};
use crate::dawam::roster::has_day;
use crate::days::{dow, name_of_weekday, weekday, weekday_name, BlockInfo};
use crate::errors::{
    coded, coded_view, conflict, either, given, not_found, refusal, refused, AppError, ErrorView,
};
use crate::text::{join, join3, same_text, text_is};

verus! {

/// Where an open shift stands.
#[derive(Debug, Clone, Copy, PartialEq, Eq, Structural)]
pub enum OpenStatus {
    Open,
    Claimed,
    Filled,
    Cancelled,
}

impl OpenStatus {
    /// The name it is stored under.
    pub open spec fn name(self) -> Seq<char> {
        match self {
            OpenStatus::Open => "open"@,
            OpenStatus::Claimed => "claimed"@,
            OpenStatus::Filled => "filled"@,
            OpenStatus::Cancelled => "cancelled"@,
        }
    }

    /// The name it is stored under.
    pub fn as_str(&self) -> (r: &'static str)
        ensures
            r@ == self.name(),
    {
        match self {
            OpenStatus::Open => "open",
            OpenStatus::Claimed => "claimed",
            OpenStatus::Filled => "filled",
            OpenStatus::Cancelled => "cancelled",
        }
    }

    /// The status stored under a name; any other is as good as cancelled.
    pub fn stored(name: &str) -> (r: OpenStatus)
        ensures
            r == if name@ == "open"@ {
                OpenStatus::Open
            } else if name@ == "claimed"@ {
                OpenStatus::Claimed
            } else if name@ == "filled"@ {
                OpenStatus::Filled
            } else {
                OpenStatus::Cancelled
            },
    {
        if same_text(name, "open") {
            OpenStatus::Open
        } else if same_text(name, "claimed") {
            OpenStatus::Claimed
        } else if same_text(name, "filled") {
            OpenStatus::Filled
        } else {
            OpenStatus::Cancelled
        }
    }
}

/// An open shift.
#[derive(Debug, Clone, Copy, PartialEq, Eq, Structural)]
pub struct OpenShift {
    pub status: OpenStatus,
    /// The employee who claimed it.
    pub claimed_by: Option<Id>,
}

impl OpenShift {
    /// A claimed or filled shift has who claimed it; an open one has nobody.
    pub open spec fn well_formed(self) -> bool {
        &&& self.status == OpenStatus::Open ==> self.claimed_by is None
        &&& self.status == OpenStatus::Claimed || self.status == OpenStatus::Filled
            ==> self.claimed_by is Some
    }
}

/// A shift that already started can be neither posted nor claimed.
pub open spec fn started_view() -> ErrorView {
    ErrorView::Refused { code: "SHIFT_STARTED"@, reason: "That shift has already started."@ }
}

fn shift_started() -> (e: AppError)
    ensures
        e@ == started_view(),
{
    refused("SHIFT_STARTED", "That shift has already started.")
}

/// An open shift still worth offering: not yet started.
pub fn not_started(start_at: Option<Moment>, now: Moment) -> (r: bool)
    ensures
        r == (start_at is None || start_at->0 > now),
{
    match start_at {
        Some(s) => s > now,
        None => true,
    }
}

/// What posting an open shift is refused for, if anything.
pub open spec fn post_refused(
    gate: Result<(), AppError>,
    right: Result<(), AppError>,
    info: Option<BlockInfo>,
    branch: Id,
    date: Day,
    started: bool,
) -> Option<ErrorView> {
    either(
        refusal(gate),
        either(
            refusal(right),
            match info {
                None => Some(ErrorView::NotFound("Work shift not found"@)),
                Some(b) => either(
                    given(
                        !b.is_active,
                        coded_view(400, "SHIFT_INACTIVE"@, b.name@ + " is switched off."@),
                    ),
                    either(
                        given(
                            b.branch_id is Some && b.branch_id->0 != branch,
                            coded_view(
                                400,
                                "SHIFT_OTHER_BRANCH"@,
                                b.name@ + " is another branch's shift."@,
                            ),
                        ),
                        either(
                            given(
                                !b.valid_days@.contains(weekday(date) as i16),
                                coded_view(
                                    400,
                                    "SHIFT_NOT_ON_DAY"@,
                                    b.name@ + " isn't a shift on "@ + weekday_name(weekday(date))
                                        + "."@,
                                ),
                            ),
                            given(started, started_view()),
                        ),
                    ),
                ),
            },
        ),
    )
}

/// Post an open shift: a live block of the branch (or the whole business), on a
/// day it runs, that has not started.
pub fn post_open_shift(
    gate: Result<(), AppError>,
    right: Result<(), AppError>,
    info: &Option<BlockInfo>,
    branch: Id,
    date: Day,
    started: bool,
) -> (r: Result<OpenShift, AppError>)
    requires
        valid_day(date),
    ensures
        match post_refused(gate, right, *info, branch, date, started) {
            Some(e) => r is Err && r->Err_0@ == e,
            None => r == Ok::<OpenShift, AppError>(
                OpenShift { status: OpenStatus::Open, claimed_by: None },
            ),
        },
{
    gate?;
    right?;
    let b: &BlockInfo = match info {
        Some(b) => b,
        None => {
            return Err(not_found("Work shift not found"));
        },
    };
    if !b.is_active {
        let reason: String = join(b.name.as_str(), " is switched off.");
        return Err(coded(400, "SHIFT_INACTIVE", reason.as_str()));
    }
    let elsewhere: bool = match b.branch_id {
        Some(at) => at != branch,
        None => false,
    };
    if elsewhere {
        let reason: String = join(b.name.as_str(), " is another branch's shift.");
        return Err(coded(400, "SHIFT_OTHER_BRANCH", reason.as_str()));
    }
    let d: i16 = dow(date);
    if !has_day(&b.valid_days, d) {
        let mut reason: String = join3(b.name.as_str(), " isn't a shift on ", name_of_weekday(d));
        reason.push_str(".");
        return Err(coded(400, "SHIFT_NOT_ON_DAY", reason.as_str()));
    }
    if started {
        return Err(shift_started());
    }
    Ok(OpenShift { status: OpenStatus::Open, claimed_by: None })
}

/// What is known when someone claims an open shift.
pub struct ClaimFacts {
    /// The person is an employee of the business.
    pub found: Result<(), AppError>,
    /// The shift, if it is at one of their branches.
    pub shift: Option<OpenShift>,
    pub started: bool,
    /// Its week is published at its branch.
    pub published: bool,
    /// The block may be rostered for them that day.
    pub block: Result<(), AppError>,
    /// They are on that shift already.
    pub rostered: bool,
    /// It fits beside their own shifts.
    pub fits: Result<(), AppError>,
}

/// Someone else claimed it.
pub open spec fn already_claimed() -> ErrorView {
    ErrorView::Refused { code: "ALREADY_CLAIMED"@, reason: "Someone already claimed that shift."@ }
}

/// What claiming an open shift is refused for, if anything.
pub open spec fn claim_refused(f: ClaimFacts) -> Option<ErrorView> {
    either(
        refusal(f.found),
        match f.shift {
            None => Some(ErrorView::NotFound("No open shift here."@)),
            Some(s) => either(
                given(s.status != OpenStatus::Open, already_claimed()),
                either(
                    given(f.started, started_view()),
                    either(
                        given(
                            !f.published,
                            ErrorView::Refused {
                                code: "WEEK_NOT_PUBLISHED"@,
                                reason: "That week isn't published yet."@,
                            },
                        ),
                        either(
                            refusal(f.block),
                            either(
                                given(
                                    f.rostered,
                                    ErrorView::Refused {
                                        code: "ALREADY_ROSTERED"@,
                                        reason: "You're already on that shift."@,
                                    },
                                ),
                                refusal(f.fits),
                            ),
                        ),
                    ),
                ),
            ),
        },
    )
}

fn is_open(s: &OpenShift) -> (r: bool)
    ensures
        r == (s.status == OpenStatus::Open),
{
    match s.status {
        OpenStatus::Open => true,
        _ => false,
    }
}

fn is_claimed(s: &OpenShift) -> (r: bool)
    ensures
        r == (s.status == OpenStatus::Claimed),
{
    match s.status {
        OpenStatus::Claimed => true,
        _ => false,
    }
}

/// Claim an open shift; the manager approves the claim. Only a published
/// week's, and only one that fits beside the person's own shifts.
pub fn claim_open_shift(f: ClaimFacts, who: Id) -> (r: Result<OpenShift, AppError>)
    ensures
        match claim_refused(f) {
            Some(e) => r is Err && r->Err_0@ == e,
            None => r == Ok::<OpenShift, AppError>(
                OpenShift { status: OpenStatus::Claimed, claimed_by: Some(who) },
            ),
        },
{
    f.found?;
    let shift: OpenShift = match f.shift {
        Some(s) => s,
        None => {
            return Err(not_found("No open shift here."));
        },
    };
    if !is_open(&shift) {
        return Err(refused("ALREADY_CLAIMED", "Someone already claimed that shift."));
    }
    if f.started {
        return Err(shift_started());
    }
    if !f.published {
        return Err(refused("WEEK_NOT_PUBLISHED", "That week isn't published yet."));
    }
    f.block?;
    if f.rostered {
        return Err(refused("ALREADY_ROSTERED", "You're already on that shift."));
    }
    f.fits?;
    Ok(OpenShift { status: OpenStatus::Claimed, claimed_by: Some(who) })
}

/// A claim is lost to a colleague's where the shift is not open any more.
pub fn claimed_once(updated: bool) -> (r: Result<(), AppError>)
    ensures
        refusal(r) == given(!updated, already_claimed()),
{
    if updated {
        Ok(())
    } else {
        Err(refused("ALREADY_CLAIMED", "Someone already claimed that shift."))
    }
}

/// The claim the person may take back: theirs, while it waits.
pub open spec fn waits_for(s: OpenShift, who: Id) -> bool {
    s.status == OpenStatus::Claimed && s.claimed_by == Some(who)
}

/// What taking back a claim is refused for, if anything. `last` is how their
/// last claim on the shift stands.
pub open spec fn withdraw_refused(
    found: Result<(), AppError>,
    shift: Option<OpenShift>,
    who: Id,
    last: Option<Seq<char>>,
) -> Option<ErrorView> {
    either(
        refusal(found),
        match shift {
            None => Some(ErrorView::NotFound("No open shift here."@)),
            Some(s) => if waits_for(s, who) {
                None
            } else if last == Some("approved"@) || last == Some("declined"@) {
                Some(
                    ErrorView::Refused {
                        code: "CLAIM_ALREADY_DECIDED"@,
                        reason: "Your claim was already decided. Ask your manager to change it."@,
                    },
                )
            } else {
                Some(
                    ErrorView::Refused {
                        code: "NO_PENDING_CLAIM"@,
                        reason: "You have no claim waiting on this shift."@,
                    },
                )
            },
        },
    )
}

/// Take back my claim while it waits: the shift is open again.
pub fn withdraw_claim(
    found: Result<(), AppError>,
    shift: Option<OpenShift>,
    who: Id,
    last: &Option<String>,
) -> (r: Result<OpenShift, AppError>)
    ensures
        match withdraw_refused(found, shift, who, crate::text::maybe(*last)) {
            Some(e) => r is Err && r->Err_0@ == e,
            None => r == Ok::<OpenShift, AppError>(
                OpenShift { status: OpenStatus::Open, claimed_by: None },
            ),
        },
{
    found?;
    let s: OpenShift = match shift {
        Some(s) => s,
        None => {
            return Err(not_found("No open shift here."));
        },
    };
    let mine: bool = match s.claimed_by {
        Some(c) => c == who,
        None => false,
    };
    if is_claimed(&s) && mine {
        return Ok(OpenShift { status: OpenStatus::Open, claimed_by: None });
    }
    if text_is(last, "approved") || text_is(last, "declined") {
        return Err(
            refused(
                "CLAIM_ALREADY_DECIDED",
                "Your claim was already decided. Ask your manager to change it.",
            ),
        );
    }
    Err(refused("NO_PENDING_CLAIM", "You have no claim waiting on this shift."))
}

/// An approval or a rejection.
#[derive(Debug, Clone, Copy, PartialEq, Eq, Structural)]
pub struct DecideRoster {
    pub approve: bool,
}

/// What is known when a claim is to be decided.
pub struct ClaimDecisionFacts {
    /// The caller may edit schedules somewhere.
    pub gate: Result<(), AppError>,
    pub shift: Option<OpenShift>,
    /// The caller may edit schedules at its branch.
    pub right: Result<(), AppError>,
    /// The claimer is an employee of the business.
    pub found: Result<(), AppError>,
    /// The claim is the caller's own.
    pub own: bool,
    /// The block may still be rostered for the claimer, and fits.
    pub fits: Result<(), AppError>,
}

/// What deciding a claim is refused for, if anything.
pub open spec fn claim_decision_refused(f: ClaimDecisionFacts, approve: bool) -> Option<ErrorView> {
    either(
        refusal(f.gate),
        if f.shift is None || f.shift->0.status != OpenStatus::Claimed || f.shift->0.claimed_by
            is None {
            Some(ErrorView::NotFound("No claim waiting here."@))
        } else {
            either(
                refusal(f.right),
                either(
                    refusal(f.found),
                    either(
                        given(
                            f.own,
                            coded_view(403, "OWN_CLAIM"@, "You can't approve your own claim."@),
                        ),
                        if approve {
                            refusal(f.fits)
                        } else {
                            None
                        },
                    ),
                ),
            )
        },
    )
}

/// What a decided claim does.
#[derive(Debug, Clone, Copy, PartialEq, Eq)]
pub struct ClaimDecision {
    pub shift: OpenShift,
    /// How the claim ends; it stays in the claimer's requests.
    pub claim: &'static str,
    /// Whose the shift becomes for the date, if anyone's.
    pub rostered: Option<Id>,
    /// What the claimer is told.
    pub notice: &'static str,
}

/// Approve a claim: the shift becomes theirs for that date, beside the rest of
/// their day. Rejecting reopens it.
pub fn decide_claim(f: ClaimDecisionFacts, body: &DecideRoster) -> (r: Result<
    ClaimDecision,
    AppError,
>)
    ensures
        match claim_decision_refused(f, body.approve) {
            Some(e) => r is Err && r->Err_0@ == e,
            None => {
                let d = r->Ok_0;
                &&& r is Ok
                &&& d.shift == if body.approve {
                    OpenShift { status: OpenStatus::Filled, claimed_by: f.shift->0.claimed_by }
                } else {
                    OpenShift { status: OpenStatus::Open, claimed_by: None }
                }
                &&& d.claim@ == if body.approve {
                    "approved"@
                } else {
                    "declined"@
                }
                &&& d.rostered == if body.approve {
                    f.shift->0.claimed_by
                } else {
                    None
                }
                &&& d.notice@ == if body.approve {
                    "staff.n_claim_approved"@
                } else {
                    "staff.n_claim_rejected"@
                }
            },
        },
{
    f.gate?;
    let shift: OpenShift = match f.shift {
        Some(s) => s,
        None => {
            return Err(not_found("No claim waiting here."));
        },
    };
    if !is_claimed(&shift) || shift.claimed_by.is_none() {
        return Err(not_found("No claim waiting here."));
    }
    f.right?;
    f.found?;
    if f.own {
        return Err(coded(403, "OWN_CLAIM", "You can't approve your own claim."));
    }
    if body.approve {
        f.fits?;
        Ok(
            ClaimDecision {
                shift: OpenShift { status: OpenStatus::Filled, claimed_by: shift.claimed_by },
                claim: "approved",
                rostered: shift.claimed_by,
                notice: "staff.n_claim_approved",
            },
        )
    } else {
        Ok(
            ClaimDecision {
                shift: OpenShift { status: OpenStatus::Open, claimed_by: None },
                claim: "declined",
                rostered: None,
                notice: "staff.n_claim_rejected",
            },
        )
    }
}

/// One decision only: a second one, or a race, finds no claim.
pub fn claim_decided_once(updated: bool) -> (r: Result<(), AppError>)
    ensures
        refusal(r) == given(!updated, ErrorView::Conflict("That claim was already decided."@)),
{
    if updated {
        Ok(())
    } else {
        Err(conflict("That claim was already decided."))
    }
}

/// What taking an open shift back is refused for, if anything.
pub open spec fn cancel_refused(
    gate: Result<(), AppError>,
    shift: Option<OpenShift>,
    right: Result<(), AppError>,
) -> Option<ErrorView> {
    either(
        refusal(gate),
        match shift {
            None => Some(ErrorView::NotFound("No open shift here."@)),
            Some(s) => either(
                refusal(right),
                given(
                    s.status != OpenStatus::Open && s.status != OpenStatus::Claimed,
                    ErrorView::Conflict("That shift was already filled or cancelled."@),
                ),
            ),
        },
    )
}

/// Take an open shift back (open or claimed, never filled). A claimer hears,
/// and their claim ends declined.
pub fn cancel_open_shift(
    gate: Result<(), AppError>,
    shift: Option<OpenShift>,
    right: Result<(), AppError>,
) -> (r: Result<OpenShift, AppError>)
    ensures
        match cancel_refused(gate, shift, right) {
            Some(e) => r is Err && r->Err_0@ == e,
            None => r == Ok::<OpenShift, AppError>(
                OpenShift { status: OpenStatus::Cancelled, claimed_by: shift->0.claimed_by },
            ),
        },
{
    gate?;
    let s: OpenShift = match shift {
        Some(s) => s,
        None => {
            return Err(not_found("No open shift here."));
        },
    };
    right?;
    if !is_open(&s) && !is_claimed(&s) {
        return Err(conflict("That shift was already filled or cancelled."));
    }
    Ok(OpenShift { status: OpenStatus::Cancelled, claimed_by: s.claimed_by })
}

/// A filled or cancelled shift is never claimed, taken back, decided or
/// cancelled again.
pub proof fn law_a_settled_shift_stays(
    s: OpenShift,
    c: ClaimFacts,
    d: ClaimDecisionFacts,
    gate: Result<(), AppError>,
    right: Result<(), AppError>,
    who: Id,
    last: Option<Seq<char>>,
    approve: bool,
)
    requires
        s.status == OpenStatus::Filled || s.status == OpenStatus::Cancelled,
        c.shift == Some(s),
        d.shift == Some(s),
    ensures
        claim_refused(c) is Some,
        claim_decision_refused(d, approve) is Some,
        withdraw_refused(gate, Some(s), who, last) is Some,
        cancel_refused(gate, Some(s), right) is Some,
{
}

/// Only the one who claimed a shift takes the claim back.
pub proof fn law_only_the_claimer_withdraws(
    found: Result<(), AppError>,
    s: OpenShift,
    who: Id,
    last: Option<Seq<char>>,
)
    requires
        withdraw_refused(found, Some(s), who, last) is None,
    ensures
        s.status == OpenStatus::Claimed,
        s.claimed_by == Some(who),
{
}

/// An open shift is posted by who may, of a live block of the branch or of the
/// whole business, on a weekday it runs, before it starts.
pub proof fn law_which_shift_may_be_posted(
    gate: Result<(), AppError>,
    right: Result<(), AppError>,
    info: Option<BlockInfo>,
    branch: Id,
    date: Day,
    started: bool,
)
    ensures
        post_refused(gate, right, info, branch, date, started) is None <==> {
            &&& gate is Ok
            &&& right is Ok
            &&& info is Some
            &&& info->0.is_active
            &&& info->0.branch_id is None || info->0.branch_id == Some(branch)
            &&& info->0.valid_days@.contains(weekday(date) as i16)
            &&& !started
        },
{
}

/// An open shift ahead, in a published week, is claimed by an employee whom its
/// block suits, who is not on it and whose other shifts it fits beside.
pub proof fn law_who_claims_a_shift(f: ClaimFacts)
    ensures
        claim_refused(f) is None <==> {
            &&& f.found is Ok
            &&& f.shift is Some
            &&& f.shift->0.status == OpenStatus::Open
            &&& !f.started
            &&& f.published
            &&& f.block is Ok
            &&& !f.rostered
            &&& f.fits is Ok
        },
{
}

/// A claim is taken back exactly by who made it, while it waits.
pub proof fn law_who_takes_a_claim_back(
    found: Result<(), AppError>,
    shift: Option<OpenShift>,
    who: Id,
    last: Option<Seq<char>>,
)
    ensures
        withdraw_refused(found, shift, who, last) is None <==> {
            &&& found is Ok
            &&& shift is Some
            &&& shift->0.status == OpenStatus::Claimed
            &&& shift->0.claimed_by == Some(who)
        },
{
}

/// A waiting claim is decided by another who may; approving it also takes that
/// it still fits.
pub proof fn law_who_decides_a_claim(f: ClaimDecisionFacts, approve: bool)
    ensures
        claim_decision_refused(f, approve) is None <==> {
            &&& f.gate is Ok
            &&& f.shift is Some
            &&& f.shift->0.status == OpenStatus::Claimed
            &&& f.shift->0.claimed_by is Some
            &&& f.right is Ok
            &&& f.found is Ok
            &&& !f.own
            &&& approve ==> f.fits is Ok
        },
{
}

/// An open or a claimed shift is taken off by who may.
pub proof fn law_which_shift_may_be_cancelled(
    gate: Result<(), AppError>,
    shift: Option<OpenShift>,
    right: Result<(), AppError>,
)
    ensures
        cancel_refused(gate, shift, right) is None <==> {
            &&& gate is Ok
            &&& shift is Some
            &&& right is Ok
            &&& shift->0.status == OpenStatus::Open || shift->0.status == OpenStatus::Claimed
        },
{
}

/// What claiming a shift is refused for first.
pub proof fn law_how_a_claim_is_refused(f: ClaimFacts)
    ensures
        ({
            claim_refused(f) == if f.found is Err {
                Some(f.found->Err_0@)
            } else if f.shift is None {
                Some(ErrorView::NotFound("No open shift here."@))
            } else if f.shift->0.status != OpenStatus::Open {
                Some(
                    ErrorView::Refused { code: "ALREADY_CLAIMED"@,
                        reason: "Someone already claimed that shift."@ },
                )
            } else if f.started {
                Some(
                    ErrorView::Refused { code: "SHIFT_STARTED"@,
                        reason: "That shift has already started."@ },
                )
            } else if !f.published {
                Some(
                    ErrorView::Refused { code: "WEEK_NOT_PUBLISHED"@,
                        reason: "That week isn't published yet."@ },
                )
            } else if f.block is Err {
                Some(f.block->Err_0@)
            } else if f.rostered {
                Some(
                    ErrorView::Refused { code: "ALREADY_ROSTERED"@,
                        reason: "You're already on that shift."@ },
                )
            } else if f.fits is Err {
                Some(f.fits->Err_0@)
            } else {
                None
            }
        }),
{
}

/// What deciding a claim is refused for first.
pub proof fn law_how_a_claims_decision_is_refused(f: ClaimDecisionFacts, approve: bool)
    ensures
        ({
            claim_decision_refused(f, approve) == if f.gate is Err {
                Some(f.gate->Err_0@)
            } else if !(f.shift is Some && f.shift->0.status == OpenStatus::Claimed
                && f.shift->0.claimed_by is Some) {
                Some(ErrorView::NotFound("No claim waiting here."@))
            } else if f.right is Err {
                Some(f.right->Err_0@)
            } else if f.found is Err {
                Some(f.found->Err_0@)
            } else if f.own {
                Some(coded_view(403, "OWN_CLAIM"@, "You can't approve your own claim."@))
            } else if approve && f.fits is Err {
                Some(f.fits->Err_0@)
            } else {
                None
            }
        }),
{
}

/// What taking a claim back is refused for first: a decided one says so.
pub proof fn law_how_taking_a_claim_back_is_refused(
    found: Result<(), AppError>,
    shift: Option<OpenShift>,
    who: Id,
    last: Option<Seq<char>>,
)
    ensures
        ({
            withdraw_refused(found, shift, who, last) == if found is Err {
                Some(found->Err_0@)
            } else if shift is None {
                Some(ErrorView::NotFound("No open shift here."@))
            } else if !(shift->0.status == OpenStatus::Claimed
                && shift->0.claimed_by == Some(who) || last != Some("approved"@)
                && last != Some("declined"@)) {
                Some(
                    ErrorView::Refused { code: "CLAIM_ALREADY_DECIDED"@,
                        reason: "Your claim was already decided. Ask your manager to change it."@ },
                )
            } else if !(shift->0.status == OpenStatus::Claimed
                && shift->0.claimed_by == Some(who)) {
                Some(
                    ErrorView::Refused { code: "NO_PENDING_CLAIM"@,
                        reason: "You have no claim waiting on this shift."@ },
                )
            } else {
                None
            }
        }),
{
}

/// What taking a shift off is refused for first.
pub proof fn law_how_taking_a_shift_off_is_refused(
    gate: Result<(), AppError>,
    shift: Option<OpenShift>,
    right: Result<(), AppError>,
)
    ensures
        ({
            cancel_refused(gate, shift, right) == if gate is Err {
                Some(gate->Err_0@)
            } else if shift is None {
                Some(ErrorView::NotFound("No open shift here."@))
            } else if right is Err {
                Some(right->Err_0@)
            } else if !(shift->0.status == OpenStatus::Open
                || shift->0.status == OpenStatus::Claimed) {
                Some(ErrorView::Conflict("That shift was already filled or cancelled."@))
            } else {
                None
            }
        }),
{
}

} // verus!
