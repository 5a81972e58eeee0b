//! Clocking in and out from the phone: the fence, the window and what a punch
//! leaves behind.

use vstd::prelude::*;

use crate::attendance::derive::{AttendanceStatus, Derived};
use crate::calendar::{valid_moment, Id, Moment, NANOS_PER_MINUTE};
use crate::dawam::clock::Stamped;
use crate::dawam::presence::covers::has_id;
use crate::errors::{
    bad_request, coded, coded_plain, coded_var, coded_var2, coded_vars, coded_view, either, given,
    not_found, plain_view, refusal, vars_view, AppError, ErrorView, Var, VarView,
};
use crate::text::{int_chars, int_text, join, join3, same_text};

verus! {

/// A branch's fence in metres where none is set.
pub const DEFAULT_RADIUS_M: i64 = 200;

/// A branch's fence in metres: 200 where it is unset, never below zero.
pub open spec fn radius_of(set: Option<i32>) -> int {
    match set {
        None => DEFAULT_RADIUS_M as int,
        Some(r) => if r > 0 {
            r as int
        } else {
            0
        },
    }
}

pub fn effective_radius(set: Option<i32>) -> (r: i64)
    ensures
        r == radius_of(set),
{
    match set {
        None => DEFAULT_RADIUS_M,
        Some(r) => if r > 0 {
            r as i64
        } else {
            0
        },
    }
}

/// How far a fix is from the branch.
pub struct Measured {
    /// Within the branch's fence.
    pub inside: bool,
    /// The distance in whole metres, as it is worded.
    pub worded: String,
    /// The distance in whole metres.
    pub metres: i64,
}

/// A fix against a branch: what there was to measure.
pub struct FenceFacts {
    /// The branch is there.
    pub branch_found: bool,
    /// The branch has coordinates.
    pub branch_located: bool,
    /// The phone sent coordinates.
    pub fix_sent: bool,
    /// They are coordinates of a place on Earth.
    pub in_range: bool,
    pub measured: Measured,
    pub geo_radius_meters: Option<i32>,
}

/// What a punch outside the fence is told.
pub open spec fn outside_fence(f: FenceFacts) -> ErrorView {
    let radius = radius_of(f.geo_radius_meters);
    ErrorView::CodedVars {
        status: 403,
        code: "OUTSIDE_FENCE"@,
        reason: "You are "@ + f.measured.worded@ + " m from the branch — you must be within "@
            + int_chars(radius) + " m to clock in"@,
        vars: seq![
            ("distance_m"@, VarView::Int(f.measured.metres as int)),
            ("radius_m"@, VarView::Int(radius)),
        ],
    }
}

/// What a punch is refused for at the fence, if anything.
pub open spec fn fence_refused(f: FenceFacts, require: bool) -> Option<ErrorView> {
    if !f.branch_found {
        Some(ErrorView::NotFound("Branch not found"@))
    } else if !f.branch_located {
        given(
            require,
            plain_view(
                400,
                "BRANCH_NO_LOCATION"@,
                "This branch has no coordinates set, so location cannot be verified. Set them on the branch."@,
            ),
        )
    } else if !f.fix_sent {
        given(
            require,
            plain_view(
                400,
                "LOCATION_REQUIRED"@,
                "Location is required to check in at this branch"@,
            ),
        )
    } else if !f.in_range {
        Some(ErrorView::BadRequest("Coordinates are out of range"@))
    } else {
        given(require && !f.measured.inside, outside_fence(f))
    }
}

/// Whether the distance from the branch centre is known, or an error when the
/// punch is outside the fence. `false` when there is nothing to measure against
/// and none is required.
pub fn check_geofence(f: &FenceFacts, require: bool) -> (r: Result<bool, AppError>)
    ensures
        match fence_refused(*f, require) {
            Some(e) => r is Err && r->Err_0@ == e,
            None => r == Ok::<bool, AppError>(f.branch_located && f.fix_sent),
        },
{
    if !f.branch_found {
        return Err(not_found("Branch not found"));
    }
    if !f.branch_located {
        if require {
            return Err(
                coded_plain(
                    400,
                    "BRANCH_NO_LOCATION",
                    "This branch has no coordinates set, so location cannot be verified. Set them on the branch.",
                ),
            );
        }
        return Ok(false);
    }
    if !f.fix_sent {
        if require {
            return Err(
                coded_plain(
                    400,
                    "LOCATION_REQUIRED",
                    "Location is required to check in at this branch",
                ),
            );
        }
        return Ok(false);
    }
    if !f.in_range {
        return Err(bad_request("Coordinates are out of range"));
    }
    if require && !f.measured.inside {
        let radius: i64 = effective_radius(f.geo_radius_meters);
        let mut reason: String = join3(
            "You are ",
            f.measured.worded.as_str(),
            " m from the branch — you must be within ",
        );
        reason.push_str(int_text(radius).as_str());
        reason.push_str(" m to clock in");
        return Err(
            coded_var2(
                403,
                "OUTSIDE_FENCE",
                reason.as_str(),
                ("distance_m", Var::Int(f.measured.metres)),
                ("radius_m", Var::Int(radius)),
            ),
        );
    }
    Ok(true)
}

/// What someone is told who may not clock in, from their employment if they
/// have one.
pub open spec fn not_active(row: Option<Seq<char>>) -> Option<ErrorView> {
    match row {
        Some(status) => given(
            status != "active"@,
            ErrorView::CodedVars {
                status: 403,
                code: "EMPLOYMENT_NOT_ACTIVE"@,
                reason: "Your employment is "@ + status + " — contact your manager"@,
                vars: seq![("status"@, VarView::Text(status))],
            },
        ),
        None => Some(
            plain_view(
                403,
                "NOT_AN_EMPLOYEE"@,
                "You're not an employee here — ask your manager to add you"@,
            ),
        ),
    }
}

/// An active employee's org. A suspended or terminated employee must not be
/// able to clock in.
pub fn require_active_employee(row: Option<(Id, String)>) -> (r: Result<Id, AppError>)
    ensures
        match not_active(
            match row {
                Some((_, status)) => Some(status@),
                None => None,
            },
        ) {
            Some(e) => r is Err && r->Err_0@ == e,
            None => r == Ok::<Id, AppError>((row->0).0),
        },
{
    match row {
        Some((org, status)) => {
            if same_text(status.as_str(), "active") {
                return Ok(org);
            }
            let reason: String = join3(
                "Your employment is ",
                status.as_str(),
                " — contact your manager",
            );
            Err(
                coded_var(
                    403,
                    "EMPLOYMENT_NOT_ACTIVE",
                    reason.as_str(),
                    "status",
                    Var::Text(status),
                ),
            )
        },
        None => Err(
            coded_plain(
                403,
                "NOT_AN_EMPLOYEE",
                "You're not an employee here — ask your manager to add you",
            ),
        ),
    }
}

/// What nobody may do before the business has saved its rules.
pub open spec fn rules_unset(saved: bool) -> Option<ErrorView> {
    given(
        !saved,
        coded_view(
            409,
            "RULES_NOT_SET"@,
            "Your business hasn't set its attendance rules yet — ask the owner to finish set-up."@,
        ),
    )
}

/// Nobody clocks in before the business has saved its rules: the lateness
/// ladder and the absence cost must exist before anything is priced.
pub fn require_rules(saved: bool) -> (r: Result<(), AppError>)
    ensures
        refusal(r) == rules_unset(saved),
{
    if saved {
        Ok(())
    } else {
        Err(
            coded(
                409,
                "RULES_NOT_SET",
                "Your business hasn't set its attendance rules yet — ask the owner to finish set-up.",
            ),
        )
    }
}

/// The shift a punch belongs to.
pub struct ShiftWindow {
    pub name: String,
    pub scheduled_start_at: Moment,
    pub scheduled_end_at: Moment,
    pub checkin_window_minutes: i32,
}

impl ShiftWindow {
    pub open spec fn valid(self) -> bool {
        valid_moment(self.scheduled_start_at) && valid_moment(self.scheduled_end_at)
    }

    /// When check-in for the shift opens.
    pub open spec fn opens_at(self) -> int {
        if self.checkin_window_minutes > 0 {
            self.scheduled_start_at - self.checkin_window_minutes * NANOS_PER_MINUTE
        } else {
            self.scheduled_start_at as int
        }
    }

    /// What a check-in at the instant is refused for, if anything.
    pub open spec fn window_refused(self, now: Moment) -> Option<ErrorView> {
        if now < self.opens_at() {
            Some(
                ErrorView::CodedVars {
                    status: 400,
                    code: "CHECKIN_TOO_EARLY"@,
                    reason: "Too early — check-in for "@ + self.name@ + " opens "@ + int_chars(
                        self.checkin_window_minutes as int,
                    ) + " minutes before it starts"@,
                    vars: seq![
                        ("shift"@, VarView::Text(self.name@)),
                        ("minutes"@, VarView::Int(self.checkin_window_minutes as int)),
                        ("opens_at"@, VarView::At(self.opens_at())),
                    ],
                },
            )
        } else if now >= self.scheduled_end_at {
            Some(
                ErrorView::CodedVars {
                    status: 400,
                    code: "SHIFT_ENDED"@,
                    reason: self.name@ + " has already ended"@,
                    vars: seq![("shift"@, VarView::Text(self.name@))],
                },
            )
        } else {
            None
        }
    }
}

/// What a check-in is refused for by the shift's window; an unrostered day has
/// none.
pub open spec fn window_refusal(shift: Option<ShiftWindow>, now: Moment) -> Option<ErrorView> {
    match shift {
        Some(s) => s.window_refused(now),
        None => None,
    }
}

/// A check-in before the shift's window opens, or after it ended, is refused,
/// for every way of punching: the app, a manager's, the till's. An unrostered
/// day has no window: the punch opens a record with nothing to be late for.
pub fn check_window(shift: &Option<ShiftWindow>, now: Moment) -> (r: Result<(), AppError>)
    requires
        shift matches Some(s) ==> s.valid(),
    ensures
        refusal(r) == window_refusal(*shift, now),
{
    let s: &ShiftWindow = match shift {
        Some(s) => s,
        None => {
            return Ok(());
        },
    };
    let window: i128 = if s.checkin_window_minutes > 0 {
        s.checkin_window_minutes as i128
    } else {
        0
    };
    let opens_at: Moment = s.scheduled_start_at - window * NANOS_PER_MINUTE;
    if now < opens_at {
        let mut reason: String = join3("Too early — check-in for ", s.name.as_str(), " opens ");
        reason.push_str(int_text(s.checkin_window_minutes as i64).as_str());
        reason.push_str(" minutes before it starts");
        let mut vars: Vec<(&'static str, Var)> = Vec::new();
        vars.push(("shift", Var::Text(s.name.as_str().to_owned())));
        vars.push(("minutes", Var::Int(s.checkin_window_minutes as i64)));
        vars.push(("opens_at", Var::At(opens_at)));
        assert(vars_view(vars@) =~= (s.window_refused(now)->0)->CodedVars_vars);
        return Err(coded_vars(400, "CHECKIN_TOO_EARLY", reason.as_str(), vars));
    }
    if now >= s.scheduled_end_at {
        let reason: String = join(s.name.as_str(), " has already ended");
        return Err(
            coded_var(
                400,
                "SHIFT_ENDED",
                reason.as_str(),
                "shift",
                Var::Text(s.name.as_str().to_owned()),
            ),
        );
    }
    Ok(())
}

/// What is known when someone clocks in.
pub struct CheckInFacts {
    /// The business has saved its rules.
    pub rules_saved: bool,
    /// The privacy notice was accepted on this phone.
    pub accepted: Result<(), AppError>,
    pub org_id: Id,
    /// The org of the branch.
    pub branch_org: Result<Id, AppError>,
    pub branch_id: Id,
    /// The branches the person works at.
    pub mine: Vec<Id>,
    /// The phone is inside the branch's fence.
    pub fence: Result<(), AppError>,
    /// When the punch was made.
    pub stamped: Result<Stamped, AppError>,
    /// The shift it belongs to.
    pub shift: Option<ShiftWindow>,
    /// The phone will not send its location during the shift.
    pub tracking_off: bool,
    /// The fix looks made up.
    pub suspicious: bool,
}

/// What a punch leaves behind.
#[derive(Debug, Clone, Copy, PartialEq, Eq)]
pub struct PunchPlan {
    pub at: Moment,
    /// `offline` or `mobile_gps`.
    pub method: &'static str,
    /// Flag "time unverified".
    pub time_unverified: bool,
    /// Flag "tracking off".
    pub tracking_off: bool,
    /// Flag "location suspicious".
    pub suspicious: bool,
}

/// How a phone's punch is marked.
pub open spec fn method_of(offline: bool) -> Seq<char> {
    if offline {
        "offline"@
    } else {
        "mobile_gps"@
    }
}

/// What clocking in is refused for, if anything.
pub open spec fn check_in_refused(f: CheckInFacts) -> Option<ErrorView> {
    either(
        rules_unset(f.rules_saved),
        either(
            refusal(f.accepted),
            either(
                refusal(f.branch_org),
                either(
                    given(
                        f.branch_org is Ok && f.branch_org->Ok_0 != f.org_id,
                        plain_view(
                            403,
                            "BRANCH_OTHER_ORG"@,
                            "That branch belongs to a different organization"@,
                        ),
                    ),
                    either(
                        given(
                            !f.mine@.contains(f.branch_id),
                            plain_view(
                                403,
                                "NOT_YOUR_BRANCH"@,
                                "You don't work at that branch — ask your manager to add you to it."@,
                            ),
                        ),
                        either(
                            refusal(f.fence),
                            match f.stamped {
                                Err(e) => Some(e@),
                                Ok(s) => window_refusal(f.shift, s.at),
                            },
                        ),
                    ),
                ),
            ),
        ),
    )
}

/// Clocking in: the rules saved, the notice accepted, at a branch of the
/// person's own business where they work, inside its fence and inside the
/// shift's window.
pub fn check_in(f: CheckInFacts) -> (r: Result<PunchPlan, AppError>)
    requires
        f.shift matches Some(s) ==> s.valid(),
    ensures
        match check_in_refused(f) {
            Some(e) => r is Err && r->Err_0@ == e,
            None => {
                let s = f.stamped->Ok_0;
                &&& r is Ok
                &&& (r->Ok_0).at == s.at
                &&& (r->Ok_0).method@ == method_of(s.offline)
                &&& (r->Ok_0).time_unverified == s.unverified
                &&& (r->Ok_0).tracking_off == f.tracking_off
                &&& (r->Ok_0).suspicious == f.suspicious
            },
        },
{
    require_rules(f.rules_saved)?;
    f.accepted?;
    let branch_org: Id = f.branch_org?;
    if branch_org != f.org_id {
        return Err(
            coded_plain(
                403,
                "BRANCH_OTHER_ORG",
                "That branch belongs to a different organization",
            ),
        );
    }
    if !has_id(&f.mine, f.branch_id) {
        return Err(
            coded_plain(
                403,
                "NOT_YOUR_BRANCH",
                "You don't work at that branch — ask your manager to add you to it.",
            ),
        );
    }
    f.fence?;
    let stamped: Stamped = f.stamped?;
    check_window(&f.shift, stamped.at)?;
    Ok(
        PunchPlan {
            at: stamped.at,
            method: if stamped.offline {
                "offline"
            } else {
                "mobile_gps"
            },
            time_unverified: stamped.unverified,
            tracking_off: f.tracking_off,
            suspicious: f.suspicious,
        },
    )
}

/// One check-in a shift: a second finds the record there.
pub fn checked_in_once(inserted: bool) -> (r: Result<(), AppError>)
    ensures
        refusal(r) == given(
            !inserted,
            plain_view(
                409,
                "ALREADY_CHECKED_IN"@,
                "You have already checked in for this shift"@,
            ),
        ),
{
    if inserted {
        Ok(())
    } else {
        Err(
            coded_plain(
                409,
                "ALREADY_CHECKED_IN",
                "You have already checked in for this shift",
            ),
        )
    }
}

/// A record a check-out may close: when it was opened, and the window it was
/// opened with.
#[derive(Debug, Clone, Copy, PartialEq, Eq, Structural)]
pub struct OpenRecord {
    pub id: Id,
    pub check_in_at: Option<Moment>,
    pub scheduled_start_at: Option<Moment>,
    pub scheduled_end_at: Option<Moment>,
}

/// The record a check-out closes: the open one; or, for a check-out queued
/// offline, the one closed automatically in the meantime, so that the real time
/// the phone recorded replaces the automatic one.
pub open spec fn closes(
    open: Option<OpenRecord>,
    auto_closed: Option<OpenRecord>,
    offline: bool,
) -> Option<OpenRecord> {
    if open is None && offline {
        auto_closed
    } else {
        open
    }
}

/// The record a check-out closes, 404 where there is none.
pub fn record_to_close(
    open: Option<OpenRecord>,
    auto_closed: Option<OpenRecord>,
    offline: bool,
) -> (r: Result<OpenRecord, AppError>)
    ensures
        match closes(open, auto_closed, offline) {
            Some(o) => r == Ok::<OpenRecord, AppError>(o),
            None => r is Err && r->Err_0@ == ErrorView::NotFound("You are not checked in"@),
        },
{
    let chosen: Option<OpenRecord> = if open.is_none() && offline {
        auto_closed
    } else {
        open
    };
    match chosen {
        Some(o) => Ok(o),
        None => Err(not_found("You are not checked in")),
    }
}

/// What is known when someone clocks out.
pub struct CheckOutFacts {
    /// The privacy notice was accepted on this phone.
    pub accepted: Result<(), AppError>,
    /// When the punch was made.
    pub stamped: Result<Stamped, AppError>,
    /// The record that is open.
    pub open: Option<OpenRecord>,
    /// The latest record closed automatically that the punch falls within.
    pub auto_closed: Option<OpenRecord>,
    /// The phone is inside the fence of the record's branch.
    pub fence: Result<(), AppError>,
    /// The fix looks made up.
    pub suspicious: bool,
}

/// What a check-out does.
#[derive(Debug, Clone, Copy, PartialEq, Eq)]
pub struct CheckOutPlan {
    /// The record it closes.
    pub record: OpenRecord,
    /// The time it closes it at.
    pub at: Moment,
    /// `offline` or `mobile_gps`.
    pub method: &'static str,
    /// Flag "time unverified".
    pub time_unverified: bool,
    /// Flag "location suspicious".
    pub suspicious: bool,
}

/// The time a check-out closes a record at: its own, never before the check-in
/// it follows.
pub open spec fn closing_time(at: Moment, check_in_at: Option<Moment>) -> Moment {
    match check_in_at {
        Some(i) if i > at => i,
        _ => at,
    }
}

/// What clocking out is refused for, if anything.
pub open spec fn check_out_refused(f: CheckOutFacts) -> Option<ErrorView> {
    either(
        refusal(f.accepted),
        match f.stamped {
            Err(e) => Some(e@),
            Ok(s) => either(
                given(
                    closes(f.open, f.auto_closed, s.offline) is None,
                    ErrorView::NotFound("You are not checked in"@),
                ),
                refusal(f.fence),
            ),
        },
    )
}

/// Clocking out: of the open record, inside its branch's fence, never before
/// the check-in.
pub fn check_out(f: CheckOutFacts) -> (r: Result<CheckOutPlan, AppError>)
    ensures
        match check_out_refused(f) {
            Some(e) => r is Err && r->Err_0@ == e,
            None => {
                let s = f.stamped->Ok_0;
                &&& r is Ok
                &&& Some((r->Ok_0).record) == closes(f.open, f.auto_closed, s.offline)
                &&& (r->Ok_0).at == closing_time(s.at, (r->Ok_0).record.check_in_at)
                &&& (r->Ok_0).method@ == method_of(s.offline)
                &&& (r->Ok_0).time_unverified == s.unverified
                &&& (r->Ok_0).suspicious == f.suspicious
            },
        },
{
    f.accepted?;
    let stamped: Stamped = f.stamped?;
    let record: OpenRecord = record_to_close(f.open, f.auto_closed, stamped.offline)?;
    f.fence?;
    let at: Moment = match record.check_in_at {
        Some(i) if i > stamped.at => i,
        _ => stamped.at,
    };
    Ok(
        CheckOutPlan {
            record,
            at,
            method: if stamped.offline {
                "offline"
            } else {
                "mobile_gps"
            },
            time_unverified: stamped.unverified,
            suspicious: f.suspicious,
        },
    )
}

/// The window a check-out is judged against: the one the record was opened
/// with where it has one, whatever the shift says today.
pub fn opened_window(
    shift_start: Moment,
    shift_end: Moment,
    record: &OpenRecord,
) -> (r: (Moment, Moment))
    ensures
        r.0 == match record.scheduled_start_at {
            Some(s) => s,
            None => shift_start,
        },
        r.1 == match record.scheduled_end_at {
            Some(e) => e,
            None => shift_end,
        },
{
    let start: Moment = match record.scheduled_start_at {
        Some(s) => s,
        None => shift_start,
    };
    let end: Moment = match record.scheduled_end_at {
        Some(e) => e,
        None => shift_end,
    };
    (start, end)
}

/// What a record's figures become once it is known whether it is a cover: a
/// cover is time worked for a colleague, never late or leaving early against
/// the colleague's shift, and a short one is no half day. A status set by hand
/// sticks.
pub open spec fn settled(cover: bool, overridden: bool, d: Derived) -> Derived {
    if cover {
        Derived {
            late_minutes: 0,
            early_leave_minutes: 0,
            overtime_minutes: d.overtime_minutes,
            worked_minutes: d.worked_minutes,
            status: if overridden {
                d.status
            } else {
                AttendanceStatus::Present
            },
        }
    } else {
        d
    }
}

pub fn settle_cover(cover: bool, overridden: bool, d: Derived) -> (r: Derived)
    ensures
        r == settled(cover, overridden, d),
{
    if cover {
        Derived {
            late_minutes: 0,
            early_leave_minutes: 0,
            overtime_minutes: d.overtime_minutes,
            worked_minutes: d.worked_minutes,
            status: if overridden {
                d.status
            } else {
                AttendanceStatus::Present
            },
        }
    } else {
        d
    }
}

/// A check-out never closes a record before it was opened.
pub proof fn law_a_record_ends_after_it_starts(at: Moment, check_in_at: Moment)
    ensures
        closing_time(at, Some(check_in_at)) >= check_in_at,
        at >= check_in_at ==> closing_time(at, Some(check_in_at)) == at,
{
}

/// Settling a cover twice does what settling it once does.
pub proof fn law_settling_twice_is_settling_once(cover: bool, overridden: bool, d: Derived)
    ensures
        settled(cover, overridden, settled(cover, overridden, d)) == settled(cover, overridden, d),
{
}

/// Whoever may clock in at an instant is inside the shift's window: no earlier
/// than it opens and before the shift ends.
pub proof fn law_a_check_in_is_inside_the_window(f: CheckInFacts)
    requires
        check_in_refused(f) is None,
        f.shift is Some,
    ensures
        f.stamped is Ok,
        f.shift->0.opens_at() <= (f.stamped->Ok_0).at < f.shift->0.scheduled_end_at,
{
}

/// The window opens the shift's own minutes before it starts, and at its start
/// where it has none; check-in is refused before that and from the shift's end
/// on, and at no other time.
pub proof fn law_the_window_is_from_its_opening_to_the_end(s: ShiftWindow, now: Moment)
    ensures
        s.window_refused(now) is None <==> {
            &&& s.checkin_window_minutes > 0 ==> s.scheduled_start_at - s.checkin_window_minutes
                * 60_000_000_000 <= now
            &&& s.checkin_window_minutes <= 0 ==> s.scheduled_start_at <= now
            &&& now < s.scheduled_end_at
        },
        window_refusal(None, now) is None,
        window_refusal(Some(s), now) == s.window_refused(now),
{
}

/// A fence reaches two hundred metres where none is set, as far as it is set
/// otherwise, and never less than nowhere.
pub proof fn law_a_fence_reaches_as_far_as_it_is_set(set: Option<i32>)
    ensures
        set is None ==> radius_of(set) == 200,
        set is Some && set->0 >= 0 ==> radius_of(set) == set->0,
        set is Some && set->0 < 0 ==> radius_of(set) == 0,
{
}

/// Where a fix is required it must be there, of a place on Earth, inside the
/// fence of a branch with a place; where it is not, only one that is no place is
/// refused.
pub proof fn law_a_required_fix_is_inside_the_fence(f: FenceFacts)
    ensures
        fence_refused(f, true) is None <==> f.branch_found && f.branch_located && f.fix_sent
            && f.in_range && f.measured.inside,
        fence_refused(f, false) is None <==> f.branch_found && (f.branch_located && f.fix_sent
            ==> f.in_range),
{
}

/// Only an active employee clocks in.
pub proof fn law_only_the_active_clock_in(row: Option<Seq<char>>)
    ensures
        not_active(row) is None <==> row == Some("active"@),
{
}

/// Somebody clocks in exactly where the rules are saved, the notice accepted,
/// the branch of their own business one they work at, the phone inside its
/// fence, the time known and inside the shift's window.
pub proof fn law_who_clocks_in(f: CheckInFacts)
    ensures
        check_in_refused(f) is None <==> {
            &&& f.rules_saved
            &&& f.accepted is Ok
            &&& f.branch_org is Ok
            &&& f.branch_org->Ok_0 == f.org_id
            &&& f.mine@.contains(f.branch_id)
            &&& f.fence is Ok
            &&& f.stamped is Ok
            &&& f.shift is Some ==> f.shift->0.window_refused((f.stamped->Ok_0).at) is None
        },
        !f.rules_saved ==> check_in_refused(f) == rules_unset(false),
        rules_unset(false) is Some && rules_unset(true) is None,
{
}

/// A check-out closes the open record, and one closed automatically only where
/// none is open and the punch waited offline.
pub proof fn law_a_check_out_closes_the_open_record(
    open: Option<OpenRecord>,
    auto_closed: Option<OpenRecord>,
    offline: bool,
)
    ensures
        open is Some ==> closes(open, auto_closed, offline) == open,
        open is None && offline ==> closes(open, auto_closed, offline) == auto_closed,
        open is None && !offline ==> closes(open, auto_closed, offline) is None,
{
}

/// Somebody clocks out exactly where the notice is accepted, the time known, a
/// record there to close and the phone inside its fence.
pub proof fn law_who_clocks_out(f: CheckOutFacts)
    ensures
        check_out_refused(f) is None <==> {
            &&& f.accepted is Ok
            &&& f.stamped is Ok
            &&& f.open is Some || ((f.stamped->Ok_0).offline && f.auto_closed is Some)
            &&& f.fence is Ok
        },
{
}

/// A cover is never late nor leaves early, keeps what was worked, and is present
/// unless its status was set by hand; the person's own shift is left as it is.
pub proof fn law_a_cover_is_time_worked(overridden: bool, d: Derived)
    ensures
        settled(false, overridden, d) == d,
        ({
            let r = settled(true, overridden, d);
            &&& r.late_minutes == 0
            &&& r.early_leave_minutes == 0
            &&& r.worked_minutes == d.worked_minutes
            &&& r.overtime_minutes == d.overtime_minutes
            &&& r.status == if overridden {
                d.status
            } else {
                AttendanceStatus::Present
            }
        }),
{
}

/// A punch that waited is marked offline, and no other.
pub proof fn law_a_punch_that_waited_is_marked(offline: bool)
    ensures
        method_of(offline) == "offline"@ <==> offline,
        method_of(offline) == "mobile_gps"@ <==> !offline,
{
    reveal_strlit("offline");
    reveal_strlit("mobile_gps");
    assert("offline"@.len() != "mobile_gps"@.len());
}

/// What clocking in is refused for first.
pub proof fn law_how_clocking_in_is_refused(f: CheckInFacts)
    ensures
        ({
            check_in_refused(f) == if !f.rules_saved {
                Some(
                    coded_view(409, "RULES_NOT_SET"@,
                        "Your business hasn't set its attendance rules yet — ask the owner to finish set-up."@),
                )
            } else if f.accepted is Err {
                Some(f.accepted->Err_0@)
            } else if f.branch_org is Err {
                Some(f.branch_org->Err_0@)
            } else if f.branch_org->Ok_0 != f.org_id {
                Some(
                    plain_view(403, "BRANCH_OTHER_ORG"@,
                        "That branch belongs to a different organization"@),
                )
            } else if !f.mine@.contains(f.branch_id) {
                Some(
                    plain_view(403, "NOT_YOUR_BRANCH"@,
                        "You don't work at that branch — ask your manager to add you to it."@),
                )
            } else if f.fence is Err {
                Some(f.fence->Err_0@)
            } else if f.stamped is Err {
                Some(f.stamped->Err_0@)
            } else if window_refusal(f.shift, (f.stamped->Ok_0).at) is Some {
                Some(window_refusal(f.shift, (f.stamped->Ok_0).at)->0)
            } else {
                None
            }
        }),
{
}

/// What clocking out is refused for first.
pub proof fn law_how_clocking_out_is_refused(f: CheckOutFacts)
    ensures
        ({
            check_out_refused(f) == if f.accepted is Err {
                Some(f.accepted->Err_0@)
            } else if f.stamped is Err {
                Some(f.stamped->Err_0@)
            } else if !(f.open is Some || ((f.stamped->Ok_0).offline && f.auto_closed is Some)) {
                Some(ErrorView::NotFound("You are not checked in"@))
            } else if f.fence is Err {
                Some(f.fence->Err_0@)
            } else {
                None
            }
        }),
{
}

/// What a fix is refused for first, where one is required.
pub proof fn law_how_a_fix_is_refused(f: FenceFacts)
    ensures
        ({
            fence_refused(f, true) == if !f.branch_found {
                Some(ErrorView::NotFound("Branch not found"@))
            } else if !f.branch_located {
                Some(
                    plain_view(400, "BRANCH_NO_LOCATION"@,
                        "This branch has no coordinates set, so location cannot be verified. Set them on the branch."@),
                )
            } else if !f.fix_sent {
                Some(
                    plain_view(400, "LOCATION_REQUIRED"@,
                        "Location is required to check in at this branch"@),
                )
            } else if !f.in_range {
                Some(ErrorView::BadRequest("Coordinates are out of range"@))
            } else if !f.measured.inside {
                Some(outside_fence(f))
            } else {
                None
            }
        }),
{
}

} // verus!
