//! Punching for someone, and on the till.

use vstd::prelude::*;

use crate::attendance::punches::{
    check_window, require_rules, rules_unset, window_refusal, ShiftWindow,
};
use crate::calendar::{Id, Moment};
use crate::dawam::clock::Stamped;
use crate::errors::{
    bad_request, coded, coded_var, coded_view, conflict, either, given, not_found, refusal,
    refused, unauthorized, AppError, ErrorView, Var, VarView,
};
use crate::text::{join, same_text, trim, trimmed};

verus! {

/// What is known when a manager punches for someone.
pub struct PunchForFacts {
    /// The caller may punch for others somewhere.
    pub gate: Result<(), AppError>,
    pub employment_status: String,
    /// The caller would punch for themselves.
    pub own: bool,
    /// The business has saved its rules.
    pub rules_saved: bool,
    /// The person works at a branch.
    pub has_branch: bool,
    /// The caller may punch for this person.
    pub right: Result<(), AppError>,
    /// When the punch was made.
    pub stamped: Result<Stamped, AppError>,
    /// The person's branch the caller runs.
    pub fallback: Result<Option<Id>, AppError>,
    /// The branch of the rostered shift the punch would open.
    pub shift_branch: Result<Option<Id>, AppError>,
    /// The caller may punch for others at that branch too.
    pub right_there: Result<(), AppError>,
}

/// A punch a manager makes.
#[derive(Debug, Clone, PartialEq, Eq)]
pub struct PunchFor {
    pub branch: Id,
    pub stamped: Stamped,
    pub reason: String,
}

/// The branch a manager's punch is at, or what it is refused for: the one the
/// caller runs; a rostered shift's own branch wins when the caller holds the
/// right there too.
pub open spec fn punch_branch(f: PunchForFacts) -> Result<Id, ErrorView> {
    match f.fallback {
        Err(e) => Err(e@),
        Ok(None) => Err(ErrorView::BadRequest("That person has no branch."@)),
        Ok(Some(fallback)) => match f.shift_branch {
            Err(e) => Err(e@),
            Ok(Some(b)) if b != fallback => match f.right_there {
                Ok(_) => Ok(b),
                Err(e) => Err(e@),
            },
            Ok(_) => Ok(fallback),
        },
    }
}

/// What punching for someone is refused for, if anything.
pub open spec fn punch_for_refused(f: PunchForFacts, reason: Seq<char>) -> Option<ErrorView> {
    either(
        refusal(f.gate),
        either(
            given(
                trimmed(reason).len() == 0,
                ErrorView::BadRequest("A reason is required."@),
            ),
            either(
                given(
                    f.employment_status@ != "active"@,
                    ErrorView::CodedVars {
                        status: 403,
                        code: "EMPLOYMENT_NOT_ACTIVE"@,
                        reason: "That person isn't an active employee."@,
                        vars: seq![("status"@, VarView::Text(f.employment_status@))],
                    },
                ),
                either(
                    given(
                        f.own,
                        coded_view(
                            403,
                            "OWN_PUNCH"@,
                            "Punch yourself in from your own phone."@,
                        ),
                    ),
                    either(
                        rules_unset(f.rules_saved),
                        either(
                            given(
                                !f.has_branch,
                                ErrorView::BadRequest("That person has no branch."@),
                            ),
                            either(
                                refusal(f.right),
                                either(
                                    refusal(f.stamped),
                                    match punch_branch(f) {
                                        Ok(_) => None,
                                        Err(e) => Some(e),
                                    },
                                ),
                            ),
                        ),
                    ),
                ),
            ),
        ),
    )
}

/// Clock someone in, or out if they are in, for a reason. Nobody punches for
/// themselves: their own phone or the till does that.
pub fn punch_for(f: PunchForFacts, reason: &str) -> (r: Result<PunchFor, AppError>)
    ensures
        match punch_for_refused(f, reason@) {
            Some(e) => r is Err && r->Err_0@ == e,
            None => {
                &&& r is Ok
                &&& punch_branch(f) == Ok::<Id, ErrorView>((r->Ok_0).branch)
                &&& (r->Ok_0).stamped == f.stamped->Ok_0
                &&& (r->Ok_0).reason@ == trimmed(reason@)
            },
        },
{
    f.gate?;
    let said: String = trim(reason);
    if said.as_str().is_empty() {
        return Err(bad_request("A reason is required."));
    }
    if !same_text(f.employment_status.as_str(), "active") {
        return Err(
            coded_var(
                403,
                "EMPLOYMENT_NOT_ACTIVE",
                "That person isn't an active employee.",
                "status",
                Var::Text(f.employment_status),
            ),
        );
    }
    if f.own {
        return Err(coded(403, "OWN_PUNCH", "Punch yourself in from your own phone."));
    }
    require_rules(f.rules_saved)?;
    if !f.has_branch {
        return Err(bad_request("That person has no branch."));
    }
    f.right?;
    let stamped: Stamped = f.stamped?;
    let fallback: Id = match f.fallback? {
        Some(b) => b,
        None => {
            return Err(bad_request("That person has no branch."));
        },
    };
    let branch: Id = match f.shift_branch? {
        Some(b) if b != fallback => {
            f.right_there?;
            b
        },
        _ => fallback,
    };
    Ok(PunchFor { branch, stamped, reason: said })
}

/// What is known when a punch is made for someone.
pub struct PunchFacts {
    /// They are clocked in: whether the month of that record is still open.
    pub open: Option<Result<(), AppError>>,
    /// The shift a check-in belongs to.
    pub shift: Option<ShiftWindow>,
    /// When it was made, and whether that is to be doubted.
    pub stamped: Stamped,
    /// The month of a check-in's day is still open.
    pub month_open: Result<(), AppError>,
    /// Nobody is covering the shift.
    pub uncovered: Result<(), AppError>,
}

/// Which way a punch goes.
#[derive(Debug, Clone, Copy, PartialEq, Eq, Structural)]
pub enum Punch {
    /// Clocks them in.
    In,
    /// Clocks them out of the open record.
    Out,
}

/// A punch that is made.
#[derive(Debug, Clone, Copy, PartialEq, Eq, Structural)]
pub struct Punched {
    pub way: Punch,
    pub at: Moment,
    /// Flag "time unverified".
    pub time_unverified: bool,
}

/// The punch that the facts come to: out of an open record, else in, with a flag
/// where its time is to be doubted.
pub open spec fn punch_made(f: PunchFacts) -> Punched {
    Punched {
        way: if f.open is Some {
            Punch::Out
        } else {
            Punch::In
        },
        at: f.stamped.at,
        time_unverified: f.stamped.unverified,
    }
}

/// What a punch is refused for, if anything.
pub open spec fn punch_refused(f: PunchFacts) -> Option<ErrorView> {
    match f.open {
        Some(month) => refusal(month),
        None => either(
            window_refusal(f.shift, f.stamped.at),
            either(refusal(f.month_open), refusal(f.uncovered)),
        ),
    }
}

/// Clocks someone in, or out if they are in. A check-in is refused before its
/// shift's window opens, and where a colleague is covering the shift; nothing
/// is written into a closed month.
pub fn punch(f: PunchFacts) -> (r: Result<Punched, AppError>)
    requires
        f.shift matches Some(s) ==> s.valid(),
    ensures
        match punch_refused(f) {
            Some(e) => r is Err && r->Err_0@ == e,
            None => r == Ok::<Punched, AppError>(punch_made(f)),
        },
{
    let stamped: Stamped = f.stamped;
    let way: Punch = match f.open {
        Some(month) => {
            month?;
            Punch::Out
        },
        None => {
            check_window(&f.shift, stamped.at)?;
            f.month_open?;
            f.uncovered?;
            Punch::In
        },
    };
    Ok(Punched { way, at: stamped.at, time_unverified: stamped.unverified })
}

/// One record a shift: a second check-in finds it there.
pub fn punched_once(inserted: bool) -> (r: Result<(), AppError>)
    ensures
        refusal(r) == given(
            !inserted,
            ErrorView::Conflict("They already worked that shift today."@),
        ),
{
    if inserted {
        Ok(())
    } else {
        Err(conflict("They already worked that shift today."))
    }
}

/// A punch that only a till may make.
pub open spec fn till_only_view(reason: Seq<char>) -> ErrorView {
    coded_view(403, "TILL_ONLY"@, reason)
}

fn till_only(reason: &str) -> (e: AppError)
    ensures
        e@ == till_only_view(reason@),
{
    coded(403, "TILL_ONLY", reason)
}

/// A till as it is registered.
#[derive(Debug, Clone, Copy, PartialEq, Eq, Structural)]
pub struct TillDevice {
    pub branch: Option<Id>,
    /// It has a credential to prove itself with.
    pub credential: bool,
    /// It proved itself.
    pub proven: bool,
}

/// What is known when a till is to punch.
pub struct TillFacts {
    /// The request comes from the staff app.
    pub staff_app: bool,
    /// The caller reads the branch.
    pub scope: Result<(), AppError>,
    pub branch_id: Id,
    /// The branch is one of the business.
    pub branch_found: bool,
    pub pos_on: bool,
    pub dawam_on: bool,
    /// The request names a device.
    pub device_named: bool,
    /// The registered till it names.
    pub device: Option<TillDevice>,
    /// A till session is open on that device at the branch.
    pub till_open: bool,
    /// The business has saved its rules.
    pub rules_saved: bool,
    /// No more wrong PINs than are let through.
    pub throttle: Result<(), AppError>,
}

/// A module that is off.
pub open spec fn module_off(module: Seq<char>) -> ErrorView {
    ErrorView::CodedVars {
        status: 403,
        code: "MODULE_OFF"@,
        reason: "Till punches need both POS and Dawam switched on."@,
        vars: seq![("module"@, VarView::Text(module))],
    }
}

/// What a device is refused for as the branch's till, if anything.
pub open spec fn device_refused(f: TillFacts) -> Option<ErrorView> {
    if !f.device_named {
        Some(till_only_view("Till punches are made on the branch till."@))
    } else {
        match f.device {
            None => Some(till_only_view("This device isn't a till of this business."@)),
            Some(d) => if d.branch != Some(f.branch_id) {
                Some(till_only_view("This till belongs to another branch."@))
            } else if d.credential && !d.proven {
                Some(till_only_view("This till could not prove it is the branch's till."@))
            } else {
                None
            },
        }
    }
}

/// What a till punch is refused for before its PIN is looked at, if anything.
pub open spec fn till_refused(f: TillFacts) -> Option<ErrorView> {
    either(
        given(f.staff_app, till_only_view("Till punches are made on the branch till."@)),
        either(
            refusal(f.scope),
            either(
                given(!f.branch_found, ErrorView::NotFound("Branch not found"@)),
                either(
                    given(!f.pos_on, module_off("pos"@)),
                    either(
                        given(!f.dawam_on, module_off("dawam"@)),
                        either(
                            device_refused(f),
                            either(
                                given(
                                    !f.till_open,
                                    coded_view(
                                        409,
                                        "NO_TILL_SESSION"@,
                                        "Open the till first, then punch with your PIN."@,
                                    ),
                                ),
                                either(rules_unset(f.rules_saved), refusal(f.throttle)),
                            ),
                        ),
                    ),
                ),
            ),
        ),
    )
}

fn module_is_off(module: &str) -> (e: AppError)
    ensures
        e@ == module_off(module@),
{
    coded_var(
        403,
        "MODULE_OFF",
        "Till punches need both POS and Dawam switched on.",
        "module",
        Var::Text(module.to_owned()),
    )
}

/// A punch is accepted only from a real till: never the staff app, on the
/// branch's registered device, proven by its credential when it has one, with a
/// till session open on it. The PIN is looked at only after all of this.
pub fn till_punch(f: TillFacts) -> (r: Result<(), AppError>)
    ensures
        refusal(r) == till_refused(f),
{
    if f.staff_app {
        return Err(till_only("Till punches are made on the branch till."));
    }
    f.scope?;
    if !f.branch_found {
        return Err(not_found("Branch not found"));
    }
    if !f.pos_on {
        return Err(module_is_off("pos"));
    }
    if !f.dawam_on {
        return Err(module_is_off("dawam"));
    }
    if !f.device_named {
        return Err(till_only("Till punches are made on the branch till."));
    }
    let device: TillDevice = match f.device {
        Some(d) => d,
        None => {
            return Err(till_only("This device isn't a till of this business."));
        },
    };
    let here: bool = match device.branch {
        Some(b) => b == f.branch_id,
        None => false,
    };
    if !here {
        return Err(till_only("This till belongs to another branch."));
    }
    if device.credential && !device.proven {
        return Err(till_only("This till could not prove it is the branch's till."));
    }
    if !f.till_open {
        return Err(
            coded(409, "NO_TILL_SESSION", "Open the till first, then punch with your PIN."),
        );
    }
    require_rules(f.rules_saved)?;
    f.throttle
}

/// Who a PIN belongs to.
#[derive(Debug, Clone, Copy, PartialEq, Eq, Structural)]
pub enum PinMatch {
    One,
    Many,
    /// Nobody: the failure is counted.
    Nobody,
}

/// What a PIN is refused for, if anything.
pub open spec fn pin_refused(found: PinMatch) -> Option<ErrorView> {
    match found {
        PinMatch::One => None,
        PinMatch::Many => Some(
            ErrorView::Refused {
                code: "PIN_NOT_UNIQUE"@,
                reason: "This PIN belongs to more than one person. Ask a manager for a new PIN."@,
            },
        ),
        PinMatch::Nobody => Some(ErrorView::Unauthorized("Wrong PIN"@)),
    }
}

/// What a till user who is no employee is told.
pub open spec fn no_employee(holder_name: Seq<char>) -> ErrorView {
    coded_view(
        403,
        "NOT_AN_EMPLOYEE"@,
        holder_name + " isn't set up as an employee in Dawam."@,
    )
}

/// A PIN that is one person's, or what it is refused for.
pub fn till_holder(found: PinMatch) -> (r: Result<(), AppError>)
    ensures
        refusal(r) == pin_refused(found),
{
    match found {
        PinMatch::One => Ok(()),
        PinMatch::Many => Err(
            refused(
                "PIN_NOT_UNIQUE",
                "This PIN belongs to more than one person. Ask a manager for a new PIN.",
            ),
        ),
        PinMatch::Nobody => Err(unauthorized("Wrong PIN")),
    }
}

/// The employee a till user is, if they are one.
pub fn till_employee(employee: Option<Id>, holder_name: &str) -> (r: Result<Id, AppError>)
    ensures
        match employee {
            Some(id) => r == Ok::<Id, AppError>(id),
            None => r is Err && r->Err_0@ == no_employee(holder_name@),
        },
{
    match employee {
        Some(id) => Ok(id),
        None => {
            let reason: String = join(holder_name, " isn't set up as an employee in Dawam.");
            Err(coded(403, "NOT_AN_EMPLOYEE", reason.as_str()))
        },
    }
}

/// What a till punch answers with, and what the branch's managers are told: a
/// punch without the phone's fence.
pub fn till_punched(p: Punch) -> (r: (&'static str, &'static str))
    ensures
        p == Punch::In ==> r.0@ == "in"@ && r.1@ == "staff.n_till_punch_in"@,
        p == Punch::Out ==> r.0@ == "out"@ && r.1@ == "staff.n_till_punch_out"@,
{
    match p {
        Punch::In => ("in", "staff.n_till_punch_in"),
        Punch::Out => ("out", "staff.n_till_punch_out"),
    }
}

/// A punch is flagged as made at a doubtful time exactly where its stamp is.
pub proof fn law_a_doubted_punch_is_flagged(f: PunchFacts)
    ensures
        punch_made(f).time_unverified == f.stamped.unverified,
        punch_made(f).at == f.stamped.at,
{
}

/// Nobody punches for themselves.
pub proof fn law_nobody_punches_for_themselves(f: PunchForFacts, reason: Seq<char>)
    requires
        f.own,
    ensures
        punch_for_refused(f, reason) is Some,
{
}

/// The staff app never punches as the till, and no device but the branch's own
/// does.
pub proof fn law_only_the_branchs_till_punches(f: TillFacts)
    requires
        till_refused(f) is None,
    ensures
        !f.staff_app,
        f.device is Some && f.device->0.branch == Some(f.branch_id),
        f.device->0.credential ==> f.device->0.proven,
        f.till_open,
{
}

/// A manager's punch is at the branch of the rostered shift where it has one,
/// which takes the right there too if it is another than the one they run, and
/// at that one otherwise.
pub proof fn law_a_managers_punch_is_at_the_shifts_branch(f: PunchForFacts)
    ensures
        punch_branch(f) is Ok <==> {
            &&& f.fallback is Ok && f.fallback->Ok_0 is Some
            &&& f.shift_branch is Ok
            &&& f.shift_branch->Ok_0 is Some && f.shift_branch->Ok_0 != f.fallback->Ok_0
                ==> f.right_there is Ok
        },
        punch_branch(f) is Ok && f.shift_branch->Ok_0 is Some ==> Some(punch_branch(f)->Ok_0)
            == f.shift_branch->Ok_0,
        punch_branch(f) is Ok && f.shift_branch->Ok_0 is None ==> Some(punch_branch(f)->Ok_0)
            == f.fallback->Ok_0,
{
}

/// A manager punches for somebody else who is active, with a reason, under saved
/// rules, where they may and the time is known.
pub proof fn law_who_punches_for_another(f: PunchForFacts, reason: Seq<char>)
    ensures
        punch_for_refused(f, reason) is None <==> {
            &&& f.gate is Ok
            &&& trimmed(reason).len() > 0
            &&& f.employment_status@ == "active"@
            &&& !f.own
            &&& f.rules_saved
            &&& f.has_branch
            &&& f.right is Ok
            &&& f.stamped is Ok
            &&& punch_branch(f) is Ok
        },
{
}

/// Somebody clocked in is clocked out, and anybody else in. Out takes an open
/// month; in takes one too, a time inside the shift's window and nobody who
/// covers the shift.
pub proof fn law_a_punch_is_in_or_out(f: PunchFacts)
    ensures
        punch_made(f).way == Punch::Out <==> f.open is Some,
        punch_made(f).way == Punch::In <==> f.open is None,
        f.open is Some ==> (punch_refused(f) is None <==> f.open->0 is Ok),
        f.open is None ==> (punch_refused(f) is None <==> f.month_open is Ok && f.uncovered is Ok
            && (f.shift is Some ==> f.shift->0.window_refused(f.stamped.at) is None)),
{
}

/// A till punches exactly where it is no staff app, its branch found and read,
/// both modules on, the device the branch's own and proven where it can be, a
/// session open on it, the rules saved and wrong PINs few.
pub proof fn law_which_till_punches(f: TillFacts)
    ensures
        till_refused(f) is None <==> {
            &&& !f.staff_app
            &&& f.scope is Ok
            &&& f.branch_found
            &&& f.pos_on
            &&& f.dawam_on
            &&& f.device_named
            &&& f.device is Some
            &&& f.device->0.branch == Some(f.branch_id)
            &&& f.device->0.credential ==> f.device->0.proven
            &&& f.till_open
            &&& f.rules_saved
            &&& f.throttle is Ok
        },
{
}

/// A PIN lets in whose it alone is.
pub proof fn law_a_pin_is_one_persons(found: PinMatch)
    ensures
        pin_refused(found) is None <==> found == PinMatch::One,
{
}

/// What punching for another is refused for first.
pub proof fn law_how_punching_for_another_is_refused(f: PunchForFacts, reason: Seq<char>)
    ensures
        ({
            punch_for_refused(f, reason) == if f.gate is Err {
                Some(f.gate->Err_0@)
            } else if trimmed(reason).len() == 0 {
                Some(ErrorView::BadRequest("A reason is required."@))
            } else if f.employment_status@ != "active"@ {
                Some(
                    ErrorView::CodedVars { status: 403, code: "EMPLOYMENT_NOT_ACTIVE"@,
                        reason: "That person isn't an active employee."@, vars: seq![("status"@,
                        VarView::Text(f.employment_status@))] },
                )
            } else if f.own {
                Some(coded_view(403, "OWN_PUNCH"@, "Punch yourself in from your own phone."@))
            } else if !f.rules_saved {
                Some(
                    coded_view(409, "RULES_NOT_SET"@,
                        "Your business hasn't set its attendance rules yet — ask the owner to finish set-up."@),
                )
            } else if !f.has_branch {
                Some(ErrorView::BadRequest("That person has no branch."@))
            } else if f.right is Err {
                Some(f.right->Err_0@)
            } else if f.stamped is Err {
                Some(f.stamped->Err_0@)
            } else if punch_branch(f) is Err {
                Some(punch_branch(f)->Err_0)
            } else {
                None
            }
        }),
{
}

/// What a till is refused for first: the PIN is looked at after all of it.
pub proof fn law_how_a_till_is_refused(f: TillFacts)
    ensures
        ({
            till_refused(f) == if f.staff_app {
                Some(till_only_view("Till punches are made on the branch till."@))
            } else if f.scope is Err {
                Some(f.scope->Err_0@)
            } else if !f.branch_found {
                Some(ErrorView::NotFound("Branch not found"@))
            } else if !f.pos_on {
                Some(module_off("pos"@))
            } else if !f.dawam_on {
                Some(module_off("dawam"@))
            } else if !f.device_named {
                Some(till_only_view("Till punches are made on the branch till."@))
            } else if f.device is None {
                Some(till_only_view("This device isn't a till of this business."@))
            } else if f.device->0.branch != Some(f.branch_id) {
                Some(till_only_view("This till belongs to another branch."@))
            } else if f.device->0.credential && !f.device->0.proven {
                Some(till_only_view("This till could not prove it is the branch's till."@))
            } else if !f.till_open {
                Some(
                    coded_view(409, "NO_TILL_SESSION"@,
                        "Open the till first, then punch with your PIN."@),
                )
            } else if !f.rules_saved {
                Some(
                    coded_view(409, "RULES_NOT_SET"@,
                        "Your business hasn't set its attendance rules yet — ask the owner to finish set-up."@),
                )
            } else if f.throttle is Err {
                Some(f.throttle->Err_0@)
            } else {
                None
            }
        }),
{
}

} // verus!
