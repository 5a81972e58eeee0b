//! The flags a manager looks at, and what handling one does.

use vstd::prelude::*;

use crate::calendar::{id_chars, id_text, max_of, Id};
use crate::decimal::{divided, half_away, power10, quotient, rounded, Dec, MAX_MANTISSA};
use crate::errors::{
    bad_request, coded, coded_view, either, given, outcome, refusal, AppError, ErrorView,
};
use crate::text::{join, maybe, same_text, trim, trimmed};

verus! {

/// What managers are told when a flag opens.
#[derive(Debug, Clone, PartialEq, Eq)]
pub struct FlagNotice {
    /// The message's key.
    pub key: String,
    /// Said once under this name, so a repeat never writes or pushes twice.
    pub once: String,
}

/// What opening a flag of this sort tells the managers. `row` is the flag as it
/// stands after the write and whether the write made it: a later ping that only
/// raises the minutes away tells nobody.
pub fn raise_flag(row: Option<(Id, bool)>, kind: &str) -> (r: Option<FlagNotice>)
    ensures
        r is Some <==> row is Some && (row->0).1,
        r matches Some(n) ==> {
            &&& n.key@ == "staff.n_flag_"@ + kind@
            &&& n.once@ == "flag:"@ + id_chars((row->0).0)
        },
{
    match row {
        Some((flag, opened)) => {
            if opened {
                Some(
                    FlagNotice {
                        key: join("staff.n_flag_", kind),
                        once: join("flag:", id_text(flag).as_str()),
                    },
                )
            } else {
                None
            }
        },
        None => None,
    }
}

/// What a check-out does to the record's overtime.
#[derive(Debug, Clone, Copy, PartialEq, Eq, Structural)]
pub enum OvertimeStatus {
    Approved,
    Pending,
}

impl OvertimeStatus {
    /// The name it is stored under.
    pub open spec fn name(self) -> Seq<char> {
        match self {
            OvertimeStatus::Approved => "approved"@,
            OvertimeStatus::Pending => "pending"@,
        }
    }

    pub fn as_str(&self) -> (r: &'static str)
        ensures
            r@ == self.name(),
    {
        match self {
            OvertimeStatus::Approved => "approved",
            OvertimeStatus::Pending => "pending",
        }
    }
}

/// After a check-out: overtime off, paid automatically, or pending. Only
/// overtime not yet decided, on the person's own shift, is touched; pending
/// overtime is what the managers are told of.
pub fn after_check_out(
    overtime_mode: &str,
    overtime_minutes: i32,
    cover: bool,
    decided: bool,
) -> (r: Option<OvertimeStatus>)
    ensures
        r == if overtime_minutes > 0 && !cover && !decided {
            if overtime_mode@ == "automatic"@ {
                Some(OvertimeStatus::Approved)
            } else if overtime_mode@ == "approval"@ {
                Some(OvertimeStatus::Pending)
            } else {
                None
            }
        } else {
            None
        },
{
    let automatic: bool = same_text(overtime_mode, "automatic");
    let approval: bool = same_text(overtime_mode, "approval");
    if overtime_minutes > 0 && !cover && !decided {
        if automatic {
            Some(OvertimeStatus::Approved)
        } else if approval {
            Some(OvertimeStatus::Pending)
        } else {
            None
        }
    } else {
        None
    }
}

/// A number of five-pound steps in piastres: 500 to the step, none where an
/// `i64` cannot hold them.
pub open spec fn steps_piastres(steps: Dec) -> int {
    let n = half_away(steps) * 500;
    if i64::MIN <= n <= i64::MAX {
        n
    } else {
        0
    }
}

/// A number of five-pound steps, to the nearest whole one, in piastres.
pub fn five_pound_steps(steps: Dec) -> (r: i64)
    requires
        steps.valid(),
    ensures
        r == steps_piastres(steps),
{
    let n: i128 = rounded(steps) * 500;
    if n >= i64::MIN as i128 && n <= i64::MAX as i128 {
        n as i64
    } else {
        0
    }
}

/// Nearest 500 piastres, halves away from zero.
pub fn nearest_five_pounds(piastres: Dec) -> (r: i64)
    requires
        piastres.valid(),
        -(MAX_MANTISSA - 500) * power10(piastres.scale as int) <= piastres.mantissa,
        piastres.mantissa <= (MAX_MANTISSA - 500) * power10(piastres.scale as int),
    ensures
        r == steps_piastres(quotient(piastres.mantissa as int, piastres.scale as int, 500)),
{
    five_pound_steps(divided(piastres, 500))
}

/// What time away is priced by: a salary, its working days a month and a day's
/// minutes.
#[derive(Debug, Clone, Copy)]
pub struct AwayBasis {
    pub salary_piastres: i64,
    pub working_days: Dec,
    pub day_minutes: i64,
}

/// The facts payroll prices a record's day by.
#[derive(Debug, Clone, Copy)]
pub struct PricedDay {
    /// The salary in force that day.
    pub salary_piastres: i64,
    /// The shift's branch's rule.
    pub working_days: Dec,
    /// The day's rostered minutes, and those of the shift itself.
    pub day_minutes: i64,
    pub scheduled_minutes: i64,
}

/// The minutes of a usual shift.
pub const USUAL_SHIFT_MINUTES: i64 = 480;

/// The minutes a day's work is priced by: those scheduled, a usual shift's where
/// none are, and never less than one.
pub fn priced_minutes(scheduled: Option<i32>) -> (r: i64)
    ensures
        r == match scheduled {
            Some(m) => max_of(m as int, 1),
            None => USUAL_SHIFT_MINUTES as int,
        },
        scheduled is None ==> r == 8 * 60,
        scheduled is Some && scheduled->0 >= 1 ==> r == scheduled->0,
        scheduled is Some && scheduled->0 < 1 ==> r == 1,
{
    match scheduled {
        Some(m) => if m > 1 {
            m as i64
        } else {
            1
        },
        None => USUAL_SHIFT_MINUTES,
    }
}

/// What a stretch away is priced by: with a record the same facts payroll
/// prices, else the salary as it stands and a usual shift.
pub fn away_basis(day: Option<PricedDay>, salary: Option<i64>, working_days: Dec) -> (r: AwayBasis)
    ensures
        r == match day {
            Some(d) => AwayBasis {
                salary_piastres: d.salary_piastres,
                working_days: d.working_days,
                day_minutes: if d.day_minutes >= d.scheduled_minutes {
                    d.day_minutes
                } else {
                    d.scheduled_minutes
                },
            },
            None => AwayBasis {
                salary_piastres: match salary {
                    Some(s) => s,
                    None => 0,
                },
                working_days,
                day_minutes: USUAL_SHIFT_MINUTES,
            },
        },
        day is None ==> r.day_minutes == 8 * 60,
        day is Some ==> r.day_minutes >= day->0.day_minutes && r.day_minutes
            >= day->0.scheduled_minutes,
{
    match day {
        Some(d) => AwayBasis {
            salary_piastres: d.salary_piastres,
            working_days: d.working_days,
            day_minutes: if d.day_minutes >= d.scheduled_minutes {
                d.day_minutes
            } else {
                d.scheduled_minutes
            },
        },
        None => AwayBasis {
            salary_piastres: match salary {
                Some(s) => s,
                None => 0,
            },
            working_days,
            day_minutes: USUAL_SHIFT_MINUTES,
        },
    }
}

/// A listed flag suggests a deduction when they left mid-shift, and then the
/// cost of the time away.
pub fn suggests_deduction(kind: &str) -> (r: bool)
    ensures
        r == (kind@ == "left_mid_shift"@),
{
    same_text(kind, "left_mid_shift")
}

/// A whole number of five-pound steps is its own nearest.
pub proof fn law_five_pound_steps_stay(n: int)
    requires
        i64::MIN <= n * 500 <= i64::MAX,
    ensures
        steps_piastres(Dec { mantissa: n as i128, scale: 0 }) == n * 500,
{
    let unit = power10(0);
    assert(unit == 1);
    if n >= 0 {
        assert((2 * n + unit) / (2 * unit) == n) by (nonlinear_arith)
            requires
                unit == 1,
        ;
    } else {
        assert((2 * (-n) + unit) / (2 * unit) == -n) by (nonlinear_arith)
            requires
                unit == 1,
        ;
    }
}

/// Rounding to a whole number moves a decimal by half a unit at most.
pub proof fn law_rounding_moves_half_a_unit_at_most(d: Dec)
    ensures
        2 * (d.mantissa - half_away(d) * power10(d.scale as int)) <= power10(d.scale as int),
        2 * (half_away(d) * power10(d.scale as int) - d.mantissa) <= power10(d.scale as int),
{
    let unit = power10(d.scale as int);
    lemma_power10_positive(d.scale as int);
    let m: int = if d.mantissa >= 0 {
        d.mantissa as int
    } else {
        -d.mantissa
    };
    let q = (2 * m + unit) / (2 * unit);
    vstd::arithmetic::div_mod::lemma_fundamental_div_mod(2 * m + unit, 2 * unit);
    vstd::arithmetic::div_mod::lemma_mod_bound(2 * m + unit, 2 * unit);
    assert(2 * unit * q == 2 * (q * unit)) by (nonlinear_arith);
    if d.mantissa < 0 {
        assert((-q) * unit == -(q * unit)) by (nonlinear_arith);
    }
}

proof fn lemma_power10_positive(n: int)
    ensures
        power10(n) > 0,
    decreases n,
{
    if n > 0 {
        lemma_power10_positive(n - 1);
    }
}

/// How a flag is handled.
pub struct ResolveFlag {
    /// `ignore` · `excuse_paid` · `excuse_unpaid` · `deduct` · `revoke` (a new
    /// phone) · `confirm`
    pub action: String,
    /// For `deduct`: the amount the manager typed.
    pub amount_piastres: Option<i64>,
    /// For `deduct`: why, on the pay line the employee sees.
    pub reason: Option<String>,
}

/// What the caller's right to an amount of money says.
#[derive(Debug, Clone, Copy, PartialEq, Eq, Structural)]
pub enum Grant {
    Allow,
    /// Above their limit: it waits for the owner.
    NeedsApproval,
}

/// A flag nobody has handled.
pub struct OpenFlag {
    /// `left_mid_shift` · `suspicious` · `tracking_off` · `time_unverified` ·
    /// `new_phone` · `cover`
    pub kind: String,
    /// It is about a shift's record.
    pub has_record: bool,
}

/// What is known when a flag is to be handled. Each right is the answer of
/// asking for it, and counts only where the act needs it.
pub struct FlagFacts {
    /// The caller may edit attendance somewhere.
    pub gate: Result<(), AppError>,
    /// The flag, if it is still open.
    pub flag: Option<OpenFlag>,
    /// The caller may edit attendance where the flag is.
    pub edit: Result<(), AppError>,
    /// The flag is about the caller.
    pub own: bool,
    /// The caller has the act's own right where the flag is.
    pub act: Result<(), AppError>,
    /// The exact minute pay of the time away, in piastres.
    pub exact_pay: Result<i64, AppError>,
    /// The month of the record is still open.
    pub month_open: Result<(), AppError>,
    /// What the caller's right to add deductions says of the amount.
    pub grant: Result<Grant, AppError>,
}

/// The right an act asks for on top of editing attendance.
#[derive(Debug, Clone, Copy, PartialEq, Eq, Structural)]
pub enum ActRight {
    ConfirmCovers,
    EditStaff,
}

/// The right an act asks for on top of editing attendance: confirming a cover
/// is the cover-confirm right, signing a phone out the staff-edit right.
pub open spec fn right_of(action: Seq<char>, kind: Seq<char>) -> Option<ActRight> {
    if action == "confirm"@ && kind == "cover"@ {
        Some(ActRight::ConfirmCovers)
    } else if action == "revoke"@ {
        Some(ActRight::EditStaff)
    } else {
        None
    }
}

pub fn act_right(action: &str, kind: &str) -> (r: Option<ActRight>)
    ensures
        r == right_of(action@, kind@),
{
    if same_text(action, "confirm") && same_text(kind, "cover") {
        Some(ActRight::ConfirmCovers)
    } else if same_text(action, "revoke") {
        Some(ActRight::EditStaff)
    } else {
        None
    }
}

/// What a flag is closed with.
#[derive(Debug, Clone, Copy, PartialEq, Eq, Structural)]
pub enum Resolution {
    Ignored,
    Confirmed,
    ExcusedPaid,
    ExcusedUnpaid,
    Deducted,
    Revoked,
}

impl Resolution {
    /// The name it is stored under.
    pub open spec fn name(self) -> Seq<char> {
        match self {
            Resolution::Ignored => "ignored"@,
            Resolution::Confirmed => "confirmed"@,
            Resolution::ExcusedPaid => "excused_paid"@,
            Resolution::ExcusedUnpaid => "excused_unpaid"@,
            Resolution::Deducted => "deducted"@,
            Resolution::Revoked => "revoked"@,
        }
    }

    pub fn as_str(&self) -> (r: &'static str)
        ensures
            r@ == self.name(),
    {
        match self {
            Resolution::Ignored => "ignored",
            Resolution::Confirmed => "confirmed",
            Resolution::ExcusedPaid => "excused_paid",
            Resolution::ExcusedUnpaid => "excused_unpaid",
            Resolution::Deducted => "deducted",
            Resolution::Revoked => "revoked",
        }
    }
}

/// What each action closes a flag of the kind with. Only a new phone can be
/// signed out.
pub open spec fn resolution_of(action: Seq<char>, kind: Seq<char>) -> Option<Resolution> {
    if action == "ignore"@ {
        Some(Resolution::Ignored)
    } else if action == "confirm"@ {
        Some(Resolution::Confirmed)
    } else if action == "excuse_paid"@ {
        Some(Resolution::ExcusedPaid)
    } else if action == "excuse_unpaid"@ {
        Some(Resolution::ExcusedUnpaid)
    } else if action == "deduct"@ {
        Some(Resolution::Deducted)
    } else if action == "revoke"@ && kind == "new_phone"@ {
        Some(Resolution::Revoked)
    } else {
        None
    }
}

pub fn resolution(action: &str, kind: &str) -> (r: Option<Resolution>)
    ensures
        r == resolution_of(action@, kind@),
{
    if same_text(action, "ignore") {
        Some(Resolution::Ignored)
    } else if same_text(action, "confirm") {
        Some(Resolution::Confirmed)
    } else if same_text(action, "excuse_paid") {
        Some(Resolution::ExcusedPaid)
    } else if same_text(action, "excuse_unpaid") {
        Some(Resolution::ExcusedUnpaid)
    } else if same_text(action, "deduct") {
        Some(Resolution::Deducted)
    } else if same_text(action, "revoke") && same_text(kind, "new_phone") {
        Some(Resolution::Revoked)
    } else {
        None
    }
}

/// The amount handling a flag takes, or what it is refused for: nothing, unless
/// the time is excused unpaid (its exact pay) or the manager typed one.
pub open spec fn amount_of(
    action: Seq<char>,
    kind: Seq<char>,
    typed: Option<i64>,
    exact_pay: Result<i64, AppError>,
) -> Result<i64, ErrorView> {
    match resolution_of(action, kind) {
        None => Err(ErrorView::BadRequest("Unknown action"@)),
        Some(Resolution::Deducted) => match typed {
            Some(a) if a > 0 => Ok(a),
            _ => Err(ErrorView::BadRequest("Type the amount to deduct."@)),
        },
        Some(Resolution::ExcusedUnpaid) => match exact_pay {
            Ok(a) => Ok(a),
            Err(e) => Err(e@),
        },
        Some(_) => Ok(0),
    }
}

/// The amount the caller's limit is asked about when a flag is handled: the one
/// handling it takes.
pub fn asked_amount(body: &ResolveFlag, kind: &str, exact_pay: Result<i64, AppError>) -> (r: Result<
    i64,
    AppError,
>)
    ensures
        outcome(r) == amount_of(body.action@, kind@, body.amount_piastres, exact_pay),
{
    match resolution(body.action.as_str(), kind) {
        None => Err(bad_request("Unknown action")),
        Some(Resolution::Deducted) => match body.amount_piastres {
            Some(a) if a > 0 => Ok(a),
            _ => Err(bad_request("Type the amount to deduct.")),
        },
        Some(Resolution::ExcusedUnpaid) => exact_pay,
        Some(_) => Ok(0),
    }
}

/// The words of a deduction: the manager's own, or else what happened.
pub open spec fn deduction_words(res: Resolution, reason: Option<Seq<char>>) -> Seq<char> {
    if res == Resolution::Deducted {
        match reason {
            Some(t) if trimmed(t).len() > 0 => trimmed(t),
            _ => "Left mid-shift"@,
        }
    } else {
        "Unpaid excuse"@
    }
}

/// The code of a deduction's words where they are the service's own; a
/// manager's typed reason has none.
pub open spec fn deduction_code(res: Resolution, words: Seq<char>) -> Option<Seq<char>> {
    if res == Resolution::ExcusedUnpaid {
        Some("unpaid_excuse"@)
    } else if res == Resolution::Deducted && words == "Left mid-shift"@ {
        Some("left_mid_shift"@)
    } else {
        None
    }
}

/// Where a deduction says it comes from.
pub open spec fn deduction_source(res: Resolution) -> Seq<char> {
    if res == Resolution::Deducted {
        "left_mid_shift"@
    } else {
        "excused_unpaid"@
    }
}

/// A pay line made of a flag.
#[derive(Debug, Clone, PartialEq, Eq)]
pub struct FlagDeduction {
    pub amount_piastres: i64,
    pub reason: String,
    pub reason_code: Option<&'static str>,
    pub source: &'static str,
    /// It counts at once; otherwise it waits for the owner, who is told.
    pub approved: bool,
}

/// What handling a flag does.
#[derive(Debug, Clone, PartialEq, Eq)]
pub struct FlagPlan {
    pub resolution: Resolution,
    /// Confirm the cover of its record as well.
    pub confirm_cover: bool,
    /// Sign the person's phones out.
    pub revoke_devices: bool,
    pub deduction: Option<FlagDeduction>,
}

/// What handling a flag is refused for, if anything.
pub open spec fn resolve_refused(f: FlagFacts, body: ResolveFlag) -> Option<ErrorView> {
    match f.flag {
        None => either(
            refusal(f.gate),
            Some(coded_view(404, "FLAG_HANDLED"@, "That flag is already handled."@)),
        ),
        Some(flag) => {
            let amount = amount_of(body.action@, flag.kind@, body.amount_piastres, f.exact_pay);
            either(
                refusal(f.gate),
                either(
                    refusal(f.edit),
                    either(
                        given(
                            f.own && body.action@ != "revoke"@,
                            coded_view(
                                403,
                                "OWN_DECISION"@,
                                "Someone else has to decide this one."@,
                            ),
                        ),
                        either(
                            if right_of(body.action@, flag.kind@) is Some {
                                refusal(f.act)
                            } else {
                                None
                            },
                            match amount {
                                Err(e) => Some(e),
                                Ok(a) => if a > 0 {
                                    either(refusal(f.month_open), refusal(f.grant))
                                } else {
                                    None
                                },
                            },
                        ),
                    ),
                ),
            )
        },
    }
}

/// Handle a flag. Nothing is ever charged automatically: only an unpaid excuse
/// and a typed amount deduct, nobody decides a flag about themselves (signing
/// one's own phone out favours nobody, so it stays), nothing is deducted in a
/// closed month, and above the manager's limit a deduction waits for the owner.
pub fn resolve_flag(f: FlagFacts, body: &ResolveFlag) -> (r: Result<FlagPlan, AppError>)
    ensures
        match resolve_refused(f, *body) {
            Some(e) => r is Err && r->Err_0@ == e,
            None => r is Ok,
        },
        r matches Ok(plan) ==> {
            let flag = f.flag->0;
            let amount = amount_of(body.action@, flag.kind@, body.amount_piastres, f.exact_pay)->Ok_0;
            let words = deduction_words(plan.resolution, maybe(body.reason));
            &&& Some(plan.resolution) == resolution_of(body.action@, flag.kind@)
            &&& plan.confirm_cover == (body.action@ == "confirm"@ && flag.kind@ == "cover"@
                && flag.has_record)
            &&& plan.revoke_devices == (plan.resolution == Resolution::Revoked)
            &&& plan.deduction is Some <==> amount > 0
            &&& plan.deduction matches Some(d) ==> {
                &&& d.amount_piastres == amount
                &&& d.reason@ == words
                &&& d.source@ == deduction_source(plan.resolution)
                &&& d.approved == (f.grant->Ok_0 == Grant::Allow)
                &&& match d.reason_code {
                    Some(c) => deduction_code(plan.resolution, words) == Some(c@),
                    None => deduction_code(plan.resolution, words) is None,
                }
            }
        },
{
    f.gate?;
    let flag: OpenFlag = match f.flag {
        Some(flag) => flag,
        None => {
            return Err(coded(404, "FLAG_HANDLED", "That flag is already handled."));
        },
    };
    f.edit?;
    let action: &str = body.action.as_str();
    let kind: &str = flag.kind.as_str();
    if f.own && !same_text(action, "revoke") {
        return Err(coded(403, "OWN_DECISION", "Someone else has to decide this one."));
    }
    if act_right(action, kind).is_some() {
        f.act?;
    }
    let confirm_cover: bool = same_text(action, "confirm") && same_text(kind, "cover")
        && flag.has_record;
    let res: Resolution = match resolution(action, kind) {
        Some(res) => res,
        None => {
            return Err(bad_request("Unknown action"));
        },
    };
    let amount: i64 = asked_amount(body, kind, f.exact_pay)?;
    let mut reason: String = "Unpaid excuse".to_owned();
    match res {
        Resolution::Deducted => {
            reason = "Left mid-shift".to_owned();
            if let Some(t) = &body.reason {
                let own: String = trim(t.as_str());
                if !own.as_str().is_empty() {
                    reason = own;
                }
            }
        },
        _ => {},
    }
    let mut deduction: Option<FlagDeduction> = None;
    if amount > 0 {
        f.month_open?;
        let approved: bool = match f.grant? {
            Grant::Allow => true,
            Grant::NeedsApproval => false,
        };
        let deducted: bool = match res {
            Resolution::Deducted => true,
            _ => false,
        };
        let reason_code: Option<&'static str> = if !deducted {
            Some("unpaid_excuse")
        } else if same_text(reason.as_str(), "Left mid-shift") {
            Some("left_mid_shift")
        } else {
            None
        };
        deduction =
        Some(
            FlagDeduction {
                amount_piastres: amount,
                reason,
                reason_code,
                source: if deducted {
                    "left_mid_shift"
                } else {
                    "excused_unpaid"
                },
                approved,
            },
        );
    }
    let revoke_devices: bool = match res {
        Resolution::Revoked => true,
        _ => false,
    };
    Ok(FlagPlan { resolution: res, confirm_cover, revoke_devices, deduction })
}

/// Nothing is deducted but by an unpaid excuse or a typed amount.
pub proof fn law_nothing_is_charged_unasked(
    action: Seq<char>,
    kind: Seq<char>,
    typed: Option<i64>,
    exact_pay: Result<i64, AppError>,
)
    requires
        action != "excuse_unpaid"@,
        action != "deduct"@,
        resolution_of(action, kind) is Some,
    ensures
        amount_of(action, kind, typed, exact_pay) == Ok::<i64, ErrorView>(0),
{
}

/// Nobody decides a flag about themselves: whatever else holds, the answer is a
/// refusal, and nobody deducts from themselves.
pub proof fn law_nobody_decides_their_own_flag(f: FlagFacts, body: ResolveFlag)
    requires
        f.own,
        body.action@ != "revoke"@,
    ensures
        resolve_refused(f, body) is Some,
{
}

/// A half is rounded away from zero.
pub proof fn law_a_half_goes_away_from_zero(d: Dec, n: int)
    requires
        n >= 0,
    ensures
        2 * d.mantissa == (2 * n + 1) * power10(d.scale as int) ==> half_away(d) == n + 1,
        -2 * d.mantissa == (2 * n + 1) * power10(d.scale as int) ==> half_away(d) == -(n + 1),
{
    let unit = power10(d.scale as int);
    lemma_power10_positive(d.scale as int);
    assert((2 * n + 1) * unit + unit == (n + 1) * (2 * unit)) by (nonlinear_arith);
    assert((2 * n + 1) * unit > 0) by (nonlinear_arith)
        requires
            n >= 0,
            unit > 0,
    ;
    vstd::arithmetic::div_mod::lemma_div_by_multiple(n + 1, 2 * unit);
}

/// What each action takes: an amount typed is what is deducted, the exact pay is
/// what an unpaid excuse costs, and everything else is free.
pub proof fn law_what_each_action_takes(
    kind: Seq<char>,
    typed: Option<i64>,
    exact_pay: Result<i64, AppError>,
)
    ensures
        amount_of("deduct"@, kind, typed, exact_pay) is Ok <==> typed is Some && typed->0 > 0,
        typed is Some && typed->0 > 0 ==> amount_of("deduct"@, kind, typed, exact_pay) == Ok::<
            i64,
            ErrorView,
        >(typed->0),
        exact_pay is Ok ==> amount_of("excuse_unpaid"@, kind, typed, exact_pay) == Ok::<
            i64,
            ErrorView,
        >(exact_pay->Ok_0),
        exact_pay is Err ==> amount_of("excuse_unpaid"@, kind, typed, exact_pay) == Err::<
            i64,
            ErrorView,
        >(exact_pay->Err_0@),
        amount_of("excuse_paid"@, kind, typed, exact_pay) == Ok::<i64, ErrorView>(0),
        amount_of("ignore"@, kind, typed, exact_pay) == Ok::<i64, ErrorView>(0),
        amount_of("confirm"@, kind, typed, exact_pay) == Ok::<i64, ErrorView>(0),
{
    lemma_actions_differ();
}

proof fn lemma_actions_differ()
    ensures
        "ignore"@ != "confirm"@,
        "ignore"@ != "excuse_paid"@,
        "ignore"@ != "excuse_unpaid"@,
        "ignore"@ != "deduct"@,
        "ignore"@ != "revoke"@,
        "confirm"@ != "excuse_paid"@,
        "confirm"@ != "excuse_unpaid"@,
        "confirm"@ != "deduct"@,
        "confirm"@ != "revoke"@,
        "excuse_paid"@ != "excuse_unpaid"@,
        "excuse_paid"@ != "deduct"@,
        "excuse_paid"@ != "revoke"@,
        "excuse_unpaid"@ != "deduct"@,
        "excuse_unpaid"@ != "revoke"@,
        "deduct"@ != "revoke"@,
{
    reveal_strlit("ignore");
    reveal_strlit("confirm");
    reveal_strlit("excuse_paid");
    reveal_strlit("excuse_unpaid");
    reveal_strlit("deduct");
    reveal_strlit("revoke");
    assert("ignore"@[0] == 'i' && "deduct"@[0] == 'd' && "revoke"@[0] == 'r');
    assert("ignore"@.len() == 6 && "confirm"@.len() == 7 && "excuse_paid"@.len() == 11
        && "excuse_unpaid"@.len() == 13 && "deduct"@.len() == 6 && "revoke"@.len() == 6);
}

/// Each action closes a flag with its own word, and only a new phone can be
/// signed out.
pub proof fn law_each_action_has_its_resolution(kind: Seq<char>)
    ensures
        resolution_of("ignore"@, kind) == Some(Resolution::Ignored),
        resolution_of("confirm"@, kind) == Some(Resolution::Confirmed),
        resolution_of("excuse_paid"@, kind) == Some(Resolution::ExcusedPaid),
        resolution_of("excuse_unpaid"@, kind) == Some(Resolution::ExcusedUnpaid),
        resolution_of("deduct"@, kind) == Some(Resolution::Deducted),
        resolution_of("revoke"@, kind) is Some <==> kind == "new_phone"@,
        resolution_of("revoke"@, "new_phone"@) == Some(Resolution::Revoked),
        right_of("revoke"@, kind) == Some(ActRight::EditStaff),
        right_of("confirm"@, kind) == if kind == "cover"@ {
            Some(ActRight::ConfirmCovers)
        } else {
            None
        },
        right_of("deduct"@, kind) is None,
        right_of("ignore"@, kind) is None,
{
    lemma_actions_differ();
}

/// An open flag is handled by who may edit attendance there, is not the person
/// it is about unless a phone is signed out, has the act's own right, and takes
/// money only in an open month and with an answer from their limit.
pub proof fn law_a_flag_is_handled_by_another(f: FlagFacts, body: ResolveFlag)
    ensures
        resolve_refused(f, body) is None <==> {
            &&& f.flag is Some
            &&& f.gate is Ok
            &&& f.edit is Ok
            &&& !f.own || body.action@ == "revoke"@
            &&& right_of(body.action@, f.flag->0.kind@) is Some ==> f.act is Ok
            &&& amount_of(
                body.action@,
                f.flag->0.kind@,
                body.amount_piastres,
                f.exact_pay,
            ) is Ok
            &&& amount_of(
                body.action@,
                f.flag->0.kind@,
                body.amount_piastres,
                f.exact_pay,
            )->Ok_0 > 0 ==> f.month_open is Ok && f.grant is Ok
        },
{
}

/// A deduction carries the manager's own words where they typed any, and then no
/// code; its source tells what it was for.
pub proof fn law_a_deduction_says_why(reason: Option<Seq<char>>)
    ensures
        reason is Some && trimmed(reason->0).len() > 0 ==> deduction_words(
            Resolution::Deducted,
            reason,
        ) == trimmed(reason->0),
        reason is None || trimmed(reason->0).len() == 0 ==> deduction_words(
            Resolution::Deducted,
            reason,
        ) == "Left mid-shift"@ && deduction_code(
            Resolution::Deducted,
            deduction_words(Resolution::Deducted, reason),
        ) == Some("left_mid_shift"@),
        deduction_words(Resolution::ExcusedUnpaid, reason) == "Unpaid excuse"@,
        deduction_code(Resolution::ExcusedUnpaid, "Unpaid excuse"@) == Some("unpaid_excuse"@),
        deduction_source(Resolution::Deducted) == "left_mid_shift"@,
        deduction_source(Resolution::ExcusedUnpaid) == "excused_unpaid"@,
{
}

/// What handling a flag is refused for first.
pub proof fn law_how_handling_a_flag_is_refused(f: FlagFacts, body: ResolveFlag)
    ensures
        ({
            let amount = amount_of(body.action@, f.flag->0.kind@, body.amount_piastres,
                f.exact_pay);
            resolve_refused(f, body) == if f.gate is Err {
                Some(f.gate->Err_0@)
            } else if f.flag is None {
                Some(coded_view(404, "FLAG_HANDLED"@, "That flag is already handled."@))
            } else if f.edit is Err {
                Some(f.edit->Err_0@)
            } else if f.own && body.action@ != "revoke"@ {
                Some(coded_view(403, "OWN_DECISION"@, "Someone else has to decide this one."@))
            } else if right_of(body.action@, f.flag->0.kind@) is Some && f.act is Err {
                Some(f.act->Err_0@)
            } else if amount is Err {
                Some(amount->Err_0)
            } else if amount->Ok_0 > 0 && f.month_open is Err {
                Some(f.month_open->Err_0@)
            } else if amount->Ok_0 > 0 && f.grant is Err {
                Some(f.grant->Err_0@)
            } else {
                None
            }
        }),
{
}

} // verus!
