//! Pay: the running period, marking payslips paid, bonuses and deductions under
//! a manager's limit, salary advances under the owner's cap and expense
//! advances (a log only).
//!
//! Every act dated inside an approved month is refused: fixes go into the next
//! open month as new lines.

pub mod advances;

use vstd::prelude::*;

use crate::calendar::{
    day_format, day_month, day_number, day_of, formatted, four_digits, law_a_day_is_one_date,
    lemma_month_later, month_before, next_month, valid_day, valid_ymd, ymd_of, Day, Id, MAX_DAY,
    MIN_DAY,
};
use crate::dawam::presence::flags::Grant;
use crate::decimal::{is_above, Dec};
use crate::errors::{
    bad_request, conflict, either, forbidden, given, not_found, outcome, refusal, AppError, ErrorView,
};
use crate::text::{blank_to_none, join3, maybe, same_text, trim, trimmed, unblank};

verus! {

/// The pay window of a date of the calendar: from the start day of one month to
/// the day before it in the next.
pub open spec fn window_of(y: int, m: int, d: int, start: int) -> (int, int) {
    let (fy, fm) = if d >= start {
        (y, m)
    } else {
        month_before(y, m)
    };
    let (ty, tm) = next_month(fy, fm);
    (day_number(fy, fm, start), day_number(ty, tm, start) - 1)
}

/// The pay window holding `day`: from `start_day` of one month to the day
/// before it in the next. `start_day` 1 is the calendar month.
pub fn period_window(day: Day, start_day: u32) -> (r: (Day, Day))
    requires
        1 <= start_day <= 28,
        MIN_DAY + 31 <= day <= MAX_DAY - 61,
    ensures
        forall|y: int, m: int, d: int|
            valid_ymd(y, m, d) && #[trigger] day_number(y, m, d) == day ==> (r.0 as int, r.1 as int)
                == window_of(y, m, d, start_day as int),
        r.0 <= day <= r.1,
        valid_day(r.0),
        valid_day(r.1),
{
    let (y, m, d) = ymd_of(day);
    let ghost s: int = start_day as int;
    let mut fy: i32 = y;
    let mut fm: u32 = m;
    proof {
        lemma_day_of_month(y as int, m as int, d as int);
        lemma_day_of_month(y as int, m as int, s);
        lemma_held_date(y as int, m as int, d as int);
        let (py, pm) = month_before(y as int, m as int);
        lemma_month_later(py, pm, s);
        lemma_month_later(y as int, m as int, s);
        let (ny, nm) = next_month(y as int, m as int);
        lemma_month_later(ny, nm, s);
    }
    if d < start_day {
        if m == 1 {
            fy = y - 1;
            fm = 12;
        } else {
            fm = m - 1;
        }
    }
    let mut ty: i32 = fy;
    let mut tm: u32 = fm + 1;
    if fm == 12 {
        ty = fy + 1;
        tm = 1;
    }
    proof {
        assert(window_of(y as int, m as int, d as int, s) == (
            day_number(fy as int, fm as int, s),
            day_number(ty as int, tm as int, s) - 1,
        ));
        lemma_month_later(fy as int, fm as int, s);
        assert(day_number(fy as int, fm as int, s) <= day);
        assert(day_number(ty as int, tm as int, s) > day);
        lemma_year_held(fy as int, fm as int, s);
        lemma_year_held(ty as int, tm as int, s);
    }
    let from: Day = match day_of(fy, fm, start_day) {
        Some(v) => v,
        None => day,
    };
    let next: Day = match day_of(ty, tm, start_day) {
        Some(v) => v,
        None => day,
    };
    proof {
        assert forall|y2: int, m2: int, d2: int|
            valid_ymd(y2, m2, d2) && #[trigger] day_number(y2, m2, d2) == day implies (
            from as int,
            next - 1,
        ) == window_of(y2, m2, d2, s) by {
            law_a_day_is_one_date(y as int, m as int, d as int, y2, m2, d2);
        }
    }
    (from, next - 1)
}

/// A date of a month falls as many days after another as their days are apart.
proof fn lemma_day_of_month(y: int, m: int, d: int)
    ensures
        forall|e: int| #[trigger] day_number(y, m, e) == day_number(y, m, d) + e - d,
{
    reveal(day_number);
}

/// The year of a date the calendar holds is one it holds.
proof fn lemma_year_held(y: int, m: int, d: int)
    requires
        valid_ymd(y, m, d),
        MIN_DAY <= day_number(y, m, d) <= MAX_DAY,
    ensures
        crate::calendar::valid_year(y),
{
    crate::calendar::law_a_date_has_one_year(y, m, d, y);
    if !crate::calendar::valid_year(y) {
        crate::calendar::lemma_held_years(y);
        assert(crate::calendar::in_year(day_number(y, m, d) as Day as int, y));
    }
}

proof fn lemma_held_date(y: int, m: int, d: int)
    requires
        valid_ymd(y, m, d),
        MIN_DAY + 31 <= day_number(y, m, d) <= MAX_DAY - 61,
    ensures
        crate::calendar::valid_year(y),
{
    lemma_year_held(y, m, d);
}

/// A window holds its day, and the day after it starts the next one.
pub proof fn law_windows_follow_each_other(y: int, m: int, d: int, start: int)
    requires
        valid_ymd(y, m, d),
        1 <= start <= 28,
    ensures
        window_of(y, m, d, start).0 <= day_number(y, m, d) <= window_of(y, m, d, start).1,
        ({
            let (fy, fm) = if d >= start {
                (y, m)
            } else {
                month_before(y, m)
            };
            let (ny, nm) = next_month(fy, fm);
            window_of(ny, nm, start, start).0 == window_of(y, m, d, start).1 + 1
        }),
{
    lemma_day_of_month(y, m, start);
    lemma_month_later(y, m, start);
    let (py, pm) = month_before(y, m);
    lemma_month_later(py, pm, start);
}

/// A later month's date comes later.
proof fn lemma_months_ascend(y: int, m: int, y2: int, m2: int, d: int)
    requires
        1 <= m <= 12,
        1 <= m2 <= 12,
        12 * y + m <= 12 * y2 + m2,
    ensures
        day_number(y, m, d) <= day_number(y2, m2, d),
    decreases 12 * y2 + m2 - 12 * y - m,
{
    if 12 * y + m < 12 * y2 + m2 {
        let (ny, nm) = next_month(y, m);
        lemma_month_later(y, m, d);
        lemma_months_ascend(ny, nm, y2, m2, d);
    }
}

/// Every day of a window has that window and no other.
pub proof fn law_a_day_is_in_one_window(
    y: int,
    m: int,
    d: int,
    y2: int,
    m2: int,
    d2: int,
    start: int,
)
    requires
        valid_ymd(y, m, d),
        valid_ymd(y2, m2, d2),
        1 <= start <= 28,
        window_of(y, m, d, start).0 <= day_number(y2, m2, d2) <= window_of(y, m, d, start).1,
    ensures
        window_of(y2, m2, d2, start) == window_of(y, m, d, start),
{
    let (fy, fm) = if d >= start {
        (y, m)
    } else {
        month_before(y, m)
    };
    let (gy, gm) = if d2 >= start {
        (y2, m2)
    } else {
        month_before(y2, m2)
    };
    law_windows_follow_each_other(y2, m2, d2, start);
    if 12 * gy + gm < 12 * fy + fm {
        let (ny, nm) = next_month(gy, gm);
        lemma_months_ascend(ny, nm, fy, fm, start);
    } else if 12 * fy + fm < 12 * gy + gm {
        let (ny, nm) = next_month(fy, fm);
        lemma_months_ascend(ny, nm, gy, gm, start);
    }
}

/// The running pay window: a start day under 1 counts as 1.
pub fn running_window(today: Day, period_start_day: i16) -> (r: (Day, Day))
    requires
        period_start_day <= 28,
        MIN_DAY + 31 <= today <= MAX_DAY - 61,
    ensures
        forall|y: int, m: int, d: int|
            valid_ymd(y, m, d) && #[trigger] day_number(y, m, d) == today ==> (
                r.0 as int,
                r.1 as int,
            ) == window_of(
                y,
                m,
                d,
                if period_start_day >= 1 {
                    period_start_day as int
                } else {
                    1
                },
            ),
        r.0 <= today <= r.1,
{
    period_window(
        today,
        if period_start_day >= 1 {
            period_start_day as u32
        } else {
            1
        },
    )
}

/// The pay period in force: the one there is, else the one just opened, else
/// the one somebody else opened meanwhile.
pub fn period_in_force(there: Option<Id>, opened: Option<Id>, theirs: Option<Id>) -> (r: Result<
    Id,
    AppError,
>)
    ensures
        outcome(r) == match (there, opened, theirs) {
            (Some(p), _, _) => Ok(p),
            (None, Some(p), _) => Ok(p),
            (None, None, Some(p)) => Ok(p),
            (None, None, None) => Err(ErrorView::Conflict("The period could not be opened"@)),
        },
{
    match (there, opened, theirs) {
        (Some(p), _, _) => Ok(p),
        (None, Some(p), _) => Ok(p),
        (None, None, Some(p)) => Ok(p),
        (None, None, None) => Err(conflict("The period could not be opened")),
    }
}

/// The name a pay period is opened under.
pub fn period_name(start: Day, end: Day) -> (r: String)
    requires
        valid_day(start),
        valid_day(end),
    ensures
        r@ == formatted(start, "%d %b"@) + " – "@ + formatted(end, "%d %b %Y"@),
        forall|y: int, m: int, d: int, last_y: int, last_m: int, last_d: int|
            #![trigger day_number(y, m, d), day_number(last_y, last_m, last_d)]
            valid_ymd(y, m, d) && day_number(y, m, d) == start && 0 <= last_y <= 9999 && valid_ymd(
                last_y,
                last_m,
                last_d,
            ) && day_number(last_y, last_m, last_d) == end ==> r@ == day_month(m, d) + " – "@ + (
            day_month(last_m, last_d) + seq![' '] + four_digits(last_y)),
{
    let from: String = day_format(start, "%d %b");
    let to: String = day_format(end, "%d %b %Y");
    join3(from.as_str(), " – ", to.as_str())
}

/// The running period's payslips: computed afresh while it is a draft, frozen
/// once it has been generated.
#[derive(Debug, Clone, Copy, PartialEq, Eq, Structural)]
pub struct CurrentPayroll {
    /// A live computation, since the period is still a draft.
    pub preview: bool,
    /// How many payslips are marked paid.
    pub paid_count: u64,
}

/// How many of the marks are there.
pub open spec fn marked(paid: Seq<bool>) -> int
    decreases paid.len(),
{
    if paid.len() == 0 {
        0
    } else {
        marked(paid.drop_last()) + if paid.last() {
            1int
        } else {
            0int
        }
    }
}

/// The running period: a draft is previewed, and has no payslips to be paid.
pub fn current(status: &str, paid: &Vec<bool>) -> (r: CurrentPayroll)
    ensures
        r.preview == (status@ == "draft"@),
        r.paid_count == if status@ == "draft"@ {
            0
        } else {
            marked(paid@)
        },
{
    if same_text(status, "draft") {
        return CurrentPayroll { preview: true, paid_count: 0 };
    }
    let mut n: u64 = 0;
    let mut i: usize = 0;
    while i < paid.len()
        invariant
            i <= paid@.len(),
            n <= i,
            n == marked(paid@.take(i as int)),
        decreases paid@.len() - i,
    {
        assert(paid@.take(i + 1).drop_last() =~= paid@.take(i as int));
        if paid[i] {
            n = n + 1;
        }
        i += 1;
    }
    assert(paid@.take(paid@.len() as int) =~= paid@);
    CurrentPayroll { preview: false, paid_count: n }
}

/// How a payslip is paid.
pub struct MarkPaid {
    /// `cash` · `bank` · `wallet`
    pub method: String,
}

/// What marking a payslip paid is refused for before it is looked for, if
/// anything: the period's status is `None` where there is no such period.
pub open spec fn paid_refused(
    right: Result<(), AppError>,
    method: Seq<char>,
    status: Option<Seq<char>>,
) -> Option<ErrorView> {
    either(
        refusal(right),
        either(
            given(
                method != "cash"@ && method != "bank"@ && method != "wallet"@,
                ErrorView::BadRequest("method is cash, bank or wallet"@),
            ),
            match status {
                None => Some(ErrorView::NotFound("Payroll period not found"@)),
                Some(s) => given(
                    s != "generated"@ && s != "paid"@,
                    ErrorView::Conflict("Approve the payroll before paying it."@),
                ),
            },
        ),
    )
}

/// Mark one payslip paid: in cash, by bank or by wallet, once its period is
/// approved.
pub fn mark_paid(
    right: Result<(), AppError>,
    body: &MarkPaid,
    status: &Option<String>,
) -> (r: Result<(), AppError>)
    ensures
        refusal(r) == paid_refused(right, body.method@, maybe(*status)),
{
    right?;
    let m: &str = body.method.as_str();
    if !same_text(m, "cash") && !same_text(m, "bank") && !same_text(m, "wallet") {
        return Err(bad_request("method is cash, bank or wallet"));
    }
    match status {
        None => Err(not_found("Payroll period not found")),
        Some(s) => {
            if !same_text(s.as_str(), "generated") && !same_text(s.as_str(), "paid") {
                return Err(conflict("Approve the payroll before paying it."));
            }
            Ok(())
        },
    }
}

/// A payslip is paid once.
pub fn paid_once(updated: bool) -> (r: Result<(), AppError>)
    ensures
        refusal(r) == given(
            !updated,
            ErrorView::Conflict("That payslip is already paid or doesn't exist."@),
        ),
{
    if updated {
        Ok(())
    } else {
        Err(conflict("That payslip is already paid or doesn't exist."))
    }
}

/// A pay line's sort.
#[derive(Debug, Clone, Copy, PartialEq, Eq, Structural)]
pub enum PayKind {
    Bonus,
    Deduction,
}

impl PayKind {
    /// The table its lines are in.
    pub open spec fn table_name(self) -> Seq<char> {
        match self {
            PayKind::Bonus => "payroll_bonuses"@,
            PayKind::Deduction => "payroll_deductions"@,
        }
    }

    pub fn table(&self) -> (r: &'static str)
        ensures
            r@ == self.table_name(),
    {
        match self {
            PayKind::Bonus => "payroll_bonuses",
            PayKind::Deduction => "payroll_deductions",
        }
    }

    /// What the employee is told of an approved line.
    pub open spec fn added_notice(self) -> Seq<char> {
        match self {
            PayKind::Bonus => "staff.n_bonus_added"@,
            PayKind::Deduction => "staff.n_deduction_added"@,
        }
    }

    pub fn notice(&self) -> (r: &'static str)
        ensures
            r@ == self.added_notice(),
    {
        match self {
            PayKind::Bonus => "staff.n_bonus_added",
            PayKind::Deduction => "staff.n_deduction_added",
        }
    }
}

/// The sort a name stands for.
pub open spec fn kind_named(kind: Seq<char>) -> Option<PayKind> {
    if kind == "bonus"@ {
        Some(PayKind::Bonus)
    } else if kind == "deduction"@ {
        Some(PayKind::Deduction)
    } else {
        None
    }
}

/// What a name that is neither is refused with.
pub open spec fn bad_kind() -> ErrorView {
    ErrorView::BadRequest("kind is bonus or deduction"@)
}

pub fn table_of(kind: &str) -> (r: Result<PayKind, AppError>)
    ensures
        match kind_named(kind@) {
            Some(k) => r == Ok::<PayKind, AppError>(k),
            None => r is Err && r->Err_0@ == bad_kind(),
        },
{
    if same_text(kind, "bonus") {
        Ok(PayKind::Bonus)
    } else if same_text(kind, "deduction") {
        Ok(PayKind::Deduction)
    } else {
        Err(bad_request("kind is bonus or deduction"))
    }
}

/// What a pay line of the kind is refused for at the door, if anything: someone
/// who may add neither bonuses nor deductions anywhere is told that they may
/// not, never which names there are.
pub open spec fn gate_refused(
    kind: Seq<char>,
    bonuses: Result<(), AppError>,
    deductions: Result<(), AppError>,
) -> Option<ErrorView> {
    match kind_named(kind) {
        Some(PayKind::Bonus) => refusal(bonuses),
        Some(PayKind::Deduction) => refusal(deductions),
        None => Some(
            if bonuses is Err && deductions is Err {
                deductions->Err_0@
            } else {
                bad_kind()
            },
        ),
    }
}

/// The sort of a pay line, with the rights checked before the request is
/// judged.
pub fn gate_kind(
    kind: &str,
    bonuses: Result<(), AppError>,
    deductions: Result<(), AppError>,
) -> (r: Result<PayKind, AppError>)
    ensures
        match gate_refused(kind@, bonuses, deductions) {
            Some(e) => r is Err && r->Err_0@ == e,
            None => r is Ok && kind_named(kind@) == Some(r->Ok_0),
        },
{
    match table_of(kind) {
        Ok(PayKind::Bonus) => {
            bonuses?;
            Ok(PayKind::Bonus)
        },
        Ok(PayKind::Deduction) => {
            deductions?;
            Ok(PayKind::Deduction)
        },
        Err(e) => {
            if bonuses.is_err() {
                deductions?;
            }
            Err(e)
        },
    }
}

/// A bonus or deduction to add.
pub struct NewAdjustment {
    /// `bonus` · `deduction`
    pub kind: String,
    pub amount_piastres: Option<i64>,
    /// A bonus may be a % of salary.
    pub percent_of_base: Option<Dec>,
    pub reason: String,
    /// The month it lands in: any day of that month; the first month of a
    /// recurring line. Defaults to today. Must be an open month.
    pub effective_date: Option<Day>,
    /// Every month until stopped.
    pub recurring: bool,
}

/// What is known when a pay line is to be added.
pub struct AdjustmentFacts {
    /// The caller may add bonuses somewhere.
    pub bonuses: Result<(), AppError>,
    /// The caller may add deductions somewhere.
    pub deductions: Result<(), AppError>,
    /// The person is an employee of the business.
    pub found: Result<(), AppError>,
    /// The line would be the caller's own.
    pub own: bool,
    /// The caller may add such a line for this person.
    pub right: Result<(), AppError>,
    /// The percentage of the person's salary, in piastres.
    pub percent_piastres: i64,
    /// The person's own day.
    pub today: Day,
    /// The month of the line is still open.
    pub month_open: Result<(), AppError>,
    /// What the caller's limit says of the amount.
    pub grant: Result<Grant, AppError>,
}

/// A percentage of one to a hundred, without the zero.
pub open spec fn is_percentage(p: Dec) -> bool {
    p.above(0) && !p.above(100)
}

/// What a line comes to, or what it is refused for: a deduction is always an
/// amount; only a bonus may be a percentage of the salary.
pub open spec fn line_amount(
    kind: Seq<char>,
    amount: Option<i64>,
    percent: Option<Dec>,
    percent_piastres: i64,
) -> Result<i64, ErrorView> {
    match (amount, percent) {
        (Some(a), None) if a > 0 => Ok(a),
        (None, Some(p)) if kind == "bonus"@ && is_percentage(p) => Ok(percent_piastres),
        (None, Some(_)) if kind == "deduction"@ => Err(
            ErrorView::BadRequest("A deduction is an amount, not a percentage"@),
        ),
        _ => Err(ErrorView::BadRequest("Give a positive amount or a percentage (1–100)"@)),
    }
}

fn amount_of_line(body: &NewAdjustment, percent_piastres: i64) -> (r: Result<i64, AppError>)
    requires
        body.percent_of_base matches Some(p) ==> p.valid(),
    ensures
        match line_amount(
            body.kind@,
            body.amount_piastres,
            body.percent_of_base,
            percent_piastres,
        ) {
            Ok(a) => r == Ok::<i64, AppError>(a),
            Err(e) => r is Err && r->Err_0@ == e,
        },
{
    match (body.amount_piastres, body.percent_of_base) {
        (Some(a), None) => {
            if a > 0 {
                return Ok(a);
            }
        },
        (None, Some(p)) => {
            if same_text(body.kind.as_str(), "bonus") && is_above(p, 0) && !is_above(p, 100) {
                return Ok(percent_piastres);
            }
            if same_text(body.kind.as_str(), "deduction") {
                return Err(bad_request("A deduction is an amount, not a percentage"));
            }
        },
        _ => {},
    }
    Err(bad_request("Give a positive amount or a percentage (1–100)"))
}

/// A pay line ready to be added.
#[derive(Debug, Clone, PartialEq, Eq)]
pub struct PayLine {
    pub kind: PayKind,
    /// What it comes to.
    pub value_piastres: i64,
    /// What is stored: none for a percentage, which is stored as one.
    pub amount_piastres: Option<i64>,
    pub reason: String,
    pub effective_date: Day,
    /// It counts at once; otherwise it waits for the owner, who is told.
    pub approved: bool,
}

/// What adding a pay line is refused for, if anything.
pub open spec fn adjustment_refused(f: AdjustmentFacts, body: NewAdjustment) -> Option<ErrorView> {
    either(
        gate_refused(body.kind@, f.bonuses, f.deductions),
        either(
            refusal(f.found),
            either(
                given(
                    f.own,
                    ErrorView::Forbidden("You can't add pay lines for yourself."@),
                ),
                either(
                    refusal(f.right),
                    either(
                        given(
                            trimmed(body.reason@).len() == 0,
                            ErrorView::BadRequest("A reason is required"@),
                        ),
                        match line_amount(
                            body.kind@,
                            body.amount_piastres,
                            body.percent_of_base,
                            f.percent_piastres,
                        ) {
                            Err(e) => Some(e),
                            Ok(_) => either(refusal(f.month_open), refusal(f.grant)),
                        },
                    ),
                ),
            ),
        ),
    )
}

/// Add a bonus or deduction. Over the caller's limit it is created pending and
/// waits for the owner. Nobody adds lines for themselves, and none is dated in
/// a closed month.
pub fn create_adjustment(f: AdjustmentFacts, body: &NewAdjustment) -> (r: Result<
    PayLine,
    AppError,
>)
    requires
        body.percent_of_base matches Some(p) ==> p.valid(),
    ensures
        match adjustment_refused(f, *body) {
            Some(e) => r is Err && r->Err_0@ == e,
            None => {
                let value = line_amount(
                    body.kind@,
                    body.amount_piastres,
                    body.percent_of_base,
                    f.percent_piastres,
                )->Ok_0;
                &&& r is Ok
                &&& kind_named(body.kind@) == Some((r->Ok_0).kind)
                &&& (r->Ok_0).value_piastres == value
                &&& (r->Ok_0).amount_piastres == if body.percent_of_base is None {
                    Some(value)
                } else {
                    None
                }
                &&& (r->Ok_0).reason@ == trimmed(body.reason@)
                &&& (r->Ok_0).effective_date == match body.effective_date {
                    Some(d) => d,
                    None => f.today,
                }
                &&& (r->Ok_0).approved == (f.grant->Ok_0 == Grant::Allow)
            },
        },
{
    let kind: PayKind = gate_kind(body.kind.as_str(), f.bonuses, f.deductions)?;
    f.found?;
    if f.own {
        return Err(forbidden("You can't add pay lines for yourself."));
    }
    f.right?;
    let reason: String = trim(body.reason.as_str());
    if reason.as_str().is_empty() {
        return Err(bad_request("A reason is required"));
    }
    let value: i64 = amount_of_line(body, f.percent_piastres)?;
    let effective_date: Day = match body.effective_date {
        Some(d) => d,
        None => f.today,
    };
    f.month_open?;
    let approved: bool = match f.grant? {
        Grant::Allow => true,
        Grant::NeedsApproval => false,
    };
    Ok(
        PayLine {
            kind,
            value_piastres: value,
            amount_piastres: if body.percent_of_base.is_none() {
                Some(value)
            } else {
                None
            },
            reason,
            effective_date,
            approved,
        },
    )
}

/// An approval or a rejection.
#[derive(Debug, Clone, Copy, PartialEq, Eq, Structural)]
pub struct DecidePay {
    pub approve: bool,
}

/// A pay line as it stands.
pub struct StoredLine {
    /// `bonus` · `deduction`
    pub kind: String,
    /// `pending` (waits for the owner) · `approved` · `rejected`
    pub status: String,
}

/// What is known when a pay line is to be decided or stopped.
pub struct LineFacts {
    /// The caller may add bonuses somewhere.
    pub bonuses: Result<(), AppError>,
    /// The caller may add deductions somewhere.
    pub deductions: Result<(), AppError>,
    /// The line, if it is there.
    pub line: Option<StoredLine>,
    /// Its person is an employee of the business.
    pub found: Result<(), AppError>,
    /// The caller may add such a line for this person.
    pub right: Result<(), AppError>,
    /// The month of the line is still open.
    pub month_open: Result<(), AppError>,
    /// The line's value is within the caller's limit, and they are not its
    /// person nor the one who added it.
    pub settle: Result<(), AppError>,
}

/// What deciding a pay line is refused for, if anything.
pub open spec fn decide_refused(kind: Seq<char>, f: LineFacts) -> Option<ErrorView> {
    either(
        gate_refused(kind, f.bonuses, f.deductions),
        match f.line {
            None => Some(ErrorView::NotFound("Adjustment not found"@)),
            Some(a) => either(
                given(
                    a.status@ != "pending"@ || a.kind@ != kind,
                    ErrorView::Conflict("This line has already been decided"@),
                ),
                either(
                    refusal(f.found),
                    either(refusal(f.right), either(refusal(f.month_open), refusal(f.settle))),
                ),
            ),
        },
    )
}

/// What a decided line becomes, and who is told what.
#[derive(Debug, Clone, Copy, PartialEq, Eq)]
pub struct LineDecision {
    pub kind: PayKind,
    pub status: &'static str,
    /// What the person is told; nothing of a rejection.
    pub notice: Option<&'static str>,
    /// What the one who added it is told.
    pub answer: &'static str,
}

/// The owner (or anyone whose limit covers it) decides a pending line.
pub fn decide_adjustment(kind: &str, f: LineFacts, body: &DecidePay) -> (r: Result<
    LineDecision,
    AppError,
>)
    ensures
        match decide_refused(kind@, f) {
            Some(e) => r is Err && r->Err_0@ == e,
            None => {
                let d = r->Ok_0;
                &&& r is Ok
                &&& kind_named(kind@) == Some(d.kind)
                &&& d.status@ == if body.approve {
                    "approved"@
                } else {
                    "rejected"@
                }
                &&& d.notice is Some <==> body.approve
                &&& d.notice matches Some(n) ==> n@ == d.kind.added_notice()
                &&& d.answer@ == if body.approve {
                    "staff.n_adjustment_approved"@
                } else {
                    "staff.n_adjustment_rejected"@
                }
            },
        },
{
    let sort: PayKind = gate_kind(kind, f.bonuses, f.deductions)?;
    let line: StoredLine = match f.line {
        Some(a) => a,
        None => {
            return Err(not_found("Adjustment not found"));
        },
    };
    if !same_text(line.status.as_str(), "pending") || !same_text(line.kind.as_str(), kind) {
        return Err(conflict("This line has already been decided"));
    }
    f.found?;
    f.right?;
    f.month_open?;
    f.settle?;
    if body.approve {
        Ok(
            LineDecision {
                kind: sort,
                status: "approved",
                notice: Some(sort.notice()),
                answer: "staff.n_adjustment_approved",
            },
        )
    } else {
        Ok(
            LineDecision {
                kind: sort,
                status: "rejected",
                notice: None,
                answer: "staff.n_adjustment_rejected",
            },
        )
    }
}

/// Why a monthly line stops.
pub struct StopAdjustment {
    /// Required: blank or missing is refused.
    pub reason: Option<String>,
}

/// The current period, as stopping a line looks at it.
#[derive(Debug, Clone, Copy, PartialEq, Eq, Structural)]
pub struct PeriodNow {
    /// It is approved already.
    pub closed: bool,
    pub start_date: Day,
    pub end_date: Day,
}

/// The last day of a line stopped now: the day before the current month, or its
/// end where it is approved already and so keeps the line.
pub open spec fn last_day_of_line(p: PeriodNow) -> int {
    if p.closed {
        p.end_date as int
    } else {
        p.start_date - 1
    }
}

/// What stopping a line is refused for, if anything.
pub open spec fn stop_refused(kind: Seq<char>, f: LineFacts, reason: Option<Seq<char>>) -> Option<
    ErrorView,
> {
    either(
        gate_refused(kind, f.bonuses, f.deductions),
        match f.line {
            None => Some(ErrorView::NotFound("Adjustment not found"@)),
            Some(a) => either(
                given(a.kind@ != kind, ErrorView::NotFound("Adjustment not found"@)),
                either(
                    refusal(f.found),
                    either(
                        refusal(f.right),
                        given(
                            unblank(reason) is None,
                            ErrorView::BadRequest("Stopping a monthly line needs a reason"@),
                        ),
                    ),
                ),
            ),
        },
    )
}

/// Stop a monthly line from the next period on; past payslips keep it. Answers
/// with its last day and the reason.
pub fn stop_adjustment(
    kind: &str,
    f: LineFacts,
    body: &StopAdjustment,
    period: &PeriodNow,
) -> (r: Result<(Day, String), AppError>)
    requires
        period.start_date > i32::MIN,
    ensures
        match stop_refused(kind@, f, maybe(body.reason)) {
            Some(e) => r is Err && r->Err_0@ == e,
            None => {
                &&& r is Ok
                &&& (r->Ok_0).0 == last_day_of_line(*period)
                &&& Some((r->Ok_0).1@) == unblank(maybe(body.reason))
            },
        },
{
    let _sort: PayKind = gate_kind(kind, f.bonuses, f.deductions)?;
    let line: StoredLine = match f.line {
        Some(a) => a,
        None => {
            return Err(not_found("Adjustment not found"));
        },
    };
    if !same_text(line.kind.as_str(), kind) {
        return Err(not_found("Adjustment not found"));
    }
    f.found?;
    f.right?;
    let reason: String = match blank_to_none(&body.reason) {
        Some(t) => t,
        None => {
            return Err(bad_request("Stopping a monthly line needs a reason"));
        },
    };
    let last: Day = if period.closed {
        period.end_date
    } else {
        period.start_date - 1
    };
    Ok((last, reason))
}

/// A monthly line is stopped once, while it runs.
pub fn stopped_once(rows_affected: u64) -> (r: Result<(), AppError>)
    ensures
        refusal(r) == given(
            rows_affected == 0,
            ErrorView::Conflict("That isn't a running monthly line."@),
        ),
{
    if rows_affected == 0 {
        Err(conflict("That isn't a running monthly line."))
    } else {
        Ok(())
    }
}

/// Nobody adds a pay line for themselves.
pub proof fn law_nobody_pays_themselves(f: AdjustmentFacts, body: NewAdjustment)
    requires
        f.own,
    ensures
        adjustment_refused(f, body) is Some,
{
}

/// A deduction is never a percentage, and no line comes to nothing or less
/// where an amount was typed.
pub proof fn law_a_deduction_is_an_amount(
    amount: Option<i64>,
    percent: Option<Dec>,
    percent_piastres: i64,
    value: i64,
)
    requires
        line_amount("deduction"@, amount, percent, percent_piastres) == Ok::<i64, ErrorView>(value),
    ensures
        percent is None,
        amount == Some(value),
        value > 0,
{
    reveal_strlit("bonus");
    reveal_strlit("deduction");
    assert("bonus"@.len() != "deduction"@.len());
}

/// Every act dated inside an approved month is refused: a line is neither
/// written nor decided there.
pub proof fn law_an_approved_month_takes_no_lines(
    new: AdjustmentFacts,
    body: NewAdjustment,
    kind: Seq<char>,
    line: LineFacts,
)
    requires
        new.month_open is Err,
        line.month_open is Err,
    ensures
        adjustment_refused(new, body) is Some,
        decide_refused(kind, line) is Some,
{
}

/// A window starts on the start day of a month and ends on the eve of the start
/// day of the month after it; with the first of the month it is the month.
pub proof fn law_a_window_is_from_start_day_to_start_day(y: int, m: int, d: int, start: int)
    requires
        valid_ymd(y, m, d),
        1 <= start <= 28,
    ensures
        start <= d ==> window_of(y, m, d, start).0 == day_number(y, m, start),
        start <= d && m < 12 ==> window_of(y, m, d, start).1 + 1 == day_number(y, m + 1, start),
        start <= d && m == 12 ==> window_of(y, m, d, start).1 + 1 == day_number(y + 1, 1, start),
        d < start && m > 1 ==> window_of(y, m, d, start).0 == day_number(y, m - 1, start),
        d < start && m == 1 ==> window_of(y, m, d, start).0 == day_number(y - 1, 12, start),
        d < start ==> window_of(y, m, d, start).1 + 1 == day_number(y, m, start),
{
}

/// Every payslip marked counts once.
pub proof fn law_every_mark_counts(paid: Seq<bool>, x: bool)
    ensures
        marked(paid.push(x)) == marked(paid) + if x {
            1int
        } else {
            0
        },
        marked(Seq::empty()) == 0,
{
    assert(paid.push(x).drop_last() =~= paid);
}

/// A payslip is paid in cash, by bank or by wallet, by who may, and only once
/// its payroll was approved.
pub proof fn law_a_payslip_is_paid_after_approval(
    right: Result<(), AppError>,
    method: Seq<char>,
    status: Option<Seq<char>>,
)
    ensures
        paid_refused(right, method, status) is None <==> {
            &&& right is Ok
            &&& method == "cash"@ || method == "bank"@ || method == "wallet"@
            &&& status == Some("generated"@) || status == Some("paid"@)
        },
{
}

/// A bonus takes the right to bonuses and a deduction that to deductions;
/// nothing else is a pay line.
pub proof fn law_a_line_takes_its_own_right(
    kind: Seq<char>,
    bonuses: Result<(), AppError>,
    deductions: Result<(), AppError>,
)
    ensures
        gate_refused(kind, bonuses, deductions) is None <==> kind == "bonus"@ && bonuses is Ok
            || kind == "deduction"@ && deductions is Ok,
        kind_named(kind) == Some(PayKind::Bonus) <==> kind == "bonus"@,
        kind_named(kind) == Some(PayKind::Deduction) <==> kind == "deduction"@,
        kind_named(kind) is None && bonuses is Err && deductions is Err ==> gate_refused(
            kind,
            bonuses,
            deductions,
        ) == Some(deductions->Err_0@),
        kind_named(kind) is None && (bonuses is Ok || deductions is Ok) ==> gate_refused(
            kind,
            bonuses,
            deductions,
        ) == Some(ErrorView::BadRequest("kind is bonus or deduction"@)),
{
    reveal_strlit("bonus");
    reveal_strlit("deduction");
    assert("bonus"@.len() != "deduction"@.len());
}

/// A line comes to the positive amount typed, or for a bonus to the percentage
/// of the salary, above zero and up to a hundred; to both or neither it is
/// refused.
pub proof fn law_a_line_comes_to_one_figure(
    kind: Seq<char>,
    amount: Option<i64>,
    percent: Option<Dec>,
    percent_piastres: i64,
)
    ensures
        ({
            let r = line_amount(kind, amount, percent, percent_piastres);
            let typed = amount is Some && percent is None && amount->0 > 0;
            let share = amount is None && percent is Some && kind == "bonus"@ && percent->0.above(0)
                && !percent->0.above(100);
            &&& r is Ok <==> typed || share
            &&& typed ==> r == Ok::<i64, ErrorView>(amount->0)
            &&& share ==> r == Ok::<i64, ErrorView>(percent_piastres)
        }),
{
}

/// A pay line is added for somebody else, an employee of the business, by who
/// may, with a reason, a figure, in an open month and with an answer from the
/// caller's limit.
pub proof fn law_a_line_is_added_for_another(f: AdjustmentFacts, body: NewAdjustment)
    ensures
        adjustment_refused(f, body) is None <==> {
            &&& body.kind@ == "bonus"@ && f.bonuses is Ok || body.kind@ == "deduction"@
                && f.deductions is Ok
            &&& f.found is Ok
            &&& !f.own
            &&& f.right is Ok
            &&& trimmed(body.reason@).len() > 0
            &&& line_amount(
                body.kind@,
                body.amount_piastres,
                body.percent_of_base,
                f.percent_piastres,
            ) is Ok
            &&& f.month_open is Ok
            &&& f.grant is Ok
        },
{
    law_a_line_takes_its_own_right(body.kind@, f.bonuses, f.deductions);
}

/// A pending line of the kind is decided by who may, in an open month and within
/// their limit; a line that is not pending is not decided again.
pub proof fn law_a_pending_line_is_decided_once(kind: Seq<char>, f: LineFacts)
    ensures
        decide_refused(kind, f) is None <==> {
            &&& kind == "bonus"@ && f.bonuses is Ok || kind == "deduction"@ && f.deductions is Ok
            &&& f.line is Some
            &&& f.line->0.status@ == "pending"@
            &&& f.line->0.kind@ == kind
            &&& f.found is Ok
            &&& f.right is Ok
            &&& f.month_open is Ok
            &&& f.settle is Ok
        },
{
    law_a_line_takes_its_own_right(kind, f.bonuses, f.deductions);
}

/// A line of the kind is stopped by who may, with a reason.
pub proof fn law_stopping_a_line_takes_a_reason(
    kind: Seq<char>,
    f: LineFacts,
    reason: Option<Seq<char>>,
)
    ensures
        stop_refused(kind, f, reason) is None <==> {
            &&& kind == "bonus"@ && f.bonuses is Ok || kind == "deduction"@ && f.deductions is Ok
            &&& f.line is Some
            &&& f.line->0.kind@ == kind
            &&& f.found is Ok
            &&& f.right is Ok
            &&& unblank(reason) is Some
        },
{
    law_a_line_takes_its_own_right(kind, f.bonuses, f.deductions);
}

/// A stopped line runs to the end of an approved period and stays on its
/// payslips, and ends before an open one begins.
pub proof fn law_a_stopped_line_keeps_what_was_paid(p: PeriodNow, d: Day)
    requires
        p.start_date <= d <= p.end_date,
    ensures
        d <= last_day_of_line(p) <==> p.closed,
        last_day_of_line(p) < p.start_date ==> last_day_of_line(p) + 1 == p.start_date,
        last_day_of_line(p) >= p.start_date ==> last_day_of_line(p) == p.end_date,
{
}

/// What marking a payslip paid is refused for first.
pub proof fn law_how_paying_is_refused(
    right: Result<(), AppError>,
    method: Seq<char>,
    status: Option<Seq<char>>,
)
    ensures
        ({
            paid_refused(right, method, status) == if right is Err {
                Some(right->Err_0@)
            } else if !(method == "cash"@ || method == "bank"@ || method == "wallet"@) {
                Some(ErrorView::BadRequest("method is cash, bank or wallet"@))
            } else if status is None {
                Some(ErrorView::NotFound("Payroll period not found"@))
            } else if !(status == Some("generated"@) || status == Some("paid"@)) {
                Some(ErrorView::Conflict("Approve the payroll before paying it."@))
            } else {
                None
            }
        }),
{
}

/// What adding a pay line is refused for first: the rights are checked before the
/// request is judged.
pub proof fn law_how_a_pay_line_is_refused(f: AdjustmentFacts, body: NewAdjustment)
    ensures
        ({
            let amount = line_amount(body.kind@, body.amount_piastres, body.percent_of_base,
                f.percent_piastres);
            adjustment_refused(f, body) == if gate_refused(body.kind@, f.bonuses,
                f.deductions) is Some {
                Some(gate_refused(body.kind@, f.bonuses, f.deductions)->0)
            } else if f.found is Err {
                Some(f.found->Err_0@)
            } else if f.own {
                Some(ErrorView::Forbidden("You can't add pay lines for yourself."@))
            } else if f.right is Err {
                Some(f.right->Err_0@)
            } else if trimmed(body.reason@).len() == 0 {
                Some(ErrorView::BadRequest("A reason is required"@))
            } else if amount is Err {
                Some(amount->Err_0)
            } else if f.month_open is Err {
                Some(f.month_open->Err_0@)
            } else if f.grant is Err {
                Some(f.grant->Err_0@)
            } else {
                None
            }
        }),
{
}

/// What deciding a pay line is refused for first.
pub proof fn law_how_a_lines_decision_is_refused(kind: Seq<char>, f: LineFacts)
    ensures
        ({
            decide_refused(kind, f) == if gate_refused(kind, f.bonuses, f.deductions) is Some {
                Some(gate_refused(kind, f.bonuses, f.deductions)->0)
            } else if f.line is None {
                Some(ErrorView::NotFound("Adjustment not found"@))
            } else if !(f.line->0.status@ == "pending"@ && f.line->0.kind@ == kind) {
                Some(ErrorView::Conflict("This line has already been decided"@))
            } else if f.found is Err {
                Some(f.found->Err_0@)
            } else if f.right is Err {
                Some(f.right->Err_0@)
            } else if f.month_open is Err {
                Some(f.month_open->Err_0@)
            } else if f.settle is Err {
                Some(f.settle->Err_0@)
            } else {
                None
            }
        }),
{
}

/// What stopping a pay line is refused for first.
pub proof fn law_how_stopping_a_line_is_refused(
    kind: Seq<char>,
    f: LineFacts,
    reason: Option<Seq<char>>,
)
    ensures
        ({
            stop_refused(kind, f, reason) == if gate_refused(kind, f.bonuses,
                f.deductions) is Some {
                Some(gate_refused(kind, f.bonuses, f.deductions)->0)
            } else if !(f.line is Some && f.line->0.kind@ == kind) {
                Some(ErrorView::NotFound("Adjustment not found"@))
            } else if f.found is Err {
                Some(f.found->Err_0@)
            } else if f.right is Err {
                Some(f.right->Err_0@)
            } else if unblank(reason) is None {
                Some(ErrorView::BadRequest("Stopping a monthly line needs a reason"@))
            } else {
                None
            }
        }),
{
}

} // verus!
