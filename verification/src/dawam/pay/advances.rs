//! Salary advances under the owner's cap, and expense advances.

use vstd::prelude::*;

use crate::calendar::{Day, Id};
use crate::errors::{
    bad_request, conflict, either, forbidden, given, refusal, AppError, ErrorView,
};
use crate::text::{
    blank_to_none, int_chars, int_text, join3, maybe, same_text, trim, trimmed, unblank,
};

verus! {

/// What a person owes in advances, and what they may.
#[derive(Debug, Clone, Copy, PartialEq, Eq, Structural)]
pub struct Advances {
    /// The owner's cap on what this person may owe.
    pub cap: i64,
    /// What they owe: everything pending or approved.
    pub outstanding: i64,
    pub salary: i64,
}

impl Advances {
    /// How much more can be asked for.
    pub open spec fn room_left(self) -> int {
        if self.cap > self.outstanding {
            self.cap - self.outstanding
        } else {
            0
        }
    }

    /// What is owed once the amount is added and what it stands in for is
    /// taken out.
    pub open spec fn owed_after(self, amount: i64, already_counted: i64) -> int {
        self.outstanding - already_counted + amount
    }

    /// The share of the salary owed then, in whole percent, rounded up so that
    /// a limit is never passed by a fraction of a percent.
    pub open spec fn percent_after(self, amount: i64, already_counted: i64) -> int {
        if self.salary > 0 {
            (self.owed_after(amount, already_counted) * 100 + self.salary - 1) / self.salary as int
        } else {
            100
        }
    }

    /// What going over the cap is refused with: how much more there is, in
    /// whole pounds.
    pub open spec fn over_cap(self, already_counted: i64) -> ErrorView {
        let left = self.cap - self.outstanding + already_counted;
        ErrorView::Conflict(
            "ADVANCE_OVER_CAP: that's over the advance cap — at most "@ + int_chars(
                if left > 0 {
                    left / 100
                } else {
                    0
                },
            ) + " EGP more; the owner can approve it."@,
        )
    }
}

/// How much more a person can ask for as an advance.
pub fn advance_room(a: &Advances) -> (r: i128)
    ensures
        r == a.room_left(),
{
    if a.cap > a.outstanding {
        a.cap as i128 - a.outstanding as i128
    } else {
        0
    }
}

/// The cap and limit rules for approving an amount: the cap on what is
/// outstanding (the one being decided counted) may only be passed by the owner.
/// Answers with the percentage the approver's own limit is judged on: what is
/// outstanding with the new one, not the single advance.
pub fn approve_advance_checks(
    a: &Advances,
    amount: i64,
    already_counted: i64,
    owner: bool,
) -> (r: Result<i128, AppError>)
    ensures
        match r {
            Ok(percent) => (a.owed_after(amount, already_counted) <= a.cap || owner) && percent
                == a.percent_after(amount, already_counted),
            Err(e) => a.owed_after(amount, already_counted) > a.cap && !owner && e@ == a.over_cap(
                already_counted,
            ),
        },
{
    let after: i128 = a.outstanding as i128 - already_counted as i128 + amount as i128;
    if after > a.cap as i128 && !owner {
        let left: i128 = a.cap as i128 - a.outstanding as i128 + already_counted as i128;
        let pounds: i64 = if left > 0 {
            (left / 100) as i64
        } else {
            0
        };
        let reason: String = join3(
            "ADVANCE_OVER_CAP: that's over the advance cap — at most ",
            int_text(pounds).as_str(),
            " EGP more; the owner can approve it.",
        );
        return Err(conflict(reason.as_str()));
    }
    if a.salary > 0 {
        Ok(floor_div(after * 100 + a.salary as i128 - 1, a.salary as i128))
    } else {
        Ok(100)
    }
}

/// The whole number at or below the quotient.
fn floor_div(n: i128, d: i128) -> (r: i128)
    requires
        d > 0,
        n > i128::MIN,
    ensures
        r == n as int / d as int,
{
    if n >= 0 {
        n / d
    } else {
        let m: i128 = -n;
        let q: i128 = m / d;
        proof {
            vstd::arithmetic::div_mod::lemma_fundamental_div_mod(m as int, d as int);
            assert(q <= m) by (nonlinear_arith)
                requires
                    d > 0,
                    m > 0,
                    q == m as int / d as int,
            ;
        }
        if m % d == 0 {
            proof {
                assert(n as int / d as int == -(q as int)) by (nonlinear_arith)
                    requires
                        d > 0,
                        q == m as int / d as int,
                        m as int == d as int * (m as int / d as int) + m as int % d as int,
                        m as int % (d as int) == 0,
                        m == -n,
                ;
            }
            -q
        } else {
            proof {
                assert(n as int / d as int == -(q as int) - 1) by (nonlinear_arith)
                    requires
                        d > 0,
                        q == m as int / d as int,
                        m == -n,
                        m as int == d as int * (m as int / d as int) + m as int % d as int,
                        0 < m as int % (d as int) < d,
                ;
            }
            -q - 1
        }
    }
}

/// How an advance is decided.
pub struct ReviewAdvance {
    pub approve: bool,
    /// Approve a different amount than asked.
    pub amount_piastres: Option<i64>,
    pub installments: Option<i32>,
    pub note: Option<String>,
}

/// An advance waiting for a decision.
#[derive(Debug, Clone, Copy, PartialEq, Eq, Structural)]
pub struct PendingAdvance {
    pub amount_piastres: i64,
    pub installments: i32,
}

/// The amount and the months an advance is decided with.
pub open spec fn reviewed(p: PendingAdvance, body: ReviewAdvance) -> (i64, i32) {
    (
        match body.amount_piastres {
            Some(a) => a,
            None => p.amount_piastres,
        },
        match body.installments {
            Some(n) => n,
            None => p.installments,
        },
    )
}

/// The amount and the months an advance is decided with.
pub fn review_terms(p: &PendingAdvance, body: &ReviewAdvance) -> (r: (i64, i32))
    ensures
        r == reviewed(*p, *body),
{
    let amount: i64 = match body.amount_piastres {
        Some(a) => a,
        None => p.amount_piastres,
    };
    let installments: i32 = match body.installments {
        Some(n) => n,
        None => p.installments,
    };
    (amount, installments)
}

/// What is known when an advance is to be decided.
pub struct ReviewFacts {
    /// The caller may decide advances somewhere.
    pub gate: Result<(), AppError>,
    /// The advance, if it is pending.
    pub pending: Option<PendingAdvance>,
    /// Its person is an employee of the business.
    pub found: Result<(), AppError>,
    /// It is the caller's own.
    pub own: bool,
    /// The caller may decide advances for this person.
    pub right: Result<(), AppError>,
    /// The monthly part of the amount over the months it is decided with.
    pub monthly: Result<i64, AppError>,
    pub advances: Advances,
    /// The caller runs payroll at every branch.
    pub owner: bool,
    /// The percentage is within the caller's limit.
    pub settle: Result<(), AppError>,
}

/// What deciding an advance is refused for, if anything.
pub open spec fn review_refused(f: ReviewFacts, body: ReviewAdvance) -> Option<ErrorView> {
    either(
        refusal(f.gate),
        match f.pending {
            None => Some(ErrorView::Conflict("This advance has already been decided"@)),
            Some(p) => either(
                refusal(f.found),
                either(
                    given(
                        f.own,
                        ErrorView::Forbidden("Someone else has to decide your advance."@),
                    ),
                    either(
                        refusal(f.right),
                        either(
                            refusal(f.monthly),
                            if body.approve {
                                either(
                                    given(
                                        f.advances.owed_after(
                                            reviewed(p, body).0,
                                            p.amount_piastres,
                                        ) > f.advances.cap && !f.owner,
                                        f.advances.over_cap(p.amount_piastres),
                                    ),
                                    refusal(f.settle),
                                )
                            } else {
                                None
                            },
                        ),
                    ),
                ),
            ),
        },
    )
}

/// What a decided advance becomes.
#[derive(Debug, Clone, PartialEq, Eq)]
pub struct AdvanceDecision {
    pub status: &'static str,
    pub amount_piastres: i64,
    pub installments: i32,
    pub monthly_piastres: i64,
    pub note: Option<String>,
    /// What the person is told.
    pub notice: &'static str,
}

/// Decide an advance within the cap. The pending one is already counted as
/// outstanding at its asked amount. Nobody decides their own.
pub fn review_advance(f: ReviewFacts, body: &ReviewAdvance) -> (r: Result<
    AdvanceDecision,
    AppError,
>)
    ensures
        match review_refused(f, *body) {
            Some(e) => r is Err && r->Err_0@ == e,
            None => {
                let d = r->Ok_0;
                let (amount, months) = reviewed(f.pending->0, *body);
                &&& r is Ok
                &&& d.status@ == if body.approve {
                    "approved"@
                } else {
                    "rejected"@
                }
                &&& d.amount_piastres == amount
                &&& d.installments == months
                &&& d.monthly_piastres == f.monthly->Ok_0
                &&& maybe(d.note) == unblank(maybe(body.note))
                &&& d.notice@ == if body.approve {
                    "staff.n_advance_approved"@
                } else {
                    "staff.n_advance_rejected"@
                }
            },
        },
{
    f.gate?;
    let p: PendingAdvance = match f.pending {
        Some(p) => p,
        None => {
            return Err(conflict("This advance has already been decided"));
        },
    };
    f.found?;
    if f.own {
        return Err(forbidden("Someone else has to decide your advance."));
    }
    f.right?;
    let (amount, installments) = review_terms(&p, body);
    let monthly: i64 = f.monthly?;
    if body.approve {
        let _percent: i128 = approve_advance_checks(
            &f.advances,
            amount,
            p.amount_piastres,
            f.owner,
        )?;
        f.settle?;
    }
    Ok(
        AdvanceDecision {
            status: if body.approve {
                "approved"
            } else {
                "rejected"
            },
            amount_piastres: amount,
            installments,
            monthly_piastres: monthly,
            note: blank_to_none(&body.note),
            notice: if body.approve {
                "staff.n_advance_approved"
            } else {
                "staff.n_advance_rejected"
            },
        },
    )
}

/// An advance handed over directly.
pub struct RecordAdvance {
    pub amount_piastres: i64,
    /// 1 = in full from the next payslip.
    pub installments: Option<i32>,
    pub reason: Option<String>,
}

/// What is known when an advance is handed over directly.
pub struct RecordFacts {
    /// The caller may decide advances somewhere.
    pub gate: Result<(), AppError>,
    /// The person is an employee of the business.
    pub found: Result<(), AppError>,
    /// It is the caller's own.
    pub own: bool,
    /// The caller may decide advances for this person.
    pub right: Result<(), AppError>,
    /// The monthly part of the amount.
    pub monthly: Result<i64, AppError>,
    pub advances: Advances,
    /// The caller runs payroll at every branch.
    pub owner: bool,
    /// The percentage is within the caller's limit.
    pub settle: Result<(), AppError>,
}

/// What handing over an advance is refused for, if anything.
pub open spec fn record_refused(f: RecordFacts, amount: i64) -> Option<ErrorView> {
    either(
        refusal(f.gate),
        either(
            refusal(f.found),
            either(
                given(
                    f.own,
                    ErrorView::Forbidden("Someone else has to record your advance."@),
                ),
                either(
                    refusal(f.right),
                    either(
                        refusal(f.monthly),
                        either(
                            given(
                                f.advances.owed_after(amount, 0) > f.advances.cap && !f.owner,
                                f.advances.over_cap(0),
                            ),
                            refusal(f.settle),
                        ),
                    ),
                ),
            ),
        ),
    )
}

/// A manager hands an advance over directly: recorded and approved in one call
/// under the same cap and limit as a review, so a refusal never leaves a stray
/// pending advance behind.
pub fn record_advance(f: RecordFacts, body: &RecordAdvance) -> (r: Result<
    AdvanceDecision,
    AppError,
>)
    ensures
        match record_refused(f, body.amount_piastres) {
            Some(e) => r is Err && r->Err_0@ == e,
            None => {
                let d = r->Ok_0;
                &&& r is Ok
                &&& d.status@ == "approved"@
                &&& d.amount_piastres == body.amount_piastres
                &&& d.installments == match body.installments {
                    Some(n) => n,
                    None => 1,
                }
                &&& d.monthly_piastres == f.monthly->Ok_0
                &&& maybe(d.note) == unblank(maybe(body.reason))
                &&& d.notice@ == "staff.n_advance_approved"@
            },
        },
{
    f.gate?;
    f.found?;
    if f.own {
        return Err(forbidden("Someone else has to record your advance."));
    }
    f.right?;
    let installments: i32 = match body.installments {
        Some(n) => n,
        None => 1,
    };
    let monthly: i64 = f.monthly?;
    let _percent: i128 = approve_advance_checks(&f.advances, body.amount_piastres, 0, f.owner)?;
    f.settle?;
    Ok(
        AdvanceDecision {
            status: "approved",
            amount_piastres: body.amount_piastres,
            installments,
            monthly_piastres: monthly,
            note: blank_to_none(&body.reason),
            notice: "staff.n_advance_approved",
        },
    )
}

/// Cash handed over for a purchase.
pub struct NewExpenseAdvance {
    pub amount_piastres: i64,
    pub purpose: String,
    /// `safe` · `bank`. A till pay-out is tagged on the till itself, never
    /// logged here by hand.
    pub via: String,
    /// When the cash changed hands; defaults to today.
    pub given_on: Option<Day>,
    /// Where it was handed over; defaults to a branch of the person's.
    pub branch_id: Option<Id>,
}

/// What is known when an expense advance is to be logged.
pub struct ExpenseFacts {
    /// The caller may log them somewhere.
    pub gate: Result<(), AppError>,
    /// The person is an employee of the business.
    pub found: Result<(), AppError>,
    /// The caller may log them for this person.
    pub right: Result<(), AppError>,
    /// The caller may log them at the branch named.
    pub right_there: Result<(), AppError>,
    /// The branch of the person's where the caller logs them.
    pub fallback: Result<Option<Id>, AppError>,
    /// The day where the cash changed hands.
    pub today: Day,
}

/// The branch an expense advance is logged at, or what it is refused for.
pub open spec fn expense_branch(f: ExpenseFacts, asked: Option<Id>) -> Result<
    Option<Id>,
    ErrorView,
> {
    match asked {
        Some(b) => match f.right_there {
            Ok(_) => Ok(Some(b)),
            Err(e) => Err(e@),
        },
        None => match f.fallback {
            Ok(b) => Ok(b),
            Err(e) => Err(e@),
        },
    }
}

/// What logging an expense advance is refused for, if anything.
pub open spec fn expense_refused(f: ExpenseFacts, body: NewExpenseAdvance) -> Option<ErrorView> {
    either(
        refusal(f.gate),
        either(
            refusal(f.found),
            either(
                refusal(f.right),
                match expense_branch(f, body.branch_id) {
                    Err(e) => Some(e),
                    Ok(_) => either(
                        given(
                            body.via@ != "safe"@ && body.via@ != "bank"@,
                            ErrorView::BadRequest(
                                "via is safe or bank — a till pay-out is tagged on the till itself"@,
                            ),
                        ),
                        either(
                            given(
                                body.amount_piastres <= 0,
                                ErrorView::BadRequest("Amount must be positive"@),
                            ),
                            either(
                                given(
                                    trimmed(body.purpose@).len() == 0,
                                    ErrorView::BadRequest("Say what it's for"@),
                                ),
                                given(
                                    body.given_on is Some && body.given_on->0 > f.today,
                                    ErrorView::BadRequest("The date can't be in the future"@),
                                ),
                            ),
                        ),
                    ),
                },
            ),
        ),
    )
}

/// An expense advance ready to be logged.
#[derive(Debug, Clone, PartialEq, Eq)]
pub struct ExpenseAdvance {
    pub branch_id: Option<Id>,
    pub purpose: String,
    pub given_on: Day,
}

/// Log cash handed over for a purchase: a log, never deducted.
pub fn log_expense_advance(f: ExpenseFacts, body: &NewExpenseAdvance) -> (r: Result<
    ExpenseAdvance,
    AppError,
>)
    ensures
        match expense_refused(f, *body) {
            Some(e) => r is Err && r->Err_0@ == e,
            None => {
                &&& r is Ok
                &&& expense_branch(f, body.branch_id) == Ok::<Option<Id>, ErrorView>(
                    (r->Ok_0).branch_id,
                )
                &&& (r->Ok_0).purpose@ == trimmed(body.purpose@)
                &&& (r->Ok_0).given_on == match body.given_on {
                    Some(d) => d,
                    None => f.today,
                }
            },
        },
{
    f.gate?;
    f.found?;
    f.right?;
    let branch_id: Option<Id> = match body.branch_id {
        Some(b) => {
            f.right_there?;
            Some(b)
        },
        None => f.fallback?,
    };
    if !same_text(body.via.as_str(), "safe") && !same_text(body.via.as_str(), "bank") {
        return Err(
            bad_request("via is safe or bank — a till pay-out is tagged on the till itself"),
        );
    }
    if body.amount_piastres <= 0 {
        return Err(bad_request("Amount must be positive"));
    }
    let purpose: String = trim(body.purpose.as_str());
    if purpose.as_str().is_empty() {
        return Err(bad_request("Say what it's for"));
    }
    let given_on: Day = match body.given_on {
        Some(d) => d,
        None => f.today,
    };
    if given_on > f.today {
        return Err(bad_request("The date can't be in the future"));
    }
    Ok(ExpenseAdvance { branch_id, purpose, given_on })
}

/// Only the owner approves an advance over the cap: whatever else holds, anyone
/// else who approves stays within it.
pub proof fn law_the_cap_holds_but_for_the_owner(f: ReviewFacts, body: ReviewAdvance)
    requires
        review_refused(f, body) is None,
        body.approve,
        !f.owner,
    ensures
        f.advances.owed_after(reviewed(f.pending->0, body).0, f.pending->0.amount_piastres)
            <= f.advances.cap,
{
}

/// The share a limit is judged on is never below what is owed: a limit of so
/// many percent is never passed by a fraction of one.
pub proof fn law_the_share_is_rounded_up(a: Advances, amount: i64, already_counted: i64)
    requires
        a.salary > 0,
    ensures
        a.percent_after(amount, already_counted) * a.salary >= a.owed_after(
            amount,
            already_counted,
        ) * 100,
{
    let n = a.owed_after(amount, already_counted) * 100 + a.salary - 1;
    let s = a.salary as int;
    vstd::arithmetic::div_mod::lemma_fundamental_div_mod(n, s);
    vstd::arithmetic::div_mod::lemma_mod_bound(n, s);
    assert(s * (n / s) == (n / s) * s) by (nonlinear_arith);
}

/// What is owed after a decision is what is owed but for the amount it stands
/// in for, and the amount decided; so an advance that is counted already is not
/// counted again, and one handed over comes on top.
pub proof fn law_an_advance_is_counted_once(a: Advances, amount: i64, counted: i64)
    ensures
        a.owed_after(amount, counted) + counted == a.outstanding + amount,
        a.owed_after(amount, amount) == a.outstanding,
        a.owed_after(amount, 0) == a.outstanding + amount,
{
}

/// The share a limit is judged on is the least whole percentage of the salary
/// that covers what is owed then; without a salary it is all of it. Of a pending
/// advance at its asked amount, that is the share of what is outstanding.
pub proof fn law_the_share_is_the_least_that_covers(a: Advances, amount: i64, counted: i64)
    ensures
        ({
            let share = a.percent_after(amount, counted);
            let owed = a.outstanding - counted + amount;
            &&& a.salary > 0 ==> (share - 1) * a.salary < owed * 100 <= share * a.salary
            &&& a.salary <= 0 ==> share == 100
        }),
        a.salary > 0 ==> (a.percent_after(amount, amount) - 1) * a.salary < a.outstanding * 100
            <= a.percent_after(amount, amount) * a.salary,
{
    let s = a.salary as int;
    if s > 0 {
        lemma_least_share((a.outstanding - counted + amount) * 100, s);
        lemma_least_share(a.outstanding * 100, s);
    }
}

proof fn lemma_least_share(owed: int, salary: int)
    requires
        salary > 0,
    ensures
        ((owed + salary - 1) / salary - 1) * salary < owed <= (owed + salary - 1) / salary * salary,
{
    let n = owed + salary - 1;
    let q = n / salary;
    vstd::arithmetic::div_mod::lemma_fundamental_div_mod(n, salary);
    vstd::arithmetic::div_mod::lemma_mod_bound(n, salary);
    assert((q - 1) * salary == salary * q - salary && q * salary == salary * q)
        by (nonlinear_arith);
}

/// Who decides a pending advance, and when: somebody else who may, for an
/// employee of the business, with a monthly part that holds; an approval also
/// keeps what is owed, the amount asked for taken out and the amount decided put
/// in, within the cap but for the owner, and the approver's own limit.
pub proof fn law_an_advance_is_decided_within_the_cap(f: ReviewFacts, body: ReviewAdvance)
    ensures
        review_refused(f, body) is None <==> {
            &&& f.gate is Ok
            &&& f.pending is Some
            &&& f.found is Ok
            &&& !f.own
            &&& f.right is Ok
            &&& f.monthly is Ok
            &&& body.approve ==> f.settle is Ok && (f.owner || ({
                let asked = f.pending->0.amount_piastres;
                let amount = if body.amount_piastres is Some {
                    body.amount_piastres->0
                } else {
                    asked
                };
                f.advances.outstanding - asked + amount <= f.advances.cap
            }))
        },
{
}

/// Approving a pending advance at its asked amount is never refused for the cap
/// where what is outstanding, which counts it already, is within it.
pub proof fn law_approving_as_asked_stays_within_the_cap(f: ReviewFacts, body: ReviewAdvance)
    requires
        f.gate is Ok,
        f.pending is Some,
        f.found is Ok,
        !f.own,
        f.right is Ok,
        f.monthly is Ok,
        f.settle is Ok,
        body.amount_piastres is None || body.amount_piastres == Some(
            f.pending->0.amount_piastres,
        ),
        f.advances.outstanding <= f.advances.cap,
    ensures
        review_refused(f, body) is None,
{
}

/// Handing an advance over keeps what is outstanding with it within the cap, but
/// for the owner; nobody hands one to themselves.
pub proof fn law_an_advance_is_handed_over_within_the_cap(f: RecordFacts, amount: i64)
    ensures
        record_refused(f, amount) is None <==> {
            &&& f.gate is Ok
            &&& f.found is Ok
            &&& !f.own
            &&& f.right is Ok
            &&& f.monthly is Ok
            &&& f.owner || f.advances.outstanding + amount <= f.advances.cap
            &&& f.settle is Ok
        },
{
}

/// What may still be asked for is just what fits: a positive amount handed over
/// stays within the cap where it is no more than that, and passes it otherwise.
pub proof fn law_the_room_left_is_what_fits(a: Advances, amount: i64)
    requires
        amount > 0,
    ensures
        amount <= a.room_left() <==> a.owed_after(amount, 0) <= a.cap,
        a.room_left() >= 0,
{
}

/// Going over the cap says how many whole pounds more there are, the advance
/// decided left out of what is owed.
pub proof fn law_the_refusal_says_what_is_left(a: Advances, counted: i64, pounds: int)
    requires
        pounds >= 0,
        pounds * 100 <= a.cap - (a.outstanding - counted) < (pounds + 1) * 100 || (pounds == 0
            && a.cap <= a.outstanding - counted),
    ensures
        a.over_cap(counted) == ErrorView::Conflict(
            "ADVANCE_OVER_CAP: that's over the advance cap — at most "@ + int_chars(pounds)
                + " EGP more; the owner can approve it."@,
        ),
{
}

/// The amount and the months decided are those of the decision where it names
/// them, else those asked for.
pub proof fn law_a_decision_may_change_the_terms(p: PendingAdvance, body: ReviewAdvance)
    ensures
        body.amount_piastres is Some ==> reviewed(p, body).0 == body.amount_piastres->0,
        body.amount_piastres is None ==> reviewed(p, body).0 == p.amount_piastres,
        body.installments is Some ==> reviewed(p, body).1 == body.installments->0,
        body.installments is None ==> reviewed(p, body).1 == p.installments,
{
}

/// Cash for a purchase is logged by who may log it there, from the safe or the
/// bank, for a positive amount with a purpose, and not ahead of time.
pub proof fn law_an_expense_is_logged_in_full(f: ExpenseFacts, body: NewExpenseAdvance)
    ensures
        expense_refused(f, body) is None <==> {
            &&& f.gate is Ok
            &&& f.found is Ok
            &&& f.right is Ok
            &&& body.branch_id is Some ==> f.right_there is Ok
            &&& body.branch_id is None ==> f.fallback is Ok
            &&& body.via@ == "safe"@ || body.via@ == "bank"@
            &&& body.amount_piastres > 0
            &&& trimmed(body.purpose@).len() > 0
            &&& body.given_on is Some ==> body.given_on->0 <= f.today
        },
        body.branch_id is Some && f.right_there is Ok ==> expense_branch(f, body.branch_id) == Ok::<
            Option<Id>,
            ErrorView,
        >(body.branch_id),
{
}

/// What a decision on an advance is refused for first: the right to decide any,
/// that it was decided, the person, one's own, the right for this person, the
/// monthly part, the cap, then the approver's limit.
pub proof fn law_how_a_decision_on_an_advance_is_refused(f: ReviewFacts, body: ReviewAdvance)
    ensures
        ({
            let asked = f.pending->0.amount_piastres;
            let amount = reviewed(f.pending->0, body).0;
            let owed = f.advances.outstanding - asked + amount;
            review_refused(f, body) == if f.gate is Err {
                Some(f.gate->Err_0@)
            } else if f.pending is None {
                Some(ErrorView::Conflict("This advance has already been decided"@))
            } else if f.found is Err {
                Some(f.found->Err_0@)
            } else if f.own {
                Some(ErrorView::Forbidden("Someone else has to decide your advance."@))
            } else if f.right is Err {
                Some(f.right->Err_0@)
            } else if f.monthly is Err {
                Some(f.monthly->Err_0@)
            } else if body.approve && !f.owner && owed > f.advances.cap {
                Some(f.advances.over_cap(asked))
            } else if body.approve && f.settle is Err {
                Some(f.settle->Err_0@)
            } else {
                None
            }
        }),
{
}

/// What handing over an advance is refused for first.
pub proof fn law_how_handing_over_an_advance_is_refused(f: RecordFacts, amount: i64)
    ensures
        ({
            record_refused(f, amount) == if f.gate is Err {
                Some(f.gate->Err_0@)
            } else if f.found is Err {
                Some(f.found->Err_0@)
            } else if f.own {
                Some(ErrorView::Forbidden("Someone else has to record your advance."@))
            } else if f.right is Err {
                Some(f.right->Err_0@)
            } else if f.monthly is Err {
                Some(f.monthly->Err_0@)
            } else if !f.owner && f.advances.outstanding + amount > f.advances.cap {
                Some(f.advances.over_cap(0))
            } else if f.settle is Err {
                Some(f.settle->Err_0@)
            } else {
                None
            }
        }),
{
}

/// What logging an expense is refused for first.
pub proof fn law_how_logging_an_expense_is_refused(f: ExpenseFacts, body: NewExpenseAdvance)
    ensures
        ({
            expense_refused(f, body) == if f.gate is Err {
                Some(f.gate->Err_0@)
            } else if f.found is Err {
                Some(f.found->Err_0@)
            } else if f.right is Err {
                Some(f.right->Err_0@)
            } else if body.branch_id is Some && f.right_there is Err {
                Some(f.right_there->Err_0@)
            } else if body.branch_id is None && f.fallback is Err {
                Some(f.fallback->Err_0@)
            } else if !(body.via@ == "safe"@ || body.via@ == "bank"@) {
                Some(
                    ErrorView::BadRequest("via is safe or bank — a till pay-out is tagged on the till itself"@),
                )
            } else if body.amount_piastres <= 0 {
                Some(ErrorView::BadRequest("Amount must be positive"@))
            } else if trimmed(body.purpose@).len() == 0 {
                Some(ErrorView::BadRequest("Say what it's for"@))
            } else if body.given_on is Some && body.given_on->0 > f.today {
                Some(ErrorView::BadRequest("The date can't be in the future"@))
            } else {
                None
            }
        }),
{
}

} // verus!
