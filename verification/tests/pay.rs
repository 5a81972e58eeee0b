use chrono::{Datelike, NaiveDate};
use dawam::calendar::Day;
use dawam::dawam::pay::advances::{
    advance_room, approve_advance_checks, log_expense_advance, record_advance, review_advance,
    Advances, ExpenseFacts, NewExpenseAdvance, PendingAdvance, RecordAdvance, RecordFacts,
    ReviewAdvance, ReviewFacts,
};
use dawam::dawam::pay::{
    create_adjustment, current, decide_adjustment, mark_paid, paid_once, period_in_force,
    period_name, period_window, running_window, stopped_once, AdjustmentFacts, DecidePay,
    LineFacts, MarkPaid, NewAdjustment, PayKind, StoredLine,
};
use dawam::dawam::presence::flags::Grant;
use dawam::decimal::Dec;
use dawam::dawam::reports::{
    advances, check, labour_cost, labour_of_day, labour_share, SalaryAdvanceRow,
};
use dawam::errors::{forbidden, AppError};
use dawam::MAX_INSTALLMENTS;

fn d(y: i32, m: u32, day: u32) -> Day {
    NaiveDate::from_ymd_opt(y, m, day).unwrap().num_days_from_ce()
}

#[test]
fn windows_follow_the_start_day() {
    assert_eq!(period_window(d(2026, 9, 22), 26), (d(2026, 8, 26), d(2026, 9, 25)));
    assert_eq!(period_window(d(2026, 9, 26), 26), (d(2026, 9, 26), d(2026, 10, 25)));
    assert_eq!(period_window(d(2026, 1, 3), 26), (d(2025, 12, 26), d(2026, 1, 25)));
    assert_eq!(period_window(d(2026, 2, 14), 1), (d(2026, 2, 1), d(2026, 2, 28)));
}

#[test]
fn the_installment_cap_is_shared_with_the_clients() {
    assert_eq!(MAX_INSTALLMENTS, 24);
}

#[test]
fn a_period_is_named_by_its_days() {
    assert_eq!(period_name(d(2026, 8, 26), d(2026, 9, 25)), "26 Aug – 25 Sep 2026");
}

fn line() -> NewAdjustment {
    NewAdjustment {
        kind: "deduction".into(),
        amount_piastres: Some(5000),
        percent_of_base: None,
        reason: " broken cup ".into(),
        effective_date: None,
        recurring: false,
    }
}

fn facts() -> AdjustmentFacts {
    AdjustmentFacts {
        bonuses: Ok(()),
        deductions: Ok(()),
        found: Ok(()),
        own: false,
        right: Ok(()),
        percent_piastres: 0,
        today: d(2026, 9, 22),
        month_open: Ok(()),
        grant: Ok(Grant::NeedsApproval),
    }
}

#[test]
fn a_line_is_written_within_a_managers_limit() {
    let l = create_adjustment(facts(), &line()).unwrap();
    assert_eq!((l.kind, l.value_piastres, l.approved), (PayKind::Deduction, 5000, false));
    assert_eq!((l.reason.as_str(), l.effective_date), ("broken cup", d(2026, 9, 22)));
    let allowed = AdjustmentFacts { grant: Ok(Grant::Allow), ..facts() };
    assert!(create_adjustment(allowed, &line()).unwrap().approved);
    assert!(create_adjustment(AdjustmentFacts { own: true, ..facts() }, &line()).is_err());
    assert!(create_adjustment(
        AdjustmentFacts { month_open: Err(forbidden("closed")), ..facts() },
        &line()
    )
    .is_err());
    assert!(create_adjustment(facts(), &NewAdjustment { kind: "gift".into(), ..line() }).is_err());
    assert!(create_adjustment(facts(), &NewAdjustment { reason: " ".into(), ..line() }).is_err());
    assert!(create_adjustment(facts(), &NewAdjustment { amount_piastres: Some(0), ..line() }).is_err());
    assert!(create_adjustment(facts(), &NewAdjustment { amount_piastres: None, ..line() }).is_err());
}

fn stored(kind: &str, status: &str) -> LineFacts {
    LineFacts {
        bonuses: Ok(()),
        deductions: Ok(()),
        line: Some(StoredLine { kind: kind.into(), status: status.into() }),
        found: Ok(()),
        right: Ok(()),
        month_open: Ok(()),
        settle: Ok(()),
    }
}

#[test]
fn a_pending_line_is_decided_once() {
    let yes = DecidePay { approve: true };
    let r = decide_adjustment("bonus", stored("bonus", "pending"), &yes).unwrap();
    assert_eq!((r.kind, r.status), (PayKind::Bonus, "approved"));
    let r = decide_adjustment("bonus", stored("bonus", "pending"), &DecidePay { approve: false });
    assert_eq!(r.unwrap().status, "rejected");
    assert!(decide_adjustment("bonus", stored("bonus", "approved"), &yes).is_err());
    assert!(decide_adjustment("bonus", LineFacts { line: None, ..stored("bonus", "pending") }, &yes)
        .is_err());
    assert!(stopped_once(1).is_ok());
    assert!(stopped_once(0).is_err());
    assert!(paid_once(true).is_ok());
    assert!(paid_once(false).is_err());
}

#[test]
fn the_running_period_is_shown() {
    let c = current("approved", &vec![true, false, true]);
    assert_eq!((c.preview, c.paid_count), (false, 2));
    let c = current("draft", &vec![true]);
    assert_eq!((c.preview, c.paid_count), (true, 0));
    assert!(mark_paid(Ok(()), &MarkPaid { method: "cash".into() }, &Some("generated".into())).is_ok());
    assert!(mark_paid(Ok(()), &MarkPaid { method: "gold".into() }, &Some("generated".into())).is_err());
    assert!(mark_paid(Ok(()), &MarkPaid { method: "cash".into() }, &Some("open".into())).is_err());
    assert!(mark_paid(Ok(()), &MarkPaid { method: "cash".into() }, &None).is_err());
    assert_eq!(running_window(d(2026, 2, 14), 0), (d(2026, 2, 1), d(2026, 2, 28)));
    assert_eq!(period_in_force(None, None, Some(3)).unwrap(), 3);
    assert!(matches!(period_in_force(None, None, None), Err(AppError::Conflict(_))));
}

fn room() -> Advances {
    Advances { cap: 100_000, outstanding: 40_000, salary: 200_000 }
}

#[test]
fn advances_stay_under_the_cap_but_for_the_owner() {
    assert_eq!(advance_room(&room()), 60_000);
    assert!(approve_advance_checks(&room(), 60_000, 0, false).is_ok());
    assert!(approve_advance_checks(&room(), 60_001, 0, false).is_err());
    assert!(approve_advance_checks(&room(), 60_001, 0, true).is_ok());
    let pending = ReviewFacts {
        gate: Ok(()),
        pending: Some(PendingAdvance { amount_piastres: 30_000, installments: 3 }),
        found: Ok(()),
        own: false,
        right: Ok(()),
        monthly: Ok(10_000),
        advances: room(),
        owner: false,
        settle: Ok(()),
    };
    let ask = ReviewAdvance { approve: true, amount_piastres: None, installments: None, note: None };
    let r = review_advance(pending, &ask).unwrap();
    assert_eq!((r.status, r.amount_piastres, r.installments), ("approved", 30_000, 3));
    let facts = |own: bool| RecordFacts {
        gate: Ok(()),
        found: Ok(()),
        own,
        right: Ok(()),
        monthly: Ok(500),
        advances: room(),
        owner: false,
        settle: Ok(()),
    };
    let new = RecordAdvance { amount_piastres: 1000, installments: Some(2), reason: None };
    assert!(record_advance(facts(false), &new).is_ok());
    assert!(record_advance(facts(true), &new).is_err());
    let long = RecordFacts { monthly: Err(forbidden("too many")), ..facts(false) };
    assert!(record_advance(long, &new).is_err());
}

#[test]
fn an_expense_advance_is_only_logged() {
    let facts = || ExpenseFacts {
        gate: Ok(()),
        found: Ok(()),
        right: Ok(()),
        right_there: Ok(()),
        fallback: Ok(Some(4)),
        today: d(2026, 9, 22),
    };
    let body = |amount: i64, purpose: &str| NewExpenseAdvance {
        amount_piastres: amount,
        purpose: purpose.into(),
        via: "safe".into(),
        given_on: None,
        branch_id: None,
    };
    let r = log_expense_advance(facts(), &body(100, " milk ")).unwrap();
    assert_eq!((r.branch_id, r.purpose.as_str(), r.given_on), (Some(4), "milk", d(2026, 9, 22)));
    assert!(log_expense_advance(facts(), &body(0, "milk")).is_err());
    assert!(log_expense_advance(facts(), &body(100, " ")).is_err());
}

#[test]
fn reports_add_up() {
    assert!(check(d(2026, 1, 1), d(2026, 12, 31)).is_ok());
    assert!(check(d(2026, 1, 1), d(2028, 12, 31)).is_err());
    assert_eq!(labour_share(50, 200).map(|s| s > 0), Some(true));
    assert_eq!(labour_share(50, 0), None);
    let row = |given: i64, left: i64, status: &str| SalaryAdvanceRow {
        amount_piastres: given,
        remaining_piastres: left,
        status: status.into(),
    };
    let t = advances(&vec![row(100, 40, "approved"), row(70, 70, "rejected")], &vec![5, 6]);
    assert_eq!(t.expense_given_piastres, 11);
    assert_eq!(t.salary_outstanding_piastres, 40);
}

#[test]
fn labour_is_priced_with_the_overtime_premium() {
    let dec = |mantissa: i128, scale: u32| Dec { mantissa, scale };
    let piastres = |c: Dec| labour_of_day(&vec![c]);
    // 480 worked and 60 of overtime at half as much again.
    let c = labour_cost(dec(48_000, 2), dec(6_000, 2), dec(150, 2));
    assert_eq!(piastres(c), 510);
    // A multiplier of one or less adds nothing.
    assert_eq!(piastres(labour_cost(dec(480, 0), dec(60, 0), dec(1, 0))), 480);
    assert_eq!(piastres(labour_cost(dec(480, 0), dec(60, 0), dec(5, 1))), 480);
    // A day adds up before it is rounded, halves to the even piastre.
    assert_eq!(labour_of_day(&vec![c, dec(5, 1)]), 510);
    assert_eq!(labour_of_day(&vec![c, dec(15, 1)]), 512);
    assert_eq!(labour_of_day(&Vec::new()), 0);
}
