use chrono::{Datelike, NaiveDate, TimeZone, Utc};
use dawam::attendance::derive::{ExcusedWindow, ShiftAdjustments};
use dawam::calendar::{local_moment, Day, Moment};
use dawam::dawam::holidays::{hijri_to_jdn, jdn_to_date};
use dawam::dawam::pay::{stop_adjustment, LineFacts, PeriodNow, StopAdjustment, StoredLine};
use dawam::dawam::presence::punches::{till_punched, Punch};
use dawam::dawam::roster::swaps::swap_decided_once;
use dawam::dawam::roster::views::overtime_cap_minutes;
use dawam::dawam::suggest::loading::branch_zone;
use dawam::decimal::{is_above, is_below, Dec};
use dawam::directory::{list_employees, EmployeeListQuery};
use dawam::errors::AppError;

const HOUR: u64 = 3_600_000_000_000;

fn d(y: i32, m: u32, day: u32) -> Day {
    NaiveDate::from_ymd_opt(y, m, day).unwrap().num_days_from_ce()
}

fn utc(y: i32, m: u32, day: u32, h: u32) -> Moment {
    Utc.with_ymd_and_hms(y, m, day, h, 0, 0).unwrap().timestamp_nanos_opt().unwrap() as Moment
}

#[test]
fn a_local_time_is_an_instant_of_its_zone() {
    // Cairo is two hours ahead in winter and three in summer.
    assert_eq!(local_moment("Africa/Cairo", d(2026, 1, 10), 9 * HOUR), Some(utc(2026, 1, 10, 7)));
    assert_eq!(local_moment("Africa/Cairo", d(2026, 7, 10), 9 * HOUR), Some(utc(2026, 7, 10, 6)));
    assert_eq!(local_moment("UTC", d(2026, 7, 10), 9 * HOUR), Some(utc(2026, 7, 10, 9)));
    // The clock skips the hour after midnight on the last Friday of April.
    assert_eq!(local_moment("Africa/Cairo", d(2026, 4, 24), HOUR / 2), None);
    assert_eq!(local_moment("Mars/Base", d(2026, 7, 10), 9 * HOUR), None);
}

#[test]
fn an_unknown_zone_falls_back_to_cairo() {
    assert_eq!(branch_zone("Asia/Riyadh".into()), "Asia/Riyadh");
    assert_eq!(branch_zone("Mars/Base".into()), "Africa/Cairo");
}

#[test]
fn overtime_hours_round_to_the_even_minute() {
    let dec = |mantissa: i128, scale: u32| Dec { mantissa, scale };
    assert_eq!(overtime_cap_minutes(dec(2, 0)), 120);
    // 0.375 h is 22.5 minutes, 0.025 h one and a half.
    assert_eq!(overtime_cap_minutes(dec(375, 3)), 22);
    assert_eq!(overtime_cap_minutes(dec(25, 3)), 2);
    assert!(is_below(dec(19, 1), 2) && !is_below(dec(20, 1), 2) && is_above(dec(21, 1), 2));
}

#[test]
fn a_search_is_trimmed_and_lowered() {
    let q = |search: Option<&str>| EmployeeListQuery {
        employment_status: None,
        search: search.map(Into::into),
        kind: None,
    };
    assert_eq!(list_employees(&q(Some("  AmAL "))).unwrap().as_deref(), Some("%amal%"));
    assert_eq!(list_employees(&q(None)).unwrap(), None);
    let odd = EmployeeListQuery { kind: Some("robot".into()), ..q(None) };
    assert!(matches!(list_employees(&odd), Err(AppError::BadRequest(_))));
}

#[test]
fn hijri_days_are_julian_days() {
    assert_eq!(hijri_to_jdn(1, 1, 1), 1_948_440);
    assert_eq!(jdn_to_date(2_440_588), Some(d(1970, 1, 1)));
    assert_eq!(jdn_to_date(i64::MAX), None);
}

#[test]
fn unpaid_time_off_is_the_part_inside_the_shift() {
    let at = |minute: Moment| minute * 60_000_000_000;
    let adj = ShiftAdjustments {
        excused_until: None,
        excused_from: None,
        early_departure: Some((at(960), false)),
        excuses: vec![
            ExcusedWindow { from: at(600), to: at(630), paid: false },
            ExcusedWindow { from: at(700), to: at(730), paid: true },
        ],
        on_leave: false,
        leave_minutes: 0,
        leave_paid: false,
    };
    assert_eq!(adj.excused_minutes(at(540), at(960), true), 30);
    // Thirty unpaid minutes, and the last hour of the shift.
    assert_eq!(adj.unpaid_excused_minutes(Some(at(540)), Some(at(960)), Some(at(1020))), 90);
    assert_eq!(adj.unpaid_excused_minutes(None, Some(at(960)), Some(at(1020))), 0);
}

#[test]
fn a_recurring_line_is_stopped_with_a_reason() {
    let facts = || LineFacts {
        bonuses: Ok(()),
        deductions: Ok(()),
        line: Some(StoredLine { kind: "bonus".into(), status: "approved".into() }),
        found: Ok(()),
        right: Ok(()),
        month_open: Ok(()),
        settle: Ok(()),
    };
    let now = PeriodNow { closed: false, start_date: d(2026, 9, 1), end_date: d(2026, 9, 30) };
    let why = |t: &str| StopAdjustment { reason: Some(t.into()) };
    let (last, reason) = stop_adjustment("bonus", facts(), &why(" done "), &now).unwrap();
    assert_eq!((last, reason.as_str()), (d(2026, 8, 31), "done"));
    assert!(stop_adjustment("bonus", facts(), &why("  "), &now).is_err());
    assert!(stop_adjustment("deduction", facts(), &why("x"), &now).is_err());
}

#[test]
fn what_happened_once_is_said_once() {
    assert_eq!(till_punched(Punch::In), ("in", "staff.n_till_punch_in"));
    assert_eq!(till_punched(Punch::Out), ("out", "staff.n_till_punch_out"));
    assert!(swap_decided_once(true).is_ok());
    assert!(swap_decided_once(false).is_err());
}
