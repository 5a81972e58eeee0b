use chrono::{Datelike, NaiveDate};
use dawam::calendar::{ClockTime, Day, Moment, EPOCH_DAY, NANOS_PER_DAY, NANOS_PER_HOUR};
use dawam::dawam::engine::learning::{classify, learn, lessons, EventRow, Fit, Signal};
use dawam::dawam::engine::{
    band_hours, breaks, fits, frozen, is_late, pos_need, shift_hours, LimitHours, Limits, Span,
};
use dawam::dawam::suggest::{Score, POINT};
use dawam::decimal::Dec;

fn t(h: u64, m: u64) -> ClockTime {
    (h * 60 + m) * 60_000_000_000
}

#[test]
fn late_follows_the_night_window() {
    let night = (t(22, 0), t(6, 0));
    assert!(!is_late(t(9, 0), t(17, 0), false, night));
    assert!(is_late(t(14, 0), t(23, 0), false, night));
    assert!(is_late(t(5, 0), t(13, 0), false, night));
    assert!(is_late(t(16, 0), t(21, 0), false, night));
    assert!(is_late(t(6, 30), t(15, 0), false, (t(19, 0), t(7, 0))));
    assert!(!is_late(t(8, 0), t(15, 0), false, (t(22, 0), t(6, 0))));
}

#[test]
fn hours_and_needs() {
    assert_eq!(shift_hours(t(22, 0), t(6, 0), true), 22..30);
    assert_eq!(shift_hours(t(10, 30), t(14, 0), false), 10..14);
    assert_eq!(band_hours(t(12, 0), t(15, 0)), 12..15);
    assert_eq!(pos_need(0, 1, 12), 0);
    assert_eq!(pos_need(1, 1, 12), 1);
    assert_eq!(pos_need(25, 1, 12), 3);
}

#[test]
fn orders_are_spread_over_the_weeks() {
    // 100 orders over four weeks are 25 in one.
    assert_eq!(pos_need(100, 4, 12), 3);
    assert_eq!(pos_need(96, 4, 12), 2);
    assert_eq!(pos_need(97, 4, 12), 3);
}

fn day(d: u32) -> Day {
    NaiveDate::from_ymd_opt(2026, 9, d).unwrap().num_days_from_ce()
}

fn at(d: u32, h: i128) -> Moment {
    (day(d) - EPOCH_DAY) as i128 * NANOS_PER_DAY + h * NANOS_PER_HOUR
}

fn limits() -> Limits {
    Limits { day: 480, week: 48 * 60, presence: 600, rest: 720 }
}

#[test]
fn limits_warn_on_each_break() {
    let u = 0;
    let l = limits();
    // Split day 08–12 + 18–23: 9 h worked, 15 h present.
    let split = [
        Span { date: day(19), start: at(19, 8), end: at(19, 12) },
        Span { date: day(19), start: at(19, 18), end: at(19, 23) },
    ];
    let kinds: Vec<String> =
        breaks(u, &split, &l).into_iter().map(|b| b.kind.as_str().to_string()).collect();
    assert_eq!(kinds, ["day_hours", "presence"]);
    // 23:00 → 07:00 next day is 8 h of rest.
    let short = [
        Span { date: day(19), start: at(19, 15), end: at(19, 23) },
        Span { date: day(20), start: at(20, 7), end: at(20, 15) },
    ];
    assert_eq!(breaks(u, &short, &l)[0].kind.as_str(), "rest");
    assert!(!fits(&short[..1], short[1], &l));
    let fine = Span { date: day(20), start: at(20, 12), end: at(20, 20) };
    assert!(fits(&short[..1], fine, &l));
    // Seven days in a Saturday week.
    let seven: Vec<Span> = (19..26)
        .map(|d| Span { date: day(d), start: at(d, 9), end: at(d, 13) })
        .collect();
    assert!(breaks(u, &seven, &l).iter().any(|b| b.kind.as_str() == "weekly_rest"));
}

#[test]
fn a_warning_carries_the_figures_it_is_about() {
    let short = [
        Span { date: day(20), start: at(20, 7), end: at(20, 15) },
        Span { date: day(19), start: at(19, 15), end: at(19, 23) },
    ];
    let out = breaks(9, &short, &limits());
    assert_eq!(out.len(), 1);
    assert_eq!(
        (out[0].employee_id, out[0].date, out[0].minutes, out[0].limit_minutes),
        (9, day(20), 480, 720)
    );
}

#[test]
fn a_week_of_long_days_breaks_its_hours() {
    let week: Vec<Span> = (19..25)
        .map(|d| Span { date: day(d), start: at(d, 9), end: at(d, 18) })
        .collect();
    let out = breaks(1, &week, &limits());
    let hours = out.iter().find(|b| b.kind.as_str() == "week_hours").unwrap();
    assert_eq!((hours.date, hours.minutes, hours.limit_minutes), (day(19), 54 * 60, 48 * 60));
    assert!(!out.iter().any(|b| b.kind.as_str() == "weekly_rest"));
}

#[test]
fn taking_a_shift_off_a_roster_breaks_nothing_new() {
    let all: Vec<Span> = vec![
        Span { date: day(19), start: at(19, 8), end: at(19, 11) },
        Span { date: day(19), start: at(19, 13), end: at(19, 16) },
        Span { date: day(20), start: at(20, 8), end: at(20, 16) },
    ];
    assert!(breaks(1, &all, &limits()).is_empty());
    for i in 0..all.len() {
        let mut less = all.clone();
        less.remove(i);
        assert!(breaks(1, &less, &limits()).is_empty());
    }
}

#[test]
fn limits_are_kept_in_whole_minutes() {
    let hours = LimitHours {
        limit_day_hours: Dec { mantissa: 85, scale: 1 },
        limit_week_hours: Dec { mantissa: 48, scale: 0 },
        limit_presence_hours: Dec { mantissa: 1075, scale: 2 },
        limit_rest_hours: Dec { mantissa: 12, scale: 0 },
    };
    let l = Limits::of(&hours);
    assert_eq!((l.day, l.week, l.presence, l.rest), (510, 2880, 645, 720));
}

/// 8-week half-life.
fn decay(age_days: f64) -> f64 {
    0.5f64.powf(age_days.max(0.0) / 56.0)
}

fn billionths(x: f64) -> Score {
    (x * 1e9).round() as Score
}

fn fit_of(all: &[(u128, Fit)], u: u128) -> Fit {
    all.iter().find(|(id, _)| *id == u).unwrap().1
}

#[test]
fn learning_decays_and_freezes() {
    assert!((decay(56.0) - 0.5).abs() < 1e-9);
    let u = 1u128;
    let s = |value: f64, age_days: f64, manager: bool| Signal {
        employee_id: u,
        late: true,
        value: billionths(value),
        weight: billionths(decay(age_days)),
        manager,
    };
    let fit = learn(&[
        s(1.0, 0.0, false),
        s(1.0, 7.0, false),
        s(1.0, 14.0, false),
        s(-1.0, 0.0, true),
    ]);
    let f = fit_of(&fit, u);
    assert_eq!(f.events(true), 4);
    assert!(f.willing_late());
    assert!(f.score(true) > 0);
    assert_eq!(f.score(false), 0);
    assert!(frozen(1, 5));
    assert!(!frozen(2, 5));
    assert!(!frozen(0, 4));
}

#[test]
fn a_fit_is_shrunk_and_kept_apart_per_side() {
    let row = |value: Score, manager: bool, shift: u128| EventRow {
        employee_id: 5,
        work_shift_id: shift,
        value,
        weight: POINT,
        manager,
    };
    let rows = vec![row(POINT, true, 10), row(-POINT, false, 10), row(POINT, false, 11), row(POINT, true, 12)];
    // Block 12 is unknown: its event does not count.
    let signals = classify(&rows, &vec![(10, false), (11, true)]);
    assert_eq!(signals.len(), 3);
    let all = learn(&signals);
    assert_eq!(all.len(), 1);
    let f = fit_of(&all, 5);
    // Day: +1/2 from the managers, −1/2 of their own. Late: +1/2 of their own.
    assert_eq!((f.score(false), f.score(true)), (0, POINT / 4));
    assert_eq!((f.events(false), f.events(true)), (2, 1));
    assert!(!f.willing_late());
    let known = f.learned();
    assert_eq!((known.day_events, known.late_events, known.late_fit), (2, 1, POINT / 4));
    assert_eq!(lessons(&Vec::new(), &all).len(), 0);
}

#[test]
fn the_order_of_the_shifts_changes_no_warning() {
    let day = NaiveDate::from_ymd_opt(2026, 10, 3).unwrap().num_days_from_ce();
    let at = |d: Day, h: i128| {
        (d - EPOCH_DAY) as Moment * NANOS_PER_DAY as Moment + h * NANOS_PER_HOUR as Moment
    };
    let s = |d: Day, from: i128, to: i128| Span { date: d, start: at(d, from), end: at(d, to) };
    let l = Limits { day: 480, week: 2880, presence: 600, rest: 720 };
    let one = [s(day, 8, 18), s(day + 1, 2, 11), s(day + 2, 9, 12), s(day + 2, 14, 22)];
    let other = [one[2], one[0], one[3], one[1]];
    let told = |list: &[Span]| {
        breaks(1, list, &l).iter().map(|w| (w.date, w.kind.as_str(), w.minutes)).collect::<Vec<_>>()
    };
    assert!(!told(&one).is_empty());
    assert_eq!(told(&one), told(&other));
}
