use chrono::{Datelike, NaiveDate};
use dawam::calendar::{ClockTime, Day, Id, EPOCH_DAY, NANOS_PER_DAY, NANOS_PER_HOUR};
use dawam::dawam::engine::{breaks, is_late, Limits, Span};
use dawam::dawam::roster::{DayTime, RosterPerson, WorkShiftBrief};
use dawam::dawam::suggest::fairness::{
    any_frozen, branch_fairness, gap_points, month_start, FairnessRow,
};
use dawam::dawam::suggest::offers::pattern::{set_pattern_day, ScheduleRow};
use dawam::dawam::suggest::offers::{
    cached_suggestions, decide_suggestion, learning_frozen, settle_accepted, suggestion_date,
    usable, Acceptance, DecideFacts, DecideSuggestion,
};
use dawam::dawam::suggest::search::Suggestion;
use dawam::dawam::suggest::{Need, PatternNeed, Placed, Problem, Reliability, Turnout};
use dawam::days::changes::ResolvedShift;
use dawam::days::dow;
use uuid::Uuid;

fn t(h: u64) -> ClockTime {
    h * 3_600_000_000_000
}

fn new_id() -> Id {
    Uuid::new_v4().as_u128()
}

fn person(name: &str, gender: Option<&str>, pref: Option<&str>) -> RosterPerson {
    RosterPerson {
        employee_id: new_id(),
        name: name.into(),
        gender: gender.map(Into::into),
        pref_time: pref.map(Into::into),
        cant_work_days: Vec::new(),
        department_id: None,
        prefs_set_by: "employee".into(),
    }
}

fn block(name: &str, start: ClockTime, end: ClockTime, days: &[i16]) -> WorkShiftBrief {
    WorkShiftBrief {
        id: new_id(),
        name: name.into(),
        branch_id: None,
        start_time: start,
        end_time: end,
        crosses_midnight: end <= start,
        grace_minutes: 15,
        checkin_window_minutes: 120,
        valid_days: days.to_vec(),
        day_times: Vec::new(),
    }
}

/// A Saturday.
fn week() -> Day {
    NaiveDate::from_ymd_opt(2026, 10, 3).unwrap().num_days_from_ce()
}

fn problem(staff: Vec<RosterPerson>, shifts: Vec<WorkShiftBrief>) -> Problem {
    let night = (t(22), t(6));
    let late = shifts
        .iter()
        .map(|w| is_late(w.start_time, w.end_time, w.crosses_midnight, night))
        .collect();
    let n = staff.len();
    let none = Turnout { shifts: 0, absent: 0, late: 0 };
    Problem {
        week: week(),
        zone: "UTC".into(),
        staff,
        shifts,
        late,
        limits: Limits { day: 8 * 60, week: 48 * 60, presence: 10 * 60, rest: 12 * 60 },
        gender_mode: "soft".into(),
        gender_default: 100_000_000,
        spans: Vec::new(),
        by_day: Vec::new(),
        pattern_need: Vec::new(),
        need: Vec::new(),
        leave: Vec::new(),
        learned: vec![None; n],
        frozen: false,
        reliability: vec![Reliability { day: none, night: none }; n],
        late_history: vec![0; n],
        usual: Vec::new(),
        decided: Vec::new(),
    }
}

fn span(p: &Problem, date: Day, shift: usize) -> Span {
    p.slot(date, shift).unwrap().span
}

fn need(p: &mut Problem, date: Day, shift: usize) {
    p.pattern_need.push(PatternNeed { date, shift, staff: 1 });
}

fn all() -> Vec<i16> {
    (0..7).collect()
}

#[test]
fn a_block_is_offered_only_on_its_days_at_that_days_times() {
    let mut brunch = block("Brunch", t(10), t(14), &[6, 0, 1, 2, 3, 4]);
    brunch.day_times.push(DayTime { day_of_week: 0, start_time: t(11), end_time: t(15) });
    let staff = vec![person("Amal", None, None)];
    let mut p = problem(staff, vec![brunch, block("Day", t(8), t(12), &all())]);
    let fri = week() + 6;
    let sun = week() + 1;
    need(&mut p, fri, 0);
    need(&mut p, sun, 0);
    let out = p.solve();
    assert!(out.iter().all(|s| s.date != fri), "not a Friday shift");
    let on_sun = out.iter().find(|s| s.date == sun).unwrap();
    assert_eq!((on_sun.start_time, on_sun.end_time), (Some(t(11)), Some(t(15))));
}

#[test]
fn a_second_shift_that_day_needs_a_two_hour_gap() {
    let staff = vec![person("Amal", None, None)];
    let mut p = problem(
        staff,
        vec![
            block("Morning", t(8), t(11), &all()),
            block("Lunch", t(12), t(15), &all()),
            block("Evening", t(13), t(16), &all()),
        ],
    );
    let d = week() + 2;
    let u = p.staff[0].employee_id;
    let morning = span(&p, d, 0);
    p.spans.push((u, morning));
    p.by_day.push(Placed { date: d, shift: 0, person: u });
    need(&mut p, d, 1);
    need(&mut p, d, 2);
    let out = p.solve();
    // Lunch starts an hour after the morning ends: too close. Evening,
    // two hours after: a split day.
    assert!(!out.iter().any(|s| s.work_shift_id == p.shifts[1].id));
    let ev = out.iter().find(|s| s.work_shift_id == p.shifts[2].id).unwrap();
    assert_eq!(ev.employee_id, u);
    let date = NaiveDate::from_num_days_from_ce_opt(d).unwrap();
    assert_eq!(
        ev.id,
        format!("add|{date}|{}|{}", Uuid::from_u128(p.shifts[2].id), Uuid::from_u128(u))
    );
}

#[test]
fn the_gender_default_decides_only_when_nothing_else_does_and_says_so() {
    let d = week() + 3;
    let staff = vec![person("Amal", Some("f"), None), person("Bassem", Some("m"), None)];
    let mut p = problem(staff, vec![block("Late", t(16), t(23), &all())]);
    need(&mut p, d, 0);
    let out = p.solve();
    assert_eq!(out.len(), 1);
    assert_eq!(out[0].employee_name, "Bassem");
    assert!(out[0].by_default, "the default decided it");
    assert!(out[0].confidence <= 40);

    // A stated preference outweighs it, and then it decided nothing.
    let staff = vec![person("Amal", Some("f"), Some("evening")), person("Bassem", Some("m"), None)];
    let mut p = problem(staff, vec![block("Late", t(16), t(23), &all())]);
    need(&mut p, d, 0);
    let out = p.solve();
    assert_eq!(out[0].employee_name, "Amal");
    assert!(!out[0].by_default);

    // Off: no default at all.
    let staff = vec![person("Amal", Some("f"), None), person("Bassem", Some("m"), None)];
    let mut p = problem(staff, vec![block("Late", t(16), t(23), &all())]);
    p.gender_mode = "off".into();
    need(&mut p, d, 0);
    let out = p.solve();
    assert!(!out[0].by_default);
    assert_eq!(out[0].employee_name, "Amal", "a tie goes to the staff order");
}

#[test]
fn a_labour_limit_is_never_broken_and_leave_and_cant_work_days_are_respected() {
    let d = week() + 3;
    let tired = person("Amal", None, None);
    let away = person("Bassem", None, None);
    let mut busy = person("Cyrine", None, None);
    busy.cant_work_days = vec![dow(d)];
    let mut p = problem(vec![tired, away, busy], vec![block("Day", t(9), t(17), &all())]);
    let (a, b) = (p.staff[0].employee_id, p.staff[1].employee_id);
    // Amal worked till 23:00 the night before: 12 h rest not met.
    let before = d - 1;
    let midnight = (before - EPOCH_DAY) as i128 * NANOS_PER_DAY;
    let late_before = Span {
        date: before,
        start: midnight + 15 * NANOS_PER_HOUR,
        end: midnight + 23 * NANOS_PER_HOUR,
    };
    p.spans.push((a, late_before));
    p.leave.push((b, d));
    need(&mut p, d, 0);
    let out = p.solve();
    assert!(out.is_empty(), "nobody may take it: {out:?}");
}

fn busy_week() -> Problem {
    let staff: Vec<RosterPerson> = (0..6)
        .map(|i| person(&format!("P{i}"), Some(if i % 2 == 0 { "f" } else { "m" }), None))
        .collect();
    let mut p = problem(
        staff,
        vec![
            block("Morning", t(8), t(14), &all()),
            block("Evening", t(15), t(21), &all()),
            block("Night", t(22), t(6), &all()),
        ],
    );
    for i in 0..7 {
        for w in 0..3 {
            need(&mut p, week() + i, w);
        }
    }
    p
}

fn spans_by_person(p: &Problem, out: &[Suggestion]) -> Vec<(Id, Vec<Span>)> {
    let mut spans: Vec<(Id, Vec<Span>)> = Vec::new();
    for s in out {
        let w = p.shifts.iter().position(|w| w.id == s.work_shift_id).unwrap();
        let sp = span(p, s.date, w);
        if !spans.iter().any(|(u, _)| *u == s.employee_id) {
            spans.push((s.employee_id, Vec::new()));
        }
        let mine = &mut spans.iter_mut().find(|(u, _)| *u == s.employee_id).unwrap().1;
        assert!(
            mine.iter().all(|x| !(x.start < sp.end && sp.start < x.end)),
            "overlap for {}",
            s.employee_name
        );
        mine.push(sp);
    }
    spans
}

#[test]
fn the_solve_is_deterministic_and_never_double_books() {
    let p = busy_week();
    let a = p.solve();
    let b = p.solve();
    assert_eq!(a, b);
    assert!(!a.is_empty());
    // Nobody twice on one slot, and no one person's two shifts overlap.
    for (u, list) in &spans_by_person(&p, &a) {
        assert!(breaks(*u, list, &p.limits).is_empty(), "{list:?}");
    }
}

#[test]
fn the_search_goes_as_far_as_it_is_let() {
    let p = busy_week();
    let greedy = p.solve_for(0);
    let done = p.solve_for(1_000_000);
    assert_eq!(greedy.len(), done.len());
    assert_eq!(p.solve_for(1_000_000), done);
    for (u, list) in &spans_by_person(&p, &done) {
        assert!(breaks(*u, list, &p.limits).is_empty(), "{list:?}");
    }
}

fn row(gender: Option<&str>, people: i64, willing: i64, nights: i64) -> FairnessRow {
    FairnessRow {
        gender: gender.map(Into::into),
        people,
        willing,
        shifts: 10,
        night_shifts: nights,
        suggested: 0,
        accepted: 0,
    }
}

#[test]
fn a_wide_gap_between_nights_and_wishes_is_flagged() {
    let fair = vec![row(Some("m"), 5, 1, 5), row(Some("f"), 5, 1, 5)];
    assert_eq!(gap_points(&fair), 0);
    // 90% of the nights, half of the wishes.
    let skewed = vec![row(Some("m"), 5, 1, 9), row(Some("f"), 5, 1, 1), row(None, 9, 0, 0)];
    assert_eq!(gap_points(&skewed), 40);
    // Nobody said: against headcount.
    assert_eq!(gap_points(&vec![row(Some("m"), 3, 0, 1), row(Some("f"), 1, 0, 0)]), 25);
    assert_eq!(gap_points(&vec![row(Some("m"), 3, 1, 0)]), 0);
    let state = learning_frozen(1, 5, Some(false));
    assert!(state.frozen && state.changed);
    assert_eq!(state.notice, Some("staff.n_learning_frozen"));
    let b = branch_fairness(&skewed, &state);
    assert!(b.flagged && b.learning_frozen);
    assert_eq!(b.notice, "staff.n_fairness_flagged");
    assert!(!branch_fairness(&fair, &state).flagged);
    assert!(any_frozen(&vec![b]));
    assert_eq!(month_start(week()), week() - 2);
}

#[test]
fn an_accepted_pattern_splits_the_every_day_row() {
    let every = ScheduleRow {
        id: Some(1),
        work_shift_id: 7,
        day_of_week: None,
        effective_from: week() - 100,
        effective_to: None,
    };
    let out = set_pattern_day(vec![every], week(), Some(8));
    // The row ends the day before; six weekdays keep it, Saturday has the new.
    assert_eq!(out.len(), 8);
    assert_eq!(out[0].effective_to, Some(week() - 1));
    let saturday: Vec<&ScheduleRow> = out.iter().filter(|r| r.day_of_week == Some(6)).collect();
    assert_eq!(saturday.len(), 1);
    assert_eq!((saturday[0].work_shift_id, saturday[0].effective_from), (8, week()));
    assert!(out[1..7].iter().all(|r| r.work_shift_id == 7 && r.effective_from == week()));
    let off = set_pattern_day(vec![every], week(), None);
    assert_eq!(off.len(), 7);
}

#[test]
fn a_decided_suggestion_is_not_shown_again() {
    let p = busy_week();
    let all = p.solve_for(0);
    let first = all[0].id.clone();
    assert_eq!(suggestion_date(&first), Some(all[0].date));
    assert_eq!(suggestion_date("nonsense"), None);
    let n = all.len();
    let shown = cached_suggestions(all, &vec![first.clone()]);
    assert_eq!(shown.len(), n - 1);
    assert!(shown.iter().all(|s| s.id != first));
    assert!(usable(false, 0, 1_000_000_000));
    let mut q = busy_week();
    q.decided = vec![first.clone()];
    assert!(q.solve_for(0).iter().all(|s| s.id != first));
}

#[test]
fn an_hour_that_needs_people_gets_them() {
    let staff = vec![person("Amal", None, None), person("Bassem", None, None)];
    let mut p = problem(staff, vec![block("Day", t(9), t(17), &all())]);
    p.need.push(Need { date: week(), hour: 12, department: None, staff: 2 });
    let out = p.solve();
    assert_eq!(out.len(), 2);
    assert!(out.iter().all(|s| s.date == week() && s.reason_key == "staff.sg_coverage"));
}

#[test]
fn somebody_on_a_day_they_cannot_work_is_moved_off() {
    let mut busy = person("Amal", None, None);
    busy.cant_work_days = vec![dow(week())];
    let mut p = problem(vec![busy, person("Bassem", None, None)], vec![block("Day", t(9), t(17), &all())]);
    let u = p.staff[0].employee_id;
    let day = span(&p, week(), 0);
    p.spans.push((u, day));
    p.by_day.push(Placed { date: week(), shift: 0, person: u });
    let out = p.solve();
    assert_eq!(out.len(), 1);
    assert_eq!((out[0].from_employee_id, out[0].employee_name.as_str()), (Some(u), "Bassem"));
    assert_eq!(out[0].reason_key, "staff.sg_cant_work");
}

#[test]
fn a_departments_hour_is_met_by_its_people_alone() {
    let (kitchen, counter) = (new_id(), new_id());
    let mut amal = person("Amal", None, None);
    amal.department_id = Some(kitchen);
    let badr = person("Badr", None, Some("morning"));
    let mut p = problem(vec![amal, badr], vec![block("Day", t(8), t(12), &all())]);
    p.gender_mode = "off".into();
    p.need.push(Need { date: week() + 2, hour: 9, department: Some(kitchen), staff: 1 });
    let out = p.solve();
    assert_eq!(out.len(), 1);
    assert_eq!(out[0].employee_name, "Amal");
    p.need[0].department = Some(counter);
    assert!(p.solve().is_empty());
    p.need[0].department = None;
    assert_eq!(p.solve()[0].employee_name, "Badr");
}

fn shown(id: &str, shift: Id) -> Suggestion {
    Suggestion {
        id: id.into(),
        date: week(),
        work_shift_id: shift,
        shift_name: "Day".into(),
        employee_id: 3,
        employee_name: "Amal".into(),
        from_employee_id: None,
        from_employee_name: None,
        reason_key: "suggest.gap",
        reason_args: Vec::new(),
        confidence: 60,
        by_default: false,
        start_time: None,
        end_time: None,
    }
}

#[test]
fn accepting_changes_the_pattern_or_the_date_alone() {
    let list = vec![
        shown("pattern|2026-10-03|0|3", 0),
        shown("pattern|2026-10-03|7|3", 7),
        shown("2026|2026-10-03|7|3", 7),
    ];
    let facts = || DecideFacts { gate: Ok(()), right: Ok(()), to: Ok(()), from: Ok(()) };
    let decide = |id: &str, accept: bool| {
        decide_suggestion(facts(), &DecideSuggestion { id: id.into(), accept }, &list)
    };
    let d = decide("pattern|2026-10-03|0|3", true).unwrap();
    assert_eq!((d.at, d.change, d.taught), (0, Acceptance::Pattern(None), None));
    let d = decide("pattern|2026-10-03|7|3", true).unwrap();
    assert_eq!((d.at, d.change, d.taught), (1, Acceptance::Pattern(Some(7)), None));
    let d = decide("2026|2026-10-03|7|3", true).unwrap();
    assert_eq!((d.at, d.change, d.taught), (2, Acceptance::OneDate(7), Some(7)));
    let d = decide("2026|2026-10-03|7|3", false).unwrap();
    assert_eq!((d.change, d.taught), (Acceptance::Rejected, Some(7)));
    assert!(decide("crafted|2026-10-03|7|3", true).is_err());
    assert!(decide("crafted", true).is_err());
    // The two weeks on are checked for the pattern, the date alone otherwise.
    let on = |d: Day, from: i128, to: i128| ResolvedShift {
        employee_id: 3,
        on_date: d,
        work_shift_id: 7,
        name: "Day".into(),
        scheduled_start_at: from,
        scheduled_end_at: to,
    };
    let later = [on(week() + 7, 0, 20), on(week() + 7, 10, 30)];
    assert!(settle_accepted(Acceptance::Pattern(Some(7)), week(), &later).is_err());
    assert!(settle_accepted(Acceptance::OneDate(7), week(), &later).is_ok());
    let same = [on(week(), 0, 20), on(week(), 10, 30)];
    assert!(settle_accepted(Acceptance::OneDate(7), week(), &same).is_err());
    assert!(settle_accepted(Acceptance::Rejected, week(), &same).is_ok());
}

#[test]
fn large_counts_are_compared_exactly() {
    let row = |gender: &str, willing: i64, night_shifts: i64| FairnessRow {
        gender: Some(gender.into()),
        people: 1,
        willing,
        shifts: 0,
        night_shifts,
        suggested: 0,
        accepted: 0,
    };
    let big = i64::MAX / 4;
    assert_eq!(gap_points(&[row("f", big, 3 * big), row("m", big, big)]), 25);
    assert_eq!(gap_points(&[row("f", 1, 1), row("m", 1, 2)]), 17);
}
