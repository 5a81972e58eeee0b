use chrono::{Datelike, NaiveDate};
use dawam::calendar::Day;
use dawam::dawam::holidays::{
    decide_holiday, egypt_holidays, forgiven, goes_with_it, hijri_to_gregorian, merge,
    suggested_between, CarriedLine, Feast, HolidayAct, HolidayDecision, HolidayFacts, HolidayView,
    MarkedDay,
};
use dawam::errors::AppError;

fn d(y: i32, m: u32, day: u32) -> Day {
    NaiveDate::from_ymd_opt(y, m, day).unwrap().num_days_from_ce()
}

const ISLAMIC: [&str; 4] =
    ["Eid al-Fitr", "Eid al-Adha", "Islamic New Year", "Prophet's Birthday"];

#[test]
fn the_arithmetic_calendar_matches_known_dates() {
    // 1 Shawwal 1447 and 10 Dhu al-Hijjah 1447 (expected 2026 dates).
    assert_eq!(hijri_to_gregorian(1447, 10, 1), Some(d(2026, 3, 20)));
    let adha = hijri_to_gregorian(1447, 12, 10).unwrap();
    assert!((adha - d(2026, 5, 27)).abs() <= 1, "{adha}");
    // 1 Muharram 1 = 16 July 622 (Julian) = 19 July 622 (proleptic Gregorian).
    assert_eq!(hijri_to_gregorian(1, 1, 1), Some(d(622, 7, 19)));
}

#[test]
fn the_published_dates_win_where_known() {
    let y2026 = egypt_holidays(2026);
    for (m, day, name) in [
        (3, 20, "Eid al-Fitr"),
        (5, 27, "Eid al-Adha"),
        (6, 16, "Islamic New Year"),
        (8, 25, "Prophet's Birthday"),
    ] {
        assert!(
            y2026.iter().any(|(date, f)| *date == d(2026, m, day) && f.name_en() == name),
            "{name}"
        );
    }
}

#[test]
fn every_year_has_its_islamic_holidays() {
    for year in 2028..=2040 {
        let all = egypt_holidays(year);
        let names: Vec<&str> = all.iter().map(|(_, f)| f.name_en()).collect();
        for en in ISLAMIC {
            assert!(names.contains(&en), "{year} has no {en}");
        }
    }
    // 2028's Eid al-Fitr is expected late February.
    let fitr = egypt_holidays(2028)
        .into_iter()
        .find(|(_, f)| f.name_en() == "Eid al-Fitr")
        .unwrap()
        .0;
    assert!(fitr >= d(2028, 2, 25) && fitr <= d(2028, 2, 28), "{fitr}");
}

#[test]
fn a_holiday_can_fall_twice_in_one_year() {
    // The lunar year is 11 days short: Eid al-Fitr comes twice in 2033
    // (early January and late December).
    let fitr = egypt_holidays(2033)
        .into_iter()
        .filter(|(_, f)| f.name_en() == "Eid al-Fitr")
        .count();
    assert_eq!(fitr, 2);
}

#[test]
fn a_decision_overlays_its_suggestion_and_a_stray_decision_stays() {
    let merged = merge(
        vec![(d(2026, 5, 1), Feast::LabourDay)],
        vec![
            HolidayView {
                on_date: d(2026, 5, 1),
                name_en: "Labour Day".into(),
                name_ar: "عيد العمال".into(),
                decision: Some("holiday".into()),
            },
            HolidayView {
                on_date: d(2026, 5, 2),
                name_en: "Old".into(),
                name_ar: "قديم".into(),
                decision: Some("dismissed".into()),
            },
        ],
    );
    assert_eq!(merged.len(), 2);
    assert_eq!(merged[0].decision.as_deref(), Some("holiday"));
    assert_eq!(merged[1].name_en, "Old");
}

#[test]
fn a_year_lists_its_holidays_in_order() {
    let all = egypt_holidays(2026);
    assert!(all.windows(2).all(|w| w[0].0 <= w[1].0));
    assert_eq!(all[0], (d(2026, 1, 7), Feast::CopticChristmas));
    assert_eq!(Feast::LabourDay.name_ar(), "عيد العمال");
}

#[test]
fn suggestions_stay_within_the_range() {
    let some = suggested_between(d(2026, 12, 1), d(2027, 1, 31));
    assert!(some.iter().all(|(x, _)| *x >= d(2026, 12, 1) && *x <= d(2027, 1, 31)));
    assert!(some.contains(&(d(2027, 1, 7), Feast::CopticChristmas)));
    assert!(some.contains(&(d(2027, 1, 25), Feast::January25)));
}

fn decided(decision: &str, known: bool, open: bool) -> Result<(HolidayView, HolidayAct), AppError> {
    let day = HolidayView {
        on_date: d(2026, 5, 1),
        name_en: "Labour Day".into(),
        name_ar: "عيد العمال".into(),
        decision: None,
    };
    let facts = HolidayFacts {
        everywhere: Ok(()),
        known: if known { vec![day] } else { Vec::new() },
        month_open: if open { Ok(()) } else { Err(AppError::Conflict("closed".into())) },
    };
    decide_holiday(facts, &HolidayDecision { decision: decision.into() })
}

#[test]
fn a_holiday_is_decided_where_there_is_one() {
    let (row, act) = decided("holiday", true, true).unwrap();
    assert_eq!(act, HolidayAct::ForgiveAbsences);
    assert_eq!((row.name_en.as_str(), row.decision.as_deref()), ("Labour Day", Some("holiday")));
    let (_, act) = decided("dismissed", true, true).unwrap();
    assert_eq!(act, HolidayAct::RestoreAbsences);
    assert!(matches!(decided("holiday", false, true), Err(AppError::NotFound(_))));
    assert!(matches!(decided("maybe", true, true), Err(AppError::BadRequest(_))));
    assert!(matches!(decided("holiday", true, false), Err(AppError::Conflict(_))));
}

#[test]
fn only_what_the_sweep_marked_is_forgiven() {
    let swept = MarkedDay {
        absent: true,
        checked_in: false,
        is_manual: false,
        created_by_somebody: false,
        status_overridden: false,
        cover: false,
    };
    assert!(forgiven(&swept));
    assert!(!forgiven(&MarkedDay { checked_in: true, ..swept }));
    assert!(!forgiven(&MarkedDay { status_overridden: true, ..swept }));
    let line =
        CarriedLine { manual: false, created_by_somebody: false, waived: false, overridden: false };
    assert!(goes_with_it(&line));
    assert!(!goes_with_it(&CarriedLine { waived: true, ..line }));
}

#[test]
fn a_holiday_on_another_holidays_date_is_still_suggested() {
    // Eid al-Fitr 2031 is expected on Revolution Day.
    let all = egypt_holidays(2031);
    assert!(all.contains(&(d(2031, 1, 25), Feast::January25)));
    assert!(all.contains(&(d(2031, 1, 25), Feast::EidAlFitr)));
}

#[test]
fn a_decision_is_on_every_holiday_of_its_date() {
    let shown = merge(
        vec![
            (d(2026, 5, 1), Feast::LabourDay),
            (d(2026, 5, 1), Feast::January25),
            (d(2026, 7, 23), Feast::January25),
        ],
        vec![HolidayView {
            on_date: d(2026, 5, 1),
            name_en: "Labour Day".into(),
            name_ar: "عيد العمال".into(),
            decision: Some("holiday".into()),
        }],
    );
    assert_eq!(shown.len(), 3);
    assert!(shown[..2].iter().all(|h| h.decision.as_deref() == Some("holiday")));
    // Nothing is stored for the other date.
    assert_eq!(shown[2].decision, None);
    assert_eq!(shown[1].name_en, Feast::January25.name_en());
}
