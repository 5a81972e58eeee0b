use dawam::access::Subject;
use dawam::calendar::{Day, Moment};
use dawam::days::changes::{
    check_overlaps, clear_stale_absences, dates_to_tell, diff, first_overlap, manual_key,
    mark_changed, published_horizon, tell_shift_changed, Change, ResolvedShift, Rostered,
    ShiftNews, ShiftNotice, SweptRecord,
};
use dawam::days::{
    add_block, dow, materialise, name_of_weekday, remove_block, replace_day, reset_day, set_times,
    validate_block, Block, BlockInfo, DayRow, PatternBlock, Places,
};
use dawam::errors::AppError;
use dawam::ordered::PersonDay;

const HOUR: u64 = 3_600_000_000_000;

fn nowhere() -> Places {
    Places { business_wide: vec![1, 2, 3], branches: vec![10] }
}

fn pattern() -> Vec<PatternBlock> {
    vec![
        PatternBlock { work_shift_id: 1, branch_id: None },
        PatternBlock { work_shift_id: 2, branch_id: None },
    ]
}

fn shifts(rows: &[DayRow]) -> Vec<Option<u128>> {
    rows.iter().map(|r| r.work_shift_id).collect()
}

fn block(id: u128) -> Block {
    Block { work_shift_id: id, times: None, branch_id: None }
}

#[test]
fn a_change_touches_one_block_and_leaves_the_rest_of_the_day() {
    let mut rows: Vec<DayRow> = Vec::new();
    add_block(&mut rows, &pattern(), &nowhere(), &block(3));
    assert_eq!(shifts(&rows), vec![Some(1), Some(2), Some(3)]);
    let gone = remove_block(&mut rows, &pattern(), &nowhere(), 1, None);
    assert!(gone.is_some());
    assert_eq!(shifts(&rows), vec![Some(2), Some(3)]);
    assert!(set_times(&mut rows, &pattern(), &nowhere(), 3, Some((9 * HOUR, 12 * HOUR))));
    assert_eq!(rows[1].times, Some((9 * HOUR, 12 * HOUR)));
    assert!(!set_times(&mut rows, &pattern(), &nowhere(), 7, None));
    // The last block gone, the day is off; a day off takes a block again.
    remove_block(&mut rows, &pattern(), &nowhere(), 2, None);
    remove_block(&mut rows, &pattern(), &nowhere(), 3, None);
    assert_eq!(shifts(&rows), vec![None]);
    add_block(&mut rows, &pattern(), &nowhere(), &block(1));
    assert_eq!(shifts(&rows), vec![Some(1)]);
    assert_eq!(reset_day(&mut rows), 1);
    assert!(rows.is_empty());
}

#[test]
fn a_day_follows_the_pattern_until_it_is_written() {
    let mut rows: Vec<DayRow> = Vec::new();
    materialise(&mut rows, &Vec::new(), &nowhere());
    assert_eq!(shifts(&rows), vec![None]);
    let mut own = rows;
    materialise(&mut own, &pattern(), &nowhere());
    assert_eq!(shifts(&own), vec![None]);
    let set = replace_day(&own, &vec![block(2), block(3)], &nowhere()).unwrap();
    assert_eq!(shifts(&set), vec![Some(2), Some(3)]);
    assert!(replace_day(&own, &vec![block(2), block(2)], &nowhere()).is_err());
    assert_eq!(shifts(&replace_day(&own, &Vec::new(), &nowhere()).unwrap()), vec![None]);
}

#[test]
fn a_block_is_rostered_where_and_when_it_may() {
    let who = Subject {
        id: 9,
        org_id: 1,
        user_id: None,
        name: "Amal".into(),
        employment_status: "active".into(),
        branches: vec![10],
    };
    // 2026-10-03 is a Saturday.
    let saturday: Day = 739_892;
    assert_eq!((dow(saturday), name_of_weekday(dow(saturday))), (6, "Saturday"));
    let info = |branch: Option<u128>, days: Vec<i16>, live: bool| {
        Some(BlockInfo { name: "Day".into(), branch_id: branch, valid_days: days, is_active: live })
    };
    let all: Vec<i16> = (0..7).collect();
    assert!(validate_block(&info(None, all.clone(), true), &who, saturday, &block(1)).is_ok());
    assert!(validate_block(&info(Some(10), all.clone(), true), &who, saturday, &block(1)).is_ok());
    assert!(validate_block(&info(Some(11), all.clone(), true), &who, saturday, &block(1)).is_err());
    assert!(validate_block(&info(None, vec![0], true), &who, saturday, &block(1)).is_err());
    assert!(validate_block(&info(None, all, false), &who, saturday, &block(1)).is_err());
    assert!(matches!(
        validate_block(&None, &who, saturday, &block(1)),
        Err(AppError::NotFound(_))
    ));
}

fn shift(day: Day, from: i64, to: i64) -> ResolvedShift {
    ResolvedShift {
        employee_id: 1,
        on_date: day,
        work_shift_id: 5,
        name: "Night".into(),
        scheduled_start_at: from as Moment,
        scheduled_end_at: to as Moment,
    }
}

#[test]
fn two_shifts_of_one_person_may_not_overlap() {
    let apart = [shift(100, 0, 10), shift(101, 10, 20)];
    assert_eq!(first_overlap(&apart, 100, 101), None);
    assert!(check_overlaps(&apart, 100, 101).is_ok());
    let night = [shift(100, 0, 11), shift(101, 10, 20)];
    assert_eq!(first_overlap(&night, 100, 101), Some((0, 1)));
    assert!(check_overlaps(&night, 100, 101).is_err());
    let mut other = shift(101, 10, 20);
    other.employee_id = 2;
    assert!(check_overlaps(&[shift(100, 0, 11), other], 100, 101).is_ok());
}

fn on(employee_id: u128, date: Day) -> PersonDay {
    PersonDay { employee_id, date }
}

#[test]
fn a_change_is_told_for_published_days_only() {
    let row = |e: u128, d: Day, s: u128| Rostered { whose: on(e, d), work_shift_id: s, start: 0, end: 9 };
    let before = vec![row(1, 100, 5), row(2, 100, 5)];
    let after = vec![row(2, 100, 5), row(1, 100, 6), row(1, 101, 5)];
    let changed = diff(&before, &after);
    assert_eq!(changed, vec![on(1, 100), on(1, 101)]);
    assert!(diff(&before, &before).is_empty());
    let marked = mark_changed(&vec![
        Change { whose: on(1, 100), published: true },
        Change { whose: on(1, 101), published: false },
    ]);
    assert_eq!(marked, vec![on(1, 100)]);
    assert_eq!(dates_to_tell(&marked, 1), vec![100]);
    assert!(dates_to_tell(&marked, 2).is_empty());
    assert_eq!(published_horizon(None, 100), None);
    assert_eq!(
        manual_key(739_892, 1, 2),
        "manual|2026-10-03|00000000-0000-0000-0000-000000000001|00000000-0000-0000-0000-000000000002"
    );
}

#[test]
fn one_edit_is_one_notice() {
    assert!(matches!(tell_shift_changed(&None, 0, Vec::new()), ShiftNews::Nothing));
    match tell_shift_changed(&None, 0, vec![101, 102]) {
        ShiftNews::Notice { first, dates } => assert_eq!((first, dates), (101, vec![101, 102])),
        other => panic!("{other:?}"),
    }
    let unread = Some(ShiftNotice { created_at: 0, dates: vec![100] });
    match tell_shift_changed(&unread, 60_000_000_000, vec![101]) {
        ShiftNews::Joined(dates) => assert_eq!(dates, vec![100, 101]),
        other => panic!("{other:?}"),
    }
    assert!(matches!(
        tell_shift_changed(&unread, 600_000_000_000, vec![101]),
        ShiftNews::Notice { .. }
    ));
}

#[test]
fn the_sweeps_absence_goes_with_the_shift_it_was_on() {
    let record = SweptRecord {
        id: 1,
        work_shift_id: Some(5),
        scheduled_start_at: Some(0),
        scheduled_end_at: Some(9),
        missed: true,
        checked_in: false,
        by_hand: false,
        cover: false,
        requested: false,
    };
    assert_eq!(clear_stale_absences(false, &vec![record], &Vec::new()), vec![1]);
    assert!(clear_stale_absences(false, &vec![record], &vec![(5, 0, 9)]).is_empty());
    assert!(clear_stale_absences(true, &vec![record], &Vec::new()).is_empty());
    let by_hand = SweptRecord { by_hand: true, ..record };
    assert!(clear_stale_absences(false, &vec![by_hand], &Vec::new()).is_empty());
}

#[test]
fn a_block_that_is_not_there_changes_nothing() {
    let mut rows: Vec<DayRow> = Vec::new();
    assert!(remove_block(&mut rows, &pattern(), &nowhere(), 7, None).is_none());
    assert!(rows.is_empty());
}
