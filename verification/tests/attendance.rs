use dawam::attendance::derive::{
    derive_day, figures, rule_asks, status_ask, AttendanceStatus, DayAdjustments, Derived,
    ExcusedWindow, RuleAnswers, ShiftAdjustments, ShiftRules, Stamps, StatusAsk, TimedRequest,
    WindowRequest,
};
use dawam::attendance::punches::{
    check_geofence, check_in, check_out, check_window, checked_in_once, effective_radius,
    opened_window, record_to_close, require_active_employee, require_rules, settle_cover,
    CheckInFacts, CheckOutFacts, FenceFacts, Measured, OpenRecord, ShiftWindow,
};
use dawam::attendance::records::{
    audit_after, correct_record, corrected_stamps, create_manual_record, delete_record, punch_method,
    recorded_once, rederive, status_asked, Audit, DeleteRecordQuery, Edit, ManualFacts, ManualRecordRequest, RecordFacts,
    StatusOverride, StoredRecord,
};
use dawam::attendance::settings::{
    branch_rule_fields, check_setting_ranges, delete_branch_rules, effective_settings_sql,
    overridden_sql, put_attendance_settings, require_rules_view, suggested_tiers,
    PutAttendanceSettingsRequest, SettingsFacts,
};
use dawam::attendance::team::{
    my_today, presence_state, resolve_my_branch, team_presence, PresenceFacts, PresenceRow,
    PresenceState,
};
use dawam::calendar::Moment;
use dawam::dawam::clock::Stamped;
use dawam::decimal::Dec;
use dawam::errors::{forbidden, AppError};
use dawam::jobs::{
    close_forgotten, coordinates_stale, forgotten, mark_absence, needs_pricing, phone_died,
    precompute_week, restore_absence, scheduled_minutes, sweep_disabled, sweep_seconds,
    RosteredShift,
};

const MIN: Moment = 60_000_000_000;
const DAY: Moment = 24 * 60 * MIN;
/// 2026-10-03, a Saturday.
const SATURDAY: i32 = 739_892;

fn at(minute: Moment) -> Moment {
    20_729 * DAY + minute * MIN
}

fn nothing() -> ShiftAdjustments {
    DayAdjustments {
        late_arrivals: Vec::new(),
        early_departures: Vec::new(),
        excuses: Vec::new(),
        on_leave: false,
        leave_paid: false,
        half_off: None,
    }
    .for_shift(Some(at(540)), Some(at(1020)), Some(1))
}

fn rules() -> Option<ShiftRules> {
    Some(ShiftRules {
        work_shift_id: 1,
        grace_minutes: 15,
        break_minutes: 0,
        paid_break: true,
        overtime_threshold_minutes: 30,
        half_day_threshold_minutes: None,
        span_minutes: 480,
    })
}

#[test]
fn a_window_shares_its_minutes_with_the_shift() {
    let w = ExcusedWindow { from: at(600), to: at(660), paid: true };
    assert_eq!(w.minutes_within(at(540), at(1020)), 60);
    assert_eq!(w.minutes_within(at(630), at(1020)), 30);
    assert_eq!(w.minutes_within(at(700), at(1020)), 0);
}

#[test]
fn a_request_excuses_the_shift_it_is_for() {
    let day = DayAdjustments {
        late_arrivals: vec![
            TimedRequest { candidates: vec![at(570)], work_shift_id: Some(1), paid: true },
            TimedRequest { candidates: vec![at(600)], work_shift_id: Some(2), paid: true },
        ],
        early_departures: Vec::new(),
        excuses: Vec::new(),
        on_leave: false,
        leave_paid: false,
        half_off: None,
    };
    let mine = day.for_shift(Some(at(540)), Some(at(1020)), Some(1));
    assert_eq!(mine.excused_until, Some(at(570)));
    let other = day.for_shift(Some(at(540)), Some(at(1020)), Some(3));
    assert_eq!(other.excused_until, None);
}

#[test]
fn a_day_is_derived_from_its_stamps() {
    let st = Stamps {
        check_in_at: Some(at(560)),
        check_out_at: Some(at(1020)),
        scheduled_start_at: Some(at(540)),
        scheduled_end_at: Some(at(1020)),
    };
    let adj = nothing();
    let asks = rule_asks(&st, &rules(), &adj);
    let late = asks.late.unwrap();
    assert_eq!((late.start, late.actual, late.grace_minutes), (at(540), at(560), 15));
    assert!(asks.worked.is_some() && asks.close.is_some());
    let ans = RuleAnswers { late: 20, worked: 460, early_leave: 0, overtime: 0 };
    let f = figures(&st, &rules(), &adj, &ans);
    assert_eq!((f.late, f.worked), (20, 460));
    let ask = status_ask(&st, &rules(), &adj, &f);
    assert!(matches!(ask, StatusAsk::Classify { checked_in: true, late: 20, .. }));
    let d = dawam::attendance::derive::derive(&f, &ask, AttendanceStatus::Late);
    assert_eq!((d.late_minutes, d.worked_minutes, d.status), (20, 460, AttendanceStatus::Late));
}

fn fence(inside: bool) -> FenceFacts {
    FenceFacts {
        branch_found: true,
        branch_located: true,
        fix_sent: true,
        in_range: true,
        measured: Measured { inside, worded: "350 m".into(), metres: 350 },
        geo_radius_meters: None,
    }
}

#[test]
fn the_fence_is_where_the_branch_is() {
    assert_eq!(effective_radius(None), 200);
    assert_eq!(effective_radius(Some(50)), 50);
    assert_eq!(check_geofence(&fence(true), true).unwrap(), true);
    assert!(check_geofence(&fence(false), true).is_err());
    // Not required: the distance is known all the same.
    assert_eq!(check_geofence(&fence(false), false).unwrap(), true);
    assert_eq!(check_geofence(&FenceFacts { fix_sent: false, ..fence(true) }, false).unwrap(), false);
    assert!(check_geofence(&FenceFacts { branch_found: false, ..fence(true) }, true).is_err());
    assert!(check_geofence(&FenceFacts { fix_sent: false, ..fence(true) }, true).is_err());
}

fn window() -> Option<ShiftWindow> {
    Some(ShiftWindow {
        name: "Day".into(),
        scheduled_start_at: at(540),
        scheduled_end_at: at(1020),
        checkin_window_minutes: 60,
    })
}

fn clean(when: Moment) -> Result<Stamped, AppError> {
    Ok(Stamped { at: when, offline: false, unverified: false })
}

fn in_facts() -> CheckInFacts {
    CheckInFacts {
        rules_saved: true,
        accepted: Ok(()),
        org_id: 1,
        branch_org: Ok(1),
        branch_id: 10,
        mine: vec![10],
        fence: Ok(()),
        stamped: clean(at(530)),
        shift: window(),
        tracking_off: false,
        suspicious: false,
    }
}

#[test]
fn a_check_in_is_planned_or_refused() {
    let p = check_in(in_facts()).unwrap();
    assert_eq!((p.at, p.time_unverified, p.suspicious), (at(530), false, false));
    assert!(check_in(CheckInFacts { rules_saved: false, ..in_facts() }).is_err());
    assert!(check_in(CheckInFacts { branch_org: Ok(2), ..in_facts() }).is_err());
    assert!(check_in(CheckInFacts { mine: vec![11], ..in_facts() }).is_err());
    assert!(check_in(CheckInFacts { fence: Err(forbidden("far")), ..in_facts() }).is_err());
    assert!(check_in(CheckInFacts { stamped: clean(at(400)), ..in_facts() }).is_err());
    assert!(check_in(CheckInFacts { accepted: Err(forbidden("no")), ..in_facts() }).is_err());
    assert!(check_window(&window(), at(480)).is_ok());
    assert!(check_window(&window(), at(479)).is_err());
    assert!(checked_in_once(true).is_ok());
    assert!(checked_in_once(false).is_err());
    assert!(require_rules(false).is_err());
    assert_eq!(require_active_employee(Some((4, "active".into()))).unwrap(), 4);
    assert!(require_active_employee(Some((4, "suspended".into()))).is_err());
    assert!(matches!(require_active_employee(None), Err(_)));
}

fn open_record() -> OpenRecord {
    OpenRecord {
        id: 7,
        check_in_at: Some(at(545)),
        scheduled_start_at: Some(at(540)),
        scheduled_end_at: Some(at(1020)),
    }
}

#[test]
fn a_check_out_closes_the_open_record() {
    let facts = || CheckOutFacts {
        accepted: Ok(()),
        stamped: clean(at(1021)),
        open: Some(open_record()),
        auto_closed: None,
        fence: Ok(()),
        suspicious: false,
    };
    let p = check_out(facts()).unwrap();
    assert_eq!((p.record.id, p.at), (7, at(1021)));
    assert!(check_out(CheckOutFacts { open: None, ..facts() }).is_err());
    // Never before the check-in it follows.
    let early = check_out(CheckOutFacts { stamped: clean(at(500)), ..facts() }).unwrap();
    assert_eq!(early.at, at(545));
    // An offline check-out may replace the sweep's own.
    assert!(record_to_close(None, Some(open_record()), false).is_err());
    assert_eq!(record_to_close(None, Some(open_record()), true).unwrap().id, 7);
    let none = OpenRecord { scheduled_start_at: None, scheduled_end_at: None, ..open_record() };
    assert_eq!(opened_window(at(1), at(2), &none), (at(1), at(2)));
}

fn day(status: AttendanceStatus) -> Derived {
    Derived {
        late_minutes: 20,
        early_leave_minutes: 5,
        overtime_minutes: 40,
        worked_minutes: 460,
        status,
    }
}

#[test]
fn a_cover_owes_nothing_of_its_own() {
    let d = settle_cover(true, false, day(AttendanceStatus::Late));
    assert_eq!((d.late_minutes, d.status), (0, AttendanceStatus::Present));
    assert_eq!(settle_cover(false, false, day(AttendanceStatus::Late)), day(AttendanceStatus::Late));
}

#[test]
fn a_record_is_corrected_by_hand() {
    let ok = || RecordFacts { gate: Ok(()), found: true, right: Ok(()), month_open: Ok(()) };
    assert_eq!(correct_record(ok(), " forgot ").unwrap(), "forgot");
    assert!(correct_record(ok(), "  ").is_err());
    assert!(matches!(
        correct_record(RecordFacts { found: false, ..ok() }, "x"),
        Err(AppError::NotFound(_))
    ));
    assert!(correct_record(RecordFacts { month_open: Err(forbidden("c")), ..ok() }, "x").is_err());
    let q = DeleteRecordQuery { reason: Some(" dup ".into()) };
    assert!(delete_record(ok(), false, &q).unwrap().is_some());
    assert!(delete_record(ok(), true, &q).unwrap().is_none());
    let stored = |overridden: bool| StoredRecord {
        check_in_at: Some(at(540)),
        check_out_at: Some(at(1020)),
        status: Ok(AttendanceStatus::OnLeave),
        status_overridden: overridden,
    };
    assert_eq!(
        corrected_stamps(&stored(false), Some(at(530)), None).unwrap(),
        (Some(at(530)), Some(at(1020)))
    );
    assert!(corrected_stamps(&stored(false), Some(at(1030)), None).is_err());
    let present = day(AttendanceStatus::Present);
    let (d, by_hand) = rederive(stored(true), StatusOverride::Unasked, present).unwrap();
    assert_eq!((d.status, by_hand), (AttendanceStatus::OnLeave, true));
    let (d, by_hand) = rederive(stored(true), StatusOverride::Derived, present).unwrap();
    assert_eq!((d.status, by_hand), (AttendanceStatus::Present, false));
    let absent = StatusOverride::ByHand(Ok(AttendanceStatus::Absent));
    let (d, by_hand) = rederive(stored(false), absent, present).unwrap();
    assert_eq!((d.status, by_hand), (AttendanceStatus::Absent, true));
    assert_eq!(punch_method(None, None, &None, &None), None);
    assert_eq!(punch_method(Some(at(1)), None, &None, &None).as_deref(), Some("manual"));
    let (mark, moved) = (Some("mobile_gps".to_string()), Some("request".to_string()));
    assert_eq!(punch_method(Some(at(1)), Some(at(1)), &mark, &moved).as_deref(), Some("mobile_gps"));
    assert_eq!(punch_method(Some(at(2)), Some(at(1)), &mark, &moved).as_deref(), Some("request"));
}

#[test]
fn a_record_is_entered_by_hand_with_a_reason() {
    let ask = |reason: &str| ManualRecordRequest {
        check_in_at: Some(at(540)),
        check_out_at: Some(at(1020)),
        notes: Some(" ".into()),
        reason: reason.into(),
    };
    let facts = || ManualFacts {
        gate: Ok(()),
        right: Ok(()),
        employee: Ok(()),
        month_open: Ok(()),
        org_id: 1,
        branch_org: Ok(1),
        derived: day(AttendanceStatus::Late),
        status: None,
    };
    let r = create_manual_record(facts(), &ask(" no phone ")).unwrap();
    assert_eq!((r.reason.as_str(), r.status_overridden), ("no phone", false));
    assert!(create_manual_record(facts(), &ask(" ")).is_err());
    assert!(create_manual_record(ManualFacts { branch_org: Ok(2), ..facts() }, &ask("x")).is_err());
    let set = ManualFacts { status: Some(Ok(AttendanceStatus::HalfDay)), ..facts() };
    let r = create_manual_record(set, &ask("x")).unwrap();
    assert_eq!((r.figures.status, r.status_overridden), (AttendanceStatus::HalfDay, true));
    let mut backwards = ask("x");
    backwards.check_out_at = Some(at(500));
    assert!(create_manual_record(facts(), &backwards).is_err());
    assert!(recorded_once(false).is_err());
}

fn settings() -> PutAttendanceSettingsRequest {
    PutAttendanceSettingsRequest {
        branch_id: None,
        late_deduction_tiers: None,
        absence_deduction_days: None,
        default_overtime_multiplier: None,
        auto_checkout_buffer_minutes: None,
        working_days_per_month: None,
        require_geofence: None,
        excused_time_paid_default: None,
        period_start_day: None,
        overtime_mode: None,
        overtime_day_multiplier: None,
        overtime_night_multiplier: None,
        holiday_multiplier: None,
        advance_cap_percent: None,
        half_day_leave_counts: None,
        night_start: None,
        night_end: None,
        gender_mode: None,
        limit_day_hours: None,
        limit_week_hours: None,
        limit_presence_hours: None,
        limit_rest_hours: None,
        limit_overtime_day_hours: None,
        orders_per_staff: None,
        inherit: None,
    }
}

#[test]
fn settings_stay_within_their_ranges() {
    assert!(check_setting_ranges(&settings()).is_ok());
    assert!(check_setting_ranges(&PutAttendanceSettingsRequest {
        period_start_day: Some(28),
        ..settings()
    })
    .is_ok());
    assert!(check_setting_ranges(&PutAttendanceSettingsRequest {
        period_start_day: Some(29),
        ..settings()
    })
    .is_err());
    assert!(check_setting_ranges(&PutAttendanceSettingsRequest {
        overtime_mode: Some("sometimes".into()),
        ..settings()
    })
    .is_err());
    assert!(check_setting_ranges(&PutAttendanceSettingsRequest {
        advance_cap_percent: Some(Dec { mantissa: 1001, scale: 1 }),
        ..settings()
    })
    .is_err());
    // The pay period is the business's, no branch's.
    let business = PutAttendanceSettingsRequest {
        branch_id: Some(4),
        period_start_day: Some(5),
        ..settings()
    };
    assert!(put_attendance_settings(may_set(), &business).is_err());
    assert!(put_attendance_settings(may_set(), &settings()).is_ok());
}

#[test]
fn the_rules_a_branch_may_set_are_named_in_the_query() {
    let fields = branch_rule_fields();
    assert!(fields.contains(&"require_geofence"));
    assert!(!fields.contains(&"period_start_day"));
    let sql = effective_settings_sql();
    assert!(fields.iter().all(|f| sql.contains(f)));
    assert!(overridden_sql("b").contains("b.require_geofence"));
    let tiers = suggested_tiers();
    assert!(!tiers.is_empty());
    assert!(tiers.windows(2).all(|w| w[0].from_minutes < w[1].from_minutes));
    assert!(require_rules_view(Some(1), Ok(()), Err(forbidden("no"))).is_ok());
    assert!(require_rules_view(None, Ok(()), Err(forbidden("no"))).is_err());
    assert!(delete_branch_rules(Ok(()), Err(forbidden("no"))).is_err());
}

#[test]
fn the_team_is_counted_as_it_stands() {
    let base = PresenceFacts {
        status: None,
        check_in_at: None,
        check_out_at: None,
        late_minutes: 0,
        away: false,
        scheduled_minutes: 480,
        due_at: Some(at(555)),
    };
    let copy = |status: Option<&str>, came: bool, left: bool, late: i32| PresenceFacts {
        status: status.map(Into::into),
        check_in_at: if came { Some(at(540)) } else { None },
        check_out_at: if left { Some(at(1020)) } else { None },
        late_minutes: late,
        ..PresenceFacts { status: None, ..base }
    };
    let now = at(600);
    assert_eq!(presence_state(&copy(Some("present"), true, false, 0), now), PresenceState::In);
    assert_eq!(presence_state(&copy(Some("late"), true, false, 9), now), PresenceState::Late);
    assert_eq!(presence_state(&copy(Some("present"), true, true, 0), now), PresenceState::Done);
    let rows = vec![
        PresenceRow { state: PresenceState::In, worked_minutes: 60, scheduled_minutes: 480 },
        PresenceRow { state: PresenceState::Absent, worked_minutes: 0, scheduled_minutes: 480 },
    ];
    let t = team_presence(&rows);
    assert_eq!((t.present, t.absent, t.worked_minutes, t.planned_minutes), (1, 1, 60, 960));
    assert_eq!(resolve_my_branch(Some(1), Some(2), &vec![3]), Some(1));
    assert_eq!(resolve_my_branch(None, Some(2), &vec![3]), Some(2));
    assert_eq!(resolve_my_branch(None, None, &vec![3]), Some(3));
    assert_eq!(resolve_my_branch(None, None, &vec![3, 4]), None);
    let mine = my_today(&vec![5, 6], Some(6), Some(1));
    assert!(!mine.can_check_in && mine.can_check_out);
    assert_eq!(mine.closed_records, vec![5]);
}

#[test]
fn the_sweep_closes_marks_and_forgets() {
    assert!(sweep_disabled(Some("off")) && sweep_disabled(Some("0")));
    assert!(!sweep_disabled(None) && !sweep_disabled(Some("1")));
    assert_eq!((sweep_seconds(None), sweep_seconds(Some(5)), sweep_seconds(Some(90))), (600, 60, 90));
    assert!(forgotten(at(1020), Some(120), at(1141)));
    assert!(!forgotten(at(1020), Some(120), at(1139)));
    assert!(!forgotten(at(1020), None, at(1139)));
    assert_eq!(scheduled_minutes(at(540), at(1020)), 480);
    // A forgotten button pays no overtime.
    let c = close_forgotten(at(1020), 480, 5, AttendanceStatus::Present);
    assert_eq!((c.check_out_at, c.figures.overtime_minutes), (at(1020), 0));
    let s = RosteredShift {
        at_branch: true,
        business_date: SATURDAY,
        scheduled_start_at: at(540),
        scheduled_end_at: at(1020),
        rules_saved_at: Some(at(540)),
        holiday: false,
        recorded: false,
        excused: false,
    };
    assert_eq!(mark_absence(&s, SATURDAY, at(1021)), Some(AttendanceStatus::Absent));
    assert_eq!(mark_absence(&s, SATURDAY + 2, at(1021)), None);
    // Nobody could clock in before the rules were saved.
    let before = RosteredShift { rules_saved_at: Some(at(541)), ..s };
    assert_eq!(mark_absence(&before, SATURDAY, at(1021)), None);
    assert_eq!(restore_absence(&before, at(1021)), None);
    let never = RosteredShift { rules_saved_at: None, ..s };
    assert_eq!(mark_absence(&never, SATURDAY, at(1021)), None);
    assert_eq!(mark_absence(&RosteredShift { holiday: true, ..s }, SATURDAY, at(1021)), None);
    let leave = RosteredShift { excused: true, ..s };
    assert_eq!(mark_absence(&leave, SATURDAY, at(1021)), Some(AttendanceStatus::OnLeave));
    assert_eq!(restore_absence(&s, at(1021)), Some(AttendanceStatus::Absent));
    assert!(coordinates_stale(SATURDAY, SATURDAY + 91, true));
    assert!(!coordinates_stale(SATURDAY, SATURDAY + 10, true));
    assert!(!coordinates_stale(SATURDAY, SATURDAY + 91, false));
    assert!(needs_pricing(SATURDAY, SATURDAY, true, false, 20, false));
    assert!(!needs_pricing(SATURDAY, SATURDAY, true, false, 20, true));
    assert!(phone_died(at(0), Some(10), false, at(46)));
    assert!(!phone_died(at(0), Some(90), false, at(46)));
    assert!(!phone_died(at(0), Some(10), true, at(46)));
    // The week ahead is prepared from ten on Wednesday evening.
    let ten = 22 * 3_600_000_000_000;
    let wednesday = SATURDAY + 4;
    assert_eq!(precompute_week(wednesday, ten - 1, false), None);
    assert_eq!(precompute_week(wednesday, ten, false), Some(SATURDAY + 7));
    assert_eq!(precompute_week(wednesday + 2, 0, false), Some(SATURDAY + 7));
    assert_eq!(precompute_week(SATURDAY, ten, false), None);
    assert_eq!(precompute_week(wednesday, ten, true), None);
}

fn may_set() -> SettingsFacts {
    SettingsFacts { everywhere: Ok(()), at_branch: Ok(()), ladder: Ok(()), roster_settings: Ok(()) }
}

#[test]
fn a_change_of_the_rules_is_refused_in_order() {
    let no = |t: &str| Err(AppError::Forbidden(t.into()));
    let said = |f: SettingsFacts, body: &PutAttendanceSettingsRequest| {
        match put_attendance_settings(f, body) {
            Err(AppError::Forbidden(m)) | Err(AppError::BadRequest(m)) => m,
            Err(_) => "other".to_string(),
            Ok(_) => String::new(),
        }
    };
    let bad = PutAttendanceSettingsRequest {
        branch_id: Some(4),
        late_deduction_tiers: Some(Vec::new()),
        gender_mode: Some("soft".into()),
        ..settings()
    };
    let all = || SettingsFacts {
        everywhere: no("everywhere"),
        at_branch: no("branch"),
        ladder: no("ladder"),
        roster_settings: no("roster"),
    };
    assert_eq!(said(all(), &bad), "everywhere");
    assert_eq!(said(SettingsFacts { everywhere: Ok(()), ..all() }, &bad), "branch");
    let ladder = SettingsFacts { everywhere: Ok(()), at_branch: Ok(()), ..all() };
    assert_eq!(said(ladder, &bad), "ladder");
    let roster = SettingsFacts { roster_settings: no("roster"), ..may_set() };
    assert_eq!(said(roster, &bad), "roster");
    assert_eq!(said(may_set(), &bad), "gender_mode is the business's setting, not a branch's");
    // A right that is not needed is not asked for.
    assert!(put_attendance_settings(SettingsFacts { everywhere: Ok(()), ..all() }, &settings()).is_ok());
}

#[test]
fn automation_leaves_the_audit_alone() {
    let was = || Audit {
        notes: Some("late bus".into()),
        edit_reason: Some("forgot".into()),
        edited_by: Some(3),
    };
    let kept = audit_after(was(), None);
    assert_eq!(
        (kept.notes.as_deref(), kept.edit_reason.as_deref(), kept.edited_by),
        (Some("late bus"), Some("forgot"), Some(3))
    );
    let edit = Edit { notes: Some("  ".into()), reason: "moved".into(), editor: Some(4) };
    let after = audit_after(was(), Some(edit));
    assert_eq!(
        (after.notes.as_deref(), after.edit_reason.as_deref(), after.edited_by),
        (Some("late bus"), Some("moved"), Some(4))
    );
    let edit = Edit { notes: Some(" train ".into()), reason: "moved".into(), editor: None };
    let after = audit_after(was(), Some(edit));
    assert_eq!((after.notes.as_deref(), after.edited_by), (Some("train"), None));
}

#[test]
fn a_day_is_derived_in_one_go() {
    let st = Stamps {
        check_in_at: Some(at(560)),
        check_out_at: Some(at(1020)),
        scheduled_start_at: Some(at(540)),
        scheduled_end_at: Some(at(1020)),
    };
    let day = |on_leave: bool| DayAdjustments {
        late_arrivals: Vec::new(),
        early_departures: Vec::new(),
        excuses: Vec::new(),
        on_leave,
        leave_paid: false,
        half_off: None,
    };
    let ans = RuleAnswers { late: 20, worked: 460, early_leave: 0, overtime: 7 };
    let d = derive_day(&day(false), &st, &rules(), &ans, AttendanceStatus::Late);
    assert_eq!(
        (d.late_minutes, d.worked_minutes, d.overtime_minutes, d.status),
        (20, 460, 7, AttendanceStatus::Late)
    );
    let d = derive_day(&day(true), &st, &rules(), &ans, AttendanceStatus::Late);
    assert_eq!((d.late_minutes, d.status), (0, AttendanceStatus::OnLeave));
    let open = Stamps { check_out_at: None, ..st };
    let d = derive_day(&day(false), &open, &rules(), &ans, AttendanceStatus::HalfDay);
    assert_eq!((d.late_minutes, d.worked_minutes, d.status), (20, 0, AttendanceStatus::Late));
}

#[test]
fn the_effective_rules_read_the_branch_where_it_may_set_them() {
    let sql = effective_settings_sql();
    for f in branch_rule_fields() {
        assert!(sql.contains(&format!("COALESCE(b.{f}, o.{f}, ")), "{f}");
    }
    for f in ["period_start_day", "advance_cap_percent", "gender_mode"] {
        assert!(sql.contains(&format!("COALESCE(o.{f}, ")), "{f}");
        assert!(!sql.contains(&format!("b.{f}")), "{f}");
    }
}

#[test]
fn a_word_asks_for_a_status() {
    let named = || Ok(AttendanceStatus::Absent);
    assert!(matches!(status_asked(&None, named()), StatusOverride::Unasked));
    assert!(matches!(status_asked(&Some("derived".into()), named()), StatusOverride::Derived));
    assert!(matches!(
        status_asked(&Some("absent".into()), named()),
        StatusOverride::ByHand(Ok(AttendanceStatus::Absent))
    ));
}

#[test]
fn an_unpaid_excuse_changes_no_figure() {
    let st = Stamps {
        check_in_at: Some(at(560)),
        check_out_at: Some(at(1020)),
        scheduled_start_at: Some(at(540)),
        scheduled_end_at: Some(at(1020)),
    };
    let excuse = |from: Moment, to: Moment, paid: bool| WindowRequest {
        candidates: vec![(at(from), at(to))],
        work_shift_id: None,
        paid,
    };
    let day = |excuses: Vec<WindowRequest>| DayAdjustments {
        late_arrivals: Vec::new(),
        early_departures: Vec::new(),
        excuses,
        on_leave: false,
        leave_paid: false,
        half_off: None,
    };
    let ans = RuleAnswers { late: 20, worked: 400, early_leave: 0, overtime: 0 };
    let derive = |d: &DayAdjustments| derive_day(d, &st, &rules(), &ans, AttendanceStatus::Late);
    let both = derive(&day(vec![excuse(600, 630, true), excuse(700, 760, false)]));
    assert_eq!(both, derive(&day(vec![excuse(600, 630, true)])));
    assert_eq!(both.worked_minutes, 430);
}
