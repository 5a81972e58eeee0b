use chrono::{DateTime, Utc};
use dawam::calendar::Moment;
use dawam::dawam::clock::Stamped;
use dawam::dawam::presence::covers::{
    coverable_for, decide_cover_record, decide_overtime, open_cover, CoverDecisionFacts,
    CoverFacts, Decide, MissedShift, OpenCover, OvertimeFacts, PendingCover,
};
use dawam::dawam::presence::flags::{
    after_check_out, asked_amount, away_basis, nearest_five_pounds, priced_minutes, raise_flag, resolve_flag, suggests_deduction,
    FlagFacts, Grant, OpenFlag, OvertimeStatus, PricedDay, Resolution, ResolveFlag,
};
use dawam::dawam::presence::pings::{
    away_minutes, check_punch_fix, ping, ping_flags, spoof_signals, Accuracy, PingFacts, PriorPing,
};
use dawam::dawam::presence::punches::{
    punch, punch_for, till_employee, till_holder, till_punch, PinMatch, Punch, PunchFacts,
    PunchForFacts, TillDevice, TillFacts,
};
use dawam::dawam::presence::till::{till_step, TillEvent, TillHolder, TillStep};
use dawam::dawam::privacy::not_accepted;
use dawam::decimal::Dec;

const MINUTE: Moment = 60_000_000_000;

fn t(m: i64) -> Moment {
    "2026-09-22T08:00:00Z".parse::<DateTime<Utc>>().unwrap().timestamp_nanos_opt().unwrap() as Moment
        + m as Moment * MINUTE
}

#[test]
fn time_away_is_every_outside_run_less_the_excused_part() {
    // In, out for 75 minutes, back, out again for 30.
    let pings = [(t(0), true), (t(15), false), (t(30), false), (t(90), true), (t(105), false)];
    assert_eq!(away_minutes(&pings, t(135), &[], None), 75 + 30);
    // An excuse over 20 of those minutes.
    assert_eq!(away_minutes(&pings, t(135), &[(t(40), t(60))], None), 85);
    // Since a handled flag: only what came after it.
    assert_eq!(away_minutes(&pings, t(135), &[], Some(t(90))), 30);
    // Never counted past what is excused.
    assert_eq!(away_minutes(&pings, t(135), &[(t(0), t(200))], None), 0);
}

/// A reading: minute, latitude, longitude, accuracy.
type Reading = (i64, f64, f64, f64);

fn p(m: i64, lat: f64, acc: f64) -> Reading {
    (m, lat, 31.0, acc)
}

/// Metres between two places on the ground.
fn meters(a: (f64, f64), b: (f64, f64)) -> f64 {
    let (la, lb) = (a.0.to_radians(), b.0.to_radians());
    let (dl, dg) = ((b.0 - a.0).to_radians(), (b.1 - a.1).to_radians());
    let h = (dl / 2.0).sin().powi(2) + la.cos() * lb.cos() * (dg / 2.0).sin().powi(2);
    2.0 * 6_371_000.0 * h.sqrt().asin()
}

fn spoofed(
    here: (f64, f64),
    accuracy: Option<f64>,
    is_mock: Option<bool>,
    minute: i64,
    prior: &[Reading],
) -> bool {
    let steps = [5.0, 10.0, 30.0, 65.0, 100.0, 165.0, 200.0];
    let quality = match accuracy {
        None => Accuracy::Unsaid,
        Some(a) if a <= 0.0 => Accuracy::Impossible,
        Some(a) if steps.contains(&a) => Accuracy::Step,
        Some(_) => Accuracy::Measured,
    };
    let too_fast = prior.first().map_or(false, |r| {
        let secs = ((minute - r.0) * 60).max(1) as f64;
        meters((r.1, r.2), here) / secs > 70.0
    });
    let before: Vec<PriorPing> = prior
        .iter()
        .map(|r| PriorPing {
            same_place: r.1 == here.0 && r.2 == here.1,
            same_accuracy: accuracy == Some(r.3),
        })
        .collect();
    spoof_signals(quality, is_mock, too_fast, &before)
}

#[test]
fn spoofing_needs_more_than_one_repeat_and_ignores_ios_steps() {
    let here = (30.0, 31.0);
    // One repeated fix (an OS cache) is not suspicious; three in a row is.
    assert!(!spoofed(here, Some(12.0), None, 30, &[p(15, 30.0, 11.0), p(0, 30.1, 9.0)]));
    assert!(spoofed(here, Some(12.0), None, 30, &[p(15, 30.0, 11.0), p(0, 30.0, 9.0)]));
    // iOS's 65 m step four times running is honest; 7.3 m is frozen.
    let steps = [p(45, 30.01, 65.0), p(30, 30.02, 65.0), p(15, 30.03, 65.0)];
    assert!(!spoofed(here, Some(65.0), None, 60, &steps));
    let frozen = [p(45, 30.01, 7.3), p(30, 30.02, 7.3), p(15, 30.03, 7.3)];
    assert!(spoofed(here, Some(7.3), None, 60, &frozen));
    // A perfect accuracy, the OS's own marker, or a jet.
    assert!(spoofed(here, Some(0.0), None, 0, &[]));
    assert!(spoofed(here, Some(8.0), Some(true), 0, &[]));
    assert!(spoofed((31.0, 31.0), Some(8.0), None, 16, &[p(15, 30.0, 9.0)]));
}

#[test]
fn the_suggestion_rounds_halves_away_from_zero() {
    let from = |n: i128| Dec { mantissa: n, scale: 0 };
    assert_eq!(nearest_five_pounds(from(750)), 1000);
    assert_eq!(nearest_five_pounds(from(1250)), 1500);
    assert_eq!(nearest_five_pounds(from(749)), 500);
    assert_eq!(nearest_five_pounds(from(0)), 0);
}

#[test]
fn a_punchs_own_fix_is_judged() {
    assert!(check_punch_fix(Accuracy::Measured, Some(true)));
    assert!(check_punch_fix(Accuracy::Impossible, None));
    assert!(!check_punch_fix(Accuracy::Measured, Some(false)));
    assert!(!check_punch_fix(Accuracy::Unsaid, None));
}

fn ping_facts() -> PingFacts {
    PingFacts {
        at: t(60),
        unverified: false,
        offline: false,
        clocked_in: true,
        month_open: Ok(()),
        inside: false,
        spoofed: false,
        prior: vec![false],
        excused: Vec::new(),
        since: None,
        trail: vec![(t(0), true), (t(30), false)],
        battery_percent: Some(40),
        warned: false,
    }
}

#[test]
fn leaving_takes_two_pings_outside() {
    let out = ping(Ok(()), ping_facts()).unwrap();
    assert_eq!(out.left_mid_shift, Some(30));
    assert_eq!(ping_flags(&out), vec!["left_mid_shift".to_string()]);
    let first = PingFacts { prior: vec![true], ..ping_facts() };
    assert_eq!(ping(Ok(()), first).unwrap().left_mid_shift, None);
    let back = PingFacts { inside: true, ..ping_facts() };
    assert_eq!(ping(Ok(()), back).unwrap().left_mid_shift, None);
    let excused = PingFacts { excused: vec![(t(20), t(120))], ..ping_facts() };
    assert_eq!(ping(Ok(()), excused).unwrap().left_mid_shift, None);
    let flat = PingFacts { battery_percent: Some(15), ..ping_facts() };
    let r = ping(Ok(()), flat).unwrap();
    assert!(r.charge_phone && r.push_charge);
    assert!(ping(Ok(()), PingFacts { clocked_in: false, ..ping_facts() }).is_err());
    assert!(ping(Err(not_accepted()), ping_facts()).is_err());
}

fn flag_facts(kind: &str) -> FlagFacts {
    FlagFacts {
        gate: Ok(()),
        flag: Some(OpenFlag { kind: kind.into(), has_record: true }),
        edit: Ok(()),
        own: false,
        act: Ok(()),
        exact_pay: Ok(1230),
        month_open: Ok(()),
        grant: Ok(Grant::Allow),
    }
}

fn act(action: &str, amount: Option<i64>) -> ResolveFlag {
    ResolveFlag { action: action.into(), amount_piastres: amount, reason: None }
}

#[test]
fn a_flag_is_resolved_by_somebody_else() {
    let kind = "left_mid_shift";
    let p = resolve_flag(flag_facts(kind), &act("ignore", None)).unwrap();
    assert_eq!((p.resolution, p.deduction.is_none()), (Resolution::Ignored, true));
    assert!(resolve_flag(FlagFacts { own: true, ..flag_facts(kind) }, &act("ignore", None)).is_err());
    assert!(resolve_flag(FlagFacts { flag: None, ..flag_facts(kind) }, &act("ignore", None)).is_err());
    assert!(resolve_flag(flag_facts(kind), &act("shout", None)).is_err());
    let p = resolve_flag(flag_facts(kind), &act("deduct", Some(2500))).unwrap();
    let d = p.deduction.unwrap();
    assert_eq!((d.amount_piastres, d.approved), (2500, true));
    assert!(resolve_flag(flag_facts(kind), &act("deduct", Some(0))).is_err());
    assert!(suggests_deduction(kind) && !suggests_deduction("suspicious"));
}

#[test]
fn a_flag_is_told_once() {
    assert!(raise_flag(None, "suspicious").is_none());
    let n = raise_flag(Some((5, true)), "suspicious").unwrap();
    assert!(n.key.contains("suspicious"), "{}", n.key);
}

#[test]
fn time_away_is_priced_as_payroll_prices_it() {
    let whole = |n: i128| Dec { mantissa: n, scale: 0 };
    let day = PricedDay {
        salary_piastres: 900,
        working_days: whole(26),
        day_minutes: 480,
        scheduled_minutes: 540,
    };
    let b = away_basis(Some(day), Some(1), whole(30));
    assert_eq!((b.salary_piastres, b.working_days.mantissa, b.day_minutes), (900, 26, 540));
    let b = away_basis(None, None, whole(30));
    assert_eq!((b.salary_piastres, b.working_days.mantissa, b.day_minutes), (0, 30, 480));
}

#[test]
fn overtime_waits_where_it_must() {
    assert_eq!(after_check_out("automatic", 30, false, false), Some(OvertimeStatus::Approved));
    assert_eq!(after_check_out("approval", 30, false, false), Some(OvertimeStatus::Pending));
    assert_eq!(after_check_out("approval", 0, false, false), None);
    assert_eq!(after_check_out("automatic", 30, true, false), None);
    let facts = || OvertimeFacts {
        gate: Ok(()),
        waiting: true,
        own: false,
        right: Ok(()),
        month_open: Ok(()),
        priced: true,
        limit: Ok(()),
    };
    assert_eq!(decide_overtime(facts(), &Decide { approve: true }).unwrap().status, "approved");
    assert_eq!(decide_overtime(facts(), &Decide { approve: false }).unwrap().status, "rejected");
    assert!(decide_overtime(OvertimeFacts { own: true, ..facts() }, &Decide { approve: true }).is_err());
    assert!(decide_overtime(OvertimeFacts { waiting: false, ..facts() }, &Decide { approve: true }).is_err());
}

fn missed() -> MissedShift {
    MissedShift {
        employee_id: 1,
        employee_name: "Amal".into(),
        branch_id: Some(10),
        work_shift_id: 5,
        shift_name: "Day".into(),
        business_date: 739_892,
        scheduled_start_at: t(0),
        scheduled_end_at: t(480),
        grace_minutes: 15,
        punched: false,
        on_leave: false,
    }
}

#[test]
fn a_missed_shift_can_be_covered() {
    let open = coverable_for(&vec![missed()], &vec![10], t(16));
    assert_eq!(open.len(), 1);
    assert!(coverable_for(&vec![missed()], &vec![10], t(5)).is_empty());
    assert!(coverable_for(&vec![missed()], &vec![11], t(16)).is_empty());
    assert!(coverable_for(&vec![MissedShift { punched: true, ..missed() }], &vec![10], t(16)).is_empty());
    assert!(coverable_for(&vec![missed()], &vec![10], t(481)).is_empty());
    let facts = |busy: bool| CoverFacts {
        rules: Ok(()),
        accepted: Ok(()),
        stamped: Ok(Stamped { at: t(16), offline: false, unverified: false }),
        coverable: coverable_for(&vec![missed()], &vec![10], t(16)),
        month_open: Ok(()),
        fence: Ok(()),
        clocked_in: busy,
        suspicious: false,
    };
    let ask = OpenCover { employee_id: 1, work_shift_id: 5 };
    let p = open_cover(facts(false), &ask).unwrap();
    assert_eq!((p.shift, p.at), (0, t(16)));
    assert!(open_cover(facts(true), &ask).is_err());
    assert!(open_cover(facts(false), &OpenCover { employee_id: 2, work_shift_id: 5 }).is_err());
}

#[test]
fn a_cover_is_decided_by_a_third() {
    let facts = |by: u128| CoverDecisionFacts {
        cover: Some(PendingCover { coverer_user: Some(1), owner_user: Some(2) }),
        right: Ok(()),
        by,
        month_open: Ok(()),
    };
    assert!(decide_cover_record(facts(3), &Decide { approve: true }).is_ok());
    assert!(decide_cover_record(facts(1), &Decide { approve: true }).is_err());
    assert!(decide_cover_record(facts(2), &Decide { approve: true }).is_err());
}

fn for_facts() -> PunchForFacts {
    PunchForFacts {
        gate: Ok(()),
        employment_status: "active".into(),
        own: false,
        rules_saved: true,
        has_branch: true,
        right: Ok(()),
        stamped: Ok(Stamped { at: t(0), offline: false, unverified: false }),
        fallback: Ok(Some(4)),
        shift_branch: Ok(Some(5)),
        right_there: Ok(()),
    }
}

#[test]
fn a_manager_punches_for_somebody_else() {
    let p = punch_for(for_facts(), " phone died ").unwrap();
    assert_eq!((p.branch, p.stamped.at, p.reason.as_str()), (5, t(0), "phone died"));
    assert!(punch_for(PunchForFacts { own: true, ..for_facts() }, "x").is_err());
    assert!(punch_for(for_facts(), " ").is_err());
    assert!(punch_for(for_facts(), "\u{a0}\u{2003}\u{3000}").is_err());
    assert_eq!(punch_for(for_facts(), "\u{85}x\u{205f}").unwrap().reason, "x");
    // A zero-width space is no white space.
    assert_eq!(punch_for(for_facts(), "\u{200b}x").unwrap().reason, "\u{200b}x");
    let left = PunchForFacts { employment_status: "terminated".into(), ..for_facts() };
    assert!(punch_for(left, "x").is_err());
}

fn till_facts() -> TillFacts {
    TillFacts {
        staff_app: false,
        scope: Ok(()),
        branch_id: 10,
        branch_found: true,
        pos_on: true,
        dawam_on: true,
        device_named: true,
        device: Some(TillDevice { branch: Some(10), credential: true, proven: true }),
        till_open: true,
        rules_saved: true,
        throttle: Ok(()),
    }
}

#[test]
fn the_branchs_till_punches() {
    let facts = till_facts;
    assert!(till_punch(facts()).is_ok());
    let other = TillDevice { branch: Some(11), credential: true, proven: true };
    assert!(till_punch(TillFacts { device: Some(other), ..facts() }).is_err());
    let forged = TillDevice { branch: Some(10), credential: true, proven: false };
    assert!(till_punch(TillFacts { device: Some(forged), ..facts() }).is_err());
    assert!(till_punch(TillFacts { dawam_on: false, ..facts() }).is_err());
    assert!(till_holder(PinMatch::One).is_ok());
    assert!(till_holder(PinMatch::Many).is_err());
    assert!(till_holder(PinMatch::Nobody).is_err());
    assert_eq!(till_employee(Some(3), "Amal").unwrap(), 3);
    assert!(till_employee(None, "Amal").is_err());
}

#[test]
fn time_two_excuses_share_is_taken_off_once() {
    let pings = [(t(0), false)];
    let half = (t(0), t(30));
    assert_eq!(away_minutes(&pings, t(60), &[half], None), 30);
    assert_eq!(away_minutes(&pings, t(60), &[half, half], None), 30);
    assert_eq!(away_minutes(&pings, t(60), &[(t(0), t(30)), (t(20), t(40))], None), 20);
    assert_eq!(away_minutes(&pings, t(60), &[(t(20), t(40)), (t(10), t(50)), (t(0), t(5))], None), 15);
}

fn punch_facts(unverified: bool) -> PunchFacts {
    PunchFacts {
        open: None,
        shift: None,
        stamped: Stamped { at: t(3), offline: unverified, unverified },
        month_open: Ok(()),
        uncovered: Ok(()),
    }
}

#[test]
fn a_doubted_punch_is_flagged() {
    assert!(punch(punch_facts(true)).unwrap().time_unverified);
    let p = punch(punch_facts(false)).unwrap();
    assert_eq!((p.way, p.at, p.time_unverified), (Punch::In, t(3), false));
    let out = punch(PunchFacts { open: Some(Ok(())), ..punch_facts(true) }).unwrap();
    assert_eq!((out.way, out.time_unverified), (Punch::Out, true));
    let doubted = Ok(Stamped { at: t(0), offline: true, unverified: true });
    let p = punch_for(PunchForFacts { stamped: doubted, ..for_facts() }, "x").unwrap();
    assert!(p.stamped.unverified);
}

#[test]
fn the_till_goes_from_its_gates_to_the_punch() {
    let holder = |employee: Option<u128>, status: &str| TillHolder {
        name: "Amal".into(),
        employee,
        row: Some((1, status.into())),
    };
    let s = till_step(TillStep::Gates, TillEvent::Gates(till_facts())).next.unwrap();
    assert_eq!(s, TillStep::Pin);
    let wrong = till_step(s, TillEvent::Pin(PinMatch::Nobody));
    assert!(wrong.wrong_pin && wrong.next.is_err());
    let many = till_step(s, TillEvent::Pin(PinMatch::Many));
    assert!(!many.wrong_pin && many.next.is_err());
    let s = till_step(s, TillEvent::Pin(PinMatch::One)).next.unwrap();
    assert_eq!(s, TillStep::Holder);
    assert!(till_step(s, TillEvent::Holder(holder(None, "active"))).next.is_err());
    assert!(till_step(s, TillEvent::Holder(holder(Some(3), "suspended"))).next.is_err());
    let s = till_step(s, TillEvent::Holder(holder(Some(3), "active"))).next.unwrap();
    assert_eq!(s, TillStep::Employee(3));
    match till_step(s, TillEvent::Punch(punch_facts(true))).next.unwrap() {
        TillStep::Made(who, p) => {
            assert_eq!((who, p.way, p.at, p.time_unverified), (3, Punch::In, t(3), false));
        }
        other => panic!("not a punch: {other:?}"),
    }
    let off = TillFacts { pos_on: false, ..till_facts() };
    assert!(till_step(TillStep::Gates, TillEvent::Gates(off)).next.is_err());
}

#[test]
fn the_limit_is_asked_for_what_is_taken() {
    let ask = |action: &str, typed: Option<i64>, kind: &str| {
        let body =
            ResolveFlag { action: action.into(), amount_piastres: typed, reason: None };
        asked_amount(&body, kind, Ok(700))
    };
    assert_eq!(ask("deduct", Some(900), "left_mid_shift").unwrap(), 900);
    assert!(ask("deduct", Some(0), "left_mid_shift").is_err());
    assert_eq!(ask("excuse_unpaid", Some(900), "left_mid_shift").unwrap(), 700);
    assert_eq!(ask("ignore", Some(900), "left_mid_shift").unwrap(), 0);
    assert!(ask("revoke", None, "cover").is_err());
    assert_eq!(priced_minutes(None), 480);
    assert_eq!(priced_minutes(Some(540)), 540);
    assert_eq!(priced_minutes(Some(0)), 1);
}
