use dawam::access::Subject;
use dawam::calendar::{Day, Moment};
use dawam::dawam::engine::Limits;
use dawam::dawam::roster::coverage::{
    check_preferences, get_coverage, save_preferences, CoverageSource, HourOrders, Preferences,
};
use dawam::dawam::roster::notices::{announce_open_shift, announce_week, RosterNews, RosterNotice};
use dawam::dawam::roster::open_shifts::{
    cancel_open_shift, claim_open_shift, claimed_once, decide_claim, not_started, post_open_shift,
    withdraw_claim, ClaimDecisionFacts, ClaimFacts, DecideRoster, OpenShift, OpenStatus,
};
use dawam::dawam::roster::swaps::{
    answer_swap, apply_swap, ask_swap, cancel_swap, decide_swap, settle_swap, AskFacts, Swap,
    SwapApplied, SwapDay, SwapDecisionFacts, SwapShift, SwapSide, SwapStatus,
};
use dawam::dawam::roster::views::{
    check_range, colleagues, labour_warnings, leave_days, my_home, my_roster, my_team, roster_rows,
    shifts_at,
    unpublished_weeks, Leave, ResolvedRow,
};
use dawam::days::changes::ResolvedShift;
use dawam::days::{BlockInfo, DayRow, PatternBlock, Places};
use dawam::errors::AppError;
use dawam::ordered::{BranchDay, PersonDay};

/// 2026-10-03, a Saturday.
const SAT: Day = 739_892;
const HOUR: Moment = 3_600_000_000_000;

fn at(hour: Moment) -> Moment {
    20_729 * 24 * HOUR + hour * HOUR
}

fn open(status: OpenStatus, by: Option<u128>) -> Option<OpenShift> {
    Some(OpenShift { status, claimed_by: by })
}

fn info() -> Option<BlockInfo> {
    Some(BlockInfo {
        name: "Day".into(),
        branch_id: Some(10),
        valid_days: (0..7).collect(),
        is_active: true,
    })
}

#[test]
fn an_open_shift_is_posted_claimed_and_filled() {
    let posted = post_open_shift(Ok(()), Ok(()), &info(), 10, SAT, false).unwrap();
    assert_eq!(posted.status, OpenStatus::Open);
    assert!(post_open_shift(Ok(()), Ok(()), &info(), 10, SAT, true).is_err());
    assert!(post_open_shift(Ok(()), Ok(()), &info(), 11, SAT, false).is_err());
    let facts = |shift: Option<OpenShift>| ClaimFacts {
        found: Ok(()),
        shift,
        started: false,
        published: true,
        block: Ok(()),
        rostered: false,
        fits: Ok(()),
    };
    let claimed = claim_open_shift(facts(Some(posted)), 5).unwrap();
    assert_eq!((claimed.status, claimed.claimed_by), (OpenStatus::Claimed, Some(5)));
    assert!(claim_open_shift(facts(open(OpenStatus::Filled, Some(6))), 5).is_err());
    assert!(claim_open_shift(facts(None), 5).is_err());
    let started = ClaimFacts { started: true, ..facts(open(OpenStatus::Open, None)) };
    assert!(matches!(
        claim_open_shift(started, 5),
        Err(AppError::Refused { code: "SHIFT_STARTED", .. })
    ));
    assert!(claimed_once(true).is_ok());
    assert!(claimed_once(false).is_err());
    let decide = |own: bool| ClaimDecisionFacts {
        gate: Ok(()),
        shift: open(OpenStatus::Claimed, Some(5)),
        right: Ok(()),
        found: Ok(()),
        own,
        fits: Ok(()),
    };
    let yes = decide_claim(decide(false), &DecideRoster { approve: true }).unwrap();
    assert_eq!((yes.shift.status, yes.rostered), (OpenStatus::Filled, Some(5)));
    let no = decide_claim(decide(false), &DecideRoster { approve: false }).unwrap();
    assert_eq!((no.shift.status, no.rostered), (OpenStatus::Open, None));
    assert!(decide_claim(decide(true), &DecideRoster { approve: true }).is_err());
    let back = withdraw_claim(Ok(()), open(OpenStatus::Claimed, Some(5)), 5, &None).unwrap();
    assert_eq!((back.status, back.claimed_by), (OpenStatus::Open, None));
    assert!(withdraw_claim(Ok(()), open(OpenStatus::Claimed, Some(5)), 6, &None).is_err());
    let gone = cancel_open_shift(Ok(()), open(OpenStatus::Open, None), Ok(())).unwrap();
    assert_eq!(gone.status, OpenStatus::Cancelled);
    assert!(cancel_open_shift(Ok(()), open(OpenStatus::Filled, Some(5)), Ok(())).is_err());
    assert!(not_started(Some(at(9)), at(8)));
    assert!(!not_started(Some(at(9)), at(9)));
}

fn person(id: u128) -> Subject {
    Subject {
        id,
        org_id: 1,
        user_id: None,
        name: "P".into(),
        employment_status: "active".into(),
        branches: vec![10],
    }
}

fn side(start: Moment) -> Option<SwapShift> {
    Some(SwapShift { start, branch_id: Some(10), published: true })
}

fn swap(status: SwapStatus) -> Swap {
    Swap {
        requester_id: 1,
        requester_date: SAT,
        requester_shift_id: 7,
        peer_id: 2,
        peer_date: SAT + 1,
        peer_shift_id: 8,
        status,
    }
}

#[test]
fn a_swap_is_asked_answered_and_decided() {
    let ask = || AskFacts {
        own: false,
        requester: Ok(person(1)),
        peer: Ok(person(2)),
        mine: side(at(20)),
        theirs: side(at(30)),
        open_already: false,
        fits: Ok(()),
    };
    assert_eq!(ask_swap(ask(), at(1)).unwrap(), SwapStatus::AwaitingPeer);
    assert!(ask_swap(ask(), at(25)).is_err());
    assert!(ask_swap(AskFacts { own: true, ..ask() }, at(1)).is_err());
    assert!(ask_swap(AskFacts { open_already: true, ..ask() }, at(1)).is_err());
    assert!(ask_swap(AskFacts { theirs: None, ..ask() }, at(1)).is_err());
    let waiting = Some(swap(SwapStatus::AwaitingPeer));
    assert_eq!(answer_swap(waiting, 2, true).unwrap(), SwapStatus::Pending);
    assert_eq!(answer_swap(waiting, 2, false).unwrap(), SwapStatus::Rejected);
    assert!(answer_swap(waiting, 1, true).is_err());
    assert_eq!(cancel_swap(waiting, 1).unwrap(), SwapStatus::Cancelled);
    assert!(cancel_swap(waiting, 2).is_err());
    let decide = |own: bool| SwapDecisionFacts {
        gate: Ok(()),
        pending: true,
        found: Ok(()),
        right_requester: Ok(()),
        right_peer: Ok(()),
        own,
        mine: side(at(20)),
        theirs: side(at(30)),
    };
    assert_eq!(decide_swap(decide(false), true, at(1)).unwrap(), SwapStatus::Approved);
    assert_eq!(decide_swap(decide(false), false, at(1)).unwrap(), SwapStatus::Rejected);
    assert!(decide_swap(decide(true), true, at(1)).is_err());
    assert!(decide_swap(decide(false), true, at(21)).is_err());
}

#[test]
fn a_swap_moves_one_block_each_way() {
    let day = |id: u128| SwapDay {
        rows: Vec::new(),
        pattern: vec![
            PatternBlock { work_shift_id: id, branch_id: Some(10) },
            PatternBlock { work_shift_id: 9, branch_id: Some(10) },
        ],
    };
    let half = |id: u128, other: u128| SwapSide {
        gives: day(id),
        gives_at: Some(10),
        takes: Some(SwapDay {
            rows: Vec::new(),
            pattern: vec![PatternBlock { work_shift_id: other, branch_id: Some(10) }],
        }),
        places: Places { business_wide: Vec::new(), branches: vec![10] },
    };
    let applied = apply_swap(
        &swap(SwapStatus::Pending),
        &person(1),
        &person(2),
        &info(),
        &info(),
        half(7, 20),
        half(8, 21),
    )
    .unwrap();
    let (mine, theirs) = settle_swap(applied, &[], &[]).unwrap();
    let ids = |rows: &[DayRow]| rows.iter().map(|r| r.work_shift_id).collect::<Vec<_>>();
    assert_eq!(ids(&mine.gives.rows), vec![Some(9)]);
    assert_eq!(ids(&theirs.gives.rows), vec![Some(9)]);
    assert_eq!(ids(&mine.takes.unwrap().rows), vec![Some(20), Some(8)]);
    assert_eq!(ids(&theirs.takes.unwrap().rows), vec![Some(21), Some(7)]);
}

#[test]
fn staff_see_published_weeks_only() {
    let on = |e: u128, d: Day| PersonDay { employee_id: e, date: d };
    let rows = vec![
        ResolvedRow { whose: on(1, SAT), branch_id: Some(10), start_at: at(9), end_at: at(17) },
        ResolvedRow { whose: on(1, SAT + 7), branch_id: Some(10), start_at: at(177), end_at: at(185) },
        ResolvedRow { whose: on(2, SAT), branch_id: Some(11), start_at: at(9), end_at: at(17) },
        ResolvedRow { whose: on(2, SAT), branch_id: None, start_at: at(9), end_at: at(17) },
    ];
    let all = roster_rows(&rows, None, &vec![on(1, SAT)], &vec![on(2, SAT)]);
    assert_eq!(all.len(), 3);
    assert!(all[0].changed && all[2].on_leave);
    let published = vec![BranchDay { branch_id: 10, date: SAT }];
    let mine = my_roster(&all, &published);
    assert_eq!(mine.iter().map(|s| s.row).collect::<Vec<_>>(), vec![0]);
    assert_eq!(my_team(&all, &vec![10, 11], &published).len(), 1);
    assert_eq!(unpublished_weeks(&published, 10, SAT, SAT + 8), vec![SAT + 7]);
    assert_eq!(shifts_at(all, 11).len(), 1);
    let leaves = vec![Leave { employee_id: 3, from: SAT - 5, to: SAT + 1 }];
    assert_eq!(leave_days(&leaves, SAT, SAT + 9), vec![on(3, SAT), on(3, SAT + 1)]);
    assert!(check_range(SAT, SAT + 61).is_ok());
    assert!(check_range(SAT, SAT + 63).is_err());
    assert!(check_range(SAT, SAT - 1).is_err());
}

#[test]
fn the_grid_warns_of_broken_limits() {
    let on = |d: Day| PersonDay { employee_id: 1, date: d };
    let rows = vec![ResolvedRow { whose: on(SAT), branch_id: Some(10), start_at: at(0), end_at: at(9) }];
    let all = roster_rows(&rows, None, &Vec::new(), &Vec::new());
    let limits = Limits { day: 480, week: 2880, presence: 600, rest: 720 };
    let w = labour_warnings(&vec![1], &all, &limits, &Vec::new(), 120);
    assert_eq!(w.len(), 1);
    assert_eq!((w[0].kind.as_str(), w[0].minutes), ("day_hours", 540));
}

#[test]
fn preferences_are_checked_and_saved() {
    let ask = |time: Option<&str>, days: Vec<i16>| Preferences {
        pref_time: time.map(Into::into),
        cant_work_days: days,
        note: Some("  ".into()),
    };
    assert_eq!(check_preferences(&ask(Some("morning"), vec![3, 1, 3])).unwrap(), vec![1, 3]);
    assert!(check_preferences(&ask(Some("noon"), Vec::new())).is_err());
    assert!(check_preferences(&ask(None, vec![7])).is_err());
    let s = save_preferences(&ask(None, Vec::new()), true, false).unwrap();
    assert!(s.tell && s.note.is_none());
    assert!(!save_preferences(&ask(None, Vec::new()), false, true).unwrap().tell);
}

#[test]
fn coverage_comes_from_the_grid_or_the_sales() {
    let sales = vec![HourOrders { day_of_week: 6, hour: 12, orders: 200 }];
    let (_, source) = get_coverage(2, true, &sales, 12);
    assert_eq!(source, CoverageSource::Grid);
    let (needs, source) = get_coverage(0, true, &sales, 12);
    assert_eq!(source, CoverageSource::Pos);
    // 200 orders over eight weeks are 25 in one: three people.
    assert_eq!((needs.len(), needs[0].staff, needs[0].day_of_week), (1, 3, 6));
    // A need past what the grid's numbers hold keeps its lowest bits.
    let rush = vec![HourOrders { day_of_week: 6, hour: 23, orders: 320_000 }];
    let (needs, _) = get_coverage(0, true, &rush, 1);
    assert_eq!((needs[0].staff, needs[0].band_end), (40_000_u16 as i16, 86_399_000_000_000));
    let (needs, source) = get_coverage(0, false, &sales, 12);
    assert_eq!((needs.len(), source), (0, CoverageSource::Pattern));
}

#[test]
fn a_swap_stays_only_where_nothing_overlaps() {
    let empty = || SwapSide {
        gives: SwapDay { rows: Vec::new(), pattern: Vec::new() },
        gives_at: None,
        takes: None,
        places: Places { business_wide: Vec::new(), branches: Vec::new() },
    };
    let applied = || SwapApplied { mine: empty(), theirs: empty(), from: SAT, to: SAT + 1 };
    let on = |who: u128, name: &str, from: Moment, to: Moment| ResolvedShift {
        employee_id: who,
        on_date: SAT,
        work_shift_id: 7,
        name: name.into(),
        scheduled_start_at: at(from),
        scheduled_end_at: at(to),
    };
    let clear = [on(1, "Day", 8, 12), on(1, "Night", 12, 16)];
    let clash = [on(2, "Day", 8, 13), on(2, "Night", 12, 16)];
    assert!(settle_swap(applied(), &clear, &clear).is_ok());
    let said = |r: Result<(SwapSide, SwapSide), AppError>| match r {
        Err(AppError::CodedVars { code, .. }) => code,
        _ => "",
    };
    assert_eq!(said(settle_swap(applied(), &clash, &clear)), "SHIFTS_OVERLAP");
    assert_eq!(said(settle_swap(applied(), &clear, &clash)), "SHIFTS_OVERLAP");
}

#[test]
fn somebody_without_a_branch_has_no_roster() {
    assert_eq!(my_home(Ok(()), &vec![4, 5]).unwrap(), 4);
    match my_home(Ok(()), &Vec::new()) {
        Err(AppError::BadRequest(m)) => {
            assert_eq!(m, "You have no branch yet — ask your manager.");
        }
        _ => panic!("refused"),
    }
    assert!(my_home(check_range(SAT, SAT - 1), &vec![4]).is_err());
}

#[test]
fn the_publisher_is_not_asked_to_claim() {
    let told = |who: u128, news: RosterNews, date: Day| RosterNotice { employee_id: who, news, date };
    assert_eq!(
        announce_week(true, &vec![1, 2], &vec![1], SAT, &vec![SAT + 1, SAT + 3]),
        vec![
            told(1, RosterNews::WeekPublished, SAT),
            told(2, RosterNews::WeekPublished, SAT),
            told(2, RosterNews::OpenShift, SAT + 1),
            told(2, RosterNews::OpenShift, SAT + 3),
        ]
    );
    assert!(announce_week(false, &vec![1, 2], &vec![1], SAT, &vec![SAT + 1]).is_empty());
    assert_eq!(
        announce_open_shift(true, &vec![1, 2], &vec![1], SAT),
        vec![told(2, RosterNews::OpenShift, SAT)]
    );
    assert!(announce_open_shift(false, &vec![1, 2], &vec![1], SAT).is_empty());
    assert_eq!(RosterNews::OpenShift.as_str(), "staff.n_open_shift");
    assert_eq!(RosterNews::WeekPublished.as_str(), "staff.n_week_published");
}

#[test]
fn colleagues_are_everybody_else_once() {
    assert_eq!(colleagues(&vec![3, 1, 2, 3, 1, 4], 1), vec![3, 2, 4]);
    assert!(colleagues(&vec![1, 1], 1).is_empty());
}
