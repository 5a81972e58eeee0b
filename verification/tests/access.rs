use dawam::access::{
    can_everywhere, can_for, caps_everywhere, decision_branch, gate, held_at, in_scope, require_at,
    require_everywhere, require_for, scope, scope_at, Caller, CapHoldings, Held, Holdings, Subject,
};
use dawam::errors::{forbidden, AppError};
use dawam::staff::{require_found, scope_org, validate_decision, validate_range};

const ORG: u128 = 1;

fn manager() -> Caller {
    Caller { super_admin: false, org: Some(ORG) }
}

fn person(branches: Vec<u128>) -> Subject {
    Subject {
        id: 9,
        org_id: ORG,
        user_id: None,
        name: "Amal".into(),
        employment_status: "active".into(),
        branches,
    }
}

fn denied() -> AppError {
    forbidden("no")
}

fn at(branches: Vec<(u128, bool)>, anywhere: bool) -> Option<Holdings> {
    Some(Holdings { owner: false, granted_everywhere: false, anywhere, branches })
}

#[test]
fn a_manager_of_one_branch_does_not_hold_it_everywhere() {
    let h = held_at(&manager(), ORG, &at(vec![(10, true), (11, false)], true)).unwrap();
    assert!(!h.all);
    assert_eq!(h.at, vec![10]);
    assert!(!can_everywhere(&h));
    assert!(matches!(
        require_everywhere(&h, "rules", "hr.rules.edit"),
        Err(AppError::Forbidden(ref s)) if s == "This needs rules for every branch (hr.rules.edit)."
    ));
    assert!(can_for(&h, &person(vec![11, 10])));
    assert!(!can_for(&h, &person(vec![11])));
    assert!(!can_for(&h, &person(Vec::new())));
    assert_eq!(decision_branch(&h, &person(vec![11, 10])), Some(10));
    assert!(require_for(&h, &person(vec![10]), denied()).is_ok());
    assert!(require_for(&h, &person(vec![12]), denied()).is_err());
}

#[test]
fn an_owner_and_a_super_admin_hold_it_everywhere() {
    let owner = Some(Holdings {
        owner: true,
        granted_everywhere: false,
        anywhere: true,
        branches: vec![(10, true)],
    });
    assert!(held_at(&manager(), ORG, &owner).unwrap().all);
    let admin = Caller { super_admin: true, org: None };
    assert!(held_at(&admin, ORG, &None).unwrap().all);
    let nobody = held_at(&manager(), ORG, &None).unwrap();
    assert!(!nobody.all && nobody.at.is_empty());
    assert!(matches!(held_at(&manager(), 2, &owner), Err(AppError::Forbidden(_))));
}

#[test]
fn a_list_shows_the_branches_held() {
    let two = Held { all: false, at: vec![10, 12] };
    assert_eq!(scope(two, denied()).unwrap(), Some(vec![10, 12]));
    assert_eq!(scope(Held { all: true, at: Vec::new() }, denied()).unwrap(), None);
    assert!(scope(Held { all: false, at: Vec::new() }, denied()).is_err());
    assert!(gate(Held { all: false, at: vec![1] }, denied()).is_ok());
    let held = || Held { all: false, at: vec![10] };
    assert_eq!(scope_at(Some(7), Ok(()), held(), denied()).unwrap(), Some(vec![7]));
    assert!(scope_at(Some(7), Err(denied()), held(), denied()).is_err());
    assert_eq!(scope_at(None, Ok(()), held(), denied()).unwrap(), Some(vec![10]));
}

#[test]
fn a_branch_is_acted_at_within_its_business() {
    assert!(matches!(require_at(&manager(), ORG, None, Ok(())), Err(AppError::NotFound(_))));
    assert!(matches!(require_at(&manager(), ORG, Some(2), Ok(())), Err(AppError::Forbidden(_))));
    assert!(require_at(&manager(), ORG, Some(ORG), Ok(())).is_ok());
    assert!(require_at(&manager(), ORG, Some(ORG), Err(denied())).is_err());
}

#[test]
fn capabilities_everywhere_are_those_of_every_branch() {
    let caps = CapHoldings {
        owner: false,
        granted_everywhere: vec![3],
        anywhere: vec![1, 2, 3],
        branches: vec![vec![1, 2, 3], vec![1, 3]],
    };
    assert_eq!(caps_everywhere(&manager(), ORG, &vec![1, 2, 3], &Some(caps)), vec![1, 3]);
    assert_eq!(caps_everywhere(&manager(), ORG, &vec![1, 2, 3], &None), Vec::<u16>::new());
}

#[test]
fn the_scope_filter_names_its_column_and_argument() {
    let sql = in_scope("x.employee_id", 4);
    assert!(sql.contains("x.employee_id") && sql.contains("$4"), "{sql}");
}

#[test]
fn ranges_and_decisions_are_checked() {
    assert!(validate_range(100, 100, 31).is_ok());
    assert!(matches!(
        validate_range(100, 99, 31),
        Err(AppError::BadRequest(ref s)) if s == "`to` is before `from`"
    ));
    assert!(matches!(
        validate_range(100, 132, 31),
        Err(AppError::BadRequest(ref s)) if s == "Range too wide — at most 31 days per request"
    ));
    assert_eq!(validate_decision("approved").unwrap(), "approved");
    assert!(matches!(
        validate_decision("later"),
        Err(AppError::BadRequest(ref s))
            if s == "Unknown decision 'later' — expected approved, rejected, or cancelled"
    ));
    assert!(scope_org(Some(3)).is_ok());
    assert!(matches!(scope_org(None), Err(AppError::Forbidden(_))));
    assert!(matches!(
        require_found(false, "User not found"),
        Err(AppError::NotFound(ref s)) if s == "User not found"
    ));
}

#[test]
fn an_employee_is_keyed_by_their_own_id() {
    let mut p = person(vec![4, 5]);
    assert_eq!(p.home(), Some(4));
    assert!(!p.is("00000000-0000-0000-0000-000000000007"));
    p.user_id = Some(7);
    assert!(p.is("00000000-0000-0000-0000-000000000007"));
    assert!(p.authz_key().contains("0000"));
}
