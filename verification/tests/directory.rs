use dawam::directory::{
    changed_branches, check_branches, clean_phone, create_document, create_employee, dedup,
    delete_department, employee_kind, guard_linked_user, last_day, list_employees, pay_account,
    pay_scope, put_employee, trimmed_required, upsert_department, validate_employment_status,
    wanted_branches, CreateEmployeeRequest, Employee, EmployeeListQuery, NewEmployeeFacts,
    PutEmployeeFacts, PutEmployeeRequest,
};
use dawam::discipline::{discipline_report, rank_in_department, DisciplineRow};
use dawam::errors::{forbidden, AppError};

fn body() -> CreateEmployeeRequest {
    CreateEmployeeRequest {
        user_id: None,
        name: Some("  Amal ".into()),
        phone: None,
        app_access: None,
        branch_ids: vec![4, 5, 4],
        branch_id: Some(6),
        base_salary_piastres: None,
        job_title: Some(" Barista ".into()),
        gender: None,
        employee_code: Some("  ".into()),
    }
}

fn facts() -> NewEmployeeFacts {
    NewEmployeeFacts {
        gate: Ok(()),
        branches_found: 2,
        right: Ok(()),
        user: None,
        already: false,
        guard: Ok(()),
        digits: Ok("201000000000".into()),
        phone_taken: false,
        may_edit_pay: false,
        department_found: true,
    }
}

#[test]
fn a_new_employee_is_cleaned_up() {
    let wanted = wanted_branches(&body());
    let f = NewEmployeeFacts { branches_found: wanted.len() as i64, ..facts() };
    let e = create_employee(f, &body()).unwrap();
    assert_eq!(e.name, "Amal");
    assert_eq!(e.branches, wanted);
    assert_eq!((e.phone, e.app_access), (None, false));
    assert_eq!(e.job_title.as_deref(), Some("Barista"));
    assert_eq!(e.employee_code, None);
}

#[test]
fn a_new_employee_is_refused_for_a_reason() {
    let n = wanted_branches(&body()).len() as i64;
    let ok = || NewEmployeeFacts { branches_found: n, ..facts() };
    assert!(matches!(
        create_employee(NewEmployeeFacts { gate: Err(forbidden("no")), ..ok() }, &body()),
        Err(AppError::Forbidden(_))
    ));
    assert!(create_employee(NewEmployeeFacts { branches_found: 1, ..ok() }, &body()).is_err());
    let nameless = CreateEmployeeRequest { name: Some("  ".into()), ..body() };
    assert!(create_employee(ok(), &nameless).is_err());
    // The app needs a phone.
    let app = CreateEmployeeRequest { app_access: Some(true), ..body() };
    assert!(create_employee(ok(), &app).is_err());
    let called = CreateEmployeeRequest {
        app_access: Some(true),
        phone: Some("0100 000 0000".into()),
        ..body()
    };
    let e = create_employee(ok(), &called).unwrap();
    assert_eq!(e.phone.as_deref(), Some("+201000000000"));
    assert!(e.app_access);
    assert!(create_employee(NewEmployeeFacts { phone_taken: true, ..ok() }, &called).is_err());
    let paid = CreateEmployeeRequest { base_salary_piastres: Some(-1), ..body() };
    assert!(create_employee(NewEmployeeFacts { may_edit_pay: true, ..ok() }, &paid).is_err());
}

fn change() -> PutEmployeeRequest {
    PutEmployeeRequest {
        name: None,
        phone: None,
        app_access: None,
        branch_ids: None,
        termination_date: None,
        employment_status: None,
        base_salary_piastres: None,
        on_payroll: None,
    }
}

fn copy(r: &PutEmployeeRequest) -> PutEmployeeRequest {
    PutEmployeeRequest {
        employment_status: r.employment_status.clone(),
        termination_date: r.termination_date,
        ..change()
    }
}

fn known() -> PutEmployeeFacts {
    PutEmployeeFacts {
        gate: Ok(()),
        found: Ok(()),
        right: Ok(()),
        department_found: true,
        old_phone_key: Some("201000000000".into()),
        old_app_access: true,
        digits: Ok("201000000000".into()),
        linked: false,
        guard: Ok(()),
        phone_taken: false,
        branches_found: 0,
        branch_right: Ok(()),
        may_edit_pay: false,
    }
}

#[test]
fn a_terminated_employee_loses_the_app() {
    let gone =
        PutEmployeeRequest {
            employment_status: Some("terminated".into()),
            termination_date: Some(739_892),
            ..change()
        };
    let dateless = PutEmployeeRequest { termination_date: None, ..copy(&gone) };
    assert!(matches!(put_employee(known(), &dateless), Err(AppError::BadRequest(_))));
    let r = put_employee(known(), &gone).unwrap();
    assert_eq!(r.employment_status, "terminated");
    assert!(!r.app_access);
    assert!(r.revoke_devices);
    let odd = PutEmployeeRequest { employment_status: Some("resting".into()), ..change() };
    assert!(put_employee(known(), &odd).is_err());
}

#[test]
fn salaries_are_seen_where_payroll_may_be_read() {
    let paid = || Employee {
        branch_ids: vec![4],
        base_salary_piastres: Some(900_000),
        advance_cap_piastres: Some(10),
    };
    assert_eq!(paid().redact_salary(&None, true).base_salary_piastres, Some(900_000));
    assert_eq!(paid().redact_salary(&Some(vec![4]), true).base_salary_piastres, Some(900_000));
    assert_eq!(paid().redact_salary(&Some(vec![5]), true).base_salary_piastres, None);
    assert_eq!(paid().redact_salary(&None, false).base_salary_piastres, None);
    assert!(matches!(pay_scope(Ok(None)), Ok((None, true))));
    assert!(matches!(pay_scope(Err(forbidden("no"))), Ok((None, false)) | Ok((Some(_), false))));
}

#[test]
fn small_rules_of_the_directory() {
    assert_eq!(employee_kind(true, false), "linked");
    assert_eq!(employee_kind(false, true), "app");
    assert_eq!(employee_kind(false, false), "manual");
    assert!(validate_employment_status("active").is_ok());
    assert!(validate_employment_status("asleep").is_err());
    assert_eq!(trimmed_required("  x ", "Name").unwrap(), "x");
    assert!(trimmed_required("   ", "Name").is_err());
    assert_eq!(clean_phone(&None, Ok("1".into())).unwrap(), None);
    assert_eq!(clean_phone(&Some(" ".into()), Ok("1".into())).unwrap(), None);
    assert_eq!(clean_phone(&Some("0".into()), Ok("1".into())).unwrap().as_deref(), Some("+1"));
    assert_eq!(upsert_department(Ok(()), " Bar ", Ok(())).unwrap(), "Bar");
    assert!(delete_department(Ok(()), 0).is_ok());
    assert!(delete_department(Ok(()), 2).is_err());
    assert!(check_branches(2, &vec![1, 2]).is_ok());
    assert!(check_branches(1, &vec![1, 2]).is_err());
    assert_eq!(dedup(&vec![3, 1, 3, 2, 1]), vec![3, 1, 2]);
    let mut differ = changed_branches(&vec![1, 2], &vec![2, 3]);
    differ.sort();
    assert_eq!(differ, vec![1, 3]);
    assert_eq!(last_day(100, None), 100);
    assert_eq!(last_day(100, Some(120)), 120);
    assert_eq!(last_day(100, Some(80)), 100);
    assert_eq!(pay_account(&Some("cash".into()), "bank", &None, &Some("EG1".into())), None);
    assert_eq!(
        pay_account(&None, "bank", &None, &Some("EG1".into())).as_deref(),
        Some("EG1")
    );
    let me = "00000000-0000-0000-0000-000000000007";
    assert!(guard_linked_user(me, 8, Ok(())).is_ok());
    assert!(guard_linked_user(me, 8, Err(forbidden("no"))).is_err());
    let doc = create_document(Ok(()), &None, " Contract ", " http://x ").unwrap();
    assert_eq!((doc.title.as_str(), doc.file_url.as_str()), ("Contract", "http://x"));
    let q = EmployeeListQuery {
        employment_status: Some("gone".into()),
        search: None,
        kind: None,
    };
    assert!(list_employees(&q).is_err());
}

#[test]
fn the_reliable_rank_first_in_their_department() {
    let row = |id: u128, dept: u128, absent: i64, late: i64, minutes: i64| DisciplineRow {
        employee_id: id,
        department_id: Some(dept),
        absent_days: absent,
        late_days: late,
        total_late_minutes: minutes,
    };
    let rows = vec![row(1, 1, 1, 0, 0), row(2, 1, 0, 3, 30), row(3, 1, 0, 3, 20), row(4, 2, 9, 9, 9)];
    assert_eq!(rank_in_department(&rows), vec![3, 2, 1, 1]);
    assert!(discipline_report(Ok(()), 10, 20).is_ok());
    assert!(discipline_report(Ok(()), 10, 500).is_err());
}
