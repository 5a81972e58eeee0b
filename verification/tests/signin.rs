use dawam::dawam::clock::hex_text;
use dawam::dawam::context::{
    context_pay, limit_percent, my_caps, my_context, my_role, role_of_person, shown_branches,
    CapEntry, ContextPerson, PayScope, Powers, Role,
};
use dawam::dawam::privacy::{
    accept, not_accepted, require_accepted, wipe_due, wipe_period_coordinates, ApprovedMonth,
    Coordinates, Located,
};
use dawam::dawam::signin::{
    bind_phone, code_from, device_token, device_token_from, org_choices, otp_request, otp_shape,
    otp_verify, six_digits, Account, ClaimedCode, Phone, SignIn,
};
use dawam::dawam::{notify_managers, set_push_token, PushAction, PushToken};
use dawam::errors::forbidden;

#[test]
fn a_code_is_six_digits_of_random_bytes() {
    let mut b = [0u8; 16];
    b[0] = 0x40;
    b[1] = 0xE2;
    b[2] = 0x01;
    // 0x0001E240 = 123456.
    assert_eq!(code_from(&b), "123456");
    assert_eq!(code_from(&[0; 16]), "000000");
    let code = six_digits();
    assert!(code.len() == 6 && code.chars().all(|c| c.is_ascii_digit()), "{code}");
    assert_eq!(hex_text(&[0x0F, 0xA0]), "0fa0");
    let t = device_token_from(&[0x11; 16], &[0x22; 16]);
    assert!(t.len() >= 64, "{t}");
    assert_ne!(device_token(), device_token());
}

fn account(id: u128, org: u128, active: bool) -> Account {
    Account {
        employee_id: id,
        user_id: None,
        org_id: org,
        org_name: format!("Org {org}"),
        org_active: active,
    }
}

fn claimed(code: &str, attempts: i32) -> Option<ClaimedCode> {
    Some(ClaimedCode { code: code.into(), attempts })
}

#[test]
fn a_code_signs_one_account_in() {
    let one = vec![account(1, 1, true)];
    assert!(matches!(
        otp_verify(&claimed("123456", 1), "123456", &one, None),
        Ok(SignIn::Account(0))
    ));
    assert!(otp_verify(&claimed("123456", 1), "123457", &one, None).is_err());
    assert!(otp_verify(&claimed("123456", 5), "123457", &one, None).is_err());
    assert!(otp_verify(&None, "123456", &one, None).is_err());
    assert!(otp_verify(&claimed("123456", 1), "123456", &one, Some(9)).is_err());
    let two = vec![account(1, 1, true), account(2, 2, true)];
    assert!(matches!(otp_verify(&claimed("1", 1), "1", &two, None), Ok(SignIn::AskOrg)));
    assert!(matches!(otp_verify(&claimed("1", 1), "1", &two, Some(2)), Ok(SignIn::Account(1))));
    assert!(otp_verify(&claimed("1", 1), "1", &vec![account(1, 1, false)], None).is_err());
    assert_eq!(org_choices(&two).len(), 2);
}

#[test]
fn a_code_is_asked_for_and_shaped() {
    assert_eq!(otp_request(Ok("2010".into()), true, false).unwrap(), "2010");
    assert!(otp_request(Ok("2010".into()), false, false).is_err());
    assert!(otp_request(Ok("2010".into()), true, true).is_err());
    assert!(otp_request(Err(forbidden("phone")), true, false).is_err());
    assert!(otp_shape(Ok("2010".into()), "123456").is_ok());
    assert!(otp_shape(Ok("2010".into()), "12345").is_err());
}

#[test]
fn the_notice_is_accepted_once_per_phone() {
    assert!(require_accepted(Some(5)).is_ok());
    match require_accepted(None) {
        Err(e) => assert_eq!(e, not_accepted()),
        Ok(()) => panic!("not accepted yet"),
    }
    assert_eq!(accept(Some(3), 9), 3);
    assert_eq!(accept(None, 9), 9);
}

fn powers(owner: bool, edits: bool) -> Powers {
    Powers {
        owner,
        schedule_edit: edits,
        attendance_edit: false,
        leave_edit: false,
        punch_others: false,
    }
}

#[test]
fn the_context_shows_what_one_may_see() {
    assert_eq!(my_role(&powers(true, false)), Role::Owner);
    assert_eq!(my_role(&powers(false, true)), Role::Manager);
    assert_eq!(my_role(&powers(false, false)), Role::Employee);
    assert_eq!(role_of_person(false, false, true), Role::Manager);
    let mine = vec![4];
    let s = shown_branches(&mine, false, Role::Employee, Ok(None)).unwrap();
    assert!(!s.all);
    assert_eq!(s.ids, vec![4]);
    assert!(matches!(context_pay(false, Role::Employee, Ok(None)), Ok(PayScope::Nowhere)));
    let person = |own: bool| ContextPerson {
        own,
        branch_ids: vec![4],
        base_salary_piastres: 900,
        advance_cap_piastres: None,
        pay_account: Some("EG1".into()),
    };
    let me = my_context(&person(true), &s, &PayScope::Nowhere).unwrap();
    assert_eq!(me.base_salary_piastres, Some(900));
    let other = my_context(&person(false), &s, &PayScope::Nowhere).unwrap();
    assert_eq!(other.base_salary_piastres, None);
    let caps = vec![
        CapEntry { key: "hr.staff.read".into(), hr: true, can: true },
        CapEntry { key: "pos.sell".into(), hr: false, can: true },
        CapEntry { key: "hr.staff.edit".into(), hr: true, can: false },
    ];
    assert_eq!(my_caps(&caps), vec!["hr.staff.read".to_string()]);
    assert_eq!(limit_percent(None), None);
    assert_eq!(limit_percent(Some(1000)), Some(10));
}

#[test]
fn an_empty_token_takes_the_phone_off_push() {
    let set = |token: &str, locale: Option<&str>| {
        set_push_token(&PushToken { token: token.into(), locale: locale.map(Into::into) })
    };
    assert!(matches!(set(" ", None), PushAction::Revoke));
    match set(" abc ", Some("en")) {
        PushAction::Register { token, english } => assert_eq!((token.as_str(), english), ("abc", true)),
        PushAction::Revoke => panic!("registered"),
    }
    assert_eq!(notify_managers(&vec![1, 2, 3], Some(2)), vec![1, 3]);
}

#[test]
fn a_new_phone_takes_the_old_ones_place() {
    let phone = |id: u128, employee_id: u128| Phone { id, employee_id, live: true };
    let mut phones = vec![phone(1, 7), phone(2, 8)];
    assert!(bind_phone(&mut phones, 7, 3));
    let live: Vec<u128> = phones.iter().filter(|p| p.live).map(|p| p.id).collect();
    assert_eq!(live, vec![2, 3]);
    assert!(!bind_phone(&mut phones, 9, 4));
}

#[test]
fn an_approved_month_keeps_no_coordinates() {
    let at = |day: i32| Located {
        business_date: day,
        at: Some(5),
        place: Some(Coordinates { latitude: 30, longitude: 31 }),
        distance_meters: Some(12),
        inside: true,
    };
    let mut list = vec![at(100), at(131), at(110)];
    assert_eq!(wipe_period_coordinates(&mut list, 100, 130), 2);
    assert_eq!(list[0], Located { place: None, ..at(100) });
    assert_eq!(list[1], at(131));
    assert_eq!(wipe_period_coordinates(&mut list, 100, 130), 0);
    let month = ApprovedMonth { approved: true, wiped: true, end_date: 130, located: true };
    assert!(wipe_due(&month, 200));
    assert!(!wipe_due(&month, 300));
    assert!(wipe_due(&ApprovedMonth { wiped: false, ..month }, 300));
    assert!(!wipe_due(&ApprovedMonth { approved: false, ..month }, 200));
}

#[test]
fn a_phones_secret_is_two_random_ids() {
    let token = device_token();
    assert_eq!(token.len(), 64);
    assert!(token.chars().all(|c| c.is_ascii_hexdigit() && !c.is_ascii_uppercase()));
    for half in [&token[..32], &token[32..]] {
        assert_eq!(&half[12..13], "4");
        assert!("89ab".contains(&half[16..17]));
    }
    assert_ne!(token, device_token());
}
