//! Staff sign-in by a code sent to the phone.
//!
//! The number is the one a manager entered on the person's account; there is no
//! self-registration. The code has six digits, lives 300 seconds, takes five
//! tries and is deleted on use. Verifying it binds one phone: a new phone
//! revokes the old one, the manager is told, and no approval is needed.

use vstd::prelude::*;

use crate::calendar::Id;
use crate::dawam::clock::{hex_chars, hex_text};
use crate::errors::{
    bad_request, conflict, either, forbidden, given, not_found, refusal, AppError, ErrorView,
};
use crate::text::{
    chars_of, digit, digit_char, digits_value, int_chars, int_text, is_digit, join, join3, same_text,
};

verus! {

pub const OTP_TTL_SECONDS: i64 = 300;

pub const OTP_MAX_ATTEMPTS: i32 = 5;

/// How long the next code waits after one was sent.
pub const OTP_WAIT_SECONDS: i64 = 60;

/// A code asked for.
pub struct StaffOtpRequest {
    pub phone: String,
}

/// A code sent.
pub struct StaffOtpSent {
    pub sent: bool,
    /// The code itself, only where a developer asked for it.
    pub dev_code: Option<String>,
}

/// A number below a million in six digits.
pub open spec fn six_chars(n: int) -> Seq<char> {
    seq![
        digit_char(n / 100_000 % 10),
        digit_char(n / 10_000 % 10),
        digit_char(n / 1_000 % 10),
        digit_char(n / 100 % 10),
        digit_char(n / 10 % 10),
        digit_char(n % 10),
    ]
}

/// The code of four random bytes, the lowest first.
pub open spec fn code_of(b: Seq<u8>) -> Seq<char> {
    six_chars((b[0] + b[1] * 256 + b[2] * 65_536 + b[3] * 16_777_216) % 1_000_000)
}

/// Sixteen bytes a random id may have: the upper half of the seventh is 4, the
/// two upper bits of the ninth are 10, and the rest is open.
pub open spec fn random_id(b: Seq<u8>) -> bool {
    b.len() == 16 && b[6] / 16 == 4 && b[8] / 64 == 2
}

/// Sixteen random bytes.
///
/// Calls `uuid::Uuid::new_v4`. Its bytes are random but for the version (the
/// upper half of the seventh is 4) and the variant (the two upper bits of the
/// ninth are 10).
#[verifier::external_body]
fn random_bytes() -> (r: [u8; 16])
    ensures
        random_id(r@),
{
    uuid::Uuid::new_v4().into_bytes()
}

/// Whether the text is six decimal digits.
pub open spec fn is_code(s: Seq<char>) -> bool {
    s.len() == 6 && forall|i: int| 0 <= i < 6 ==> is_digit(#[trigger] s[i])
}

/// The code of sixteen random bytes.
pub fn code_from(b: &[u8; 16]) -> (r: String)
    ensures
        r@ == code_of(b@),
        is_code(r@),
{
    let n: u64 = (b[0] as u64 + b[1] as u64 * 256 + b[2] as u64 * 65_536 + b[3] as u64
        * 16_777_216) % 1_000_000;
    let mut out: String = String::new();
    out.push(digit((n / 100_000 % 10) as u8));
    out.push(digit((n / 10_000 % 10) as u8));
    out.push(digit((n / 1_000 % 10) as u8));
    out.push(digit((n / 100 % 10) as u8));
    out.push(digit((n / 10 % 10) as u8));
    out.push(digit((n % 10) as u8));
    assert(out@ =~= code_of(b@));
    out
}

/// A fresh code.
pub fn six_digits() -> (r: String)
    ensures
        is_code(r@),
{
    code_from(&random_bytes())
}

/// The secret a phone keeps, of twice sixteen random bytes.
pub fn device_token_from(a: &[u8; 16], b: &[u8; 16]) -> (r: String)
    ensures
        r@ == hex_chars(a@) + hex_chars(b@),
        r@.len() == 64,
{
    join(hex_text(a).as_str(), hex_text(b).as_str())
}

/// A fresh secret for a phone: the 64 hexadecimal digits of two random ids.
pub fn device_token() -> (r: String)
    ensures
        exists|a: Seq<u8>, b: Seq<u8>|
            random_id(a) && random_id(b) && r@ == #[trigger] hex_chars(a) + #[trigger] hex_chars(b),
        r@.len() == 64,
{
    let a: [u8; 16] = random_bytes();
    let b: [u8; 16] = random_bytes();
    let r: String = device_token_from(&a, &b);
    assert(random_id(a@) && random_id(b@) && r@ == hex_chars(a@) + hex_chars(b@));
    r
}

/// A code is sent to a number a manager entered, once a minute.
pub fn otp_request(
    phone: Result<String, AppError>,
    registered: bool,
    recent: bool,
) -> (r: Result<String, AppError>)
    ensures
        match either(
            refusal(phone),
            either(
                given(
                    !registered,
                    ErrorView::NotFound(
                        "This number isn't registered with any business. Ask your manager to add you."@,
                    ),
                ),
                given(
                    recent,
                    ErrorView::Conflict("A code was just sent. Please wait a minute."@),
                ),
            ),
        ) {
            Some(e) => r is Err && r->Err_0@ == e,
            None => r is Ok && (r->Ok_0)@ == (phone->Ok_0)@,
        },
{
    let phone: String = phone?;
    if !registered {
        return Err(
            not_found(
                "This number isn't registered with any business. Ask your manager to add you.",
            ),
        );
    }
    if recent {
        return Err(conflict("A code was just sent. Please wait a minute."));
    }
    Ok(phone)
}

fn has_code_shape(code: &str) -> (r: bool)
    ensures
        r == is_code(code@),
{
    let cs: Vec<char> = chars_of(code);
    if cs.len() != 6 {
        return false;
    }
    let mut i: usize = 0;
    while i < 6
        invariant
            i <= 6,
            cs@ == code@,
            cs@.len() == 6,
            forall|k: int| 0 <= k < i ==> is_digit(#[trigger] cs@[k]),
        decreases 6 - i,
    {
        if cs[i] < '0' || cs[i] > '9' {
            assert(!is_digit(cs@[i as int]));
            return false;
        }
        i += 1;
    }
    true
}

/// A code that could be one: six digits. Checked before a try is used up.
pub fn otp_shape(phone: Result<String, AppError>, code: &str) -> (r: Result<String, AppError>)
    ensures
        match either(
            refusal(phone),
            given(!is_code(code@), ErrorView::BadRequest("Incorrect code."@)),
        ) {
            Some(e) => r is Err && r->Err_0@ == e,
            None => r is Ok && (r->Ok_0)@ == (phone->Ok_0)@,
        },
{
    let phone: String = phone?;
    if !has_code_shape(code) {
        return Err(bad_request("Incorrect code."));
    }
    Ok(phone)
}

/// Someone who signs in with the number, in one business.
pub struct Account {
    pub employee_id: Id,
    pub user_id: Option<Id>,
    pub org_id: Id,
    pub org_name: String,
    pub org_active: bool,
}

/// The code a try was claimed for, and how many tries it has taken.
pub struct ClaimedCode {
    pub code: String,
    pub attempts: i32,
}

/// What a right code leads to.
#[derive(Debug, Clone, Copy, PartialEq, Eq, Structural)]
pub enum SignIn {
    /// The number works at more than one business and none was picked: ask.
    /// The code stays valid; this try counted.
    AskOrg,
    /// Sign in to this account.
    Account(usize),
}

/// What a wrong code is told, once this try counts.
pub open spec fn wrong_code(attempts: i32) -> ErrorView {
    let left = OTP_MAX_ATTEMPTS - attempts;
    ErrorView::BadRequest(
        if left > 0 {
            "Incorrect code. "@ + int_chars(left) + " tries left."@
        } else {
            "Too many tries — request a new code."@
        },
    )
}

/// Where the first account of the business stands, if there is one.
pub open spec fn account_at(accounts: Seq<Account>, org: Id) -> Option<int>
    decreases accounts.len(),
{
    if accounts.len() == 0 {
        None
    } else {
        match account_at(accounts.drop_last(), org) {
            Some(i) => Some(i),
            None => if accounts.last().org_id == org {
                Some(accounts.len() - 1)
            } else {
                None
            },
        }
    }
}

fn find_account(accounts: &Vec<Account>, org: Id) -> (r: Option<usize>)
    ensures
        match r {
            Some(i) => i < accounts@.len() && account_at(accounts@, org) == Some(i as int),
            None => account_at(accounts@, org) is None,
        },
{
    let mut at: Option<usize> = None;
    let mut i: usize = 0;
    while i < accounts.len()
        invariant
            i <= accounts@.len(),
            match at {
                Some(k) => k < i && account_at(accounts@.take(i as int), org) == Some(k as int),
                None => account_at(accounts@.take(i as int), org) is None,
            },
        decreases accounts@.len() - i,
    {
        assert(accounts@.take(i + 1).drop_last() =~= accounts@.take(i as int));
        if at.is_none() && accounts[i].org_id == org {
            at = Some(i);
        }
        i += 1;
    }
    assert(accounts@.take(accounts@.len() as int) =~= accounts@);
    at
}

/// Which account a right code signs in to: the one of the business picked, or
/// the only one.
pub open spec fn chosen(accounts: Seq<Account>, org: Option<Id>) -> Option<int> {
    match org {
        Some(o) => account_at(accounts, o),
        None => if accounts.len() == 1 {
            Some(0)
        } else {
            None
        },
    }
}

/// The business must be asked for.
pub open spec fn must_ask(accounts: Seq<Account>, org: Option<Id>) -> bool {
    org is None && accounts.len() != 1
}

/// What signing in is refused for, if anything.
pub open spec fn sign_in_refused(
    claimed: Option<ClaimedCode>,
    code: Seq<char>,
    accounts: Seq<Account>,
    org: Option<Id>,
) -> Option<ErrorView> {
    match claimed {
        None => Some(ErrorView::BadRequest("No active code — request a new one."@)),
        Some(c) => if code != c.code@ {
            Some(wrong_code(c.attempts))
        } else if must_ask(accounts, org) {
            None
        } else {
            match chosen(accounts, org) {
                None => Some(ErrorView::NotFound("You don't work at that business."@)),
                Some(i) => given(
                    !accounts[i].org_active,
                    ErrorView::Forbidden(
                        accounts[i].org_name@
                            + " is suspended. Sign-in is stopped until it's reactivated."@,
                    ),
                ),
            }
        },
    }
}

/// Verify a code a try was claimed for. A right one signs in to the business
/// picked, or the only one; where there are several and none was picked, it
/// asks; a suspended business stops it.
pub fn otp_verify(
    claimed: &Option<ClaimedCode>,
    code: &str,
    accounts: &Vec<Account>,
    org: Option<Id>,
) -> (r: Result<SignIn, AppError>)
    requires
        claimed matches Some(c) ==> c.attempts >= 0,
    ensures
        match sign_in_refused(*claimed, code@, accounts@, org) {
            Some(e) => r is Err && r->Err_0@ == e,
            None => match r {
                Ok(SignIn::AskOrg) => must_ask(accounts@, org),
                Ok(SignIn::Account(i)) => !must_ask(accounts@, org) && chosen(accounts@, org)
                    == Some(i as int) && i < accounts@.len(),
                Err(_) => false,
            },
        },
{
    let c: &ClaimedCode = match claimed {
        Some(c) => c,
        None => {
            return Err(bad_request("No active code — request a new one."));
        },
    };
    if !same_text(code, c.code.as_str()) {
        let left: i32 = OTP_MAX_ATTEMPTS - c.attempts;
        if left > 0 {
            let reason: String = join3(
                "Incorrect code. ",
                int_text(left as i64).as_str(),
                " tries left.",
            );
            return Err(bad_request(reason.as_str()));
        }
        return Err(bad_request("Too many tries — request a new code."));
    }
    let at: Option<usize> = match org {
        Some(o) => find_account(accounts, o),
        None => {
            if accounts.len() == 1 {
                Some(0)
            } else {
                return Ok(SignIn::AskOrg);
            }
        },
    };
    let i: usize = match at {
        Some(i) => i,
        None => {
            return Err(not_found("You don't work at that business."));
        },
    };
    if !accounts[i].org_active {
        let reason: String = join(
            accounts[i].org_name.as_str(),
            " is suspended. Sign-in is stopped until it's reactivated.",
        );
        return Err(forbidden(reason.as_str()));
    }
    Ok(SignIn::Account(i))
}

/// A business the number works at.
#[derive(Debug, Clone, PartialEq, Eq)]
pub struct StaffOrgChoice {
    pub org_id: Id,
    pub org_name: String,
    /// False when the business is suspended: sign-in is stopped.
    pub active: bool,
}

/// What a choice says.
pub open spec fn choice_view(c: StaffOrgChoice) -> (Id, Seq<char>, bool) {
    (c.org_id, c.org_name@, c.active)
}

/// The businesses the number works at, one for each account.
pub fn org_choices(accounts: &Vec<Account>) -> (r: Vec<StaffOrgChoice>)
    ensures
        r@.len() == accounts@.len(),
        forall|i: int|
            0 <= i < r@.len() ==> choice_view(#[trigger] r@[i]) == (
                accounts@[i].org_id,
                accounts@[i].org_name@,
                accounts@[i].org_active,
            ),
{
    let mut out: Vec<StaffOrgChoice> = Vec::new();
    let mut i: usize = 0;
    while i < accounts.len()
        invariant
            i <= accounts@.len(),
            out@.len() == i,
            forall|k: int|
                0 <= k < i ==> choice_view(#[trigger] out@[k]) == (
                    accounts@[k].org_id,
                    accounts@[k].org_name@,
                    accounts@[k].org_active,
                ),
        decreases accounts@.len() - i,
    {
        out.push(
            StaffOrgChoice {
                org_id: accounts[i].org_id,
                org_name: accounts[i].org_name.as_str().to_owned(),
                active: accounts[i].org_active,
            },
        );
        i += 1;
    }
    out
}

/// Every code sent could be one: what [`six_digits`] makes passes the shape
/// check.
pub proof fn law_every_code_has_the_shape(b: Seq<u8>)
    requires
        b.len() == 16,
    ensures
        is_code(code_of(b)),
{
    let n = (b[0] + b[1] * 256 + b[2] * 65_536 + b[3] * 16_777_216) % 1_000_000;
    let s = six_chars(n);
    assert forall|i: int| 0 <= i < 6 implies is_digit(#[trigger] s[i]) by {}
}

/// Nobody signs in to a suspended business.
pub proof fn law_a_suspended_business_lets_nobody_in(
    claimed: Option<ClaimedCode>,
    code: Seq<char>,
    accounts: Seq<Account>,
    org: Option<Id>,
    i: int,
)
    requires
        chosen(accounts, org) == Some(i),
        !accounts[i].org_active,
        !must_ask(accounts, org),
    ensures
        sign_in_refused(claimed, code, accounts, org) is Some,
{
}

/// A wrong code never signs in, and the last try says so.
pub proof fn law_a_wrong_code_never_signs_in(
    c: ClaimedCode,
    code: Seq<char>,
    accounts: Seq<Account>,
    org: Option<Id>,
)
    requires
        code != c.code@,
    ensures
        sign_in_refused(Some(c), code, accounts, org) == Some(wrong_code(c.attempts)),
        c.attempts >= OTP_MAX_ATTEMPTS ==> wrong_code(c.attempts) == ErrorView::BadRequest(
            "Too many tries — request a new code."@,
        ),
{
}

// ── the one live phone ──────────────────────────────────────────────────────

/// A phone somebody signed in on.
#[derive(Debug, Clone, Copy, PartialEq, Eq, Structural)]
pub struct Phone {
    pub id: Id,
    pub employee_id: Id,
    /// Signed in, not revoked.
    pub live: bool,
}

/// The phone as it is once its employee moved to another one.
pub open spec fn after_move(p: Phone, employee: Id) -> Phone {
    Phone {
        id: p.id,
        employee_id: p.employee_id,
        live: p.live && p.employee_id != employee,
    }
}

/// The phones once somebody signed in on a new one.
pub open spec fn bound(phones: Seq<Phone>, employee: Id, id: Id) -> Seq<Phone> {
    Seq::new(phones.len(), |i: int| after_move(phones[i], employee)).push(
        Phone { id, employee_id: employee, live: true },
    )
}

/// Somebody has a live phone.
pub open spec fn has_phone(phones: Seq<Phone>, employee: Id) -> bool {
    exists|i: int|
        0 <= i < phones.len() && (#[trigger] phones[i]).employee_id == employee && phones[i].live
}

/// One live phone: signing in moves the employee to the new one. Whether they
/// had another: then the managers are told.
pub fn bind_phone(phones: &mut Vec<Phone>, employee: Id, id: Id) -> (had: bool)
    ensures
        final(phones)@ == bound(old(phones)@, employee, id),
        had == has_phone(old(phones)@, employee),
{
    let ghost start = phones@;
    let mut had: bool = false;
    let mut i: usize = 0;
    while i < phones.len()
        invariant
            i <= phones@.len(),
            phones@.len() == start.len(),
            forall|k: int| 0 <= k < i ==> #[trigger] phones@[k] == after_move(start[k], employee),
            forall|k: int| i <= k < start.len() ==> #[trigger] phones@[k] == start[k],
            had == exists|k: int|
                0 <= k < i && (#[trigger] start[k]).employee_id == employee && start[k].live,
        decreases start.len() - i,
    {
        let p: Phone = phones[i];
        assert(p == start[i as int]);
        if p.employee_id == employee {
            if p.live {
                had = true;
            }
            phones.set(i, Phone { id: p.id, employee_id: p.employee_id, live: false });
        }
        i += 1;
    }
    phones.push(Phone { id, employee_id: employee, live: true });
    assert(phones@ =~= bound(start, employee, id));
    had
}

/// After a sign-in the employee's one live phone is the new one, and everybody
/// else's phones are as they were.
pub proof fn law_one_live_phone(phones: Seq<Phone>, employee: Id, id: Id, i: int)
    requires
        0 <= i < bound(phones, employee, id).len(),
    ensures
        ({
            let p = bound(phones, employee, id)[i];
            &&& p.employee_id == employee && p.live <==> i == phones.len()
            &&& p.employee_id != employee ==> p == phones[i]
        }),
{
}

/// The account signed in to is the first of the business asked for; without one
/// asked for, the only one there is.
pub proof fn law_the_account_of_the_business_is_chosen(accounts: Seq<Account>, org: Id)
    ensures
        match account_at(accounts, org) {
            Some(i) => 0 <= i < accounts.len() && accounts[i].org_id == org && forall|j: int|
                0 <= j < i ==> (#[trigger] accounts[j]).org_id != org,
            None => forall|j: int| 0 <= j < accounts.len() ==> (#[trigger] accounts[j]).org_id
                != org,
        },
        chosen(accounts, Some(org)) == account_at(accounts, org),
        accounts.len() == 1 ==> chosen(accounts, None) == Some(0int),
        !must_ask(accounts, Some(org)),
        must_ask(accounts, None) <==> accounts.len() != 1,
    decreases accounts.len(),
{
    if accounts.len() > 0 {
        let short = accounts.drop_last();
        law_the_account_of_the_business_is_chosen(short, org);
        assert forall|j: int| 0 <= j < short.len() implies #[trigger] accounts[j] == short[j] by {}
    }
}

/// Somebody signs in with the code that was sent, to a business of theirs that is
/// not suspended; one with several and none picked is asked, whatever their
/// businesses are.
pub proof fn law_who_signs_in(
    claimed: Option<ClaimedCode>,
    code: Seq<char>,
    accounts: Seq<Account>,
    org: Option<Id>,
)
    ensures
        sign_in_refused(claimed, code, accounts, org) is None <==> {
            &&& claimed is Some
            &&& claimed->0.code@ == code
            &&& must_ask(accounts, org) || (chosen(accounts, org) is Some && accounts[chosen(
                accounts,
                org,
            )->0].org_active)
        },
{
}

/// A wrong code says how many of the five tries are left.
pub proof fn law_five_tries_are_counted(attempts: i32)
    ensures
        attempts < 5 ==> wrong_code(attempts) == ErrorView::BadRequest(
            "Incorrect code. "@ + int_chars(5 - attempts) + " tries left."@,
        ),
        attempts >= 5 ==> wrong_code(attempts) == ErrorView::BadRequest(
            "Too many tries — request a new code."@,
        ),
{
}

/// Signing in keeps every phone that is not the person's as it was, and ends all
/// of theirs but the new one, which is theirs.
pub proof fn law_signing_in_moves_to_the_new_phone(
    phones: Seq<Phone>,
    employee: Id,
    id: Id,
    i: int,
)
    requires
        0 <= i < phones.len(),
    ensures
        ({
            let after = bound(phones, employee, id);
            &&& after.len() == phones.len() + 1
            &&& after.last().id == id && after.last().employee_id == employee && after.last().live
            &&& after[i].id == phones[i].id && after[i].employee_id == phones[i].employee_id
            &&& phones[i].employee_id == employee ==> !after[i].live
            &&& phones[i].employee_id != employee ==> after[i].live == phones[i].live
        }),
{
}

/// What signing in is refused for first.
pub proof fn law_how_signing_in_is_refused(
    claimed: Option<ClaimedCode>,
    code: Seq<char>,
    accounts: Seq<Account>,
    org: Option<Id>,
)
    ensures
        ({
            sign_in_refused(claimed, code, accounts, org) == if claimed is None {
                Some(ErrorView::BadRequest("No active code — request a new one."@))
            } else if claimed->0.code@ != code {
                Some(wrong_code(claimed->0.attempts))
            } else if !((org is None && accounts.len() != 1) || chosen(accounts, org) is Some) {
                Some(ErrorView::NotFound("You don't work at that business."@))
            } else if !((org is None && accounts.len() != 1) || accounts[chosen(accounts,
                org)->0].org_active) {
                Some(
                    ErrorView::Forbidden(accounts[chosen(accounts, org)->0].org_name@
                        + " is suspended. Sign-in is stopped until it's reactivated."@),
                )
            } else {
                None
            }
        }),
{
}

/// A code spells, in six digits, what its four bytes come to short of a million,
/// the lowest byte first.
pub proof fn law_a_code_spells_its_bytes(b: Seq<u8>)
    requires
        b.len() >= 4,
    ensures
        code_of(b).len() == 6,
        digits_value(code_of(b)) == (b[0] + 256 * b[1] + 65_536 * b[2] + 16_777_216 * b[3])
            % 1_000_000,
{
    lemma_six_digits((b[0] + b[1] * 256 + b[2] * 65_536 + b[3] * 16_777_216) % 1_000_000);
}

proof fn lemma_six_digits(n: int)
    requires
        0 <= n < 1_000_000,
    ensures
        six_chars(n).len() == 6,
        digits_value(six_chars(n)) == n,
{
    let none = Seq::<char>::empty();
    let one = none.push(digit_char(n / 100_000 % 10));
    let two = one.push(digit_char(n / 10_000 % 10));
    let three = two.push(digit_char(n / 1_000 % 10));
    let four = three.push(digit_char(n / 100 % 10));
    let five = four.push(digit_char(n / 10 % 10));
    assert(six_chars(n) =~= five.push(digit_char(n % 10)));
    lemma_one_digit(none, n / 100_000 % 10);
    lemma_one_digit(one, n / 10_000 % 10);
    lemma_one_digit(two, n / 1_000 % 10);
    lemma_one_digit(three, n / 100 % 10);
    lemma_one_digit(four, n / 10 % 10);
    lemma_one_digit(five, n % 10);
}

proof fn lemma_one_digit(s: Seq<char>, d: int)
    requires
        0 <= d < 10,
    ensures
        digits_value(s.push(digit_char(d))) == 10 * digits_value(s) + d,
{
    assert(s.push(digit_char(d)).drop_last() =~= s);
}

} // verus!
