//! The employee directory: departments, employees, documents.
//!
//! An employee is its own entity, optionally linked to a user:
//!
//! - **linked**: an existing user (a cashier, a manager, the owner) who is also
//!   on payroll.
//! - **app**: no user; signs in to the staff app with a code.
//! - **manual**: no user, no app; payroll and attendance records only.
//!
//! The salary is hidden in the answer unless the caller may read payroll for
//! one of that employee's branches.

use vstd::prelude::*;

use crate::calendar::{id_chars, id_text, Day, Id};
use crate::dawam::presence::covers::has_id;
use crate::errors::{
    bad_request, conflict, either, given, not_found, refusal, AppError, ErrorView,
};
use crate::text::{
    blank_to_none, chars_of, int_chars, int_text, join, join3, lower, maybe, same_text, text_of,
    to_lower, trim, trimmed, unblank,
};

verus! {

/// An employee's pay as the answer shows it, with where they work.
#[derive(Debug, Clone, PartialEq, Eq)]
pub struct Employee {
    pub branch_ids: Vec<Id>,
    /// `None` when the caller may not read this person's pay.
    pub base_salary_piastres: Option<i64>,
    /// Hidden with the salary.
    pub advance_cap_piastres: Option<i64>,
}

/// One of the branches is in the other list.
pub open spec fn shares_branch(branches: Seq<Id>, at: Seq<Id>) -> bool {
    exists|i: int| 0 <= i < branches.len() && at.contains(#[trigger] branches[i])
}

fn share_branch(branches: &Vec<Id>, at: &Vec<Id>) -> (r: bool)
    ensures
        r == shares_branch(branches@, at@),
{
    let mut i: usize = 0;
    while i < branches.len()
        invariant
            i <= branches@.len(),
            forall|k: int| 0 <= k < i ==> !at@.contains(#[trigger] branches@[k]),
        decreases branches@.len() - i,
    {
        if has_id(at, branches[i]) {
            return true;
        }
        i += 1;
    }
    false
}

/// The caller may read the pay of someone at the branches. `pay_scope` is
/// where they may read pay, `None` for every branch.
pub open spec fn pay_visible(
    branches: Seq<Id>,
    pay_scope: Option<Vec<Id>>,
    may_read_pay: bool,
) -> bool {
    may_read_pay && match pay_scope {
        None => true,
        Some(at) => shares_branch(branches, at@),
    }
}

impl Employee {
    /// Strip the salary unless the caller may see it. Every answer that holds
    /// an `Employee` goes through this.
    pub fn redact_salary(self, pay_scope: &Option<Vec<Id>>, may_read_pay: bool) -> (r: Self)
        ensures
            r.branch_ids@ == self.branch_ids@,
            pay_visible(self.branch_ids@, *pay_scope, may_read_pay) ==> r.base_salary_piastres
                == self.base_salary_piastres && r.advance_cap_piastres
                == self.advance_cap_piastres,
            !pay_visible(self.branch_ids@, *pay_scope, may_read_pay) ==> r.base_salary_piastres
                is None && r.advance_cap_piastres is None,
    {
        let visible: bool = may_read_pay && match pay_scope {
            None => true,
            Some(at) => share_branch(&self.branch_ids, at),
        };
        if visible {
            self
        } else {
            Employee {
                branch_ids: self.branch_ids,
                base_salary_piastres: None,
                advance_cap_piastres: None,
            }
        }
    }
}

/// Whether the caller may read pay at all, and where: no right to it hides it
/// rather than failing the request.
pub fn pay_scope(scope: Result<Option<Vec<Id>>, AppError>) -> (r: Result<
    (Option<Vec<Id>>, bool),
    AppError,
>)
    ensures
        match scope {
            Ok(at) => r == Ok::<(Option<Vec<Id>>, bool), AppError>((at, true)),
            Err(AppError::Forbidden(_)) => r is Ok && !(r->Ok_0).1 && (r->Ok_0).0 is Some && (
            r->Ok_0).0->0@ == Seq::<Id>::empty(),
            Err(e) => r == Err::<(Option<Vec<Id>>, bool), AppError>(e),
        },
{
    match scope {
        Ok(at) => Ok((at, true)),
        Err(AppError::Forbidden(_)) => Ok((Some(Vec::new()), false)),
        Err(e) => Err(e),
    }
}

/// What sort of employee someone is.
pub open spec fn kind_of(linked: bool, app_access: bool) -> Seq<char> {
    if linked {
        "linked"@
    } else if app_access {
        "app"@
    } else {
        "manual"@
    }
}

pub fn employee_kind(linked: bool, app_access: bool) -> (r: &'static str)
    ensures
        r@ == kind_of(linked, app_access),
{
    if linked {
        "linked"
    } else if app_access {
        "app"
    } else {
        "manual"
    }
}

/// An employment status there is.
pub open spec fn is_employment_status(s: Seq<char>) -> bool {
    s == "active"@ || s == "suspended"@ || s == "terminated"@
}

/// What an employment status is refused for, if anything.
pub open spec fn status_refused(s: Seq<char>) -> Option<ErrorView> {
    given(
        !is_employment_status(s),
        ErrorView::BadRequest(
            "Unknown employment status '"@ + s
                + "' — expected active, suspended, or terminated"@,
        ),
    )
}

pub fn validate_employment_status(status: &str) -> (r: Result<(), AppError>)
    ensures
        refusal(r) == status_refused(status@),
{
    if same_text(status, "active") || same_text(status, "suspended") || same_text(
        status,
        "terminated",
    ) {
        Ok(())
    } else {
        let reason: String = join3(
            "Unknown employment status '",
            status,
            "' — expected active, suspended, or terminated",
        );
        Err(bad_request(reason.as_str()))
    }
}

/// A required text without the white space around it, or what its absence is
/// refused with.
pub open spec fn required(value: Seq<char>, field: Seq<char>) -> Result<Seq<char>, ErrorView> {
    if trimmed(value).len() > 0 {
        Ok(trimmed(value))
    } else {
        Err(ErrorView::BadRequest(field + " is required"@))
    }
}

/// What a text result says.
pub open spec fn said(r: Result<String, AppError>) -> Result<Seq<char>, ErrorView> {
    match r {
        Ok(t) => Ok(t@),
        Err(e) => Err(e@),
    }
}

pub fn trimmed_required(value: &str, field: &str) -> (r: Result<String, AppError>)
    ensures
        said(r) == required(value@, field@),
{
    let kept: String = trim(value);
    if kept.as_str().is_empty() {
        let reason: String = join(field, " is required");
        Err(bad_request(reason.as_str()))
    } else {
        Ok(kept)
    }
}

/// What an optional text result says.
pub open spec fn said_maybe(r: Result<Option<String>, AppError>) -> Result<
    Option<Seq<char>>,
    ErrorView,
> {
    match r {
        Ok(t) => Ok(maybe(t)),
        Err(e) => Err(e@),
    }
}

/// A phone as stored: `+` and the canonical digits, none where it is blank.
/// `digits` is the number's canonical form, if it has one.
pub open spec fn stored_phone(
    raw: Option<Seq<char>>,
    digits: Result<String, AppError>,
) -> Result<Option<Seq<char>>, ErrorView> {
    match unblank(raw) {
        None => Ok(None),
        Some(_) => match digits {
            Ok(d) => Ok(Some("+"@ + d@)),
            Err(e) => Err(e@),
        },
    }
}

/// A phone as stored: `+` and the canonical digits. Blank is none.
pub fn clean_phone(raw: &Option<String>, digits: Result<String, AppError>) -> (r: Result<
    Option<String>,
    AppError,
>)
    ensures
        said_maybe(r) == stored_phone(maybe(*raw), digits),
{
    match blank_to_none(raw) {
        None => Ok(None),
        Some(_) => Ok(Some(join("+", digits?.as_str()))),
    }
}

/// A text without the `+` it starts with.
pub open spec fn without_plus(s: Seq<char>) -> Seq<char>
    decreases s.len(),
{
    if s.len() > 0 && s[0] == '+' {
        without_plus(s.skip(1))
    } else {
        s
    }
}

fn strip_plus(s: &str) -> (r: String)
    ensures
        r@ == without_plus(s@),
{
    let cs: Vec<char> = chars_of(s);
    let mut i: usize = 0;
    assert(cs@.skip(0) =~= cs@);
    while i < cs.len() && cs[i] == '+'
        invariant
            i <= cs@.len(),
            cs@ == s@,
            without_plus(s@) == without_plus(cs@.skip(i as int)),
        decreases cs@.len() - i,
    {
        assert(cs@.skip(i as int).skip(1) =~= cs@.skip(i + 1));
        i += 1;
    }
    assert(cs@.skip(i as int) =~= cs@.subrange(i as int, cs@.len() as int));
    text_of(&cs, i, cs.len())
}

/// What a department to be saved is called and whether its manager is one of
/// the business.
pub fn upsert_department(
    right: Result<(), AppError>,
    name: &str,
    manager: Result<(), AppError>,
) -> (r: Result<String, AppError>)
    ensures
        said(r) == match either(
            refusal(right),
            match required(name@, "Department name"@) {
                Err(e) => Some(e),
                Ok(_) => refusal(manager),
            },
        ) {
            Some(e) => Err::<Seq<char>, ErrorView>(e),
            None => Ok(trimmed(name@)),
        },
{
    right?;
    let kept: String = trimmed_required(name, "Department name")?;
    manager?;
    Ok(kept)
}

/// A department with people in it is not deleted: silently unfiling them is not
/// what "delete department" means.
pub fn delete_department(right: Result<(), AppError>, occupied: i64) -> (r: Result<(), AppError>)
    ensures
        refusal(r) == either(
            refusal(right),
            given(
                occupied > 0,
                ErrorView::BadRequest(
                    int_chars(occupied as int)
                        + " employee(s) are still in this department — move them first"@,
                ),
            ),
        ),
{
    right?;
    if occupied > 0 {
        let reason: String = join(
            int_text(occupied).as_str(),
            " employee(s) are still in this department — move them first",
        );
        return Err(bad_request(reason.as_str()));
    }
    Ok(())
}

/// What a list of employees is asked for.
pub struct EmployeeListQuery {
    /// `active` | `suspended` | `terminated`. Omitted = every status.
    pub employment_status: Option<String>,
    /// Case-insensitive substring over name, employee code, and job title.
    pub search: Option<String>,
    /// `linked` · `app` · `manual`.
    pub kind: Option<String>,
}

/// What asking for a list of employees is refused for, if anything.
pub open spec fn list_refused(q: EmployeeListQuery) -> Option<ErrorView> {
    either(
        match maybe(q.employment_status) {
            Some(s) => status_refused(s),
            None => None,
        },
        match maybe(q.kind) {
            Some(k) => given(
                k != "linked"@ && k != "app"@ && k != "manual"@,
                ErrorView::BadRequest("kind is linked, app or manual"@),
            ),
            None => None,
        },
    )
}

/// The pattern a list of employees is searched by, if one was asked for.
pub fn list_employees(q: &EmployeeListQuery) -> (r: Result<Option<String>, AppError>)
    ensures
        said_maybe(r) == match list_refused(*q) {
            Some(e) => Err::<Option<Seq<char>>, ErrorView>(e),
            None => Ok(
                match maybe(q.search) {
                    Some(s) => Some("%"@ + lower(trimmed(s)) + "%"@),
                    None => None,
                },
            ),
        },
{
    if let Some(s) = &q.employment_status {
        validate_employment_status(s.as_str())?;
    }
    if let Some(k) = &q.kind {
        let k: &str = k.as_str();
        if !same_text(k, "linked") && !same_text(k, "app") && !same_text(k, "manual") {
            return Err(bad_request("kind is linked, app or manual"));
        }
    }
    match &q.search {
        Some(s) => Ok(Some(join3("%", to_lower(trim(s.as_str()).as_str()).as_str(), "%"))),
        None => Ok(None),
    }
}

/// Linking (or changing the number of) a user who is not the caller gives them
/// a phone sign-in with their own powers: the caller must stand above them.
pub open spec fn guard_refused(
    sub: Seq<char>,
    user: Id,
    dominance: Result<(), AppError>,
) -> Option<ErrorView> {
    if sub == id_chars(user) {
        None
    } else {
        refusal(dominance)
    }
}

pub fn guard_linked_user(sub: &str, user: Id, dominance: Result<(), AppError>) -> (r: Result<
    (),
    AppError,
>)
    ensures
        refusal(r) == guard_refused(sub@, user, dominance),
{
    if same_text(sub, id_text(user).as_str()) {
        Ok(())
    } else {
        dominance
    }
}

/// The branches are all there: as many were found as were asked for.
pub fn check_branches(found: i64, branches: &Vec<Id>) -> (r: Result<(), AppError>)
    requires
        found >= 0,
    ensures
        refusal(r) == given(
            found != branches@.len(),
            ErrorView::NotFound("Branch not found"@),
        ),
{
    if found as u64 != branches.len() as u64 {
        Err(not_found("Branch not found"))
    } else {
        Ok(())
    }
}

/// Each id once, where it first stands.
pub open spec fn once_each(v: Seq<Id>) -> Seq<Id>
    decreases v.len(),
{
    if v.len() == 0 {
        Seq::empty()
    } else {
        let before = once_each(v.drop_last());
        if before.contains(v.last()) {
            before
        } else {
            before.push(v.last())
        }
    }
}

pub fn dedup(v: &Vec<Id>) -> (r: Vec<Id>)
    ensures
        r@ == once_each(v@),
{
    let mut out: Vec<Id> = Vec::new();
    let mut i: usize = 0;
    while i < v.len()
        invariant
            i <= v@.len(),
            out@ == once_each(v@.take(i as int)),
        decreases v@.len() - i,
    {
        assert(v@.take(i + 1).drop_last() =~= v@.take(i as int));
        if !has_id(&out, v[i]) {
            out.push(v[i]);
        }
        i += 1;
    }
    assert(v@.take(v@.len() as int) =~= v@);
    out
}

/// Nothing occurs twice once repeats are dropped, and nothing is lost.
pub proof fn law_once_each(v: Seq<Id>)
    ensures
        once_each(v).no_duplicates(),
        forall|id: Id| once_each(v).contains(id) <==> v.contains(id),
    decreases v.len(),
{
    if v.len() > 0 {
        let before = once_each(v.drop_last());
        law_once_each(v.drop_last());
        assert forall|id: Id| once_each(v).contains(id) <==> v.contains(id) by {
            if v.contains(id) {
                let k = choose|k: int| 0 <= k < v.len() && v[k] == id;
                if k < v.len() - 1 {
                    assert(v.drop_last()[k] == id);
                    assert(v.drop_last().contains(id));
                    assert(before.contains(id));
                    let m = choose|m: int| 0 <= m < before.len() && before[m] == id;
                    assert(once_each(v)[m] == id);
                } else if !before.contains(id) {
                    assert(once_each(v)[before.len() as int] == id);
                }
            }
            if once_each(v).contains(id) {
                let m = choose|m: int| 0 <= m < once_each(v).len() && once_each(v)[m] == id;
                if m < before.len() {
                    assert(before[m] == id);
                    assert(v.drop_last().contains(id));
                    let k = choose|k: int| 0 <= k < v.drop_last().len() && v.drop_last()[k] == id;
                    assert(v[k] == id);
                } else {
                    assert(v[v.len() - 1] == id);
                }
            }
        }
    }
}

/// An employee to add.
pub struct CreateEmployeeRequest {
    /// Make this existing user an employee. Their name and number are the
    /// defaults for the employee's.
    pub user_id: Option<Id>,
    /// Required unless `user_id` is given.
    pub name: Option<String>,
    /// Their number: how they sign in to the staff app.
    pub phone: Option<String>,
    /// May sign in to the staff app. Defaults to "has a phone".
    pub app_access: Option<bool>,
    /// Where they work (at least one). `branch_id` is the older one-branch form.
    pub branch_ids: Vec<Id>,
    pub branch_id: Option<Id>,
    /// Piastres. Ignored without the payroll-edit right for every branch.
    pub base_salary_piastres: Option<i64>,
    pub job_title: Option<String>,
    /// `m` · `f`
    pub gender: Option<String>,
    pub employee_code: Option<String>,
}

/// The branches a new employee works at: the one of the older form first.
pub open spec fn asked_branches(body: CreateEmployeeRequest) -> Seq<Id> {
    once_each(
        match body.branch_id {
            Some(b) => seq![b] + body.branch_ids@,
            None => body.branch_ids@,
        },
    )
}

pub fn wanted_branches(body: &CreateEmployeeRequest) -> (r: Vec<Id>)
    ensures
        r@ == asked_branches(*body),
{
    let mut all: Vec<Id> = Vec::new();
    if let Some(b) = body.branch_id {
        all.push(b);
    }
    let ghost first = all@;
    let mut i: usize = 0;
    while i < body.branch_ids.len()
        invariant
            i <= body.branch_ids@.len(),
            all@ == first + body.branch_ids@.take(i as int),
        decreases body.branch_ids@.len() - i,
    {
        all.push(body.branch_ids[i]);
        assert(body.branch_ids@.take(i + 1) =~= body.branch_ids@.take(i as int).push(
            body.branch_ids@[i as int],
        ));
        i += 1;
    }
    proof {
        assert(body.branch_ids@.take(body.branch_ids@.len() as int) =~= body.branch_ids@);
        match body.branch_id {
            Some(b) => {
                assert(first =~= seq![b]);
            },
            None => {
                assert(first + body.branch_ids@ =~= body.branch_ids@);
            },
        }
    }
    dedup(&all)
}

/// The user someone is to be linked to.
pub struct LinkedUser {
    pub name: String,
    pub phone: Option<String>,
    /// The canonical digits of their phone, if it has them.
    pub digits: Result<String, AppError>,
}

/// The number a new employee gets: the one sent; else the linked user's, where
/// one that is no phone is dropped rather than refused, since it came from
/// their account.
pub open spec fn new_phone_of(
    sent: Option<Seq<char>>,
    digits: Result<String, AppError>,
    linked: Option<LinkedUser>,
) -> Result<Option<Seq<char>>, ErrorView> {
    if unblank(sent) is Some {
        stored_phone(sent, digits)
    } else {
        match linked {
            Some(u) => match stored_phone(maybe(u.phone), u.digits) {
                Ok(p) => Ok(p),
                Err(_) => Ok(None),
            },
            None => Ok(None),
        }
    }
}

fn copy_result(r: &Result<String, AppError>) -> (c: Option<String>)
    ensures
        match *r {
            Ok(t) => c is Some && c->0@ == t@,
            Err(_) => c is None,
        },
{
    match r {
        Ok(t) => Some(t.as_str().to_owned()),
        Err(_) => None,
    }
}

/// The number a new employee gets.
pub fn new_phone(
    sent: &Option<String>,
    digits: Result<String, AppError>,
    linked: &Option<LinkedUser>,
) -> (r: Result<Option<String>, AppError>)
    ensures
        said_maybe(r) == new_phone_of(maybe(*sent), digits, *linked),
{
    if blank_to_none(sent).is_some() {
        return clean_phone(sent, digits);
    }
    match linked {
        Some(u) => {
            if blank_to_none(&u.phone).is_none() {
                return Ok(None);
            }
            match copy_result(&u.digits) {
                Some(d) => Ok(Some(join("+", d.as_str()))),
                None => Ok(None),
            }
        },
        None => Ok(None),
    }
}

/// What is known when an employee is to be added.
pub struct NewEmployeeFacts {
    /// The caller may add staff somewhere.
    pub gate: Result<(), AppError>,
    /// How many of the branches asked for are live branches of the business.
    pub branches_found: i64,
    /// The caller may add staff at each of them.
    pub right: Result<(), AppError>,
    /// The user to link, if the one named is there.
    pub user: Option<LinkedUser>,
    /// That user is an employee already.
    pub already: bool,
    /// The caller stands above that user.
    pub guard: Result<(), AppError>,
    /// The canonical digits of the number sent, if it has them.
    pub digits: Result<String, AppError>,
    /// Someone else here signs in with the number.
    pub phone_taken: bool,
    /// The caller may edit pay at every branch.
    pub may_edit_pay: bool,
    /// The department named is there.
    pub department_found: bool,
}

/// An employee ready to be added.
#[derive(Debug, Clone, PartialEq, Eq)]
pub struct NewEmployee {
    pub branches: Vec<Id>,
    pub name: String,
    pub phone: Option<String>,
    pub app_access: bool,
    pub base_salary_piastres: Option<i64>,
    pub job_title: Option<String>,
    pub gender: Option<String>,
    pub employee_code: Option<String>,
}

/// The name of a new employee: the one sent, else the linked user's.
pub open spec fn new_name(
    sent: Option<Seq<char>>,
    linked: Option<LinkedUser>,
) -> Result<Seq<char>, ErrorView> {
    match unblank(sent) {
        Some(n) => Ok(n),
        None => match linked {
            Some(u) => Ok(u.name@),
            None => Err(ErrorView::BadRequest("name is required"@)),
        },
    }
}

/// What linking the user is refused for, if anything.
pub open spec fn link_refused(f: NewEmployeeFacts, body: CreateEmployeeRequest) -> Option<
    ErrorView,
> {
    if body.user_id is None {
        None
    } else {
        either(
            given(f.user is None, ErrorView::NotFound("User not found"@)),
            either(
                given(f.already, ErrorView::Conflict("That user is already an employee."@)),
                refusal(f.guard),
            ),
        )
    }
}

/// The user a new employee is linked to.
pub open spec fn linked_user(f: NewEmployeeFacts, body: CreateEmployeeRequest) -> Option<
    LinkedUser,
> {
    if body.user_id is None {
        None
    } else {
        f.user
    }
}

/// What the sign-in and pay of a new employee with the number are refused for,
/// if anything.
pub open spec fn sign_in_refused(
    f: NewEmployeeFacts,
    body: CreateEmployeeRequest,
    phone: Option<Seq<char>>,
    app_access: bool,
) -> Option<ErrorView> {
    either(
        given(
            app_access && phone is None,
            ErrorView::BadRequest("The staff app needs their WhatsApp number."@),
        ),
        either(
            given(
                app_access && f.phone_taken,
                ErrorView::Conflict("Someone here already signs in with "@ + phone->0 + "."@),
            ),
            either(
                given(
                    body.base_salary_piastres is Some && body.base_salary_piastres->0 < 0,
                    ErrorView::BadRequest("Salary cannot be negative"@),
                ),
                given(!f.department_found, ErrorView::NotFound("Department not found"@)),
            ),
        ),
    )
}

/// May sign in to the staff app: as asked, or else whoever has a phone.
pub open spec fn new_access(asked: Option<bool>, phone: Option<Seq<char>>) -> bool {
    match asked {
        Some(a) => a,
        None => phone is Some,
    }
}

/// What adding an employee is refused for, if anything.
pub open spec fn create_refused(f: NewEmployeeFacts, body: CreateEmployeeRequest) -> Option<
    ErrorView,
> {
    let branches = asked_branches(body);
    let linked = linked_user(f, body);
    let name = new_name(maybe(body.name), linked);
    let phone = new_phone_of(maybe(body.phone), f.digits, linked);
    either(
        refusal(f.gate),
        either(
            given(
                branches.len() == 0,
                ErrorView::BadRequest("Pick the branch they work at"@),
            ),
            either(
                given(
                    f.branches_found != branches.len(),
                    ErrorView::NotFound("Branch not found"@),
                ),
                either(
                    refusal(f.right),
                    either(
                        link_refused(f, body),
                        match name {
                            Err(e) => Some(e),
                            Ok(_) => match phone {
                                Err(e) => Some(e),
                                Ok(p) => sign_in_refused(
                                    f,
                                    body,
                                    p,
                                    new_access(body.app_access, p),
                                ),
                            },
                        },
                    ),
                ),
            ),
        ),
    )
}

/// Add an employee: linked to an existing user, or without one (with or without
/// the staff app). Never creates a login.
pub fn create_employee(f: NewEmployeeFacts, body: &CreateEmployeeRequest) -> (r: Result<
    NewEmployee,
    AppError,
>)
    requires
        f.branches_found >= 0,
    ensures
        match create_refused(f, *body) {
            Some(e) => r is Err && r->Err_0@ == e,
            None => {
                let linked = linked_user(f, *body);
                let phone = new_phone_of(maybe(body.phone), f.digits, linked)->Ok_0;
                &&& r is Ok
                &&& (r->Ok_0).branches@ == asked_branches(*body)
                &&& new_name(maybe(body.name), linked) == Ok::<Seq<char>, ErrorView>(
                    (r->Ok_0).name@,
                )
                &&& maybe((r->Ok_0).phone) == phone
                &&& (r->Ok_0).app_access == new_access(body.app_access, phone)
                &&& (r->Ok_0).base_salary_piastres == if f.may_edit_pay {
                    body.base_salary_piastres
                } else {
                    None
                }
                &&& maybe((r->Ok_0).job_title) == unblank(maybe(body.job_title))
                &&& maybe((r->Ok_0).gender) == unblank(maybe(body.gender))
                &&& maybe((r->Ok_0).employee_code) == unblank(maybe(body.employee_code))
            },
        },
{
    f.gate?;
    let branches: Vec<Id> = wanted_branches(body);
    if branches.len() == 0 {
        return Err(bad_request("Pick the branch they work at"));
    }
    check_branches(f.branches_found, &branches)?;
    f.right?;
    let linked: Option<LinkedUser> = match body.user_id {
        Some(_) => {
            let user: LinkedUser = match f.user {
                Some(u) => u,
                None => {
                    return Err(not_found("User not found"));
                },
            };
            if f.already {
                return Err(conflict("That user is already an employee."));
            }
            f.guard?;
            Some(user)
        },
        None => None,
    };
    let name: String = match blank_to_none(&body.name) {
        Some(n) => n,
        None => match &linked {
            Some(u) => u.name.as_str().to_owned(),
            None => {
                return Err(bad_request("name is required"));
            },
        },
    };
    let phone: Option<String> = new_phone(&body.phone, f.digits, &linked)?;
    let app_access: bool = match body.app_access {
        Some(a) => a,
        None => phone.is_some(),
    };
    if app_access {
        match &phone {
            None => {
                return Err(bad_request("The staff app needs their WhatsApp number."));
            },
            Some(p) => {
                if f.phone_taken {
                    let reason: String = join3(
                        "Someone here already signs in with ",
                        p.as_str(),
                        ".",
                    );
                    return Err(conflict(reason.as_str()));
                }
            },
        }
    }
    let negative: bool = match body.base_salary_piastres {
        Some(s) => s < 0,
        None => false,
    };
    if negative {
        return Err(bad_request("Salary cannot be negative"));
    }
    if !f.department_found {
        return Err(not_found("Department not found"));
    }
    Ok(
        NewEmployee {
            branches,
            name,
            phone,
            app_access,
            base_salary_piastres: if f.may_edit_pay {
                body.base_salary_piastres
            } else {
                None
            },
            job_title: blank_to_none(&body.job_title),
            gender: blank_to_none(&body.gender),
            employee_code: blank_to_none(&body.employee_code),
        },
    )
}

/// An employee's profile to save. Profile fields are a full replace (nothing
/// clears them); `name`, `phone`, `app_access` and `branch_ids` are kept when
/// omitted.
pub struct PutEmployeeRequest {
    pub name: Option<String>,
    /// A new number signs the old phone out. Empty clears it.
    pub phone: Option<String>,
    /// Turning it off signs the phone out.
    pub app_access: Option<bool>,
    /// The whole set of branches.
    pub branch_ids: Option<Vec<Id>>,
    pub termination_date: Option<Day>,
    /// `active` | `suspended` | `terminated`. Defaults to `active`. Anything but
    /// `active` signs the phone out.
    pub employment_status: Option<String>,
    /// Piastres. Ignored unless the caller has the payroll-edit right for every
    /// branch: a branch manager editing a job title must not award a raise.
    pub base_salary_piastres: Option<i64>,
    /// Paid here. Like the salary, ignored without that right.
    pub on_payroll: Option<bool>,
}

/// What is known when an employee's profile is to be saved.
pub struct PutEmployeeFacts {
    /// The caller may edit staff somewhere.
    pub gate: Result<(), AppError>,
    /// The person is an employee of the business.
    pub found: Result<(), AppError>,
    /// The caller may edit this person.
    pub right: Result<(), AppError>,
    /// The department named is there.
    pub department_found: bool,
    /// The canonical digits of the stored number.
    pub old_phone_key: Option<String>,
    pub old_app_access: bool,
    /// The canonical digits of the number sent, if it has them.
    pub digits: Result<String, AppError>,
    /// The person is linked to a user.
    pub linked: bool,
    /// The caller stands above that user.
    pub guard: Result<(), AppError>,
    /// Someone else here signs in with the number sent.
    pub phone_taken: bool,
    /// How many of the branches asked for are live branches of the business.
    pub branches_found: i64,
    /// The caller may edit staff at each branch added or taken away.
    pub branch_right: Result<(), AppError>,
    /// The caller may edit pay at every branch.
    pub may_edit_pay: bool,
}

/// The status to save.
pub open spec fn put_status(sent: Option<Seq<char>>) -> Seq<char> {
    match sent {
        Some(s) => s,
        None => "active"@,
    }
}

/// The number to store, where one was sent: it may clear it.
pub open spec fn put_phone(sent: Option<Seq<char>>, digits: Result<String, AppError>) -> Result<
    Option<Option<Seq<char>>>,
    ErrorView,
> {
    match sent {
        None => Ok(None),
        Some(_) => match stored_phone(sent, digits) {
            Ok(p) => Ok(Some(p)),
            Err(e) => Err(e),
        },
    }
}

/// The digits the person signs in with afterwards.
pub open spec fn key_after(
    phone: Option<Option<Seq<char>>>,
    old: Option<Seq<char>>,
) -> Option<Seq<char>> {
    match phone {
        Some(Some(p)) => Some(without_plus(p)),
        Some(None) => None,
        None => old,
    }
}

/// May sign in afterwards: as asked, else as before, never once terminated.
pub open spec fn access_after(asked: Option<bool>, old: bool, status: Seq<char>) -> bool {
    status != "terminated"@ && match asked {
        Some(a) => a,
        None => old,
    }
}

/// What the sign-in after the change is refused for, if anything.
pub open spec fn put_sign_in_refused(
    f: PutEmployeeFacts,
    phone: Option<Option<Seq<char>>>,
    app_access: bool,
) -> Option<ErrorView> {
    let key = key_after(phone, maybe(f.old_phone_key));
    let changed = key != maybe(f.old_phone_key) || app_access != f.old_app_access;
    either(
        given(
            app_access && key is None,
            ErrorView::BadRequest("The staff app needs their WhatsApp number."@),
        ),
        either(
            if f.linked && changed && app_access {
                refusal(f.guard)
            } else {
                None
            },
            match phone {
                Some(Some(p)) => given(
                    app_access && f.phone_taken,
                    ErrorView::Conflict("Someone here already signs in with "@ + p + "."@),
                ),
                _ => None,
            },
        ),
    )
}

/// What the branches asked for are refused for, if anything.
pub open spec fn put_branches_refused(f: PutEmployeeFacts, body: PutEmployeeRequest) -> Option<
    ErrorView,
> {
    match body.branch_ids {
        None => None,
        Some(asked) => {
            let wanted = once_each(asked@);
            either(
                given(
                    wanted.len() == 0,
                    ErrorView::BadRequest("An employee works at one branch at least"@),
                ),
                either(
                    given(
                        f.branches_found != wanted.len(),
                        ErrorView::NotFound("Branch not found"@),
                    ),
                    refusal(f.branch_right),
                ),
            )
        },
    }
}

/// What saving an employee's profile is refused for, if anything.
pub open spec fn put_refused(f: PutEmployeeFacts, body: PutEmployeeRequest) -> Option<ErrorView> {
    let status = put_status(maybe(body.employment_status));
    either(
        refusal(f.gate),
        either(
            refusal(f.found),
            either(
                refusal(f.right),
                either(
                    status_refused(status),
                    either(
                        given(
                            status == "terminated"@ && body.termination_date is None,
                            ErrorView::BadRequest(
                                "A terminated employee needs a termination date"@,
                            ),
                        ),
                        either(
                            given(
                                status != "terminated"@ && body.termination_date is Some,
                                ErrorView::BadRequest(
                                    "Only a terminated employee may carry a termination date"@,
                                ),
                            ),
                            either(
                                given(
                                    !f.department_found,
                                    ErrorView::NotFound("Department not found"@),
                                ),
                                match put_phone(maybe(body.phone), f.digits) {
                                    Err(e) => Some(e),
                                    Ok(phone) => either(
                                        put_sign_in_refused(
                                            f,
                                            phone,
                                            access_after(
                                                body.app_access,
                                                f.old_app_access,
                                                status,
                                            ),
                                        ),
                                        either(
                                            put_branches_refused(f, body),
                                            either(
                                                given(
                                                    body.base_salary_piastres is Some
                                                        && body.base_salary_piastres->0 < 0,
                                                    ErrorView::BadRequest(
                                                        "Salary cannot be negative"@,
                                                    ),
                                                ),
                                                match maybe(body.name) {
                                                    Some(n) => match required(n, "name"@) {
                                                        Ok(_) => None,
                                                        Err(e) => Some(e),
                                                    },
                                                    None => None,
                                                },
                                            ),
                                        ),
                                    ),
                                },
                            ),
                        ),
                    ),
                ),
            ),
        ),
    )
}

/// What saving an employee's profile changes.
#[derive(Debug, Clone, PartialEq, Eq)]
pub struct EmployeeChange {
    pub name: Option<String>,
    /// The number is replaced, by this or by none.
    pub phone: Option<Option<String>>,
    pub app_access: bool,
    pub employment_status: String,
    /// The whole set of branches, where it changes.
    pub branches: Option<Vec<Id>>,
    /// `None` keeps what is stored.
    pub base_salary_piastres: Option<i64>,
    /// `None` keeps what is stored.
    pub on_payroll: Option<bool>,
    /// Every phone is signed out.
    pub revoke_devices: bool,
}

/// What a replaced number says.
pub open spec fn phone_view(p: Option<Option<String>>) -> Option<Option<Seq<char>>> {
    match p {
        Some(t) => Some(maybe(t)),
        None => None,
    }
}

fn same_maybe(a: &Option<String>, b: &Option<String>) -> (r: bool)
    ensures
        r == (maybe(*a) == maybe(*b)),
{
    match a {
        Some(x) => match b {
            Some(y) => same_text(x.as_str(), y.as_str()),
            None => false,
        },
        None => b.is_none(),
    }
}

/// Save an employee's profile. Whoever is not active any more, gets a new
/// number or has the app switched off or on loses it on every phone at once.
pub fn put_employee(f: PutEmployeeFacts, body: &PutEmployeeRequest) -> (r: Result<
    EmployeeChange,
    AppError,
>)
    requires
        f.branches_found >= 0,
    ensures
        match put_refused(f, *body) {
            Some(e) => r is Err && r->Err_0@ == e,
            None => {
                let status = put_status(maybe(body.employment_status));
                let phone = put_phone(maybe(body.phone), f.digits)->Ok_0;
                let app = access_after(body.app_access, f.old_app_access, status);
                let c = r->Ok_0;
                &&& r is Ok
                &&& maybe(c.name) == match maybe(body.name) {
                    Some(n) => Some(trimmed(n)),
                    None => None,
                }
                &&& phone_view(c.phone) == phone
                &&& c.app_access == app
                &&& c.employment_status@ == status
                &&& c.branches is Some <==> body.branch_ids is Some
                &&& c.branches is Some ==> c.branches->0@ == once_each(body.branch_ids->0@)
                &&& c.base_salary_piastres == if f.may_edit_pay {
                    body.base_salary_piastres
                } else {
                    None
                }
                &&& c.on_payroll == if f.may_edit_pay {
                    body.on_payroll
                } else {
                    None
                }
                &&& c.revoke_devices == (key_after(phone, maybe(f.old_phone_key)) != maybe(
                    f.old_phone_key,
                ) || app != f.old_app_access || status != "active"@)
            },
        },
{
    f.gate?;
    f.found?;
    f.right?;
    let status: String = match &body.employment_status {
        Some(s) => {
            validate_employment_status(s.as_str())?;
            s.as_str().to_owned()
        },
        None => "active".to_owned(),
    };
    let terminated: bool = same_text(status.as_str(), "terminated");
    if terminated && body.termination_date.is_none() {
        return Err(bad_request("A terminated employee needs a termination date"));
    }
    if !terminated && body.termination_date.is_some() {
        return Err(bad_request("Only a terminated employee may carry a termination date"));
    }
    if !f.department_found {
        return Err(not_found("Department not found"));
    }
    let phone: Option<Option<String>> = match &body.phone {
        None => None,
        Some(_) => Some(clean_phone(&body.phone, f.digits)?),
    };
    let new_key: Option<String> = match &phone {
        Some(Some(p)) => Some(strip_plus(p.as_str())),
        Some(None) => None,
        None => match &f.old_phone_key {
            Some(k) => Some(k.as_str().to_owned()),
            None => None,
        },
    };
    let app_access: bool = match body.app_access {
        Some(a) => a,
        None => f.old_app_access,
    } && !terminated;
    if app_access && new_key.is_none() {
        return Err(bad_request("The staff app needs their WhatsApp number."));
    }
    let changed: bool = !same_maybe(&new_key, &f.old_phone_key) || app_access
        != f.old_app_access;
    if f.linked && changed && app_access {
        f.guard?;
    }
    if app_access && f.phone_taken {
        if let Some(Some(p)) = &phone {
            let reason: String = join3("Someone here already signs in with ", p.as_str(), ".");
            return Err(conflict(reason.as_str()));
        }
    }
    let branches: Option<Vec<Id>> = match &body.branch_ids {
        Some(asked) => {
            let wanted: Vec<Id> = dedup(asked);
            if wanted.len() == 0 {
                return Err(bad_request("An employee works at one branch at least"));
            }
            check_branches(f.branches_found, &wanted)?;
            f.branch_right?;
            Some(wanted)
        },
        None => None,
    };
    let negative: bool = match body.base_salary_piastres {
        Some(s) => s < 0,
        None => false,
    };
    if negative {
        return Err(bad_request("Salary cannot be negative"));
    }
    let name: Option<String> = match &body.name {
        Some(n) => Some(trimmed_required(n.as_str(), "name")?),
        None => None,
    };
    let active: bool = same_text(status.as_str(), "active");
    Ok(
        EmployeeChange {
            name,
            phone,
            app_access,
            employment_status: status,
            branches,
            base_salary_piastres: if f.may_edit_pay {
                body.base_salary_piastres
            } else {
                None
            },
            on_payroll: if f.may_edit_pay {
                body.on_payroll
            } else {
                None
            },
            revoke_devices: changed || !active,
        },
    )
}

/// The branches added to or taken from a person: the caller must run each of
/// them.
pub open spec fn moved_branches(wanted: Seq<Id>, had: Seq<Id>) -> Seq<Id> {
    wanted.filter(|b: Id| !had.contains(b)) + had.filter(|b: Id| !wanted.contains(b))
}

fn not_in(list: &Vec<Id>, other: &Vec<Id>) -> (r: Vec<Id>)
    ensures
        r@ == list@.filter(|b: Id| !other@.contains(b)),
{
    let mut out: Vec<Id> = Vec::new();
    let mut i: usize = 0;
    while i < list.len()
        invariant
            i <= list@.len(),
            out@ == list@.take(i as int).filter(|b: Id| !other@.contains(b)),
        decreases list@.len() - i,
    {
        let keep: bool = !has_id(other, list[i]);
        proof {
            let f = |b: Id| !other@.contains(b);
            reveal(Seq::filter);
            assert(list@.take(i + 1).drop_last() =~= list@.take(i as int));
            assert(keep == f(list@[i as int]));
        }
        if keep {
            out.push(list[i]);
        }
        i += 1;
    }
    assert(list@.take(list@.len() as int) =~= list@);
    out
}

/// The branches added to or taken from a person, added ones first.
pub fn changed_branches(wanted: &Vec<Id>, had: &Vec<Id>) -> (r: Vec<Id>)
    ensures
        r@ == moved_branches(wanted@, had@),
{
    let mut out: Vec<Id> = not_in(wanted, had);
    let mut gone: Vec<Id> = not_in(had, wanted);
    out.append(&mut gone);
    out
}

/// The account someone is paid into afterwards: none for a cash payee, else as
/// sent, else as before. An account kept for a cash payee would feed the bank
/// and wallet lists.
pub open spec fn account_after(
    method: Option<Seq<char>>,
    method_was: Seq<char>,
    account: Option<Option<Seq<char>>>,
    account_was: Option<Seq<char>>,
) -> Option<Seq<char>> {
    let now = match method {
        Some(m) => m,
        None => method_was,
    };
    if now == "cash"@ {
        None
    } else {
        match account {
            Some(a) => unblank(a),
            None => account_was,
        }
    }
}

/// The account someone is paid into afterwards.
pub fn pay_account(
    method: &Option<String>,
    method_was: &str,
    account: &Option<Option<String>>,
    account_was: &Option<String>,
) -> (r: Option<String>)
    ensures
        maybe(r) == account_after(
            unblank(maybe(*method)),
            method_was@,
            phone_view(*account),
            maybe(*account_was),
        ),
{
    let cash: bool = match blank_to_none(method) {
        Some(m) => same_text(m.as_str(), "cash"),
        None => same_text(method_was, "cash"),
    };
    if cash {
        return None;
    }
    match account {
        Some(a) => blank_to_none(a),
        None => match account_was {
            Some(a) => Some(a.as_str().to_owned()),
            None => None,
        },
    }
}

/// The day someone's employment ends when they are removed: today, or the day
/// they were hired where that is still to come.
pub fn last_day(today: Day, hired: Option<Day>) -> (r: Day)
    ensures
        r == match hired {
            Some(h) if h > today => h,
            _ => today,
        },
{
    match hired {
        Some(h) if h > today => h,
        _ => today,
    }
}

/// A document attached to an employee.
#[derive(Debug, Clone, PartialEq, Eq)]
pub struct NewDocument {
    pub kind: String,
    pub title: String,
    pub file_url: String,
}

/// A document has a title and a file; of no other kind, it is of the kind
/// `other`.
pub fn create_document(
    right: Result<(), AppError>,
    kind: &Option<String>,
    title: &str,
    file_url: &str,
) -> (r: Result<NewDocument, AppError>)
    ensures
        match either(
            refusal(right),
            match required(title@, "Document title"@) {
                Err(e) => Some(e),
                Ok(_) => match required(file_url@, "File URL"@) {
                    Err(e) => Some(e),
                    Ok(_) => None,
                },
            },
        ) {
            Some(e) => r is Err && r->Err_0@ == e,
            None => {
                &&& r is Ok
                &&& (r->Ok_0).title@ == trimmed(title@)
                &&& (r->Ok_0).file_url@ == trimmed(file_url@)
                &&& (r->Ok_0).kind@ == match unblank(maybe(*kind)) {
                    Some(k) => k,
                    None => "other"@,
                }
            },
        },
{
    right?;
    let title: String = trimmed_required(title, "Document title")?;
    let file_url: String = trimmed_required(file_url, "File URL")?;
    let kind: String = match blank_to_none(kind) {
        Some(k) => k,
        None => "other".to_owned(),
    };
    Ok(NewDocument { kind, title, file_url })
}

/// Nobody signs in to the staff app once terminated.
pub proof fn law_the_terminated_have_no_app(asked: Option<bool>, old: bool)
    ensures
        !access_after(asked, old, "terminated"@),
{
}

/// A cash payee has no account, whatever was stored or sent.
pub proof fn law_cash_has_no_account(
    method_was: Seq<char>,
    account: Option<Option<Seq<char>>>,
    account_was: Option<Seq<char>>,
)
    ensures
        account_after(Some("cash"@), method_was, account, account_was) is None,
        method_was == "cash"@ ==> account_after(None, method_was, account, account_was) is None,
{
}

/// Pay is read by who may read it at one of the person's branches, or at every
/// branch.
pub proof fn law_whose_pay_is_read(
    branches: Seq<Id>,
    pay_scope: Option<Vec<Id>>,
    may_read_pay: bool,
)
    ensures
        pay_visible(branches, pay_scope, may_read_pay) <==> may_read_pay && (pay_scope is Some
            ==> exists|b: Id| #[trigger] branches.contains(b) && pay_scope->0@.contains(b)),
{
    if pay_scope is Some {
        let at = pay_scope->0@;
        if shares_branch(branches, at) {
            let i = choose|i: int| 0 <= i < branches.len() && at.contains(#[trigger] branches[i]);
            assert(branches.contains(branches[i]));
        }
        if exists|b: Id| #[trigger] branches.contains(b) && at.contains(b) {
            let b = choose|b: Id| #[trigger] branches.contains(b) && at.contains(b);
            let i = choose|i: int| 0 <= i < branches.len() && branches[i] == b;
            assert(at.contains(branches[i]));
        }
    }
}

/// A linked user makes an employee linked, the app alone an app one, and neither
/// a manual one.
pub proof fn law_what_sort_of_employee(linked: bool, app_access: bool)
    ensures
        linked ==> kind_of(linked, app_access) == "linked"@,
        !linked && app_access ==> kind_of(linked, app_access) == "app"@,
        !linked && !app_access ==> kind_of(linked, app_access) == "manual"@,
{
}

/// An employment is active, suspended or terminated.
pub proof fn law_three_employment_statuses(s: Seq<char>)
    ensures
        status_refused(s) is None <==> s == "active"@ || s == "suspended"@ || s == "terminated"@,
{
}

/// A required text is taken trimmed, and refused where nothing is left of it.
pub proof fn law_a_required_text_is_trimmed(value: Seq<char>, field: Seq<char>)
    ensures
        required(value, field) is Ok <==> trimmed(value).len() > 0,
        required(value, field) is Ok ==> required(value, field) == Ok::<Seq<char>, ErrorView>(
            trimmed(value),
        ),
{
}

/// A phone is stored as a plus and its digits; a blank one is none, whatever the
/// digits.
pub proof fn law_a_phone_is_stored_with_a_plus(
    raw: Option<Seq<char>>,
    digits: Result<String, AppError>,
)
    ensures
        unblank(raw) is None ==> stored_phone(raw, digits) == Ok::<Option<Seq<char>>, ErrorView>(
            None,
        ),
        unblank(raw) is Some && digits is Ok ==> stored_phone(raw, digits) == Ok::<
            Option<Seq<char>>,
            ErrorView,
        >(Some("+"@ + (digits->Ok_0)@)),
        unblank(raw) is Some && digits is Err ==> stored_phone(raw, digits) is Err,
{
}

/// The digits behind the plus are the text without it.
pub proof fn law_the_plus_is_dropped(digits: Seq<char>)
    requires
        digits.len() == 0 || digits[0] != '+',
    ensures
        without_plus("+"@ + digits) == digits,
        without_plus(digits) == digits,
{
    reveal_strlit("+");
    let s = "+"@ + digits;
    assert(s[0] == '+');
    assert(s.skip(1) =~= digits);
    assert(without_plus(digits) == digits);
    assert(without_plus(s) == without_plus(s.skip(1)));
}

/// The number sent comes first and must be one; the linked user's is taken where
/// none is sent, and never refused.
pub proof fn law_a_sent_number_comes_first(
    sent: Option<Seq<char>>,
    digits: Result<String, AppError>,
    linked: Option<LinkedUser>,
)
    ensures
        unblank(sent) is Some ==> new_phone_of(sent, digits, linked) == stored_phone(sent, digits),
        unblank(sent) is None ==> new_phone_of(sent, digits, linked) is Ok,
        unblank(sent) is None && linked is None ==> new_phone_of(sent, digits, linked) == Ok::<
            Option<Seq<char>>,
            ErrorView,
        >(None),
        unblank(sent) is None && linked is Some && stored_phone(
            maybe(linked->0.phone),
            linked->0.digits,
        ) is Ok ==> new_phone_of(sent, digits, linked) == stored_phone(
            maybe(linked->0.phone),
            linked->0.digits,
        ),
{
}

/// The name sent comes first, then the linked user's; without either there is
/// none.
pub proof fn law_a_sent_name_comes_first(sent: Option<Seq<char>>, linked: Option<LinkedUser>)
    ensures
        unblank(sent) is Some ==> new_name(sent, linked) == Ok::<Seq<char>, ErrorView>(
            unblank(sent)->0,
        ),
        unblank(sent) is None && linked is Some ==> new_name(sent, linked) == Ok::<
            Seq<char>,
            ErrorView,
        >(linked->0.name@),
        unblank(sent) is None && linked is None ==> new_name(sent, linked) is Err,
{
}

/// An employee is added by who may at each of the branches asked for, all live
/// ones; a user is linked that is there, no employee yet and below the caller;
/// they have a name, the app only with a number nobody else signs in with, no
/// negative salary and a department there is.
pub proof fn law_who_may_be_added(f: NewEmployeeFacts, body: CreateEmployeeRequest)
    ensures
        ({
            let linked = if body.user_id is Some {
                f.user
            } else {
                None
            };
            let phone = new_phone_of(maybe(body.phone), f.digits, linked);
            let app = if body.app_access is Some {
                body.app_access->0
            } else {
                phone->Ok_0 is Some
            };
            create_refused(f, body) is None <==> {
                &&& f.gate is Ok
                &&& asked_branches(body).len() > 0
                &&& f.branches_found == asked_branches(body).len()
                &&& f.right is Ok
                &&& body.user_id is Some ==> f.user is Some && !f.already && f.guard is Ok
                &&& new_name(maybe(body.name), linked) is Ok
                &&& phone is Ok
                &&& app ==> phone->Ok_0 is Some && !f.phone_taken
                &&& body.base_salary_piastres is Some ==> body.base_salary_piastres->0 >= 0
                &&& f.department_found
            }
        }),
{
}

/// The branches asked for are those of both forms, the older one's first, each
/// once.
pub proof fn law_both_forms_of_branches_count(body: CreateEmployeeRequest, b: Id)
    ensures
        asked_branches(body).contains(b) <==> body.branch_id == Some(b)
            || body.branch_ids@.contains(b),
        asked_branches(body).no_duplicates(),
{
    match body.branch_id {
        Some(x) => {
            let v = seq![x] + body.branch_ids@;
            law_once_each(v);
            assert(v.contains(b) <==> x == b || body.branch_ids@.contains(b)) by {
                if body.branch_ids@.contains(b) {
                    let i = choose|i: int|
                        0 <= i < body.branch_ids@.len() && body.branch_ids@[i] == b;
                    assert(v[i + 1] == b);
                }
                if x == b {
                    assert(v[0] == b);
                }
                if v.contains(b) && x != b {
                    let i = choose|i: int| 0 <= i < v.len() && v[i] == b;
                    assert(body.branch_ids@[i - 1] == b);
                }
            }
        },
        None => {
            law_once_each(body.branch_ids@);
        },
    }
}

/// A profile is saved by who may edit the person, with a status there is, a last
/// day exactly for the terminated, a department there is, a number that is one,
/// a sign-in that may be, branches that may be, no negative salary and a name
/// that is not blank.
pub proof fn law_which_profile_may_be_saved(f: PutEmployeeFacts, body: PutEmployeeRequest)
    ensures
        ({
            let status = if body.employment_status is Some {
                (body.employment_status->0)@
            } else {
                "active"@
            };
            let phone = put_phone(maybe(body.phone), f.digits);
            put_refused(f, body) is None <==> {
                &&& f.gate is Ok
                &&& f.found is Ok
                &&& f.right is Ok
                &&& status == "active"@ || status == "suspended"@ || status == "terminated"@
                &&& status == "terminated"@ <==> body.termination_date is Some
                &&& f.department_found
                &&& phone is Ok
                &&& put_sign_in_refused(
                    f,
                    phone->Ok_0,
                    access_after(body.app_access, f.old_app_access, status),
                ) is None
                &&& put_branches_refused(f, body) is None
                &&& body.base_salary_piastres is Some ==> body.base_salary_piastres->0 >= 0
                &&& body.name is Some ==> trimmed((body.name->0)@).len() > 0
            }
        }),
{
}

/// The app takes a number; a linked user's sign-in is changed only by who stands
/// above them; and a number sent is one nobody else signs in with.
pub proof fn law_which_sign_in_may_be(
    f: PutEmployeeFacts,
    phone: Option<Option<Seq<char>>>,
    app_access: bool,
)
    ensures
        ({
            let key = key_after(phone, maybe(f.old_phone_key));
            put_sign_in_refused(f, phone, app_access) is None <==> (app_access ==> {
                &&& key is Some
                &&& f.linked && (key != maybe(f.old_phone_key) || !f.old_app_access) ==> f.guard
                    is Ok
                &&& phone is Some && phone->0 is Some ==> !f.phone_taken
            })
        }),
{
}

/// A changed set of branches has one at least, all of them live, each the
/// caller's to change.
pub proof fn law_which_branches_may_be_set(f: PutEmployeeFacts, body: PutEmployeeRequest)
    ensures
        put_branches_refused(f, body) is None <==> (body.branch_ids is Some ==> {
            &&& once_each(body.branch_ids->0@).len() > 0
            &&& f.branches_found == once_each(body.branch_ids->0@).len()
            &&& f.branch_right is Ok
        }),
{
}

/// Somebody signs in with the digits of the number sent, with none where it was
/// cleared, and as before where none was sent.
pub proof fn law_a_number_not_sent_stays(
    sent: Option<Seq<char>>,
    digits: Result<String, AppError>,
    old: Option<Seq<char>>,
)
    requires
        digits is Ok ==> (digits->Ok_0)@.len() == 0 || (digits->Ok_0)@[0] != '+',
    ensures
        sent is None ==> put_phone(sent, digits) is Ok && key_after(
            put_phone(sent, digits)->Ok_0,
            old,
        ) == old,
        sent is Some && unblank(sent) is None ==> put_phone(sent, digits) is Ok && key_after(
            put_phone(sent, digits)->Ok_0,
            old,
        ) is None,
        sent is Some && unblank(sent) is Some && digits is Ok ==> put_phone(sent, digits) is Ok
            && key_after(put_phone(sent, digits)->Ok_0, old) == Some((digits->Ok_0)@),
{
    if digits is Ok {
        law_the_plus_is_dropped((digits->Ok_0)@);
    }
}

/// The app is as asked, else as before, for whoever is not terminated.
pub proof fn law_the_app_is_as_asked(asked: Option<bool>, old: bool, status: Seq<char>)
    requires
        status != "terminated"@,
    ensures
        asked is Some ==> access_after(asked, old, status) == asked->0,
        asked is None ==> access_after(asked, old, status) == old,
{
}

/// An account sent is the new one, a blank one none, and without one the old one
/// stays; but for who is paid in cash.
pub proof fn law_an_account_not_sent_stays(
    method: Option<Seq<char>>,
    method_was: Seq<char>,
    account: Option<Option<Seq<char>>>,
    account_was: Option<Seq<char>>,
)
    requires
        method is Some ==> method != Some("cash"@),
        method is None ==> method_was != "cash"@,
    ensures
        account is Some ==> account_after(method, method_was, account, account_was) == unblank(
            account->0,
        ),
        account is None ==> account_after(method, method_was, account, account_was) == account_was,
{
}

/// The branches that change are those only one of the two sets has.
pub proof fn law_changed_branches_are_in_one_set(wanted: Seq<Id>, had: Seq<Id>, b: Id)
    ensures
        moved_branches(wanted, had).contains(b) <==> wanted.contains(b) != had.contains(b),
{
    let added = wanted.filter(|b: Id| !had.contains(b));
    let gone = had.filter(|b: Id| !wanted.contains(b));
    lemma_not_in(wanted, had, b);
    lemma_not_in(had, wanted, b);
    let all = added + gone;
    if added.contains(b) {
        let i = choose|i: int| 0 <= i < added.len() && added[i] == b;
        assert(all[i] == b);
    }
    if gone.contains(b) {
        let i = choose|i: int| 0 <= i < gone.len() && gone[i] == b;
        assert(all[added.len() + i] == b);
    }
    if all.contains(b) {
        let i = choose|i: int| 0 <= i < all.len() && all[i] == b;
        if i < added.len() {
            assert(added[i] == b);
        } else {
            assert(gone[i - added.len()] == b);
        }
    }
}

proof fn lemma_not_in(list: Seq<Id>, other: Seq<Id>, b: Id)
    ensures
        list.filter(|b: Id| !other.contains(b)).contains(b) <==> list.contains(b)
            && !other.contains(b),
{
    let f = |b: Id| !other.contains(b);
    let kept = list.filter(f);
    if kept.contains(b) {
        let i = choose|i: int| 0 <= i < kept.len() && kept[i] == b;
        list.lemma_filter_contains_rev(f, b);
        list.lemma_filter_pred(f, i);
    }
    if list.contains(b) && !other.contains(b) {
        list.lemma_filter_contains(f, choose|i: int| 0 <= i < list.len() && list[i] == b);
    }
}

/// A list is asked for by a status and a sort there are.
pub proof fn law_which_list_may_be_asked_for(q: EmployeeListQuery)
    ensures
        list_refused(q) is None <==> {
            &&& q.employment_status is Some ==> (q.employment_status->0)@ == "active"@ || (
            q.employment_status->0)@ == "suspended"@ || (q.employment_status->0)@ == "terminated"@
            &&& q.kind is Some ==> (q.kind->0)@ == "linked"@ || (q.kind->0)@ == "app"@ || (
            q.kind->0)@ == "manual"@
        },
{
}

/// One's own user is always one's to link; another's takes standing above them.
pub proof fn law_another_user_takes_standing_above(
    sub: Seq<char>,
    user: Id,
    dominance: Result<(), AppError>,
)
    ensures
        guard_refused(sub, user, dominance) is None <==> sub == id_chars(user) || dominance is Ok,
{
}

/// What adding an employee is refused for first.
pub proof fn law_how_adding_an_employee_is_refused(f: NewEmployeeFacts, body: CreateEmployeeRequest)
    ensures
        ({
            let linked = linked_user(f, body);
            let phone = new_phone_of(maybe(body.phone), f.digits, linked);
            let app = new_access(body.app_access, phone->Ok_0);
            create_refused(f, body) == if f.gate is Err {
                Some(f.gate->Err_0@)
            } else if asked_branches(body).len() == 0 {
                Some(ErrorView::BadRequest("Pick the branch they work at"@))
            } else if f.branches_found != asked_branches(body).len() {
                Some(ErrorView::NotFound("Branch not found"@))
            } else if f.right is Err {
                Some(f.right->Err_0@)
            } else if body.user_id is Some && f.user is None {
                Some(ErrorView::NotFound("User not found"@))
            } else if body.user_id is Some && f.already {
                Some(ErrorView::Conflict("That user is already an employee."@))
            } else if body.user_id is Some && f.guard is Err {
                Some(f.guard->Err_0@)
            } else if new_name(maybe(body.name), linked) is Err {
                Some(ErrorView::BadRequest("name is required"@))
            } else if phone is Err {
                Some(phone->Err_0)
            } else if app && phone->Ok_0 is None {
                Some(ErrorView::BadRequest("The staff app needs their WhatsApp number."@))
            } else if app && f.phone_taken {
                Some(
                    ErrorView::Conflict("Someone here already signs in with "@ + (phone->Ok_0)->0
                        + "."@),
                )
            } else if body.base_salary_piastres is Some && body.base_salary_piastres->0 < 0 {
                Some(ErrorView::BadRequest("Salary cannot be negative"@))
            } else if !f.department_found {
                Some(ErrorView::NotFound("Department not found"@))
            } else {
                None
            }
        }),
{
}

/// What saving a profile is refused for first.
pub proof fn law_how_saving_a_profile_is_refused(f: PutEmployeeFacts, body: PutEmployeeRequest)
    ensures
        ({
            let status = put_status(maybe(body.employment_status));
            let phone = put_phone(maybe(body.phone), f.digits);
            let app = access_after(body.app_access, f.old_app_access, status);
            put_refused(f, body) == if f.gate is Err {
                Some(f.gate->Err_0@)
            } else if f.found is Err {
                Some(f.found->Err_0@)
            } else if f.right is Err {
                Some(f.right->Err_0@)
            } else if !(status == "active"@ || status == "suspended"@
                || status == "terminated"@) {
                Some(
                    ErrorView::BadRequest("Unknown employment status '"@ + status
                        + "' — expected active, suspended, or terminated"@),
                )
            } else if status == "terminated"@ && body.termination_date is None {
                Some(ErrorView::BadRequest("A terminated employee needs a termination date"@))
            } else if body.termination_date is Some && status != "terminated"@ {
                Some(
                    ErrorView::BadRequest("Only a terminated employee may carry a termination date"@),
                )
            } else if !f.department_found {
                Some(ErrorView::NotFound("Department not found"@))
            } else if phone is Err {
                Some(phone->Err_0)
            } else if put_sign_in_refused(f, phone->Ok_0, app) is Some {
                Some(put_sign_in_refused(f, phone->Ok_0, app)->0)
            } else if put_branches_refused(f, body) is Some {
                Some(put_branches_refused(f, body)->0)
            } else if body.base_salary_piastres is Some && body.base_salary_piastres->0 < 0 {
                Some(ErrorView::BadRequest("Salary cannot be negative"@))
            } else if body.name is Some && trimmed((body.name->0)@).len() == 0 {
                Some(ErrorView::BadRequest("name"@ + " is required"@))
            } else {
                None
            }
        }),
{
}

} // verus!
