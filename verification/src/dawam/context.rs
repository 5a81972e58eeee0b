//! One call the staff app boots from: who I am, where I work, the people I can
//! see and my limits.

use vstd::prelude::*;

use crate::calendar::{whole_units, Id};
use crate::dawam::presence::covers::has_id;
use crate::directory::shares_branch;
use crate::errors::AppError;
use crate::text::texts;

verus! {

/// Who someone is to the app.
#[derive(Debug, Clone, Copy, PartialEq, Eq, Structural)]
pub enum Role {
    Owner,
    Manager,
    Employee,
}

impl Role {
    /// The name the app knows it by.
    pub open spec fn name(self) -> Seq<char> {
        match self {
            Role::Owner => "owner"@,
            Role::Manager => "manager"@,
            Role::Employee => "employee"@,
        }
    }

    pub fn as_str(&self) -> (r: &'static str)
        ensures
            r@ == self.name(),
    {
        match self {
            Role::Owner => "owner",
            Role::Manager => "manager",
            Role::Employee => "employee",
        }
    }
}

/// What someone's account may do: what makes them the owner or a manager.
#[derive(Debug, Clone, Copy, PartialEq, Eq, Structural)]
pub struct Powers {
    pub owner: bool,
    pub schedule_edit: bool,
    pub attendance_edit: bool,
    pub leave_edit: bool,
    pub punch_others: bool,
}

/// Who someone is: the owner, a manager by any of four powers, or an employee.
pub open spec fn role_of(p: Powers) -> Role {
    if p.owner {
        Role::Owner
    } else if p.schedule_edit || p.attendance_edit || p.leave_edit || p.punch_others {
        Role::Manager
    } else {
        Role::Employee
    }
}

pub fn my_role(p: &Powers) -> (r: Role)
    ensures
        r == role_of(*p),
{
    if p.owner {
        Role::Owner
    } else if p.schedule_edit || p.attendance_edit || p.leave_edit || p.punch_others {
        Role::Manager
    } else {
        Role::Employee
    }
}

/// Who another person is, from their linked account.
pub open spec fn person_role(is_owner: bool, org_admin: bool, branch_manager: bool) -> Role {
    if is_owner || org_admin {
        Role::Owner
    } else if branch_manager {
        Role::Manager
    } else {
        Role::Employee
    }
}

pub fn role_of_person(is_owner: bool, org_admin: bool, branch_manager: bool) -> (r: Role)
    ensures
        r == person_role(is_owner, org_admin, branch_manager),
{
    if is_owner || org_admin {
        Role::Owner
    } else if branch_manager {
        Role::Manager
    } else {
        Role::Employee
    }
}

/// The branches shown.
#[derive(Debug, Clone, PartialEq, Eq)]
pub struct ShownBranches {
    /// Every branch of the business.
    pub all: bool,
    /// Otherwise these.
    pub ids: Vec<Id>,
}

/// A list, then what it lacks of another, in order and once each.
pub open spec fn with_missing(first: Seq<Id>, more: Seq<Id>) -> Seq<Id>
    decreases more.len(),
{
    if more.len() == 0 {
        first
    } else {
        let before = with_missing(first, more.drop_last());
        if before.contains(more.last()) {
            before
        } else {
            before.push(more.last())
        }
    }
}

/// The branches someone runs, as their role and account have it: `None` for
/// every branch.
pub open spec fn runs(account: bool, role: Role, scope: Result<Option<Vec<Id>>, AppError>) -> Result<
    Option<Seq<Id>>,
    AppError,
> {
    if account && role != Role::Employee {
        match scope {
            Ok(None) => Ok(None),
            Ok(Some(at)) => Ok(Some(at@)),
            Err(AppError::Forbidden(_)) => Ok(Some(Seq::empty())),
            Err(e) => Err(e),
        }
    } else {
        Ok(Some(Seq::empty()))
    }
}

/// Where I work, plus, for a manager, the branches I run. `scope` is where my
/// account may read attendance.
pub fn shown_branches(
    mine: &Vec<Id>,
    account: bool,
    role: Role,
    scope: Result<Option<Vec<Id>>, AppError>,
) -> (r: Result<ShownBranches, AppError>)
    ensures
        match runs(account, role, scope) {
            Err(e) => r == Err::<ShownBranches, AppError>(e),
            Ok(run) => {
                &&& r is Ok
                &&& (r->Ok_0).all == (run is None)
                &&& (r->Ok_0).ids@ == match run {
                    None => mine@,
                    Some(at) => with_missing(mine@, at),
                }
            },
        },
{
    let manages: bool = match role {
        Role::Employee => false,
        _ => true,
    };
    let run: Option<Vec<Id>> = if account && manages {
        match scope {
            Ok(s) => s,
            Err(AppError::Forbidden(_)) => Some(Vec::new()),
            Err(e) => {
                return Err(e);
            },
        }
    } else {
        Some(Vec::new())
    };
    let mut ids: Vec<Id> = Vec::new();
    let mut i: usize = 0;
    while i < mine.len()
        invariant
            i <= mine@.len(),
            ids@ == mine@.take(i as int),
        decreases mine@.len() - i,
    {
        ids.push(mine[i]);
        assert(mine@.take(i + 1) =~= mine@.take(i as int).push(mine@[i as int]));
        i += 1;
    }
    assert(mine@.take(mine@.len() as int) =~= mine@);
    match run {
        None => Ok(ShownBranches { all: true, ids }),
        Some(at) => {
            let mut j: usize = 0;
            while j < at.len()
                invariant
                    j <= at@.len(),
                    ids@ == with_missing(mine@, at@.take(j as int)),
                decreases at@.len() - j,
            {
                assert(at@.take(j + 1).drop_last() =~= at@.take(j as int));
                if !has_id(&ids, at[j]) {
                    ids.push(at[j]);
                }
                j += 1;
            }
            assert(at@.take(at@.len() as int) =~= at@);
            Ok(ShownBranches { all: false, ids })
        },
    }
}

/// Where pay may be read: nowhere, at every branch, or at these.
#[derive(Debug, Clone, PartialEq, Eq)]
pub enum PayScope {
    Nowhere,
    Everywhere,
    At(Vec<Id>),
}

/// Pay is read only through an account, and never by an employee. `scope` is
/// where the account may read payroll.
pub fn context_pay(
    account: bool,
    role: Role,
    scope: Result<Option<Vec<Id>>, AppError>,
) -> (r: Result<PayScope, AppError>)
    ensures
        if account && role != Role::Employee {
            match scope {
                Ok(None) => r == Ok::<PayScope, AppError>(PayScope::Everywhere),
                Ok(Some(at)) => r == Ok::<PayScope, AppError>(PayScope::At(at)),
                Err(AppError::Forbidden(_)) => r == Ok::<PayScope, AppError>(PayScope::Nowhere),
                Err(e) => r == Err::<PayScope, AppError>(e),
            }
        } else {
            r == Ok::<PayScope, AppError>(PayScope::Nowhere)
        },
{
    let manages: bool = match role {
        Role::Employee => false,
        _ => true,
    };
    if !account || !manages {
        return Ok(PayScope::Nowhere);
    }
    match scope {
        Ok(None) => Ok(PayScope::Everywhere),
        Ok(Some(at)) => Ok(PayScope::At(at)),
        Err(AppError::Forbidden(_)) => Ok(PayScope::Nowhere),
        Err(e) => Err(e),
    }
}

/// A person of the business, as the boot call looks at them.
pub struct ContextPerson {
    /// It is the caller.
    pub own: bool,
    pub branch_ids: Vec<Id>,
    pub base_salary_piastres: i64,
    pub advance_cap_piastres: Option<i64>,
    pub pay_account: Option<String>,
}

impl ContextPerson {
    /// The caller sees the person: themselves, everyone where they see every
    /// branch, or whoever works at a branch they see.
    pub open spec fn visible(self, shown: ShownBranches) -> bool {
        shown.all || self.own || shares_branch(self.branch_ids@, shown.ids@)
    }

    /// The caller sees the person's salary: their own, or where they may read
    /// pay.
    pub open spec fn pay_shown(self, pay: PayScope) -> bool {
        self.own || match pay {
            PayScope::Nowhere => false,
            PayScope::Everywhere => true,
            PayScope::At(at) => shares_branch(self.branch_ids@, at@),
        }
    }
}

fn shares(branches: &Vec<Id>, at: &Vec<Id>) -> (r: bool)
    ensures
        r == shares_branch(branches@, at@),
{
    let mut i: usize = 0;
    while i < branches.len()
        invariant
            i <= branches@.len(),
            forall|k: int| 0 <= k < i ==> !at@.contains(#[trigger] branches@[k]),
        decreases branches@.len() - i,
    {
        if has_id(at, branches[i]) {
            return true;
        }
        i += 1;
    }
    false
}

/// What the boot call shows of a person's pay.
#[derive(Debug, Clone, PartialEq, Eq)]
pub struct ShownPay {
    pub base_salary_piastres: Option<i64>,
    pub advance_cap_piastres: Option<i64>,
    /// Whether the account they are paid into is shown.
    pub account_shown: bool,
}

/// A person as the boot call shows them, if it does.
pub fn my_context(p: &ContextPerson, shown: &ShownBranches, pay: &PayScope) -> (r: Option<
    ShownPay,
>)
    ensures
        r == if p.visible(*shown) {
            Some(
                ShownPay {
                    base_salary_piastres: if p.pay_shown(*pay) {
                        Some(p.base_salary_piastres)
                    } else {
                        None
                    },
                    advance_cap_piastres: if p.pay_shown(*pay) {
                        p.advance_cap_piastres
                    } else {
                        None
                    },
                    account_shown: p.own || !(*pay is Nowhere),
                },
            )
        } else {
            None
        },
{
    if !(shown.all || p.own || shares(&p.branch_ids, &shown.ids)) {
        return None;
    }
    let paid: bool = p.own || match pay {
        PayScope::Nowhere => false,
        PayScope::Everywhere => true,
        PayScope::At(at) => shares(&p.branch_ids, at),
    };
    let some_pay: bool = match pay {
        PayScope::Nowhere => false,
        _ => true,
    };
    Some(
        ShownPay {
            base_salary_piastres: if paid {
                Some(p.base_salary_piastres)
            } else {
                None
            },
            advance_cap_piastres: if paid {
                p.advance_cap_piastres
            } else {
                None
            },
            account_shown: p.own || some_pay,
        },
    )
}

/// A capability as the catalogue has it, and whether the caller can.
pub struct CapEntry {
    pub key: String,
    /// One of the staff group.
    pub hr: bool,
    pub can: bool,
}

/// The keys of the staff capabilities the caller holds, in order.
pub open spec fn hr_keys(caps: Seq<CapEntry>) -> Seq<Seq<char>>
    decreases caps.len(),
{
    if caps.len() == 0 {
        Seq::empty()
    } else {
        let before = hr_keys(caps.drop_last());
        if caps.last().hr && caps.last().can {
            before.push(caps.last().key@)
        } else {
            before
        }
    }
}

/// The staff capabilities the caller holds. The app gates its tabs on these.
pub fn my_caps(caps: &Vec<CapEntry>) -> (r: Vec<String>)
    ensures
        texts(r@) == hr_keys(caps@),
{
    let mut out: Vec<String> = Vec::new();
    assert(texts(out@) =~= Seq::empty());
    let mut i: usize = 0;
    while i < caps.len()
        invariant
            i <= caps@.len(),
            texts(out@) == hr_keys(caps@.take(i as int)),
        decreases caps@.len() - i,
    {
        let ghost had = out@;
        assert(caps@.take(i + 1).drop_last() =~= caps@.take(i as int));
        if caps[i].hr && caps[i].can {
            out.push(caps[i].key.as_str().to_owned());
            assert(texts(out@) =~= texts(had).push(caps@[i as int].key@));
        }
        i += 1;
    }
    assert(caps@.take(caps@.len() as int) =~= caps@);
    out
}

/// A limit stored in basis points, in whole percent.
pub fn limit_percent(basis_points: Option<i64>) -> (r: Option<i64>)
    ensures
        r == match basis_points {
            Some(bp) => Some(whole_units(bp as int, 100) as i64),
            None => None,
        },
{
    match basis_points {
        Some(bp) => if bp >= 0 {
            Some(bp / 100)
        } else {
            let m: i128 = -(bp as i128) / 100;
            Some((-m) as i64)
        },
        None => None,
    }
}

/// Someone without an account sees only their own pay.
pub proof fn law_an_employee_sees_only_their_own_pay(p: ContextPerson)
    requires
        !p.own,
    ensures
        !p.pay_shown(PayScope::Nowhere),
{
}

/// Any one of the four powers makes a manager, being the owner comes before them,
/// and whoever has none is an employee.
pub proof fn law_a_power_makes_a_manager(p: Powers)
    ensures
        role_of(p) == Role::Owner <==> p.owner,
        role_of(p) == Role::Employee <==> !p.owner && !p.schedule_edit && !p.attendance_edit
            && !p.leave_edit && !p.punch_others,
        role_of(p) == Role::Manager <==> !p.owner && (p.schedule_edit || p.attendance_edit
            || p.leave_edit || p.punch_others),
{
}

/// Another person is the owner by being it or by administering the business, and
/// a manager by a branch they run.
pub proof fn law_who_another_person_is(is_owner: bool, org_admin: bool, branch_manager: bool)
    ensures
        person_role(is_owner, org_admin, branch_manager) == Role::Owner <==> is_owner || org_admin,
        person_role(is_owner, org_admin, branch_manager) == Role::Manager <==> !is_owner
            && !org_admin && branch_manager,
{
}

/// Joining two lists keeps the first, adds all of the second, and repeats
/// nothing.
pub proof fn law_joining_repeats_nothing(first: Seq<Id>, more: Seq<Id>, x: Id)
    ensures
        with_missing(first, more).contains(x) <==> first.contains(x) || more.contains(x),
        first.no_duplicates() ==> with_missing(first, more).no_duplicates(),
        with_missing(first, more).len() >= first.len(),
        with_missing(first, more).take(first.len() as int) == first,
    decreases more.len(),
{
    broadcast use vstd::seq_lib::group_seq_properties;

    if more.len() > 0 {
        let short = more.drop_last();
        law_joining_repeats_nothing(first, short, x);
        let before = with_missing(first, short);
        assert(more =~= short.push(more.last()));
        let all = with_missing(first, more);
        assert(all.take(first.len() as int) =~= before.take(first.len() as int));
        if first.no_duplicates() && !before.contains(more.last()) {
            assert(forall|i: int| 0 <= i < before.len() ==> before[i] != more.last());
        }
    } else {
        assert(first.take(first.len() as int) =~= first);
    }
}

/// Somebody is seen who is oneself, anybody where every branch is, or who works
/// at a branch that is; their pay only by themselves or where pay is read.
pub proof fn law_who_is_seen(p: ContextPerson, shown: ShownBranches, at: Vec<Id>)
    ensures
        p.visible(shown) <==> p.own || shown.all || exists|b: Id|
            #[trigger] p.branch_ids@.contains(b) && shown.ids@.contains(b),
        p.own ==> p.pay_shown(PayScope::Nowhere),
        p.pay_shown(PayScope::Everywhere),
        p.pay_shown(PayScope::At(at)) <==> p.own || exists|b: Id|
            #[trigger] p.branch_ids@.contains(b) && at@.contains(b),
{
    lemma_shares(p.branch_ids@, shown.ids@);
    lemma_shares(p.branch_ids@, at@);
}

proof fn lemma_shares(branches: Seq<Id>, at: Seq<Id>)
    ensures
        shares_branch(branches, at) <==> exists|b: Id| #[trigger] branches.contains(b) && at.contains(
            b,
        ),
{
    if exists|b: Id| #[trigger] branches.contains(b) && at.contains(b) {
        let b = choose|b: Id| #[trigger] branches.contains(b) && at.contains(b);
        let i = choose|i: int| 0 <= i < branches.len() && branches[i] == b;
        assert(at.contains(branches[i]));
    }
    if shares_branch(branches, at) {
        let i = choose|i: int| 0 <= i < branches.len() && at.contains(#[trigger] branches[i]);
        assert(branches.contains(branches[i]));
    }
}

/// A capability is listed that is of the staff group and held, under its key.
pub proof fn law_held_staff_capabilities_are_listed(caps: Seq<CapEntry>, c: CapEntry)
    ensures
        hr_keys(caps.push(c)) == if c.hr && c.can {
            hr_keys(caps).push(c.key@)
        } else {
            hr_keys(caps)
        },
        hr_keys(Seq::empty()).len() == 0,
{
    assert(caps.push(c).drop_last() =~= caps);
}

/// An employee, and whoever has no account, runs no branch.
pub proof fn law_an_employee_runs_no_branch(
    account: bool,
    role: Role,
    scope: Result<Option<Vec<Id>>, AppError>,
)
    ensures
        !account || role == Role::Employee ==> runs(account, role, scope) == Ok::<
            Option<Seq<Id>>,
            AppError,
        >(Some(Seq::empty())),
        account && role != Role::Employee && scope is Ok && scope->Ok_0 is None ==> runs(
            account,
            role,
            scope,
        ) == Ok::<Option<Seq<Id>>, AppError>(None),
        account && role != Role::Employee && scope is Ok && scope->Ok_0 is Some ==> runs(
            account,
            role,
            scope,
        ) == Ok::<Option<Seq<Id>>, AppError>(Some((scope->Ok_0)->0@)),
{
}

} // verus!
