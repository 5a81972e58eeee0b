//! Branch scope: one place that answers whether the caller may act, and where.
//!
//! - [`require_at`]: the capability at one branch of the org.
//! - [`require_for`]: the capability at any of an employee's branches. An
//!   employee with no branch needs the capability at every branch.
//! - [`require_everywhere`]: the capability at every branch of the org. An
//!   owner (or an org-wide role) holds it; a branch manager never does, even
//!   with the capability at their own branch.
//! - [`scope`]: the branches the caller holds a capability at, for filtering
//!   lists (`None` = every branch).

use vstd::prelude::*;

use crate::calendar::{id_chars, id_text, Id};
use crate::dawam::presence::covers::has_id;
use crate::errors::{either, forbidden, given, not_found, refusal, AppError, ErrorView};
use crate::text::{join3, nat_chars, nat_text, same_text};

verus! {

/// An employee a handler acts on, with where they work.
pub struct Subject {
    pub id: Id,
    pub org_id: Id,
    /// The linked user, if any.
    pub user_id: Option<Id>,
    pub name: String,
    pub employment_status: String,
    pub branches: Vec<Id>,
}

impl Subject {
    /// Who this person is to the "not the same person" rule: their linked user,
    /// else the employee.
    pub fn authz_key(&self) -> (r: String)
        ensures
            r@ == id_chars(
                match self.user_id {
                    Some(u) => u,
                    None => self.id,
                },
            ),
    {
        match self.user_id {
            Some(u) => id_text(u),
            None => id_text(self.id),
        }
    }

    /// The session with this subject is this very person's (acting through
    /// their linked user).
    pub open spec fn is_caller(self, sub: Seq<char>) -> bool {
        self.user_id is Some && id_chars(self.user_id->0) == sub
    }

    /// Is the session with this subject this very person's?
    pub fn is(&self, sub: &str) -> (r: bool)
        ensures
            r == self.is_caller(sub@),
    {
        match self.user_id {
            Some(u) => same_text(id_text(u).as_str(), sub),
            None => false,
        }
    }

    /// The first branch, if any.
    pub open spec fn first_branch(self) -> Option<Id> {
        if self.branches@.len() > 0 {
            Some(self.branches@[0])
        } else {
            None
        }
    }

    /// One branch to record against (a flag, an expense): the first.
    pub fn home(&self) -> (r: Option<Id>)
        ensures
            r == self.first_branch(),
    {
        if self.branches.len() > 0 {
            Some(self.branches[0])
        } else {
            None
        }
    }
}

/// Who asks.
#[derive(Debug, Clone, Copy, PartialEq, Eq, Structural)]
pub struct Caller {
    pub super_admin: bool,
    pub org: Option<Id>,
}

/// What the caller's roles say of one capability.
pub struct Holdings {
    /// The caller is the owner.
    pub owner: bool,
    /// A role of theirs that covers every branch grants it.
    pub granted_everywhere: bool,
    /// They can, wherever that is.
    pub anywhere: bool,
    /// Each live branch of the org, and whether they can there.
    pub branches: Vec<(Id, bool)>,
}

/// Where the caller holds a capability: every branch, or these.
#[derive(Debug, Clone, PartialEq, Eq)]
pub struct Held {
    pub all: bool,
    pub at: Vec<Id>,
}

/// The branches where they can, in order.
pub open spec fn where_held(branches: Seq<(Id, bool)>) -> Seq<Id>
    decreases branches.len(),
{
    if branches.len() == 0 {
        Seq::empty()
    } else {
        let before = where_held(branches.drop_last());
        if branches.last().1 {
            before.push(branches.last().0)
        } else {
            before
        }
    }
}

/// They can at every one of the branches.
pub open spec fn held_by_all(branches: Seq<(Id, bool)>) -> bool {
    forall|i: int| 0 <= i < branches.len() ==> (#[trigger] branches[i]).1
}

/// The caller holds the capability at every branch: a business with no branch
/// yet counts only an org-wide holder.
pub open spec fn holds_everywhere(caller: Caller, loaded: Option<Holdings>) -> bool {
    caller.super_admin || match loaded {
        None => false,
        Some(h) => if h.branches@.len() == 0 {
            (h.owner || h.granted_everywhere) && h.anywhere
        } else {
            held_by_all(h.branches@)
        },
    }
}

/// The branches the caller holds the capability at.
pub open spec fn held_branches(caller: Caller, loaded: Option<Holdings>) -> Seq<Id> {
    if caller.super_admin || loaded is None {
        Seq::empty()
    } else {
        where_held(loaded->0.branches@)
    }
}

/// A caller of another org.
pub open spec fn foreign(caller: Caller, org_id: Id) -> Option<ErrorView> {
    given(
        !caller.super_admin && caller.org != Some(org_id),
        ErrorView::Forbidden("Not your org"@),
    )
}

fn same_org(caller: &Caller, org_id: Id) -> (r: Result<(), AppError>)
    ensures
        refusal(r) == foreign(*caller, org_id),
{
    let home: bool = match caller.org {
        Some(o) => o == org_id,
        None => false,
    };
    if !caller.super_admin && !home {
        Err(forbidden("Not your org"))
    } else {
        Ok(())
    }
}

proof fn lemma_held_counts(branches: Seq<(Id, bool)>)
    ensures
        where_held(branches).len() <= branches.len(),
        where_held(branches).len() == branches.len() <==> held_by_all(branches),
    decreases branches.len(),
{
    if branches.len() > 0 {
        lemma_held_counts(branches.drop_last());
        if held_by_all(branches.drop_last()) && branches.last().1 {
            assert forall|i: int| 0 <= i < branches.len() implies (#[trigger] branches[i]).1 by {
                if i < branches.len() - 1 {
                    assert(branches.drop_last()[i].1);
                }
            }
        }
        if held_by_all(branches) {
            assert forall|i: int| 0 <= i < branches.drop_last().len() implies (
            #[trigger] branches.drop_last()[i]).1 by {
                assert(branches[i].1);
            }
            assert(branches[branches.len() - 1].1);
        }
    }
}

/// Where the caller holds a capability in an org: every branch, or these.
/// `loaded` is what their roles say, if they have any.
pub fn held_at(caller: &Caller, org_id: Id, loaded: &Option<Holdings>) -> (r: Result<
    Held,
    AppError,
>)
    ensures
        match foreign(*caller, org_id) {
            Some(e) => r is Err && r->Err_0@ == e,
            None => {
                &&& r is Ok
                &&& (r->Ok_0).all == holds_everywhere(*caller, *loaded)
                &&& (r->Ok_0).at@ == held_branches(*caller, *loaded)
            },
        },
{
    same_org(caller, org_id)?;
    if caller.super_admin {
        return Ok(Held { all: true, at: Vec::new() });
    }
    let h: &Holdings = match loaded {
        Some(h) => h,
        None => {
            return Ok(Held { all: false, at: Vec::new() });
        },
    };
    if h.branches.len() == 0 {
        return Ok(
            Held { all: (h.owner || h.granted_everywhere) && h.anywhere, at: Vec::new() },
        );
    }
    let mut at: Vec<Id> = Vec::new();
    let mut i: usize = 0;
    while i < h.branches.len()
        invariant
            i <= h.branches@.len(),
            at@ == where_held(h.branches@.take(i as int)),
        decreases h.branches@.len() - i,
    {
        assert(h.branches@.take(i + 1).drop_last() =~= h.branches@.take(i as int));
        if h.branches[i].1 {
            at.push(h.branches[i].0);
        }
        i += 1;
    }
    proof {
        assert(h.branches@.take(h.branches@.len() as int) =~= h.branches@);
        lemma_held_counts(h.branches@);
    }
    Ok(Held { all: at.len() == h.branches.len(), at })
}

/// A capability, by its number.
pub type CapId = u16;

/// What the caller's roles say of every capability.
pub struct CapHoldings {
    /// The caller is the owner.
    pub owner: bool,
    /// The capabilities of the roles that cover every branch.
    pub granted_everywhere: Vec<CapId>,
    /// The capabilities they have, wherever that is.
    pub anywhere: Vec<CapId>,
    /// The capabilities they have at each live branch of the org.
    pub branches: Vec<Vec<CapId>>,
}

/// The capability is held at every branch.
pub open spec fn at_every_branch(branches: Seq<Vec<CapId>>, c: CapId) -> bool {
    forall|i: int| 0 <= i < branches.len() ==> (#[trigger] branches[i])@.contains(c)
}

/// Every capability the caller holds at every live branch of the org: the test
/// [`require_everywhere`] makes, for all of them at once, so that an org-wide
/// act that would be refused can be hidden. The owner and a super admin hold
/// them all.
pub open spec fn everywhere(
    caller: Caller,
    org_id: Id,
    known: Seq<CapId>,
    loaded: Option<CapHoldings>,
    c: CapId,
) -> bool {
    if caller.super_admin {
        known.contains(c)
    } else if caller.org != Some(org_id) {
        false
    } else {
        match loaded {
            None => false,
            Some(h) => if h.branches@.len() == 0 {
                h.anywhere@.contains(c) && (h.owner || h.granted_everywhere@.contains(c))
            } else {
                at_every_branch(h.branches@, c)
            },
        }
    }
}

fn has_cap(list: &Vec<CapId>, c: CapId) -> (r: bool)
    ensures
        r == list@.contains(c),
{
    let mut i: usize = 0;
    while i < list.len()
        invariant
            i <= list@.len(),
            forall|k: int| 0 <= k < i ==> list@[k] != c,
        decreases list@.len() - i,
    {
        if list[i] == c {
            return true;
        }
        i += 1;
    }
    false
}

fn everywhere_held(branches: &Vec<Vec<CapId>>, c: CapId) -> (r: bool)
    ensures
        r == at_every_branch(branches@, c),
{
    let mut i: usize = 0;
    while i < branches.len()
        invariant
            i <= branches@.len(),
            forall|k: int| 0 <= k < i ==> (#[trigger] branches@[k])@.contains(c),
        decreases branches@.len() - i,
    {
        if !has_cap(&branches[i], c) {
            return false;
        }
        i += 1;
    }
    true
}

/// Every capability of `known` that the caller holds at every live branch.
pub fn caps_everywhere(
    caller: &Caller,
    org_id: Id,
    known: &Vec<CapId>,
    loaded: &Option<CapHoldings>,
) -> (r: Vec<CapId>)
    ensures
        r@ == known@.filter(|c: CapId| everywhere(*caller, org_id, known@, *loaded, c)),
{
    let mut out: Vec<CapId> = Vec::new();
    let home: bool = match caller.org {
        Some(o) => o == org_id,
        None => false,
    };
    let mut i: usize = 0;
    while i < known.len()
        invariant
            i <= known@.len(),
            home == (caller.org == Some(org_id)),
            out@ == known@.take(i as int).filter(
                |c: CapId| everywhere(*caller, org_id, known@, *loaded, c),
            ),
        decreases known@.len() - i,
    {
        let c: CapId = known[i];
        let holds: bool = if caller.super_admin {
            true
        } else if !home {
            false
        } else {
            match loaded {
                None => false,
                Some(h) => if h.branches.len() == 0 {
                    has_cap(&h.anywhere, c) && (h.owner || has_cap(&h.granted_everywhere, c))
                } else {
                    everywhere_held(&h.branches, c)
                },
            }
        };
        proof {
            let f = |c: CapId| everywhere(*caller, org_id, known@, *loaded, c);
            reveal(Seq::filter);
            assert(known@.take(i + 1).drop_last() =~= known@.take(i as int));
            assert(known@.contains(c));
            assert(holds == f(c));
        }
        if holds {
            out.push(c);
        }
        i += 1;
    }
    assert(known@.take(known@.len() as int) =~= known@);
    out
}

/// What acting at a branch is refused for, if anything: the branch's org is
/// `None` where there is no such branch.
pub open spec fn at_refused(
    caller: Caller,
    org_id: Id,
    branch_org: Option<Id>,
    granted: Result<(), AppError>,
) -> Option<ErrorView> {
    match branch_org {
        None => Some(ErrorView::NotFound("Branch not found"@)),
        Some(o) => either(
            given(o != org_id, ErrorView::Forbidden("Branch belongs to a different org"@)),
            either(foreign(caller, org_id), refusal(granted)),
        ),
    }
}

/// 403 unless the caller holds the capability at a live branch of the org.
pub fn require_at(
    caller: &Caller,
    org_id: Id,
    branch_org: Option<Id>,
    granted: Result<(), AppError>,
) -> (r: Result<(), AppError>)
    ensures
        refusal(r) == at_refused(*caller, org_id, branch_org, granted),
{
    match branch_org {
        None => Err(not_found("Branch not found")),
        Some(o) => {
            if o != org_id {
                return Err(forbidden("Branch belongs to a different org"));
            }
            same_org(caller, org_id)?;
            granted
        },
    }
}

/// Held at one of the branches.
pub open spec fn held_at_one(held: Held, branches: Seq<Id>) -> bool {
    held.all || exists|i: int| 0 <= i < branches.len() && held.at@.contains(#[trigger] branches[i])
}

/// Does the caller hold the capability for the person?
pub fn can_for(held: &Held, subject: &Subject) -> (r: bool)
    ensures
        r == held_at_one(*held, subject.branches@),
{
    if held.all {
        return true;
    }
    let mut i: usize = 0;
    while i < subject.branches.len()
        invariant
            i <= subject.branches@.len(),
            forall|k: int| 0 <= k < i ==> !held.at@.contains(#[trigger] subject.branches@[k]),
        decreases subject.branches@.len() - i,
    {
        if has_id(&held.at, subject.branches[i]) {
            return true;
        }
        i += 1;
    }
    false
}

/// 403 unless the caller holds the capability at one of the person's branches
/// (every branch when they have none).
pub fn require_for(held: &Held, subject: &Subject, denied: AppError) -> (r: Result<(), AppError>)
    ensures
        refusal(r) == given(!held_at_one(*held, subject.branches@), denied@),
{
    if can_for(held, subject) {
        Ok(())
    } else {
        Err(denied)
    }
}

/// The first branch where the capability is held, if any.
pub open spec fn first_held(branches: Seq<Id>, at: Seq<Id>) -> Option<Id>
    decreases branches.len(),
{
    if branches.len() == 0 {
        None
    } else {
        match first_held(branches.drop_last(), at) {
            Some(b) => Some(b),
            None => if at.contains(branches.last()) {
                Some(branches.last())
            } else {
                None
            },
        }
    }
}

/// The branch a decision about a person is asked at, for limit checks: one of
/// their branches where the caller holds the capability, else their first.
/// `None` for someone with no branch.
pub fn decision_branch(held: &Held, subject: &Subject) -> (r: Option<Id>)
    ensures
        r == if held.all || first_held(subject.branches@, held.at@) is None {
            subject.first_branch()
        } else {
            first_held(subject.branches@, held.at@)
        },
{
    if held.all {
        return subject.home();
    }
    let mut at: Option<Id> = None;
    let mut i: usize = 0;
    while i < subject.branches.len()
        invariant
            i <= subject.branches@.len(),
            at == first_held(subject.branches@.take(i as int), held.at@),
        decreases subject.branches@.len() - i,
    {
        assert(subject.branches@.take(i + 1).drop_last() =~= subject.branches@.take(i as int));
        if at.is_none() && has_id(&held.at, subject.branches[i]) {
            at = Some(subject.branches[i]);
        }
        i += 1;
    }
    assert(subject.branches@.take(subject.branches@.len() as int) =~= subject.branches@);
    match at {
        Some(b) => Some(b),
        None => subject.home(),
    }
}

/// 403 unless the caller holds the capability at every branch of the org. The
/// capability's name and key are what the refusal words.
pub fn require_everywhere(held: &Held, name: &str, key: &str) -> (r: Result<(), AppError>)
    ensures
        refusal(r) == given(
            !held.all,
            ErrorView::Forbidden(
                "This needs "@ + name@ + " for every branch ("@ + key@ + ")."@,
            ),
        ),
{
    if held.all {
        Ok(())
    } else {
        let mut reason: String = join3("This needs ", name, " for every branch (");
        reason.push_str(key);
        reason.push_str(").");
        Err(forbidden(reason.as_str()))
    }
}

/// The branches a list may show: all of them, or these.
pub open spec fn shown_at(held: Held) -> Option<Seq<Id>> {
    if held.all {
        None
    } else {
        Some(held.at@)
    }
}

/// The branches whose people and records a list may show: `None` = all of
/// them; otherwise the branches the caller holds the capability at (403 when
/// none).
pub fn scope(held: Held, denied: AppError) -> (r: Result<Option<Vec<Id>>, AppError>)
    ensures
        match r {
            Ok(shown) => (held.all || held.at@.len() > 0) && match shown {
                Some(at) => shown_at(held) == Some(at@),
                None => shown_at(held) is None,
            },
            Err(e) => !held.all && held.at@.len() == 0 && e@ == denied@,
        },
{
    if held.all {
        return Ok(None);
    }
    if held.at.len() == 0 {
        return Err(denied);
    }
    Ok(Some(held.at))
}

/// 403 unless the caller holds the capability at some branch of the org: the
/// cheap first gate a handler runs before it looks anything up, so a person
/// with no such right learns nothing about what exists.
pub fn gate(held: Held, denied: AppError) -> (r: Result<(), AppError>)
    ensures
        refusal(r) == given(!held.all && held.at@.len() == 0, denied@),
{
    match scope(held, denied) {
        Ok(_) => Ok(()),
        Err(e) => Err(e),
    }
}

/// Does the caller hold the capability at every branch?
pub fn can_everywhere(held: &Held) -> (r: bool)
    ensures
        r == held.all,
{
    held.all
}

/// [`scope`] narrowed to one asked-for branch (which must be in scope).
pub fn scope_at(
    asked: Option<Id>,
    at_branch: Result<(), AppError>,
    held: Held,
    denied: AppError,
) -> (r: Result<Option<Vec<Id>>, AppError>)
    ensures
        match asked {
            Some(b) => match r {
                Ok(shown) => at_branch is Ok && shown is Some && shown->0@ == seq![b],
                Err(e) => refusal(at_branch) == Some(e@),
            },
            None => match r {
                Ok(shown) => (held.all || held.at@.len() > 0) && match shown {
                    Some(at) => shown_at(held) == Some(at@),
                    None => shown_at(held) is None,
                },
                Err(e) => !held.all && held.at@.len() == 0 && e@ == denied@,
            },
        },
{
    match asked {
        Some(b) => {
            at_branch?;
            let mut one: Vec<Id> = Vec::new();
            one.push(b);
            assert(one@ =~= seq![b]);
            Ok(Some(one))
        },
        None => scope(held, denied),
    }
}

/// SQL: an employee (column `col`) is visible under a list scope bound as the
/// `n`th parameter (`uuid[]`, NULL = every branch).
pub open spec fn scope_clause(col: Seq<char>, n: nat) -> Seq<char> {
    "($"@ + nat_chars(n)
        + "::uuid[] IS NULL OR EXISTS (SELECT 1 FROM employee_branches eb_scope WHERE eb_scope.employee_id = "@
        + col + " AND eb_scope.branch_id = ANY($"@ + nat_chars(n) + ")))"@
}

pub fn in_scope(col: &str, n: usize) -> (r: String)
    ensures
        r@ == scope_clause(col@, n as nat),
{
    let nth: String = nat_text(n as u64);
    let mut out: String = join3(
        "($",
        nth.as_str(),
        "::uuid[] IS NULL OR EXISTS (SELECT 1 FROM employee_branches eb_scope WHERE eb_scope.employee_id = ",
    );
    out.push_str(col);
    out.push_str(" AND eb_scope.branch_id = ANY($");
    out.push_str(nth.as_str());
    out.push_str(")))");
    out
}

/// A manager without the capability at one of the branches never holds it
/// everywhere, whatever they hold elsewhere.
pub proof fn law_one_branch_missing_is_not_everywhere(
    caller: Caller,
    h: Holdings,
    i: int,
)
    requires
        !caller.super_admin,
        0 <= i < h.branches@.len(),
        !h.branches@[i].1,
    ensures
        !holds_everywhere(caller, Some(h)),
{
}

/// Holding at a branch is holding there and nowhere else: a branch is in scope
/// exactly when the caller can there.
pub proof fn law_scope_is_where_they_can(branches: Seq<(Id, bool)>, b: Id)
    ensures
        where_held(branches).contains(b) <==> exists|i: int|
            0 <= i < branches.len() && #[trigger] branches[i] == (b, true),
    decreases branches.len(),
{
    if branches.len() > 0 {
        let before = branches.drop_last();
        law_scope_is_where_they_can(before, b);
        let held = where_held(before);
        let last = branches.last();
        if where_held(branches).contains(b) {
            if held.contains(b) {
                let i = choose|i: int| 0 <= i < before.len() && #[trigger] before[i] == (b, true);
                assert(branches[i] == (b, true));
            } else {
                let k = choose|k: int|
                    0 <= k < where_held(branches).len() && where_held(branches)[k] == b;
                assert(k == held.len());
                assert(branches[branches.len() - 1] == (b, true));
            }
        }
        if exists|i: int| 0 <= i < branches.len() && #[trigger] branches[i] == (b, true) {
            let i = choose|i: int| 0 <= i < branches.len() && #[trigger] branches[i] == (b, true);
            if i < before.len() {
                assert(before[i] == (b, true));
                let k = choose|k: int| 0 <= k < held.len() && held[k] == b;
                assert(where_held(branches)[k] == b);
            } else {
                assert(where_held(branches)[held.len() as int] == b);
            }
        }
    }
}

/// A capability is held everywhere by a super admin; by anybody else who can at
/// each of the branches, and where there is none yet by the owner or a role that
/// covers every branch.
pub proof fn law_who_holds_everywhere(caller: Caller, loaded: Option<Holdings>)
    ensures
        caller.super_admin ==> holds_everywhere(caller, loaded),
        !caller.super_admin && loaded is None ==> !holds_everywhere(caller, loaded),
        !caller.super_admin && loaded is Some && loaded->0.branches@.len() > 0 ==> (
        holds_everywhere(caller, loaded) <==> forall|i: int|
            0 <= i < loaded->0.branches@.len() ==> (#[trigger] loaded->0.branches@[i]).1),
        !caller.super_admin && loaded is Some && loaded->0.branches@.len() == 0 ==> (
        holds_everywhere(caller, loaded) <==> loaded->0.anywhere && (loaded->0.owner
            || loaded->0.granted_everywhere)),
{
}

/// Asking for one capability and for all of them agree: what the roles say of it
/// is one thing, whichever way it is asked.
pub proof fn law_one_and_all_capabilities_agree(
    caller: Caller,
    org_id: Id,
    known: Seq<CapId>,
    all: CapHoldings,
    one: Holdings,
    c: CapId,
)
    requires
        known.contains(c),
        caller.super_admin || caller.org == Some(org_id),
        one.owner == all.owner,
        one.granted_everywhere == all.granted_everywhere@.contains(c),
        one.anywhere == all.anywhere@.contains(c),
        one.branches@.len() == all.branches@.len(),
        forall|i: int|
            0 <= i < one.branches@.len() ==> (#[trigger] one.branches@[i]).1
                == all.branches@[i]@.contains(c),
    ensures
        everywhere(caller, org_id, known, Some(all), c) == holds_everywhere(caller, Some(one)),
{
    if all.branches@.len() > 0 && !caller.super_admin {
        if held_by_all(one.branches@) {
            assert forall|i: int| 0 <= i < all.branches@.len() implies (
            #[trigger] all.branches@[i])@.contains(c) by {
                assert(one.branches@[i].1);
            }
        }
        if at_every_branch(all.branches@, c) {
            assert forall|i: int| 0 <= i < one.branches@.len() implies (
            #[trigger] one.branches@[i]).1 by {
                assert(all.branches@[i]@.contains(c));
            }
        }
    }
}

/// Nobody but a super admin reaches into another business.
pub proof fn law_nobody_reaches_into_another_business(
    caller: Caller,
    org_id: Id,
    known: Seq<CapId>,
    loaded: Option<CapHoldings>,
    c: CapId,
)
    ensures
        foreign(caller, org_id) is None <==> caller.super_admin || caller.org == Some(org_id),
        !caller.super_admin && caller.org != Some(org_id) ==> !everywhere(
            caller,
            org_id,
            known,
            loaded,
            c,
        ),
{
}

/// Somebody acts at a branch of the business that is there, in their own
/// business, where the right is granted.
pub proof fn law_who_acts_at_a_branch(
    caller: Caller,
    org_id: Id,
    branch_org: Option<Id>,
    granted: Result<(), AppError>,
)
    ensures
        at_refused(caller, org_id, branch_org, granted) is None <==> {
            &&& branch_org == Some(org_id)
            &&& caller.super_admin || caller.org == Some(org_id)
            &&& granted is Ok
        },
{
}

/// A right is held for a person at one of their branches, and for one without a
/// branch only everywhere.
pub proof fn law_a_right_is_held_at_one_of_their_branches(held: Held, branches: Seq<Id>)
    ensures
        held_at_one(held, branches) <==> held.all || exists|b: Id|
            #[trigger] branches.contains(b) && held.at@.contains(b),
        branches.len() == 0 ==> held_at_one(held, branches) == held.all,
{
    if held_at_one(held, branches) && !held.all {
        let i = choose|i: int| 0 <= i < branches.len() && held.at@.contains(#[trigger] branches[i]);
        assert(branches.contains(branches[i]));
    }
    if exists|b: Id| #[trigger] branches.contains(b) && held.at@.contains(b) {
        let b = choose|b: Id| #[trigger] branches.contains(b) && held.at@.contains(b);
        let i = choose|i: int| 0 <= i < branches.len() && branches[i] == b;
        assert(held.at@.contains(branches[i]));
    }
}

/// The branch a decision is asked at is the first of the person's where the
/// caller may.
pub proof fn law_the_first_branch_where_they_may(branches: Seq<Id>, at: Seq<Id>)
    ensures
        match first_held(branches, at) {
            Some(b) => exists|i: int|
                0 <= i < branches.len() && #[trigger] branches[i] == b && at.contains(b)
                    && forall|j: int| 0 <= j < i ==> !at.contains(#[trigger] branches[j]),
            None => forall|j: int|
                0 <= j < branches.len() ==> !at.contains(#[trigger] branches[j]),
        },
    decreases branches.len(),
{
    if branches.len() > 0 {
        let short = branches.drop_last();
        law_the_first_branch_where_they_may(short, at);
        assert forall|j: int| 0 <= j < short.len() implies #[trigger] branches[j] == short[j] by {}
        match first_held(short, at) {
            Some(b) => {
                let i = choose|i: int|
                    0 <= i < short.len() && #[trigger] short[i] == b && at.contains(b)
                        && forall|j: int| 0 <= j < i ==> !at.contains(#[trigger] short[j]);
                assert(branches[i] == b);
                assert forall|j: int| 0 <= j < i implies !at.contains(#[trigger] branches[j]) by {
                    assert(short[j] == branches[j]);
                }
            },
            None => {
                assert forall|j: int| 0 <= j < short.len() implies !at.contains(
                    #[trigger] branches[j],
                ) by {
                    assert(short[j] == branches[j]);
                }
                assert(branches[branches.len() - 1] == branches.last());
            },
        }
    }
}

/// Somebody is the caller through their own linked user alone.
pub proof fn law_a_caller_is_their_linked_user(s: Subject, sub: Seq<char>)
    ensures
        s.is_caller(sub) <==> exists|u: Id| s.user_id == Some(u) && #[trigger] id_chars(u) == sub,
        s.user_id is None ==> !s.is_caller(sub),
{
}

/// A list shows every branch, or just those where the right is held.
pub proof fn law_a_list_shows_where_it_is_held(held: Held)
    ensures
        shown_at(held) is None <==> held.all,
        !held.all ==> shown_at(held) == Some(held.at@),
{
}

/// What acting at a branch is refused for first.
pub proof fn law_how_acting_at_a_branch_is_refused(
    caller: Caller,
    org_id: Id,
    branch_org: Option<Id>,
    granted: Result<(), AppError>,
)
    ensures
        ({
            at_refused(caller, org_id, branch_org, granted) == if branch_org is None {
                Some(ErrorView::NotFound("Branch not found"@))
            } else if branch_org != Some(org_id) {
                Some(ErrorView::Forbidden("Branch belongs to a different org"@))
            } else if !(caller.super_admin || caller.org == Some(org_id)) {
                Some(ErrorView::Forbidden("Not your org"@))
            } else if granted is Err {
                Some(granted->Err_0@)
            } else {
                None
            }
        }),
{
}

} // verus!
