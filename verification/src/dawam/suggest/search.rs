//! The bounded local search over the proposals, and the solver as a whole.

use vstd::prelude::*;

use crate::calendar::{local_instant, max_of, min_of, ClockTime, Day, Id};
use crate::dawam::engine::moves::{
    alone, law_listing_elsewhere_breaks_nothing, law_taking_off_breaks_nothing,
};
use crate::dawam::engine::{already, limits_broken, no_new_break, Break};
use crate::dawam::suggest::hourly::{first_with, needs_in_order};
use crate::dawam::suggest::{
    all_spans, bounded, clash, clashes, count_in, known, knows, lemma_known_push, on_late,
    proposed_late, proposed_spans, spans_of, times_in, Pick, Problem, Proposal, Reason, Score,
    MAX_SCORE, POINT,
};
use crate::errors::{vars_view, Var, VarView};
use crate::text::{holds_text, maybe, two_digit_text, two_digits};

verus! {

/// The local search's budget of time, in milliseconds.
pub const SEARCH_BUDGET_MS: u128 = 250;

/// The local search's budget of moves.
pub const SEARCH_MOVES: usize = 20_000;

/// How many candidates a reassignment tries.
pub const TRIES: usize = 8;

/// What two late shifts of one person in a week weigh against each other.
pub const SPREAD_WEIGHT: Score = 50_000_000;

#[verifier::external_type_specification]
#[verifier::external_body]
pub struct ExInstant(std::time::Instant);

/// The time now.
///
/// Calls `std::time::Instant::now`; nothing is claimed of it.
#[verifier::external_body]
fn clock_now() -> (r: std::time::Instant) {
    std::time::Instant::now()
}

/// The milliseconds since an instant.
///
/// Calls `std::time::Instant::elapsed`; nothing is claimed of it.
#[verifier::external_body]
fn millis_since(t: &std::time::Instant) -> (r: u128) {
    t.elapsed().as_millis()
}

/// How long the search may go on: for its budget of time, or for a number of
/// looks at the clock.
struct Watch {
    since: Option<std::time::Instant>,
    left: usize,
}

impl Watch {
    /// Whether the search's time is up.
    fn up(&mut self) -> (r: bool)
        ensures
            final(self).since == old(self).since,
            old(self).since is None ==> r == (old(self).left == 0) && final(self).left == old(
                self,
            ).left - if r {
                0int
            } else {
                1int
            },
    {
        match &self.since {
            Some(t) => millis_since(t) >= SEARCH_BUDGET_MS,
            None => {
                if self.left == 0 {
                    true
                } else {
                    self.left = self.left - 1;
                    false
                }
            },
        }
    }
}

// ── what every list of proposals keeps ──────────────────────────────────────

/// A proposal is for a slot there is that week, open to the person proposed.
pub open spec fn stands(p: Problem, x: Proposal) -> bool {
    &&& knows(p, x)
    &&& p.slot_at(x.slot.date, x.slot.shift as int) == Some(x.slot)
    &&& p.open_to(x.slot, x.from, x.person as int)
    &&& x.department is None || p.staff@[x.person as int].department_id == x.department
    &&& p.near(x.slot.date)
    &&& fair_reason(p, x)
}

/// A proposal's reason and runner-up are the problem's.
pub open spec fn fair_reason(p: Problem, x: Proposal) -> bool {
    &&& x.reason matches Reason::Coverage { hour, .. } ==> 0 <= hour < 24
    &&& x.reason matches Reason::CantWork { person } ==> person < p.staff@.len()
    &&& x.runner_up is Some ==> -MAX_SCORE <= x.runner_up->0
        <= MAX_SCORE
}

/// Two proposals do not ask one person for what cannot both be.
pub open spec fn apart(p: Problem, x: Proposal, y: Proposal) -> bool {
    p.id_of(x.person as int) == p.id_of(y.person as int) ==> !clash(x.slot.span, y.slot.span)
}

/// A proposal does not clash with what the person is on already.
pub open spec fn clear(p: Problem, x: Proposal) -> bool {
    !clashes(spans_of(p.spans@, p.id_of(x.person as int)), x.slot.span)
}

/// Proposals that go together: each stands, none clashes with what the person
/// is on already, and no two ask one person for what cannot both be.
pub open spec fn coherent(p: Problem, props: Seq<Proposal>) -> bool {
    &&& forall|k: int| 0 <= k < props.len() ==> stands(p, #[trigger] props[k])
    &&& forall|k: int| 0 <= k < props.len() ==> clear(p, #[trigger] props[k])
    &&& forall|k: int, l: int|
        0 <= k < props.len() && 0 <= l < props.len() && k != l ==> apart(
            p,
            #[trigger] props[k],
            #[trigger] props[l],
        )
}

/// The clock lets every block end after it starts.
pub open spec fn orderly(p: Problem) -> bool {
    forall|d: Day, w: int|
        0 <= w < p.shifts@.len() && (#[trigger] p.slot_at(d, w)) is Some ==> p.slot_at(
            d,
            w,
        )->0.span.start < p.slot_at(d, w)->0.span.end
}

/// With the proposals one person breaks a limit.
pub open spec fn breaks_with(p: Problem, props: Seq<Proposal>, u: Id, b: Break) -> bool {
    already(limits_broken(all_spans(p, props, u), p.limits), b)
}

/// One person breaks a limit without any proposal.
pub open spec fn breaks_before(p: Problem, u: Id, b: Break) -> bool {
    already(limits_broken(spans_of(p.spans@, u), p.limits), b)
}

/// Nobody breaks a labour limit with the proposals that they do not break
/// without.
pub open spec fn limits_kept(p: Problem, props: Seq<Proposal>) -> bool {
    forall|u: Id, b: Break| #[trigger] breaks_with(p, props, u, b) ==> breaks_before(p, u, b)
}

/// Proposals that hold together: they go together and no labour limit is newly
/// broken.
pub open spec fn sound(p: Problem, props: Seq<Proposal>) -> bool {
    coherent(p, props) && (orderly(p) ==> limits_kept(p, props))
}

/// Suggestions that show proposals, one for one.
pub open spec fn shown(p: Problem, props: Seq<Proposal>, r: Seq<Suggestion>) -> bool {
    r.len() == props.len() && forall|k: int|
        0 <= k < r.len() ==> dressed(p, props[k], #[trigger] r[k])
}

/// Two proposals of one slot for one person, taking it from the same.
pub open spec fn same_offer(x: Proposal, y: Proposal) -> bool {
    x.slot == y.slot && x.person == y.person && x.from == y.from && x.department == y.department
        && x.reason == y.reason && x.runner_up == y.runner_up
}

/// A proposal's span is among those proposed to its person.
proof fn lemma_span_is_listed(p: Problem, props: Seq<Proposal>, k: int)
    requires
        0 <= k < props.len(),
    ensures
        proposed_spans(p, props, p.id_of(props[k].person as int)).contains(props[k].slot.span),
    decreases props.len(),
{
    broadcast use vstd::seq_lib::group_seq_properties;

    let u = p.id_of(props[k].person as int);
    let before = proposed_spans(p, props.drop_last(), u);
    if k < props.len() - 1 {
        lemma_span_is_listed(p, props.drop_last(), k);
        assert(props.drop_last()[k] == props[k]);
    }
}

/// Somebody who may take a slot holds together with the proposals.
pub proof fn lemma_taken_holds(
    p: Problem,
    props: Seq<Proposal>,
    x: Proposal,
)
    requires
        sound(p, props),
        knows(p, x),
        fair_reason(p, x),
        p.near(x.slot.date),
        p.slot_at(x.slot.date, x.slot.shift as int) == Some(x.slot),
        p.may_take(props, x.slot, x.department, x.from, x.person as int),
    ensures
        stands(p, x),
        clear(p, x),
        forall|k: int| 0 <= k < props.len() ==> apart(p, x, #[trigger] props[k]),
        forall|k: int| 0 <= k < props.len() ==> apart(p, #[trigger] props[k], x),
        sound(p, props.push(x)),
{
    let u = p.id_of(x.person as int);
    let base = spans_of(p.spans@, u);
    let more = proposed_spans(p, props, u);
    let all = all_spans(p, props, u);
    assert(clear(p, x)) by {
        if clashes(base, x.slot.span) {
            let i = choose|i: int| 0 <= i < base.len() && clash(#[trigger] base[i], x.slot.span);
            assert(all[i] == base[i]);
        }
    }
    assert forall|k: int| 0 <= k < props.len() implies apart(p, x, #[trigger] props[k]) && apart(
        p,
        props[k],
        x,
    ) by {
        if p.id_of(props[k].person as int) == u {
            lemma_span_is_listed(p, props, k);
            let j = choose|j: int| 0 <= j < more.len() && more[j] == props[k].slot.span;
            assert(all[base.len() + j] == props[k].slot.span);
            assert(!clash(all[base.len() + j], x.slot.span));
        }
    }
    lemma_kept_with(p, props, x);
    let r = props.push(x);
    assert forall|k: int| 0 <= k < r.len() implies stands(p, #[trigger] r[k]) by {
        if k < props.len() {
            assert(stands(p, props[k]));
        }
    }
    assert forall|k: int| 0 <= k < r.len() implies clear(p, #[trigger] r[k]) by {
        if k < props.len() {
            assert(clear(p, props[k]));
        }
    }
    assert forall|k: int, l: int| 0 <= k < r.len() && 0 <= l < r.len() && k != l implies apart(
        p,
        #[trigger] r[k],
        #[trigger] r[l],
    ) by {
        if k < props.len() && l < props.len() {
            assert(apart(p, props[k], props[l]));
        } else if k < props.len() {
            assert(apart(p, props[k], x));
        } else {
            assert(apart(p, x, props[l]));
        }
    }
}

/// Proposals that are each the same offer as a different one of a list that
/// goes together go together.
proof fn lemma_coherent_mapped(
    p: Problem,
    old_props: Seq<Proposal>,
    new_props: Seq<Proposal>,
    at: spec_fn(int) -> int,
)
    requires
        coherent(p, old_props),
        known(p, new_props),
        forall|k: int| #![trigger new_props[k]]
            0 <= k < new_props.len() ==> 0 <= at(k) < old_props.len() && same_offer(
                new_props[k],
                old_props[at(k)],
            ),
        forall|k: int, l: int| #![trigger new_props[k], new_props[l]]
            0 <= k < new_props.len() && 0 <= l < new_props.len() && k != l ==> at(k) != at(l),
    ensures
        coherent(p, new_props),
{
    assert forall|k: int| 0 <= k < new_props.len() implies stands(p, #[trigger] new_props[k])
        && clear(p, new_props[k]) by {
        assert(knows(p, new_props[k]));
        assert(stands(p, old_props[at(k)]));
        assert(clear(p, old_props[at(k)]));
    }
    assert forall|k: int, l: int|
        0 <= k < new_props.len() && 0 <= l < new_props.len() && k != l implies apart(
        p,
        #[trigger] new_props[k],
        #[trigger] new_props[l],
    ) by {
        assert(same_offer(new_props[k], old_props[at(k)]));
        assert(same_offer(new_props[l], old_props[at(l)]));
        assert(at(k) != at(l));
        assert(apart(p, old_props[at(k)], old_props[at(l)]));
    }
}

/// Proposals that hold together still do without one of them.
proof fn lemma_sound_without(p: Problem, props: Seq<Proposal>, i: int)
    requires
        sound(p, props),
        known(p, props),
        0 <= i < props.len(),
    ensures
        sound(p, props.remove(i)),
        known(p, props.remove(i)),
{
    let r = props.remove(i);
    assert forall|k: int| 0 <= k < r.len() implies knows(p, #[trigger] r[k]) by {
        assert(r[k] == props[if k < i {
            k
        } else {
            k + 1
        }]);
    }
    lemma_coherent_mapped(
        p,
        props,
        r,
        |k: int|
            if k < i {
                k
            } else {
                k + 1
            },
    );
    if orderly(p) {
        lemma_kept_without(p, props, i);
    }
}

/// No proposals hold together.
pub proof fn lemma_none_hold(p: Problem)
    ensures
        sound(p, Seq::<Proposal>::empty()),
{
    let none = Seq::<Proposal>::empty();
    assert forall|u: Id, b: Break| #[trigger] breaks_with(p, none, u, b) implies breaks_before(
        p,
        u,
        b,
    ) by {
        assert(all_spans(p, none, u) =~= spans_of(p.spans@, u));
    }
}

/// What fits beside the proposals breaks nothing new with them.
proof fn lemma_kept_with(p: Problem, props: Seq<Proposal>, x: Proposal)
    requires
        no_new_break(all_spans(p, props, p.id_of(x.person as int)), x.slot.span, p.limits),
    ensures
        limits_kept(p, props) ==> limits_kept(p, props.push(x)),
{
    let r = props.push(x);
    if limits_kept(p, props) {
        assert forall|u: Id, b: Break| #[trigger] breaks_with(p, r, u, b) implies breaks_before(
            p,
            u,
            b,
        ) by {
            assert(r.drop_last() =~= props);
            let before = all_spans(p, props, u);
            if u == p.id_of(x.person as int) {
                let after = limits_broken(before.push(x.slot.span), p.limits);
                assert(all_spans(p, r, u) =~= before.push(x.slot.span));
                let j = choose|j: int|
                    0 <= j < after.len() && (#[trigger] after[j]).date == b.date && after[j].kind
                        == b.kind;
                assert(already(limits_broken(before, p.limits), after[j]));
                assert(already(limits_broken(before, p.limits), b));
            }
            assert(breaks_with(p, props, u, b));
        }
    }
}

/// Where a proposal's span is among those proposed to its person.
proof fn lemma_proposed_without(p: Problem, props: Seq<Proposal>, i: int, u: Id) -> (k: int)
    requires
        0 <= i < props.len(),
    ensures
        p.id_of(props[i].person as int) != u ==> proposed_spans(p, props.remove(i), u)
            == proposed_spans(p, props, u),
        p.id_of(props[i].person as int) == u ==> {
            let all = proposed_spans(p, props, u);
            &&& 0 <= k < all.len()
            &&& all[k] == props[i].slot.span
            &&& proposed_spans(p, props.remove(i), u) == all.remove(k)
        },
    decreases props.len(),
{
    let short = props.drop_last();
    let all = proposed_spans(p, props, u);
    if i == props.len() - 1 {
        assert(props.remove(i) =~= short);
        if p.id_of(props[i].person as int) == u {
            assert(all.remove(all.len() - 1) =~= proposed_spans(p, short, u));
        }
        all.len() - 1
    } else {
        let k = lemma_proposed_without(p, short, i, u);
        assert(props.remove(i).drop_last() =~= short.remove(i));
        assert(props.remove(i).last() == props.last());
        if p.id_of(props[i].person as int) == u {
            let before = proposed_spans(p, short, u);
            if p.id_of(props.last().person as int) == u {
                assert(before.remove(k).push(props.last().slot.span) =~= all.remove(k));
            }
        }
        k
    }
}

/// Which proposal a proposed span comes from.
proof fn lemma_proposed_by(p: Problem, props: Seq<Proposal>, u: Id, j: int) -> (n: int)
    requires
        0 <= j < proposed_spans(p, props, u).len(),
    ensures
        0 <= n < props.len(),
        p.id_of(props[n].person as int) == u,
        props[n].slot.span == proposed_spans(p, props, u)[j],
    decreases props.len(),
{
    let short = props.drop_last();
    let before = proposed_spans(p, short, u);
    if j < before.len() {
        let n = lemma_proposed_by(p, short, u, j);
        n
    } else {
        props.len() - 1
    }
}

/// Taking back one of proposals that go together breaks nothing new.
proof fn lemma_kept_without(p: Problem, props: Seq<Proposal>, i: int)
    requires
        coherent(p, props),
        orderly(p),
        limits_kept(p, props),
        0 <= i < props.len(),
    ensures
        limits_kept(p, props.remove(i)),
{
    let r = props.remove(i);
    assert forall|u: Id, b: Break| #[trigger] breaks_with(p, r, u, b) implies breaks_before(
        p,
        u,
        b,
    ) by {
        let k = lemma_proposed_without(p, props, i, u);
        let base = spans_of(p.spans@, u);
        let all = all_spans(p, props, u);
        if p.id_of(props[i].person as int) == u {
            let at = base.len() + k;
            assert(all_spans(p, r, u) =~= all.remove(at));
            assert(stands(p, props[i]) && clear(p, props[i]));
            assert(p.slot_at(props[i].slot.date, props[i].slot.shift as int) is Some);
            assert(all[at] == props[i].slot.span);
            assert(alone(all, at)) by {
                assert forall|j: int| 0 <= j < all.len() && j != at implies !((
                #[trigger] all[j]).start < all[at].end && all[at].start < all[j].end) by {
                    if j < base.len() {
                        assert(!clash(base[j], all[at]));
                    } else {
                        let rest = proposed_spans(p, r, u);
                        let m = if j < at {
                            j - base.len()
                        } else {
                            j - base.len() - 1
                        };
                        assert(rest[m] == all[j]);
                        let n = lemma_proposed_by(p, r, u, m);
                        assert(r[n] == props[if n < i {
                            n
                        } else {
                            n + 1
                        }]);
                        assert(apart(p, props[if n < i {
                            n
                        } else {
                            n + 1
                        }], props[i]));
                    }
                }
            }
            law_taking_off_breaks_nothing(all, at, p.limits, b);
        }
        assert(breaks_with(p, props, u, b));
    }
}

/// A proposal made last may stand anywhere among the others.
proof fn lemma_put_last_at(p: Problem, rest: Seq<Proposal>, i: int, x: Proposal)
    requires
        0 <= i <= rest.len(),
        sound(p, rest.push(x)),
    ensures
        sound(p, rest.insert(i, x)),
{
    let last = rest.push(x);
    let r = rest.insert(i, x);
    let n = rest.len() as int;
    let at = |k: int|
        if k < i {
            k
        } else if k == i {
            n
        } else {
            k - 1
        };
    assert forall|k: int| 0 <= k < r.len() implies knows(p, #[trigger] r[k]) by {
        assert(r[k] == last[at(k)]);
        assert(stands(p, last[at(k)]));
    }
    lemma_coherent_mapped(p, last, r, at);
    if orderly(p) {
        assert forall|u: Id, b: Break| #[trigger] breaks_with(p, r, u, b) implies breaks_before(
            p,
            u,
            b,
        ) by {
            let k = lemma_proposed_without(p, r, i, u);
            assert(r.remove(i) =~= rest);
            assert(last.drop_last() =~= rest);
            let base = spans_of(p.spans@, u);
            let before = all_spans(p, rest, u);
            if p.id_of(x.person as int) == u {
                let s = x.slot.span;
                let all = all_spans(p, r, u);
                let place = base.len() + k;
                let more = proposed_spans(p, rest, u);
                assert(all =~= before.insert(place, s));
                assert(all_spans(p, last, u) =~= before.push(s));
                assert(stands(p, last[n]));
                assert(p.slot_at(x.slot.date, x.slot.shift as int) is Some);
                assert forall|j: int| place <= j < before.len() implies (
                #[trigger] before[j]).start != s.start by {
                    assert(before[j] == more[j - base.len()]);
                    let m = lemma_proposed_by(p, rest, u, j - base.len());
                    assert(last[m] == rest[m]);
                    assert(stands(p, last[m]));
                    assert(p.slot_at(last[m].slot.date, last[m].slot.shift as int) is Some);
                    assert(apart(p, last[m], last[n]));
                }
                law_listing_elsewhere_breaks_nothing(before, place, s, p.limits, b);
            }
            assert(breaks_with(p, last, u, b));
        }
    }
}

// ── the spread of late shifts ───────────────────────────────────────────────

/// For each of the first `n` of a list, how many times the list holds them:
/// over the whole list, the sum of the squares of everybody's count.
pub open spec fn squares(list: Seq<Id>, n: int) -> int
    decreases n,
{
    if n <= 0 {
        0
    } else {
        squares(list, n - 1) + times_in(list, list[n - 1])
    }
}

/// The fairness part of the objective: the spread of late shifts.
pub open spec fn spread_of(p: Problem, props: Seq<Proposal>) -> int {
    SPREAD_WEIGHT * squares(on_late(p, props), on_late(p, props).len() as int)
}

/// A sum over a list.
spec fn sum_over(list: Seq<Id>, f: spec_fn(Id) -> int) -> int
    decreases list.len(),
{
    if list.len() == 0 {
        0
    } else {
        sum_over(list.drop_last(), f) + f(list.last())
    }
}

proof fn lemma_squares_are_a_sum(list: Seq<Id>, n: int, f: spec_fn(Id) -> int)
    requires
        0 <= n <= list.len(),
        forall|x: Id| #[trigger] f(x) == times_in(list, x),
    ensures
        squares(list, n) == sum_over(list.take(n), f),
    decreases n,
{
    if n > 0 {
        lemma_squares_are_a_sum(list, n - 1, f);
        assert(list.take(n).drop_last() =~= list.take(n - 1));
    }
}

proof fn lemma_times_are_a_sum(list: Seq<Id>, u: Id, f: spec_fn(Id) -> int)
    requires
        forall|x: Id| #[trigger] f(x) == if x == u { 1int } else { 0 },
    ensures
        times_in(list, u) == sum_over(list, f),
    decreases list.len(),
{
    if list.len() > 0 {
        lemma_times_are_a_sum(list.drop_last(), u, f);
    }
}

/// A sum over a list without one of it.
proof fn lemma_sum_without(list: Seq<Id>, k: int, f: spec_fn(Id) -> int)
    requires
        0 <= k < list.len(),
    ensures
        sum_over(list, f) == sum_over(list.remove(k), f) + f(list[k]),
    decreases list.len(),
{
    if k == list.len() - 1 {
        assert(list.remove(k) =~= list.drop_last());
    } else {
        lemma_sum_without(list.drop_last(), k, f);
        assert(list.remove(k).drop_last() =~= list.drop_last().remove(k));
        assert(list.remove(k).last() == list.last());
    }
}

proof fn lemma_sums_add(
    list: Seq<Id>,
    f: spec_fn(Id) -> int,
    g: spec_fn(Id) -> int,
    both: spec_fn(Id) -> int,
)
    requires
        forall|x: Id| #[trigger] both(x) == f(x) + g(x),
    ensures
        sum_over(list, both) == sum_over(list, f) + sum_over(list, g),
    decreases list.len(),
{
    if list.len() > 0 {
        lemma_sums_add(list.drop_last(), f, g, both);
    }
}

/// One more of a list adds to the sum of the squares by how often it is there
/// already, twice, and once more.
pub(crate) proof fn lemma_squares_without(list: Seq<Id>, k: int)
    requires
        0 <= k < list.len(),
    ensures
        squares(list, list.len() as int) == squares(list.remove(k), list.len() - 1) + 2 * times_in(
            list.remove(k),
            list[k],
        ) + 1,
        0 <= times_in(list.remove(k), list[k]) < list.len(),
{
    let rest = list.remove(k);
    let u = list[k];
    let f = |x: Id| times_in(list, x);
    let g = |x: Id| times_in(rest, x);
    let one = |x: Id|
        if x == u {
            1int
        } else {
            0
        };
    assert forall|x: Id| #[trigger] f(x) == g(x) + one(x) by {
        let h = |y: Id|
            if y == x {
                1int
            } else {
                0
            };
        lemma_times_are_a_sum(list, x, h);
        lemma_times_are_a_sum(rest, x, h);
        lemma_sum_without(list, k, h);
    }
    lemma_squares_are_a_sum(list, list.len() as int, f);
    lemma_squares_are_a_sum(rest, rest.len() as int, g);
    assert(list.take(list.len() as int) =~= list);
    assert(rest.take(rest.len() as int) =~= rest);
    lemma_sum_without(list, k, f);
    lemma_sums_add(rest, g, one, f);
    lemma_times_are_a_sum(rest, u, one);
    lemma_times_in_bound(rest, u);
}

/// Two sums of squares that a machine can tell apart.
spec fn comparable(a: int, b: int) -> bool {
    -300_000_000_000_000_000_000 <= a - b <= 300_000_000_000_000_000_000
}

/// The sum of the squares of a week.
spec fn late_squares(p: Problem, props: Seq<Proposal>) -> int {
    squares(on_late(p, props), on_late(p, props).len() as int)
}

/// The late shifts of a week without one proposal: without its person once,
/// where it is for a late block.
proof fn lemma_late_without(p: Problem, props: Seq<Proposal>, i: int)
    requires
        0 <= i < props.len(),
    ensures
        proposed_late(p, props.remove(i)) == proposed_late(p, props) || exists|k: int|
            0 <= k < proposed_late(p, props).len() && proposed_late(p, props.remove(i))
                == #[trigger] proposed_late(p, props).remove(k),
    decreases props.len(),
{
    let all = proposed_late(p, props);
    let late = p.late@[props.last().slot.shift as int];
    if i == props.len() - 1 {
        assert(props.remove(i) =~= props.drop_last());
        if late {
            assert(all.remove(all.len() - 1) =~= proposed_late(p, props.drop_last()));
        }
    } else {
        lemma_late_without(p, props.drop_last(), i);
        let before = proposed_late(p, props.drop_last());
        let less = proposed_late(p, props.drop_last().remove(i));
        assert(props.remove(i).drop_last() =~= props.drop_last().remove(i));
        assert(props.remove(i).last() == props.last());
        if less != before {
            let k = choose|k: int|
                0 <= k < before.len() && less == #[trigger] before.remove(k);
            assert(proposed_late(p, props.remove(i)) =~= all.remove(k));
        }
    }
}

/// One proposal changes the sum of the squares by little.
proof fn lemma_squares_near(p: Problem, props: Seq<Proposal>, i: int)
    requires
        0 <= i < props.len(),
    ensures
        on_late(p, props.remove(i)).len() <= on_late(p, props).len(),
        0 <= late_squares(p, props) - late_squares(p, props.remove(i)) <= 2 * on_late(
            p,
            props,
        ).len() + 1,
{
    lemma_late_without(p, props, i);
    let some = proposed_late(p, props);
    let all = on_late(p, props);
    let less = on_late(p, props.remove(i));
    if proposed_late(p, props.remove(i)) != some {
        let k = choose|k: int|
            0 <= k < some.len() && proposed_late(p, props.remove(i)) == #[trigger] some.remove(k);
        let at = all.len() - some.len() + k;
        assert(less =~= all.remove(at));
        lemma_squares_without(all, at);
    } else {
        assert(less =~= all);
    }
}

impl Problem {
    /// The sum of the squares of everybody's late shifts.
    fn squared(&self, props: &Vec<Proposal>) -> (r: u128)
        requires
            self.valid(),
            known(*self, props@),
        ensures
            r == late_squares(*self, props@),
            on_late(*self, props@).len() <= usize::MAX,
    {
        let list: Vec<Id> = self.list_late(props);
        let n: usize = list.len();
        let mut sum: u128 = 0;
        let mut i: usize = 0;
        while i < n
            invariant
                i <= n == list@.len(),
                sum == squares(list@, i as int),
                0 <= sum <= i * n,
            decreases n - i,
        {
            let c: usize = count_in(&list, list[i]);
            proof {
                lemma_times_in_bound(list@, list@[i as int]);
                assert(i * n + n == (i + 1) * n) by (nonlinear_arith);
                assert((i + 1) * n <= 18_446_744_073_709_551_615 * 18_446_744_073_709_551_615)
                    by (nonlinear_arith)
                    requires
                        0 <= i < n <= 18_446_744_073_709_551_615,
                ;
            }
            sum += c as u128;
            i += 1;
        }
        sum
    }
}

/// What a change of the sum of the squares weighs.
fn weighed(after: u128, before: u128) -> (r: Score)
    requires
        comparable(after as int, before as int),
    ensures
        r == SPREAD_WEIGHT * after - SPREAD_WEIGHT * before,
        -MAX_SCORE <= r <= MAX_SCORE,
{
    if after >= before {
        SPREAD_WEIGHT * ((after - before) as i128)
    } else {
        -(SPREAD_WEIGHT * ((before - after) as i128))
    }
}

proof fn lemma_times_in_bound(list: Seq<Id>, u: Id)
    ensures
        0 <= times_in(list, u) <= list.len(),
    decreases list.len(),
{
    if list.len() > 0 {
        lemma_times_in_bound(list.drop_last(), u);
    }
}

// ── moves ───────────────────────────────────────────────────────────────────

/// The score of a person among candidates.
pub open spec fn score_in(list: Seq<Pick>, person: int) -> Option<Score>
    decreases list.len(),
{
    if list.len() == 0 {
        None
    } else {
        match score_in(list.drop_last(), person) {
            Some(s) => Some(s),
            None => if list.last().person == person {
                Some(list.last().score)
            } else {
                None
            },
        }
    }
}

proof fn lemma_score_in(list: Seq<Pick>, person: int)
    ensures
        match score_in(list, person) {
            Some(s) => exists|k: int|
                0 <= k < list.len() && (#[trigger] list[k]).person == person && list[k].score == s
                    && forall|j: int| 0 <= j < k ==> (#[trigger] list[j]).person != person,
            None => forall|k: int| 0 <= k < list.len() ==> (#[trigger] list[k]).person != person,
        },
    decreases list.len(),
{
    if list.len() > 0 {
        let d = list.drop_last();
        lemma_score_in(d, person);
        assert(forall|k: int| 0 <= k < d.len() ==> d[k] == list[k]);
        match score_in(d, person) {
            Some(s) => {
                let k = choose|k: int|
                    0 <= k < d.len() && (#[trigger] d[k]).person == person && d[k].score == s
                        && forall|j: int| 0 <= j < k ==> (#[trigger] d[j]).person != person;
                assert(list[k].person == person);
            },
            None => {
                if list.last().person == person {
                    assert(list[list.len() - 1].person == person);
                }
            },
        }
    }
}

/// A person's score among candidates.
fn find_score(list: &Vec<Pick>, person: usize) -> (r: Option<Score>)
    ensures
        r == score_in(list@, person as int),
        r is Some ==> exists|k: int|
            0 <= k < list@.len() && (#[trigger] list@[k]).person == person && list@[k].score
                == r->0,
{
    proof {
        lemma_score_in(list@, person as int);
    }
    let mut i: usize = 0;
    while i < list.len()
        invariant
            i <= list@.len(),
            forall|k: int| 0 <= k < i ==> (#[trigger] list@[k]).person != person,
            match score_in(list@, person as int) {
                Some(s) => exists|k: int|
                    0 <= k < list@.len() && (#[trigger] list@[k]).person == person
                        && list@[k].score == s && forall|j: int|
                        0 <= j < k ==> (#[trigger] list@[j]).person != person,
                None => forall|k: int|
                    0 <= k < list@.len() ==> (#[trigger] list@[k]).person != person,
            },
        decreases list@.len() - i,
    {
        if list[i].person == person {
            return Some(list[i].score);
        }
        i += 1;
    }
    None
}

/// A proposal with somebody else on it.
pub open spec fn handed(x: Proposal, person: usize, score: Score) -> Proposal {
    Proposal { person, score, by_default: false, ..x }
}

impl Problem {
    /// What handing a proposal to a candidate gains: the score it gains, less
    /// what it costs in spread.
    pub open spec fn gain(
        self,
        props: Seq<Proposal>,
        i: int,
        current: Score,
        c: Pick,
    ) -> int {
        c.score - current - (spread_of(self, props.remove(i).push(handed(props[i], c.person, c.score)))
            - spread_of(self, props))
    }

    /// The candidate of a list that gains most, of those that gain anything at
    /// all; of those alike the first.
    pub open spec fn most_gained(
        self,
        props: Seq<Proposal>,
        i: int,
        current: Score,
        list: Seq<Pick>,
    ) -> Option<Pick>
        decreases list.len(),
    {
        if list.len() == 0 {
            None
        } else {
            let best = self.most_gained(props, i, current, list.drop_last());
            let c = list.last();
            let g = self.gain(props, i, current, c);
            if c.person != props[i].person && g > 1 && (best is None || g > self.gain(
                props,
                i,
                current,
                best->0,
            )) {
                Some(c)
            } else {
                best
            }
        }
    }

    /// The candidates for the slot of one of the proposals, beside the others.
    pub open spec fn others_for(self, props: Seq<Proposal>, i: int) -> Seq<Pick> {
        self.picks(
            props.remove(i),
            props[i].slot,
            props[i].department,
            props[i].from,
            self.staff@.len() as int,
        )
    }

    /// How many candidates are tried for a proposal.
    pub open spec fn tries(self, props: Seq<Proposal>, i: int) -> int {
        min_of(self.others_for(props, i).len() as int, TRIES as int)
    }

    /// Whom a proposal is handed to, if to anybody: of the best few candidates
    /// the one that gains most, where the person on it is a candidate too.
    pub open spec fn reassigned(self, props: Seq<Proposal>, i: int) -> Option<Pick> {
        let list = self.others_for(props, i);
        let tried = if list.len() < TRIES {
            list
        } else {
            list.take(TRIES as int)
        };
        match score_in(list, props[i].person as int) {
            Some(current) => self.most_gained(props, i, current, tried),
            None => None,
        }
    }

    /// Whom to hand a proposal to, if to anybody, and how many were tried.
    pub fn reassign(&self, props: &Vec<Proposal>, i: usize) -> (r: (usize, Option<Pick>))
        requires
            self.valid(),
            known(*self, props@),
            sound(*self, props@),
            i < props@.len(),
        ensures
            r.1 == self.reassigned(props@, i as int),
            r.0 == self.tries(props@, i as int),
            r.0 <= TRIES,
            r.1 is Some ==> r.0 > 0,
            r.1 matches Some(c) ==> {
                &&& knows(*self, handed(props@[i as int], c.person, c.score))
                &&& sound(*self, props@.update(i as int, handed(props@[i as int], c.person, c.score)))
            },
    {
        let x: Proposal = props[i];
        assert(knows(*self, props@[i as int]));
        let mut rest: Vec<Proposal> = copy_props(props);
        rest.remove(i);
        proof {
            lemma_sound_without(*self, props@, i as int);
        }
        let list: Vec<Pick> = self.candidates(&rest, &x.slot, x.department, x.from);
        let tried: usize = if list.len() < TRIES {
            list.len()
        } else {
            TRIES
        };
        let current: Score = match find_score(&list, x.person) {
            Some(s) => s,
            None => {
                return (tried, None);
            },
        };
        let before: u128 = self.squared(props);
        proof {
            let k = choose|k: int|
                0 <= k < list@.len() && (#[trigger] list@[k]).person == x.person && list@[k].score
                    == current;
            assert(bounded(list@[k]));
        }
        let staff: usize = self.staff.len();
        let mut best: Option<Pick> = None;
        let mut best_gain: Score = 0;
        let mut k: usize = 0;
        while k < tried
            invariant
                k <= tried <= list@.len(),
                tried <= TRIES,
                self.valid(),
                staff == self.staff@.len(),
                known(*self, rest@),
                i < props@.len(),
                x == props@[i as int],
                knows(*self, x),
                rest@ == props@.remove(i as int),
                list@ == self.others_for(props@, i as int),
                forall|k: int| 0 <= k < list@.len() ==> bounded(#[trigger] list@[k]),
                -MAX_SCORE <= current
                    <= MAX_SCORE,
                before == late_squares(*self, props@),
                on_late(*self, props@).len() <= usize::MAX,
                best == self.most_gained(props@, i as int, current, list@.take(k as int)),
                best is Some ==> best_gain == self.gain(props@, i as int, current, best->0),
                best is Some ==> list@.contains(best->0) && best->0.person != x.person && k > 0,
            decreases tried - k,
        {
            assert(list@.take(k + 1).drop_last() =~= list@.take(k as int));
            let c: Pick = list[k];
            assert(bounded(list@[k as int]));
            if c.person != x.person {
                let y: Proposal = Proposal {
                    slot: x.slot,
                    person: c.person,
                    from: x.from,
                    department: x.department,
                    reason: x.reason,
                    score: c.score,
                    by_default: false,
                    runner_up: x.runner_up,
                };
                proof {
                    assert(list@.contains(list@[k as int]));
                    self.lemma_picks_may_take(
                        rest@,
                        x.slot,
                        x.department,
                        x.from,
                        staff as int,
                        list@[k as int],
                    );
                    assert(knows(*self, y));
                    lemma_known_push(*self, rest@, y);
                    assert(y == handed(x, c.person, c.score));
                }
                let mut with: Vec<Proposal> = copy_props(&rest);
                with.push(y);
                let after: u128 = self.squared(&with);
                proof {
                    lemma_squares_near(*self, props@, i as int);
                    lemma_squares_near(*self, with@, with@.len() - 1);
                    assert(with@.remove(with@.len() - 1) =~= rest@);
                }
                let gain: Score = c.score - current - weighed(after, before);
                let better: bool = match best {
                    Some(_) => gain > best_gain,
                    None => true,
                };
                if gain > 1 && better {
                    best = Some(c);
                    best_gain = gain;
                }
            }
            k += 1;
        }
        proof {
            assert(list@.take(list@.len() as int) =~= list@);
            if best is Some {
                let c = best->0;
                self.lemma_picks_may_take(rest@, x.slot, x.department, x.from, staff as int, c);
                let y = handed(x, c.person, c.score);
                let j = choose|j: int| 0 <= j < list@.len() && list@[j] == c;
                assert(bounded(list@[j]));
                assert(knows(*self, y));
                assert(stands(*self, props@[i as int]));
                lemma_taken_holds(*self, rest@, y);
                lemma_put_back(*self, props@, i as int, y);
            }
        }
        (tried, best)
    }
}

/// A proposal put back in its place holds together as at the end.
proof fn lemma_put_back(p: Problem, props: Seq<Proposal>, i: int, y: Proposal)
    requires
        0 <= i < props.len(),
        known(p, props),
        knows(p, y),
        sound(p, props.remove(i).push(y)),
    ensures
        sound(p, props.update(i, y)),
{
    lemma_put_last_at(p, props.remove(i), i, y);
    assert(props.remove(i).insert(i, y) =~= props.update(i, y));
}

/// A copy of a list of proposals.
fn copy_props(props: &Vec<Proposal>) -> (r: Vec<Proposal>)
    ensures
        r@ == props@,
{
    let mut out: Vec<Proposal> = Vec::new();
    let mut i: usize = 0;
    while i < props.len()
        invariant
            i <= props@.len(),
            out@ == props@.take(i as int),
        decreases props@.len() - i,
    {
        out.push(props[i]);
        i += 1;
        assert(props@.take(i as int) =~= props@.take(i - 1).push(props@[i - 1]));
    }
    assert(props@.take(props@.len() as int) =~= props@);
    out
}

// ── swaps ───────────────────────────────────────────────────────────────────

impl Problem {
    /// A proposal of one slot handed to a person at what they score for it
    /// beside some proposals, if they may take it.
    pub open spec fn handed_to(
        self,
        rest: Seq<Proposal>,
        x: Proposal,
        person: usize,
    ) -> Option<Proposal> {
        match score_in(
            self.picks(rest, x.slot, x.department, None, self.staff@.len() as int),
            person as int,
        ) {
            Some(score) => Some(handed(x, person, score)),
            None => None,
        }
    }

    /// The two proposals that come of swapping the people of two, if both may
    /// take the other's slot: the first placed before the second.
    pub open spec fn exchanged(self, props: Seq<Proposal>, i: int, j: int) -> Option<
        (Proposal, Proposal),
    > {
        let rest = props.remove(j).remove(i);
        match self.handed_to(rest, props[i], props[j].person) {
            Some(a) => match self.handed_to(rest.push(a), props[j], props[i].person) {
                Some(b) => Some((a, b)),
                None => None,
            },
            None => None,
        }
    }

    /// The swap of two proposals' people, where both are additions for two
    /// people and the objective (scores less spread) is better for it.
    pub open spec fn swapped(self, props: Seq<Proposal>, i: int, j: int) -> Option<
        (Proposal, Proposal),
    > {
        if props[i].person == props[j].person || props[i].from is Some || props[j].from is Some {
            None
        } else {
            match self.exchanged(props, i, j) {
                Some((a, b)) => if a.score + b.score - spread_of(
                    self,
                    props.remove(j).remove(i).push(a).push(b),
                ) > props[i].score + props[j].score - spread_of(self, props) + 1 {
                    Some((a, b))
                } else {
                    None
                },
                None => None,
            }
        }
    }

    /// Hands a proposal to a person beside some proposals, if they may take it.
    fn hand_to(&self, rest: &Vec<Proposal>, x: &Proposal, person: usize) -> (r: Option<Proposal>)
        requires
            self.valid(),
            known(*self, rest@),
            sound(*self, rest@),
            knows(*self, *x),
            x.from is None,
            stands(*self, *x),
        ensures
            r == self.handed_to(rest@, *x, person),
            r matches Some(y) ==> knows(*self, y) && sound(*self, rest@.push(y)) && known(
                *self,
                rest@.push(y),
            ),
    {
        let list: Vec<Pick> = self.candidates(rest, &x.slot, x.department, None);
        let staff: usize = self.staff.len();
        match find_score(&list, person) {
            Some(score) => {
                let y: Proposal = Proposal {
                    slot: x.slot,
                    person,
                    from: x.from,
                    department: x.department,
                    reason: x.reason,
                    score,
                    by_default: false,
                    runner_up: x.runner_up,
                };
                proof {
                    assert(y == handed(*x, person, score));
                    let k = choose|k: int|
                        0 <= k < list@.len() && (#[trigger] list@[k]).person == person
                            && list@[k].score == score;
                    assert(bounded(list@[k]));
                    assert(list@.contains(list@[k]));
                    self.lemma_picks_may_take(
                        rest@,
                        x.slot,
                        x.department,
                        None,
                        staff as int,
                        list@[k],
                    );
                    assert(knows(*self, y));
                    lemma_taken_holds(*self, rest@, y);
                    lemma_known_push(*self, rest@, y);
                }
                Some(y)
            },
            None => None,
        }
    }

    /// The swap of two proposals' people, where the objective is better for it.
    pub fn swap(&self, props: &Vec<Proposal>, i: usize, j: usize) -> (r: Option<
        (Proposal, Proposal),
    >)
        requires
            self.valid(),
            known(*self, props@),
            sound(*self, props@),
            i < j < props@.len(),
        ensures
            r == self.swapped(props@, i as int, j as int),
            r matches Some(x) ==> {
                &&& knows(*self, x.0) && knows(*self, x.1)
                &&& sound(*self, props@.update(i as int, x.0).update(j as int, x.1))
            },
    {
        let a: Proposal = props[i];
        let b: Proposal = props[j];
        assert(knows(*self, props@[i as int]) && knows(*self, props@[j as int]));
        assert(stands(*self, props@[i as int]) && stands(*self, props@[j as int]));
        if a.person == b.person || a.from.is_some() || b.from.is_some() {
            return None;
        }
        let mut rest: Vec<Proposal> = copy_props(props);
        rest.remove(j);
        rest.remove(i);
        proof {
            lemma_sound_without(*self, props@, j as int);
            lemma_sound_without(*self, props@.remove(j as int), i as int);
        }
        let na: Proposal = match self.hand_to(&rest, &a, b.person) {
            Some(x) => x,
            None => {
                return None;
            },
        };
        let ghost alone = rest@;
        rest.push(na);
        let nb: Proposal = match self.hand_to(&rest, &b, a.person) {
            Some(x) => x,
            None => {
                return None;
            },
        };
        rest.push(nb);
        let before: u128 = self.squared(props);
        let after: u128 = self.squared(&rest);
        proof {
            let gone = props@.remove(j as int);
            let more = alone.push(na);
            lemma_squares_near(*self, props@, j as int);
            lemma_squares_near(*self, gone, i as int);
            lemma_squares_near(*self, rest@, rest@.len() - 1);
            assert(rest@.remove(rest@.len() - 1) =~= more);
            lemma_squares_near(*self, more, more.len() - 1);
            assert(more.remove(more.len() - 1) =~= alone);
        }
        if na.score + nb.score - weighed(after, before) > a.score + b.score + 1 {
            proof {
                lemma_put_two_back(*self, props@, i as int, j as int, na, nb);
            }
            Some((na, nb))
        } else {
            None
        }
    }
}

/// Two proposals put back in their places hold together as at the end.
proof fn lemma_put_two_back(
    p: Problem,
    props: Seq<Proposal>,
    i: int,
    j: int,
    x: Proposal,
    y: Proposal,
)
    requires
        0 <= i < j < props.len(),
        known(p, props),
        knows(p, x),
        knows(p, y),
        sound(p, props.remove(j).remove(i).push(x).push(y)),
    ensures
        sound(p, props.update(i, x).update(j, y)),
{
    let rest = props.remove(j).remove(i);
    lemma_put_last_at(p, rest.push(x), j - 1, y);
    assert(rest.push(x).insert(j - 1, y) =~= rest.insert(j - 1, y).push(x));
    lemma_put_last_at(p, rest.insert(j - 1, y), i, x);
    assert(rest.insert(j - 1, y).insert(i, x) =~= props.update(i, x).update(j, y));
}

// ── the search ──────────────────────────────────────────────────────────────

/// A proposal after the search: of the same slot, for the same reason, taking it
/// from the same; with somebody else on it, the gender default did not decide.
pub open spec fn kept(x: Proposal, y: Proposal) -> bool {
    &&& y.slot == x.slot && y.from == x.from && y.department == x.department && y.reason == x.reason
        && y.runner_up == x.runner_up
    &&& y == x || !y.by_default
}

/// Proposals after the search: one for one.
pub open spec fn refined(old_props: Seq<Proposal>, new_props: Seq<Proposal>) -> bool {
    &&& new_props.len() == old_props.len()
    &&& forall|k: int|
        0 <= k < old_props.len() ==> kept(#[trigger] old_props[k], #[trigger] new_props[k])
}

proof fn lemma_refined_trans(a: Seq<Proposal>, b: Seq<Proposal>, c: Seq<Proposal>)
    requires
        refined(a, b),
        refined(b, c),
    ensures
        refined(a, c),
{
    assert forall|k: int| 0 <= k < a.len() implies kept(#[trigger] a[k], #[trigger] c[k]) by {
        assert(kept(a[k], b[k]));
        assert(kept(b[k], c[k]));
    }
}

/// How far a sweep over the proposals got: the proposals after it, the moves
/// made, the looks at the clock left, whether it changed anything and whether
/// the budget was spent before its end.
pub struct Sweep {
    pub props: Seq<Proposal>,
    pub moves: int,
    pub left: int,
    pub improved: bool,
    pub spent: bool,
}

impl Problem {
    /// The proposals with one handed on where that gains.
    pub open spec fn with_reassigned(self, props: Seq<Proposal>, i: int) -> Seq<Proposal> {
        match self.reassigned(props, i) {
            Some(c) => props.update(i, handed(props[i], c.person, c.score)),
            None => props,
        }
    }

    /// Handing on each proposal from the `i`th on, one look at the clock for
    /// each.
    #[verifier::opaque]
    pub open spec fn reassign_sweep(
        self,
        props: Seq<Proposal>,
        moves: int,
        left: int,
        i: int,
        improved: bool,
    ) -> Sweep
        decreases left,
    {
        if i >= props.len() {
            Sweep { props, moves, left, improved, spent: false }
        } else if moves >= SEARCH_MOVES || left <= 0 {
            Sweep { props, moves, left, improved, spent: true }
        } else {
            self.reassign_sweep(
                self.with_reassigned(props, i),
                moves + self.tries(props, i),
                left - 1,
                i + 1,
                improved || self.reassigned(props, i) is Some,
            )
        }
    }

    /// The proposals with the people of two swapped where that is better.
    pub open spec fn with_swapped(self, props: Seq<Proposal>, i: int, j: int) -> Seq<Proposal> {
        match self.swapped(props, i, j) {
            Some((a, b)) => props.update(i, a).update(j, b),
            None => props,
        }
    }

    /// Swapping the people of each two proposals from the `i`th with the `j`th
    /// on, one move and one look at the clock for each.
    #[verifier::opaque]
    pub open spec fn swap_sweep(
        self,
        props: Seq<Proposal>,
        moves: int,
        left: int,
        i: int,
        j: int,
        improved: bool,
    ) -> Sweep
        decreases left, props.len() - i,
    {
        if i >= props.len() {
            Sweep { props, moves, left, improved, spent: false }
        } else if j >= props.len() {
            self.swap_sweep(props, moves, left, i + 1, i + 2, improved)
        } else if moves >= SEARCH_MOVES || left <= 0 {
            Sweep { props, moves, left, improved, spent: true }
        } else {
            self.swap_sweep(
                self.with_swapped(props, i, j),
                moves + 1,
                left - 1,
                i,
                j + 1,
                improved || self.swapped(props, i, j) is Some,
            )
        }
    }

    /// The proposals after the search: sweep after sweep while one changes
    /// anything, within the budget of moves and `left` looks at the clock.
    pub open spec fn searched(self, props: Seq<Proposal>, moves: int, left: int) -> Seq<Proposal>
        decreases max_of(SEARCH_MOVES - moves, 0),
    {
        if moves >= SEARCH_MOVES || left <= 0 {
            props
        } else {
            let one = self.reassign_sweep(props, moves, left - 1, 0, false);
            let two = self.swap_sweep(one.props, one.moves, one.left, 0, 1, false);
            if one.spent {
                one.props
            } else if two.spent || !(one.improved || two.improved) || two.moves <= moves {
                two.props
            } else {
                self.searched(two.props, two.moves, two.left)
            }
        }
    }
}

impl Problem {
    proof fn lemma_reassign_sweep(
        self,
        props: Seq<Proposal>,
        moves: int,
        left: int,
        i: int,
        improved: bool,
    )
        ensures
            self.reassign_sweep(props, moves, left, i, improved) == if i >= props.len() {
                Sweep { props, moves, left, improved, spent: false }
            } else if moves >= SEARCH_MOVES || left <= 0 {
                Sweep { props, moves, left, improved, spent: true }
            } else {
                self.reassign_sweep(
                    self.with_reassigned(props, i),
                    moves + self.tries(props, i),
                    left - 1,
                    i + 1,
                    improved || self.reassigned(props, i) is Some,
                )
            },
    {
        reveal(Problem::reassign_sweep);
    }

    proof fn lemma_swap_sweep(
        self,
        props: Seq<Proposal>,
        moves: int,
        left: int,
        i: int,
        j: int,
        improved: bool,
    )
        ensures
            self.swap_sweep(props, moves, left, i, j, improved) == if i >= props.len() {
                Sweep { props, moves, left, improved, spent: false }
            } else if j >= props.len() {
                self.swap_sweep(props, moves, left, i + 1, i + 2, improved)
            } else if moves >= SEARCH_MOVES || left <= 0 {
                Sweep { props, moves, left, improved, spent: true }
            } else {
                self.swap_sweep(
                    self.with_swapped(props, i, j),
                    moves + 1,
                    left - 1,
                    i,
                    j + 1,
                    improved || self.swapped(props, i, j) is Some,
                )
            },
    {
        reveal(Problem::swap_sweep);
    }
}

/// A sweep as it went: whether it changed anything, whether the budget was
/// spent, whether it was time that ran out, and the looks at the clock before.
struct Swept {
    improved: bool,
    spent: bool,
    out: bool,
    looks: Ghost<int>,
}

impl Problem {
    /// Hands on each proposal for which that gains, within the budget.
    fn reassign_all(
        &self,
        props: &mut Vec<Proposal>,
        moves: &mut usize,
        watch: &mut Watch,
    ) -> (r: Swept)
        requires
            self.valid(),
            known(*self, old(props)@),
            sound(*self, old(props)@),
            *old(moves) < SEARCH_MOVES,
        ensures
            known(*self, final(props)@),
            sound(*self, final(props)@),
            refined(old(props)@, final(props)@),
            *old(moves) <= *final(moves) <= SEARCH_MOVES + TRIES,
            r.improved ==> *final(moves) > *old(moves),
            r.looks@ >= 0,
            r.out ==> r.spent,
            final(watch).since == old(watch).since,
            old(watch).since is None ==> final(watch).left == old(watch).left - r.looks@ && (r.out
                ==> final(watch).left == 0),
            forall|m: int|
                m >= 0 && (r.out ==> m == 0) ==> #[trigger] self.reassign_sweep(
                    old(props)@,
                    *old(moves) as int,
                    r.looks@ + m,
                    0,
                    false,
                ) == (Sweep {
                    props: final(props)@,
                    moves: *final(moves) as int,
                    left: m,
                    improved: r.improved,
                    spent: r.spent,
                }),
    {
        let ghost start = props@;
        let ghost first = *moves as int;
        let mut improved: bool = false;
        let ghost mut looks: int = 0;
        let n: usize = props.len();
        let mut i: usize = 0;
        while i < n
            invariant
                i <= n == props@.len(),
                self.valid(),
                known(*self, props@),
                sound(*self, props@),
                start == old(props)@,
                first == *old(moves),
                refined(start, props@),
                *old(moves) <= *moves <= SEARCH_MOVES + TRIES,
                improved ==> *moves > *old(moves),
                looks >= 0,
                watch.since == old(watch).since,
                old(watch).since is None ==> watch.left == old(watch).left - looks,
                forall|m: int|
                    m >= 0 ==> #[trigger] self.reassign_sweep(start, first, looks + m, 0, false)
                        == self.reassign_sweep(props@, *moves as int, m, i as int, improved),
            decreases n - i,
        {
            if *moves >= SEARCH_MOVES {
                proof {
                    assert forall|m: int| m >= 0 implies (#[trigger] self.reassign_sweep(
                        start,
                        first,
                        looks + m,
                        0,
                        false,
                    )) == (Sweep {
                        props: props@,
                        moves: *moves as int,
                        left: m,
                        improved,
                        spent: true,
                    }) by {
                        self.lemma_reassign_sweep(props@, *moves as int, m, i as int, improved);
                    }
                }
                return Swept { improved, spent: true, out: false, looks: Ghost(looks) };
            }
            if watch.up() {
                proof {
                    assert(self.reassign_sweep(start, first, looks + 0, 0, false)
                        == self.reassign_sweep(props@, *moves as int, 0, i as int, improved));
                    self.lemma_reassign_sweep(props@, *moves as int, 0, i as int, improved);
                }
                return Swept { improved, spent: true, out: true, looks: Ghost(looks) };
            }
            let ghost before = props@;
            let ghost had = *moves as int;
            let ghost was = improved;
            let (tried, to) = self.reassign(props, i);
            *moves = *moves + tried;
            if let Some(c) = to {
                let x: Proposal = props[i];
                let y: Proposal = Proposal {
                    slot: x.slot,
                    person: c.person,
                    from: x.from,
                    department: x.department,
                    reason: x.reason,
                    score: c.score,
                    by_default: false,
                    runner_up: x.runner_up,
                };
                props.set(i, y);
                improved = true;
                proof {
                    assert(y == handed(x, c.person, c.score));
                    assert(props@ =~= before.update(i as int, y));
                    assert forall|k: int| 0 <= k < props@.len() implies knows(
                        *self,
                        #[trigger] props@[k],
                    ) by {
                        if k != i {
                            assert(knows(*self, before[k]));
                        }
                    }
                    assert(refined(before, props@));
                    lemma_refined_trans(start, before, props@);
                }
            }
            proof {
                assert(props@ == self.with_reassigned(before, i as int));
                assert forall|m: int| m >= 0 implies #[trigger] self.reassign_sweep(
                    start,
                    first,
                    looks + 1 + m,
                    0,
                    false,
                ) == self.reassign_sweep(props@, *moves as int, m, i + 1, improved) by {
                    assert(self.reassign_sweep(start, first, looks + (1 + m), 0, false)
                        == self.reassign_sweep(before, had, 1 + m, i as int, was));
                    self.lemma_reassign_sweep(before, had, 1 + m, i as int, was);
                }
                looks = looks + 1;
            }
            i += 1;
        }
        proof {
            assert forall|m: int| m >= 0 implies (#[trigger] self.reassign_sweep(
                start,
                first,
                looks + m,
                0,
                false,
            )) == (Sweep {
                props: props@,
                moves: *moves as int,
                left: m,
                improved,
                spent: false,
            }) by {
                self.lemma_reassign_sweep(props@, *moves as int, m, i as int, improved);
            }
        }
        Swept { improved, spent: false, out: false, looks: Ghost(looks) }
    }

    /// Swaps the people of each two proposals for which that is better, within
    /// the budget.
    fn swap_all(
        &self,
        props: &mut Vec<Proposal>,
        moves: &mut usize,
        watch: &mut Watch,
    ) -> (r: Swept)
        requires
            self.valid(),
            known(*self, old(props)@),
            sound(*self, old(props)@),
            *old(moves) <= SEARCH_MOVES + TRIES,
        ensures
            known(*self, final(props)@),
            sound(*self, final(props)@),
            refined(old(props)@, final(props)@),
            *old(moves) <= *final(moves) <= SEARCH_MOVES + TRIES,
            r.improved ==> *final(moves) > *old(moves),
            r.looks@ >= 0,
            r.out ==> r.spent,
            final(watch).since == old(watch).since,
            old(watch).since is None ==> final(watch).left == old(watch).left - r.looks@ && (r.out
                ==> final(watch).left == 0),
            forall|m: int|
                m >= 0 && (r.out ==> m == 0) ==> #[trigger] self.swap_sweep(
                    old(props)@,
                    *old(moves) as int,
                    r.looks@ + m,
                    0,
                    1,
                    false,
                ) == (Sweep {
                    props: final(props)@,
                    moves: *final(moves) as int,
                    left: m,
                    improved: r.improved,
                    spent: r.spent,
                }),
    {
        let ghost start = props@;
        let ghost first = *moves as int;
        let mut improved: bool = false;
        let ghost mut looks: int = 0;
        let n: usize = props.len();
        let mut i: usize = 0;
        while i < n
            invariant
                i <= n == props@.len(),
                self.valid(),
                known(*self, props@),
                sound(*self, props@),
                start == old(props)@,
                first == *old(moves),
                refined(start, props@),
                *old(moves) <= *moves <= SEARCH_MOVES + TRIES,
                improved ==> *moves > *old(moves),
                looks >= 0,
                watch.since == old(watch).since,
                old(watch).since is None ==> watch.left == old(watch).left - looks,
                forall|m: int|
                    m >= 0 ==> #[trigger] self.swap_sweep(start, first, looks + m, 0, 1, false)
                        == self.swap_sweep(props@, *moves as int, m, i as int, i + 1, improved),
            decreases n - i,
        {
            let mut j: usize = i + 1;
            while j < n
                invariant
                    i < j <= n == props@.len(),
                    self.valid(),
                    known(*self, props@),
                    sound(*self, props@),
                    start == old(props)@,
                    first == *old(moves),
                    refined(start, props@),
                    *old(moves) <= *moves <= SEARCH_MOVES + TRIES,
                    improved ==> *moves > *old(moves),
                    looks >= 0,
                    watch.since == old(watch).since,
                    old(watch).since is None ==> watch.left == old(watch).left - looks,
                    forall|m: int|
                        m >= 0 ==> #[trigger] self.swap_sweep(
                            start,
                            first,
                            looks + m,
                            0,
                            1,
                            false,
                        ) == self.swap_sweep(
                            props@,
                            *moves as int,
                            m,
                            i as int,
                            j as int,
                            improved,
                        ),
                decreases n - j,
            {
                if *moves >= SEARCH_MOVES {
                    proof {
                        assert forall|m: int| m >= 0 implies (#[trigger] self.swap_sweep(
                            start,
                            first,
                            looks + m,
                            0,
                            1,
                            false,
                        )) == (Sweep {
                            props: props@,
                            moves: *moves as int,
                            left: m,
                            improved,
                            spent: true,
                        }) by {
                            self.lemma_swap_sweep(
                                props@,
                                *moves as int,
                                m,
                                i as int,
                                j as int,
                                improved,
                            );
                        }
                    }
                    return Swept { improved, spent: true, out: false, looks: Ghost(looks) };
                }
                if watch.up() {
                    proof {
                        assert(self.swap_sweep(start, first, looks + 0, 0, 1, false)
                            == self.swap_sweep(
                            props@,
                            *moves as int,
                            0,
                            i as int,
                            j as int,
                            improved,
                        ));
                        self.lemma_swap_sweep(
                            props@,
                            *moves as int,
                            0,
                            i as int,
                            j as int,
                            improved,
                        );
                    }
                    return Swept { improved, spent: true, out: true, looks: Ghost(looks) };
                }
                let ghost before = props@;
                let ghost had = *moves as int;
                let ghost was = improved;
                *moves = *moves + 1;
                if let Some((a, b)) = self.swap(props, i, j) {
                    props.set(i, a);
                    props.set(j, b);
                    improved = true;
                    proof {
                        assert(props@ =~= before.update(i as int, a).update(j as int, b));
                        assert forall|k: int| 0 <= k < props@.len() implies knows(
                            *self,
                            #[trigger] props@[k],
                        ) by {
                            if k != i && k != j {
                                assert(knows(*self, before[k]));
                            }
                        }
                        assert(refined(before, props@));
                        lemma_refined_trans(start, before, props@);
                    }
                }
                proof {
                    assert(props@ == self.with_swapped(before, i as int, j as int));
                    assert forall|m: int| m >= 0 implies #[trigger] self.swap_sweep(
                        start,
                        first,
                        looks + 1 + m,
                        0,
                        1,
                        false,
                    ) == self.swap_sweep(props@, *moves as int, m, i as int, j + 1, improved) by {
                        assert(self.swap_sweep(start, first, looks + (1 + m), 0, 1, false)
                            == self.swap_sweep(before, had, 1 + m, i as int, j as int, was));
                        self.lemma_swap_sweep(before, had, 1 + m, i as int, j as int, was);
                    }
                    looks = looks + 1;
                }
                j += 1;
            }
            proof {
                assert forall|m: int| m >= 0 implies #[trigger] self.swap_sweep(
                    start,
                    first,
                    looks + m,
                    0,
                    1,
                    false,
                ) == self.swap_sweep(props@, *moves as int, m, i + 1, i + 2, improved) by {
                    self.lemma_swap_sweep(props@, *moves as int, m, i as int, n as int, improved);
                }
            }
            i += 1;
        }
        proof {
            assert forall|m: int| m >= 0 implies (#[trigger] self.swap_sweep(
                start,
                first,
                looks + m,
                0,
                1,
                false,
            )) == (Sweep {
                props: props@,
                moves: *moves as int,
                left: m,
                improved,
                spent: false,
            }) by {
                self.lemma_swap_sweep(props@, *moves as int, m, i as int, i + 1, improved);
            }
        }
        Swept { improved, spent: false, out: false, looks: Ghost(looks) }
    }

    /// The search until it finds nothing better or the watch or the budget of
    /// moves is up.
    fn search(&self, props: &mut Vec<Proposal>, watch: &mut Watch) -> (r: (Ghost<int>, bool))
        requires
            self.valid(),
            known(*self, old(props)@),
            sound(*self, old(props)@),
        ensures
            known(*self, final(props)@),
            sound(*self, final(props)@),
            refined(old(props)@, final(props)@),
            (r.0)@ >= 0,
            old(watch).since is None ==> final(watch).left == old(watch).left - (r.0)@ && (r.1
                ==> final(watch).left == 0),
            forall|m: int|
                m >= 0 && (r.1 ==> m == 0) ==> #[trigger] self.searched(old(props)@, 0, (r.0)@ + m)
                    == final(props)@,
    {
        let ghost start = props@;
        let mut moves: usize = 0;
        let ghost mut looks: int = 0;
        let mut improved: bool = true;
        assert(refined(start, props@));
        while improved && moves < SEARCH_MOVES
            invariant
                self.valid(),
                known(*self, props@),
                sound(*self, props@),
                start == old(props)@,
                refined(start, props@),
                moves <= SEARCH_MOVES + TRIES,
                looks >= 0,
                watch.since == old(watch).since,
                old(watch).since is None ==> watch.left == old(watch).left - looks,
                improved ==> forall|m: int|
                    m >= 0 ==> #[trigger] self.searched(start, 0, looks + m) == self.searched(
                        props@,
                        moves as int,
                        m,
                    ),
                !improved ==> forall|m: int|
                    m >= 0 ==> #[trigger] self.searched(start, 0, looks + m) == props@,
            decreases
                    (if improved {
                        1int
                    } else {
                        0int
                    }),
                    SEARCH_MOVES + TRIES - moves,
        {
            if watch.up() {
                assert(self.searched(start, 0, looks + 0) == self.searched(
                    props@,
                    moves as int,
                    0,
                ));
                return (Ghost(looks), true);
            }
            let ghost before = props@;
            let ghost had = moves as int;
            let one: Swept = self.reassign_all(props, &mut moves, watch);
            let ghost between = props@;
            let ghost then_had = moves as int;
            let ghost a = one.looks@;
            proof {
                lemma_refined_trans(start, before, props@);
                assert forall|m: int| m >= 0 && (one.out ==> m == 0) implies self.reassign_sweep(
                    before,
                    had,
                    a + m,
                    0,
                    false,
                ) == (Sweep {
                    props: between,
                    moves: then_had,
                    left: m,
                    improved: one.improved,
                    spent: one.spent,
                }) && #[trigger] self.searched(start, 0, looks + 1 + a + m) == self.searched(
                    before,
                    had,
                    1 + a + m,
                ) by {
                    assert(self.searched(start, 0, looks + (1 + a + m)) == self.searched(
                        before,
                        had,
                        1 + a + m,
                    ));
                }
            }
            if one.spent {
                proof {
                    looks = looks + 1 + a;
                    assert forall|m: int| m >= 0 && (one.out ==> m == 0) implies
                        #[trigger] self.searched(start, 0, looks + m) == props@ by {
                        assert(self.reassign_sweep(before, had, a + m, 0, false).spent);
                        assert(self.searched(start, 0, (looks - 1 - a) + 1 + a + m)
                            == self.searched(before, had, 1 + a + m));
                        assert(1 + a + m - 1 == a + m);
                        assert(self.searched(before, had, 1 + a + m) == props@);
                    }
                }
                return (Ghost(looks), one.out);
            }
            let two: Swept = self.swap_all(props, &mut moves, watch);
            let ghost b = two.looks@;
            proof {
                lemma_refined_trans(start, between, props@);
                looks = looks + 1 + a + b;
                assert forall|m: int| m >= 0 && (two.out ==> m == 0) implies
                    #[trigger] self.searched(start, 0, looks + m) == if two.spent || !(one.improved
                    || two.improved) {
                    props@
                } else {
                    self.searched(props@, moves as int, m)
                } by {
                    assert(self.searched(start, 0, (looks - a - b - 1) + 1 + a + (b + m))
                        == self.searched(before, had, 1 + a + (b + m)));
                    assert(self.reassign_sweep(before, had, a + (b + m), 0, false).left == b + m);
                    assert(self.swap_sweep(between, then_had, b + m, 0, 1, false).left == m);
                }
            }
            if two.spent {
                return (Ghost(looks), two.out);
            }
            improved = one.improved || two.improved;
        }
        proof {
            assert forall|m: int| m >= 0 implies #[trigger] self.searched(start, 0, looks + m)
                == props@ by {}
        }
        (Ghost(looks), false)
    }

    /// Bounded local search over the proposals: hand a proposal to another
    /// person, or swap two proposals' people, whenever the objective (candidate
    /// scores less late-shift spread) improves. Deterministic order, a time and
    /// move budget: when the time ran out decides how far it got.
    pub fn improve(&self, props: &mut Vec<Proposal>)
        requires
            self.valid(),
            known(*self, old(props)@),
            sound(*self, old(props)@),
        ensures
            known(*self, final(props)@),
            sound(*self, final(props)@),
            refined(old(props)@, final(props)@),
            exists|looks: int|
                looks >= 0 && #[trigger] self.searched(old(props)@, 0, looks) == final(props)@,
    {
        let ghost start = props@;
        let mut watch: Watch = Watch { since: Some(clock_now()), left: 0 };
        let (looks, out) = self.search(props, &mut watch);
        assert(self.searched(start, 0, looks@ + 0) == props@);
    }

    /// The same search with a number of looks at the clock for its time.
    pub fn improve_for(&self, props: &mut Vec<Proposal>, looks: usize)
        requires
            self.valid(),
            known(*self, old(props)@),
            sound(*self, old(props)@),
        ensures
            known(*self, final(props)@),
            sound(*self, final(props)@),
            refined(old(props)@, final(props)@),
            final(props)@ == self.searched(old(props)@, 0, looks as int),
    {
        let ghost start = props@;
        let mut watch: Watch = Watch { since: None, left: looks };
        let (used, out) = self.search(props, &mut watch);
        assert(self.searched(start, 0, used@ + watch.left) == props@);
    }
}

// ── the solver ──────────────────────────────────────────────────────────────

impl Problem {
    /// The proposals of the greedy fill: the hours that need people where any
    /// are known, else the gaps against the pattern; then whoever must move off
    /// a day they can't work.
    pub open spec fn greedy(self) -> Seq<Proposal> {
        self.move_week(
            if self.need@.len() == 0 {
                self.fill_week(Seq::empty(), 7)
            } else {
                self.fill_hours(Seq::empty(), needs_in_order(self.need@))
            },
            7,
        )
    }

    /// The greedy fill.
    pub fn fill(&self) -> (props: Vec<Proposal>)
        requires
            self.valid(),
        ensures
            props@ == self.greedy(),
            sound(*self, props@),
    {
        let mut props: Vec<Proposal> = Vec::new();
        proof {
            lemma_none_hold(*self);
            assert(props@ =~= Seq::<Proposal>::empty());
        }
        if self.need.len() == 0 {
            self.fill_pattern_gaps(&mut props);
        } else {
            self.fill_hourly(&mut props);
        }
        self.move_off_cant_work(&mut props);
        props
    }

    /// A proposal as it is shown.
    pub fn dress(&self, x: &Proposal) -> (r: Suggestion)
        requires
            self.valid(),
            stands(*self, *x),
        ensures
            dressed(*self, *x, r),
    {
        let w: usize = x.slot.shift;
        let (start, end) = self.shifts[w].times_on(x.slot.date);
        let from_name: Option<String> = match x.from {
            Some(f) => match self.find_staff(f) {
                Some(i) => Some(self.staff[i].name.as_str().to_owned()),
                None => None,
            },
            None => None,
        };
        let base: Score = if x.from.is_some() {
            70
        } else {
            60
        };
        let mut sure: Score = base * POINT + 25 * x.score;
        if sure < 30 * POINT {
            sure = 30 * POINT;
        } else if sure > 95 * POINT {
            sure = 95 * POINT;
        }
        if let Some(r) = x.runner_up {
            if x.score - r < 200_000_000 && sure > 60 * POINT {
                sure = 60 * POINT;
            }
        }
        if x.by_default && sure > 40 * POINT {
            sure = 40 * POINT;
        }
        let (reason_key, reason_args): (&'static str, Vec<(&'static str, Var)>) = self.explain(x);
        Suggestion {
            id: self.offer(&x.slot, x.from, self.staff[x.person].employee_id),
            date: x.slot.date,
            work_shift_id: self.shifts[w].id,
            shift_name: self.shifts[w].name.as_str().to_owned(),
            employee_id: self.staff[x.person].employee_id,
            employee_name: self.staff[x.person].name.as_str().to_owned(),
            from_employee_id: x.from,
            from_employee_name: from_name,
            reason_key,
            reason_args,
            confidence: (sure / POINT) as i32,
            by_default: x.by_default,
            start_time: Some(start),
            end_time: Some(end),
        }
    }

    /// A proposal's reason: its key and its arguments.
    fn explain(&self, x: &Proposal) -> (r: (&'static str, Vec<(&'static str, Var)>))
        requires
            stands(*self, *x),
        ensures
            r.0@ == reason_view(*self, *x).0,
            vars_view(r.1@) == reason_view(*self, *x).1,
    {
        let block: String = self.shifts[x.slot.shift].name.as_str().to_owned();
        match x.reason {
            Reason::Gap { short } => {
                let args: Vec<(&'static str, Var)> = vec![
                    ("shift", Var::Text(block)),
                    ("short", Var::Int(short)),
                ];
                assert(vars_view(args@) =~= reason_view(*self, *x).1);
                ("staff.sg_gap", args)
            },
            Reason::Coverage { hour, short } => {
                let mut at: String = two_digit_text(hour as u32);
                at.push_str(":00");
                let args: Vec<(&'static str, Var)> = vec![
                    ("shift", Var::Text(block)),
                    ("hour", Var::Text(at)),
                    ("short", Var::Int(short)),
                ];
                assert(vars_view(args@) =~= reason_view(*self, *x).1);
                ("staff.sg_coverage", args)
            },
            Reason::CantWork { person } => {
                let args: Vec<(&'static str, Var)> = vec![
                    ("name", Var::Text(self.staff[person].name.as_str().to_owned())),
                ];
                assert(vars_view(args@) =~= reason_view(*self, *x).1);
                ("staff.sg_cant_work", args)
            },
        }
    }

    /// Each proposal dressed as a suggestion, in order.
    fn dress_all(&self, props: &Vec<Proposal>) -> (out: Vec<Suggestion>)
        requires
            self.valid(),
            sound(*self, props@),
        ensures
            shown(*self, props@, out@),
    {
        let mut out: Vec<Suggestion> = Vec::new();
        let mut i: usize = 0;
        while i < props.len()
            invariant
                i <= props@.len(),
                self.valid(),
                sound(*self, props@),
                out@.len() == i,
                forall|k: int| 0 <= k < i ==> dressed(*self, props@[k], #[trigger] out@[k]),
            decreases props@.len() - i,
        {
            assert(stands(*self, props@[i as int]));
            out.push(self.dress(&props[i]));
            i += 1;
        }
        out
    }

    /// Greedy construction, then local search; each proposal dressed as a
    /// suggestion, in order. Only when the time ran out decides which
    /// suggestions they are.
    pub fn solve(&self) -> (r: Vec<Suggestion>)
        requires
            self.valid(),
        ensures
            exists|looks: int|
                looks >= 0 && {
                    let props = #[trigger] self.searched(self.greedy(), 0, looks);
                    refined(self.greedy(), props) && sound(*self, props) && shown(*self, props, r@)
                },
    {
        let mut props: Vec<Proposal> = self.fill();
        self.improve(&mut props);
        let out: Vec<Suggestion> = self.dress_all(&props);
        proof {
            let looks = choose|looks: int|
                looks >= 0 && #[trigger] self.searched(self.greedy(), 0, looks) == props@;
            assert(self.searched(self.greedy(), 0, looks) == props@);
        }
        out
    }

    /// The suggestions with a number of looks at the clock for the search's
    /// time.
    pub fn solve_for(&self, looks: usize) -> (r: Vec<Suggestion>)
        requires
            self.valid(),
        ensures
            ({
                let props = self.searched(self.greedy(), 0, looks as int);
                refined(self.greedy(), props) && sound(*self, props) && shown(*self, props, r@)
            }),
    {
        let mut props: Vec<Proposal> = self.fill();
        self.improve_for(&mut props, looks);
        self.dress_all(&props)
    }
}

// ── suggestions ─────────────────────────────────────────────────────────────

/// A suggestion as it is shown.
#[derive(Debug, Clone, PartialEq, Eq)]
pub struct Suggestion {
    /// Opaque; send it back to accept or reject.
    pub id: String,
    pub date: Day,
    pub work_shift_id: Id,
    pub shift_name: String,
    /// Who the suggestion puts on the shift.
    pub employee_id: Id,
    pub employee_name: String,
    /// Who it takes off it, for a reassignment.
    pub from_employee_id: Option<Id>,
    pub from_employee_name: Option<String>,
    /// The key of the one-line reason, and its arguments.
    pub reason_key: &'static str,
    pub reason_args: Vec<(&'static str, Var)>,
    /// 0–100. Low (≤ 40) whenever the gender default decided it.
    pub confidence: i32,
    /// The gender default decided it: without it someone else would have been
    /// suggested (it says so).
    pub by_default: bool,
    /// The shift's times that day (a day-scoped block's own, else its default).
    pub start_time: Option<ClockTime>,
    pub end_time: Option<ClockTime>,
}

/// How sure a proposal is, in billionths of a percent point.
pub open spec fn sureness(x: Proposal) -> int {
    let base: int = if x.from is Some {
        70
    } else {
        60
    };
    let raw = base * POINT + 25 * x.score;
    let clamped = if raw < 30 * POINT {
        30 * POINT
    } else if raw > 95 * POINT {
        95 * POINT
    } else {
        raw
    };
    // A close call is not a confident one.
    let close = if x.runner_up is Some && x.score - x.runner_up->0 < 200_000_000 {
        min_of(clamped, 60 * POINT)
    } else {
        clamped
    };
    if x.by_default {
        min_of(close, 40 * POINT)
    } else {
        close
    }
}

/// A proposal's reason: its key and its arguments.
pub open spec fn reason_view(p: Problem, x: Proposal) -> (Seq<char>, Seq<(Seq<char>, VarView)>) {
    let block = p.shifts@[x.slot.shift as int].name@;
    match x.reason {
        Reason::Gap { short } => (
            "staff.sg_gap"@,
            seq![("shift"@, VarView::Text(block)), ("short"@, VarView::Int(short as int))],
        ),
        Reason::Coverage { hour, short } => (
            "staff.sg_coverage"@,
            seq![
                ("shift"@, VarView::Text(block)),
                ("hour"@, VarView::Text(two_digits(hour as int) + ":00"@)),
                ("short"@, VarView::Int(short as int)),
            ],
        ),
        Reason::CantWork { person } => (
            "staff.sg_cant_work"@,
            seq![("name"@, VarView::Text(p.staff@[person as int].name@))],
        ),
    }
}

/// A suggestion is a proposal as it is shown.
pub open spec fn dressed(p: Problem, x: Proposal, r: Suggestion) -> bool {
    let block = p.shifts@[x.slot.shift as int];
    let who = p.staff@[x.person as int];
    &&& r.id@ == p.offer_id(x.slot, x.from, who.employee_id)
    &&& r.date == x.slot.date
    &&& r.work_shift_id == block.id
    &&& r.shift_name@ == block.name@
    &&& r.employee_id == who.employee_id
    &&& r.employee_name@ == who.name@
    &&& r.from_employee_id == x.from
    &&& maybe(r.from_employee_name) == match x.from {
        Some(f) => match first_with(p.staff@, f) {
            Some(i) => Some(p.staff@[i].name@),
            None => None,
        },
        None => None,
    }
    &&& r.reason_key@ == reason_view(p, x).0
    &&& vars_view(r.reason_args@) == reason_view(p, x).1
    &&& r.confidence == sureness(x) / POINT as int
    &&& r.by_default == x.by_default
    &&& r.start_time == Some(block.times(x.slot.date).0)
    &&& r.end_time == Some(block.times(x.slot.date).1)
}

/// A suggestion is sure between 30 and 95 percent, and at most 40 where the
/// gender default decided it.
pub proof fn law_confidence_is_within_bounds(x: Proposal)
    ensures
        30 <= sureness(x) / POINT as int <= 95,
        x.by_default ==> sureness(x) / POINT as int <= 40,
{
}

/// Labour limits are never broken: somebody within every limit stays within
/// every limit, whatever is proposed.
pub proof fn law_labour_limits_are_never_broken(p: Problem, props: Seq<Proposal>, u: Id)
    requires
        sound(p, props),
        orderly(p),
        limits_broken(spans_of(p.spans@, u), p.limits).len() == 0,
    ensures
        limits_broken(all_spans(p, props, u), p.limits).len() == 0,
{
    let after = limits_broken(all_spans(p, props, u), p.limits);
    if after.len() > 0 {
        assert(breaks_with(p, props, u, after[0]));
        assert(breaks_before(p, u, after[0]));
    }
}

/// Nobody is proposed for two shifts that overlap, nor for a second shift on a
/// day without two hours between them.
pub proof fn law_nobody_is_double_booked(p: Problem, props: Seq<Proposal>, i: int, j: int)
    requires
        p.valid(),
        sound(p, props),
        0 <= i < props.len(),
        0 <= j < props.len(),
        i != j,
        props[i].person == props[j].person,
    ensures
        !clash(props[i].slot.span, props[j].slot.span),
        !clashes(spans_of(p.spans@, p.id_of(props[i].person as int)), props[i].slot.span),
{
    assert(apart(p, props[i], props[j]));
    assert(clear(p, props[i]));
}

/// Leave, can't-work days and decisions are respected: nobody is proposed on a
/// day they are on leave or can't work, nor for what was decided before.
pub proof fn law_leave_and_cant_work_days_are_respected(
    p: Problem,
    props: Seq<Proposal>,
    i: int,
)
    requires
        sound(p, props),
        0 <= i < props.len(),
    ensures
        ({
            let x = props[i];
            let who = p.staff@[x.person as int];
            &&& !who.cant_work_days@.contains((x.slot.date as int % 7) as i16)
            &&& !p.leave@.contains((who.employee_id, x.slot.date))
            &&& !holds_text(p.decided@, p.offer_id(x.slot, x.from, who.employee_id))
        }),
{
    assert(stands(p, props[i]));
}

/// What a department needs is met by its people alone, before the search and
/// after it.
pub proof fn law_a_departments_need_is_met_by_its_people(
    p: Problem,
    before: Seq<Proposal>,
    props: Seq<Proposal>,
    i: int,
)
    requires
        sound(p, before),
        sound(p, props),
        refined(before, props),
        0 <= i < props.len(),
        before[i].department is Some,
    ensures
        props[i].department == before[i].department,
        p.staff@[before[i].person as int].department_id == before[i].department,
        p.staff@[props[i].person as int].department_id == before[i].department,
{
    assert(kept(before[i], props[i]));
    assert(stands(p, before[i]));
    assert(stands(p, props[i]));
}

/// A day-scoped block is proposed only on its days, at that day's times.
pub proof fn law_a_block_is_proposed_on_its_days_at_its_times(
    p: Problem,
    props: Seq<Proposal>,
    i: int,
)
    requires
        sound(p, props),
        0 <= i < props.len(),
    ensures
        ({
            let x = props[i].slot;
            let block = p.shifts@[x.shift as int];
            &&& block.runs_on(x.date)
            &&& local_instant(p.zone@, x.date, block.times(x.date).0) == Some(x.span.start)
            &&& x.span.date == x.date
        }),
{
    assert(stands(p, props[i]));
}

} // verus!
