//! Whom the solver proposes, for which slot, and how sure it is.

use vstd::prelude::*;

use crate::calendar::{local_instant, Day, Id, NANOS_PER_MINUTE};
use crate::dawam::suggest::hourly::{first_need, needs_in_order, with_option};
use crate::dawam::suggest::scores::law_candidates_come_best_first;
use crate::dawam::suggest::search::{
    apart, clear, dressed, handed, lemma_squares_without, score_in, sound, spread_of, sureness,
    Suggestion,
};
use crate::dawam::suggest::{
    best_of, clashes, intended, law_a_gap_is_filled_as_far_as_it_can_be, on_late, people_on,
    propose, spans_of, strongest, times_in, Need, PatternNeed, Pick, Problem, Proposal, Reason,
    Score, Slot,
};

verus! {

// ── how sure ────────────────────────────────────────────────────────────────

/// How sure a proposal is starts at sixty percent, or at seventy where somebody
/// can't work the day, and moves by a quarter of a percent for each hundredth of
/// a point, where it is no close call and no default decided it.
pub proof fn law_sureness_follows_the_score(x: Proposal)
    requires
        !x.by_default,
        x.runner_up is Some ==> x.score - x.runner_up->0 >= 200_000_000,
    ensures
        x.from is None && -1_200_000_000 <= x.score <= 1_400_000_000 ==> sureness(x)
            == 60_000_000_000 + 25 * x.score,
        x.from is Some && -1_600_000_000 <= x.score <= 1_000_000_000 ==> sureness(x)
            == 70_000_000_000 + 25 * x.score,
{
}

/// A better score is never less sure, and a closer runner-up, the default or an
/// addition never surer.
pub proof fn law_a_better_score_is_no_less_sure(x: Proposal, y: Proposal)
    requires
        x.score <= y.score,
        y.runner_up is Some ==> x.runner_up is Some && x.score - x.runner_up->0 <= y.score
            - y.runner_up->0,
        y.by_default ==> x.by_default,
        x.from is Some ==> y.from is Some,
    ensures
        sureness(x) <= sureness(y),
{
}

/// A close call, less than a fifth of a point ahead, is sixty percent sure at
/// most, and one the default decided forty.
pub proof fn law_a_close_call_is_not_a_sure_one(x: Proposal)
    ensures
        x.runner_up is Some && x.score - x.runner_up->0 < 200_000_000 ==> sureness(x)
            <= 60_000_000_000,
        x.by_default ==> sureness(x) <= 40_000_000_000,
        30_000_000_000 <= sureness(x) <= 95_000_000_000,
{
}

// ── the best candidate ──────────────────────────────────────────────────────

/// Somebody is picked for a slot exactly where somebody may take it. Whoever is
/// picked may take it, nobody who may scores more, and of those who score alike
/// they come first on the staff. The runner-up's score is the most that anybody
/// else scores.
pub proof fn law_the_best_who_may_is_picked(
    p: Problem,
    props: Seq<Proposal>,
    slot: Slot,
    dept: Option<Id>,
    from: Option<Id>,
)
    requires
        p.staff@.len() <= usize::MAX,
    ensures
        ({
            let best = p.best_for(props, slot, dept, from);
            &&& best is Some <==> exists|i: int|
                0 <= i < p.staff@.len() && #[trigger] p.may_take(props, slot, dept, from, i)
            &&& best is Some ==> {
                let who = best->0.pick.person as int;
                &&& 0 <= who < p.staff@.len()
                &&& p.may_take(props, slot, dept, from, who)
                &&& best->0.pick == p.pick_of(props, slot, who)
                &&& forall|i: int|
                    0 <= i < p.staff@.len() && i != who && #[trigger] p.may_take(
                        props,
                        slot,
                        dept,
                        from,
                        i,
                    ) ==> {
                        &&& p.pick_of(props, slot, i).score < best->0.pick.score || (p.pick_of(
                            props,
                            slot,
                            i,
                        ).score == best->0.pick.score && who < i)
                        &&& best->0.runner_up is Some
                        &&& p.pick_of(props, slot, i).score <= best->0.runner_up->0
                    }
                &&& best->0.runner_up is Some ==> exists|i: int|
                    0 <= i < p.staff@.len() && i != who && #[trigger] p.may_take(
                        props,
                        slot,
                        dept,
                        from,
                        i,
                    ) && p.pick_of(props, slot, i).score == best->0.runner_up->0
            }
        }),
{
    let n = p.staff@.len() as int;
    let list = p.picks(props, slot, dept, from, n);
    law_candidates_come_best_first(p, props, slot, dept, from, n);
    let best = p.best_for(props, slot, dept, from);
    assert forall|i: int| 0 <= i < n && #[trigger] p.may_take(props, slot, dept, from, i) implies {
        &&& list.len() > 0
        &&& p.pick_of(props, slot, i) == list[0] || (list.len() > 1 && (p.pick_of(
            props,
            slot,
            i,
        ).score < list[0].score || (p.pick_of(props, slot, i).score == list[0].score
            && list[0].person < i)) && p.pick_of(props, slot, i).score <= list[1].score)
    } by {
        let x = p.pick_of(props, slot, i);
        assert(list.contains(x));
        let k = choose|k: int| 0 <= k < list.len() && list[k] == x;
        if k > 1 {
            assert(list[1].score >= list[k].score);
        }
    }
    if list.len() > 0 {
        let top = list[0].person as int;
        p.lemma_picks_may_take(props, slot, dept, from, n, list[0]);
        assert(list.contains(list[0]));
        assert(p.may_take(props, slot, dept, from, top));
        if list.len() > 1 {
            let next = list[1].person as int;
            p.lemma_picks_may_take(props, slot, dept, from, n, list[1]);
            assert(list.contains(list[1]));
            assert(p.may_take(props, slot, dept, from, next));
            if next == top {
                assert(list[0] == list[1]);
            }
        }
    }
}

/// The default decided a pick exactly where it helped and somebody else would
/// be first without it: with a better score less what it adds, or as good a one
/// and first on the staff.
pub proof fn law_the_default_decided_where_another_would_win(list: Seq<Pick>)
    requires
        list.len() > 0,
        forall|a: int, b: int|
            0 <= a < b < list.len() ==> (#[trigger] list[a]).person != (#[trigger] list[b]).person,
    ensures
        best_of(list)->0.pick == list[0],
        best_of(list)->0.by_default <==> list[0].default > 0 && exists|k: int|
            0 < k < list.len() && ((#[trigger] list[k]).score - list[k].default > list[0].score
                - list[0].default || (list[k].score - list[k].default == list[0].score
                - list[0].default && list[k].person < list[0].person)),
{
    lemma_strongest_leads(list);
    let s = strongest(list);
    let at = choose|k: int| 0 <= k < list.len() && #[trigger] list[k] == s;
    if s.person != list[0].person {
        assert(at > 0);
        assert(leads(list[at], list[0]));
    } else {
        if at > 0 {
            assert(list[0].person != list[at].person);
        }
    }
}

/// One candidate comes before another without the default.
pub open spec fn leads(x: Pick, y: Pick) -> bool {
    x.score - x.default > y.score - y.default || (x.score - x.default == y.score - y.default
        && x.person < y.person)
}

proof fn lemma_strongest_leads(list: Seq<Pick>)
    requires
        list.len() > 0,
        forall|a: int, b: int|
            0 <= a < b < list.len() ==> (#[trigger] list[a]).person != (#[trigger] list[b]).person,
    ensures
        exists|k: int| 0 <= k < list.len() && #[trigger] list[k] == strongest(list),
        forall|k: int|
            0 <= k < list.len() && #[trigger] list[k] != strongest(list) ==> leads(
                strongest(list),
                list[k],
            ),
    decreases list.len(),
{
    if list.len() > 1 {
        let short = list.drop_last();
        assert forall|a: int, b: int| 0 <= a < b < short.len() implies (#[trigger] short[a]).person
            != (#[trigger] short[b]).person by {
            assert(list[a].person != list[b].person);
        }
        lemma_strongest_leads(short);
        let best = strongest(short);
        let at = choose|k: int| 0 <= k < short.len() && #[trigger] short[k] == best;
        assert(list[at] == best);
        assert(list[list.len() - 1] == list.last());
        assert(list[at].person != list[list.len() - 1].person);
        assert forall|k: int| 0 <= k < list.len() && #[trigger] list[k] != strongest(
            list,
        ) implies leads(strongest(list), list[k]) by {
            if k < short.len() {
                assert(short[k] == list[k]);
            }
        }
    } else {
        assert(list[0] == strongest(list));
    }
}

// ── filling ─────────────────────────────────────────────────────────────────

/// How many people the pattern intends is what the first entry for the block on
/// the date says, and none without one.
pub proof fn law_the_pattern_intends_what_it_says(p: Problem, d: Day, w: int, i: int)
    requires
        i >= 0,
        forall|j: int|
            0 <= j < i && j < p.pattern_need@.len() ==> (#[trigger] p.pattern_need@[j]).date != d
                || p.pattern_need@[j].shift != w,
        i < p.pattern_need@.len() ==> p.pattern_need@[i].date == d && p.pattern_need@[i].shift
            == w,
    ensures
        p.headcount(d, w) == if i < p.pattern_need@.len() {
            p.pattern_need@[i].staff as int
        } else {
            0
        },
{
    lemma_intended(p.pattern_need@, d, w, i);
}

proof fn lemma_intended(list: Seq<PatternNeed>, d: Day, w: int, i: int)
    requires
        i >= 0,
        forall|j: int|
            0 <= j < i && j < list.len() ==> (#[trigger] list[j]).date != d || list[j].shift != w,
        i < list.len() ==> list[i].date == d && list[i].shift == w,
    ensures
        intended(list, d, w) == if i < list.len() {
            Some(list[i].staff)
        } else {
            None
        },
    decreases list.len(),
{
    if list.len() > 0 {
        let short = list.drop_last();
        assert(forall|j: int| 0 <= j < short.len() ==> #[trigger] short[j] == list[j]);
        lemma_intended(short, d, w, i);
        assert(list[list.len() - 1] == list.last());
    }
}

/// Filling a slot proposes it, for the best who may take it beside what is
/// proposed already, as an addition that says how many are missing still.
pub proof fn law_a_gap_is_filled_with_the_best(
    p: Problem,
    props: Seq<Proposal>,
    slot: Slot,
    short: int,
    k: int,
)
    requires
        0 <= k,
        props.len() + k < p.fill_slot(props, slot, short).len(),
    ensures
        ({
            let all = p.fill_slot(props, slot, short);
            let x = all[props.len() + k];
            let best = p.best_for(all.take(props.len() + k), slot, None, None);
            &&& k < short
            &&& x.slot == slot
            &&& x.from is None
            &&& x.department is None
            &&& x.reason == (Reason::Gap { short: (short - k) as i64 })
            &&& best is Some
            &&& x.person == best->0.pick.person
            &&& x.score == best->0.pick.score
            &&& x.by_default == best->0.by_default
            &&& x.runner_up == best->0.runner_up
        }),
        p.fill_slot(props, slot, short).take(props.len() as int) == props,
    decreases short,
{
    let all = p.fill_slot(props, slot, short);
    if short > 0 && p.best_for(props, slot, None, None) is Some {
        let b = p.best_for(props, slot, None, None)->0;
        let x = propose(slot, b, None, None, Reason::Gap { short: short as i64 });
        let next = props.push(x);
        assert(all == p.fill_slot(next, slot, short - 1));
        lemma_fill_slot_keeps(p, next, slot, short - 1);
        assert(all.take(next.len() as int) == next);
        assert(all.take(next.len() as int)[props.len() as int] == x);
        assert(all.take(props.len() as int) =~= next.take(props.len() as int));
        assert(next.take(props.len() as int) =~= props);
        if k > 0 {
            law_a_gap_is_filled_with_the_best(p, next, slot, short - 1, k - 1);
            assert(next.len() + (k - 1) == props.len() + k);
        }
    } else {
        assert(all == props);
    }
}

proof fn lemma_fill_slot_keeps(p: Problem, props: Seq<Proposal>, slot: Slot, short: int)
    ensures
        props.len() <= p.fill_slot(props, slot, short).len(),
        p.fill_slot(props, slot, short).take(props.len() as int) == props,
    decreases short,
{
    if short > 0 && p.best_for(props, slot, None, None) is Some {
        let b = p.best_for(props, slot, None, None)->0;
        let next = props.push(
            propose(slot, b, None, None, Reason::Gap { short: short as i64 }),
        );
        lemma_fill_slot_keeps(p, next, slot, short - 1);
        let all = p.fill_slot(props, slot, short);
        assert(all.take(props.len() as int) =~= all.take(next.len() as int).take(
            props.len() as int,
        ));
        assert(next.take(props.len() as int) =~= props);
    } else {
        assert(props.take(props.len() as int) =~= props);
    }
}

/// A slot that helps an hour is a block of its date that touches it, or one of
/// the night before that runs on into it, and starts within the week.
pub open spec fn helps(p: Problem, slot: Slot, d: Day, h: int) -> bool {
    let w = slot.shift as int;
    &&& p.week <= slot.date
    &&& p.slot_at(slot.date, w) == Some(slot)
    &&& slot.date == d && p.first_hour(d, w) <= h < p.past_hour(d, w) || slot.date == (d - 1) as Day
        && p.first_hour(slot.date, w) <= h + 24 < p.past_hour(slot.date, w)
}

/// Every slot weighed for an hour helps it, and those that close most of what is
/// missing come first.
pub proof fn law_slots_for_an_hour_help_it(
    p: Problem,
    props: Seq<Proposal>,
    d: Day,
    h: int,
    dept: Option<Id>,
    n: int,
)
    requires
        0 <= n <= usize::MAX,
    ensures
        ({
            let list = p.options(props, d, h, dept, n);
            &&& forall|k: int|
                0 <= k < list.len() ==> helps(p, (#[trigger] list[k]).1, d, h) && list[k].0
                    == p.closes(props, list[k].1.date, list[k].1.shift as int, dept)
            &&& forall|a: int, b: int|
                0 <= a < b < list.len() ==> (#[trigger] list[a]).0 >= (#[trigger] list[b]).0
        }),
    decreases n,
{
    if n > 0 {
        law_slots_for_an_hour_help_it(p, props, d, h, dept, n - 1);
        let list = p.options(props, d, h, dept, n - 1);
        let one = p.with_block(list, props, d, n - 1, h, dept);
        if d >= p.week && p.touches(d, n - 1, h) {
            lemma_slot_at(p, d, n - 1);
            lemma_with_option(list, (p.closes(props, d, n - 1, dept), p.slot_at(d, n - 1)->0));
        }
        let e = (d - 1) as Day;
        let two = p.with_block(one, props, e, n - 1, h + 24, dept);
        if e >= p.week && p.touches(e, n - 1, h + 24) {
            lemma_slot_at(p, e, n - 1);
            lemma_with_option(one, (p.closes(props, e, n - 1, dept), p.slot_at(e, n - 1)->0));
        }
        let ok = |x: (int, Slot)|
            helps(p, x.1, d, h) && x.0 == p.closes(props, x.1.date, x.1.shift as int, dept);
        assert forall|k: int| 0 <= k < one.len() implies ok(#[trigger] one[k]) by {
            assert(one.contains(one[k]));
            if list.contains(one[k]) {
                let j = choose|j: int| 0 <= j < list.len() && list[j] == one[k];
                assert(helps(p, list[j].1, d, h));
            }
        }
        assert forall|k: int| 0 <= k < two.len() implies ok(#[trigger] two[k]) by {
            assert(two.contains(two[k]));
            if one.contains(two[k]) {
                let j = choose|j: int| 0 <= j < one.len() && one[j] == two[k];
                assert(ok(one[j]));
            }
        }
        assert forall|k: int| 0 <= k < two.len() implies helps(p, (#[trigger] two[k]).1, d, h)
            && two[k].0 == p.closes(props, two[k].1.date, two[k].1.shift as int, dept) by {
            assert(ok(two[k]));
        }
    }
}

proof fn lemma_slot_at(p: Problem, d: Day, w: int)
    requires
        0 <= w <= usize::MAX,
        p.slot_at(d, w) is Some,
    ensures
        p.slot_at(d, w)->0.date == d,
        p.slot_at(d, w)->0.shift == w,
{
}

proof fn lemma_with_option(list: Seq<(int, Slot)>, x: (int, Slot))
    requires
        forall|a: int, b: int|
            0 <= a < b < list.len() ==> (#[trigger] list[a]).0 >= (#[trigger] list[b]).0,
    ensures
        forall|y: (int, Slot)| #[trigger]
            with_option(list, x).contains(y) <==> list.contains(y) || y == x,
        forall|a: int, b: int|
            0 <= a < b < with_option(list, x).len() ==> (#[trigger] with_option(list, x)[a]).0 >= (
            #[trigger] with_option(list, x)[b]).0,
    decreases list.len(),
{
    broadcast use vstd::seq_lib::group_seq_properties;

    let all = with_option(list, x);
    if list.len() == 0 || list.last().0 >= x.0 {
        assert forall|a: int, b: int| 0 <= a < b < all.len() implies (#[trigger] all[a]).0 >= (
        #[trigger] all[b]).0 by {
            if b == list.len() && a < list.len() - 1 {
                assert(list[a].0 >= list[list.len() - 1].0);
            }
        }
    } else {
        let short = list.drop_last();
        lemma_with_option(short, x);
        assert(list =~= short.push(list.last()));
        let front = with_option(short, x);
        assert forall|a: int, b: int| 0 <= a < b < all.len() implies (#[trigger] all[a]).0 >= (
        #[trigger] all[b]).0 by {
            if b == front.len() {
                assert(front.contains(front[a]));
                if front[a] != x {
                    let k = choose|k: int| 0 <= k < short.len() && short[k] == front[a];
                    assert(list[k].0 >= list[list.len() - 1].0);
                }
            } else {
                assert(all[a] == front[a] && all[b] == front[b]);
            }
        }
    }
}

/// Filling an hour adds people of the department asked for on slots that help
/// it, each saying the hour and how many are missing still.
pub proof fn law_an_hour_is_filled_on_slots_that_help(
    p: Problem,
    props: Seq<Proposal>,
    key: Need,
    short: int,
    k: int,
)
    requires
        p.shifts@.len() <= usize::MAX,
        0 <= k,
        props.len() + k < p.fill_hour(props, key, short).len(),
    ensures
        ({
            let x = p.fill_hour(props, key, short)[props.len() + k];
            &&& k < short
            &&& helps(p, x.slot, key.date, key.hour as int)
            &&& x.from is None
            &&& x.department == key.department
            &&& x.reason == (Reason::Coverage { hour: key.hour, short: (short - k) as i64 })
        }),
    decreases short,
{
    let list = p.options(
        props,
        key.date,
        key.hour as int,
        key.department,
        p.shifts@.len() as int,
    );
    let all = p.fill_hour(props, key, short);
    let taken = p.first_taken(props, list, key.department);
    if short > 0 && taken is Some {
        let (slot, b) = taken->0;
        let x = propose(
            slot,
            b,
            None,
            key.department,
            Reason::Coverage { hour: key.hour, short: short as i64 },
        );
        let next = props.push(x);
        law_slots_for_an_hour_help_it(
            p,
            props,
            key.date,
            key.hour as int,
            key.department,
            p.shifts@.len() as int,
        );
        law_the_first_slot_somebody_can_take(p, props, list, key.department);
        let at = choose|i: int|
            0 <= i < list.len() && (#[trigger] list[i]).1 == slot && p.best_for(
                props,
                slot,
                key.department,
                None,
            ) == Some(b);
        assert(helps(p, list[at].1, key.date, key.hour as int));
        lemma_fill_hour_keeps(p, next, key, short - 1);
        assert(all.take(next.len() as int)[props.len() as int] == x);
        if k > 0 {
            law_an_hour_is_filled_on_slots_that_help(p, next, key, short - 1, k - 1);
            assert(next.len() + (k - 1) == props.len() + k);
        }
    } else {
        assert(all == props);
    }
}

proof fn lemma_fill_hour_keeps(p: Problem, props: Seq<Proposal>, key: Need, short: int)
    ensures
        props.len() <= p.fill_hour(props, key, short).len(),
        p.fill_hour(props, key, short).take(props.len() as int) == props,
    decreases short,
{
    let list = p.options(
        props,
        key.date,
        key.hour as int,
        key.department,
        p.shifts@.len() as int,
    );
    let taken = p.first_taken(props, list, key.department);
    if short > 0 && taken is Some {
        let (slot, b) = taken->0;
        let next = props.push(
            propose(
                slot,
                b,
                None,
                key.department,
                Reason::Coverage { hour: key.hour, short: short as i64 },
            ),
        );
        lemma_fill_hour_keeps(p, next, key, short - 1);
        let all = p.fill_hour(props, key, short);
        assert(all.take(props.len() as int) =~= all.take(next.len() as int).take(
            props.len() as int,
        ));
        assert(next.take(props.len() as int) =~= props);
    } else {
        assert(props.take(props.len() as int) =~= props);
    }
}

/// Of the slots weighed, the first that somebody of the department may take is
/// taken, by the best who may; none is where nobody may take any.
pub proof fn law_the_first_slot_somebody_can_take(
    p: Problem,
    props: Seq<Proposal>,
    list: Seq<(int, Slot)>,
    dept: Option<Id>,
)
    ensures
        match p.first_taken(props, list, dept) {
            Some((slot, b)) => exists|i: int|
                0 <= i < list.len() && (#[trigger] list[i]).1 == slot && p.best_for(
                    props,
                    slot,
                    dept,
                    None,
                ) == Some(b) && forall|j: int|
                    0 <= j < i ==> p.best_for(props, (#[trigger] list[j]).1, dept, None) is None,
            None => forall|j: int|
                0 <= j < list.len() ==> p.best_for(props, (#[trigger] list[j]).1, dept, None)
                    is None,
        },
    decreases list.len(),
{
    if list.len() > 0 {
        let short = list.drop_last();
        law_the_first_slot_somebody_can_take(p, props, short, dept);
        assert(forall|j: int| 0 <= j < short.len() ==> #[trigger] short[j] == list[j]);
        match p.first_taken(props, short, dept) {
            Some((slot, b)) => {
                let i = choose|i: int|
                    0 <= i < short.len() && (#[trigger] short[i]).1 == slot && p.best_for(
                        props,
                        slot,
                        dept,
                        None,
                    ) == Some(b) && forall|j: int|
                        0 <= j < i ==> p.best_for(props, (#[trigger] short[j]).1, dept, None)
                            is None;
                assert(list[i].1 == slot);
                assert forall|j: int| 0 <= j < i implies p.best_for(
                    props,
                    (#[trigger] list[j]).1,
                    dept,
                    None,
                ) is None by {
                    assert(short[j] == list[j]);
                }
            },
            None => {
                assert forall|j: int| 0 <= j < short.len() implies p.best_for(
                    props,
                    (#[trigger] list[j]).1,
                    dept,
                    None,
                ) is None by {
                    assert(short[j] == list[j]);
                }
                assert(list[list.len() - 1] == list.last());
            },
        }
    }
}

// ── what covers an hour ─────────────────────────────────────────────────────

/// One more proposal covers an hour once where its block touches the hour that
/// day, once where the block of the day before runs on into it, each where its
/// person is of the department asked for; otherwise not at all.
pub proof fn law_a_proposal_covers_its_hours(
    p: Problem,
    props: Seq<Proposal>,
    x: Proposal,
    d: Day,
    h: int,
    dept: Option<Id>,
)
    requires
        x.slot.shift < p.shifts@.len(),
    ensures
        ({
            let w = x.slot.shift as int;
            let mine = dept is None || p.of_department(p.staff@[x.person as int].employee_id, dept);
            let today = x.slot.date == d && p.touches(d, w, h);
            let before = x.slot.date == (d - 1) as Day && p.touches((d - 1) as Day, w, h + 24);
            p.covering(props.push(x), d, h, dept) == p.covering(props, d, h, dept) + (if today
                && mine {
                1int
            } else {
                0
            }) + if before && mine {
                1int
            } else {
                0
            }
        }),
{
    lemma_covered_push(p, props, x, d, h, dept, p.shifts@.len() as int);
}

proof fn lemma_covered_push(
    p: Problem,
    props: Seq<Proposal>,
    x: Proposal,
    d: Day,
    h: int,
    dept: Option<Id>,
    n: int,
)
    ensures
        ({
            let w = x.slot.shift as int;
            let mine = p.of_department(p.id_of(x.person as int), dept);
            let today = x.slot.date == d && p.touches(d, w, h);
            let before = x.slot.date == (d - 1) as Day && p.touches((d - 1) as Day, w, h + 24);
            p.covered_by(props.push(x), d, h, dept, n) == p.covered_by(props, d, h, dept, n) + (
            if w < n && today && mine {
                1int
            } else {
                0
            }) + if w < n && before && mine {
                1int
            } else {
                0
            }
        }),
    decreases n,
{
    if n > 0 {
        lemma_covered_push(p, props, x, d, h, dept, n - 1);
        lemma_there_push(p, props, x, d, n - 1, h, dept);
        lemma_there_push(p, props, x, (d - 1) as Day, n - 1, h + 24, dept);
    }
}

proof fn lemma_there_push(
    p: Problem,
    props: Seq<Proposal>,
    x: Proposal,
    d: Day,
    w: int,
    h: int,
    dept: Option<Id>,
)
    ensures
        p.there(props.push(x), d, w, h, dept) == p.there(props, d, w, h, dept) + if x.slot.date == d
            && x.slot.shift == w && p.touches(d, w, h) && p.of_department(
            p.id_of(x.person as int),
            dept,
        ) {
            1int
        } else {
            0
        },
{
    assert(props.push(x).drop_last() =~= props);
    let u = p.id_of(x.person as int);
    let on = people_on(p, props, d, w);
    if x.slot.date == d && x.slot.shift == w {
        assert(people_on(p, props.push(x), d, w) =~= on.push(u));
        assert(on.push(u).drop_last() =~= on);
    }
}

/// What is missing at an hour is what the first entry for it needs less who is
/// there, and never less than nothing; an hour past midnight is the next day's.
pub proof fn law_what_is_missing_at_an_hour(
    p: Problem,
    props: Seq<Proposal>,
    d: Day,
    h: int,
    dept: Option<Id>,
    i: int,
)
    requires
        0 <= h < 24,
        0 <= i < p.need@.len(),
        p.need@[i].date == d && p.need@[i].hour == h && p.need@[i].department == dept,
        forall|j: int|
            0 <= j < i ==> (#[trigger] p.need@[j]).date != d || p.need@[j].hour != h
                || p.need@[j].department != dept,
    ensures
        ({
            let there = p.covering(props, d, h, dept);
            let need = p.need@[i].staff;
            &&& there >= need ==> p.missing(props, d, h, dept) == 0
            &&& there < need ==> p.missing(props, d, h, dept) + there == need
            &&& i32::MIN < d ==> p.missing(props, (d - 1) as Day, h + 24, dept) == p.missing(
                props,
                d,
                h,
                dept,
            )
        }),
{
    lemma_first_need(p.need@, d, h, dept, i);
}

proof fn lemma_first_need(list: Seq<Need>, d: Day, h: int, dept: Option<Id>, i: int)
    requires
        0 <= i < list.len(),
        list[i].date == d && list[i].hour == h && list[i].department == dept,
        forall|j: int|
            0 <= j < i ==> (#[trigger] list[j]).date != d || list[j].hour != h || list[j].department
                != dept,
    ensures
        first_need(list, d, h, dept) == Some(list[i].staff as int),
    decreases list.len(),
{
    let short = list.drop_last();
    assert(forall|j: int| 0 <= j < short.len() ==> #[trigger] short[j] == list[j]);
    if i < short.len() {
        lemma_first_need(short, d, h, dept, i);
    } else {
        lemma_no_need(short, d, h, dept);
    }
}

proof fn lemma_no_need(list: Seq<Need>, d: Day, h: int, dept: Option<Id>)
    requires
        forall|j: int|
            0 <= j < list.len() ==> (#[trigger] list[j]).date != d || list[j].hour != h
                || list[j].department != dept,
    ensures
        first_need(list, d, h, dept) is None,
    decreases list.len(),
{
    if list.len() > 0 {
        let short = list.drop_last();
        assert(forall|j: int| 0 <= j < short.len() ==> #[trigger] short[j] == list[j]);
        lemma_no_need(short, d, h, dept);
        assert(list[list.len() - 1] == list.last());
    }
}

// ── moving people off ───────────────────────────────────────────────────────

/// Somebody on a slot of a weekday they can't work is relieved by the best who
/// may take it from them; anybody else stays, and so do they where nobody may.
pub proof fn law_only_who_cant_work_is_relieved(
    p: Problem,
    props: Seq<Proposal>,
    slot: Slot,
    i: int,
)
    requires
        0 <= i < p.staff@.len() <= usize::MAX,
        forall|k: int|
            0 <= k < i ==> (#[trigger] p.staff@[k]).employee_id != p.staff@[i].employee_id,
    ensures
        ({
            let u = p.staff@[i].employee_id;
            let r = p.move_one(props, slot, u);
            let cant = p.staff@[i].cant_work_days@.contains((slot.date as int % 7) as i16);
            let best = p.best_for(props, slot, None, Some(u));
            &&& !cant || best is None ==> r == props
            &&& cant && best is Some ==> {
                &&& r.len() == props.len() + 1
                &&& r.take(props.len() as int) == props
                &&& r.last().slot == slot
                &&& r.last().from == Some(u)
                &&& r.last().person == best->0.pick.person
                &&& r.last().reason == (Reason::CantWork { person: i as usize })
            }
        }),
{
    crate::dawam::suggest::hourly::lemma_first_with(p.staff@, p.staff@[i].employee_id);
    let at = crate::dawam::suggest::hourly::first_with(p.staff@, p.staff@[i].employee_id);
    if at is None || at->0 > i {
        assert(p.staff@[i].employee_id != p.staff@[i].employee_id);
    }
    assert(at == Some(i));
    let u = p.staff@[i].employee_id;
    let r = p.move_one(props, slot, u);
    if r != props {
        assert(r.take(props.len() as int) =~= props);
    }
}

// ── the search ──────────────────────────────────────────────────────────────

/// The spread weighs a twentieth of a point for each square of somebody's late
/// shifts: one more late shift of somebody with `n` of them costs `2n + 1` of
/// that, and any other proposal nothing.
pub proof fn law_the_spread_weighs_the_squares(p: Problem, props: Seq<Proposal>, x: Proposal)
    ensures
        spread_of(p, props.push(x)) == spread_of(p, props) + if p.late@[x.slot.shift as int] {
            50_000_000 * (2 * times_in(
                on_late(p, props),
                p.staff@[x.person as int].employee_id,
            ) + 1)
        } else {
            0
        },
{
    assert(props.push(x).drop_last() =~= props);
    let u = p.id_of(x.person as int);
    let before = on_late(p, props);
    let after = on_late(p, props.push(x));
    if p.late@[x.slot.shift as int] {
        assert(after =~= before.push(u));
        lemma_squares_without(after, before.len() as int);
        assert(after.remove(before.len() as int) =~= before);
    } else {
        assert(after == before);
    }
}

/// Handing a proposal on gains: whoever it goes to is another candidate among
/// the best few, whose score less the change of the spread beats that of the
/// person on it by more than a rounding, and none of those tried gains more.
pub proof fn law_handing_on_gains_most(p: Problem, props: Seq<Proposal>, i: int)
    requires
        0 <= i < props.len(),
        p.reassigned(props, i) is Some,
    ensures
        ({
            let c = p.reassigned(props, i)->0;
            let list = p.others_for(props, i);
            let current = score_in(list, props[i].person as int);
            &&& c.person != props[i].person
            &&& current is Some
            &&& c.score - current->0 > spread_of(
                p,
                props.remove(i).push(handed(props[i], c.person, c.score)),
            ) - spread_of(p, props) + 1
            &&& exists|k: int| 0 <= k < list.len() && k < 8 && #[trigger] list[k] == c
            &&& forall|k: int|
                0 <= k < list.len() && k < 8 && (#[trigger] list[k]).person != props[i].person
                    ==> p.gain(props, i, current->0, list[k]) <= p.gain(props, i, current->0, c)
        }),
{
    let list = p.others_for(props, i);
    let tried = if list.len() < 8 {
        list
    } else {
        list.take(8)
    };
    let current = score_in(list, props[i].person as int)->0;
    lemma_most_gained(p, props, i, current, tried);
    let c = p.reassigned(props, i)->0;
    let k = choose|k: int| 0 <= k < tried.len() && #[trigger] tried[k] == c;
    assert(list[k] == c);
    assert forall|k: int|
        0 <= k < list.len() && k < 8 && (#[trigger] list[k]).person != props[i].person implies p.gain(
        props,
        i,
        current,
        list[k],
    ) <= p.gain(props, i, current, c) by {
        assert(tried[k] == list[k]);
    }
}

proof fn lemma_most_gained(
    p: Problem,
    props: Seq<Proposal>,
    i: int,
    current: Score,
    list: Seq<Pick>,
)
    ensures
        match p.most_gained(props, i, current, list) {
            Some(c) => {
                &&& c.person != props[i].person
                &&& p.gain(props, i, current, c) > 1
                &&& exists|k: int| 0 <= k < list.len() && #[trigger] list[k] == c
                &&& forall|k: int|
                    0 <= k < list.len() && (#[trigger] list[k]).person != props[i].person ==> p.gain(
                        props,
                        i,
                        current,
                        list[k],
                    ) <= p.gain(props, i, current, c)
            },
            None => forall|k: int|
                0 <= k < list.len() && (#[trigger] list[k]).person != props[i].person ==> p.gain(
                    props,
                    i,
                    current,
                    list[k],
                ) <= 1,
        },
    decreases list.len(),
{
    if list.len() > 0 {
        let short = list.drop_last();
        lemma_most_gained(p, props, i, current, short);
        let best = p.most_gained(props, i, current, short);
        let now = p.most_gained(props, i, current, list);
        assert(list[list.len() - 1] == list.last());
        if now is Some && now == best {
            let k = choose|k: int| 0 <= k < short.len() && #[trigger] short[k] == best->0;
            assert(list[k] == best->0);
        }
        assert(forall|k: int| 0 <= k < short.len() ==> #[trigger] short[k] == list[k]);
        assert forall|k: int|
            0 <= k < list.len() && (#[trigger] list[k]).person != props[i].person implies p.gain(
            props,
            i,
            current,
            list[k],
        ) <= match now {
            Some(c) => p.gain(props, i, current, c),
            None => 1,
        } by {
            if k < short.len() {
                assert(short[k] == list[k]);
            }
        }
    }
}

/// A swap exchanges the people of two additions and nothing else, and leaves the
/// scores less the spread better by more than a rounding.
pub proof fn law_a_swap_betters_the_week(p: Problem, props: Seq<Proposal>, i: int, j: int)
    requires
        0 <= i < j < props.len(),
        p.swapped(props, i, j) is Some,
    ensures
        ({
            let (a, b) = p.swapped(props, i, j)->0;
            &&& props[i].from is None && props[j].from is None
            &&& props[i].person != props[j].person
            &&& a.person == props[j].person && b.person == props[i].person
            &&& a.slot == props[i].slot && b.slot == props[j].slot
            &&& a.department == props[i].department && b.department == props[j].department
            &&& !a.by_default && !b.by_default
            &&& a.score + b.score - spread_of(p, props.remove(j).remove(i).push(a).push(b))
                > props[i].score + props[j].score - spread_of(p, props) + 1
        }),
{
}

/// Nobody is proposed for two shifts of which one begins before the other ends,
/// nor for two on one date with less than two hours between them.
pub proof fn law_proposed_shifts_are_hours_apart(
    p: Problem,
    props: Seq<Proposal>,
    i: int,
    j: int,
)
    requires
        p.valid(),
        sound(p, props),
        0 <= i < props.len(),
        0 <= j < props.len(),
        i != j,
        props[i].person == props[j].person,
    ensures
        ({
            let a = props[i].slot.span;
            let b = props[j].slot.span;
            let two_hours = 120 * NANOS_PER_MINUTE;
            &&& a.end <= b.start || b.end <= a.start
            &&& a.date == b.date ==> a.end + two_hours <= b.start || b.end + two_hours <= a.start
        }),
{
    assert(apart(p, props[i], props[j]));
}

/// Nobody is proposed for a shift beside one they are on already, unless it ends
/// before the other begins, on one date with two hours between them.
pub proof fn law_a_proposal_keeps_clear_of_the_roster(
    p: Problem,
    props: Seq<Proposal>,
    i: int,
    k: int,
)
    requires
        p.valid(),
        sound(p, props),
        0 <= i < props.len(),
        0 <= k < spans_of(p.spans@, p.id_of(props[i].person as int)).len(),
    ensures
        ({
            let a = spans_of(p.spans@, p.id_of(props[i].person as int))[k];
            let b = props[i].slot.span;
            let two_hours = 120 * NANOS_PER_MINUTE;
            &&& a.end <= b.start || b.end <= a.start
            &&& a.date == b.date ==> a.end + two_hours <= b.start || b.end + two_hours <= a.start
        }),
{
    assert(clear(p, props[i]));
    let list = spans_of(p.spans@, p.id_of(props[i].person as int));
    assert(!clashes(list, props[i].slot.span));
}

// ── slots ───────────────────────────────────────────────────────────────────

/// A block has a slot on the dates it runs where the clock shows both its times:
/// from its start that date to its end, the next day where it ends no later than
/// it starts.
pub proof fn law_a_slot_is_a_block_on_a_date(p: Problem, d: Day, w: int)
    requires
        0 <= w <= usize::MAX,
    ensures
        ({
            let (start, end) = p.shifts@[w].times(d);
            let last = if end <= start {
                (d + 1) as Day
            } else {
                d
            };
            let from = local_instant(p.zone@, d, start);
            let to = local_instant(p.zone@, last, end);
            &&& p.slot_at(d, w) is Some <==> p.shifts@[w].runs_on(d) && from is Some && to is Some
            &&& p.slot_at(d, w) is Some ==> {
                let s = p.slot_at(d, w)->0;
                &&& s.date == d
                &&& s.shift == w
                &&& s.span.date == d
                &&& Some(s.span.start) == from
                &&& Some(s.span.end) == to
            }
        }),
{
}

/// A block touches the hours with a minute of it in them, counted from its own
/// date's midnight.
pub proof fn law_a_block_touches_its_hours(p: Problem, d: Day, w: int, h: int)
    requires
        p.slot_at(d, w) is Some,
        0 <= p.shifts@[w].times(d).0 < 86_400_000_000_000,
        0 <= p.shifts@[w].times(d).1 < 86_400_000_000_000,
    ensures
        ({
            let from = p.shifts@[w].times(d).0 as int / 60_000_000_000;
            let until = p.shifts@[w].times(d).1 as int / 60_000_000_000;
            let to = if until <= from || p.shifts@[w].times(d).1 <= p.shifts@[w].times(d).0 {
                until + 24 * 60
            } else {
                until
            };
            p.touches(d, w, h) <==> from < (h + 1) * 60 && h * 60 < to
        }),
{
}

/// What a block closes is what is missing at each of its hours, added up.
pub proof fn law_a_block_closes_its_hours(
    p: Problem,
    props: Seq<Proposal>,
    d: Day,
    w: int,
    dept: Option<Id>,
    x: int,
    end: int,
)
    requires
        x <= end,
    ensures
        p.missing_over(props, d, x, x, dept) == 0,
        p.missing_over(props, d, x, end + 1, dept) == p.missing_over(props, d, x, end, dept)
            + p.missing(props, d, end, dept),
        p.first_hour(d, w) == x && p.past_hour(d, w) == end ==> p.closes(props, d, w, dept)
            == p.missing_over(props, d, x, end, dept),
{
}

// ── the week ────────────────────────────────────────────────────────────────

/// A list of proposals begins with another.
pub open spec fn begins_with(all: Seq<Proposal>, some: Seq<Proposal>) -> bool {
    some.len() <= all.len() && all.take(some.len() as int) == some
}

proof fn lemma_begins(a: Seq<Proposal>, b: Seq<Proposal>, c: Seq<Proposal>)
    requires
        begins_with(b, a),
        begins_with(c, b),
    ensures
        begins_with(c, a),
{
    assert(c.take(a.len() as int) =~= c.take(b.len() as int).take(a.len() as int));
}

proof fn lemma_blocks_begin(p: Problem, props: Seq<Proposal>, d: Day, m: int, n: int)
    requires
        0 <= m <= n,
    ensures
        begins_with(p.fill_blocks(props, d, n), p.fill_blocks(props, d, m)),
    decreases n,
{
    let some = p.fill_blocks(props, d, m);
    if m == n {
        assert(some.take(some.len() as int) =~= some);
    } else {
        lemma_blocks_begin(p, props, d, m, n - 1);
        let before = p.fill_blocks(props, d, n - 1);
        lemma_block_begins(p, before, d, n - 1);
        lemma_begins(some, before, p.fill_blocks(props, d, n));
    }
}

proof fn lemma_block_begins(p: Problem, props: Seq<Proposal>, d: Day, w: int)
    ensures
        begins_with(p.fill_block(props, d, w), props),
{
    match p.slot_at(d, w) {
        Some(slot) => {
            lemma_fill_slot_keeps(
                p,
                props,
                slot,
                p.headcount(d, w) - people_on(p, props, d, w).len(),
            );
        },
        None => {
            assert(props.take(props.len() as int) =~= props);
        },
    }
}

proof fn lemma_weeks_begin(p: Problem, props: Seq<Proposal>, m: int, n: int)
    requires
        0 <= m <= n,
    ensures
        begins_with(p.fill_week(props, n), p.fill_week(props, m)),
    decreases n,
{
    let some = p.fill_week(props, m);
    if m == n {
        assert(some.take(some.len() as int) =~= some);
    } else {
        lemma_weeks_begin(p, props, m, n - 1);
        let before = p.fill_week(props, n - 1);
        lemma_blocks_begin(p, before, (p.week + n - 1) as Day, 0, p.shifts@.len() as int);
        lemma_begins(some, before, p.fill_week(props, n));
    }
}

proof fn lemma_more_on(p: Problem, all: Seq<Proposal>, n: int, d: Day, w: int)
    requires
        0 <= n <= all.len(),
    ensures
        people_on(p, all.take(n), d, w).len() <= people_on(p, all, d, w).len(),
    decreases all.len(),
{
    if n == all.len() {
        assert(all.take(n) =~= all);
    } else {
        let short = all.drop_last();
        lemma_more_on(p, short, n, d, w);
        assert(short.take(n) =~= all.take(n));
    }
}

/// Every block of every date of the week is filled to what the pattern intends,
/// unless at some point nobody could take it any more.
pub proof fn law_the_whole_week_is_filled(
    p: Problem,
    props: Seq<Proposal>,
    k: int,
    w: int,
    slot: Slot,
)
    requires
        0 <= k < 7,
        p.week <= 2_000_000_000,
        0 <= w < p.shifts@.len() <= usize::MAX,
        p.slot_at((p.week + k) as Day, w) == Some(slot),
    ensures
        ({
            let all = p.fill_week(props, 7);
            let d = (p.week + k) as Day;
            people_on(p, all, d, w).len() >= p.headcount(d, w) || exists|m: int|
                0 <= m <= all.len() && #[trigger] p.best_for(all.take(m), slot, None, None) is None
        }),
{
    let d = (p.week + k) as Day;
    let all = p.fill_week(props, 7);
    let before = p.fill_week(props, k);
    let some = p.fill_blocks(before, d, w);
    let after = p.fill_blocks(before, d, w + 1);
    let date = p.fill_week(props, k + 1);
    lemma_blocks_begin(p, before, d, w + 1, p.shifts@.len() as int);
    lemma_weeks_begin(p, props, k + 1, 7);
    lemma_begins(after, date, all);
    let n = after.len() as int;
    assert(all.take(n) == after);
    lemma_more_on(p, all, n, d, w);
    if people_on(p, some, d, w).len() <= p.headcount(d, w) {
        law_a_gap_is_filled_as_far_as_it_can_be(p, some, d, w);
        if people_on(p, after, d, w).len() < p.headcount(d, w) {
            assert(p.best_for(all.take(n), slot, None, None) is None);
        }
    } else {
        lemma_block_begins(p, some, d, w);
        lemma_more_on(p, after, some.len() as int, d, w);
    }
}

/// The hours that need people are filled where any are known, and the pattern's
/// gaps otherwise; then the whole week is looked over for who can't work.
pub proof fn law_known_hours_come_before_the_pattern(p: Problem)
    ensures
        p.need@.len() == 0 ==> p.greedy() == p.move_week(p.fill_week(Seq::empty(), 7), 7),
        p.need@.len() > 0 ==> p.greedy() == p.move_week(
            p.fill_hours(Seq::empty(), needs_in_order(p.need@)),
            7,
        ),
{
}

/// A proposal is tried on no more than the best eight, and the search stops after
/// twenty thousand tries or when the time is over, leaving what it has.
pub proof fn law_the_search_is_bounded(p: Problem, props: Seq<Proposal>, i: int, moves: int)
    ensures
        0 <= p.tries(props, i) <= 8,
        p.tries(props, i) <= p.others_for(props, i).len(),
        p.others_for(props, i).len() <= 8 ==> p.tries(props, i) == p.others_for(props, i).len(),
        moves >= 20_000 ==> p.searched(props, moves, 1) == props,
        p.searched(props, moves, 0) == props,
{
}

proof fn lemma_still_improved(
    p: Problem,
    props: Seq<Proposal>,
    moves: int,
    left: int,
    i: int,
)
    ensures
        p.reassign_sweep(props, moves, left, i, true).improved,
    decreases left,
{
    reveal(Problem::reassign_sweep);
    if i < props.len() && moves < 20_000 && left > 0 {
        lemma_still_improved(
            p,
            p.with_reassigned(props, i),
            moves + p.tries(props, i),
            left - 1,
            i + 1,
        );
    }
}

/// A sweep of handing on that reached the end and changed nothing found nothing:
/// the proposals are as they were, and none of them gains by being handed on.
pub proof fn law_an_idle_sweep_found_nobody_better(
    p: Problem,
    props: Seq<Proposal>,
    moves: int,
    left: int,
    i: int,
)
    requires
        0 <= i,
        !p.reassign_sweep(props, moves, left, i, false).spent,
        !p.reassign_sweep(props, moves, left, i, false).improved,
    ensures
        p.reassign_sweep(props, moves, left, i, false).props == props,
        forall|k: int| i <= k < props.len() ==> #[trigger] p.reassigned(props, k) is None,
    decreases left,
{
    reveal(Problem::reassign_sweep);
    if i < props.len() {
        let next = p.with_reassigned(props, i);
        if p.reassigned(props, i) is Some {
            lemma_still_improved(p, next, moves + p.tries(props, i), left - 1, i + 1);
        } else {
            law_an_idle_sweep_found_nobody_better(
                p,
                props,
                moves + p.tries(props, i),
                left - 1,
                i + 1,
            );
        }
    }
}

proof fn lemma_still_swapped(
    p: Problem,
    props: Seq<Proposal>,
    moves: int,
    left: int,
    i: int,
    j: int,
)
    ensures
        p.swap_sweep(props, moves, left, i, j, true).improved,
    decreases left, props.len() - i,
{
    reveal(Problem::swap_sweep);
    if i < props.len() {
        if j >= props.len() {
            lemma_still_swapped(p, props, moves, left, i + 1, i + 2);
        } else if moves < 20_000 && left > 0 {
            lemma_still_swapped(p, p.with_swapped(props, i, j), moves + 1, left - 1, i, j + 1);
        }
    }
}

/// A sweep of swaps that reached the end and changed nothing found nothing: no
/// two of the proposals are better with their people swapped.
pub proof fn law_an_idle_sweep_found_no_better_swap(
    p: Problem,
    props: Seq<Proposal>,
    moves: int,
    left: int,
    i: int,
    j: int,
)
    requires
        0 <= i < j,
        !p.swap_sweep(props, moves, left, i, j, false).spent,
        !p.swap_sweep(props, moves, left, i, j, false).improved,
    ensures
        p.swap_sweep(props, moves, left, i, j, false).props == props,
        forall|b: int| j <= b < props.len() ==> #[trigger] p.swapped(props, i, b) is None,
        forall|a: int, b: int|
            i < a < b < props.len() ==> #[trigger] p.swapped(props, a, b) is None,
    decreases left, props.len() - i,
{
    reveal(Problem::swap_sweep);
    if i < props.len() {
        if j >= props.len() {
            law_an_idle_sweep_found_no_better_swap(p, props, moves, left, i + 1, i + 2);
            assert forall|a: int, b: int|
                i < a < b < props.len() implies #[trigger] p.swapped(props, a, b) is None by {
                if a == i + 1 {
                    assert(i + 2 <= b);
                }
            }
        } else if p.swapped(props, i, j) is Some {
            lemma_still_swapped(p, p.with_swapped(props, i, j), moves + 1, left - 1, i, j + 1);
        } else {
            law_an_idle_sweep_found_no_better_swap(p, props, moves + 1, left - 1, i, j + 1);
        }
    }
}

/// The search goes on while a sweep changes anything and the budget lasts, and
/// leaves off after one that does not.
pub proof fn law_the_search_goes_on_while_it_betters(
    p: Problem,
    props: Seq<Proposal>,
    moves: int,
    left: int,
)
    requires
        moves < 20_000,
        left > 0,
    ensures
        ({
            let one = p.reassign_sweep(props, moves, left - 1, 0, false);
            let two = p.swap_sweep(one.props, one.moves, one.left, 0, 1, false);
            let r = p.searched(props, moves, left);
            &&& one.spent ==> r == one.props
            &&& !one.spent && (two.spent || !one.improved && !two.improved) ==> r == two.props
            &&& !one.spent && !two.spent && (one.improved || two.improved) && two.moves > moves
                ==> r == p.searched(two.props, two.moves, two.left)
        }),
{
}

// ── what is said ────────────────────────────────────────────────────────────

/// An hour is short of what it needs less who is there once the hours before it
/// were filled.
pub proof fn law_an_hour_is_short_of_what_it_lacks(
    p: Problem,
    props: Seq<Proposal>,
    keys: Seq<Need>,
    key: Need,
)
    ensures
        ({
            let before = p.fill_hours(props, keys);
            let there = p.covering(before, key.date, key.hour as int, key.department);
            &&& p.fill_hours(props, keys.push(key)) == p.fill_hour(before, key, key.staff - there)
            &&& there >= key.staff ==> p.fill_hours(props, keys.push(key)) == before
        }),
        p.fill_hours(props, Seq::empty()) == props,
{
    assert(keys.push(key).drop_last() =~= keys);
}

/// Everybody on a block is looked at, one after another, on every block of every
/// date.
pub proof fn law_everybody_on_the_week_is_looked_at(
    p: Problem,
    props: Seq<Proposal>,
    slot: Slot,
    people: Seq<Id>,
    u: Id,
    d: Day,
    n: int,
)
    requires
        n >= 0,
    ensures
        p.move_each(props, slot, people.push(u)) == p.move_one(
            p.move_each(props, slot, people),
            slot,
            u,
        ),
        p.slot_at(d, n) == Some(slot) ==> p.move_blocks(props, d, n + 1) == p.move_each(
            p.move_blocks(props, d, n),
            slot,
            people_on(p, p.move_blocks(props, d, n), d, n),
        ),
        p.slot_at(d, n) is None ==> p.move_blocks(props, d, n + 1) == p.move_blocks(props, d, n),
        p.move_week(props, n + 1) == p.move_blocks(
            p.move_week(props, n),
            (p.week + n) as Day,
            p.shifts@.len() as int,
        ),
        p.move_week(props, 0) == props,
        p.move_blocks(props, d, 0) == props,
{
    assert(people.push(u).drop_last() =~= people);
}

/// A suggestion says what was proposed: the date, the block with its times that
/// date, who takes it and from whom, and how sure it is, in whole percent.
pub proof fn law_a_suggestion_says_what_is_proposed(p: Problem, x: Proposal, r: Suggestion)
    requires
        dressed(p, x, r),
    ensures
        ({
            let block = p.shifts@[x.slot.shift as int];
            let who = p.staff@[x.person as int];
            &&& r.date == x.slot.date
            &&& r.work_shift_id == block.id
            &&& r.shift_name@ == block.name@
            &&& r.start_time == Some(block.times(x.slot.date).0)
            &&& r.end_time == Some(block.times(x.slot.date).1)
            &&& r.employee_id == who.employee_id
            &&& r.employee_name@ == who.name@
            &&& r.from_employee_id == x.from
            &&& x.from is None ==> r.from_employee_name is None
            &&& r.by_default == x.by_default
            &&& r.confidence * 1_000_000_000 <= sureness(x) < (r.confidence + 1) * 1_000_000_000
            &&& x.reason is Gap ==> r.reason_key@ == "staff.sg_gap"@
            &&& x.reason is Coverage ==> r.reason_key@ == "staff.sg_coverage"@
            &&& x.reason is CantWork ==> r.reason_key@ == "staff.sg_cant_work"@
        }),
{
}

} // verus!
