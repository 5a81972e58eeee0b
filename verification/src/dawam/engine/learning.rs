//! What is learned of each person from what they and their managers did.
//!
//! Weights and values are counted in billionths; how much an event still
//! weighs at its age comes with it.

use vstd::prelude::*;

use crate::calendar::{whole_units, Id};
use crate::dawam::roster::RosterPerson;
use crate::dawam::suggest::{Learned, Score, MAX_PART, POINT};

verus! {

/// The most one event may be worth: ten billion points.
pub const MAX_VALUE: Score = 10_000_000_000_000_000_000;

/// One learning event: +1 took or kept a shift of that class, −1 refused or
/// missed it.
#[derive(Debug, Clone, Copy)]
pub struct Signal {
    pub employee_id: Id,
    pub late: bool,
    pub value: Score,
    /// What the event weighs at its age: one point when new, half after eight
    /// weeks.
    pub weight: Score,
    /// Manager-side (accept/reject) or employee-side (claims, swaps, turning
    /// up).
    pub manager: bool,
}

impl Signal {
    /// Worth and weight within bounds.
    pub open spec fn valid(self) -> bool {
        -MAX_VALUE <= self.value <= MAX_VALUE && 0 <= self.weight <= POINT
    }
}

/// Events within bounds, few enough to count.
pub open spec fn valid_signals(signals: Seq<Signal>) -> bool {
    signals.len() <= u32::MAX && forall|i: int|
        0 <= i < signals.len() ==> (#[trigger] signals[i]).valid()
}

/// An event as it is stored, of a block.
#[derive(Debug, Clone, Copy)]
pub struct EventRow {
    pub employee_id: Id,
    pub work_shift_id: Id,
    pub value: Score,
    pub weight: Score,
    pub manager: bool,
}

/// Whether a block is late, where it is known.
pub open spec fn class_of(blocks: Seq<(Id, bool)>, id: Id) -> Option<bool>
    decreases blocks.len(),
{
    if blocks.len() == 0 {
        None
    } else {
        match class_of(blocks.drop_last(), id) {
            Some(b) => Some(b),
            None => if blocks.last().0 == id {
                Some(blocks.last().1)
            } else {
                None
            },
        }
    }
}

/// The events of known blocks, each with its block's class.
pub open spec fn classed(rows: Seq<EventRow>, blocks: Seq<(Id, bool)>) -> Seq<Signal>
    decreases rows.len(),
{
    if rows.len() == 0 {
        Seq::empty()
    } else {
        let before = classed(rows.drop_last(), blocks);
        let r = rows.last();
        match class_of(blocks, r.work_shift_id) {
            Some(late) => before.push(
                Signal {
                    employee_id: r.employee_id,
                    late,
                    value: r.value,
                    weight: r.weight,
                    manager: r.manager,
                },
            ),
            None => before,
        }
    }
}

fn find_class(blocks: &Vec<(Id, bool)>, id: Id) -> (r: Option<bool>)
    ensures
        r == class_of(blocks@, id),
{
    let mut found: Option<bool> = None;
    let mut i: usize = 0;
    while i < blocks.len()
        invariant
            i <= blocks@.len(),
            found == class_of(blocks@.take(i as int), id),
        decreases blocks@.len() - i,
    {
        assert(blocks@.take(i + 1).drop_last() =~= blocks@.take(i as int));
        if found.is_none() && blocks[i].0 == id {
            found = Some(blocks[i].1);
        }
        i += 1;
    }
    assert(blocks@.take(blocks@.len() as int) =~= blocks@);
    found
}

/// The events of known blocks, each with its block's class.
pub fn classify(rows: &Vec<EventRow>, blocks: &Vec<(Id, bool)>) -> (r: Vec<Signal>)
    ensures
        r@ == classed(rows@, blocks@),
{
    let mut out: Vec<Signal> = Vec::new();
    let mut i: usize = 0;
    while i < rows.len()
        invariant
            i <= rows@.len(),
            out@ == classed(rows@.take(i as int), blocks@),
        decreases rows@.len() - i,
    {
        assert(rows@.take(i + 1).drop_last() =~= rows@.take(i as int));
        let x: EventRow = rows[i];
        if let Some(late) = find_class(blocks, x.work_shift_id) {
            out.push(
                Signal {
                    employee_id: x.employee_id,
                    late,
                    value: x.value,
                    weight: x.weight,
                    manager: x.manager,
                },
            );
        }
        i += 1;
    }
    assert(rows@.take(rows@.len() as int) =~= rows@);
    out
}

// ── tallies ─────────────────────────────────────────────────────────────────

/// What one side's events of one class come to: the sum of their values by
/// weight (in billionths of billionths), their weight, and how many they are.
#[derive(Debug, Clone, Copy)]
pub struct Tally {
    pub sum: i128,
    pub weight: i128,
    pub events: u32,
}

/// An event is one person's, of a side and a class.
pub open spec fn counts(s: Signal, u: Id, manager: bool, late: bool) -> bool {
    s.employee_id == u && s.manager == manager && s.late == late
}

/// The sum, the weight and the number of one person's events of a side and a
/// class.
pub open spec fn tallied(signals: Seq<Signal>, u: Id, manager: bool, late: bool) -> (int, int, int)
    decreases signals.len(),
{
    if signals.len() == 0 {
        (0, 0, 0)
    } else {
        let t = tallied(signals.drop_last(), u, manager, late);
        let s = signals.last();
        if counts(s, u, manager, late) {
            (t.0 + s.weight * s.value, t.1 + s.weight, t.2 + 1)
        } else {
            t
        }
    }
}

impl Tally {
    /// The three figures.
    pub open spec fn figures(self) -> (int, int, int) {
        (self.sum as int, self.weight as int, self.events as int)
    }

    /// No more than its weight is worth.
    pub open spec fn valid(self) -> bool {
        &&& 0 <= self.weight <= self.events * POINT
        &&& -(self.weight * MAX_VALUE) <= self.sum <= self.weight * MAX_VALUE
    }

    /// Shrunk toward 0: one event says little.
    pub open spec fn term(self) -> int {
        whole_units(self.sum as int, self.weight + POINT)
    }

    fn shrunk(&self) -> (r: Score)
        requires
            self.valid(),
        ensures
            r == self.term(),
            -MAX_VALUE <= r <= MAX_VALUE,
    {
        proof {
            lemma_bounds(*self);
        }
        let unit: i128 = self.weight + POINT;
        if self.sum >= 0 {
            proof {
                lemma_share(self.sum as int, unit as int);
            }
            self.sum / unit
        } else {
            let back: i128 = -self.sum;
            proof {
                lemma_share(back as int, unit as int);
            }
            -(back / unit)
        }
    }
}

proof fn lemma_bounds(t: Tally)
    requires
        t.valid(),
    ensures
        0 <= t.weight <= u32::MAX * POINT,
        -(u32::MAX * POINT * MAX_VALUE) <= t.sum <= u32::MAX * POINT * MAX_VALUE,
        -((t.weight + POINT) * MAX_VALUE) <= t.sum <= (t.weight + POINT) * MAX_VALUE,
{
    assert(t.events * POINT <= u32::MAX * POINT);
    assert(t.weight * MAX_VALUE <= u32::MAX * POINT * MAX_VALUE);
}

proof fn lemma_share(n: int, unit: int)
    requires
        0 <= n <= unit * MAX_VALUE,
        unit > 0,
    ensures
        0 <= n / unit <= MAX_VALUE,
{
    assert(0 <= n / unit <= MAX_VALUE) by (nonlinear_arith)
        requires
            0 <= n <= unit * MAX_VALUE,
            unit > 0,
    ;
}

/// A person's learned fit, per class (day, late), kept apart per side.
#[derive(Debug, Clone, Copy)]
pub struct Fit {
    pub manager_day: Tally,
    pub manager_late: Tally,
    pub own_day: Tally,
    pub own_late: Tally,
}

impl Fit {
    /// One side's tally of a class.
    pub open spec fn side(self, manager: bool, late: bool) -> Tally {
        if manager {
            if late {
                self.manager_late
            } else {
                self.manager_day
            }
        } else if late {
            self.own_late
        } else {
            self.own_day
        }
    }

    /// Tallies that hold together, of few enough events.
    pub open spec fn valid(self) -> bool {
        &&& self.manager_day.valid() && self.manager_late.valid()
        &&& self.own_day.valid() && self.own_late.valid()
        &&& self.manager_day.events + self.own_day.events + self.manager_late.events
            + self.own_late.events <= u32::MAX
    }

    /// The fit tells one person's events, of every side and class.
    pub open spec fn tells(self, signals: Seq<Signal>, u: Id) -> bool {
        &&& self.manager_day.figures() == tallied(signals, u, true, false)
        &&& self.manager_late.figures() == tallied(signals, u, true, true)
        &&& self.own_day.figures() == tallied(signals, u, false, false)
        &&& self.own_late.figures() == tallied(signals, u, false, true)
    }

    /// How well a class of shift suits them: half what managers did, half what
    /// they did.
    pub open spec fn score_of(self, late: bool) -> int {
        whole_units(self.side(true, late).term() + self.side(false, late).term(), 2)
    }

    /// How well a class of shift suits them.
    pub fn score(&self, late: bool) -> (r: Score)
        requires
            self.valid(),
        ensures
            r == self.score_of(late),
            -MAX_PART <= r <= MAX_PART,
    {
        let both: Score = if late {
            self.manager_late.shrunk() + self.own_late.shrunk()
        } else {
            self.manager_day.shrunk() + self.own_day.shrunk()
        };
        if both >= 0 {
            both / 2
        } else {
            let back: Score = -both;
            -(back / 2)
        }
    }

    /// How many events of a class there are.
    pub fn events(&self, late: bool) -> (r: u32)
        requires
            self.valid(),
        ensures
            r == self.side(true, late).events + self.side(false, late).events,
    {
        if late {
            self.manager_late.events + self.own_late.events
        } else {
            self.manager_day.events + self.own_day.events
        }
    }

    /// The person themselves has shown they take late shifts.
    pub fn willing_late(&self) -> (r: bool)
        ensures
            r == (self.own_late.events >= 3 && self.own_late.sum > 0),
    {
        self.own_late.events >= 3 && self.own_late.sum > 0
    }

    /// What the solver knows of the person.
    pub fn learned(&self) -> (r: Learned)
        requires
            self.valid(),
        ensures
            tells_of(*self, r),
            -MAX_PART <= r.day_fit <= MAX_PART,
            -MAX_PART <= r.late_fit <= MAX_PART,
    {
        Learned {
            willing_late: self.willing_late(),
            day_events: self.events(false),
            late_events: self.events(true),
            day_fit: self.score(false),
            late_fit: self.score(true),
        }
    }
}

/// What the solver knows of somebody is their fit.
pub open spec fn tells_of(f: Fit, r: Learned) -> bool {
    &&& r.willing_late == (f.own_late.events >= 3 && f.own_late.sum > 0)
    &&& r.day_events == f.manager_day.events + f.own_day.events
    &&& r.late_events == f.manager_late.events + f.own_late.events
    &&& r.day_fit == f.score_of(false)
    &&& r.late_fit == f.score_of(true)
}

/// Somebody has an event.
pub open spec fn has_event(signals: Seq<Signal>, u: Id) -> bool {
    exists|i: int| 0 <= i < signals.len() && (#[trigger] signals[i]).employee_id == u
}

/// Everybody with an event, once each, with the fit that tells their events.
pub open spec fn learnt(signals: Seq<Signal>, fits: Seq<(Id, Fit)>) -> bool {
    &&& forall|k: int|
        0 <= k < fits.len() ==> (#[trigger] fits[k]).1.tells(signals, fits[k].0) && has_event(
            signals,
            fits[k].0,
        )
    &&& forall|k: int, l: int|
        0 <= k < l < fits.len() ==> (#[trigger] fits[k]).0 != (#[trigger] fits[l]).0
    &&& forall|i: int|
        0 <= i < signals.len() ==> exists|k: int|
            0 <= k < fits.len() && (#[trigger] fits[k]).0 == (#[trigger] signals[i]).employee_id
}

proof fn lemma_tallied(signals: Seq<Signal>, u: Id, manager: bool, late: bool)
    requires
        forall|i: int| 0 <= i < signals.len() ==> (#[trigger] signals[i]).valid(),
    ensures
        ({
            let t = tallied(signals, u, manager, late);
            &&& 0 <= t.2 <= signals.len()
            &&& 0 <= t.1 <= t.2 * POINT
            &&& -(t.1 * MAX_VALUE) <= t.0 <= t.1 * MAX_VALUE
        }),
    decreases signals.len(),
{
    if signals.len() > 0 {
        let short = signals.drop_last();
        let s = signals.last();
        assert(signals[signals.len() - 1].valid());
        assert forall|i: int| 0 <= i < short.len() implies (#[trigger] short[i]).valid() by {
            assert(signals[i].valid());
        }
        lemma_tallied(short, u, manager, late);
        let w = s.weight as int;
        let v = s.value as int;
        assert(-(w * MAX_VALUE) <= w * v <= w * MAX_VALUE) by (nonlinear_arith)
            requires
                0 <= w,
                -MAX_VALUE <= v <= MAX_VALUE,
        ;
    }
}

/// The sides and classes share the events out.
proof fn lemma_events_shared(signals: Seq<Signal>, u: Id)
    ensures
        tallied(signals, u, true, true).2 + tallied(signals, u, true, false).2 + tallied(
            signals,
            u,
            false,
            true,
        ).2 + tallied(signals, u, false, false).2 <= signals.len(),
    decreases signals.len(),
{
    if signals.len() > 0 {
        lemma_events_shared(signals.drop_last(), u);
    }
}

/// A fit that tells events within bounds holds together.
pub proof fn law_a_told_fit_is_valid(signals: Seq<Signal>, u: Id, f: Fit)
    requires
        valid_signals(signals),
        f.tells(signals, u),
    ensures
        f.valid(),
{
    lemma_tallied(signals, u, true, true);
    lemma_tallied(signals, u, true, false);
    lemma_tallied(signals, u, false, true);
    lemma_tallied(signals, u, false, false);
    lemma_events_shared(signals, u);
}

proof fn lemma_none_tallied(signals: Seq<Signal>, u: Id, manager: bool, late: bool)
    requires
        !has_event(signals, u),
    ensures
        tallied(signals, u, manager, late) == (0int, 0int, 0int),
    decreases signals.len(),
{
    if signals.len() > 0 {
        let short = signals.drop_last();
        assert(signals[signals.len() - 1].employee_id != u);
        assert(!has_event(short, u)) by {
            assert(forall|i: int| 0 <= i < short.len() ==> #[trigger] short[i] == signals[i]);
        }
        lemma_none_tallied(short, u, manager, late);
    }
}

fn add(t: &Tally, s: &Signal) -> (r: Tally)
    requires
        t.valid(),
        s.valid(),
        t.events < u32::MAX,
    ensures
        r.figures() == (t.sum + s.weight * s.value, t.weight + s.weight, t.events + 1),
{
    proof {
        lemma_bounds(*t);
        let w = s.weight as int;
        let v = s.value as int;
        assert(-(POINT * MAX_VALUE) <= w * v <= POINT * MAX_VALUE) by (nonlinear_arith)
            requires
                0 <= w <= POINT,
                -MAX_VALUE <= v <= MAX_VALUE,
        ;
    }
    Tally { sum: t.sum + s.weight * s.value, weight: t.weight + s.weight, events: t.events + 1 }
}

fn find_fit(fits: &Vec<(Id, Fit)>, u: Id) -> (r: Option<usize>)
    ensures
        r matches Some(k) ==> k < fits@.len() && fits@[k as int].0 == u,
        r is None ==> forall|k: int| 0 <= k < fits@.len() ==> (#[trigger] fits@[k]).0 != u,
{
    let mut i: usize = 0;
    while i < fits.len()
        invariant
            i <= fits@.len(),
            forall|k: int| 0 <= k < i ==> (#[trigger] fits@[k]).0 != u,
        decreases fits@.len() - i,
    {
        if fits[i].0 == u {
            return Some(i);
        }
        i += 1;
    }
    None
}

/// The fit with one more event.
fn learn_one(f: &Fit, s: &Signal) -> (r: Fit)
    requires
        f.valid(),
        s.valid(),
        f.side(s.manager, s.late).events < u32::MAX,
    ensures
        forall|manager: bool, late: bool| #[trigger]
            r.side(manager, late).figures() == if manager == s.manager && late == s.late {
                let t = f.side(manager, late);
                (t.sum + s.weight * s.value, t.weight + s.weight, t.events + 1)
            } else {
                f.side(manager, late).figures()
            },
{
    let mut r: Fit = *f;
    if s.manager {
        if s.late {
            r.manager_late = self::add(&f.manager_late, s);
        } else {
            r.manager_day = self::add(&f.manager_day, s);
        }
    } else if s.late {
        r.own_late = self::add(&f.own_late, s);
    } else {
        r.own_day = self::add(&f.own_day, s);
    }
    r
}

/// What everybody's events come to.
pub fn learn(signals: &[Signal]) -> (out: Vec<(Id, Fit)>)
    requires
        valid_signals(signals@),
    ensures
        learnt(signals@, out@),
{
    let mut out: Vec<(Id, Fit)> = Vec::new();
    let mut i: usize = 0;
    while i < signals.len()
        invariant
            i <= signals@.len(),
            valid_signals(signals@),
            learnt(signals@.take(i as int), out@),
        decreases signals@.len() - i,
    {
        let s: Signal = signals[i];
        let ghost before = signals@.take(i as int);
        let ghost now = signals@.take(i + 1);
        let ghost had = out@;
        let u: Id = s.employee_id;
        let at: usize = match find_fit(&out, u) {
            Some(k) => k,
            None => {
                let none: Tally = Tally { sum: 0, weight: 0, events: 0 };
                let f: Fit = Fit {
                    manager_day: none,
                    manager_late: none,
                    own_day: none,
                    own_late: none,
                };
                proof {
                    assert(!has_event(before, u)) by {
                        if has_event(before, u) {
                            let n = choose|n: int|
                                0 <= n < before.len() && (#[trigger] before[n]).employee_id == u;
                            let k = choose|k: int|
                                0 <= k < had.len() && (#[trigger] had[k]).0 == before[n].employee_id;
                            assert(had[k].0 == u);
                        }
                    }
                    lemma_none_tallied(before, u, true, true);
                    lemma_none_tallied(before, u, true, false);
                    lemma_none_tallied(before, u, false, true);
                    lemma_none_tallied(before, u, false, false);
                    assert(f.tells(before, u));
                }
                out.push((u, f));
                out.len() - 1
            },
        };
        let f: Fit = out[at].1;
        proof {
            assert(now.drop_last() =~= before);
            assert(now.last() == s);
            assert(signals@[i as int].valid());
            assert(f.tells(before, u));
            assert(valid_signals(before));
            law_a_told_fit_is_valid(before, u, f);
            lemma_tallied(before, u, s.manager, s.late);
        }
        let g: Fit = learn_one(&f, &s);
        let ghost mid = out@;
        out.set(at, (u, g));
        proof {
            assert(g.side(true, true).figures() == tallied(now, u, true, true));
            assert(g.side(true, false).figures() == tallied(now, u, true, false));
            assert(g.side(false, true).figures() == tallied(now, u, false, true));
            assert(g.side(false, false).figures() == tallied(now, u, false, false));
            assert(g.tells(now, u));
            assert forall|k: int| 0 <= k < out@.len() implies (#[trigger] out@[k]).1.tells(
                now,
                out@[k].0,
            ) && has_event(now, out@[k].0) by {
                if k == at {
                    assert(now[i as int].employee_id == u);
                } else {
                    assert(out@[k] == mid[k] && mid[k] == had[k]);
                    assert(had[k].0 != u) by {
                        if at < had.len() {
                            if k < at {
                                assert(had[k].0 != had[at as int].0);
                            } else {
                                assert(had[at as int].0 != had[k].0);
                            }
                        }
                    }
                    assert(had[k].1.tells(before, had[k].0));
                    let n = choose|n: int|
                        0 <= n < before.len() && (#[trigger] before[n]).employee_id == had[k].0;
                    assert(now[n] == before[n]);
                }
            }
            assert forall|k: int, l: int| 0 <= k < l < out@.len() implies (#[trigger] out@[k]).0
                != (#[trigger] out@[l]).0 by {
                assert(out@[k].0 == mid[k].0 && out@[l].0 == mid[l].0);
                if l < had.len() {
                    assert(had[k].0 != had[l].0);
                }
            }
            assert forall|n: int| 0 <= n < now.len() implies exists|k: int|
                0 <= k < out@.len() && (#[trigger] out@[k]).0 == (
                #[trigger] now[n]).employee_id by {
                if n < i {
                    assert(before[n] == now[n]);
                    let k = choose|k: int|
                        0 <= k < had.len() && (#[trigger] had[k]).0 == before[n].employee_id;
                    assert(out@[k].0 == had[k].0);
                } else {
                    assert(out@[at as int].0 == now[n].employee_id);
                }
            }
        }
        i += 1;
    }
    assert(signals@.take(signals@.len() as int) =~= signals@);
    out
}

/// What is known of one person: their fit's lesson, if they have one.
pub open spec fn lesson_is(fits: Seq<(Id, Fit)>, u: Id, r: Option<Learned>) -> bool {
    match r {
        Some(l) => exists|k: int|
            0 <= k < fits.len() && (#[trigger] fits[k]).0 == u && tells_of(fits[k].1, l),
        None => forall|k: int| 0 <= k < fits.len() ==> (#[trigger] fits[k]).0 != u,
    }
}

/// What was learned of each of the staff.
pub fn lessons(staff: &Vec<RosterPerson>, fits: &Vec<(Id, Fit)>) -> (r: Vec<Option<Learned>>)
    requires
        forall|k: int| 0 <= k < fits@.len() ==> (#[trigger] fits@[k]).1.valid(),
    ensures
        r@.len() == staff@.len(),
        forall|i: int|
            0 <= i < r@.len() ==> lesson_is(
                fits@,
                staff@[i].employee_id,
                #[trigger] r@[i],
            ),
        forall|i: int|
            0 <= i < r@.len() && (#[trigger] r@[i]) is Some ==> -MAX_PART <= r@[i]->0.day_fit
                <= MAX_PART && -MAX_PART <= r@[i]->0.late_fit <= MAX_PART,
{
    let mut out: Vec<Option<Learned>> = Vec::new();
    let mut i: usize = 0;
    while i < staff.len()
        invariant
            i <= staff@.len(),
            out@.len() == i,
            forall|k: int| 0 <= k < fits@.len() ==> (#[trigger] fits@[k]).1.valid(),
            forall|k: int|
                0 <= k < i ==> lesson_is(
                    fits@,
                    staff@[k].employee_id,
                    #[trigger] out@[k],
                ),
            forall|k: int|
                0 <= k < i && (#[trigger] out@[k]) is Some ==> -MAX_PART <= out@[k]->0.day_fit
                    <= MAX_PART && -MAX_PART <= out@[k]->0.late_fit <= MAX_PART,
        decreases staff@.len() - i,
    {
        let x: Option<Learned> = match find_fit(fits, staff[i].employee_id) {
            Some(k) => {
                assert(fits@[k as int].1.valid());
                Some(fits[k].1.learned())
            },
            None => None,
        };
        out.push(x);
        i += 1;
    }
    out
}

/// An event counts once, at its weight, for its own person, side and class, and
/// for nothing else.
pub proof fn law_an_event_counts_once(
    signals: Seq<Signal>,
    s: Signal,
    u: Id,
    manager: bool,
    late: bool,
)
    ensures
        ({
            let (sum, weight, events) = tallied(signals, u, manager, late);
            tallied(signals.push(s), u, manager, late) == if s.employee_id == u && s.manager
                == manager && s.late == late {
                (sum + s.weight * s.value, weight + s.weight, events + 1)
            } else {
                (sum, weight, events)
            }
        }),
        tallied(Seq::empty(), u, manager, late) == (0int, 0int, 0int),
{
    assert(signals.push(s).drop_last() =~= signals);
}

/// One event says little: a side's term is its sum over its weight and one point
/// more, so it never passes the mean of its events and has their sign.
pub proof fn law_one_event_says_little(t: Tally)
    requires
        t.weight >= 0,
    ensures
        t.sum >= 0 ==> t.term() >= 0 && t.term() * (t.weight + 1_000_000_000) <= t.sum < (t.term()
            + 1) * (t.weight + 1_000_000_000),
        t.sum < 0 ==> t.term() <= 0 && (t.term() - 1) * (t.weight + 1_000_000_000) < t.sum
            <= t.term() * (t.weight + 1_000_000_000),
{
    let w = t.weight + 1_000_000_000;
    let n = if t.sum >= 0 {
        t.sum as int
    } else {
        -t.sum
    };
    let q = n / w;
    assert(q >= 0 && q * w <= n < (q + 1) * w) by (nonlinear_arith)
        requires
            n >= 0,
            w >= 1_000_000_000,
            q == n / w,
    ;
    if t.sum < 0 {
        assert((-q - 1) * w == -((q + 1) * w) && (-q) * w == -(q * w)) by (nonlinear_arith);
    }
}

/// How well a class of shift suits somebody is halfway between what managers did
/// and what they did themselves, of that class alone.
pub proof fn law_both_sides_weigh_alike(f: Fit)
    ensures
        ({
            let late = f.manager_late.term() + f.own_late.term();
            let day = f.manager_day.term() + f.own_day.term();
            &&& late >= 0 ==> 2 * f.score_of(true) <= late <= 2 * f.score_of(true) + 1
            &&& late < 0 ==> 2 * f.score_of(true) - 1 <= late <= 2 * f.score_of(true)
            &&& day >= 0 ==> 2 * f.score_of(false) <= day <= 2 * f.score_of(false) + 1
            &&& day < 0 ==> 2 * f.score_of(false) - 1 <= day <= 2 * f.score_of(false)
        }),
{
}

/// Somebody takes late shifts who showed it three times and more for than
/// against; what managers did shows nothing of that.
pub proof fn law_only_they_show_they_take_late_shifts(
    signals: Seq<Signal>,
    u: Id,
    f: Fit,
    r: Learned,
)
    requires
        f.tells(signals, u),
        tells_of(f, r),
    ensures
        r.willing_late <==> tallied(signals, u, false, true).2 >= 3 && tallied(
            signals,
            u,
            false,
            true,
        ).0 > 0,
        r.late_events == tallied(signals, u, false, true).2 + tallied(signals, u, true, true).2,
        r.day_events == tallied(signals, u, false, false).2 + tallied(signals, u, true, false).2,
{
}

/// An event takes the class of the first block with its id; one of a block that
/// is not known is no event.
pub proof fn law_an_event_has_its_blocks_class(
    rows: Seq<EventRow>,
    r: EventRow,
    blocks: Seq<(Id, bool)>,
    i: int,
)
    requires
        0 <= i < blocks.len() ==> blocks[i].0 == r.work_shift_id && forall|j: int|
            0 <= j < i ==> (#[trigger] blocks[j]).0 != r.work_shift_id,
        i >= blocks.len() ==> forall|j: int|
            0 <= j < blocks.len() ==> (#[trigger] blocks[j]).0 != r.work_shift_id,
        i >= 0,
    ensures
        classed(rows.push(r), blocks) == if i < blocks.len() {
            classed(rows, blocks).push(
                Signal {
                    employee_id: r.employee_id,
                    late: blocks[i].1,
                    value: r.value,
                    weight: r.weight,
                    manager: r.manager,
                },
            )
        } else {
            classed(rows, blocks)
        },
{
    assert(rows.push(r).drop_last() =~= rows);
    lemma_first_class(blocks, r.work_shift_id, i);
}

proof fn lemma_first_class(blocks: Seq<(Id, bool)>, id: Id, i: int)
    requires
        i >= 0,
        0 <= i < blocks.len() ==> blocks[i].0 == id && forall|j: int|
            0 <= j < i ==> (#[trigger] blocks[j]).0 != id,
        i >= blocks.len() ==> forall|j: int|
            0 <= j < blocks.len() ==> (#[trigger] blocks[j]).0 != id,
    ensures
        class_of(blocks, id) == if i < blocks.len() {
            Some(blocks[i].1)
        } else {
            None
        },
    decreases blocks.len(),
{
    if blocks.len() > 0 {
        let short = blocks.drop_last();
        assert(forall|j: int| 0 <= j < short.len() ==> #[trigger] short[j] == blocks[j]);
        lemma_first_class(short, id, i);
    }
}

/// What was learned of one class of shift says nothing of the other: without an
/// event of a class its fit is nothing.
pub proof fn law_no_event_no_fit(signals: Seq<Signal>, u: Id, f: Fit, r: Learned, late: bool)
    requires
        f.tells(signals, u),
        tells_of(f, r),
        forall|i: int|
            0 <= i < signals.len() && (#[trigger] signals[i]).employee_id == u ==> signals[i].late
                != late,
    ensures
        late ==> r.late_fit == 0 && r.late_events == 0 && !r.willing_late,
        !late ==> r.day_fit == 0 && r.day_events == 0,
{
    lemma_no_tally(signals, u, true, late);
    lemma_no_tally(signals, u, false, late);
}

proof fn lemma_no_tally(signals: Seq<Signal>, u: Id, manager: bool, late: bool)
    requires
        forall|i: int|
            0 <= i < signals.len() && (#[trigger] signals[i]).employee_id == u ==> signals[i].late
                != late,
    ensures
        tallied(signals, u, manager, late) == (0int, 0int, 0int),
    decreases signals.len(),
{
    if signals.len() > 0 {
        let short = signals.drop_last();
        assert forall|i: int|
            0 <= i < short.len() && (#[trigger] short[i]).employee_id == u implies short[i].late
            != late by {
            assert(signals[i] == short[i]);
        }
        lemma_no_tally(short, u, manager, late);
        assert(signals[signals.len() - 1] == signals.last());
    }
}

} // verus!
