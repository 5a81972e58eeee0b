//! Roster suggestions and their guardrails.
//!
//! Fill, find gaps, score, propose:
//! - Gaps against the branch's coverage need: the hours it needs people, else
//!   the headcount the standing pattern intends.
//! - Candidates are scored: coverage decides which slot; then preferences, the
//!   small gender default, what was learned, reliability, a fair spread of late
//!   shifts over four weeks and continuity. Labour limits are never broken;
//!   overtime is not a target.
//! - A greedy fill, then a bounded local search (reassign and swap moves under
//!   a budget).
//!
//! A day-scoped block is offered only on its days, at that day's times. A
//! person may take a second shift on a day (a split day) only with a two-hour
//! gap and within the labour limits.
//!
//! Scores are counted in billionths.

pub mod fairness;
pub mod hourly;
pub mod loaded;
pub mod loading;
pub mod offers;
pub mod proposing;
pub mod scores;
pub mod search;

use vstd::prelude::*;

use crate::calendar::{
    day_chars, day_of_week, day_text, id_chars, id_text, local_instant, local_moment, valid_day,
    Day, Id, MAX_DAY, MIN_DAY, NANOS_PER_MINUTE,
};
use crate::dawam::engine::{
    fits, held_spans, no_new_break, Limits, Span,
};
use crate::dawam::roster::{has_day, RosterPerson, WorkShiftBrief};
use crate::dawam::suggest::search::{lemma_taken_holds, sound};
use crate::text::{has_text, holds_text, is_text, join3, same_text, text_is};

verus! {

/// A score, in billionths.
pub type Score = i128;

/// One point.
pub const POINT: Score = 1_000_000_000;

/// A second shift on one day needs this much of a gap.
pub const SPLIT_GAP_MINUTES: i64 = 120;

/// The most any one part of a score may come to.
pub const MAX_PART: Score = 100_000_000_000_000_000_000_000_000_000_000_000;

/// More than any machine's memory holds of things of eight bytes or more.
pub const IN_MEMORY: u64 = 1_152_921_504_606_846_976;

/// The most a score comes to: room for twenty-five times it.
pub const MAX_SCORE: Score = 1_000_000_000_000_000_000_000_000_000_000_000_000;

/// A slot: a block on a date, with its span that day.
#[derive(Clone, Copy, Debug)]
pub struct Slot {
    pub date: Day,
    pub shift: usize,
    pub span: Span,
}

/// What was learned of one person, per class of shift.
#[derive(Clone, Copy, Debug)]
pub struct Learned {
    /// They have shown they take late shifts.
    pub willing_late: bool,
    pub day_events: u32,
    pub late_events: u32,
    pub day_fit: Score,
    pub late_fit: Score,
}

/// One person's attendance over eight weeks, for one class of shift.
#[derive(Clone, Copy, Debug)]
pub struct Turnout {
    pub shifts: u32,
    pub absent: u32,
    pub late: u32,
}

/// One person's attendance, per class of shift.
#[derive(Clone, Copy, Debug)]
pub struct Reliability {
    pub day: Turnout,
    pub night: Turnout,
}

/// Somebody on a block on a date.
#[derive(Clone, Copy, Debug, PartialEq, Eq, Structural)]
pub struct Placed {
    pub date: Day,
    pub shift: usize,
    pub person: Id,
}

/// People needed at an hour of a date, of one department or of any.
#[derive(Clone, Copy, Debug, PartialEq, Eq, Structural)]
pub struct Need {
    pub date: Day,
    pub hour: i32,
    pub department: Option<Id>,
    pub staff: i32,
}

/// People the standing pattern intends on a block on a date.
#[derive(Clone, Copy, Debug, PartialEq, Eq, Structural)]
pub struct PatternNeed {
    pub date: Day,
    pub shift: usize,
    pub staff: i64,
}

/// Everything the solver needs.
pub struct Problem {
    pub week: Day,
    /// The branch's time zone.
    pub zone: String,
    pub staff: Vec<RosterPerson>,
    pub shifts: Vec<WorkShiftBrief>,
    /// Which of the blocks is late or night.
    pub late: Vec<bool>,
    pub limits: Limits,
    /// `off` · `soft` · `hard`
    pub gender_mode: String,
    /// What the gender default weighs.
    pub gender_default: Score,
    /// Existing assignments this week and a day either side, of every branch.
    pub spans: Vec<(Id, Span)>,
    /// Who is on what at this branch.
    pub by_day: Vec<Placed>,
    /// Headcount the pattern intends.
    pub pattern_need: Vec<PatternNeed>,
    /// Hourly need; empty = use the pattern.
    pub need: Vec<Need>,
    pub leave: Vec<(Id, Day)>,
    /// What was learned of each of the staff.
    pub learned: Vec<Option<Learned>>,
    /// Learning is paused at this branch.
    pub frozen: bool,
    /// The attendance of each of the staff.
    pub reliability: Vec<Reliability>,
    /// Late shifts each of the staff was rostered on over the 4 weeks before.
    pub late_history: Vec<u32>,
    /// Who was on which block in the 4 weeks before: their usual shifts.
    pub usual: Vec<(Id, usize)>,
    /// The suggestions already decided.
    pub decided: Vec<String>,
}

/// Why somebody is proposed.
#[derive(Clone, Copy, Debug, PartialEq, Eq, Structural)]
pub enum Reason {
    /// The block is short of what the pattern intends.
    Gap { short: i64 },
    /// An hour is short of what it needs.
    Coverage { hour: i32, short: i64 },
    /// Somebody is rostered on a day they can't work.
    CantWork { person: usize },
}

/// What the solver proposes.
#[derive(Clone, Copy, Debug)]
pub struct Proposal {
    pub slot: Slot,
    pub person: usize,
    /// For a reassignment: who it takes the shift from.
    pub from: Option<Id>,
    /// The department whose need it meets, where it is one's: only its people
    /// count.
    pub department: Option<Id>,
    pub reason: Reason,
    pub score: Score,
    pub by_default: bool,
    pub runner_up: Option<Score>,
}

/// A candidate's score for a slot and what the gender default adds to it.
#[derive(Clone, Copy, Debug)]
pub struct Pick {
    pub person: usize,
    pub score: Score,
    pub default: Score,
}

impl Problem {
    /// A week the calendar holds, with one fact per person and per block, every
    /// figure within bounds and nobody on the staff twice.
    pub open spec fn valid(self) -> bool {
        &&& MIN_DAY + 40 <= self.week <= MAX_DAY - 40
        &&& self.shifts@.len() <= IN_MEMORY
        &&& self.late@.len() == self.shifts@.len()
        &&& self.learned@.len() == self.staff@.len()
        &&& self.reliability@.len() == self.staff@.len()
        &&& self.late_history@.len() == self.staff@.len()
        &&& 0 <= self.gender_default <= MAX_PART
        &&& forall|i: int| 0 <= i < self.shifts@.len() ==> (#[trigger] self.shifts@[i]).valid()
        &&& forall|i: int| 0 <= i < self.spans@.len() ==> (#[trigger] self.spans@[i]).1.valid()
        &&& forall|i: int|
            0 <= i < self.by_day@.len() ==> (#[trigger] self.by_day@[i]).shift < self.shifts@.len()
        &&& forall|i: int|
            0 <= i < self.need@.len() ==> self.in_reach((#[trigger] self.need@[i]).date) && 0
                <= self.need@[i].hour < 24
        &&& forall|i: int|
            0 <= i < self.learned@.len() && (#[trigger] self.learned@[i]) is Some ==> -MAX_PART
                <= self.learned@[i]->0.day_fit <= MAX_PART && -MAX_PART
                <= self.learned@[i]->0.late_fit <= MAX_PART
        &&& forall|i: int, j: int|
            0 <= i < j < self.staff@.len() ==> (#[trigger] self.staff@[i]).employee_id != (
            #[trigger] self.staff@[j]).employee_id
    }

    /// A date close to the week.
    pub open spec fn in_reach(self, d: Day) -> bool {
        self.week - 20 <= d <= self.week + 20
    }

    /// A date whose blocks can be placed.
    pub open spec fn near(self, d: Day) -> bool {
        self.week - 30 <= d <= self.week + 30
    }

    /// The id of one of the staff.
    pub open spec fn id_of(self, i: int) -> Id {
        self.staff@[i].employee_id
    }

    /// The span of a block on a date, where it runs and the clock shows its
    /// times.
    pub open spec fn slot_at(self, d: Day, w: int) -> Option<Slot> {
        let (start, end) = self.shifts@[w].times(d);
        let last = if end <= start {
            (d + 1) as Day
        } else {
            d
        };
        let from = local_instant(self.zone@, d, start);
        let to = local_instant(self.zone@, last, end);
        if self.shifts@[w].runs_on(d) && from is Some && to is Some {
            Some(
                Slot { date: d, shift: w as usize, span: Span { date: d, start: from->0, end: to->0 } },
            )
        } else {
            None
        }
    }

    /// A block on a date, with its span that day.
    pub fn slot(&self, d: Day, w: usize) -> (r: Option<Slot>)
        requires
            self.valid(),
            self.near(d),
            w < self.shifts@.len(),
        ensures
            r == self.slot_at(d, w as int),
            r is Some ==> r->0.span.valid() && r->0.date == d && r->0.shift == w,
    {
        let b: &WorkShiftBrief = &self.shifts[w];
        assert(self.shifts@[w as int].valid());
        if !b.valid_on(d) {
            return None;
        }
        let (start, end) = b.times_on(d);
        let last: Day = if end <= start {
            d + 1
        } else {
            d
        };
        match (
            local_moment(self.zone.as_str(), d, start),
            local_moment(self.zone.as_str(), last, end),
        ) {
            (Some(from), Some(to)) => Some(
                Slot { date: d, shift: w, span: Span { date: d, start: from, end: to } },
            ),
            _ => None,
        }
    }

    /// What a suggestion is called: `add|date|block|person`, or
    /// `move|date|block|from|person`.
    pub open spec fn offer_id(self, slot: Slot, from: Option<Id>, p: Id) -> Seq<char> {
        let block = self.shifts@[slot.shift as int].id;
        match from {
            Some(f) => "move|"@ + day_chars(slot.date) + "|"@ + id_chars(block) + "|"@ + id_chars(f)
                + "|"@ + id_chars(p),
            None => "add|"@ + day_chars(slot.date) + "|"@ + id_chars(block) + "|"@ + id_chars(p),
        }
    }

    /// What adding somebody is called.
    pub fn id_add(&self, slot: &Slot, p: Id) -> (r: String)
        requires
            slot.shift < self.shifts@.len(),
            valid_day(slot.date),
        ensures
            r@ == self.offer_id(*slot, None, p),
    {
        let mut out: String = join3("add|", day_text(slot.date).as_str(), "|");
        out.push_str(id_text(self.shifts[slot.shift].id).as_str());
        out.push_str("|");
        out.push_str(id_text(p).as_str());
        out
    }

    /// What moving somebody is called.
    pub fn id_move(&self, slot: &Slot, from: Id, p: Id) -> (r: String)
        requires
            slot.shift < self.shifts@.len(),
            valid_day(slot.date),
        ensures
            r@ == self.offer_id(*slot, Some(from), p),
    {
        let mut out: String = join3("move|", day_text(slot.date).as_str(), "|");
        out.push_str(id_text(self.shifts[slot.shift].id).as_str());
        out.push_str("|");
        out.push_str(id_text(from).as_str());
        out.push_str("|");
        out.push_str(id_text(p).as_str());
        out
    }

    /// What a suggestion is called.
    pub(crate) fn offer(&self, slot: &Slot, from: Option<Id>, p: Id) -> (r: String)
        requires
            slot.shift < self.shifts@.len(),
            valid_day(slot.date),
        ensures
            r@ == self.offer_id(*slot, from, p),
    {
        match from {
            Some(f) => self.id_move(slot, f, p),
            None => self.id_add(slot, p),
        }
    }

    /// The dates of the week.
    pub fn dates(&self) -> (r: Vec<Day>)
        requires
            self.valid(),
        ensures
            r@ == Seq::new(7, |i: int| (self.week + i) as Day),
    {
        let r: Vec<Day> = vec![
            self.week,
            self.week + 1,
            self.week + 2,
            self.week + 3,
            self.week + 4,
            self.week + 5,
            self.week + 6,
        ];
        assert(r@ =~= Seq::new(7, |i: int| (self.week + i) as Day));
        r
    }
}

// ── who is where ────────────────────────────────────────────────────────────

/// One person's spans on a list of everybody's.
pub open spec fn spans_of(list: Seq<(Id, Span)>, u: Id) -> Seq<Span>
    decreases list.len(),
{
    if list.len() == 0 {
        Seq::empty()
    } else {
        let before = spans_of(list.drop_last(), u);
        if list.last().0 == u {
            before.push(list.last().1)
        } else {
            before
        }
    }
}

/// The spans a list of proposals gives one person.
pub open spec fn proposed_spans(p: Problem, props: Seq<Proposal>, u: Id) -> Seq<Span>
    decreases props.len(),
{
    if props.len() == 0 {
        Seq::empty()
    } else {
        let before = proposed_spans(p, props.drop_last(), u);
        if p.id_of(props.last().person as int) == u {
            before.push(props.last().slot.span)
        } else {
            before
        }
    }
}

/// Everything one person is on, with the proposals.
pub open spec fn all_spans(p: Problem, props: Seq<Proposal>, u: Id) -> Seq<Span> {
    spans_of(p.spans@, u) + proposed_spans(p, props, u)
}

/// Who is on a block on a date, before the proposals.
pub open spec fn rostered_on(list: Seq<Placed>, d: Day, w: int) -> Seq<Id>
    decreases list.len(),
{
    if list.len() == 0 {
        Seq::empty()
    } else {
        let before = rostered_on(list.drop_last(), d, w);
        if list.last().date == d && list.last().shift == w {
            before.push(list.last().person)
        } else {
            before
        }
    }
}

/// Whom a list of proposals puts on a block on a date.
pub open spec fn proposed_on(p: Problem, props: Seq<Proposal>, d: Day, w: int) -> Seq<Id>
    decreases props.len(),
{
    if props.len() == 0 {
        Seq::empty()
    } else {
        let before = proposed_on(p, props.drop_last(), d, w);
        let x = props.last();
        if x.slot.date == d && x.slot.shift == w {
            before.push(p.id_of(x.person as int))
        } else {
            before
        }
    }
}

/// Who is on a block on a date, with the proposals.
pub open spec fn people_on(p: Problem, props: Seq<Proposal>, d: Day, w: int) -> Seq<Id> {
    rostered_on(p.by_day@, d, w) + proposed_on(p, props, d, w)
}

/// The people on late blocks, one entry for each.
pub open spec fn rostered_late(p: Problem, list: Seq<Placed>) -> Seq<Id>
    decreases list.len(),
{
    if list.len() == 0 {
        Seq::empty()
    } else {
        let before = rostered_late(p, list.drop_last());
        if p.late@[list.last().shift as int] {
            before.push(list.last().person)
        } else {
            before
        }
    }
}

/// The people a list of proposals puts on late blocks, one entry for each.
pub open spec fn proposed_late(p: Problem, props: Seq<Proposal>) -> Seq<Id>
    decreases props.len(),
{
    if props.len() == 0 {
        Seq::empty()
    } else {
        let before = proposed_late(p, props.drop_last());
        if p.late@[props.last().slot.shift as int] {
            before.push(p.id_of(props.last().person as int))
        } else {
            before
        }
    }
}

/// Everybody on late blocks, with the proposals, one entry for each.
pub open spec fn on_late(p: Problem, props: Seq<Proposal>) -> Seq<Id> {
    rostered_late(p, p.by_day@) + proposed_late(p, props)
}

/// How many times a list holds an id.
pub open spec fn times_in(list: Seq<Id>, u: Id) -> int
    decreases list.len(),
{
    if list.len() == 0 {
        0
    } else {
        times_in(list.drop_last(), u) + if list.last() == u {
            1int
        } else {
            0
        }
    }
}

/// Somebody is on a block, on some date.
pub open spec fn is_on_block(p: Problem, props: Seq<Proposal>, u: Id, w: int) -> bool {
    ||| exists|i: int|
        0 <= i < p.by_day@.len() && (#[trigger] p.by_day@[i]).person == u && p.by_day@[i].shift == w
    ||| exists|i: int|
        0 <= i < props.len() && p.id_of((#[trigger] props[i]).person as int) == u
            && props[i].slot.shift == w
}

/// Two spans of one person that cannot both be: they overlap, or they fall on
/// one date with less than the gap of a split day between them.
pub open spec fn clash(a: Span, b: Span) -> bool {
    let gap = SPLIT_GAP_MINUTES * NANOS_PER_MINUTE;
    ||| a.start < b.end && b.start < a.end
    ||| a.date == b.date && a.start < b.end + gap && b.start < a.end + gap
}

/// A span clashes with one of a list.
pub open spec fn clashes(list: Seq<Span>, s: Span) -> bool {
    exists|i: int| 0 <= i < list.len() && clash(#[trigger] list[i], s)
}

/// A list has a span on a date.
pub open spec fn has_span_on(list: Seq<Span>, d: Day) -> bool {
    exists|i: int| 0 <= i < list.len() && (#[trigger] list[i]).date == d
}

/// A proposal for one of the staff and one of the blocks of the problem, at a
/// score that leaves room to add.
pub open spec fn knows(p: Problem, x: Proposal) -> bool {
    &&& x.person < p.staff@.len()
    &&& x.slot.shift < p.shifts@.len()
    &&& x.slot.span.valid()
    &&& valid_day(x.slot.date)
    &&& -MAX_SCORE <= x.score
        <= MAX_SCORE
}

/// Proposals for the staff and the blocks of the problem.
pub open spec fn known(p: Problem, props: Seq<Proposal>) -> bool {
    forall|i: int| 0 <= i < props.len() ==> knows(p, #[trigger] props[i])
}

/// One more known proposal leaves a list known.
pub proof fn lemma_known_push(p: Problem, props: Seq<Proposal>, x: Proposal)
    requires
        known(p, props),
        knows(p, x),
    ensures
        known(p, props.push(x)),
{
    assert forall|i: int| 0 <= i < props.push(x).len() implies knows(
        p,
        #[trigger] props.push(x)[i],
    ) by {
        if i < props.len() {
            assert(knows(p, props[i]));
        }
    }
}

proof fn lemma_spans_of_valid(list: Seq<(Id, Span)>, u: Id)
    requires
        forall|i: int| 0 <= i < list.len() ==> (#[trigger] list[i]).1.valid(),
    ensures
        held_spans(spans_of(list, u)),
    decreases list.len(),
{
    if list.len() > 0 {
        assert forall|i: int| 0 <= i < list.drop_last().len() implies (
        #[trigger] list.drop_last()[i]).1.valid() by {
            assert(list[i].1.valid());
        }
        lemma_spans_of_valid(list.drop_last(), u);
        assert(list[list.len() - 1].1.valid());
    }
}

impl Problem {
    /// Everything one person is on, with the proposals.
    pub(crate) fn list_spans(&self, props: &Vec<Proposal>, u: Id) -> (r: Vec<Span>)
        requires
            self.valid(),
            known(*self, props@),
        ensures
            r@ == all_spans(*self, props@, u),
            held_spans(r@),
    {
        let mut out: Vec<Span> = Vec::new();
        let mut i: usize = 0;
        while i < self.spans.len()
            invariant
                i <= self.spans@.len(),
                out@ == spans_of(self.spans@.take(i as int), u),
            decreases self.spans@.len() - i,
        {
            assert(self.spans@.take(i + 1).drop_last() =~= self.spans@.take(i as int));
            if self.spans[i].0 == u {
                out.push(self.spans[i].1);
            }
            i += 1;
        }
        assert(self.spans@.take(self.spans@.len() as int) =~= self.spans@);
        let ghost base = spans_of(self.spans@, u);
        proof {
            lemma_spans_of_valid(self.spans@, u);
        }
        let mut k: usize = 0;
        assert(out@ =~= base + proposed_spans(*self, props@.take(0), u));
        while k < props.len()
            invariant
                k <= props@.len(),
                self.valid(),
                known(*self, props@),
                out@ == base + proposed_spans(*self, props@.take(k as int), u),
                held_spans(out@),
            decreases props@.len() - k,
        {
            assert(props@.take(k + 1).drop_last() =~= props@.take(k as int));
            let x: &Proposal = &props[k];
            assert(knows(*self, props@[k as int]));
            if self.staff[x.person].employee_id == u {
                out.push(x.slot.span);
                assert(out@ =~= base + proposed_spans(*self, props@.take(k + 1), u));
            }
            k += 1;
        }
        assert(props@.take(props@.len() as int) =~= props@);
        out
    }

    /// Who is on a block on a date, with the proposals.
    pub(crate) fn list_people(&self, props: &Vec<Proposal>, d: Day, w: usize) -> (r: Vec<Id>)
        requires
            self.valid(),
            known(*self, props@),
        ensures
            r@ == people_on(*self, props@, d, w as int),
    {
        let mut out: Vec<Id> = Vec::new();
        let mut i: usize = 0;
        while i < self.by_day.len()
            invariant
                i <= self.by_day@.len(),
                out@ == rostered_on(self.by_day@.take(i as int), d, w as int),
            decreases self.by_day@.len() - i,
        {
            assert(self.by_day@.take(i + 1).drop_last() =~= self.by_day@.take(i as int));
            if self.by_day[i].date == d && self.by_day[i].shift == w {
                out.push(self.by_day[i].person);
            }
            i += 1;
        }
        assert(self.by_day@.take(self.by_day@.len() as int) =~= self.by_day@);
        let ghost base = out@;
        let mut k: usize = 0;
        assert(out@ =~= base + proposed_on(*self, props@.take(0), d, w as int));
        while k < props.len()
            invariant
                k <= props@.len(),
                known(*self, props@),
                out@ == base + proposed_on(*self, props@.take(k as int), d, w as int),
            decreases props@.len() - k,
        {
            assert(props@.take(k + 1).drop_last() =~= props@.take(k as int));
            let x: &Proposal = &props[k];
            if x.slot.date == d && x.slot.shift == w {
                out.push(self.staff[x.person].employee_id);
                assert(out@ =~= base + proposed_on(*self, props@.take(k + 1), d, w as int));
            }
            k += 1;
        }
        assert(props@.take(props@.len() as int) =~= props@);
        out
    }

    /// Everybody on late blocks, with the proposals, one entry for each.
    pub(crate) fn list_late(&self, props: &Vec<Proposal>) -> (r: Vec<Id>)
        requires
            self.valid(),
            known(*self, props@),
        ensures
            r@ == on_late(*self, props@),
    {
        let mut out: Vec<Id> = Vec::new();
        let mut i: usize = 0;
        while i < self.by_day.len()
            invariant
                i <= self.by_day@.len(),
                self.valid(),
                out@ == rostered_late(*self, self.by_day@.take(i as int)),
            decreases self.by_day@.len() - i,
        {
            assert(self.by_day@.take(i + 1).drop_last() =~= self.by_day@.take(i as int));
            assert(self.by_day@[i as int].shift < self.shifts@.len());
            if self.late[self.by_day[i].shift] {
                out.push(self.by_day[i].person);
            }
            i += 1;
        }
        assert(self.by_day@.take(self.by_day@.len() as int) =~= self.by_day@);
        let ghost base = out@;
        let mut k: usize = 0;
        assert(out@ =~= base + proposed_late(*self, props@.take(0)));
        while k < props.len()
            invariant
                k <= props@.len(),
                self.valid(),
                known(*self, props@),
                out@ == base + proposed_late(*self, props@.take(k as int)),
            decreases props@.len() - k,
        {
            assert(props@.take(k + 1).drop_last() =~= props@.take(k as int));
            let x: &Proposal = &props[k];
            if self.late[x.slot.shift] {
                out.push(self.staff[x.person].employee_id);
                assert(out@ =~= base + proposed_late(*self, props@.take(k + 1)));
            }
            k += 1;
        }
        assert(props@.take(props@.len() as int) =~= props@);
        out
    }

    /// Whether somebody is on a block, on some date.
    pub(crate) fn on_block(&self, props: &Vec<Proposal>, u: Id, w: usize) -> (r: bool)
        requires
            self.valid(),
            known(*self, props@),
        ensures
            r == is_on_block(*self, props@, u, w as int),
    {
        let mut i: usize = 0;
        while i < self.by_day.len()
            invariant
                i <= self.by_day@.len(),
                forall|k: int|
                    0 <= k < i ==> !((#[trigger] self.by_day@[k]).person == u
                        && self.by_day@[k].shift == w),
            decreases self.by_day@.len() - i,
        {
            if self.by_day[i].person == u && self.by_day[i].shift == w {
                return true;
            }
            i += 1;
        }
        let mut k: usize = 0;
        while k < props.len()
            invariant
                k <= props@.len(),
                known(*self, props@),
                forall|j: int|
                    0 <= j < self.by_day@.len() ==> !((#[trigger] self.by_day@[j]).person == u
                        && self.by_day@[j].shift == w),
                forall|j: int|
                    0 <= j < k ==> !(self.id_of((#[trigger] props@[j]).person as int) == u
                        && props@[j].slot.shift == w),
            decreases props@.len() - k,
        {
            let x: &Proposal = &props[k];
            if self.staff[x.person].employee_id == u && x.slot.shift == w {
                return true;
            }
            k += 1;
        }
        false
    }
}

/// How many times a list holds an id.
pub(crate) fn count_in(list: &Vec<Id>, u: Id) -> (r: usize)
    ensures
        r == times_in(list@, u),
{
    let mut n: usize = 0;
    let mut i: usize = 0;
    while i < list.len()
        invariant
            i <= list@.len(),
            n <= i,
            n == times_in(list@.take(i as int), u),
        decreases list@.len() - i,
    {
        assert(list@.take(i + 1).drop_last() =~= list@.take(i as int));
        if list[i] == u {
            n += 1;
        }
        i += 1;
    }
    assert(list@.take(list@.len() as int) =~= list@);
    n
}

/// Whether a list holds an id.
pub(crate) fn has_id(list: &Vec<Id>, u: Id) -> (r: bool)
    ensures
        r == list@.contains(u),
{
    let mut i: usize = 0;
    while i < list.len()
        invariant
            i <= list@.len(),
            forall|k: int| 0 <= k < i ==> list@[k] != u,
        decreases list@.len() - i,
    {
        if list[i] == u {
            return true;
        }
        i += 1;
    }
    false
}

/// Whether a span clashes with one of a list.
fn any_clash(list: &Vec<Span>, s: Span) -> (r: bool)
    requires
        held_spans(list@),
        s.valid(),
    ensures
        r == clashes(list@, s),
{
    let gap: i128 = SPLIT_GAP_MINUTES as i128 * NANOS_PER_MINUTE;
    let mut i: usize = 0;
    while i < list.len()
        invariant
            i <= list@.len(),
            gap == SPLIT_GAP_MINUTES * NANOS_PER_MINUTE,
            held_spans(list@),
            s.valid(),
            forall|k: int| 0 <= k < i ==> !clash(#[trigger] list@[k], s),
        decreases list@.len() - i,
    {
        let x: Span = list[i];
        assert(list@[i as int].valid());
        let overlap: bool = x.start < s.end && s.start < x.end;
        let near: bool = x.date == s.date && x.start < s.end + gap && s.start < x.end + gap;
        if overlap || near {
            assert(clash(list@[i as int], s));
            return true;
        }
        i += 1;
    }
    false
}

/// Whether a list has a span on a date.
fn any_on(list: &Vec<Span>, d: Day) -> (r: bool)
    ensures
        r == has_span_on(list@, d),
{
    let mut i: usize = 0;
    while i < list.len()
        invariant
            i <= list@.len(),
            forall|k: int| 0 <= k < i ==> (#[trigger] list@[k]).date != d,
        decreases list@.len() - i,
    {
        if list[i].date == d {
            return true;
        }
        i += 1;
    }
    false
}

// ── candidates ──────────────────────────────────────────────────────────────

impl Problem {
    /// What was learned of one of the staff, unless learning is paused.
    pub open spec fn lesson(self, i: int) -> Option<Learned> {
        if self.frozen {
            None
        } else {
            self.learned@[i]
        }
    }

    /// Under the hard mode late shifts go only to women who said or showed they
    /// want them.
    pub open spec fn held_back(self, slot: Slot, i: int) -> bool {
        &&& self.late@[slot.shift as int]
        &&& self.gender_mode@ == "hard"@
        &&& is_text(self.staff@[i].gender, "f"@)
        &&& !is_text(self.staff@[i].pref_time, "evening"@)
        &&& !(self.lesson(i) is Some && self.lesson(i)->0.willing_late)
    }

    /// Nothing that does not move keeps one of the staff from a slot: they can
    /// work the day, are not on leave, were not offered it and decided on
    /// before, and the hard mode does not hold them back.
    pub open spec fn open_to(self, slot: Slot, from: Option<Id>, i: int) -> bool {
        let who = self.staff@[i];
        &&& !who.cant_work_days@.contains((slot.date as int % 7) as i16)
        &&& !self.leave@.contains((who.employee_id, slot.date))
        &&& !holds_text(self.decided@, self.offer_id(slot, from, who.employee_id))
        &&& !self.held_back(slot, i)
    }

    /// One of the staff may take a slot beside the proposals: it is open to
    /// them, they are of the department asked for, not on it already, nothing
    /// of theirs clashes with it, and it breaks no labour limit they keep.
    pub open spec fn may_take(
        self,
        props: Seq<Proposal>,
        slot: Slot,
        dept: Option<Id>,
        from: Option<Id>,
        i: int,
    ) -> bool {
        let u = self.id_of(i);
        let spans = all_spans(self, props, u);
        &&& self.open_to(slot, from, i)
        &&& dept is None || self.staff@[i].department_id == dept
        &&& !people_on(self, props, slot.date, slot.shift as int).contains(u)
        &&& !clashes(spans, slot.span)
        &&& no_new_break(spans, slot.span, self.limits)
    }

    /// A stated preference weighs a point for or against.
    pub open spec fn pref_part(self, slot: Slot, i: int) -> int {
        let late = self.late@[slot.shift as int];
        let pref = self.staff@[i].pref_time;
        if is_text(pref, "morning"@) {
            if late {
                -POINT as int
            } else {
                POINT as int
            }
        } else if is_text(pref, "evening"@) {
            if late {
                POINT as int
            } else {
                -POINT as int
            }
        } else {
            0
        }
    }

    /// The gender default: for a late shift, to a man who stated nothing and of
    /// whom little was learned, unless it is off.
    pub open spec fn default_part(self, slot: Slot, i: int) -> int {
        let who = self.staff@[i];
        let events = match self.lesson(i) {
            Some(l) => if self.late@[slot.shift as int] {
                l.late_events
            } else {
                l.day_events
            },
            None => 0,
        };
        if self.late@[slot.shift as int] && self.gender_mode@ != "off"@ && !is_text(
            who.pref_time,
            "morning"@,
        ) && !is_text(who.pref_time, "evening"@) && events < 3 && is_text(who.gender, "m"@) {
            self.gender_default as int
        } else {
            0
        }
    }

    /// What was learned of the person for that class of shift.
    pub open spec fn fit_part(self, slot: Slot, i: int) -> int {
        match self.lesson(i) {
            Some(l) => if self.late@[slot.shift as int] {
                l.late_fit as int
            } else {
                l.day_fit as int
            },
            None => 0,
        }
    }

    /// Half the absence rate and a quarter of the lateness rate count against;
    /// both are shrunk toward nothing (two misses in two shifts is not all).
    pub open spec fn turnout_part(self, slot: Slot, i: int) -> int {
        let t = if self.late@[slot.shift as int] {
            self.reliability@[i].night
        } else {
            self.reliability@[i].day
        };
        -(((2 * t.absent + t.late) * POINT) / (4 * (t.shifts + 2)))
    }

    /// Fair spread: this week's late shifts, plus the last four weeks' at a
    /// quarter weight.
    pub open spec fn spread_part(self, props: Seq<Proposal>, slot: Slot, i: int) -> int {
        if self.late@[slot.shift as int] {
            -(100_000_000 * times_in(on_late(self, props), self.id_of(i)) + 25_000_000
                * self.late_history@[i])
        } else {
            0
        }
    }

    /// A block they are on or used to be on.
    pub open spec fn habit_part(self, props: Seq<Proposal>, slot: Slot, i: int) -> int {
        if is_on_block(self, props, self.id_of(i), slot.shift as int) || self.usual@.contains(
            (self.id_of(i), slot.shift),
        ) {
            100_000_000
        } else {
            0
        }
    }

    /// A second shift that day.
    pub open spec fn second_part(self, props: Seq<Proposal>, slot: Slot, i: int) -> int {
        if has_span_on(all_spans(self, props, self.id_of(i)), slot.date) {
            -300_000_000
        } else {
            0
        }
    }

    /// What one of the staff scores for a slot.
    pub open spec fn score_of(self, props: Seq<Proposal>, slot: Slot, i: int) -> int {
        self.pref_part(slot, i) + self.default_part(slot, i) + self.fit_part(slot, i)
            + self.turnout_part(slot, i) + self.spread_part(props, slot, i) + self.habit_part(
            props,
            slot,
            i,
        ) + self.second_part(props, slot, i)
    }

    /// One of the staff as a candidate for a slot.
    pub open spec fn pick_of(self, props: Seq<Proposal>, slot: Slot, i: int) -> Pick {
        Pick {
            person: i as usize,
            score: self.score_of(props, slot, i) as Score,
            default: self.default_part(slot, i) as Score,
        }
    }
}

/// A candidate whose score leaves room to add and compare.
pub open spec fn bounded(x: Pick) -> bool {
    &&& 0 <= x.default <= MAX_PART
    &&& -MAX_SCORE <= x.score
        <= MAX_SCORE
}

/// Candidates best first with one more, after those who score no less.
pub open spec fn with_pick(list: Seq<Pick>, x: Pick) -> Seq<Pick>
    decreases list.len(),
{
    if list.len() == 0 || list.last().score >= x.score {
        list.push(x)
    } else {
        with_pick(list.drop_last(), x).push(list.last())
    }
}

impl Problem {
    /// The candidates among the first `n` of the staff, best score first, those
    /// who score alike in the staff's order.
    pub open spec fn picks(
        self,
        props: Seq<Proposal>,
        slot: Slot,
        dept: Option<Id>,
        from: Option<Id>,
        n: int,
    ) -> Seq<Pick>
        decreases n,
    {
        if n <= 0 {
            Seq::empty()
        } else {
            let before = self.picks(props, slot, dept, from, n - 1);
            if self.may_take(props, slot, dept, from, n - 1) {
                with_pick(before, self.pick_of(props, slot, n - 1))
            } else {
                before
            }
        }
    }

    /// Whether one of the staff may take a slot: what they are on, if they may.
    fn may(
        &self,
        props: &Vec<Proposal>,
        slot: &Slot,
        dept: Option<Id>,
        from: Option<Id>,
        i: usize,
        people: &Vec<Id>,
    ) -> (r: Option<Vec<Span>>)
        requires
            self.valid(),
            known(*self, props@),
            i < self.staff@.len(),
            slot.shift < self.shifts@.len(),
            slot.span.valid(),
            valid_day(slot.date),
            people@ == people_on(*self, props@, slot.date, slot.shift as int),
        ensures
            r is Some <==> self.may_take(props@, *slot, dept, from, i as int),
            r is Some ==> r->0@ == all_spans(*self, props@, self.id_of(i as int)),
    {
        let who: &RosterPerson = &self.staff[i];
        let u: Id = who.employee_id;
        let late: bool = self.late[slot.shift];
        if has_day(&who.cant_work_days, day_of_week(slot.date) as i16) {
            return None;
        }
        if has_leave(&self.leave, u, slot.date) {
            return None;
        }
        if let Some(x) = dept {
            let same: bool = match who.department_id {
                Some(y) => x == y,
                None => false,
            };
            if !same {
                return None;
            }
        }
        if has_text(&self.decided, self.offer(slot, from, u).as_str()) {
            return None;
        }
        if has_id(people, u) {
            return None;
        }
        let spans: Vec<Span> = self.list_spans(props, u);
        if any_clash(&spans, slot.span) {
            return None;
        }
        let willing: bool = if self.frozen {
            false
        } else {
            match self.learned[i] {
                Some(l) => l.willing_late,
                None => false,
            }
        };
        if late && same_text(self.gender_mode.as_str(), "hard") && text_is(&who.gender, "f")
            && !text_is(&who.pref_time, "evening") && !willing {
            return None;
        }
        if !fits(spans.as_slice(), slot.span, &self.limits) {
            return None;
        }
        Some(spans)
    }

    /// What one of the staff scores for a slot, whatever else is proposed: their
    /// preference, the gender default, what was learned and their attendance.
    fn own_score(&self, slot: &Slot, i: usize) -> (r: (Score, Score))
        requires
            self.valid(),
            i < self.staff@.len(),
            slot.shift < self.shifts@.len(),
        ensures
            r.0 == self.pref_part(*slot, i as int) + self.default_part(*slot, i as int)
                + self.fit_part(*slot, i as int) + self.turnout_part(*slot, i as int),
            r.1 == self.default_part(*slot, i as int),
            0 <= r.1 <= MAX_PART,
            -MAX_SCORE <= r.0 <= MAX_SCORE,
    {
        let who: &RosterPerson = &self.staff[i];
        let late: bool = self.late[slot.shift];
        let lesson: Option<Learned> = if self.frozen {
            None
        } else {
            self.learned[i]
        };
        let evening: bool = text_is(&who.pref_time, "evening");
        let morning: bool = text_is(&who.pref_time, "morning");
        let pref: Score = if morning {
            if late {
                -POINT
            } else {
                POINT
            }
        } else if evening {
            if late {
                POINT
            } else {
                -POINT
            }
        } else {
            0
        };
        let events: u32 = match lesson {
            Some(l) => if late {
                l.late_events
            } else {
                l.day_events
            },
            None => 0,
        };
        let default: Score = if late && !same_text(self.gender_mode.as_str(), "off") && !morning
            && !evening && events < 3 && text_is(&who.gender, "m") {
            self.gender_default
        } else {
            0
        };
        let fit: Score = match lesson {
            Some(l) => if late {
                l.late_fit
            } else {
                l.day_fit
            },
            None => 0,
        };
        assert(-MAX_PART <= fit <= MAX_PART) by {
            if lesson is Some {
                assert(self.learned@[i as int] is Some);
            }
        }
        let t: Turnout = if late {
            self.reliability[i].night
        } else {
            self.reliability[i].day
        };
        let misses: i128 = (2 * t.absent as i128 + t.late as i128) * POINT;
        let seen: i128 = 4 * (t.shifts as i128 + 2);
        let lost: i128 = misses / seen;
        proof {
            lemma_quotient(misses as int, seen as int);
        }
        (pref + default + fit + (-lost), default)
    }

    /// Whether one of the staff may take a slot, and what they score.
    fn weigh(
        &self,
        props: &Vec<Proposal>,
        slot: &Slot,
        dept: Option<Id>,
        from: Option<Id>,
        i: usize,
        people: &Vec<Id>,
        lates: &Vec<Id>,
    ) -> (r: Option<Pick>)
        requires
            self.valid(),
            known(*self, props@),
            i < self.staff@.len(),
            slot.shift < self.shifts@.len(),
            slot.span.valid(),
            valid_day(slot.date),
            people@ == people_on(*self, props@, slot.date, slot.shift as int),
            lates@ == on_late(*self, props@),
        ensures
            r is Some <==> self.may_take(props@, *slot, dept, from, i as int),
            r is Some ==> r->0 == self.pick_of(props@, *slot, i as int),
            r is Some ==> bounded(r->0),
    {
        let spans: Vec<Span> = match self.may(props, slot, dept, from, i, people) {
            Some(spans) => spans,
            None => {
                return None;
            },
        };
        let u: Id = self.staff[i].employee_id;
        let (own, default): (Score, Score) = self.own_score(slot, i);
        let spread: Score = if self.late[slot.shift] {
            -(100_000_000 * count_in(lates, u) as i128 + 25_000_000 * self.late_history[i] as i128)
        } else {
            0
        };
        let habit: Score = if self.on_block(props, u, slot.shift) || has_usual(
            &self.usual,
            u,
            slot.shift,
        ) {
            100_000_000
        } else {
            0
        };
        let second: Score = if any_on(&spans, slot.date) {
            -300_000_000
        } else {
            0
        };
        Some(Pick { person: i, score: own + spread + habit + second, default })
    }

    /// Everyone who may take `slot`, scored, best first. A suggestion that was
    /// decided is not offered again.
    pub fn candidates(
        &self,
        props: &Vec<Proposal>,
        slot: &Slot,
        dept: Option<Id>,
        from: Option<Id>,
    ) -> (r: Vec<Pick>)
        requires
            self.valid(),
            known(*self, props@),
            slot.shift < self.shifts@.len(),
            slot.span.valid(),
            valid_day(slot.date),
        ensures
            r@ == self.picks(props@, *slot, dept, from, self.staff@.len() as int),
            forall|k: int| 0 <= k < r@.len() ==> bounded(#[trigger] r@[k]),
    {
        let people: Vec<Id> = self.list_people(props, slot.date, slot.shift);
        let lates: Vec<Id> = self.list_late(props);
        let mut out: Vec<Pick> = Vec::new();
        let mut i: usize = 0;
        while i < self.staff.len()
            invariant
                i <= self.staff@.len(),
                self.valid(),
                known(*self, props@),
                slot.shift < self.shifts@.len(),
                slot.span.valid(),
                valid_day(slot.date),
                people@ == people_on(*self, props@, slot.date, slot.shift as int),
                lates@ == on_late(*self, props@),
                out@ == self.picks(props@, *slot, dept, from, i as int),
                forall|k: int| 0 <= k < out@.len() ==> bounded(#[trigger] out@[k]),
            decreases self.staff@.len() - i,
        {
            if let Some(x) = self.weigh(props, slot, dept, from, i, &people, &lates) {
                let ghost before = out@;
                put_pick(&mut out, x);
                proof {
                    lemma_with_pick_holds(before, x);
                    assert forall|k: int| 0 <= k < out@.len() implies bounded(
                        #[trigger] out@[k],
                    ) by {
                        assert(out@.contains(out@[k]));
                        if out@[k] != x {
                            let j = choose|j: int| 0 <= j < before.len() && before[j] == out@[k];
                            assert(bounded(before[j]));
                        }
                    }
                }
            }
            i += 1;
        }
        out
    }
}

/// Inserting a candidate keeps the list's and adds it.
pub proof fn lemma_with_pick_holds(list: Seq<Pick>, x: Pick)
    ensures
        forall|y: Pick| #[trigger] with_pick(list, x).contains(y) <==> list.contains(y) || y == x,
        with_pick(list, x).len() == list.len() + 1,
    decreases list.len(),
{
    broadcast use vstd::seq_lib::group_seq_properties;

    if list.len() == 0 || list.last().score >= x.score {
    } else {
        lemma_with_pick_holds(list.drop_last(), x);
        assert(list =~= list.drop_last().push(list.last()));
    }
}

/// A quotient of natural numbers is no more than what is divided.
proof fn lemma_quotient(a: int, b: int)
    requires
        a >= 0,
        b >= 1,
    ensures
        0 <= a / b <= a,
{
    assert(0 <= a / b <= a) by (nonlinear_arith)
        requires
            a >= 0,
            b >= 1,
    ;
}

/// Whether somebody is on leave on a date.
pub(crate) fn has_leave(list: &Vec<(Id, Day)>, u: Id, d: Day) -> (r: bool)
    ensures
        r == list@.contains((u, d)),
{
    let mut i: usize = 0;
    while i < list.len()
        invariant
            i <= list@.len(),
            forall|k: int| 0 <= k < i ==> list@[k] != (u, d),
        decreases list@.len() - i,
    {
        if list[i].0 == u && list[i].1 == d {
            assert(list@[i as int] == (u, d));
            return true;
        }
        i += 1;
    }
    false
}

/// Whether a block is one somebody used to be on.
pub(crate) fn has_usual(list: &Vec<(Id, usize)>, u: Id, w: usize) -> (r: bool)
    ensures
        r == list@.contains((u, w)),
{
    let mut i: usize = 0;
    while i < list.len()
        invariant
            i <= list@.len(),
            forall|k: int| 0 <= k < i ==> list@[k] != (u, w),
        decreases list@.len() - i,
    {
        if list[i].0 == u && list[i].1 == w {
            assert(list@[i as int] == (u, w));
            return true;
        }
        i += 1;
    }
    false
}

/// Puts a candidate after those who score no less.
pub(crate) fn put_pick(list: &mut Vec<Pick>, x: Pick)
    ensures
        final(list)@ == with_pick(old(list)@, x),
{
    let ghost s = list@;
    let mut i: usize = list.len();
    assert(s.take(i as int) =~= s);
    assert(with_pick(s, x) =~= with_pick(s.take(i as int), x) + s.skip(i as int));
    while i > 0 && list[i - 1].score < x.score
        invariant
            list@ == s,
            i <= s.len(),
            with_pick(s, x) == with_pick(s.take(i as int), x) + s.skip(i as int),
        decreases i,
    {
        let ghost front = s.take(i as int);
        i -= 1;
        assert(front.drop_last() =~= s.take(i as int));
        assert(with_pick(s.take(i as int), x).push(s[i as int]) + s.skip(i + 1) =~= with_pick(
            s.take(i as int),
            x,
        ) + s.skip(i as int));
    }
    list.insert(i, x);
    assert(list@ =~= s.take(i as int).push(x) + s.skip(i as int));
}

/// The strongest of a list without the gender default: the best score less the
/// default, of those alike the first of the staff.
pub open spec fn strongest(list: Seq<Pick>) -> Pick
    decreases list.len(),
{
    if list.len() <= 1 {
        list[0]
    } else {
        let best = strongest(list.drop_last());
        let x = list.last();
        let a = x.score - x.default;
        let b = best.score - best.default;
        if a > b || (a == b && x.person < best.person) {
            x
        } else {
            best
        }
    }
}

/// The best candidate, whether the gender default decided it, and the
/// runner-up's score.
pub struct Best {
    pub pick: Pick,
    pub by_default: bool,
    pub runner_up: Option<Score>,
}

/// The best of a list of candidates, best first. The default decided it where
/// somebody else would win without it.
pub open spec fn best_of(list: Seq<Pick>) -> Option<Best> {
    if list.len() == 0 {
        None
    } else {
        Some(
            Best {
                pick: list[0],
                by_default: list[0].default > 0 && strongest(list).person != list[0].person,
                runner_up: if list.len() > 1 {
                    Some(list[1].score)
                } else {
                    None
                },
            },
        )
    }
}

/// The strongest is one of the list, and nobody is stronger without the default.
proof fn lemma_strongest(list: Seq<Pick>)
    requires
        list.len() > 0,
    ensures
        list.contains(strongest(list)),
        forall|k: int|
            0 <= k < list.len() ==> (#[trigger] list[k]).score - list[k].default <= strongest(
                list,
            ).score - strongest(list).default,
    decreases list.len(),
{
    if list.len() > 1 {
        let short = list.drop_last();
        lemma_strongest(short);
        let best = strongest(short);
        let at = choose|k: int| 0 <= k < short.len() && short[k] == best;
        assert(list[at] == best);
        assert(list[list.len() - 1] == list.last());
        assert forall|k: int| 0 <= k < list.len() implies (#[trigger] list[k]).score
            - list[k].default <= strongest(list).score - strongest(list).default by {
            if k < short.len() {
                assert(short[k] == list[k]);
            }
        }
    } else {
        assert(list[0] == strongest(list));
    }
}

/// The gender default decides only when nothing else does, and says so: where it
/// decided, somebody else does as well or better without it; and somebody whom
/// nobody matches without it was never picked by it.
pub proof fn law_the_default_decides_only_when_nothing_else_does(list: Seq<Pick>)
    requires
        list.len() > 0,
    ensures
        best_of(list)->0.by_default ==> exists|k: int|
            0 <= k < list.len() && (#[trigger] list[k]).person != list[0].person && list[k].score
                - list[k].default >= list[0].score - list[0].default,
        (forall|k: int|
            0 < k < list.len() ==> (#[trigger] list[k]).score - list[k].default < list[0].score
                - list[0].default) ==> !best_of(list)->0.by_default,
{
    lemma_strongest(list);
    let at = choose|k: int| 0 <= k < list.len() && list[k] == strongest(list);
    assert(list[0].score - list[0].default <= list[at].score - list[at].default);
    if best_of(list)->0.by_default {
        assert(list[at].person != list[0].person);
    }
}

/// With the default off, or where somebody stated a preference, it adds nothing.
pub proof fn law_a_preference_or_off_leaves_no_default(p: Problem, slot: Slot, i: int)
    ensures
        p.gender_mode@ == "off"@ || is_text(p.staff@[i].pref_time, "morning"@) || is_text(
            p.staff@[i].pref_time,
            "evening"@,
        ) ==> p.default_part(slot, i) == 0,
{
}

/// The best of a list of candidates, best first.
pub fn choose_best(list: &Vec<Pick>) -> (r: Option<Best>)
    requires
        forall|i: int| 0 <= i < list@.len() ==> bounded(#[trigger] list@[i]),
    ensures
        r == best_of(list@),
{
    if list.len() == 0 {
        return None;
    }
    let top: Pick = list[0];
    let mut best: Pick = list[0];
    let mut i: usize = 1;
    assert(list@.take(1)[0] == list@[0]);
    while i < list.len()
        invariant
            1 <= i <= list@.len(),
            forall|i: int| 0 <= i < list@.len() ==> bounded(#[trigger] list@[i]),
            best == strongest(list@.take(i as int)),
            exists|k: int| 0 <= k < i && best == #[trigger] list@[k],
        decreases list@.len() - i,
    {
        assert(list@.take(i + 1).drop_last() =~= list@.take(i as int));
        let x: Pick = list[i];
        let a: Score = x.score - x.default;
        let b: Score = best.score - best.default;
        if a > b || (a == b && x.person < best.person) {
            best = x;
            assert(best == list@[i as int]);
        }
        i += 1;
    }
    assert(list@.take(list@.len() as int) =~= list@);
    Some(
        Best {
            pick: top,
            by_default: top.default > 0 && best.person != top.person,
            runner_up: if list.len() > 1 {
                Some(list[1].score)
            } else {
                None
            },
        },
    )
}

impl Problem {
    /// The best candidate for a slot.
    pub open spec fn best_for(
        self,
        props: Seq<Proposal>,
        slot: Slot,
        dept: Option<Id>,
        from: Option<Id>,
    ) -> Option<Best> {
        best_of(self.picks(props, slot, dept, from, self.staff@.len() as int))
    }

    /// The best candidate, whether the gender default decided it, and the
    /// runner-up's score.
    pub fn best(
        &self,
        props: &Vec<Proposal>,
        slot: &Slot,
        dept: Option<Id>,
        from: Option<Id>,
    ) -> (r: Option<Best>)
        requires
            self.valid(),
            known(*self, props@),
            slot.shift < self.shifts@.len(),
            slot.span.valid(),
            valid_day(slot.date),
        ensures
            r == self.best_for(props@, *slot, dept, from),
            r is Some ==> r->0.pick.person < self.staff@.len() && bounded(r->0.pick)
                && self.may_take(props@, *slot, dept, from, r->0.pick.person as int),
            r is Some && r->0.runner_up is Some ==> -MAX_SCORE
                <= r->0.runner_up->0 <= MAX_SCORE,
    {
        let list: Vec<Pick> = self.candidates(props, slot, dept, from);
        let staff: usize = self.staff.len();
        proof {
            if list@.len() > 0 {
                self.lemma_picks_may_take(
                    props@,
                    *slot,
                    dept,
                    from,
                    staff as int,
                    list@[0],
                );
                assert(list@.contains(list@[0]));
                assert(bounded(list@[0]));
                if list@.len() > 1 {
                    assert(bounded(list@[1]));
                }
            }
        }
        choose_best(&list)
    }

    /// Every candidate listed is one of the staff who may take the slot, at
    /// their score.
    pub proof fn lemma_picks_may_take(
        self,
        props: Seq<Proposal>,
        slot: Slot,
        dept: Option<Id>,
        from: Option<Id>,
        n: int,
        x: Pick,
    )
        requires
            0 <= n <= self.staff@.len() <= usize::MAX,
        ensures
            self.picks(props, slot, dept, from, n).contains(x) ==> x.person < n && self.may_take(
                props,
                slot,
                dept,
                from,
                x.person as int,
            ) && x == self.pick_of(props, slot, x.person as int),
        decreases n,
    {
        if n > 0 {
            self.lemma_picks_may_take(props, slot, dept, from, n - 1, x);
            lemma_with_pick_holds(
                self.picks(props, slot, dept, from, n - 1),
                self.pick_of(props, slot, n - 1),
            );
        }
    }
}

/// Somebody proposed for a slot.
pub open spec fn propose(
    slot: Slot,
    b: Best,
    from: Option<Id>,
    department: Option<Id>,
    reason: Reason,
) -> Proposal {
    Proposal {
        slot,
        person: b.pick.person,
        from,
        department,
        reason,
        score: b.pick.score,
        by_default: b.by_default,
        runner_up: b.runner_up,
    }
}

/// Somebody proposed for a slot.
pub(crate) fn proposal(
    slot: Slot,
    b: &Best,
    from: Option<Id>,
    department: Option<Id>,
    reason: Reason,
) -> (r: Proposal)
    ensures
        r == propose(slot, *b, from, department, reason),
{
    Proposal {
        slot,
        person: b.pick.person,
        from,
        department,
        reason,
        score: b.pick.score,
        by_default: b.by_default,
        runner_up: b.runner_up,
    }
}

// ── the greedy fill ─────────────────────────────────────────────────────────

/// The first of a list the pattern intends people on a block on a date by.
pub open spec fn intended(list: Seq<PatternNeed>, d: Day, w: int) -> Option<i64>
    decreases list.len(),
{
    if list.len() == 0 {
        None
    } else {
        match intended(list.drop_last(), d, w) {
            Some(n) => Some(n),
            None => if list.last().date == d && list.last().shift == w {
                Some(list.last().staff)
            } else {
                None
            },
        }
    }
}

proof fn lemma_intended_stays(list: Seq<PatternNeed>, d: Day, w: int, k: int)
    requires
        0 <= k <= list.len(),
        intended(list.take(k), d, w) is Some,
    ensures
        intended(list, d, w) == intended(list.take(k), d, w),
    decreases list.len() - k,
{
    if k == list.len() {
        assert(list.take(k) =~= list);
    } else {
        assert(list.take(k + 1).drop_last() =~= list.take(k));
        lemma_intended_stays(list, d, w, k + 1);
    }
}

impl Problem {
    /// How many people the pattern intends on a block on a date.
    pub open spec fn headcount(self, d: Day, w: int) -> int {
        match intended(self.pattern_need@, d, w) {
            Some(n) => n as int,
            None => 0,
        }
    }

    fn find_headcount(&self, d: Day, w: usize) -> (r: i64)
        ensures
            r == self.headcount(d, w as int),
    {
        let list: &Vec<PatternNeed> = &self.pattern_need;
        let mut i: usize = 0;
        while i < list.len()
            invariant
                i <= list@.len(),
                list@ == self.pattern_need@,
                intended(list@.take(i as int), d, w as int) is None,
            decreases list@.len() - i,
        {
            assert(list@.take(i + 1).drop_last() =~= list@.take(i as int));
            if list[i].date == d && list[i].shift == w {
                proof {
                    lemma_intended_stays(list@, d, w as int, i + 1);
                }
                return list[i].staff;
            }
            i += 1;
        }
        assert(list@.take(list@.len() as int) =~= list@);
        0
    }

    /// The proposals with up to `short` more people on a slot, the best first.
    pub open spec fn fill_slot(self, props: Seq<Proposal>, slot: Slot, short: int) -> Seq<Proposal>
        decreases short,
    {
        if short <= 0 {
            props
        } else {
            match self.best_for(props, slot, None, None) {
                Some(b) => self.fill_slot(
                    props.push(propose(slot, b, None, None, Reason::Gap { short: short as i64 })),
                    slot,
                    short - 1,
                ),
                None => props,
            }
        }
    }

    /// The proposals with a block on a date filled to what the pattern intends.
    pub open spec fn fill_block(self, props: Seq<Proposal>, d: Day, w: int) -> Seq<Proposal> {
        match self.slot_at(d, w) {
            Some(slot) => self.fill_slot(
                props,
                slot,
                self.headcount(d, w) - people_on(self, props, d, w).len(),
            ),
            None => props,
        }
    }

    /// The proposals with the first `n` blocks of a date filled.
    pub open spec fn fill_blocks(self, props: Seq<Proposal>, d: Day, n: int) -> Seq<Proposal>
        decreases n,
    {
        if n <= 0 {
            props
        } else {
            self.fill_block(self.fill_blocks(props, d, n - 1), d, n - 1)
        }
    }

    /// The proposals with the first `n` dates of the week filled.
    pub open spec fn fill_week(self, props: Seq<Proposal>, n: int) -> Seq<Proposal>
        decreases n,
    {
        if n <= 0 {
            props
        } else {
            self.fill_blocks(
                self.fill_week(props, n - 1),
                (self.week + n - 1) as Day,
                self.shifts@.len() as int,
            )
        }
    }

    /// Fills a block on a date to what the pattern intends.
    fn fill_gap(&self, props: &mut Vec<Proposal>, d: Day, w: usize)
        requires
            self.valid(),
            self.near(d),
            w < self.shifts@.len(),
            sound(*self, old(props)@),
        ensures
            final(props)@ == self.fill_block(old(props)@, d, w as int),
            sound(*self, final(props)@),
    {
        let slot: Slot = match self.slot(d, w) {
            Some(slot) => slot,
            None => {
                return ;
            },
        };
        let ghost start = props@;
        let need: i64 = self.find_headcount(d, w);
        let have: usize = self.list_people(props, d, w).len();
        if have as i128 >= need as i128 {
            return ;
        }
        let mut short: i64 = (need as i128 - have as i128) as i64;
        let ghost total = short;
        while short > 0
            invariant_except_break
                self.valid(),
                sound(*self, props@),
                slot.shift < self.shifts@.len(),
                slot.span.valid(),
                valid_day(slot.date),
                self.near(slot.date),
                self.slot_at(slot.date, slot.shift as int) == Some(slot),
                0 <= short,
                self.fill_slot(start, slot, total as int) == self.fill_slot(
                    props@,
                    slot,
                    short as int,
                ),
            ensures
                props@ == self.fill_slot(start, slot, total as int),
                sound(*self, props@),
            decreases short,
        {
            match self.best(props, &slot, None, None) {
                Some(b) => {
                    let ghost before = props@;
                    props.push(proposal(slot, &b, None, None, Reason::Gap { short }));
                    proof {
                        lemma_taken_holds(*self, before, props@.last());
                    }
                    short -= 1;
                },
                None => {
                    break;
                },
            }
        }
    }

    /// Fills the week to what the standing pattern intends.
    pub fn fill_pattern_gaps(&self, props: &mut Vec<Proposal>)
        requires
            self.valid(),
            sound(*self, old(props)@),
        ensures
            final(props)@ == self.fill_week(old(props)@, 7),
            sound(*self, final(props)@),
    {
        let days: Vec<Day> = self.dates();
        let ghost start = props@;
        let mut i: usize = 0;
        while i < days.len()
            invariant
                i <= days@.len() == 7,
                self.valid(),
                days@ == Seq::new(7, |i: int| (self.week + i) as Day),
                sound(*self, props@),
                props@ == self.fill_week(start, i as int),
            decreases days@.len() - i,
        {
            let d: Day = days[i];
            let ghost of_day = props@;
            let mut w: usize = 0;
            while w < self.shifts.len()
                invariant
                    w <= self.shifts@.len(),
                    self.valid(),
                    self.near(d),
                    sound(*self, props@),
                    props@ == self.fill_blocks(of_day, d, w as int),
                decreases self.shifts@.len() - w,
            {
                self.fill_gap(props, d, w);
                w += 1;
            }
            i += 1;
        }
    }
}

proof fn lemma_slot_filled(p: Problem, props: Seq<Proposal>, slot: Slot, short: int)
    requires
        short >= 0,
    ensures
        ({
            let r = p.fill_slot(props, slot, short);
            let on = people_on(p, r, slot.date, slot.shift as int).len();
            let was = people_on(p, props, slot.date, slot.shift as int).len();
            &&& was <= on <= was + short
            &&& on == was + short || p.best_for(r, slot, None, None) is None
        }),
    decreases short,
{
    if short > 0 {
        if let Some(b) = p.best_for(props, slot, None, None) {
            let next = props.push(propose(slot, b, None, None, Reason::Gap { short: short as i64 }));
            lemma_slot_filled(p, next, slot, short - 1);
            assert(next.drop_last() =~= props);
        }
    }
}

/// A block is filled to what the pattern intends and no further; it stays short
/// only where nobody can take it.
pub proof fn law_a_gap_is_filled_as_far_as_it_can_be(
    p: Problem,
    props: Seq<Proposal>,
    d: Day,
    w: int,
)
    requires
        p.slot_at(d, w) is Some,
        0 <= w < p.shifts@.len() <= usize::MAX,
        people_on(p, props, d, w).len() <= p.headcount(d, w),
    ensures
        ({
            let r = p.fill_block(props, d, w);
            let on = people_on(p, r, d, w).len();
            &&& on <= p.headcount(d, w)
            &&& on == p.headcount(d, w) || p.best_for(r, p.slot_at(d, w)->0, None, None) is None
        }),
{
    let slot = p.slot_at(d, w)->0;
    lemma_slot_filled(
        p,
        props,
        slot,
        p.headcount(d, w) - people_on(p, props, d, w).len(),
    );
}

} // verus!
