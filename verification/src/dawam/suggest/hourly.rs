//! Filling the hours a branch needs people at, and moving people off days they
//! can't work.

use vstd::prelude::*;

use crate::calendar::{day_of_week, max_of, same_id, valid_day, Day, Id};
use crate::dawam::engine::{end_minute, minute, shift_hours};
use crate::dawam::roster::{has_day, RosterPerson};
use crate::dawam::suggest::search::{lemma_taken_holds, sound};
use crate::dawam::suggest::{
    bounded, known, people_on, proposal, propose, Best, Need, Problem, Proposal,
    Reason, Slot, IN_MEMORY, MAX_SCORE,
};

verus! {

/// The first of the staff with an id.
pub open spec fn first_with(staff: Seq<RosterPerson>, u: Id) -> Option<int>
    decreases staff.len(),
{
    if staff.len() == 0 {
        None
    } else {
        match first_with(staff.drop_last(), u) {
            Some(i) => Some(i),
            None => if staff.last().employee_id == u {
                Some(staff.len() - 1)
            } else {
                None
            },
        }
    }
}

pub proof fn lemma_first_with(staff: Seq<RosterPerson>, u: Id)
    ensures
        match first_with(staff, u) {
            Some(i) => 0 <= i < staff.len() && staff[i].employee_id == u && forall|k: int|
                0 <= k < i ==> (#[trigger] staff[k]).employee_id != u,
            None => forall|k: int| 0 <= k < staff.len() ==> (#[trigger] staff[k]).employee_id != u,
        },
    decreases staff.len(),
{
    if staff.len() > 0 {
        lemma_first_with(staff.drop_last(), u);
        assert(forall|k: int|
            0 <= k < staff.drop_last().len() ==> staff.drop_last()[k] == staff[k]);
    }
}

/// The first of a list of needs at an hour of a date, of a department.
pub open spec fn first_need(list: Seq<Need>, d: Day, h: int, dept: Option<Id>) -> Option<int>
    decreases list.len(),
{
    if list.len() == 0 {
        None
    } else {
        match first_need(list.drop_last(), d, h, dept) {
            Some(n) => Some(n),
            None => if list.last().date == d && list.last().hour == h && list.last().department
                == dept {
                Some(list.last().staff as int)
            } else {
                None
            },
        }
    }
}

proof fn lemma_first_need_stays(list: Seq<Need>, d: Day, h: int, dept: Option<Id>, k: int)
    requires
        0 <= k <= list.len(),
        first_need(list.take(k), d, h, dept) is Some,
    ensures
        first_need(list, d, h, dept) == first_need(list.take(k), d, h, dept),
    decreases list.len() - k,
{
    if k == list.len() {
        assert(list.take(k) =~= list);
    } else {
        assert(list.take(k + 1).drop_last() =~= list.take(k));
        lemma_first_need_stays(list, d, h, dept, k + 1);
    }
}

/// A department comes no later than another; none comes first.
pub open spec fn dept_le(a: Option<Id>, b: Option<Id>) -> bool {
    a is None || (b is Some && a->0 <= b->0)
}

/// A need comes no later than another: by date, hour and department.
pub open spec fn need_le(a: Need, b: Need) -> bool {
    a.date < b.date || (a.date == b.date && (a.hour < b.hour || (a.hour == b.hour && dept_le(
        a.department,
        b.department,
    ))))
}

/// Needs in order with one more, after those that come no later.
pub open spec fn with_need(list: Seq<Need>, x: Need) -> Seq<Need>
    decreases list.len(),
{
    if list.len() == 0 || need_le(list.last(), x) {
        list.push(x)
    } else {
        with_need(list.drop_last(), x).push(list.last())
    }
}

/// Needs by date, hour and department.
pub open spec fn needs_in_order(list: Seq<Need>) -> Seq<Need>
    decreases list.len(),
{
    if list.len() == 0 {
        Seq::empty()
    } else {
        with_need(needs_in_order(list.drop_last()), list.last())
    }
}

/// Slots that close most first with one more, after those that close no less.
pub open spec fn with_option(list: Seq<(int, Slot)>, x: (int, Slot)) -> Seq<(int, Slot)>
    decreases list.len(),
{
    if list.len() == 0 || list.last().0 >= x.0 {
        list.push(x)
    } else {
        with_option(list.drop_last(), x).push(list.last())
    }
}

/// The first of the staff with an id.
pub(crate) fn find_person(staff: &Vec<RosterPerson>, u: Id) -> (r: Option<usize>)
    ensures
        match r {
            Some(i) => first_with(staff@, u) == Some(i as int),
            None => first_with(staff@, u) is None,
        },
        r is Some ==> r->0 < staff@.len() && staff@[r->0 as int].employee_id == u,
{
    proof {
        lemma_first_with(staff@, u);
    }
    let mut i: usize = 0;
    while i < staff.len()
        invariant
            i <= staff@.len(),
            forall|k: int| 0 <= k < i ==> (#[trigger] staff@[k]).employee_id != u,
            match first_with(staff@, u) {
                Some(i) => 0 <= i < staff@.len() && staff@[i].employee_id == u && forall|k: int|
                    0 <= k < i ==> (#[trigger] staff@[k]).employee_id != u,
                None => forall|k: int|
                    0 <= k < staff@.len() ==> (#[trigger] staff@[k]).employee_id != u,
            },
        decreases staff@.len() - i,
    {
        if staff[i].employee_id == u {
            return Some(i);
        }
        i += 1;
    }
    None
}

impl Problem {
    /// One of some people is of a department; anybody is where none is asked.
    pub open spec fn of_department(self, u: Id, dept: Option<Id>) -> bool {
        dept is None || match first_with(self.staff@, u) {
            Some(i) => self.staff@[i].department_id == dept,
            None => false,
        }
    }

    /// How many of some people are of a department.
    pub open spec fn count_department(self, people: Seq<Id>, dept: Option<Id>) -> int
        decreases people.len(),
    {
        if people.len() == 0 {
            0
        } else {
            self.count_department(people.drop_last(), dept) + if self.of_department(
                people.last(),
                dept,
            ) {
                1int
            } else {
                0
            }
        }
    }

    /// The first hour a block touches on a date.
    pub open spec fn first_hour(self, d: Day, w: int) -> int {
        minute(self.shifts@[w].times(d).0) / 60
    }

    /// The hour past the last a block touches on a date.
    pub open spec fn past_hour(self, d: Day, w: int) -> int {
        let (s, e) = self.shifts@[w].times(d);
        (end_minute(s, e, e <= s) + 59) / 60
    }

    /// A block that runs on a date touches an hour, counted from that date's
    /// midnight.
    pub open spec fn touches(self, d: Day, w: int, h: int) -> bool {
        self.slot_at(d, w) is Some && self.first_hour(d, w) <= h < self.past_hour(d, w)
    }

    /// People of a department on a block on a date, if it touches an hour.
    pub open spec fn there(
        self,
        props: Seq<Proposal>,
        d: Day,
        w: int,
        h: int,
        dept: Option<Id>,
    ) -> int {
        if self.touches(d, w, h) {
            self.count_department(people_on(self, props, d, w), dept)
        } else {
            0
        }
    }

    /// People of a department at an hour of a date, on the first `n` blocks:
    /// those of the date, and those of the night before.
    pub open spec fn covered_by(
        self,
        props: Seq<Proposal>,
        d: Day,
        h: int,
        dept: Option<Id>,
        n: int,
    ) -> int
        decreases n,
    {
        if n <= 0 {
            0
        } else {
            self.covered_by(props, d, h, dept, n - 1) + self.there(props, d, n - 1, h, dept)
                + self.there(props, (d - 1) as Day, n - 1, h + 24, dept)
        }
    }

    /// People of a department at an hour of a date.
    pub open spec fn covering(self, props: Seq<Proposal>, d: Day, h: int, dept: Option<Id>) -> int {
        self.covered_by(props, d, h, dept, self.shifts@.len() as int)
    }

    /// What is missing at an hour counted from a date's midnight, where
    /// anything is needed.
    pub open spec fn missing(self, props: Seq<Proposal>, d: Day, x: int, dept: Option<Id>) -> int {
        let xd = if x >= 24 {
            (d + 1) as Day
        } else {
            d
        };
        let xh = if x >= 24 {
            x - 24
        } else {
            x
        };
        match first_need(self.need@, xd, xh, dept) {
            Some(n) => max_of(n - self.covering(props, xd, xh, dept), 0),
            None => 0,
        }
    }

    /// What is missing at the hours from `x` up to but not including `end`.
    pub open spec fn missing_over(
        self,
        props: Seq<Proposal>,
        d: Day,
        x: int,
        end: int,
        dept: Option<Id>,
    ) -> int
        decreases end - x,
    {
        if x >= end {
            0
        } else {
            self.missing_over(props, d, x, end - 1, dept) + self.missing(props, d, end - 1, dept)
        }
    }

    /// What somebody on a block on a date would help close.
    pub open spec fn closes(self, props: Seq<Proposal>, d: Day, w: int, dept: Option<Id>) -> int {
        self.missing_over(props, d, self.first_hour(d, w), self.past_hour(d, w), dept)
    }

    /// The slots with one more block of a date, if it is in the week and touches
    /// the hour.
    pub open spec fn with_block(
        self,
        list: Seq<(int, Slot)>,
        props: Seq<Proposal>,
        d: Day,
        w: int,
        h: int,
        dept: Option<Id>,
    ) -> Seq<(int, Slot)> {
        if d >= self.week && self.touches(d, w, h) {
            with_option(list, (self.closes(props, d, w, dept), self.slot_at(d, w)->0))
        } else {
            list
        }
    }

    /// The slots among the first `n` blocks that cover an hour: starting today,
    /// or last night's; those that close most first.
    pub open spec fn options(
        self,
        props: Seq<Proposal>,
        d: Day,
        h: int,
        dept: Option<Id>,
        n: int,
    ) -> Seq<(int, Slot)>
        decreases n,
    {
        if n <= 0 {
            Seq::empty()
        } else {
            self.with_block(
                self.with_block(
                    self.options(props, d, h, dept, n - 1),
                    props,
                    d,
                    n - 1,
                    h,
                    dept,
                ),
                props,
                (d - 1) as Day,
                n - 1,
                h + 24,
                dept,
            )
        }
    }

    /// The first of some slots somebody can take, and who.
    pub open spec fn first_taken(
        self,
        props: Seq<Proposal>,
        list: Seq<(int, Slot)>,
        dept: Option<Id>,
    ) -> Option<(Slot, Best)>
        decreases list.len(),
    {
        if list.len() == 0 {
            None
        } else {
            match self.first_taken(props, list.drop_last(), dept) {
                Some(x) => Some(x),
                None => match self.best_for(props, list.last().1, dept, None) {
                    Some(b) => Some((list.last().1, b)),
                    None => None,
                },
            }
        }
    }

    proof fn lemma_first_taken_stays(
        self,
        props: Seq<Proposal>,
        list: Seq<(int, Slot)>,
        dept: Option<Id>,
        k: int,
    )
        requires
            0 <= k <= list.len(),
            self.first_taken(props, list.take(k), dept) is Some,
        ensures
            self.first_taken(props, list, dept) == self.first_taken(props, list.take(k), dept),
        decreases list.len() - k,
    {
        if k == list.len() {
            assert(list.take(k) =~= list);
        } else {
            assert(list.take(k + 1).drop_last() =~= list.take(k));
            self.lemma_first_taken_stays(props, list, dept, k + 1);
        }
    }

    /// The proposals with up to `short` more people at an hour.
    pub open spec fn fill_hour(self, props: Seq<Proposal>, key: Need, short: int) -> Seq<Proposal>
        decreases short,
    {
        if short <= 0 {
            props
        } else {
            match self.first_taken(
                props,
                self.options(
                    props,
                    key.date,
                    key.hour as int,
                    key.department,
                    self.shifts@.len() as int,
                ),
                key.department,
            ) {
                Some((slot, b)) => self.fill_hour(
                    props.push(
                        propose(
                            slot,
                            b,
                            None,
                            key.department,
                            Reason::Coverage { hour: key.hour, short: short as i64 },
                        ),
                    ),
                    key,
                    short - 1,
                ),
                None => props,
            }
        }
    }

    /// The proposals with the hours of a list of needs filled, one by one.
    pub open spec fn fill_hours(self, props: Seq<Proposal>, keys: Seq<Need>) -> Seq<Proposal>
        decreases keys.len(),
    {
        if keys.len() == 0 {
            props
        } else {
            let before = self.fill_hours(props, keys.drop_last());
            let key = keys.last();
            self.fill_hour(
                before,
                key,
                key.staff - self.covering(before, key.date, key.hour as int, key.department),
            )
        }
    }

    // ── the code ────────────────────────────────────────────────────────────

    /// The first of the staff with an id.
    pub(crate) fn find_staff(&self, u: Id) -> (r: Option<usize>)
        ensures
            match r {
                Some(i) => first_with(self.staff@, u) == Some(i as int),
                None => first_with(self.staff@, u) is None,
            },
            r is Some ==> r->0 < self.staff@.len() && self.staff@[r->0 as int].employee_id == u,
    {
        find_person(&self.staff, u)
    }

    /// Whether somebody is of a department.
    fn is_of(&self, u: Id, dept: Option<Id>) -> (r: bool)
        ensures
            r == self.of_department(u, dept),
    {
        match dept {
            None => true,
            Some(x) => match self.find_staff(u) {
                Some(i) => match self.staff[i].department_id {
                    Some(y) => x == y,
                    None => false,
                },
                None => false,
            },
        }
    }

    /// The hours a slot touches.
    fn hours_of(&self, d: Day, w: usize) -> (r: (i32, i32))
        requires
            self.valid(),
            self.near(d),
            w < self.shifts@.len(),
        ensures
            r.0 == self.first_hour(d, w as int),
            r.1 == self.past_hour(d, w as int),
            0 <= r.0 < 24,
            r.1 <= 48,
    {
        assert(self.shifts@[w as int].valid());
        let (s, e) = self.shifts[w].times_on(d);
        let h = shift_hours(s, e, e <= s);
        (h.start, h.end)
    }

    /// People of a department on a block on a date, if it touches an hour.
    fn count_there(&self, props: &Vec<Proposal>, d: Day, w: usize, h: i32, dept: Option<Id>) -> (r:
        usize)
        requires
            self.valid(),
            known(*self, props@),
            self.near(d),
            w < self.shifts@.len(),
        ensures
            r == self.there(props@, d, w as int, h as int, dept),
    {
        if self.slot(d, w).is_none() {
            return 0;
        }
        let (first, past): (i32, i32) = self.hours_of(d, w);
        if h < first || h >= past {
            return 0;
        }
        let people: Vec<Id> = self.list_people(props, d, w);
        let mut n: usize = 0;
        let mut i: usize = 0;
        while i < people.len()
            invariant
                i <= people@.len(),
                n <= i,
                n == self.count_department(people@.take(i as int), dept),
            decreases people@.len() - i,
        {
            assert(people@.take(i + 1).drop_last() =~= people@.take(i as int));
            if self.is_of(people[i], dept) {
                n += 1;
            }
            i += 1;
        }
        assert(people@.take(people@.len() as int) =~= people@);
        n
    }

    /// People of a department at an hour of a date.
    pub fn covered(&self, props: &Vec<Proposal>, d: Day, h: i32, dept: Option<Id>) -> (r: i128)
        requires
            self.valid(),
            known(*self, props@),
            self.week - 25 <= d <= self.week + 25,
            0 <= h < 24,
        ensures
            r == self.covering(props@, d, h as int, dept),
            0 <= r <= IN_MEMORY * 36_893_488_147_419_103_232,
    {
        let mut n: i128 = 0;
        let mut w: usize = 0;
        while w < self.shifts.len()
            invariant
                w <= self.shifts@.len() <= IN_MEMORY,
                self.valid(),
                known(*self, props@),
                self.week - 25 <= d <= self.week + 25,
                0 <= h < 24,
                n == self.covered_by(props@, d, h as int, dept, w as int),
                0 <= n <= w * 36_893_488_147_419_103_232,
            decreases self.shifts@.len() - w,
        {
            let today: usize = self.count_there(props, d, w, h, dept);
            let before: usize = self.count_there(props, d - 1, w, h + 24, dept);
            n += today as i128 + before as i128;
            w += 1;
        }
        n
    }

    /// What a date's hour needs, where anything is.
    fn find_need(&self, d: Day, h: i32, dept: Option<Id>) -> (r: Option<i32>)
        ensures
            match r {
                Some(n) => first_need(self.need@, d, h as int, dept) == Some(n as int),
                None => first_need(self.need@, d, h as int, dept) is None,
            },
    {
        let list: &Vec<Need> = &self.need;
        let mut i: usize = 0;
        while i < list.len()
            invariant
                i <= list@.len(),
                list@ == self.need@,
                first_need(list@.take(i as int), d, h as int, dept) is None,
            decreases list@.len() - i,
        {
            assert(list@.take(i + 1).drop_last() =~= list@.take(i as int));
            let x: Need = list[i];
            if x.date == d && x.hour == h && same_id(x.department, dept) {
                proof {
                    lemma_first_need_stays(list@, d, h as int, dept, i + 1);
                }
                return Some(x.staff);
            }
            i += 1;
        }
        assert(list@.take(list@.len() as int) =~= list@);
        None
    }

    /// What is missing at an hour counted from a date's midnight.
    fn count_missing(&self, props: &Vec<Proposal>, d: Day, x: i32, dept: Option<Id>) -> (r: i128)
        requires
            self.valid(),
            known(*self, props@),
            self.week - 22 <= d <= self.week + 22,
            0 <= x < 48,
        ensures
            r == self.missing(props@, d, x as int, dept),
            0 <= r <= i32::MAX,
    {
        let (xd, xh): (Day, i32) = if x >= 24 {
            (d + 1, x - 24)
        } else {
            (d, x)
        };
        match self.find_need(xd, xh, dept) {
            Some(n) => {
                let left: i128 = n as i128 - self.covered(props, xd, xh, dept);
                if left > 0 {
                    left
                } else {
                    0
                }
            },
            None => 0,
        }
    }

    /// What somebody on a block on a date would help close.
    fn count_closes(&self, props: &Vec<Proposal>, d: Day, w: usize, dept: Option<Id>) -> (r: i128)
        requires
            self.valid(),
            known(*self, props@),
            self.week - 22 <= d <= self.week + 22,
            w < self.shifts@.len(),
        ensures
            r == self.closes(props@, d, w as int, dept),
    {
        let (first, past): (i32, i32) = self.hours_of(d, w);
        let mut sum: i128 = 0;
        let mut x: i32 = first;
        while x < past
            invariant
                0 <= first <= x,
                x <= past || x == first,
                past <= 48,
                self.valid(),
                known(*self, props@),
                self.week - 22 <= d <= self.week + 22,
                sum == self.missing_over(props@, d, first as int, x as int, dept),
                0 <= sum <= (x - first) * 2_147_483_647,
            decreases past - x,
        {
            sum += self.count_missing(props, d, x, dept);
            x += 1;
        }
        sum
    }

    /// Adds a block of a date to the slots, if it is in the week and touches the
    /// hour.
    fn add_block(
        &self,
        list: &mut Vec<(i128, Slot)>,
        props: &Vec<Proposal>,
        d: Day,
        w: usize,
        h: i32,
        dept: Option<Id>,
    )
        requires
            self.valid(),
            known(*self, props@),
            self.week - 22 <= d <= self.week + 22,
            w < self.shifts@.len(),
            self.placeable(old(list)@),
        ensures
            weights(final(list)@) == self.with_block(
                weights(old(list)@),
                props@,
                d,
                w as int,
                h as int,
                dept,
            ),
            self.placeable(final(list)@),
    {
        if d < self.week {
            return ;
        }
        let slot: Slot = match self.slot(d, w) {
            Some(slot) => slot,
            None => {
                return ;
            },
        };
        let (first, past): (i32, i32) = self.hours_of(d, w);
        if h < first || h >= past {
            return ;
        }
        let n: i128 = self.count_closes(props, d, w, dept);
        self.put_option(list, n, slot);
    }

    /// Slots of the problem's blocks.
    pub open spec fn placeable(self, list: Seq<(i128, Slot)>) -> bool {
        forall|i: int|
            0 <= i < list.len() ==> (#[trigger] list[i]).1.shift < self.shifts@.len()
                && list[i].1.span.valid() && valid_day(list[i].1.date) && self.near(list[i].1.date)
                && self.slot_at(list[i].1.date, list[i].1.shift as int) == Some(list[i].1)
    }

    /// Puts a slot after those that close no less.
    fn put_option(&self, list: &mut Vec<(i128, Slot)>, n: i128, slot: Slot)
        requires
            self.placeable(old(list)@),
            slot.shift < self.shifts@.len(),
            slot.span.valid(),
            valid_day(slot.date),
            self.near(slot.date),
            self.slot_at(slot.date, slot.shift as int) == Some(slot),
        ensures
            weights(final(list)@) == with_option(weights(old(list)@), (n as int, slot)),
            self.placeable(final(list)@),
    {
        let ghost x = (n as int, slot);
        let ghost s = weights(list@);
        let ghost was = list@;
        let mut i: usize = list.len();
        assert(s.take(i as int) =~= s);
        assert(with_option(s, x) =~= with_option(s.take(i as int), x) + s.skip(i as int));
        while i > 0 && list[i - 1].0 < n
            invariant
                list@ == was,
                s == weights(list@),
                x == (n as int, slot),
                i <= s.len(),
                with_option(s, x) == with_option(s.take(i as int), x) + s.skip(i as int),
            decreases i,
        {
            let ghost front = s.take(i as int);
            i -= 1;
            assert(front.drop_last() =~= s.take(i as int));
            assert(front.last().0 == list@[i as int].0);
            assert(with_option(s.take(i as int), x).push(s[i as int]) + s.skip(i + 1)
                =~= with_option(s.take(i as int), x) + s.skip(i as int));
        }
        proof {
            if i > 0 {
                assert(s.take(i as int).last().0 == list@[i - 1].0);
            }
        }
        list.insert(i, (n, slot));
        assert(weights(list@) =~= s.take(i as int).push(x) + s.skip(i as int));
        assert forall|k: int| 0 <= k < list@.len() implies (#[trigger] list@[k]).1.shift
            < self.shifts@.len() && list@[k].1.span.valid() && valid_day(list@[k].1.date)
            && self.near(list@[k].1.date) && self.slot_at(
            list@[k].1.date,
            list@[k].1.shift as int,
        ) == Some(list@[k].1) by {
            if k < i {
                assert(list@[k] == was[k]);
            } else if k > i {
                assert(list@[k] == was[k - 1]);
            }
        }
    }

    /// The slots that cover an hour, those that close most first.
    fn list_options(&self, props: &Vec<Proposal>, d: Day, h: i32, dept: Option<Id>) -> (r: Vec<
        (i128, Slot),
    >)
        requires
            self.valid(),
            known(*self, props@),
            self.in_reach(d),
            0 <= h < 24,
        ensures
            weights(r@) == self.options(props@, d, h as int, dept, self.shifts@.len() as int),
            self.placeable(r@),
    {
        let mut out: Vec<(i128, Slot)> = Vec::new();
        let mut w: usize = 0;
        assert(weights(out@) =~= Seq::empty());
        while w < self.shifts.len()
            invariant
                w <= self.shifts@.len(),
                self.valid(),
                known(*self, props@),
                self.in_reach(d),
                0 <= h < 24,
                weights(out@) == self.options(props@, d, h as int, dept, w as int),
                self.placeable(out@),
            decreases self.shifts@.len() - w,
        {
            self.add_block(&mut out, props, d, w, h, dept);
            self.add_block(&mut out, props, d - 1, w, h + 24, dept);
            w += 1;
        }
        out
    }

    /// The first of some slots somebody can take, and who.
    fn take_first(&self, props: &Vec<Proposal>, list: &Vec<(i128, Slot)>, dept: Option<Id>) -> (r:
        Option<(Slot, Best)>)
        requires
            self.valid(),
            known(*self, props@),
            self.placeable(list@),
        ensures
            r == self.first_taken(props@, weights(list@), dept),
            r matches Some(x) ==> x.0.shift < self.shifts@.len() && x.0.span.valid()
                && valid_day(x.0.date) && self.near(x.0.date) && x.1.pick.person
                < self.staff@.len() && bounded(x.1.pick) && self.slot_at(
                x.0.date,
                x.0.shift as int,
            ) == Some(x.0) && self.may_take(
                props@,
                x.0,
                dept,
                None,
                x.1.pick.person as int,
            ) && (x.1.runner_up is Some ==> -MAX_SCORE
                <= x.1.runner_up->0 <= MAX_SCORE),
    {
        let ghost ws = weights(list@);
        let mut i: usize = 0;
        while i < list.len()
            invariant
                i <= list@.len(),
                ws == weights(list@),
                self.valid(),
                known(*self, props@),
                self.placeable(list@),
                self.first_taken(props@, ws.take(i as int), dept) is None,
            decreases list@.len() - i,
        {
            assert(ws.take(i + 1).drop_last() =~= ws.take(i as int));
            assert(ws.take(i + 1).last().1 == list@[i as int].1);
            let slot: Slot = list[i].1;
            if let Some(b) = self.best(props, &slot, dept, None) {
                proof {
                    self.lemma_first_taken_stays(props@, ws, dept, i + 1);
                }
                return Some((slot, b));
            }
            i += 1;
        }
        assert(ws.take(ws.len() as int) =~= ws);
        None
    }
}

/// What slots close, as integers.
pub open spec fn weights(list: Seq<(i128, Slot)>) -> Seq<(int, Slot)> {
    Seq::new(list.len(), |i: int| (list[i].0 as int, list[i].1))
}

/// Puts a need after those that come no later.
fn put_need(list: &mut Vec<Need>, x: Need)
    ensures
        final(list)@ == with_need(old(list)@, x),
{
    let ghost s = list@;
    let mut i: usize = list.len();
    assert(s.take(i as int) =~= s);
    assert(with_need(s, x) =~= with_need(s.take(i as int), x) + s.skip(i as int));
    while i > 0 && !comes_first(list[i - 1], x)
        invariant
            list@ == s,
            i <= s.len(),
            with_need(s, x) == with_need(s.take(i as int), x) + s.skip(i as int),
        decreases i,
    {
        let ghost front = s.take(i as int);
        i -= 1;
        assert(front.drop_last() =~= s.take(i as int));
        assert(with_need(s.take(i as int), x).push(s[i as int]) + s.skip(i + 1) =~= with_need(
            s.take(i as int),
            x,
        ) + s.skip(i as int));
    }
    list.insert(i, x);
    assert(list@ =~= s.take(i as int).push(x) + s.skip(i as int));
}

/// Whether a need comes no later than another.
fn comes_first(a: Need, b: Need) -> (r: bool)
    ensures
        r == need_le(a, b),
{
    if a.date != b.date {
        return a.date < b.date;
    }
    if a.hour != b.hour {
        return a.hour < b.hour;
    }
    match (a.department, b.department) {
        (None, _) => true,
        (Some(x), Some(y)) => x <= y,
        (Some(_), None) => false,
    }
}

proof fn lemma_with_need_holds(list: Seq<Need>, x: Need, y: Need)
    ensures
        with_need(list, x).contains(y) <==> list.contains(y) || y == x,
    decreases list.len(),
{
    broadcast use vstd::seq_lib::group_seq_properties;

    if list.len() == 0 || need_le(list.last(), x) {
    } else {
        lemma_with_need_holds(list.drop_last(), x, y);
        assert(list =~= list.drop_last().push(list.last()));
    }
}

/// Putting needs in order drops none and adds none.
pub proof fn law_ordering_keeps_the_needs(list: Seq<Need>, x: Need)
    ensures
        needs_in_order(list).contains(x) <==> list.contains(x),
    decreases list.len(),
{
    broadcast use vstd::seq_lib::group_seq_properties;

    if list.len() > 0 {
        law_ordering_keeps_the_needs(list.drop_last(), x);
        lemma_with_need_holds(needs_in_order(list.drop_last()), list.last(), x);
        assert(list =~= list.drop_last().push(list.last()));
    }
}

impl Problem {
    /// Needs by date, hour and department.
    fn sort_needs(&self) -> (r: Vec<Need>)
        ensures
            r@ == needs_in_order(self.need@),
    {
        let mut out: Vec<Need> = Vec::new();
        let mut i: usize = 0;
        while i < self.need.len()
            invariant
                i <= self.need@.len(),
                out@ == needs_in_order(self.need@.take(i as int)),
            decreases self.need@.len() - i,
        {
            assert(self.need@.take(i + 1).drop_last() =~= self.need@.take(i as int));
            put_need(&mut out, self.need[i]);
            i += 1;
        }
        assert(self.need@.take(self.need@.len() as int) =~= self.need@);
        out
    }

    /// Fills the hours a branch needs people at.
    pub fn fill_hourly(&self, props: &mut Vec<Proposal>)
        requires
            self.valid(),
            sound(*self, old(props)@),
        ensures
            final(props)@ == self.fill_hours(old(props)@, needs_in_order(self.need@)),
            sound(*self, final(props)@),
    {
        let keys: Vec<Need> = self.sort_needs();
        let ghost start = props@;
        proof {
            assert forall|k: int| 0 <= k < keys@.len() implies self.in_reach(
                (#[trigger] keys@[k]).date,
            ) && 0 <= keys@[k].hour < 24 by {
                law_ordering_keeps_the_needs(self.need@, keys@[k]);
                assert(keys@.contains(keys@[k]));
                let j = choose|j: int| 0 <= j < self.need@.len() && self.need@[j] == keys@[k];
                assert(self.in_reach(self.need@[j].date));
            }
        }
        let mut i: usize = 0;
        assert(keys@.take(0) =~= Seq::empty());
        while i < keys.len()
            invariant
                i <= keys@.len(),
                self.valid(),
                forall|k: int|
                    0 <= k < keys@.len() ==> self.in_reach((#[trigger] keys@[k]).date) && 0
                        <= keys@[k].hour < 24,
                sound(*self, props@),
                props@ == self.fill_hours(start, keys@.take(i as int)),
            decreases keys@.len() - i,
        {
            assert(keys@.take(i + 1).drop_last() =~= keys@.take(i as int));
            let key: Need = keys[i];
            assert(self.in_reach(keys@[i as int].date));
            let ghost before = props@;
            let have: i128 = self.covered(props, key.date, key.hour, key.department);
            let mut short: i128 = key.staff as i128 - have;
            let ghost total = short;
            while short > 0
                invariant_except_break
                    self.valid(),
                    self.in_reach(key.date),
                    0 <= key.hour < 24,
                    sound(*self, props@),
                    short <= i32::MAX,
                    self.fill_hour(before, key, total as int) == self.fill_hour(
                        props@,
                        key,
                        short as int,
                    ),
                ensures
                    props@ == self.fill_hour(before, key, total as int),
                    sound(*self, props@),
                decreases short,
            {
                let list: Vec<(i128, Slot)> = self.list_options(
                    props,
                    key.date,
                    key.hour,
                    key.department,
                );
                match self.take_first(props, &list, key.department) {
                    Some((slot, b)) => {
                        let ghost was = props@;
                        props.push(
                            proposal(
                                slot,
                                &b,
                                None,
                                key.department,
                                Reason::Coverage { hour: key.hour, short: short as i64 },
                            ),
                        );
                        proof {
                            lemma_taken_holds(*self, was, props@.last());
                        }
                        short -= 1;
                    },
                    None => {
                        break;
                    },
                }
            }
            i += 1;
        }
        assert(keys@.take(keys@.len() as int) =~= keys@);
    }
}

/// Filling an hour keeps what was proposed and proposes at most as many people
/// as it is short of; it stops short only where nobody can take a slot that
/// covers it.
pub proof fn law_an_hour_is_filled_as_far_as_it_can_be(
    p: Problem,
    props: Seq<Proposal>,
    key: Need,
    short: int,
)
    requires
        short >= 0,
    ensures
        ({
            let r = p.fill_hour(props, key, short);
            &&& props.len() <= r.len() <= props.len() + short
            &&& r.take(props.len() as int) == props
            &&& r.len() == props.len() + short || p.first_taken(
                r,
                p.options(
                    r,
                    key.date,
                    key.hour as int,
                    key.department,
                    p.shifts@.len() as int,
                ),
                key.department,
            ) is None
        }),
    decreases short,
{
    let list = p.options(
        props,
        key.date,
        key.hour as int,
        key.department,
        p.shifts@.len() as int,
    );
    let r = p.fill_hour(props, key, short);
    if short > 0 {
        if let Some((slot, b)) = p.first_taken(props, list, key.department) {
            let next = props.push(
                propose(slot, b, None, key.department, Reason::Coverage { hour: key.hour, short: short as i64 }),
            );
            law_an_hour_is_filled_as_far_as_it_can_be(p, next, key, short - 1);
            assert(r.take(props.len() as int) =~= r.take(next.len() as int).take(
                props.len() as int,
            ));
            assert(next.take(props.len() as int) =~= props);
        } else {
            assert(r.take(props.len() as int) =~= props);
        }
    } else {
        assert(r.take(props.len() as int) =~= props);
    }
}

// ── off the days they can't work ────────────────────────────────────────────

impl Problem {
    /// The proposals with, for somebody on a slot of a day they can't work,
    /// somebody else.
    pub open spec fn move_one(self, props: Seq<Proposal>, slot: Slot, u: Id) -> Seq<Proposal> {
        match first_with(self.staff@, u) {
            Some(i) => if self.staff@[i].cant_work_days@.contains((slot.date as int % 7) as i16) {
                match self.best_for(props, slot, None, Some(u)) {
                    Some(b) => props.push(
                        propose(slot, b, Some(u), None, Reason::CantWork { person: i as usize }),
                    ),
                    None => props,
                }
            } else {
                props
            },
            None => props,
        }
    }

    /// The same for each of some people on a slot.
    pub open spec fn move_each(self, props: Seq<Proposal>, slot: Slot, people: Seq<Id>) -> Seq<
        Proposal,
    >
        decreases people.len(),
    {
        if people.len() == 0 {
            props
        } else {
            self.move_one(self.move_each(props, slot, people.drop_last()), slot, people.last())
        }
    }

    /// The same for everybody on a block on a date.
    pub open spec fn move_block(self, props: Seq<Proposal>, d: Day, w: int) -> Seq<Proposal> {
        match self.slot_at(d, w) {
            Some(slot) => self.move_each(props, slot, people_on(self, props, d, w)),
            None => props,
        }
    }

    /// The same for the first `n` blocks of a date.
    pub open spec fn move_blocks(self, props: Seq<Proposal>, d: Day, n: int) -> Seq<Proposal>
        decreases n,
    {
        if n <= 0 {
            props
        } else {
            self.move_block(self.move_blocks(props, d, n - 1), d, n - 1)
        }
    }

    /// The same for the first `n` dates of the week.
    pub open spec fn move_week(self, props: Seq<Proposal>, n: int) -> Seq<Proposal>
        decreases n,
    {
        if n <= 0 {
            props
        } else {
            self.move_blocks(
                self.move_week(props, n - 1),
                (self.week + n - 1) as Day,
                self.shifts@.len() as int,
            )
        }
    }

    /// Moves everybody on a block on a date who can't work it.
    fn move_off_block(&self, props: &mut Vec<Proposal>, d: Day, w: usize)
        requires
            self.valid(),
            self.near(d),
            w < self.shifts@.len(),
            sound(*self, old(props)@),
        ensures
            final(props)@ == self.move_block(old(props)@, d, w as int),
            sound(*self, final(props)@),
    {
        let slot: Slot = match self.slot(d, w) {
            Some(slot) => slot,
            None => {
                return ;
            },
        };
        let assigned: Vec<Id> = self.list_people(props, d, w);
        let ghost start = props@;
        let dow: i16 = day_of_week(d) as i16;
        let mut i: usize = 0;
        while i < assigned.len()
            invariant
                i <= assigned@.len(),
                self.valid(),
                slot.shift < self.shifts@.len(),
                slot.span.valid(),
                valid_day(slot.date),
                self.near(slot.date),
                self.slot_at(slot.date, slot.shift as int) == Some(slot),
                dow == slot.date as int % 7,
                sound(*self, props@),
                props@ == self.move_each(start, slot, assigned@.take(i as int)),
            decreases assigned@.len() - i,
        {
            assert(assigned@.take(i + 1).drop_last() =~= assigned@.take(i as int));
            let u: Id = assigned[i];
            let ghost before = props@;
            if let Some(k) = self.find_staff(u) {
                if has_day(&self.staff[k].cant_work_days, dow) {
                    if let Some(b) = self.best(props, &slot, None, Some(u)) {
                        props.push(proposal(slot, &b, Some(u), None, Reason::CantWork { person: k }));
                        proof {
                            lemma_taken_holds(*self, before, props@.last());
                        }
                    }
                }
            }
            i += 1;
        }
        assert(assigned@.take(assigned@.len() as int) =~= assigned@);
    }

    /// Someone rostered on a day they said they can't work: suggest another.
    pub fn move_off_cant_work(&self, props: &mut Vec<Proposal>)
        requires
            self.valid(),
            sound(*self, old(props)@),
        ensures
            final(props)@ == self.move_week(old(props)@, 7),
            sound(*self, final(props)@),
    {
        let days: Vec<Day> = self.dates();
        let ghost start = props@;
        let mut i: usize = 0;
        while i < days.len()
            invariant
                i <= days@.len() == 7,
                self.valid(),
                days@ == Seq::new(7, |i: int| (self.week + i) as Day),
                sound(*self, props@),
                props@ == self.move_week(start, i as int),
            decreases days@.len() - i,
        {
            let d: Day = days[i];
            let ghost of_day = props@;
            let mut w: usize = 0;
            while w < self.shifts.len()
                invariant
                    w <= self.shifts@.len(),
                    self.valid(),
                    self.near(d),
                    sound(*self, props@),
                    props@ == self.move_blocks(of_day, d, w as int),
                decreases self.shifts@.len() - w,
            {
                self.move_off_block(props, d, w);
                w += 1;
            }
            i += 1;
        }
    }
}

/// Needs are met in order: by date, then by the hour, and of one hour anybody's
/// before a department's.
pub proof fn law_needs_are_met_in_order(a: Need, b: Need)
    ensures
        a.date < b.date ==> need_le(a, b) && !need_le(b, a),
        a.date == b.date && a.hour < b.hour ==> need_le(a, b) && !need_le(b, a),
        a.date == b.date && a.hour == b.hour && a.department is None ==> need_le(a, b),
        a.date == b.date && a.hour == b.hour && a.department is None && b.department is Some
            ==> !need_le(b, a),
        a.date == b.date && a.hour == b.hour && a.department is Some && b.department is Some ==> (
        need_le(a, b) <==> a.department->0 <= b.department->0),
{
}

/// The needs are in that order once they are put in it.
pub proof fn law_needs_are_put_in_order(list: Seq<Need>)
    ensures
        needs_in_order(list).len() == list.len(),
        forall|i: int, j: int|
            0 <= i < j < list.len() ==> need_le(
                #[trigger] needs_in_order(list)[i],
                #[trigger] needs_in_order(list)[j],
            ),
    decreases list.len(),
{
    if list.len() > 0 {
        law_needs_are_put_in_order(list.drop_last());
        lemma_with_need_in_order(needs_in_order(list.drop_last()), list.last());
    }
}

proof fn lemma_with_need_in_order(list: Seq<Need>, x: Need)
    requires
        forall|i: int, j: int|
            0 <= i < j < list.len() ==> need_le(#[trigger] list[i], #[trigger] list[j]),
    ensures
        with_need(list, x).len() == list.len() + 1,
        forall|k: int|
            0 <= k < list.len() + 1 ==> #[trigger] with_need(list, x)[k] == x || list.contains(
                with_need(list, x)[k],
            ),
        forall|i: int, j: int|
            0 <= i < j < list.len() + 1 ==> need_le(
                #[trigger] with_need(list, x)[i],
                #[trigger] with_need(list, x)[j],
            ),
    decreases list.len(),
{
    let all = with_need(list, x);
    if list.len() == 0 || need_le(list.last(), x) {
        assert forall|i: int, j: int| 0 <= i < j < all.len() implies need_le(
            #[trigger] all[i],
            #[trigger] all[j],
        ) by {
            if j == list.len() && i < list.len() - 1 {
                assert(need_le(list[i], list[list.len() - 1]));
            }
        }
        assert forall|k: int| 0 <= k < all.len() implies #[trigger] all[k] == x || list.contains(
            all[k],
        ) by {
            if k < list.len() {
                assert(list[k] == all[k]);
            }
        }
    } else {
        let short = list.drop_last();
        assert forall|i: int, j: int| 0 <= i < j < short.len() implies need_le(
            #[trigger] short[i],
            #[trigger] short[j],
        ) by {
            assert(need_le(list[i], list[j]));
        }
        lemma_with_need_in_order(short, x);
        let front = with_need(short, x);
        assert forall|k: int| 0 <= k < all.len() implies #[trigger] all[k] == x || list.contains(
            all[k],
        ) by {
            if k < front.len() {
                assert(all[k] == front[k]);
                if front[k] != x {
                    let m = choose|m: int| 0 <= m < short.len() && short[m] == front[k];
                    assert(list[m] == all[k]);
                }
            } else {
                assert(list[list.len() - 1] == all[k]);
            }
        }
        assert forall|i: int, j: int| 0 <= i < j < all.len() implies need_le(
            #[trigger] all[i],
            #[trigger] all[j],
        ) by {
            if j == front.len() {
                assert(all[i] == front[i]);
                if front[i] != x {
                    let m = choose|m: int| 0 <= m < short.len() && short[m] == front[i];
                    assert(need_le(list[m], list[list.len() - 1]));
                }
            } else {
                assert(all[i] == front[i] && all[j] == front[j]);
            }
        }
    }
}

/// Somebody is of a department by their own entry on the staff; whoever is not on
/// the staff is of none, and where none is asked for anybody counts.
pub proof fn law_who_is_of_a_department(p: Problem, u: Id, dept: Option<Id>, i: int)
    requires
        0 <= i < p.staff@.len(),
        p.staff@[i].employee_id == u,
        forall|k: int| 0 <= k < i ==> (#[trigger] p.staff@[k]).employee_id != u,
    ensures
        p.of_department(u, None),
        dept is Some ==> (p.of_department(u, dept) <==> p.staff@[i].department_id == dept),
{
    lemma_first_with(p.staff@, u);
}

} // verus!
