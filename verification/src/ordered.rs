//! Lists kept in order, each item once.

use vstd::prelude::*;

use crate::calendar::{Day, Id};

verus! {

/// Items with an order between any two that differ.
pub trait Ranked: Sized + Copy {
    /// Comes before the other.
    spec fn before(self, other: Self) -> bool;

    /// Nothing comes before itself, what comes before what comes before comes
    /// before, and of two that differ one comes before the other.
    proof fn lemma_order(a: Self, b: Self, c: Self)
        ensures
            !a.before(a),
            a.before(b) && b.before(c) ==> a.before(c),
            a != b ==> a.before(b) || b.before(a),
    ;

    /// Comes before the other.
    fn is_before(&self, other: &Self) -> (r: bool)
        ensures
            r == self.before(*other),
    ;
}

/// The list with the item at its place, unless it holds it.
pub open spec fn with_item<T: Ranked>(list: Seq<T>, x: T) -> Seq<T>
    decreases list.len(),
{
    if list.len() == 0 {
        seq![x]
    } else if list.last() == x {
        list
    } else if list.last().before(x) {
        list.push(x)
    } else {
        with_item(list.drop_last(), x).push(list.last())
    }
}

/// The distinct items of a list, in order.
pub open spec fn sorted_once<T: Ranked>(list: Seq<T>) -> Seq<T>
    decreases list.len(),
{
    if list.len() == 0 {
        Seq::empty()
    } else {
        with_item(sorted_once(list.drop_last()), list.last())
    }
}

/// Strictly one after another.
pub open spec fn in_order<T: Ranked>(list: Seq<T>) -> bool {
    forall|i: int, j: int|
        0 <= i < j < list.len() ==> (#[trigger] list[i]).before(#[trigger] list[j])
}

pub proof fn lemma_with_item<T: Ranked>(list: Seq<T>, d: T)
    requires
        in_order(list),
    ensures
        in_order(with_item(list, d)),
        forall|x: T| #[trigger] with_item(list, d).contains(x) <==> x == d || list.contains(x),
    decreases list.len(),
{
    let out = with_item(list, d);
    if list.len() == 0 {
        assert(out[0] == d);
    } else if list.last() == d {
        assert(list.contains(d));
    } else if list.last().before(d) {
        assert(out[list.len() as int] == d);
        assert forall|i: int, j: int| 0 <= i < j < out.len() implies (#[trigger] out[i]).before(
            #[trigger] out[j],
        ) by {
            if j == list.len() && i < list.len() - 1 {
                assert(list[i].before(list.last()));
                T::lemma_order(list[i], list.last(), d);
            }
        }
        assert forall|x: T| #[trigger] out.contains(x) <==> x == d || list.contains(x) by {
            if list.contains(x) {
                let k = choose|k: int| 0 <= k < list.len() && list[k] == x;
                assert(out[k] == x);
            }
            if out.contains(x) {
                let k = choose|k: int| 0 <= k < out.len() && out[k] == x;
                if k < list.len() {
                    assert(list[k] == x);
                }
            }
        }
    } else {
        let rest = list.drop_last();
        let moved = with_item(rest, d);
        lemma_with_item(rest, d);
        T::lemma_order(list.last(), d, d);
        assert forall|i: int, j: int| 0 <= i < j < out.len() implies (#[trigger] out[i]).before(
            #[trigger] out[j],
        ) by {
            if j == moved.len() {
                assert(moved.contains(moved[i]));
                if moved[i] != d {
                    assert(rest.contains(moved[i]));
                    let k = choose|k: int| 0 <= k < rest.len() && rest[k] == moved[i];
                    assert(list[k] == moved[i]);
                }
            } else {
                assert(moved[i].before(moved[j]));
            }
        }
        assert forall|x: T| #[trigger] out.contains(x) <==> x == d || list.contains(x) by {
            if out.contains(x) {
                let k = choose|k: int| 0 <= k < out.len() && out[k] == x;
                if k < moved.len() {
                    assert(moved.contains(x));
                    if x != d {
                        assert(rest.contains(x));
                        let m = choose|m: int| 0 <= m < rest.len() && rest[m] == x;
                        assert(list[m] == x);
                    }
                } else {
                    assert(list[list.len() - 1] == x);
                }
            }
            if x == d || list.contains(x) {
                if x == list.last() {
                    assert(out[moved.len() as int] == x);
                } else {
                    if x != d {
                        let m = choose|m: int| 0 <= m < list.len() && list[m] == x;
                        assert(rest[m] == x);
                        assert(rest.contains(x));
                    }
                    assert(moved.contains(x));
                    let k = choose|k: int| 0 <= k < moved.len() && moved[k] == x;
                    assert(out[k] == x);
                }
            }
        }
    }
}

/// Sorting keeps every item once, in order.
pub proof fn law_sorted_once<T: Ranked>(list: Seq<T>)
    ensures
        in_order(sorted_once(list)),
        forall|x: T| #[trigger] sorted_once(list).contains(x) <==> list.contains(x),
    decreases list.len(),
{
    if list.len() > 0 {
        let rest = list.drop_last();
        law_sorted_once(rest);
        lemma_with_item(sorted_once(rest), list.last());
        assert forall|x: T| #[trigger] sorted_once(list).contains(x) <==> list.contains(x) by {
            if list.contains(x) {
                let k = choose|k: int| 0 <= k < list.len() && list[k] == x;
                if k < rest.len() {
                    assert(rest[k] == x);
                    assert(rest.contains(x));
                }
            }
            if rest.contains(x) {
                let k = choose|k: int| 0 <= k < rest.len() && rest[k] == x;
                assert(list[k] == x);
            }
            assert(list[list.len() - 1] == list.last());
        }
    }
}

/// Puts the item at its place, unless the list holds it.
pub fn put_item<T: Ranked>(list: &mut Vec<T>, d: T)
    ensures
        final(list)@ == with_item(old(list)@, d),
{
    let ghost start = list@;
    let mut at: usize = list.len();
    proof {
        assert(start.take(at as int) =~= start);
        assert(with_item(start, d) + start.skip(at as int) =~= with_item(start, d));
    }
    while at > 0 && d.is_before(&list[at - 1])
        invariant
            at <= list@.len(),
            list@ == start,
            with_item(start, d) == with_item(start.take(at as int), d) + start.skip(at as int),
        decreases at,
    {
        proof {
            let cut = start.take(at as int);
            assert(cut.last() == start[at - 1]);
            assert(cut.drop_last() =~= start.take(at - 1));
            T::lemma_order(d, cut.last(), d);
            assert(with_item(cut, d) == with_item(cut.drop_last(), d).push(cut.last()));
            assert(with_item(cut.drop_last(), d).push(cut.last()) + start.skip(at as int)
                =~= with_item(cut.drop_last(), d) + start.skip(at - 1));
        }
        at -= 1;
    }
    if at > 0 && !list[at - 1].is_before(&d) {
        proof {
            let cut = start.take(at as int);
            assert(cut.last() == start[at - 1]);
            T::lemma_order(cut.last(), d, d);
            assert(cut + start.skip(at as int) =~= start);
        }
    } else {
        list.insert(at, d);
        proof {
            let cut = start.take(at as int);
            if at == 0 {
                assert(cut =~= Seq::empty());
                assert(seq![d] + start.skip(0) =~= list@);
            } else {
                assert(cut.last() == start[at - 1]);
                T::lemma_order(cut.last(), d, d);
                assert(cut.push(d) + start.skip(at as int) =~= list@);
            }
        }
    }
}

impl Ranked for Day {
    open spec fn before(self, other: Day) -> bool {
        self < other
    }

    proof fn lemma_order(a: Day, b: Day, c: Day) {
    }

    fn is_before(&self, other: &Day) -> (r: bool) {
        *self < *other
    }
}

impl Ranked for i16 {
    open spec fn before(self, other: i16) -> bool {
        self < other
    }

    proof fn lemma_order(a: i16, b: i16, c: i16) {
    }

    fn is_before(&self, other: &i16) -> (r: bool) {
        *self < *other
    }
}

/// A day at a branch.
#[derive(Debug, Clone, Copy, PartialEq, Eq, Structural)]
pub struct BranchDay {
    pub date: Day,
    pub branch_id: Id,
}

/// Earlier days first, and on a day the branches by their ids.
impl Ranked for BranchDay {
    open spec fn before(self, other: BranchDay) -> bool {
        self.date < other.date || self.date == other.date && self.branch_id < other.branch_id
    }

    proof fn lemma_order(a: BranchDay, b: BranchDay, c: BranchDay) {
    }

    fn is_before(&self, other: &BranchDay) -> (r: bool) {
        self.date < other.date || (self.date == other.date && self.branch_id < other.branch_id)
    }
}

/// A person's day.
#[derive(Debug, Clone, Copy, PartialEq, Eq, Structural)]
pub struct PersonDay {
    pub employee_id: Id,
    pub date: Day,
}

/// People by their ids, and each one's days in order.
impl Ranked for PersonDay {
    open spec fn before(self, other: PersonDay) -> bool {
        self.employee_id < other.employee_id || self.employee_id == other.employee_id && self.date
            < other.date
    }

    proof fn lemma_order(a: PersonDay, b: PersonDay, c: PersonDay) {
    }

    fn is_before(&self, other: &PersonDay) -> (r: bool) {
        self.employee_id < other.employee_id || (self.employee_id == other.employee_id
            && self.date < other.date)
    }
}

} // verus!
