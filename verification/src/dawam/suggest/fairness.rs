//! The fairness audit: who works the nights, by gender, against who said they
//! want them.

use vstd::prelude::*;

use crate::calendar::{day_number, day_of, law_a_day_is_one_date, valid_day, valid_ymd, ymd_of, Day};
use crate::dawam::suggest::offers::LearningState;

verus! {

/// One gender's month.
pub struct FairnessRow {
    /// `m` · `f`, or not set.
    pub gender: Option<String>,
    pub people: i64,
    /// Said they prefer evenings.
    pub willing: i64,
    pub shifts: i64,
    pub night_shifts: i64,
    /// Suggestions for people of this gender decided in the month, and
    /// accepted.
    pub suggested: i64,
    pub accepted: i64,
}

/// A gap wider than this many percentage points is flagged.
pub const MAX_GAP_POINTS: i64 = 20;

impl FairnessRow {
    /// Counts of a month.
    pub open spec fn valid(self) -> bool {
        self.people >= 0 && self.willing >= 0 && self.night_shifts >= 0
    }
}

/// Rows of a month, whose totals a count holds.
pub open spec fn valid_rows(rows: Seq<FairnessRow>) -> bool {
    &&& forall|i: int| 0 <= i < rows.len() ==> (#[trigger] rows[i]).valid()
    &&& totals(rows).0 <= i64::MAX
    &&& totals(rows).1 <= i64::MAX
    &&& totals(rows).2 <= i64::MAX
}

/// The night shifts, those willing and the people of all rows.
pub open spec fn totals(rows: Seq<FairnessRow>) -> (int, int, int)
    decreases rows.len(),
{
    if rows.len() == 0 {
        (0, 0, 0)
    } else {
        let before = totals(rows.drop_last());
        let r = rows.last();
        (before.0 + r.night_shifts, before.1 + r.willing, before.2 + r.people)
    }
}

/// The distance between two shares, in percentage points to the nearest one,
/// halves up.
pub open spec fn points_apart(a: int, of: int, b: int, of_b: int) -> int {
    let apart = if a * of_b >= b * of {
        a * of_b - b * of
    } else {
        b * of - a * of_b
    };
    (200 * apart + of * of_b) / (2 * (of * of_b))
}

/// One gender's gap: its share of the night shifts against its share of stated
/// willingness, or of headcount when nobody stated any.
pub open spec fn gap_of(r: FairnessRow, t: (int, int, int)) -> int {
    if t.1 > 0 {
        points_apart(r.night_shifts as int, t.0, r.willing as int, t.1)
    } else if t.2 > 0 {
        points_apart(r.night_shifts as int, t.0, r.people as int, t.2)
    } else {
        points_apart(r.night_shifts as int, t.0, 0, 1)
    }
}

/// The widest gap among the first rows, of those with a gender.
pub open spec fn widest(rows: Seq<FairnessRow>, t: (int, int, int)) -> int
    decreases rows.len(),
{
    if rows.len() == 0 {
        0
    } else {
        let before = widest(rows.drop_last(), t);
        let r = rows.last();
        if r.gender is Some && gap_of(r, t) > before {
            gap_of(r, t)
        } else {
            before
        }
    }
}

/// The widest gap between a gender's night share and its willingness share;
/// none without night shifts.
pub open spec fn gap(rows: Seq<FairnessRow>) -> int {
    if totals(rows).0 == 0 {
        0
    } else {
        widest(rows, totals(rows))
    }
}

/// Shares are no more than a hundred points apart.
pub proof fn law_shares_are_a_hundred_points_apart_at_most(a: int, of: int, b: int, of_b: int)
    requires
        0 <= a <= of,
        0 <= b <= of_b,
        of > 0,
        of_b > 0,
    ensures
        0 <= points_apart(a, of, b, of_b) <= 100,
{
    let whole = of * of_b;
    assert(0 <= a * of_b <= whole && 0 <= b * of <= whole && whole > 0) by (nonlinear_arith)
        requires
            0 <= a <= of,
            0 <= b <= of_b,
            of > 0,
            of_b > 0,
            whole == of * of_b,
    ;
    let apart = if a * of_b >= b * of {
        a * of_b - b * of
    } else {
        b * of - a * of_b
    };
    let n = 200 * apart + whole;
    assert(0 <= n / (2 * whole) <= 100) by (nonlinear_arith)
        requires
            0 <= n <= 201 * whole,
            whole > 0,
    ;
}

/// A hundred times a part over the whole, to the nearest one, halves up.
fn hundredths(part: i128, whole: i128) -> (r: i64)
    requires
        0 <= part <= whole,
        0 < whole <= 85_070_591_730_234_615_865_843_651_857_942_052_864,
    ensures
        r == (200 * part + whole) / (2 * whole as int),
{
    let mut q: i64 = 0;
    let mut rem: i128 = 0;
    let mut k: i64 = 0;
    while k < 100
        invariant
            0 <= q <= k <= 100,
            0 <= part <= whole,
            0 <= rem < whole <= 85_070_591_730_234_615_865_843_651_857_942_052_864,
            q * whole + rem == k * part,
        decreases 100 - k,
    {
        proof {
            assert((q + 1) * whole == q * whole + whole) by (nonlinear_arith);
            assert((k + 1) * part == k * part + part) by (nonlinear_arith);
        }
        rem = rem + part;
        if rem >= whole {
            rem = rem - whole;
            q = q + 1;
        }
        k = k + 1;
    }
    let up: bool = rem >= whole - rem;
    let r: i64 = if up {
        q + 1
    } else {
        q
    };
    proof {
        let d = 2 * whole as int;
        let left = if up {
            2 * rem - whole
        } else {
            2 * rem + whole
        };
        assert(200 * part + whole == r * d + left) by (nonlinear_arith)
            requires
                q * whole + rem == 100 * part,
                d == 2 * whole,
                r == q + 1 && left == 2 * rem - whole || r == q && left == 2 * rem + whole,
        ;
        vstd::arithmetic::div_mod::lemma_fundamental_div_mod_converse(
            200 * part + whole,
            d,
            r as int,
            left,
        );
    }
    r
}

fn points(a: i64, of: i64, b: i64, of_b: i64) -> (r: i64)
    requires
        0 <= a <= of,
        0 < of,
        0 <= b <= of_b,
        0 < of_b,
    ensures
        r == points_apart(a as int, of as int, b as int, of_b as int),
        0 <= r <= 100,
{
    proof {
        law_shares_are_a_hundred_points_apart_at_most(a as int, of as int, b as int, of_b as int);
    }
    assert(0 <= a * of_b <= of * of_b && 0 <= b * of <= of * of_b && 0 < of * of_b
        <= 9_223_372_036_854_775_807 * 9_223_372_036_854_775_807) by (nonlinear_arith)
        requires
            0 <= a <= of,
            0 < of <= 9_223_372_036_854_775_807,
            0 <= b <= of_b,
            0 < of_b <= 9_223_372_036_854_775_807,
    ;
    let whole: i128 = of as i128 * of_b as i128;
    let x: i128 = a as i128 * of_b as i128;
    let y: i128 = b as i128 * of as i128;
    let apart: i128 = if x >= y {
        x - y
    } else {
        y - x
    };
    hundredths(apart, whole)
}

/// A row's counts are part of the totals.
proof fn lemma_part_of_totals(rows: Seq<FairnessRow>, i: int)
    requires
        forall|k: int| 0 <= k < rows.len() ==> (#[trigger] rows[k]).valid(),
        0 <= i < rows.len(),
    ensures
        0 <= rows[i].night_shifts <= totals(rows).0,
        0 <= rows[i].willing <= totals(rows).1,
        0 <= rows[i].people <= totals(rows).2,
    decreases rows.len(),
{
    let short = rows.drop_last();
    assert(rows[i].valid());
    assert forall|k: int| 0 <= k < short.len() implies (#[trigger] short[k]).valid() by {
        assert(rows[k].valid());
    }
    if i < short.len() {
        lemma_part_of_totals(short, i);
        assert(rows[rows.len() - 1].valid());
    } else {
        lemma_totals_grow(short);
    }
}

proof fn lemma_totals_grow(rows: Seq<FairnessRow>)
    requires
        forall|k: int| 0 <= k < rows.len() ==> (#[trigger] rows[k]).valid(),
    ensures
        totals(rows).0 >= 0,
        totals(rows).1 >= 0,
        totals(rows).2 >= 0,
    decreases rows.len(),
{
    if rows.len() > 0 {
        let short = rows.drop_last();
        assert forall|k: int| 0 <= k < short.len() implies (#[trigger] short[k]).valid() by {
            assert(rows[k].valid());
        }
        lemma_totals_grow(short);
        assert(rows[rows.len() - 1].valid());
    }
}

/// The totals grow with every row.
proof fn lemma_totals_within(rows: Seq<FairnessRow>, n: int)
    requires
        forall|k: int| 0 <= k < rows.len() ==> (#[trigger] rows[k]).valid(),
        0 <= n <= rows.len(),
    ensures
        0 <= totals(rows.take(n)).0 <= totals(rows).0,
        0 <= totals(rows.take(n)).1 <= totals(rows).1,
        0 <= totals(rows.take(n)).2 <= totals(rows).2,
    decreases rows.len(),
{
    if n == rows.len() {
        assert(rows.take(n) =~= rows);
        lemma_totals_grow(rows);
    } else {
        let short = rows.drop_last();
        assert forall|k: int| 0 <= k < short.len() implies (#[trigger] short[k]).valid() by {
            assert(rows[k].valid());
        }
        lemma_totals_within(short, n);
        assert(short.take(n) =~= rows.take(n));
        assert(rows[rows.len() - 1].valid());
    }
}

fn add_totals(rows: &[FairnessRow]) -> (r: (i64, i64, i64))
    requires
        valid_rows(rows@),
    ensures
        (r.0 as int, r.1 as int, r.2 as int) == totals(rows@),
        0 <= r.0 && 0 <= r.1 && 0 <= r.2,
{
    let mut nights: i64 = 0;
    let mut willing: i64 = 0;
    let mut people: i64 = 0;
    let mut i: usize = 0;
    while i < rows.len()
        invariant
            i <= rows@.len(),
            valid_rows(rows@),
            (nights as int, willing as int, people as int) == totals(rows@.take(i as int)),
            0 <= nights && 0 <= willing && 0 <= people,
        decreases rows@.len() - i,
    {
        assert(rows@.take(i + 1).drop_last() =~= rows@.take(i as int));
        assert(rows@[i as int].valid());
        proof {
            lemma_totals_within(rows@, i + 1);
        }
        nights = nights + rows[i].night_shifts;
        willing = willing + rows[i].willing;
        people = people + rows[i].people;
        i += 1;
    }
    assert(rows@.take(rows@.len() as int) =~= rows@);
    (nights, willing, people)
}

/// The widest gap between a gender's night share and its willingness share, in
/// percentage points.
pub fn gap_points(rows: &[FairnessRow]) -> (r: i64)
    requires
        valid_rows(rows@),
    ensures
        r == gap(rows@),
        0 <= r <= 100,
{
    let (nights, willing, people) = add_totals(rows);
    if nights == 0 {
        return 0;
    }
    let ghost t = totals(rows@);
    let mut most: i64 = 0;
    let mut i: usize = 0;
    while i < rows.len()
        invariant
            i <= rows@.len(),
            valid_rows(rows@),
            t == totals(rows@),
            (nights as int, willing as int, people as int) == t,
            0 < nights && 0 <= willing && 0 <= people,
            most == widest(rows@.take(i as int), t),
            0 <= most <= 100,
        decreases rows@.len() - i,
    {
        assert(rows@.take(i + 1).drop_last() =~= rows@.take(i as int));
        assert(rows@[i as int].valid());
        proof {
            lemma_part_of_totals(rows@, i as int);
        }
        let r: &FairnessRow = &rows[i];
        let g: i64 = if willing > 0 {
            points(r.night_shifts, nights, r.willing, willing)
        } else if people > 0 {
            points(r.night_shifts, nights, r.people, people)
        } else {
            points(r.night_shifts, nights, 0, 1)
        };
        if r.gender.is_some() && g > most {
            most = g;
        }
        i += 1;
    }
    assert(rows@.take(rows@.len() as int) =~= rows@);
    most
}

/// A branch's month.
#[derive(Debug, Clone, Copy, PartialEq, Eq)]
pub struct BranchFairness {
    /// The widest gap, in percentage points.
    pub gap_points: i64,
    pub flagged: bool,
    /// Learning is paused at this branch.
    pub learning_frozen: bool,
    /// What the owners are told.
    pub notice: &'static str,
}

/// The audit of a branch's month: a gap over twenty points is flagged.
pub fn branch_fairness(rows: &[FairnessRow], learning: &LearningState) -> (r: BranchFairness)
    requires
        valid_rows(rows@),
    ensures
        r.gap_points == gap(rows@),
        r.flagged == (gap(rows@) > MAX_GAP_POINTS),
        r.flagged <==> gap(rows@) >= 21,
        r.learning_frozen == learning.frozen,
        r.notice@ == if gap(rows@) > MAX_GAP_POINTS {
            "staff.n_fairness_flagged"@
        } else {
            "staff.n_fairness_ready"@
        },
{
    let g: i64 = gap_points(rows);
    let flagged: bool = g > MAX_GAP_POINTS;
    BranchFairness {
        gap_points: g,
        flagged,
        learning_frozen: learning.frozen,
        notice: if flagged {
            "staff.n_fairness_flagged"
        } else {
            "staff.n_fairness_ready"
        },
    }
}

/// Learning is paused at one of the branches.
pub fn any_frozen(branches: &Vec<BranchFairness>) -> (r: bool)
    ensures
        r == exists|i: int|
            0 <= i < branches@.len() && (#[trigger] branches@[i]).learning_frozen,
{
    let mut i: usize = 0;
    while i < branches.len()
        invariant
            i <= branches@.len(),
            forall|k: int| 0 <= k < i ==> !(#[trigger] branches@[k]).learning_frozen,
        decreases branches@.len() - i,
    {
        if branches[i].learning_frozen {
            return true;
        }
        i += 1;
    }
    false
}

/// The first day of the month a date falls in.
pub fn month_start(day: Day) -> (r: Day)
    requires
        valid_day(day),
    ensures
        forall|y: int, m: int, d: int|
            valid_ymd(y, m, d) && #[trigger] day_number(y, m, d) == day ==> r == day_number(y, m, 1),
{
    let (y, m, d) = ymd_of(day);
    let first: Day = match day_of(y, m, 1) {
        Some(v) => v,
        None => day,
    };
    proof {
        assert forall|y2: int, m2: int, d2: int|
            valid_ymd(y2, m2, d2) && #[trigger] day_number(y2, m2, d2) == day implies first
            == day_number(y2, m2, 1) by {
            law_a_day_is_one_date(y as int, m as int, d as int, y2, m2, d2);
        }
    }
    first
}

/// Shares that agree are no points apart.
pub proof fn law_equal_shares_have_no_gap(a: int, of: int)
    requires
        of > 0,
    ensures
        points_apart(a, of, a, of) == 0,
{
    assert((200 * 0 + of * of) / (2 * (of * of)) == 0) by (nonlinear_arith)
        requires
            of > 0,
    ;
}

/// The points between two shares are a hundred times their distance to the
/// nearest whole one, a half up, whichever is named first.
pub proof fn law_points_are_the_nearest_hundredth(a: int, of: int, b: int, of_b: int)
    requires
        of > 0,
        of_b > 0,
    ensures
        ({
            let r = points_apart(a, of, b, of_b);
            let whole = of * of_b;
            &&& r == points_apart(b, of_b, a, of)
            &&& a * of_b >= b * of ==> (2 * r - 1) * whole <= 200 * (a * of_b - b * of) < (2 * r + 1)
                * whole
        }),
{
    let whole = of * of_b;
    assert(whole > 0) by (nonlinear_arith)
        requires
            of > 0,
            of_b > 0,
            whole == of * of_b,
    ;
    assert(of_b * of == whole) by (nonlinear_arith)
        requires
            whole == of * of_b,
    ;
    if a * of_b >= b * of {
        let n = 200 * (a * of_b - b * of) + whole;
        let q = n / (2 * whole);
        assert(2 * whole * q <= n < 2 * whole * q + 2 * whole) by (nonlinear_arith)
            requires
                whole > 0,
                q == n / (2 * whole),
        ;
        assert((2 * q - 1) * whole == 2 * whole * q - whole && (2 * q + 1) * whole == 2 * whole * q
            + whole) by (nonlinear_arith);
    }
}

/// Every row counts once in the totals.
pub proof fn law_every_row_counts(rows: Seq<FairnessRow>, r: FairnessRow)
    ensures
        totals(rows.push(r)).0 == totals(rows).0 + r.night_shifts,
        totals(rows.push(r)).1 == totals(rows).1 + r.willing,
        totals(rows.push(r)).2 == totals(rows).2 + r.people,
        totals(Seq::empty()) == (0int, 0int, 0int),
{
    assert(rows.push(r).drop_last() =~= rows);
}

/// A gender's night share is held against its share of those willing, or of
/// everybody where nobody said, in which case what they said does not matter.
pub proof fn law_nights_are_held_against_willingness(
    r: FairnessRow,
    nights: int,
    willing: int,
    people: int,
)
    ensures
        willing > 0 ==> gap_of(r, (nights, willing, people)) == points_apart(
            r.night_shifts as int,
            nights,
            r.willing as int,
            willing,
        ),
        willing <= 0 && people > 0 ==> gap_of(r, (nights, willing, people)) == points_apart(
            r.night_shifts as int,
            nights,
            r.people as int,
            people,
        ),
{
}

/// The gap is the widest of those with a gender: none of them is wider, and one
/// is as wide unless there is none; without night shifts there is none.
pub proof fn law_the_gap_is_the_widest(rows: Seq<FairnessRow>)
    ensures
        totals(rows).0 == 0 ==> gap(rows) == 0,
        totals(rows).0 != 0 ==> forall|i: int|
            0 <= i < rows.len() && (#[trigger] rows[i]).gender is Some ==> gap_of(
                rows[i],
                totals(rows),
            ) <= gap(rows),
        gap(rows) == 0 || exists|i: int|
            0 <= i < rows.len() && (#[trigger] rows[i]).gender is Some && gap_of(
                rows[i],
                totals(rows),
            ) == gap(rows),
{
    lemma_widest(rows, totals(rows));
}

proof fn lemma_widest(rows: Seq<FairnessRow>, t: (int, int, int))
    ensures
        forall|i: int|
            0 <= i < rows.len() && (#[trigger] rows[i]).gender is Some ==> gap_of(rows[i], t)
                <= widest(rows, t),
        widest(rows, t) == 0 || exists|i: int|
            0 <= i < rows.len() && (#[trigger] rows[i]).gender is Some && gap_of(rows[i], t)
                == widest(rows, t),
    decreases rows.len(),
{
    if rows.len() > 0 {
        let short = rows.drop_last();
        lemma_widest(short, t);
        assert forall|i: int| 0 <= i < rows.len() && (#[trigger] rows[i]).gender
            is Some implies gap_of(rows[i], t) <= widest(rows, t) by {
            if i < short.len() {
                assert(short[i] == rows[i]);
            }
        }
        if widest(rows, t) == widest(short, t) {
            if widest(short, t) != 0 {
                let i = choose|i: int|
                    0 <= i < short.len() && (#[trigger] short[i]).gender is Some && gap_of(
                        short[i],
                        t,
                    ) == widest(short, t);
                assert(rows[i] == short[i]);
            }
        } else {
            assert(rows[rows.len() - 1] == rows.last());
        }
    }
}

} // verus!
