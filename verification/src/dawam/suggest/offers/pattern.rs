//! Making an edit the standing pattern.

use vstd::prelude::*;

use crate::calendar::{same_id, valid_day, Day, Id};
use crate::days::{dow, weekday};

verus! {

/// One row of a person's standing pattern: a block on one weekday or on every
/// day, from a date until another.
#[derive(Debug, Clone, Copy, PartialEq, Eq, Structural)]
pub struct ScheduleRow {
    /// Its id where it is stored, none where it is new.
    pub id: Option<Id>,
    pub work_shift_id: Id,
    /// 0 = Sunday … 6 = Saturday; none for every day.
    pub day_of_week: Option<i16>,
    pub effective_from: Day,
    pub effective_to: Option<Day>,
}

/// The row still counts on or after the date.
pub open spec fn lasts(r: ScheduleRow, d: Day) -> bool {
    r.effective_to is None || r.effective_to->0 >= d
}

/// The row counts for the weekday, from the date on.
pub open spec fn reaches(r: ScheduleRow, d: Day, day: int) -> bool {
    lasts(r, d) && (r.day_of_week is None || r.day_of_week == Some(day as i16))
}

/// The row is in force on the date.
pub open spec fn in_force(r: ScheduleRow, d: Day) -> bool {
    r.effective_from <= d && lasts(r, d)
}

/// The later of two dates.
pub open spec fn later(a: Day, b: Day) -> Day {
    if a >= b {
        a
    } else {
        b
    }
}

/// The weekday has a row of its own within the dates.
pub open spec fn has_own(table: Seq<ScheduleRow>, day: int, from: Day, to: Option<Day>) -> bool {
    exists|i: int|
        0 <= i < table.len() && (#[trigger] table[i]).day_of_week == Some(day as i16) && lasts(
            table[i],
            from,
        ) && (to is None || table[i].effective_from <= to->0)
}

/// The other weekdays of an every-day row, from one on, that have none of their
/// own get it.
pub open spec fn split(table: Seq<ScheduleRow>, r: ScheduleRow, d: Day, k: int) -> Seq<ScheduleRow>
    decreases 7 - k,
{
    if k >= 7 {
        table
    } else {
        let from = later(r.effective_from, d);
        let next = if k != weekday(d) && !has_own(table, k, from, r.effective_to) {
            table.push(
                ScheduleRow {
                    id: None,
                    work_shift_id: r.work_shift_id,
                    day_of_week: Some(k as i16),
                    effective_from: from,
                    effective_to: r.effective_to,
                },
            )
        } else {
            table
        };
        split(next, r, d, k + 1)
    }
}

/// The row ends the day before the date, or goes where it had not begun.
pub open spec fn ended(table: Seq<ScheduleRow>, r: ScheduleRow, d: Day) -> Seq<ScheduleRow> {
    if r.effective_from >= d {
        table.filter(|x: ScheduleRow| x.id != r.id)
    } else {
        Seq::new(
            table.len(),
            |i: int|
                if table[i].id == r.id {
                    ScheduleRow {
                        id: table[i].id,
                        work_shift_id: table[i].work_shift_id,
                        day_of_week: table[i].day_of_week,
                        effective_from: table[i].effective_from,
                        effective_to: Some((d - 1) as Day),
                    }
                } else {
                    table[i]
                },
        )
    }
}

/// The rows dealt with one after another.
pub open spec fn rows_ended(
    table: Seq<ScheduleRow>,
    rows: Seq<ScheduleRow>,
    d: Day,
) -> Seq<ScheduleRow>
    decreases rows.len(),
{
    if rows.len() == 0 {
        table
    } else {
        let before = rows_ended(table, rows.drop_last(), d);
        let r = rows.last();
        ended(
            if r.day_of_week is None {
                split(before, r, d, 0)
            } else {
                before
            },
            r,
            d,
        )
    }
}

/// The rows that count for the date's weekday from the date on.
pub open spec fn touched(table: Seq<ScheduleRow>, d: Day) -> Seq<ScheduleRow> {
    table.filter(|r: ScheduleRow| reaches(r, d, weekday(d)))
}

/// The pattern with the block (or a day off) on the date's weekday from the
/// date on.
pub open spec fn repatterned(
    table: Seq<ScheduleRow>,
    d: Day,
    shift: Option<Id>,
) -> Seq<ScheduleRow> {
    let left = rows_ended(table, touched(table, d), d);
    match shift {
        Some(s) => left.push(
            ScheduleRow {
                id: None,
                work_shift_id: s,
                day_of_week: Some(weekday(d) as i16),
                effective_from: d,
                effective_to: None,
            },
        ),
        None => left,
    }
}

fn row_lasts(r: &ScheduleRow, d: Day) -> (b: bool)
    ensures
        b == lasts(*r, d),
{
    match r.effective_to {
        Some(t) => t >= d,
        None => true,
    }
}

fn is_on(r: &ScheduleRow, day: i16) -> (b: bool)
    ensures
        b == (r.day_of_week == Some(day)),
{
    match r.day_of_week {
        Some(x) => x == day,
        None => false,
    }
}

fn find_own(table: &Vec<ScheduleRow>, day: i16, from: Day, to: Option<Day>) -> (r: bool)
    ensures
        r == has_own(table@, day as int, from, to),
{
    let mut i: usize = 0;
    while i < table.len()
        invariant
            i <= table@.len(),
            forall|k: int|
                0 <= k < i ==> !((#[trigger] table@[k]).day_of_week == Some(day) && lasts(
                    table@[k],
                    from,
                ) && (to is None || table@[k].effective_from <= to->0)),
        decreases table@.len() - i,
    {
        let within: bool = match to {
            Some(t) => table[i].effective_from <= t,
            None => true,
        };
        if is_on(&table[i], day) && row_lasts(&table[i], from) && within {
            assert(table@[i as int].day_of_week == Some(day));
            return true;
        }
        i += 1;
    }
    false
}

fn split_row(table: &mut Vec<ScheduleRow>, r: &ScheduleRow, d: Day)
    requires
        valid_day(d),
    ensures
        final(table)@ == split(old(table)@, *r, d, 0),
{
    let today: i16 = dow(d);
    let from: Day = if r.effective_from >= d {
        r.effective_from
    } else {
        d
    };
    let ghost start = table@;
    let mut k: i16 = 0;
    while k < 7
        invariant
            0 <= k <= 7,
            today == weekday(d),
            from == later(r.effective_from, d),
            split(start, *r, d, 0) == split(table@, *r, d, k as int),
        decreases 7 - k,
    {
        if k != today && !find_own(table, k, from, r.effective_to) {
            table.push(
                ScheduleRow {
                    id: None,
                    work_shift_id: r.work_shift_id,
                    day_of_week: Some(k),
                    effective_from: from,
                    effective_to: r.effective_to,
                },
            );
        }
        k += 1;
    }
}

fn end_row(table: &Vec<ScheduleRow>, r: &ScheduleRow, d: Day) -> (out: Vec<ScheduleRow>)
    requires
        valid_day(d),
    ensures
        out@ == ended(table@, *r, d),
{
    let mut out: Vec<ScheduleRow> = Vec::new();
    let mut i: usize = 0;
    if r.effective_from >= d {
        while i < table.len()
            invariant
                i <= table@.len(),
                out@ == table@.take(i as int).filter(|x: ScheduleRow| x.id != r.id),
            decreases table@.len() - i,
        {
            let keep: bool = !same_id(table[i].id, r.id);
            proof {
                let f = |x: ScheduleRow| x.id != r.id;
                reveal(Seq::filter);
                assert(table@.take(i + 1).drop_last() =~= table@.take(i as int));
                assert(keep == f(table@[i as int]));
            }
            if keep {
                out.push(table[i]);
            }
            i += 1;
        }
        assert(table@.take(table@.len() as int) =~= table@);
    } else {
        while i < table.len()
            invariant
                i <= table@.len(),
                valid_day(d),
                r.effective_from < d,
                out@.len() == i,
                forall|k: int| 0 <= k < i ==> #[trigger] out@[k] == ended(table@, *r, d)[k],
            decreases table@.len() - i,
        {
            let mut x: ScheduleRow = table[i];
            if same_id(x.id, r.id) {
                x.effective_to = Some(d - 1);
            }
            out.push(x);
            i += 1;
        }
        assert(out@ =~= ended(table@, *r, d));
    }
    out
}

fn find_touched(table: &Vec<ScheduleRow>, d: Day) -> (r: Vec<ScheduleRow>)
    requires
        valid_day(d),
    ensures
        r@ == touched(table@, d),
{
    let today: i16 = dow(d);
    let mut out: Vec<ScheduleRow> = Vec::new();
    let mut i: usize = 0;
    while i < table.len()
        invariant
            i <= table@.len(),
            today == weekday(d),
            out@ == touched(table@.take(i as int), d),
        decreases table@.len() - i,
    {
        let x: ScheduleRow = table[i];
        let keep: bool = row_lasts(&x, d) && (x.day_of_week.is_none() || is_on(&x, today));
        proof {
            let f = |r: ScheduleRow| reaches(r, d, weekday(d));
            reveal(Seq::filter);
            assert(table@.take(i + 1).drop_last() =~= table@.take(i as int));
            assert(keep == f(x));
        }
        if keep {
            out.push(x);
        }
        i += 1;
    }
    assert(table@.take(table@.len() as int) =~= table@);
    out
}

/// Make the block (`None` = off) the standing pattern for the date's weekday
/// from the date on. Rows covering that weekday end the day before; an
/// every-day row is split so the other weekdays keep it, except where they have
/// their own.
pub fn set_pattern_day(table: Vec<ScheduleRow>, d: Day, shift: Option<Id>) -> (r: Vec<
    ScheduleRow,
>)
    requires
        valid_day(d),
    ensures
        r@ == repatterned(table@, d, shift),
{
    let rows: Vec<ScheduleRow> = find_touched(&table, d);
    let mut now: Vec<ScheduleRow> = table;
    let mut i: usize = 0;
    while i < rows.len()
        invariant
            i <= rows@.len(),
            valid_day(d),
            now@ == rows_ended(table@, rows@.take(i as int), d),
        decreases rows@.len() - i,
    {
        assert(rows@.take(i + 1).drop_last() =~= rows@.take(i as int));
        let r: ScheduleRow = rows[i];
        if r.day_of_week.is_none() {
            split_row(&mut now, &r, d);
        }
        now = end_row(&now, &r, d);
        i += 1;
    }
    assert(rows@.take(rows@.len() as int) =~= rows@);
    if let Some(s) = shift {
        now.push(
            ScheduleRow {
                id: None,
                work_shift_id: s,
                day_of_week: Some(dow(d)),
                effective_from: d,
                effective_to: None,
            },
        );
    }
    now
}

/// A stored pattern: every row has an id, and no two the same.
pub open spec fn stored(table: Seq<ScheduleRow>) -> bool {
    &&& forall|i: int| 0 <= i < table.len() ==> (#[trigger] table[i]).id is Some
    &&& forall|i: int, j: int|
        0 <= i < j < table.len() ==> (#[trigger] table[i]).id != (#[trigger] table[j]).id
}

/// Splitting adds only new rows, of other weekdays, from the date on.
proof fn lemma_split_adds(table: Seq<ScheduleRow>, r: ScheduleRow, d: Day, k: int)
    requires
        0 <= k,
    ensures
        ({
            let out = split(table, r, d, k);
            &&& table.len() <= out.len()
            &&& forall|i: int| 0 <= i < table.len() ==> #[trigger] out[i] == table[i]
            &&& forall|i: int|
                table.len() <= i < out.len() ==> {
                    &&& (#[trigger] out[i]).id is None
                    &&& out[i].day_of_week is Some
                    &&& out[i].day_of_week != Some(weekday(d) as i16)
                    &&& out[i].effective_from >= d
                }
        }),
    decreases 7 - k,
{
    if k < 7 {
        let from = later(r.effective_from, d);
        let next = if k != weekday(d) && !has_own(table, k, from, r.effective_to) {
            table.push(
                ScheduleRow {
                    id: None,
                    work_shift_id: r.work_shift_id,
                    day_of_week: Some(k as i16),
                    effective_from: from,
                    effective_to: r.effective_to,
                },
            )
        } else {
            table
        };
        lemma_split_adds(next, r, d, k + 1);
        let out = split(table, r, d, k);
        assert forall|i: int| 0 <= i < table.len() implies #[trigger] out[i] == table[i] by {
            assert(out[i] == next[i]);
        }
        assert forall|i: int| table.len() <= i < out.len() implies {
            &&& (#[trigger] out[i]).id is None
            &&& out[i].day_of_week is Some
            &&& out[i].day_of_week != Some(weekday(d) as i16)
            &&& out[i].effective_from >= d
        } by {
            if i < next.len() {
                assert(out[i] == next[i]);
            }
        }
    }
}

/// A row of the table after a row was ended is one that was there, or one ended
/// with it.
proof fn lemma_ended(table: Seq<ScheduleRow>, r: ScheduleRow, d: Day, x: ScheduleRow)
    requires
        ended(table, r, d).contains(x),
        d > i32::MIN,
    ensures
        x.id != r.id ==> table.contains(x),
        x.id == r.id ==> r.effective_from < d && x.effective_to == Some((d - 1) as Day),
{
    let out = ended(table, r, d);
    let k = choose|k: int| 0 <= k < out.len() && out[k] == x;
    if r.effective_from >= d {
        lemma_filter_holds(table, r.id, x);
    } else {
        if table[k].id != r.id {
            assert(table[k] == x);
        }
    }
}

proof fn lemma_filter_holds(table: Seq<ScheduleRow>, id: Option<Id>, x: ScheduleRow)
    ensures
        table.filter(|r: ScheduleRow| r.id != id).contains(x) <==> table.contains(x) && x.id != id,
    decreases table.len(),
{
    reveal(Seq::filter);
    let f = |r: ScheduleRow| r.id != id;
    if table.len() > 0 {
        let rest = table.drop_last();
        let kept = rest.filter(f);
        let out = table.filter(f);
        lemma_filter_holds(rest, id, x);
        if table.contains(x) {
            let k = choose|k: int| 0 <= k < table.len() && table[k] == x;
            if k < rest.len() {
                assert(rest[k] == x);
                assert(rest.contains(x));
            }
        }
        if rest.contains(x) {
            let k = choose|k: int| 0 <= k < rest.len() && rest[k] == x;
            assert(table[k] == x);
        }
        if kept.contains(x) {
            let k = choose|k: int| 0 <= k < kept.len() && kept[k] == x;
            assert(out[k] == x);
        }
        if table.last() == x && x.id != id {
            assert(out[kept.len() as int] == x);
            assert(table[table.len() - 1] == x);
        }
        if out.contains(x) {
            let k = choose|k: int| 0 <= k < out.len() && out[k] == x;
            if k < kept.len() {
                assert(kept[k] == x);
            }
        }
    }
}

/// After the rows are dealt with, whatever still counts for the weekday from
/// the date on is a row that was not dealt with.
proof fn lemma_rows_ended(
    table: Seq<ScheduleRow>,
    rows: Seq<ScheduleRow>,
    d: Day,
    x: ScheduleRow,
)
    requires
        d > i32::MIN,
        rows_ended(table, rows, d).contains(x),
        reaches(x, d, weekday(d)),
    ensures
        table.contains(x),
        forall|i: int| 0 <= i < rows.len() ==> (#[trigger] rows[i]).id != x.id,
    decreases rows.len(),
{
    if rows.len() > 0 {
        let before = rows_ended(table, rows.drop_last(), d);
        let r = rows.last();
        let cut = if r.day_of_week is None {
            split(before, r, d, 0)
        } else {
            before
        };
        lemma_ended(cut, r, d, x);
        lemma_split_adds(before, r, d, 0);
        let k = choose|k: int| 0 <= k < cut.len() && cut[k] == x;
        if k < before.len() {
            assert(before[k] == x);
        }
        assert(before.contains(x));
        lemma_rows_ended(table, rows.drop_last(), d, x);
        assert forall|i: int| 0 <= i < rows.len() implies (#[trigger] rows[i]).id != x.id by {
            if i < rows.len() - 1 {
                assert(rows.drop_last()[i] == rows[i]);
            }
        }
    }
}

/// From the date on, its weekday has exactly the block: nothing else counts for
/// that weekday any more.
pub proof fn law_the_weekday_has_the_new_block_only(
    table: Seq<ScheduleRow>,
    d: Day,
    shift: Option<Id>,
    x: ScheduleRow,
)
    requires
        valid_day(d),
        stored(table),
        repatterned(table, d, shift).contains(x),
        reaches(x, d, weekday(d)),
    ensures
        shift == Some(x.work_shift_id),
        x.day_of_week == Some(weekday(d) as i16),
        x.effective_from == d,
        x.effective_to is None,
{
    let rows = touched(table, d);
    let left = rows_ended(table, rows, d);
    let out = repatterned(table, d, shift);
    let k = choose|k: int| 0 <= k < out.len() && out[k] == x;
    if k < left.len() {
        assert(left[k] == x);
        lemma_rows_ended(table, rows, d, x);
        let i = choose|i: int| 0 <= i < table.len() && table[i] == x;
        let f = |r: ScheduleRow| reaches(r, d, weekday(d));
        broadcast use vstd::seq_lib::group_filter_ensures;

        assert(f(table[i]));
        assert(rows.contains(table[i]));
        let j = choose|j: int| 0 <= j < rows.len() && rows[j] == x;
        assert(rows[j].id != x.id);
    }
}

/// The rows in force before the date are the ones that were: what is new starts
/// on the date or later, and what ends, ends the day before it.
proof fn lemma_past_stays(
    table: Seq<ScheduleRow>,
    rows: Seq<ScheduleRow>,
    d: Day,
    t: Day,
    shift: Id,
    day: Option<i16>,
)
    requires
        i32::MIN < d,
        t < d,
        stored(table),
        forall|i: int| 0 <= i < rows.len() ==> table.contains(#[trigger] rows[i]),
        forall|i: int| 0 <= i < rows.len() ==> lasts(#[trigger] rows[i], d),
        forall|i: int, j: int|
            0 <= i < j < rows.len() ==> (#[trigger] rows[i]).id != (#[trigger] rows[j]).id,
    ensures
        working(rows_ended(table, rows, d), t, shift, day) <==> working(table, t, shift, day),
        forall|x: ScheduleRow|
            #[trigger] rows_ended(table, rows, d).contains(x) && x.id is Some ==> exists|i: int|
                0 <= i < table.len() && (#[trigger] table[i]).id == x.id,
        forall|x: ScheduleRow|
            #[trigger] rows_ended(table, rows, d).contains(x) && x.id is Some && (forall|i: int|
                0 <= i < rows.len() ==> (#[trigger] rows[i]).id != x.id) ==> table.contains(x),
    decreases rows.len(),
{
    if rows.len() > 0 {
        let rest = rows.drop_last();
        let before = rows_ended(table, rest, d);
        let r = rows.last();
        let cut = if r.day_of_week is None {
            split(before, r, d, 0)
        } else {
            before
        };
        let out = ended(cut, r, d);
        assert forall|i: int| 0 <= i < rest.len() implies table.contains(#[trigger] rest[i])
            && lasts(rest[i], d) by {
            assert(rest[i] == rows[i]);
        }
        lemma_past_stays(table, rest, d, t, shift, day);
        lemma_split_adds(before, r, d, 0);
        assert(table.contains(rows[rows.len() - 1]));
        let at = choose|i: int| 0 <= i < table.len() && table[i] == r;
        // Every row of the cut table with the id of the ended one is that row.
        assert forall|k: int| 0 <= k < cut.len() && (#[trigger] cut[k]).id == r.id implies cut[k]
            == r by {
            assert(table[at].id is Some);
            assert(k < before.len());
            assert(before[k] == cut[k]);
            assert(before.contains(cut[k]));
            assert forall|i: int| 0 <= i < rest.len() implies (#[trigger] rest[i]).id
                != cut[k].id by {
                assert(rows[i].id != rows[rows.len() - 1].id);
            }
            assert(table.contains(cut[k]));
            let m = choose|m: int| 0 <= m < table.len() && table[m] == cut[k];
            if m < at {
                assert(table[m].id != table[at].id);
            } else if at < m {
                assert(table[at].id != table[m].id);
            }
        }
        if working(before, t, shift, day) {
            let k = choose|k: int| 0 <= k < before.len() && #[trigger] works(before[k], t, shift, day);
            assert(cut[k] == before[k]);
            assert(works(cut[k], t, shift, day));
            assert(working(cut, t, shift, day));
        }
        if working(cut, t, shift, day) {
            let k = choose|k: int| 0 <= k < cut.len() && #[trigger] works(cut[k], t, shift, day);
            assert(k < before.len());
            assert(before[k] == cut[k]);
            assert(works(before[k], t, shift, day));
            if r.effective_from >= d {
                assert(cut[k].id != r.id);
                lemma_filter_holds(cut, r.id, cut[k]);
                let m = choose|m: int| 0 <= m < out.len() && out[m] == cut[k];
                assert(works(out[m], t, shift, day));
            } else {
                assert(works(out[k], t, shift, day));
            }
        }
        if working(out, t, shift, day) {
            let k = choose|k: int| 0 <= k < out.len() && #[trigger] works(out[k], t, shift, day);
            if r.effective_from >= d {
                assert(out.contains(out[k]));
                lemma_filter_holds(cut, r.id, out[k]);
                let m = choose|m: int| 0 <= m < cut.len() && cut[m] == out[k];
                assert(works(cut[m], t, shift, day));
            } else {
                if cut[k].id == r.id {
                    assert(cut[k] == r);
                }
                assert(works(cut[k], t, shift, day));
            }
        }
        assert forall|x: ScheduleRow| #[trigger] out.contains(x) && x.id is Some implies exists|
            i: int,
        |
            0 <= i < table.len() && (#[trigger] table[i]).id == x.id by {
            lemma_ended(cut, r, d, x);
            if x.id == r.id {
                assert(table[at].id == x.id);
            } else {
                let k = choose|k: int| 0 <= k < cut.len() && cut[k] == x;
                assert(k < before.len());
                assert(before[k] == x);
                assert(before.contains(x));
            }
        }
        assert forall|x: ScheduleRow|
            #[trigger] out.contains(x) && x.id is Some && (forall|i: int|
                0 <= i < rows.len() ==> (#[trigger] rows[i]).id != x.id) implies table.contains(
            x,
        ) by {
            lemma_ended(cut, r, d, x);
            assert(rows[rows.len() - 1].id != x.id);
            let k = choose|k: int| 0 <= k < cut.len() && cut[k] == x;
            assert(k < before.len());
            assert(before[k] == x);
            assert(before.contains(x));
            assert forall|i: int| 0 <= i < rest.len() implies (#[trigger] rest[i]).id != x.id by {
                assert(rows[i].id != x.id);
            }
        }
    }
}

/// The row has the block on the day or days, in force on the date.
pub open spec fn works(r: ScheduleRow, t: Day, shift: Id, day: Option<i16>) -> bool {
    in_force(r, t) && r.work_shift_id == shift && r.day_of_week == day
}

/// A row has the block on the day or days, in force on the date.
pub open spec fn working(table: Seq<ScheduleRow>, t: Day, shift: Id, day: Option<i16>) -> bool {
    exists|i: int| 0 <= i < table.len() && #[trigger] works(table[i], t, shift, day)
}

/// Before the date the pattern is what it was.
pub proof fn law_the_past_pattern_stays(
    table: Seq<ScheduleRow>,
    d: Day,
    new: Option<Id>,
    t: Day,
    shift: Id,
    day: Option<i16>,
)
    requires
        valid_day(d),
        stored(table),
        t < d,
    ensures
        working(repatterned(table, d, new), t, shift, day) <==> working(table, t, shift, day),
{
    let rows = touched(table, d);
    lemma_touched(table, d);
    lemma_past_stays(table, rows, d, t, shift, day);
    let left = rows_ended(table, rows, d);
    let out = repatterned(table, d, new);
    if working(left, t, shift, day) {
        let k = choose|k: int| 0 <= k < left.len() && #[trigger] works(left[k], t, shift, day);
        assert(out[k] == left[k]);
        assert(works(out[k], t, shift, day));
    }
    if working(out, t, shift, day) {
        let k = choose|k: int| 0 <= k < out.len() && #[trigger] works(out[k], t, shift, day);
        assert(k < left.len());
        assert(works(left[k], t, shift, day));
    }
}

/// The rows dealt with are rows of the table, each once, that still count.
proof fn lemma_touched(table: Seq<ScheduleRow>, d: Day)
    requires
        stored(table),
    ensures
        ({
            let rows = touched(table, d);
            &&& forall|i: int| 0 <= i < rows.len() ==> table.contains(#[trigger] rows[i])
            &&& forall|i: int| 0 <= i < rows.len() ==> lasts(#[trigger] rows[i], d)
            &&& forall|i: int, j: int|
                0 <= i < j < rows.len() ==> (#[trigger] rows[i]).id != (#[trigger] rows[j]).id
        }),
    decreases table.len(),
{
    reveal(Seq::filter);
    if table.len() > 0 {
        let rest = table.drop_last();
        assert(stored(rest)) by {
            assert forall|i: int| 0 <= i < rest.len() implies (#[trigger] rest[i]).id is Some by {
                assert(table[i].id is Some);
            }
            assert forall|i: int, j: int| 0 <= i < j < rest.len() implies (#[trigger] rest[i]).id
                != (#[trigger] rest[j]).id by {
                assert(table[i].id != table[j].id);
            }
        }
        lemma_touched(rest, d);
        let kept = touched(rest, d);
        let rows = touched(table, d);
        assert forall|i: int| 0 <= i < rows.len() implies table.contains(#[trigger] rows[i])
            && lasts(rows[i], d) by {
            if i < kept.len() {
                assert(rest.contains(kept[i]));
                let k = choose|k: int| 0 <= k < rest.len() && rest[k] == kept[i];
                assert(table[k] == rows[i]);
            } else {
                assert(table[table.len() - 1] == rows[i]);
            }
        }
        assert forall|i: int, j: int| 0 <= i < j < rows.len() implies (#[trigger] rows[i]).id != (
        #[trigger] rows[j]).id by {
            if j == kept.len() {
                assert(rest.contains(kept[i]));
                let k = choose|k: int| 0 <= k < rest.len() && rest[k] == kept[i];
                assert(table[k].id != table[table.len() - 1].id);
            } else {
                assert(kept[i].id != kept[j].id);
            }
        }
    }
}

// ── the other weekdays ──────────────────────────────────────────────────────

/// A row keeps its id's weekday while rows are dealt with.
proof fn lemma_ids_keep_their_day(
    table: Seq<ScheduleRow>,
    rows: Seq<ScheduleRow>,
    d: Day,
    x: ScheduleRow,
)
    requires
        i32::MIN < d,
        rows_ended(table, rows, d).contains(x),
        x.id is Some,
    ensures
        exists|i: int|
            0 <= i < table.len() && (#[trigger] table[i]).id == x.id && table[i].day_of_week
                == x.day_of_week,
    decreases rows.len(),
{
    if rows.len() == 0 {
        let i = choose|i: int| 0 <= i < table.len() && table[i] == x;
        assert(table[i].id == x.id);
    } else {
        let before = rows_ended(table, rows.drop_last(), d);
        let r = rows.last();
        let cut = if r.day_of_week is None {
            split(before, r, d, 0)
        } else {
            before
        };
        let out = ended(cut, r, d);
        lemma_split_adds(before, r, d, 0);
        let k = choose|k: int| 0 <= k < out.len() && out[k] == x;
        let y = if r.effective_from >= d {
            lemma_filter_holds(cut, r.id, x);
            x
        } else {
            cut[k]
        };
        assert(cut.contains(y) && y.id == x.id && y.day_of_week == x.day_of_week);
        let m = choose|m: int| 0 <= m < cut.len() && cut[m] == y;
        assert(m < before.len());
        assert(before[m] == y);
        assert(before.contains(y));
        lemma_ids_keep_their_day(table, rows.drop_last(), d, y);
    }
}

/// A row of another weekday that was there when rows were being dealt with is
/// still there after the next one.
proof fn lemma_other_day_stays(
    table: Seq<ScheduleRow>,
    rows: Seq<ScheduleRow>,
    d: Day,
    x: ScheduleRow,
)
    requires
        i32::MIN < d,
        stored(table),
        rows.len() > 0,
        table.contains(rows.last()),
        reaches(rows.last(), d, weekday(d)),
        rows_ended(table, rows.drop_last(), d).contains(x),
        x.day_of_week is Some,
        x.day_of_week != Some(weekday(d) as i16),
    ensures
        rows_ended(table, rows, d).contains(x),
{
    let before = rows_ended(table, rows.drop_last(), d);
    let r = rows.last();
    let cut = if r.day_of_week is None {
        split(before, r, d, 0)
    } else {
        before
    };
    let out = ended(cut, r, d);
    lemma_split_adds(before, r, d, 0);
    let at = choose|i: int| 0 <= i < table.len() && table[i] == r;
    assert(table[at].id is Some);
    assert(x.id != r.id) by {
        if x.id == r.id {
            lemma_ids_keep_their_day(table, rows.drop_last(), d, x);
            let i = choose|i: int|
                0 <= i < table.len() && (#[trigger] table[i]).id == x.id && table[i].day_of_week
                    == x.day_of_week;
            if i < at {
                assert(table[i].id != table[at].id);
            } else if at < i {
                assert(table[at].id != table[i].id);
            }
        }
    }
    let k = choose|k: int| 0 <= k < before.len() && before[k] == x;
    assert(cut[k] == x);
    assert(cut.contains(x));
    if r.effective_from >= d {
        lemma_filter_holds(cut, r.id, x);
    } else {
        assert(out[k] == x);
    }
}

/// After splitting, each of the weekdays from one on has a row of its own.
proof fn lemma_split_covers(table: Seq<ScheduleRow>, r: ScheduleRow, d: Day, k: int, day: int)
    requires
        0 <= k <= day < 7,
        day != weekday(d),
        lasts(r, later(r.effective_from, d)),
        r.effective_to is None || later(r.effective_from, d) <= r.effective_to->0,
    ensures
        has_own(split(table, r, d, k), day, later(r.effective_from, d), r.effective_to),
    decreases 7 - k,
{
    let from = later(r.effective_from, d);
    let next = if k != weekday(d) && !has_own(table, k, from, r.effective_to) {
        table.push(
            ScheduleRow {
                id: None,
                work_shift_id: r.work_shift_id,
                day_of_week: Some(k as i16),
                effective_from: from,
                effective_to: r.effective_to,
            },
        )
    } else {
        table
    };
    if k < day {
        lemma_split_covers(next, r, d, k + 1, day);
    } else {
        lemma_split_adds(next, r, d, k + 1);
        let out = split(table, r, d, k);
        if has_own(table, k, from, r.effective_to) {
            let i = choose|i: int|
                0 <= i < table.len() && (#[trigger] table[i]).day_of_week == Some(k as i16)
                    && lasts(table[i], from) && (r.effective_to is None
                    || table[i].effective_from <= r.effective_to->0);
            assert(out[i] == table[i]);
        } else {
            let n = table.len() as int;
            assert(next[n].day_of_week == Some(k as i16));
            assert(out[n] == next[n]);
        }
    }
}

/// The rows of the other weekdays stay as they are.
pub proof fn law_other_weekdays_keep_their_rows(
    table: Seq<ScheduleRow>,
    d: Day,
    shift: Option<Id>,
    x: ScheduleRow,
)
    requires
        valid_day(d),
        stored(table),
        table.contains(x),
        x.day_of_week is Some,
        x.day_of_week != Some(weekday(d) as i16),
    ensures
        repatterned(table, d, shift).contains(x),
{
    let rows = touched(table, d);
    lemma_touched(table, d);
    lemma_touched_reach(table, d);
    lemma_other_days_stay(table, rows, d, 0, x);
    assert(rows.take(0) =~= Seq::empty());
    assert(rows.take(rows.len() as int) =~= rows);
    let left = rows_ended(table, rows, d);
    let k = choose|k: int| 0 <= k < left.len() && left[k] == x;
    assert(repatterned(table, d, shift)[k] == x);
}

proof fn lemma_touched_reach(table: Seq<ScheduleRow>, d: Day)
    ensures
        forall|i: int|
            0 <= i < touched(table, d).len() ==> reaches(
                #[trigger] touched(table, d)[i],
                d,
                weekday(d),
            ),
    decreases table.len(),
{
    reveal(Seq::filter);
    if table.len() > 0 {
        lemma_touched_reach(table.drop_last(), d);
        let kept = touched(table.drop_last(), d);
        assert forall|i: int| 0 <= i < touched(table, d).len() implies reaches(
            #[trigger] touched(table, d)[i],
            d,
            weekday(d),
        ) by {
            if i < kept.len() {
                assert(touched(table, d)[i] == kept[i]);
            }
        }
    }
}

/// A row of another weekday stays from one row dealt with to the last.
proof fn lemma_other_days_stay(
    table: Seq<ScheduleRow>,
    rows: Seq<ScheduleRow>,
    d: Day,
    n: int,
    x: ScheduleRow,
)
    requires
        i32::MIN < d,
        stored(table),
        0 <= n <= rows.len(),
        forall|i: int| 0 <= i < rows.len() ==> table.contains(#[trigger] rows[i]),
        forall|i: int| 0 <= i < rows.len() ==> reaches(#[trigger] rows[i], d, weekday(d)),
        rows_ended(table, rows.take(n), d).contains(x),
        x.day_of_week is Some,
        x.day_of_week != Some(weekday(d) as i16),
    ensures
        rows_ended(table, rows, d).contains(x),
    decreases rows.len() - n,
{
    if n == rows.len() {
        assert(rows.take(n) =~= rows);
    } else {
        let next = rows.take(n + 1);
        assert(next.drop_last() =~= rows.take(n));
        assert(next.last() == rows[n]);
        lemma_other_day_stays(table, next, d, x);
        lemma_other_days_stay(table, rows, d, n + 1, x);
    }
}

/// An every-day row is split so that the other weekdays keep it, except where
/// they have their own: wherever it counted from the date on, each of them has a
/// row of its own.
pub proof fn law_an_every_day_row_is_kept_on_the_other_weekdays(
    table: Seq<ScheduleRow>,
    d: Day,
    shift: Option<Id>,
    r: ScheduleRow,
    day: int,
)
    requires
        valid_day(d),
        stored(table),
        table.contains(r),
        r.day_of_week is None,
        lasts(r, d),
        r.effective_to is None || r.effective_from <= r.effective_to->0,
        0 <= day < 7,
        day != weekday(d),
    ensures
        has_own(repatterned(table, d, shift), day, later(r.effective_from, d), r.effective_to),
{
    let rows = touched(table, d);
    lemma_touched(table, d);
    lemma_touched_reach(table, d);
    let f = |x: ScheduleRow| reaches(x, d, weekday(d));
    broadcast use vstd::seq_lib::group_filter_ensures;

    let at = choose|i: int| 0 <= i < table.len() && table[i] == r;
    assert(f(table[at]));
    assert(rows.contains(r));
    let n = choose|n: int| 0 <= n < rows.len() && rows[n] == r;
    let upto = rows.take(n + 1);
    assert(upto.drop_last() =~= rows.take(n));
    assert(upto.last() == r);
    let before = rows_ended(table, rows.take(n), d);
    let cut = split(before, r, d, 0);
    let from = later(r.effective_from, d);
    lemma_split_covers(before, r, d, 0, day);
    let k = choose|k: int|
        0 <= k < cut.len() && (#[trigger] cut[k]).day_of_week == Some(day as i16) && lasts(
            cut[k],
            from,
        ) && (r.effective_to is None || cut[k].effective_from <= r.effective_to->0);
    let x = cut[k];
    // The row that does it outlives the ending of the every-day row.
    lemma_split_adds(before, r, d, 0);
    assert(table[at].id is Some);
    assert(x.id != r.id) by {
        if x.id == r.id {
            assert(k < before.len());
            assert(before[k] == x);
            assert(before.contains(x));
            lemma_ids_keep_their_day(table, rows.take(n), d, x);
            let i = choose|i: int|
                0 <= i < table.len() && (#[trigger] table[i]).id == x.id && table[i].day_of_week
                    == x.day_of_week;
            if i < at {
                assert(table[i].id != table[at].id);
            } else if at < i {
                assert(table[at].id != table[i].id);
            }
        }
    }
    let out = ended(cut, r, d);
    assert(cut.contains(x));
    assert(out.contains(x)) by {
        if r.effective_from >= d {
            lemma_filter_holds(cut, r.id, x);
        } else {
            assert(out[k] == x);
        }
    }
    assert(rows_ended(table, upto, d) == out);
    lemma_other_days_stay(table, rows, d, n + 1, x);
    let left = rows_ended(table, rows, d);
    let m = choose|m: int| 0 <= m < left.len() && left[m] == x;
    let all = repatterned(table, d, shift);
    assert(all[m] == x);
    assert(all[m].day_of_week == Some(day as i16));
}

/// A row counts on the dates from its first to its last, both with it, and for
/// ever where it has no last; for its own weekday, or for every one.
pub proof fn law_when_a_row_counts(r: ScheduleRow, d: Day, day: int)
    requires
        0 <= day < 7,
    ensures
        in_force(r, d) <==> r.effective_from <= d && (r.effective_to is Some ==> d
            <= r.effective_to->0),
        reaches(r, d, day) <==> (r.effective_to is Some ==> d <= r.effective_to->0) && (
        r.day_of_week is Some ==> r.day_of_week->0 == day),
{
}

/// A block made the pattern is in force on the date's weekday from the date on,
/// for ever.
pub proof fn law_the_new_block_is_the_pattern(
    table: Seq<ScheduleRow>,
    d: Day,
    shift: Id,
    t: Day,
)
    requires
        d <= t,
    ensures
        working(repatterned(table, d, Some(shift)), t, shift, Some((d as int % 7) as i16)),
{
    let all = repatterned(table, d, Some(shift));
    assert(works(all[all.len() - 1], t, shift, Some((d as int % 7) as i16)));
}

} // verus!
