//! The discipline report: staff ranked within their department by attendance
//! reliability, over a picked range.
//!
//! Rank is fewest absences first, ties broken by fewest lates, then least total
//! late time; deliberately not a single weighted score, since any weighting
//! between "one absence" and "three lates" would be an invented policy rather
//! than a read of the facts.

use vstd::prelude::*;

use crate::calendar::{same_id, Day, Id};
use crate::errors::{either, refusal, AppError};
use crate::staff::{range_refused, validate_range};

verus! {

/// Widest range one request may ask for.
pub const MAX_RANGE_DAYS: i64 = 400;

/// A report over the range is one the caller may read and no wider than a
/// request may ask for.
pub fn discipline_report(scope: Result<(), AppError>, from: Day, to: Day) -> (r: Result<
    (),
    AppError,
>)
    ensures
        refusal(r) == either(refusal(scope), range_refused(from, to, MAX_RANGE_DAYS)),
        r is Ok <==> scope is Ok && from <= to && to - from <= 400,
{
    scope?;
    validate_range(from, to, MAX_RANGE_DAYS)
}

/// What the range holds of one person.
#[derive(Debug, Clone, Copy, PartialEq, Eq, Structural)]
pub struct DisciplineRow {
    pub employee_id: Id,
    /// `None` for a person with no department set.
    pub department_id: Option<Id>,
    pub absent_days: i64,
    pub late_days: i64,
    pub total_late_minutes: i64,
}

/// Fewer absences, then fewer lates, then less late time.
pub open spec fn better(a: DisciplineRow, b: DisciplineRow) -> bool {
    ||| a.absent_days < b.absent_days
    ||| a.absent_days == b.absent_days && a.late_days < b.late_days
    ||| a.absent_days == b.absent_days && a.late_days == b.late_days && a.total_late_minutes
        < b.total_late_minutes
}

/// How many of the rows are of the row's department and better than it.
pub open spec fn ahead(rows: Seq<DisciplineRow>, row: DisciplineRow) -> int
    decreases rows.len(),
{
    if rows.len() == 0 {
        0
    } else {
        ahead(rows.drop_last(), row) + if rows.last().department_id == row.department_id
            && better(rows.last(), row) {
            1int
        } else {
            0int
        }
    }
}

fn is_better(a: &DisciplineRow, b: &DisciplineRow) -> (r: bool)
    ensures
        r == better(*a, *b),
{
    a.absent_days < b.absent_days || (a.absent_days == b.absent_days && (a.late_days < b.late_days
        || (a.late_days == b.late_days && a.total_late_minutes < b.total_late_minutes)))
}

/// Each person's rank in their department, 1 the best. Ties share a rank, so a
/// department where everyone has a clean record is all ones.
pub fn rank_in_department(rows: &Vec<DisciplineRow>) -> (r: Vec<u64>)
    requires
        rows@.len() < u64::MAX,
    ensures
        r@.len() == rows@.len(),
        forall|i: int| 0 <= i < rows@.len() ==> #[trigger] r@[i] == ahead(rows@, rows@[i]) + 1,
{
    let mut out: Vec<u64> = Vec::new();
    let mut i: usize = 0;
    while i < rows.len()
        invariant
            i <= rows@.len(),
            rows@.len() < u64::MAX,
            out@.len() == i,
            forall|k: int| 0 <= k < i ==> #[trigger] out@[k] == ahead(rows@, rows@[k]) + 1,
        decreases rows@.len() - i,
    {
        let row: DisciplineRow = rows[i];
        let mut n: u64 = 0;
        let mut j: usize = 0;
        while j < rows.len()
            invariant
                j <= rows@.len(),
                rows@.len() < u64::MAX,
                n == ahead(rows@.take(j as int), row),
                n <= j,
            decreases rows@.len() - j,
        {
            assert(rows@.take(j + 1).drop_last() =~= rows@.take(j as int));
            if same_id(rows[j].department_id, row.department_id) && is_better(&rows[j], &row) {
                n = n + 1;
            }
            j += 1;
        }
        assert(rows@.take(rows@.len() as int) =~= rows@);
        out.push(n + 1);
        i += 1;
    }
    out
}

/// Two people of a department with the same record share a rank; the one with
/// the better record ranks before the other.
pub proof fn law_rank_follows_the_record(rows: Seq<DisciplineRow>, i: int, j: int)
    requires
        0 <= i < rows.len(),
        0 <= j < rows.len(),
        rows[i].department_id == rows[j].department_id,
    ensures
        better(rows[i], rows[j]) ==> ahead(rows, rows[i]) < ahead(rows, rows[j]),
        !better(rows[i], rows[j]) && !better(rows[j], rows[i]) ==> ahead(rows, rows[i]) == ahead(
            rows,
            rows[j],
        ),
{
    if better(rows[i], rows[j]) {
        lemma_ahead_counts(rows, rows[i], rows[j], i);
    } else if !better(rows[j], rows[i]) {
        lemma_ahead_grows(rows, rows[i], rows[j]);
        lemma_ahead_grows(rows, rows[j], rows[i]);
    }
}

/// Whoever is ahead of the better of two is ahead of the other.
proof fn lemma_ahead_grows(rows: Seq<DisciplineRow>, a: DisciplineRow, b: DisciplineRow)
    requires
        a.department_id == b.department_id,
        !better(b, a),
    ensures
        ahead(rows, a) <= ahead(rows, b),
    decreases rows.len(),
{
    if rows.len() > 0 {
        lemma_ahead_grows(rows.drop_last(), a, b);
    }
}

/// The better of two is itself ahead of the other.
proof fn lemma_ahead_counts(rows: Seq<DisciplineRow>, a: DisciplineRow, b: DisciplineRow, i: int)
    requires
        a.department_id == b.department_id,
        better(a, b),
        0 <= i < rows.len(),
        rows[i] == a,
    ensures
        ahead(rows, a) < ahead(rows, b),
    decreases rows.len(),
{
    if i < rows.len() - 1 {
        lemma_ahead_counts(rows.drop_last(), a, b, i);
    } else {
        lemma_ahead_grows(rows.drop_last(), a, b);
    }
}

/// Who has fewer absences is better, whatever else; with as many, who was late
/// less often; then who was late for less time. Nobody is better than
/// themselves, and of two one at most is.
pub proof fn law_absences_count_before_lateness(a: DisciplineRow, b: DisciplineRow)
    ensures
        a.absent_days < b.absent_days ==> better(a, b) && !better(b, a),
        a.absent_days == b.absent_days && a.late_days < b.late_days ==> better(a, b) && !better(
            b,
            a,
        ),
        a.absent_days == b.absent_days && a.late_days == b.late_days ==> (better(a, b)
            <==> a.total_late_minutes < b.total_late_minutes),
        !better(a, a),
{
}

/// One more person moves a rank by one where they are of the department and
/// better, and otherwise not; nobody at all is ahead of the first.
pub proof fn law_only_the_departments_better_are_ahead(
    rows: Seq<DisciplineRow>,
    x: DisciplineRow,
    row: DisciplineRow,
)
    ensures
        ahead(rows.push(x), row) == ahead(rows, row) + if x.department_id == row.department_id
            && better(x, row) {
            1int
        } else {
            0
        },
        ahead(Seq::empty(), row) == 0,
{
    assert(rows.push(x).drop_last() =~= rows);
}

} // verus!
