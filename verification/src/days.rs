//! A date's assignments: the writes behind every date-level roster change, and
//! telling people when a published week changes.
//!
//! A date follows the standing pattern until something changes it; from then on
//! the date holds its own set of assignments, one row per block (each
//! optionally with its own from/to), or a single row without a block for a day
//! off. Every writer here works on that set, never on "the" shift of a day, so
//! a swap, a claim, an accepted suggestion or a manager's edit touches one
//! block and leaves the rest of a split day alone.

pub mod changes;

use vstd::prelude::*;

use crate::access::Subject;
use crate::calendar::{day_of_week, same_id, valid_day, ClockTime, Day, Id};
use crate::dawam::presence::covers::has_id;
use crate::dawam::roster::has_day;
use crate::errors::{
    bad_request, coded, coded_view, either, given, not_found, refusal, AppError, ErrorView,
};
use crate::text::{join, join3};

verus! {

/// An assignment's own from and to.
pub type Times = Option<(ClockTime, ClockTime)>;

/// One block on a date, with this assignment's own from/to if it has one.
#[derive(Debug, Clone, Copy, PartialEq, Eq)]
pub struct Block {
    pub work_shift_id: Id,
    pub times: Times,
    /// Where a business-wide block is worked that date. Kept only for a
    /// business-wide block and one of the person's branches.
    pub branch_id: Option<Id>,
}

/// What [`remove_block`] took off a date.
#[derive(Debug, Clone, Copy, PartialEq, Eq)]
pub struct Removed {
    /// The assignment's own from/to, if it had any.
    pub times: Times,
    /// Where it was worked.
    pub branch_id: Option<Id>,
}

/// What a block allows.
pub struct BlockInfo {
    pub name: String,
    pub branch_id: Option<Id>,
    /// 0 = Sunday … 6 = Saturday.
    pub valid_days: Vec<i16>,
    pub is_active: bool,
}

/// The day of the week of a date, 0 = Sunday … 6 = Saturday.
pub open spec fn weekday(d: Day) -> int {
    d as int % 7
}

/// The day of the week of a date, 0 = Sunday … 6 = Saturday.
pub fn dow(d: Day) -> (r: i16)
    requires
        valid_day(d),
    ensures
        r == weekday(d),
{
    day_of_week(d) as i16
}

/// The English name of a day of the week.
pub open spec fn weekday_name(d: int) -> Seq<char> {
    if d == 0 {
        "Sunday"@
    } else if d == 1 {
        "Monday"@
    } else if d == 2 {
        "Tuesday"@
    } else if d == 3 {
        "Wednesday"@
    } else if d == 4 {
        "Thursday"@
    } else if d == 5 {
        "Friday"@
    } else {
        "Saturday"@
    }
}

pub fn name_of_weekday(d: i16) -> (r: &'static str)
    ensures
        r@ == weekday_name(d as int),
{
    if d == 0 {
        "Sunday"
    } else if d == 1 {
        "Monday"
    } else if d == 2 {
        "Tuesday"
    } else if d == 3 {
        "Wednesday"
    } else if d == 4 {
        "Thursday"
    } else if d == 5 {
        "Friday"
    } else {
        "Saturday"
    }
}

/// What rostering a block is refused for, if anything.
pub open spec fn block_refused(
    info: Option<BlockInfo>,
    subject: Subject,
    date: Day,
    block: Block,
) -> Option<ErrorView> {
    match info {
        None => Some(ErrorView::NotFound("Work shift not found"@)),
        Some(b) => either(
            given(!b.is_active, coded_view(400, "SHIFT_INACTIVE"@, b.name@ + " is switched off."@)),
            either(
                given(
                    !b.valid_days@.contains(weekday(date) as i16),
                    coded_view(
                        400,
                        "SHIFT_NOT_ON_DAY"@,
                        b.name@ + " isn't a shift on "@ + weekday_name(weekday(date)) + "."@,
                    ),
                ),
                either(
                    given(
                        b.branch_id is Some && !subject.branches@.contains(b.branch_id->0),
                        coded_view(
                            400,
                            "SHIFT_OTHER_BRANCH"@,
                            b.name@ + " doesn't work at "@ + subject.name@ + "'s branch."@,
                        ),
                    ),
                    given(
                        block.times is Some && (block.times->0).0 == (block.times->0).1,
                        coded_view(
                            400,
                            "SHIFT_EMPTY"@,
                            "A shift can't start and end at the same time."@,
                        ),
                    ),
                ),
            ),
        ),
    }
}

/// May the block be rostered for the person on the date? It must be live, valid
/// on that weekday, and belong to one of the person's branches (or the whole
/// business); its own times must make a shift.
pub fn validate_block(
    info: &Option<BlockInfo>,
    subject: &Subject,
    date: Day,
    block: &Block,
) -> (r: Result<(), AppError>)
    requires
        valid_day(date),
    ensures
        refusal(r) == block_refused(*info, *subject, date, *block),
{
    let b: &BlockInfo = match info {
        Some(b) => b,
        None => {
            return Err(not_found("Work shift not found"));
        },
    };
    if !b.is_active {
        let reason: String = join(b.name.as_str(), " is switched off.");
        return Err(coded(400, "SHIFT_INACTIVE", reason.as_str()));
    }
    let d: i16 = dow(date);
    if !has_day(&b.valid_days, d) {
        let mut reason: String = join3(b.name.as_str(), " isn't a shift on ", name_of_weekday(d));
        reason.push_str(".");
        return Err(coded(400, "SHIFT_NOT_ON_DAY", reason.as_str()));
    }
    if let Some(branch) = b.branch_id {
        if !has_id(&subject.branches, branch) {
            let mut reason: String = join3(
                b.name.as_str(),
                " doesn't work at ",
                subject.name.as_str(),
            );
            reason.push_str("'s branch.");
            return Err(coded(400, "SHIFT_OTHER_BRANCH", reason.as_str()));
        }
    }
    if let Some((s, e)) = block.times {
        if s == e {
            return Err(
                coded(400, "SHIFT_EMPTY", "A shift can't start and end at the same time."),
            );
        }
    }
    Ok(())
}

/// One row of a date's own set: a block, or a day off.
#[derive(Debug, Clone, Copy, PartialEq, Eq)]
pub struct DayRow {
    pub work_shift_id: Option<Id>,
    pub times: Times,
    pub branch_id: Option<Id>,
}

/// A day off.
pub open spec fn day_off() -> DayRow {
    DayRow { work_shift_id: None, times: None, branch_id: None }
}

/// A date's own set: empty while the date follows the pattern, a single day
/// off, or blocks, each once.
pub open spec fn well_formed(rows: Seq<DayRow>) -> bool {
    &&& forall|i: int, j: int|
        0 <= i < j < rows.len() ==> (#[trigger] rows[i]).work_shift_id != (
        #[trigger] rows[j]).work_shift_id
    &&& (exists|i: int| 0 <= i < rows.len() && (#[trigger] rows[i]).work_shift_id is None)
        ==> rows.len() == 1
}

/// The set has a row for the block, or for the day off.
pub open spec fn has_row(rows: Seq<DayRow>, shift: Option<Id>) -> bool {
    exists|i: int| 0 <= i < rows.len() && (#[trigger] rows[i]).work_shift_id == shift
}

/// Where a block may be worked: the business-wide blocks, and the branches the
/// person works at.
pub struct Places {
    pub business_wide: Vec<Id>,
    pub branches: Vec<Id>,
}

impl Places {
    /// The branch a row keeps: only for a business-wide block (a branch's own
    /// block counts at that branch) and only where the person works.
    pub open spec fn kept(self, shift: Option<Id>, branch: Option<Id>) -> Option<Id> {
        if shift is Some && branch is Some && self.business_wide@.contains(shift->0)
            && self.branches@.contains(branch->0) {
            branch
        } else {
            None
        }
    }

    fn keep(&self, shift: Option<Id>, branch: Option<Id>) -> (r: Option<Id>)
        ensures
            r == self.kept(shift, branch),
    {
        match (shift, branch) {
            (Some(s), Some(b)) => if has_id(&self.business_wide, s) && has_id(&self.branches, b) {
                Some(b)
            } else {
                None
            },
            _ => None,
        }
    }
}

/// The set with the row in it: in place of the block's own where there is one,
/// else after the others.
pub open spec fn with_row(rows: Seq<DayRow>, row: DayRow) -> Seq<DayRow> {
    if has_row(rows, row.work_shift_id) {
        Seq::new(
            rows.len(),
            |i: int|
                if rows[i].work_shift_id == row.work_shift_id {
                    row
                } else {
                    rows[i]
                },
        )
    } else {
        rows.push(row)
    }
}

/// The set without the block's row.
pub open spec fn without_row(rows: Seq<DayRow>, shift: Option<Id>) -> Seq<DayRow> {
    rows.filter(|r: DayRow| r.work_shift_id != shift)
}

fn insert_row(rows: &mut Vec<DayRow>, row: DayRow)
    ensures
        final(rows)@ == with_row(old(rows)@, row),
{
    let ghost start = rows@;
    let mut found: bool = false;
    let mut i: usize = 0;
    while i < rows.len()
        invariant
            i <= rows@.len(),
            rows@.len() == start.len(),
            found == exists|k: int|
                0 <= k < i && (#[trigger] start[k]).work_shift_id == row.work_shift_id,
            forall|k: int|
                0 <= k < i ==> #[trigger] rows@[k] == if start[k].work_shift_id
                    == row.work_shift_id {
                    row
                } else {
                    start[k]
                },
            forall|k: int| i <= k < start.len() ==> #[trigger] rows@[k] == start[k],
        decreases rows@.len() - i,
    {
        let ghost was = rows@;
        if same_id(rows[i].work_shift_id, row.work_shift_id) {
            assert(start[i as int] == was[i as int]);
            found = true;
            rows.set(i, row);
        } else {
            assert(start[i as int] == was[i as int]);
        }
        i += 1;
    }
    if found {
        assert(rows@ =~= with_row(start, row));
    } else {
        assert(rows@ =~= start);
        rows.push(row);
    }
}

fn delete_row(rows: &Vec<DayRow>, shift: Option<Id>) -> (r: Vec<DayRow>)
    ensures
        r@ == without_row(rows@, shift),
{
    let mut out: Vec<DayRow> = Vec::new();
    let mut i: usize = 0;
    while i < rows.len()
        invariant
            i <= rows@.len(),
            out@ == without_row(rows@.take(i as int), shift),
        decreases rows@.len() - i,
    {
        let keep: bool = !same_id(rows[i].work_shift_id, shift);
        proof {
            let f = |r: DayRow| r.work_shift_id != shift;
            reveal(Seq::filter);
            assert(rows@.take(i + 1).drop_last() =~= rows@.take(i as int));
            assert(keep == f(rows@[i as int]));
        }
        if keep {
            out.push(rows[i]);
        }
        i += 1;
    }
    assert(rows@.take(rows@.len() as int) =~= rows@);
    out
}

/// A block of the standing pattern, and where it is worked.
#[derive(Debug, Clone, Copy, PartialEq, Eq, Structural)]
pub struct PatternBlock {
    pub work_shift_id: Id,
    pub branch_id: Option<Id>,
}

/// The pattern's blocks as rows of a date.
pub open spec fn pattern_rows(pattern: Seq<PatternBlock>, places: Places) -> Seq<DayRow>
    decreases pattern.len(),
{
    if pattern.len() == 0 {
        Seq::empty()
    } else {
        let b = pattern.last();
        with_row(
            pattern_rows(pattern.drop_last(), places),
            DayRow {
                work_shift_id: Some(b.work_shift_id),
                times: None,
                branch_id: places.kept(Some(b.work_shift_id), b.branch_id),
            },
        )
    }
}

/// The date's own set, as the pattern has it where it has none yet.
pub open spec fn own_set(
    rows: Seq<DayRow>,
    pattern: Seq<PatternBlock>,
    places: Places,
) -> Seq<DayRow> {
    if rows.len() > 0 {
        rows
    } else if pattern.len() == 0 {
        seq![day_off()]
    } else {
        pattern_rows(pattern, places)
    }
}

/// Turn a date that follows the pattern into its own set, as the pattern has
/// it.
pub fn materialise(rows: &mut Vec<DayRow>, pattern: &Vec<PatternBlock>, places: &Places)
    ensures
        final(rows)@ == own_set(old(rows)@, pattern@, *places),
{
    if rows.len() > 0 {
        return ;
    }
    assert(rows@ =~= Seq::empty());
    if pattern.len() == 0 {
        rows.push(DayRow { work_shift_id: None, times: None, branch_id: None });
        assert(rows@ =~= seq![day_off()]);
        return ;
    }
    let mut i: usize = 0;
    while i < pattern.len()
        invariant
            i <= pattern@.len(),
            rows@ == pattern_rows(pattern@.take(i as int), *places),
        decreases pattern@.len() - i,
    {
        assert(pattern@.take(i + 1).drop_last() =~= pattern@.take(i as int));
        let b: PatternBlock = pattern[i];
        let row: DayRow = DayRow {
            work_shift_id: Some(b.work_shift_id),
            times: None,
            branch_id: places.keep(Some(b.work_shift_id), b.branch_id),
        };
        insert_row(rows, row);
        i += 1;
    }
    assert(pattern@.take(pattern@.len() as int) =~= pattern@);
}

/// Where the block was worked on the date before, if its row said.
pub open spec fn worked_at(had: Seq<DayRow>, shift: Id) -> Option<Id>
    decreases had.len(),
{
    if had.len() == 0 {
        None
    } else if has_row(had.drop_last(), Some(shift)) {
        worked_at(had.drop_last(), shift)
    } else if had.last().work_shift_id == Some(shift) {
        had.last().branch_id
    } else {
        None
    }
}

/// The rows of the blocks, each where it says, else where it was worked before.
pub open spec fn block_rows(
    blocks: Seq<Block>,
    had: Seq<DayRow>,
    places: Places,
) -> Seq<DayRow>
    decreases blocks.len(),
{
    if blocks.len() == 0 {
        Seq::empty()
    } else {
        let b = blocks.last();
        let at = if b.branch_id is Some {
            b.branch_id
        } else {
            worked_at(had, b.work_shift_id)
        };
        with_row(
            block_rows(blocks.drop_last(), had, places),
            DayRow {
                work_shift_id: Some(b.work_shift_id),
                times: b.times,
                branch_id: places.kept(Some(b.work_shift_id), at),
            },
        )
    }
}

/// No block is given twice.
pub open spec fn blocks_once(blocks: Seq<Block>) -> bool {
    forall|i: int, j: int|
        0 <= i < j < blocks.len() ==> (#[trigger] blocks[i]).work_shift_id != (
        #[trigger] blocks[j]).work_shift_id
}

/// The first row of a block, which says where it is worked and when.
proof fn lemma_first_row(rows: Seq<DayRow>, shift: Id, k: int)
    requires
        0 <= k < rows.len(),
        rows[k].work_shift_id == Some(shift),
        forall|i: int| 0 <= i < k ==> (#[trigger] rows[i]).work_shift_id != Some(shift),
    ensures
        has_row(rows, Some(shift)),
        worked_at(rows, shift) == rows[k].branch_id,
        times_of(rows, shift) == rows[k].times,
    decreases rows.len(),
{
    let short = rows.drop_last();
    if k < rows.len() - 1 {
        lemma_first_row(short, shift, k);
    } else if has_row(short, Some(shift)) {
        let i = choose|i: int| 0 <= i < short.len() && (#[trigger] short[i]).work_shift_id == Some(
            shift,
        );
        assert(rows[i].work_shift_id == Some(shift));
    }
}

proof fn lemma_no_row(rows: Seq<DayRow>, shift: Id)
    requires
        forall|i: int| 0 <= i < rows.len() ==> (#[trigger] rows[i]).work_shift_id != Some(shift),
    ensures
        !has_row(rows, Some(shift)),
        worked_at(rows, shift) is None,
        times_of(rows, shift) is None,
    decreases rows.len(),
{
    if rows.len() > 0 {
        let short = rows.drop_last();
        assert(rows[rows.len() - 1].work_shift_id != Some(shift));
        assert forall|i: int| 0 <= i < short.len() implies (#[trigger] short[i]).work_shift_id
            != Some(shift) by {
            assert(rows[i].work_shift_id != Some(shift));
        }
        lemma_no_row(short, shift);
    }
}

/// The row of a block, where the set has one.
fn find_row(rows: &Vec<DayRow>, shift: Id) -> (r: Option<DayRow>)
    ensures
        r is Some <==> has_row(rows@, Some(shift)),
        worked_at(rows@, shift) == match r {
            Some(x) => x.branch_id,
            None => None,
        },
        times_of(rows@, shift) == match r {
            Some(x) => x.times,
            None => None,
        },
{
    let mut i: usize = 0;
    while i < rows.len()
        invariant
            i <= rows@.len(),
            forall|k: int| 0 <= k < i ==> (#[trigger] rows@[k]).work_shift_id != Some(shift),
        decreases rows@.len() - i,
    {
        if same_id(rows[i].work_shift_id, Some(shift)) {
            proof {
                lemma_first_row(rows@, shift, i as int);
            }
            return Some(rows[i]);
        }
        i += 1;
    }
    proof {
        lemma_no_row(rows@, shift);
    }
    None
}

/// The whole date for one person: exactly these blocks, or a day off when there
/// are none.
pub open spec fn replaced(
    had: Seq<DayRow>,
    blocks: Seq<Block>,
    places: Places,
) -> Seq<DayRow> {
    if blocks.len() == 0 {
        seq![day_off()]
    } else {
        block_rows(blocks, had, places)
    }
}

/// The whole date for one person: exactly these blocks, or a day off when
/// there are none. A block is on a day only once.
pub fn replace_day(had: &Vec<DayRow>, blocks: &Vec<Block>, places: &Places) -> (r: Result<
    Vec<DayRow>,
    AppError,
>)
    ensures
        match r {
            Ok(rows) => blocks_once(blocks@) && rows@ == replaced(had@, blocks@, *places),
            Err(e) => !blocks_once(blocks@) && e@ == ErrorView::BadRequest(
                "A block can be on a day only once."@,
            ),
        },
{
    let mut rows: Vec<DayRow> = Vec::new();
    if blocks.len() == 0 {
        rows.push(DayRow { work_shift_id: None, times: None, branch_id: None });
        assert(rows@ =~= seq![day_off()]);
        return Ok(rows);
    }
    let mut i: usize = 0;
    while i < blocks.len()
        invariant
            i <= blocks@.len(),
            rows@ == block_rows(blocks@.take(i as int), had@, *places),
            forall|a: int, b: int|
                0 <= a < b < i ==> (#[trigger] blocks@[a]).work_shift_id != (
                #[trigger] blocks@[b]).work_shift_id,
        decreases blocks@.len() - i,
    {
        let b: Block = blocks[i];
        let mut k: usize = 0;
        while k < i
            invariant
                k <= i,
                i < blocks@.len(),
                b == blocks@[i as int],
                forall|a: int| 0 <= a < k ==> (#[trigger] blocks@[a]).work_shift_id != b.work_shift_id,
            decreases i - k,
        {
            if blocks[k].work_shift_id == b.work_shift_id {
                assert(blocks@[k as int].work_shift_id == blocks@[i as int].work_shift_id);
                return Err(bad_request("A block can be on a day only once."));
            }
            k += 1;
        }
        let at: Option<Id> = if b.branch_id.is_some() {
            b.branch_id
        } else {
            match find_row(had, b.work_shift_id) {
                Some(x) => x.branch_id,
                None => None,
            }
        };
        assert(blocks@.take(i + 1).drop_last() =~= blocks@.take(i as int));
        let row: DayRow = DayRow {
            work_shift_id: Some(b.work_shift_id),
            times: b.times,
            branch_id: places.keep(Some(b.work_shift_id), at),
        };
        insert_row(&mut rows, row);
        i += 1;
    }
    assert(blocks@.take(blocks@.len() as int) =~= blocks@);
    Ok(rows)
}

/// Back to the pattern: the date's own set is dropped. Rows removed.
pub fn reset_day(rows: &mut Vec<DayRow>) -> (r: usize)
    ensures
        final(rows)@ == Seq::<DayRow>::empty(),
        r == old(rows)@.len(),
{
    let n: usize = rows.len();
    rows.clear();
    n
}

/// One more block on a date; the rest of the day stays.
pub open spec fn added(
    rows: Seq<DayRow>,
    pattern: Seq<PatternBlock>,
    places: Places,
    block: Block,
) -> Seq<DayRow> {
    with_row(
        without_row(own_set(rows, pattern, places), None),
        DayRow {
            work_shift_id: Some(block.work_shift_id),
            times: block.times,
            branch_id: places.kept(Some(block.work_shift_id), block.branch_id),
        },
    )
}

/// Put one more block on a date; the rest of the day stays.
pub fn add_block(
    rows: &mut Vec<DayRow>,
    pattern: &Vec<PatternBlock>,
    places: &Places,
    block: &Block,
)
    ensures
        final(rows)@ == added(old(rows)@, pattern@, *places, *block),
{
    materialise(rows, pattern, places);
    let mut kept: Vec<DayRow> = delete_row(rows, None);
    let row: DayRow = DayRow {
        work_shift_id: Some(block.work_shift_id),
        times: block.times,
        branch_id: places.keep(Some(block.work_shift_id), block.branch_id),
    };
    insert_row(&mut kept, row);
    *rows = kept;
}

/// The times of the block's row, if it has any.
pub open spec fn times_of(rows: Seq<DayRow>, shift: Id) -> Times
    decreases rows.len(),
{
    if rows.len() == 0 {
        None
    } else if has_row(rows.drop_last(), Some(shift)) {
        times_of(rows.drop_last(), shift)
    } else if rows.last().work_shift_id == Some(shift) {
        rows.last().times
    } else {
        None
    }
}

/// A set, or a day off where nothing is left of it.
pub open spec fn or_day_off(rows: Seq<DayRow>) -> Seq<DayRow> {
    if rows.len() == 0 {
        seq![day_off()]
    } else {
        rows
    }
}

/// The date once the block is off it.
pub open spec fn removed(
    rows: Seq<DayRow>,
    pattern: Seq<PatternBlock>,
    places: Places,
    shift: Id,
) -> Seq<DayRow> {
    let set = own_set(rows, pattern, places);
    if has_row(set, Some(shift)) {
        or_day_off(without_row(set, Some(shift)))
    } else {
        rows
    }
}

fn copy_rows(rows: &Vec<DayRow>) -> (r: Vec<DayRow>)
    ensures
        r@ == rows@,
{
    let mut out: Vec<DayRow> = Vec::new();
    let mut i: usize = 0;
    while i < rows.len()
        invariant
            i <= rows@.len(),
            out@ == rows@.take(i as int),
        decreases rows@.len() - i,
    {
        out.push(rows[i]);
        i += 1;
        assert(rows@.take(i as int) =~= rows@.take(i - 1).push(rows@[i - 1]));
    }
    assert(rows@.take(rows@.len() as int) =~= rows@);
    out
}

/// Take one block off a date; the rest of the day stays. `None` when the person
/// wasn't on that block that day (nothing changed); otherwise the assignment's
/// own times, if it had any, and where it was worked (`at`, as the roster has
/// it).
pub fn remove_block(
    rows: &mut Vec<DayRow>,
    pattern: &Vec<PatternBlock>,
    places: &Places,
    shift: Id,
    at: Option<Id>,
) -> (r: Option<Removed>)
    ensures
        final(rows)@ == removed(old(rows)@, pattern@, *places, shift),
        ({
            let set = own_set(old(rows)@, pattern@, *places);
            r == if has_row(set, Some(shift)) {
                Some(Removed { times: times_of(set, shift), branch_id: at })
            } else {
                None
            }
        }),
        r is None ==> final(rows)@ == old(rows)@,
{
    let mut set: Vec<DayRow> = copy_rows(rows);
    materialise(&mut set, pattern, places);
    let times: Times = match find_row(&set, shift) {
        Some(x) => x.times,
        None => {
            return None;
        },
    };
    let mut kept: Vec<DayRow> = delete_row(&set, Some(shift));
    if kept.len() == 0 {
        kept.push(DayRow { work_shift_id: None, times: None, branch_id: None });
        assert(kept@ =~= seq![day_off()]);
    }
    *rows = kept;
    Some(Removed { times, branch_id: at })
}

/// The set with the block's own times replaced.
pub open spec fn timed(rows: Seq<DayRow>, shift: Id, times: Times) -> Seq<DayRow> {
    Seq::new(
        rows.len(),
        |i: int|
            if rows[i].work_shift_id == Some(shift) {
                DayRow {
                    work_shift_id: rows[i].work_shift_id,
                    times,
                    branch_id: rows[i].branch_id,
                }
            } else {
                rows[i]
            },
    )
}

/// This one assignment's own from/to (`None` = back to the block's times).
/// False when the person isn't on that block that day.
pub fn set_times(
    rows: &mut Vec<DayRow>,
    pattern: &Vec<PatternBlock>,
    places: &Places,
    shift: Id,
    times: Times,
) -> (r: bool)
    ensures
        final(rows)@ == timed(own_set(old(rows)@, pattern@, *places), shift, times),
        r == has_row(own_set(old(rows)@, pattern@, *places), Some(shift)),
{
    materialise(rows, pattern, places);
    let ghost start = rows@;
    let mut found: bool = false;
    let mut i: usize = 0;
    while i < rows.len()
        invariant
            i <= rows@.len(),
            rows@.len() == start.len(),
            found == exists|k: int|
                0 <= k < i && (#[trigger] start[k]).work_shift_id == Some(shift),
            forall|k: int| 0 <= k < i ==> #[trigger] rows@[k] == timed(start, shift, times)[k],
            forall|k: int| i <= k < start.len() ==> #[trigger] rows@[k] == start[k],
        decreases rows@.len() - i,
    {
        let row: DayRow = rows[i];
        assert(start[i as int] == row);
        if same_id(row.work_shift_id, Some(shift)) {
            found = true;
            rows.set(
                i,
                DayRow { work_shift_id: row.work_shift_id, times, branch_id: row.branch_id },
            );
        }
        i += 1;
    }
    assert(rows@ =~= timed(start, shift, times));
    found
}

/// Blocks and nothing else, each once.
spec fn blocks_only(rows: Seq<DayRow>) -> bool {
    &&& forall|i: int, j: int|
        0 <= i < j < rows.len() ==> (#[trigger] rows[i]).work_shift_id != (
        #[trigger] rows[j]).work_shift_id
    &&& forall|i: int| 0 <= i < rows.len() ==> (#[trigger] rows[i]).work_shift_id is Some
}

proof fn lemma_without(rows: Seq<DayRow>, shift: Option<Id>)
    ensures
        forall|r: DayRow|
            #[trigger] without_row(rows, shift).contains(r) <==> rows.contains(r)
                && r.work_shift_id != shift,
        !has_row(rows, shift) ==> without_row(rows, shift) == rows,
        without_row(rows, shift).len() <= rows.len(),
    decreases rows.len(),
{
    reveal(Seq::filter);
    if rows.len() > 0 {
        let rest = rows.drop_last();
        let kept = without_row(rest, shift);
        lemma_without(rest, shift);
        assert(rows =~= rest.push(rows.last()));
        assert forall|r: DayRow|
            #[trigger] without_row(rows, shift).contains(r) <==> rows.contains(r)
                && r.work_shift_id != shift by {
            if rows.contains(r) {
                let k = choose|k: int| 0 <= k < rows.len() && rows[k] == r;
                if k < rest.len() {
                    assert(rest[k] == r);
                    assert(rest.contains(r));
                }
            }
            if rest.contains(r) {
                let k = choose|k: int| 0 <= k < rest.len() && rest[k] == r;
                assert(rows[k] == r);
            }
            if kept.contains(r) {
                let k = choose|k: int| 0 <= k < kept.len() && kept[k] == r;
                assert(without_row(rows, shift)[k] == r);
            }
            if rows.last() == r && r.work_shift_id != shift {
                assert(without_row(rows, shift)[kept.len() as int] == r);
                assert(rows[rows.len() - 1] == r);
            }
            if without_row(rows, shift).contains(r) {
                let k = choose|k: int|
                    0 <= k < without_row(rows, shift).len() && without_row(rows, shift)[k] == r;
                if k < kept.len() {
                    assert(kept[k] == r);
                }
            }
        }
        if !has_row(rows, shift) {
            assert(rows[rows.len() - 1].work_shift_id != shift);
            assert(!has_row(rest, shift)) by {
                if has_row(rest, shift) {
                    let k = choose|k: int|
                        0 <= k < rest.len() && (#[trigger] rest[k]).work_shift_id == shift;
                    assert(rows[k].work_shift_id == shift);
                }
            }
            assert(without_row(rows, shift) =~= rows);
        }
    }
}

proof fn lemma_without_keeps_order(rows: Seq<DayRow>, shift: Option<Id>)
    requires
        forall|i: int, j: int|
            0 <= i < j < rows.len() ==> (#[trigger] rows[i]).work_shift_id != (
            #[trigger] rows[j]).work_shift_id,
    ensures
        forall|i: int, j: int|
            0 <= i < j < without_row(rows, shift).len() ==> (#[trigger] without_row(
                rows,
                shift,
            )[i]).work_shift_id != (#[trigger] without_row(rows, shift)[j]).work_shift_id,
    decreases rows.len(),
{
    reveal(Seq::filter);
    if rows.len() > 0 {
        let rest = rows.drop_last();
        let kept = without_row(rest, shift);
        let out = without_row(rows, shift);
        lemma_without_keeps_order(rest, shift);
        lemma_without(rest, shift);
        assert forall|i: int, j: int| 0 <= i < j < out.len() implies (
        #[trigger] out[i]).work_shift_id != (#[trigger] out[j]).work_shift_id by {
            if j == kept.len() {
                assert(kept.contains(kept[i]));
                assert(rest.contains(kept[i]));
                let k = choose|k: int| 0 <= k < rest.len() && rest[k] == kept[i];
                assert(rows[k] == kept[i]);
                assert(out[j] == rows[rows.len() - 1]);
            } else {
                assert(out[i] == kept[i] && out[j] == kept[j]);
            }
        }
    }
}

proof fn lemma_with_row(rows: Seq<DayRow>, row: DayRow)
    requires
        blocks_only(rows),
        row.work_shift_id is Some,
    ensures
        blocks_only(with_row(rows, row)),
        with_row(rows, row).len() > 0,
        forall|r: DayRow|
            #[trigger] with_row(rows, row).contains(r) <==> r == row || (rows.contains(r)
                && r.work_shift_id != row.work_shift_id),
{
    let out = with_row(rows, row);
    if has_row(rows, row.work_shift_id) {
        let at = choose|i: int|
            0 <= i < rows.len() && (#[trigger] rows[i]).work_shift_id == row.work_shift_id;
        assert(out[at] == row);
        assert forall|r: DayRow|
            #[trigger] out.contains(r) <==> r == row || (rows.contains(r) && r.work_shift_id
                != row.work_shift_id) by {
            if rows.contains(r) && r.work_shift_id != row.work_shift_id {
                let k = choose|k: int| 0 <= k < rows.len() && rows[k] == r;
                assert(out[k] == r);
            }
            if out.contains(r) && r != row {
                let k = choose|k: int| 0 <= k < out.len() && out[k] == r;
                assert(rows[k] == r);
            }
        }
    } else {
        assert(out[rows.len() as int] == row);
        assert forall|r: DayRow|
            #[trigger] out.contains(r) <==> r == row || (rows.contains(r) && r.work_shift_id
                != row.work_shift_id) by {
            if rows.contains(r) {
                let k = choose|k: int| 0 <= k < rows.len() && rows[k] == r;
                assert(out[k] == r);
                assert(rows[k].work_shift_id != row.work_shift_id);
            }
            if out.contains(r) && r != row {
                let k = choose|k: int| 0 <= k < out.len() && out[k] == r;
                assert(rows[k] == r);
                assert(rows[k].work_shift_id != row.work_shift_id);
            }
        }
    }
}

proof fn lemma_pattern_rows(pattern: Seq<PatternBlock>, places: Places)
    ensures
        blocks_only(pattern_rows(pattern, places)),
        pattern.len() > 0 ==> pattern_rows(pattern, places).len() > 0,
    decreases pattern.len(),
{
    if pattern.len() > 0 {
        lemma_pattern_rows(pattern.drop_last(), places);
        let b = pattern.last();
        lemma_with_row(
            pattern_rows(pattern.drop_last(), places),
            DayRow {
                work_shift_id: Some(b.work_shift_id),
                times: None,
                branch_id: places.kept(Some(b.work_shift_id), b.branch_id),
            },
        );
    }
}

proof fn lemma_block_rows(blocks: Seq<Block>, had: Seq<DayRow>, places: Places)
    ensures
        blocks_only(block_rows(blocks, had, places)),
    decreases blocks.len(),
{
    if blocks.len() > 0 {
        lemma_block_rows(blocks.drop_last(), had, places);
        let b = blocks.last();
        let at = if b.branch_id is Some {
            b.branch_id
        } else {
            worked_at(had, b.work_shift_id)
        };
        lemma_with_row(
            block_rows(blocks.drop_last(), had, places),
            DayRow {
                work_shift_id: Some(b.work_shift_id),
                times: b.times,
                branch_id: places.kept(Some(b.work_shift_id), at),
            },
        );
    }
}

/// A date's own set is a day off alone, or blocks and nothing else.
proof fn lemma_own_set(rows: Seq<DayRow>, pattern: Seq<PatternBlock>, places: Places)
    requires
        well_formed(rows),
    ensures
        ({
            let set = own_set(rows, pattern, places);
            &&& set.len() > 0
            &&& well_formed(set)
            &&& blocks_only(set) || (set.len() == 1 && set[0].work_shift_id is None)
        }),
{
    lemma_pattern_rows(pattern, places);
    let set = own_set(rows, pattern, places);
    if rows.len() > 0 {
        if exists|i: int| 0 <= i < rows.len() && (#[trigger] rows[i]).work_shift_id is None {
            assert(set.len() == 1);
        }
    } else if pattern.len() == 0 {
        assert(set[0] == day_off());
    } else {
        assert(forall|i: int| 0 <= i < set.len() ==> (#[trigger] set[i]).work_shift_id is Some);
    }
}

/// The blocks of a set once the day off is gone from it.
proof fn lemma_only_blocks_left(set: Seq<DayRow>)
    requires
        set.len() > 0,
        blocks_only(set) || (set.len() == 1 && set[0].work_shift_id is None),
    ensures
        blocks_only(set) ==> without_row(set, None) == set,
        !blocks_only(set) ==> without_row(set, None) == Seq::<DayRow>::empty(),
        blocks_only(without_row(set, None)),
{
    lemma_without(set, None);
    if blocks_only(set) {
        assert(!has_row(set, None));
    } else {
        let left = without_row(set, None);
        assert(left.len() == 0) by {
            if left.len() > 0 {
                assert(left.contains(left[0]));
            }
        }
        assert(left =~= Seq::empty());
    }
}

/// Every write leaves a date's set well formed: a day off alone, or blocks,
/// each once.
pub proof fn law_writers_keep_the_set(
    rows: Seq<DayRow>,
    pattern: Seq<PatternBlock>,
    places: Places,
    block: Block,
    blocks: Seq<Block>,
    shift: Id,
    times: Times,
)
    requires
        well_formed(rows),
    ensures
        well_formed(own_set(rows, pattern, places)),
        well_formed(replaced(rows, blocks, places)),
        well_formed(added(rows, pattern, places, block)),
        well_formed(removed(rows, pattern, places, shift)),
        well_formed(timed(own_set(rows, pattern, places), shift, times)),
{
    let set = own_set(rows, pattern, places);
    lemma_own_set(rows, pattern, places);
    lemma_block_rows(blocks, rows, places);
    lemma_only_blocks_left(set);
    lemma_with_row(
        without_row(set, None),
        DayRow {
            work_shift_id: Some(block.work_shift_id),
            times: block.times,
            branch_id: places.kept(Some(block.work_shift_id), block.branch_id),
        },
    );
    lemma_without(set, Some(shift));
    lemma_without_keeps_order(set, Some(shift));
    let left = without_row(set, Some(shift));
    if has_row(set, Some(shift)) && left.len() > 0 {
        assert(forall|i: int| 0 <= i < left.len() ==> left.contains(#[trigger] left[i]));
        assert forall|i: int| 0 <= i < left.len() implies (#[trigger] left[i]).work_shift_id
            is Some by {
            assert(left.contains(left[i]));
            assert(set.contains(left[i]));
            let k = choose|k: int| 0 <= k < set.len() && set[k] == left[i];
            let at = choose|k: int| 0 <= k < set.len() && (#[trigger] set[k]).work_shift_id == Some(
                shift,
            );
            assert(set[at].work_shift_id is Some);
        }
    }
    let t = timed(set, shift, times);
    assert forall|i: int| 0 <= i < t.len() implies (#[trigger] t[i]).work_shift_id
        == set[i].work_shift_id by {}
}

/// Adding, removing or timing one block leaves every other block's row of a
/// split day as it was.
pub proof fn law_the_rest_of_the_day_stays(
    rows: Seq<DayRow>,
    pattern: Seq<PatternBlock>,
    places: Places,
    block: Block,
    times: Times,
    other: DayRow,
)
    requires
        well_formed(rows),
        other.work_shift_id is Some,
        other.work_shift_id != Some(block.work_shift_id),
    ensures
        ({
            let set = own_set(rows, pattern, places);
            let there = set.contains(other);
            &&& added(rows, pattern, places, block).contains(other) <==> there
            &&& own_set(
                removed(rows, pattern, places, block.work_shift_id),
                pattern,
                places,
            ).contains(other) <==> there
            &&& timed(set, block.work_shift_id, times).contains(other) <==> there
        }),
{
    let set = own_set(rows, pattern, places);
    lemma_own_set(rows, pattern, places);
    lemma_only_blocks_left(set);
    lemma_without(set, None);
    lemma_without(set, Some(block.work_shift_id));
    lemma_with_row(
        without_row(set, None),
        DayRow {
            work_shift_id: Some(block.work_shift_id),
            times: block.times,
            branch_id: places.kept(Some(block.work_shift_id), block.branch_id),
        },
    );
    let t = timed(set, block.work_shift_id, times);
    if set.contains(other) {
        let k = choose|k: int| 0 <= k < set.len() && set[k] == other;
        assert(t[k] == other);
    }
    if t.contains(other) {
        let k = choose|k: int| 0 <= k < t.len() && t[k] == other;
        assert(set[k] == other);
    }
    let left = without_row(set, Some(block.work_shift_id));
    assert(left.contains(other) <==> set.contains(other));
    assert(or_day_off(left).contains(other) <==> left.contains(other)) by {
        if left.len() == 0 {
            assert(!left.contains(other));
            if or_day_off(left).contains(other) {
                assert(or_day_off(left)[0] == other);
            }
        }
    }
    assert(added(rows, pattern, places, block).contains(other) <==> without_row(
        set,
        None,
    ).contains(other));
}

/// Taking off a block that was just put on gives the day back as it was.
pub proof fn law_removing_undoes_adding(
    rows: Seq<DayRow>,
    pattern: Seq<PatternBlock>,
    places: Places,
    block: Block,
)
    requires
        well_formed(rows),
        !has_row(own_set(rows, pattern, places), Some(block.work_shift_id)),
    ensures
        ({
            let set = own_set(rows, pattern, places);
            let back = removed(
                added(rows, pattern, places, block),
                pattern,
                places,
                block.work_shift_id,
            );
            if set.len() == 1 && set[0].work_shift_id is None {
                back == seq![day_off()]
            } else {
                back == set
            }
        }),
{
    let set = own_set(rows, pattern, places);
    let row = DayRow {
        work_shift_id: Some(block.work_shift_id),
        times: block.times,
        branch_id: places.kept(Some(block.work_shift_id), block.branch_id),
    };
    lemma_own_set(rows, pattern, places);
    lemma_only_blocks_left(set);
    let left = without_row(set, None);
    assert(!has_row(left, Some(block.work_shift_id))) by {
        if has_row(left, Some(block.work_shift_id)) {
            let k = choose|k: int|
                0 <= k < left.len() && (#[trigger] left[k]).work_shift_id == Some(
                    block.work_shift_id,
                );
            assert(set[k].work_shift_id == Some(block.work_shift_id));
        }
    }
    let after = added(rows, pattern, places, block);
    assert(after == left.push(row));
    assert(after[left.len() as int] == row);
    assert(has_row(after, Some(block.work_shift_id)));
    lemma_without(left, Some(block.work_shift_id));
    reveal(Seq::filter);
    assert(after.drop_last() =~= left);
    assert(without_row(after, Some(block.work_shift_id)) == left);
}

/// A date once written to holds its own set: the pattern does not reach it any
/// more. Taking off a block that is not there writes nothing.
pub proof fn law_a_written_day_is_its_own(
    rows: Seq<DayRow>,
    pattern: Seq<PatternBlock>,
    places: Places,
    shift: Id,
)
    requires
        well_formed(rows),
    ensures
        ({
            let after = removed(rows, pattern, places, shift);
            if has_row(own_set(rows, pattern, places), Some(shift)) {
                own_set(after, pattern, places) == after
            } else {
                after == rows
            }
        }),
{
    lemma_own_set(rows, pattern, places);
}

/// A block put on a date is there with its own times, where it says if it may be
/// worked there, and the day is no day off.
pub proof fn law_a_block_put_on_is_there(
    rows: Seq<DayRow>,
    pattern: Seq<PatternBlock>,
    places: Places,
    block: Block,
    i: int,
)
    requires
        well_formed(rows),
    ensures
        ({
            let after = added(rows, pattern, places, block);
            &&& has_row(after, Some(block.work_shift_id))
            &&& !has_row(after, None)
            &&& 0 <= i < after.len() && after[i].work_shift_id == Some(block.work_shift_id) ==> {
                &&& after[i].times == block.times
                &&& after[i].branch_id is Some <==> block.branch_id is Some
                    && places.business_wide@.contains(block.work_shift_id)
                    && places.branches@.contains(block.branch_id->0)
                &&& after[i].branch_id is Some ==> after[i].branch_id == block.branch_id
            }
        }),
{
    lemma_own_set(rows, pattern, places);
    let set = own_set(rows, pattern, places);
    let left = without_row(set, None);
    lemma_only_blocks_left(set);
    let row = DayRow {
        work_shift_id: Some(block.work_shift_id),
        times: block.times,
        branch_id: places.kept(Some(block.work_shift_id), block.branch_id),
    };
    lemma_with_row(left, row);
    let after = added(rows, pattern, places, block);
    assert(after.contains(row));
    let k = choose|k: int| 0 <= k < after.len() && after[k] == row;
    assert(after[k].work_shift_id == Some(block.work_shift_id));
    if 0 <= i < after.len() && after[i].work_shift_id == Some(block.work_shift_id) {
        assert(after.contains(after[i]));
    }
}

/// A block taken off a date is off it, and a day with nothing left is a day off.
pub proof fn law_a_block_taken_off_is_gone(
    rows: Seq<DayRow>,
    pattern: Seq<PatternBlock>,
    places: Places,
    shift: Id,
)
    requires
        well_formed(rows),
        has_row(own_set(rows, pattern, places), Some(shift)),
    ensures
        ({
            let after = removed(rows, pattern, places, shift);
            &&& !has_row(after, Some(shift))
            &&& after.len() > 0
            &&& (own_set(rows, pattern, places).len() == 1 ==> after == seq![day_off()])
        }),
{
    let set = own_set(rows, pattern, places);
    lemma_own_set(rows, pattern, places);
    lemma_without(set, Some(shift));
    let left = without_row(set, Some(shift));
    if has_row(left, Some(shift)) {
        let i = choose|i: int| 0 <= i < left.len() && (#[trigger] left[i]).work_shift_id == Some(
            shift,
        );
        assert(left.contains(left[i]));
    }
    if set.len() == 1 && left.len() > 0 {
        assert(left.contains(left[0]));
        let k = choose|k: int| 0 <= k < set.len() && set[k] == left[0];
        let i = choose|i: int| 0 <= i < set.len() && (#[trigger] set[i]).work_shift_id == Some(shift);
        assert(k == i);
    }
    let after = removed(rows, pattern, places, shift);
    if has_row(after, Some(shift)) {
        let i = choose|i: int| 0 <= i < after.len() && (#[trigger] after[i]).work_shift_id == Some(
            shift,
        );
        assert(left.len() > 0 ==> after == left);
    }
}

/// Timing a block gives it just those times, and moves nothing else of the day.
pub proof fn law_a_timed_block_has_those_times(
    rows: Seq<DayRow>,
    shift: Id,
    times: Times,
    i: int,
)
    requires
        0 <= i < rows.len(),
    ensures
        timed(rows, shift, times).len() == rows.len(),
        timed(rows, shift, times)[i].work_shift_id == rows[i].work_shift_id,
        timed(rows, shift, times)[i].branch_id == rows[i].branch_id,
        rows[i].work_shift_id == Some(shift) ==> timed(rows, shift, times)[i].times == times,
        rows[i].work_shift_id != Some(shift) ==> timed(rows, shift, times)[i] == rows[i],
{
}

/// A date with its own set keeps it; one without has the pattern's blocks at
/// their usual times, and is a day off where the pattern has none.
pub proof fn law_a_date_follows_the_pattern_until_written(
    rows: Seq<DayRow>,
    pattern: Seq<PatternBlock>,
    places: Places,
    shift: Id,
)
    ensures
        rows.len() > 0 ==> own_set(rows, pattern, places) == rows,
        rows.len() == 0 && pattern.len() == 0 ==> own_set(rows, pattern, places) == seq![
            DayRow { work_shift_id: None, times: None, branch_id: None },
        ],
        rows.len() == 0 && pattern.len() > 0 ==> (has_row(
            own_set(rows, pattern, places),
            Some(shift),
        ) <==> exists|i: int|
            0 <= i < pattern.len() && (#[trigger] pattern[i]).work_shift_id == shift),
        rows.len() == 0 ==> forall|k: int|
            0 <= k < own_set(rows, pattern, places).len() ==> (#[trigger] own_set(
                rows,
                pattern,
                places,
            )[k]).times is None,
{
    lemma_pattern_has(pattern, places, shift);
}

proof fn lemma_pattern_has(pattern: Seq<PatternBlock>, places: Places, shift: Id)
    ensures
        has_row(pattern_rows(pattern, places), Some(shift)) <==> exists|i: int|
            0 <= i < pattern.len() && (#[trigger] pattern[i]).work_shift_id == shift,
        forall|k: int|
            0 <= k < pattern_rows(pattern, places).len() ==> (#[trigger] pattern_rows(
                pattern,
                places,
            )[k]).times is None,
    decreases pattern.len(),
{
    if pattern.len() > 0 {
        let short = pattern.drop_last();
        let b = pattern.last();
        lemma_pattern_has(short, places, shift);
        lemma_pattern_rows(short, places);
        let row = DayRow {
            work_shift_id: Some(b.work_shift_id),
            times: None,
            branch_id: places.kept(Some(b.work_shift_id), b.branch_id),
        };
        let before = pattern_rows(short, places);
        let all = pattern_rows(pattern, places);
        lemma_with_row(before, row);
        assert(pattern[pattern.len() - 1] == b);
        assert(forall|i: int| 0 <= i < short.len() ==> #[trigger] short[i] == pattern[i]);
        assert forall|k: int| 0 <= k < all.len() implies (#[trigger] all[k]).times is None by {
            assert(all.contains(all[k]));
            if all[k] != row {
                let j = choose|j: int| 0 <= j < before.len() && before[j] == all[k];
                assert(before[j].times is None);
            }
        }
        if has_row(before, Some(shift)) {
            let j = choose|j: int|
                0 <= j < before.len() && (#[trigger] before[j]).work_shift_id == Some(shift);
            assert(before.contains(before[j]));
            if b.work_shift_id != shift {
                assert(all.contains(before[j]));
            }
        }
        assert(all.contains(row));
        if b.work_shift_id == shift {
            let k = choose|k: int| 0 <= k < all.len() && all[k] == row;
            assert(all[k].work_shift_id == Some(shift));
        } else if has_row(all, Some(shift)) {
            let k = choose|k: int|
                0 <= k < all.len() && (#[trigger] all[k]).work_shift_id == Some(shift);
            assert(all.contains(all[k]));
            let j = choose|j: int| 0 <= j < before.len() && before[j] == all[k];
            assert(before[j].work_shift_id == Some(shift));
        }
        if exists|i: int| 0 <= i < pattern.len() && (#[trigger] pattern[i]).work_shift_id == shift {
            let i = choose|i: int|
                0 <= i < pattern.len() && (#[trigger] pattern[i]).work_shift_id == shift;
            if i < short.len() {
                assert(short[i].work_shift_id == shift);
            }
            if b.work_shift_id != shift {
                let j = choose|j: int|
                    0 <= j < before.len() && (#[trigger] before[j]).work_shift_id == Some(shift);
                assert(before.contains(before[j]) && all.contains(before[j]));
                let k = choose|k: int| 0 <= k < all.len() && all[k] == before[j];
                assert(all[k].work_shift_id == Some(shift));
            }
        }
        if exists|i: int| 0 <= i < short.len() && (#[trigger] short[i]).work_shift_id == shift {
            let i = choose|i: int| 0 <= i < short.len() && (#[trigger] short[i]).work_shift_id
                == shift;
            assert(pattern[i].work_shift_id == shift);
        }
    }
}

/// A replaced date has just the blocks given, each at its own times, and is a
/// day off where none is.
pub proof fn law_a_replaced_date_has_just_those_blocks(
    had: Seq<DayRow>,
    blocks: Seq<Block>,
    places: Places,
    r: DayRow,
)
    requires
        blocks_once(blocks),
    ensures
        blocks.len() == 0 ==> replaced(had, blocks, places) == seq![day_off()],
        blocks.len() > 0 ==> (replaced(had, blocks, places).contains(r) ==> exists|i: int|
            0 <= i < blocks.len() && r.work_shift_id == Some((#[trigger] blocks[i]).work_shift_id)
                && r.times == blocks[i].times && (blocks[i].branch_id is Some && r.branch_id is Some
                ==> r.branch_id == blocks[i].branch_id)),
        forall|i: int|
            0 <= i < blocks.len() ==> has_row(
                replaced(had, blocks, places),
                Some((#[trigger] blocks[i]).work_shift_id),
            ),
{
    if blocks.len() > 0 {
        lemma_block_rows_are(blocks, had, places, r);
    }
}

proof fn lemma_block_rows_are(blocks: Seq<Block>, had: Seq<DayRow>, places: Places, r: DayRow)
    ensures
        block_rows(blocks, had, places).contains(r) ==> exists|i: int|
            0 <= i < blocks.len() && r.work_shift_id == Some((#[trigger] blocks[i]).work_shift_id)
                && r.times == blocks[i].times && (blocks[i].branch_id is Some && r.branch_id is Some
                ==> r.branch_id == blocks[i].branch_id),
        forall|i: int|
            0 <= i < blocks.len() ==> has_row(
                block_rows(blocks, had, places),
                Some((#[trigger] blocks[i]).work_shift_id),
            ),
    decreases blocks.len(),
{
    if blocks.len() > 0 {
        let short = blocks.drop_last();
        let b = blocks.last();
        lemma_block_rows_are(short, had, places, r);
        lemma_block_rows(short, had, places);
        let at = if b.branch_id is Some {
            b.branch_id
        } else {
            worked_at(had, b.work_shift_id)
        };
        let row = DayRow {
            work_shift_id: Some(b.work_shift_id),
            times: b.times,
            branch_id: places.kept(Some(b.work_shift_id), at),
        };
        let before = block_rows(short, had, places);
        let all = block_rows(blocks, had, places);
        lemma_with_row(before, row);
        assert(blocks[blocks.len() - 1] == b);
        if all.contains(r) && r != row {
            assert(before.contains(r));
            let i = choose|i: int|
                0 <= i < short.len() && r.work_shift_id == Some((#[trigger] short[i]).work_shift_id)
                    && r.times == short[i].times && (short[i].branch_id is Some && r.branch_id
                    is Some ==> r.branch_id == short[i].branch_id);
            assert(blocks[i] == short[i]);
        }
        assert forall|i: int| 0 <= i < blocks.len() implies has_row(
            all,
            Some((#[trigger] blocks[i]).work_shift_id),
        ) by {
            assert(all.contains(row));
            if blocks[i].work_shift_id == b.work_shift_id {
                let k = choose|k: int| 0 <= k < all.len() && all[k] == row;
                assert(all[k].work_shift_id == Some(blocks[i].work_shift_id));
            } else {
                assert(short[i] == blocks[i]);
                let j = choose|j: int|
                    0 <= j < before.len() && (#[trigger] before[j]).work_shift_id == Some(
                        short[i].work_shift_id,
                    );
                assert(before.contains(before[j]) && all.contains(before[j]));
                let k = choose|k: int| 0 <= k < all.len() && all[k] == before[j];
                assert(all[k].work_shift_id == Some(blocks[i].work_shift_id));
            }
        }
    }
}

/// A block is rostered that is live, runs on the weekday, belongs to a branch of
/// the person's or to the whole business, and does not end as it starts.
pub proof fn law_which_block_may_be_rostered(
    info: Option<BlockInfo>,
    subject: Subject,
    date: Day,
    block: Block,
)
    ensures
        block_refused(info, subject, date, block) is None <==> {
            &&& info is Some
            &&& info->0.is_active
            &&& info->0.valid_days@.contains((date as int % 7) as i16)
            &&& info->0.branch_id is Some ==> subject.branches@.contains(info->0.branch_id->0)
            &&& block.times is Some ==> (block.times->0).0 != (block.times->0).1
        },
{
}

/// What rostering a block is refused for first.
pub proof fn law_how_rostering_a_block_is_refused(
    info: Option<BlockInfo>,
    subject: Subject,
    date: Day,
    block: Block,
)
    ensures
        ({
            block_refused(info, subject, date, block) == if info is None {
                Some(ErrorView::NotFound("Work shift not found"@))
            } else if !info->0.is_active {
                Some(coded_view(400, "SHIFT_INACTIVE"@, info->0.name@ + " is switched off."@))
            } else if !info->0.valid_days@.contains((date as int % 7) as i16) {
                Some(
                    coded_view(400, "SHIFT_NOT_ON_DAY"@, info->0.name@ + " isn't a shift on "@
                        + weekday_name(date as int % 7) + "."@),
                )
            } else if info->0.branch_id is Some
                && !subject.branches@.contains(info->0.branch_id->0) {
                Some(
                    coded_view(400, "SHIFT_OTHER_BRANCH"@, info->0.name@ + " doesn't work at "@
                        + subject.name@ + "'s branch."@),
                )
            } else if block.times is Some && (block.times->0).0 == (block.times->0).1 {
                Some(
                    coded_view(400, "SHIFT_EMPTY"@,
                        "A shift can't start and end at the same time."@),
                )
            } else {
                None
            }
        }),
{
}

/// The times of a block on a date are those of its row, and where it is worked is
/// where the row says; without a row there are none.
pub proof fn law_a_block_is_read_of_its_row(rows: Seq<DayRow>, shift: Id, k: int)
    requires
        0 <= k <= rows.len(),
        forall|i: int| 0 <= i < k ==> (#[trigger] rows[i]).work_shift_id != Some(shift),
        k < rows.len() ==> rows[k].work_shift_id == Some(shift),
    ensures
        k < rows.len() ==> times_of(rows, shift) == rows[k].times && worked_at(rows, shift)
            == rows[k].branch_id,
        k == rows.len() ==> times_of(rows, shift) is None && worked_at(rows, shift) is None,
{
    if k < rows.len() {
        lemma_first_row(rows, shift, k);
    } else {
        lemma_no_row(rows, shift);
    }
}

} // verus!
