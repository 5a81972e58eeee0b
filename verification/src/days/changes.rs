//! What a roster change touched: overlaps, the people and dates whose
//! assignments differ, and what they are told.

use vstd::prelude::*;
use vstd::multiset::Multiset;

use crate::calendar::{
    day_chars, day_text, id_chars, id_text, valid_day, valid_moment, Day, Id, Moment, MAX_DAY,
    MIN_DAY, NANOS_PER_SECOND,
};
use crate::errors::{coded_vars, vars_view, AppError, ErrorView, Var, VarView};
use crate::ordered::{in_order, law_sorted_once, put_item, sorted_once, PersonDay};
use crate::text::join3;

verus! {

/// One assignment as the roster has it.
pub struct ResolvedShift {
    pub employee_id: Id,
    pub on_date: Day,
    pub work_shift_id: Id,
    pub name: String,
    pub scheduled_start_at: Moment,
    pub scheduled_end_at: Moment,
}

/// Dated inside the range.
pub open spec fn inside(d: Day, from: Day, to: Day) -> bool {
    from <= d <= to
}

/// Two assignments of one person that overlap, at least one of them dated
/// inside the range.
pub open spec fn clash(a: ResolvedShift, b: ResolvedShift, from: Day, to: Day) -> bool {
    &&& a.employee_id == b.employee_id
    &&& inside(a.on_date, from, to) || inside(b.on_date, from, to)
    &&& a.scheduled_start_at < b.scheduled_end_at
    &&& b.scheduled_start_at < a.scheduled_end_at
}

/// No pair comes before this one, by the earlier of the two and then the later.
pub open spec fn earlier_pair(a: (int, int), b: (int, int)) -> bool {
    a.0 < b.0 || a.0 == b.0 && a.1 < b.1
}

/// Where the first pair of one person's assignments that overlap stands, at
/// least one of them dated inside `[from, to]`.
pub fn first_overlap(rows: &[ResolvedShift], from: Day, to: Day) -> (r: Option<(usize, usize)>)
    ensures
        match r {
            Some((i, j)) => {
                &&& i < j < rows@.len()
                &&& clash(rows@[i as int], rows@[j as int], from, to)
                &&& forall|a: int, b: int|
                    #![trigger rows@[a], rows@[b]]
                    0 <= a < b < rows@.len() && earlier_pair((a, b), (i as int, j as int))
                        ==> !clash(rows@[a], rows@[b], from, to)
            },
            None => forall|a: int, b: int|
                #![trigger rows@[a], rows@[b]]
                0 <= a < b < rows@.len() ==> !clash(rows@[a], rows@[b], from, to),
        },
{
    let mut i: usize = 0;
    while i < rows.len()
        invariant
            i <= rows@.len(),
            forall|a: int, b: int|
                #![trigger rows@[a], rows@[b]]
                0 <= a < b < rows@.len() && a < i ==> !clash(rows@[a], rows@[b], from, to),
        decreases rows@.len() - i,
    {
        let mut j: usize = i + 1;
        while j < rows.len()
            invariant
                i < j <= rows@.len(),
                forall|a: int, b: int|
                    #![trigger rows@[a], rows@[b]]
                    0 <= a < b < rows@.len() && a < i ==> !clash(rows@[a], rows@[b], from, to),
                forall|b: int|
                    i < b < j ==> !clash(rows@[i as int], #[trigger] rows@[b], from, to),
            decreases rows@.len() - j,
        {
            let a: &ResolvedShift = &rows[i];
            let b: &ResolvedShift = &rows[j];
            let a_in: bool = from <= a.on_date && a.on_date <= to;
            let b_in: bool = from <= b.on_date && b.on_date <= to;
            if a.employee_id == b.employee_id && (a_in || b_in) && a.scheduled_start_at
                < b.scheduled_end_at && b.scheduled_start_at < a.scheduled_end_at {
                return Some((i, j));
            }
            j += 1;
        }
        i += 1;
    }
    None
}

/// What two assignments that overlap are refused with.
pub open spec fn overlap_view(a: ResolvedShift, b: ResolvedShift) -> ErrorView {
    ErrorView::CodedVars {
        status: 409,
        code: "SHIFTS_OVERLAP"@,
        reason: a.name@ + " on "@ + day_chars(a.on_date) + " and "@ + b.name@ + " on "@ + day_chars(
            b.on_date,
        ) + " overlap."@,
        vars: seq![
            ("a"@, VarView::Text(a.name@)),
            ("b"@, VarView::Text(b.name@)),
            ("date"@, VarView::On(a.on_date as int)),
            ("a_date"@, VarView::On(a.on_date as int)),
            ("b_date"@, VarView::On(b.on_date as int)),
        ],
    }
}

/// Nothing of one person overlaps.
pub open spec fn no_clash(rows: Seq<ResolvedShift>, from: Day, to: Day) -> bool {
    forall|a: int, b: int|
        #![trigger rows[a], rows[b]]
        0 <= a < b < rows.len() ==> !clash(rows[a], rows[b], from, to)
}

/// The refusal is that of the first pair that overlaps.
pub open spec fn names_first_clash(
    e: ErrorView,
    rows: Seq<ResolvedShift>,
    from: Day,
    to: Day,
) -> bool {
    exists|i: int, j: int|
        #![trigger rows[i], rows[j]]
        0 <= i < j < rows.len() && clash(rows[i], rows[j], from, to) && e == overlap_view(
            rows[i],
            rows[j],
        ) && forall|a: int, b: int|
            #![trigger rows[a], rows[b]]
            0 <= a < b < rows.len() && earlier_pair((a, b), (i, j)) ==> !clash(
                rows[a],
                rows[b],
                from,
                to,
            )
}

/// Shifts whose first clash is named do clash.
pub proof fn lemma_a_named_clash_is_one(
    e: ErrorView,
    rows: Seq<ResolvedShift>,
    from: Day,
    to: Day,
)
    requires
        names_first_clash(e, rows, from, to),
    ensures
        !no_clash(rows, from, to),
{
}

/// Two assignments of one person may not overlap, a night shift's morning
/// among them. Checks every assignment touching `[from, to]`.
pub fn check_overlaps(rows: &[ResolvedShift], from: Day, to: Day) -> (r: Result<(), AppError>)
    requires
        forall|i: int| 0 <= i < rows@.len() ==> valid_day((#[trigger] rows@[i]).on_date),
    ensures
        match r {
            Ok(_) => no_clash(rows@, from, to),
            Err(e) => names_first_clash(e@, rows@, from, to),
        },
{
    match first_overlap(rows, from, to) {
        None => Ok(()),
        Some((i, j)) => {
            let a: &ResolvedShift = &rows[i];
            let b: &ResolvedShift = &rows[j];
            let mut reason: String = join3(a.name.as_str(), " on ", day_text(a.on_date).as_str());
            reason.push_str(" and ");
            reason.push_str(b.name.as_str());
            reason.push_str(" on ");
            reason.push_str(day_text(b.on_date).as_str());
            reason.push_str(" overlap.");
            let mut vars: Vec<(&'static str, Var)> = Vec::new();
            vars.push(("a", Var::Text(a.name.as_str().to_owned())));
            vars.push(("b", Var::Text(b.name.as_str().to_owned())));
            vars.push(("date", Var::On(a.on_date)));
            vars.push(("a_date", Var::On(a.on_date)));
            vars.push(("b_date", Var::On(b.on_date)));
            assert(vars_view(vars@) =~= overlap_view(*a, *b)->CodedVars_vars);
            let e: AppError = coded_vars(409, "SHIFTS_OVERLAP", reason.as_str(), vars);
            assert(e@ == overlap_view(rows@[i as int], rows@[j as int]));
            Err(e)
        },
    }
}

/// A manual edit's name among what the engine learns from.
pub fn manual_key(date: Day, shift: Id, employee: Id) -> (r: String)
    requires
        valid_day(date),
    ensures
        r@ == "manual|"@ + day_chars(date) + "|"@ + id_chars(shift) + "|"@ + id_chars(employee),
{
    let mut out: String = join3("manual|", day_text(date).as_str(), "|");
    out.push_str(id_text(shift).as_str());
    out.push_str("|");
    out.push_str(id_text(employee).as_str());
    out
}

/// One rostered assignment of a snapshot.
#[derive(Debug, Clone, Copy, PartialEq, Eq, Structural)]
pub struct Rostered {
    pub whose: PersonDay,
    pub work_shift_id: Id,
    pub start: Moment,
    pub end: Moment,
}

/// A person's assignments on a date, in whatever order.
pub open spec fn day_assignments(snapshot: Seq<Rostered>, k: PersonDay) -> Multiset<Rostered> {
    snapshot.filter(|r: Rostered| r.whose == k).to_multiset()
}

/// The assignments of the person and date differ between the two snapshots.
pub open spec fn differs(before: Seq<Rostered>, after: Seq<Rostered>, k: PersonDay) -> bool {
    day_assignments(before, k) != day_assignments(after, k)
}

/// The people and dates of a snapshot.
pub open spec fn keys_of(snapshot: Seq<Rostered>) -> Seq<PersonDay> {
    Seq::new(snapshot.len(), |i: int| snapshot[i].whose)
}

/// The people and dates whose assignments differ, in order and once each.
pub open spec fn changed(before: Seq<Rostered>, after: Seq<Rostered>) -> Seq<PersonDay> {
    sorted_once(
        (keys_of(before) + keys_of(after)).filter(|k: PersonDay| differs(before, after, k)),
    )
}

fn same_person_day(a: &PersonDay, b: &PersonDay) -> (r: bool)
    ensures
        r == (*a == *b),
{
    a.employee_id == b.employee_id && a.date == b.date
}

fn of_day(snapshot: &Vec<Rostered>, k: &PersonDay) -> (r: Vec<Rostered>)
    ensures
        r@ == snapshot@.filter(|r: Rostered| r.whose == *k),
{
    let mut out: Vec<Rostered> = Vec::new();
    let mut i: usize = 0;
    while i < snapshot.len()
        invariant
            i <= snapshot@.len(),
            out@ == snapshot@.take(i as int).filter(|r: Rostered| r.whose == *k),
        decreases snapshot@.len() - i,
    {
        let keep: bool = same_person_day(&snapshot[i].whose, k);
        proof {
            let f = |r: Rostered| r.whose == *k;
            reveal(Seq::filter);
            assert(snapshot@.take(i + 1).drop_last() =~= snapshot@.take(i as int));
            assert(keep == f(snapshot@[i as int]));
        }
        if keep {
            out.push(snapshot[i]);
        }
        i += 1;
    }
    assert(snapshot@.take(snapshot@.len() as int) =~= snapshot@);
    out
}

fn same_rostered(a: &Rostered, b: &Rostered) -> (r: bool)
    ensures
        r == (*a == *b),
{
    a.whose.employee_id == b.whose.employee_id && a.whose.date == b.whose.date && a.work_shift_id
        == b.work_shift_id && a.start == b.start && a.end == b.end
}

fn times_in(list: &Vec<Rostered>, x: &Rostered) -> (r: usize)
    ensures
        r == list@.to_multiset().count(*x),
{
    broadcast use vstd::seq_lib::group_to_multiset_ensures;

    let mut n: usize = 0;
    let mut i: usize = 0;
    assert(list@.take(0).to_multiset() =~= Multiset::empty());
    while i < list.len()
        invariant
            i <= list@.len(),
            n <= i,
            n == list@.take(i as int).to_multiset().count(*x),
        decreases list@.len() - i,
    {
        broadcast use vstd::seq_lib::group_to_multiset_ensures;

        proof {
            assert(list@.take(i + 1) =~= list@.take(i as int).push(list@[i as int]));
            assert(list@.take(i + 1).to_multiset() =~= list@.take(i as int).to_multiset().insert(
                list@[i as int],
            ));
        }
        if same_rostered(&list[i], x) {
            n += 1;
        }
        i += 1;
    }
    assert(list@.take(list@.len() as int) =~= list@);
    n
}

fn counted_alike(list: &Vec<Rostered>, a: &Vec<Rostered>, b: &Vec<Rostered>) -> (r: bool)
    ensures
        r == forall|i: int|
            0 <= i < list@.len() ==> a@.to_multiset().count(#[trigger] list@[i])
                == b@.to_multiset().count(list@[i]),
{
    let mut i: usize = 0;
    while i < list.len()
        invariant
            i <= list@.len(),
            forall|k: int|
                0 <= k < i ==> a@.to_multiset().count(#[trigger] list@[k])
                    == b@.to_multiset().count(list@[k]),
        decreases list@.len() - i,
    {
        if times_in(a, &list[i]) != times_in(b, &list[i]) {
            return false;
        }
        i += 1;
    }
    true
}

fn is_changed(before: &Vec<Rostered>, after: &Vec<Rostered>, k: &PersonDay) -> (r: bool)
    ensures
        r == differs(before@, after@, *k),
{
    let a: Vec<Rostered> = of_day(before, k);
    let b: Vec<Rostered> = of_day(after, k);
    let alike: bool = counted_alike(&a, &a, &b) && counted_alike(&b, &a, &b);
    proof {
        broadcast use vstd::seq_lib::group_to_multiset_ensures;

        if alike {
            assert(a@.to_multiset() =~= b@.to_multiset()) by {
                assert forall|x: Rostered|
                    a@.to_multiset().count(x) == b@.to_multiset().count(x) by {
                    if a@.contains(x) {
                        let i = choose|i: int| 0 <= i < a@.len() && a@[i] == x;
                        assert(a@.to_multiset().count(a@[i]) == b@.to_multiset().count(a@[i]));
                    } else if b@.contains(x) {
                        let i = choose|i: int| 0 <= i < b@.len() && b@[i] == x;
                        assert(a@.to_multiset().count(b@[i]) == b@.to_multiset().count(b@[i]));
                    } else {
                        assert(a@.to_multiset().count(x) == 0);
                        assert(b@.to_multiset().count(x) == 0);
                    }
                }
            }
        }
    }
    !alike
}

/// The people and dates whose assignments differ.
pub fn diff(before: &Vec<Rostered>, after: &Vec<Rostered>) -> (r: Vec<PersonDay>)
    ensures
        r@ == changed(before@, after@),
{
    let mut out: Vec<PersonDay> = Vec::new();
    let ghost f = |k: PersonDay| differs(before@, after@, k);
    let ghost keys = keys_of(before@) + keys_of(after@);
    proof {
        reveal(Seq::filter);
    }
    let mut i: usize = 0;
    while i < before.len()
        invariant
            i <= before@.len(),
            keys == keys_of(before@) + keys_of(after@),
            f == (|k: PersonDay| differs(before@, after@, k)),
            out@ == sorted_once(keys.take(i as int).filter(f)),
        decreases before@.len() - i,
    {
        let k: PersonDay = before[i].whose;
        let is: bool = is_changed(before, after, &k);
        proof {
            reveal(Seq::filter);
            assert(keys.take(i + 1).drop_last() =~= keys.take(i as int));
            assert(keys[i as int] == k);
            assert(is == f(k));
            let kept = keys.take(i as int).filter(f);
            if is {
                assert(kept.push(k).drop_last() =~= kept);
            }
        }
        if is {
            put_item(&mut out, k);
        }
        i += 1;
    }
    let mut j: usize = 0;
    while j < after.len()
        invariant
            j <= after@.len(),
            keys == keys_of(before@) + keys_of(after@),
            f == (|k: PersonDay| differs(before@, after@, k)),
            out@ == sorted_once(keys.take(before@.len() + j).filter(f)),
        decreases after@.len() - j,
    {
        let k: PersonDay = after[j].whose;
        let is: bool = is_changed(before, after, &k);
        proof {
            reveal(Seq::filter);
            let n = before@.len() + j;
            assert(keys.take(n + 1).drop_last() =~= keys.take(n));
            assert(keys[n] == k);
            assert(is == f(k));
            let kept = keys.take(n).filter(f);
            if is {
                assert(kept.push(k).drop_last() =~= kept);
            }
        }
        if is {
            put_item(&mut out, k);
        }
        j += 1;
    }
    assert(keys.take(keys.len() as int) =~= keys);
    out
}

/// From yesterday to the end of the last published week: the part of the roster
/// anyone has been shown. `None` = nothing published ahead, so no change can be
/// "after publish".
pub fn published_horizon(last_week: Option<Day>, today: Day) -> (r: Option<(Day, Day)>)
    requires
        MIN_DAY < today,
        valid_day(today),
        last_week matches Some(w) ==> MIN_DAY <= w <= MAX_DAY - 6,
    ensures
        r == match last_week {
            Some(w) => Some(((today - 1) as Day, (w + 6) as Day)),
            None => None,
        },
{
    match last_week {
        Some(w) => Some((today - 1, w + 6)),
        None => None,
    }
}

/// A record the absence sweep may have written.
#[derive(Debug, Clone, Copy, PartialEq, Eq, Structural)]
pub struct SweptRecord {
    pub id: Id,
    pub work_shift_id: Option<Id>,
    pub scheduled_start_at: Option<Moment>,
    pub scheduled_end_at: Option<Moment>,
    /// Absent or on leave.
    pub missed: bool,
    pub checked_in: bool,
    /// Made, or touched since, by someone.
    pub by_hand: bool,
    pub cover: bool,
    /// A request points at it.
    pub requested: bool,
}

/// The sweep's own row: no punch, not written or edited by anyone, no request
/// pointing at it.
pub open spec fn swept(r: SweptRecord) -> bool {
    r.missed && !r.checked_in && !r.by_hand && !r.cover && !r.requested
}

/// The roster still has what the record was missed for.
pub open spec fn still_rostered(r: SweptRecord, rostered: Seq<(Id, Moment, Moment)>) -> bool {
    exists|i: int|
        0 <= i < rostered.len() && r.work_shift_id == Some((#[trigger] rostered[i]).0)
            && r.scheduled_start_at == Some(rostered[i].1) && r.scheduled_end_at == Some(
            rostered[i].2,
        )
}

/// The sweep's own rows that no longer match the roster, in order.
pub open spec fn stale_of(
    records: Seq<SweptRecord>,
    rostered: Seq<(Id, Moment, Moment)>,
) -> Seq<Id>
    decreases records.len(),
{
    if records.len() == 0 {
        Seq::empty()
    } else {
        let before = stale_of(records.drop_last(), rostered);
        let r = records.last();
        if swept(r) && !still_rostered(r, rostered) {
            before.push(r.id)
        } else {
            before
        }
    }
}

fn same_moment(a: Option<Moment>, b: Moment) -> (r: bool)
    ensures
        r == (a == Some(b)),
{
    match a {
        Some(x) => x == b,
        None => false,
    }
}

fn is_rostered(r: &SweptRecord, rostered: &Vec<(Id, Moment, Moment)>) -> (b: bool)
    ensures
        b == still_rostered(*r, rostered@),
{
    let mut i: usize = 0;
    while i < rostered.len()
        invariant
            i <= rostered@.len(),
            forall|k: int|
                0 <= k < i ==> !(r.work_shift_id == Some((#[trigger] rostered@[k]).0)
                    && r.scheduled_start_at == Some(rostered@[k].1) && r.scheduled_end_at == Some(
                    rostered@[k].2,
                )),
        decreases rostered@.len() - i,
    {
        let (s, a, b) = rostered[i];
        let shift: bool = match r.work_shift_id {
            Some(x) => x == s,
            None => false,
        };
        if shift && same_moment(r.scheduled_start_at, a) && same_moment(r.scheduled_end_at, b) {
            assert(r.work_shift_id == Some(rostered@[i as int].0));
            return true;
        }
        i += 1;
    }
    false
}

/// A roster edit changed a person's date: the absences the sweep wrote on it
/// that no longer match the roster go, so the new times are judged from
/// scratch. Never in a closed month, and never a row a person touched.
pub fn clear_stale_absences(
    month_closed: bool,
    records: &Vec<SweptRecord>,
    rostered: &Vec<(Id, Moment, Moment)>,
) -> (r: Vec<Id>)
    ensures
        r@ == if month_closed {
            Seq::<Id>::empty()
        } else {
            stale_of(records@, rostered@)
        },
{
    let mut out: Vec<Id> = Vec::new();
    if month_closed {
        return out;
    }
    let mut i: usize = 0;
    while i < records.len()
        invariant
            i <= records@.len(),
            out@ == stale_of(records@.take(i as int), rostered@),
        decreases records@.len() - i,
    {
        assert(records@.take(i + 1).drop_last() =~= records@.take(i as int));
        let r: SweptRecord = records[i];
        if r.missed && !r.checked_in && !r.by_hand && !r.cover && !r.requested && !is_rostered(
            &r,
            rostered,
        ) {
            out.push(r.id);
        }
        i += 1;
    }
    assert(records@.take(records@.len() as int) =~= records@);
    out
}

/// A change, and whether its week was published at one of the person's
/// branches.
#[derive(Debug, Clone, Copy, PartialEq, Eq, Structural)]
pub struct Change {
    pub whose: PersonDay,
    pub published: bool,
}

/// The changes to mark: those of published weeks, in order.
pub open spec fn to_mark(changes: Seq<Change>) -> Seq<PersonDay>
    decreases changes.len(),
{
    if changes.len() == 0 {
        Seq::empty()
    } else {
        let before = to_mark(changes.drop_last());
        if changes.last().published {
            before.push(changes.last().whose)
        } else {
            before
        }
    }
}

/// A published week changed for these people on these dates: the days to mark.
/// Days in weeks nobody published stay drafts and are silent.
pub fn mark_changed(changes: &Vec<Change>) -> (r: Vec<PersonDay>)
    ensures
        r@ == to_mark(changes@),
{
    let mut out: Vec<PersonDay> = Vec::new();
    let mut i: usize = 0;
    while i < changes.len()
        invariant
            i <= changes@.len(),
            out@ == to_mark(changes@.take(i as int)),
        decreases changes@.len() - i,
    {
        assert(changes@.take(i + 1).drop_last() =~= changes@.take(i as int));
        if changes[i].published {
            out.push(changes[i].whose);
        }
        i += 1;
    }
    assert(changes@.take(changes@.len() as int) =~= changes@);
    out
}

/// The dates of the person among the days marked, in order.
pub open spec fn dates_of(marked: Seq<PersonDay>, employee: Id) -> Seq<Day>
    decreases marked.len(),
{
    if marked.len() == 0 {
        Seq::empty()
    } else {
        let before = dates_of(marked.drop_last(), employee);
        if marked.last().employee_id == employee {
            before.push(marked.last().date)
        } else {
            before
        }
    }
}

/// What one person's notice is about: the dates marked for them.
pub fn dates_to_tell(marked: &Vec<PersonDay>, employee: Id) -> (r: Vec<Day>)
    ensures
        r@ == dates_of(marked@, employee),
{
    let mut out: Vec<Day> = Vec::new();
    let mut i: usize = 0;
    while i < marked.len()
        invariant
            i <= marked@.len(),
            out@ == dates_of(marked@.take(i as int), employee),
        decreases marked@.len() - i,
    {
        assert(marked@.take(i + 1).drop_last() =~= marked@.take(i as int));
        if marked[i].employee_id == employee {
            out.push(marked[i].date);
        }
        i += 1;
    }
    assert(marked@.take(marked@.len() as int) =~= marked@);
    out
}

/// How long one edit's notices are one notice: a drag to another day or a block
/// swapped in the day editor reaches the server as two writes.
pub const ONE_EDIT_SECONDS: i128 = 120;

/// The latest unread "your shift changed" notice of a person.
pub struct ShiftNotice {
    pub created_at: Moment,
    pub dates: Vec<Day>,
}

/// What a person is told of a change.
#[derive(Debug, Clone, PartialEq, Eq)]
pub enum ShiftNews {
    /// There is nothing to tell.
    Nothing,
    /// The notice they have not read yet says these dates now.
    Joined(Vec<Day>),
    /// A new notice; the first date is the one an older app shows.
    Notice { first: Day, dates: Vec<Day> },
}

/// The notice was made within the time of one edit.
pub open spec fn same_edit(created_at: Moment, now: Moment) -> bool {
    created_at > now - ONE_EDIT_SECONDS * NANOS_PER_SECOND
}

fn sort_days(a: &Vec<Day>, b: &Vec<Day>) -> (r: Vec<Day>)
    ensures
        r@ == sorted_once(a@ + b@),
{
    let mut out: Vec<Day> = Vec::new();
    let ghost list = a@ + b@;
    let mut i: usize = 0;
    while i < a.len()
        invariant
            i <= a@.len(),
            list == a@ + b@,
            out@ == sorted_once(list.take(i as int)),
        decreases a@.len() - i,
    {
        proof {
            assert(list.take(i + 1).drop_last() =~= list.take(i as int));
            assert(list[i as int] == a@[i as int]);
        }
        put_item(&mut out, a[i]);
        i += 1;
    }
    let mut j: usize = 0;
    while j < b.len()
        invariant
            j <= b@.len(),
            list == a@ + b@,
            out@ == sorted_once(list.take(a@.len() + j)),
        decreases b@.len() - j,
    {
        proof {
            let n = a@.len() + j;
            assert(list.take(n + 1).drop_last() =~= list.take(n));
            assert(list[n] == b@[j as int]);
        }
        put_item(&mut out, b[j]);
        j += 1;
    }
    assert(list.take(list.len() as int) =~= list);
    out
}

/// "Your shift changed", once per person per edit: the dates of a change made
/// within [`ONE_EDIT_SECONDS`] of an unread notice join that notice instead of
/// pushing a second one.
pub fn tell_shift_changed(
    unread: &Option<ShiftNotice>,
    now: Moment,
    dates: Vec<Day>,
) -> (r: ShiftNews)
    requires
        valid_moment(now),
    ensures
        if dates@.len() == 0 {
            r is Nothing
        } else {
            match *unread {
                Some(n) if same_edit(n.created_at, now) => r is Joined && r->Joined_0@
                    == sorted_once(n.dates@ + dates@),
                _ => r is Notice && r->first == dates@[0] && r->dates@ == dates@,
            }
        },
{
    if dates.len() == 0 {
        return ShiftNews::Nothing;
    }
    let since: Moment = now - ONE_EDIT_SECONDS * NANOS_PER_SECOND;
    match unread {
        Some(n) => {
            if n.created_at > since {
                return ShiftNews::Joined(sort_days(&n.dates, &dates));
            }
        },
        None => {},
    }
    let first: Day = dates[0];
    ShiftNews::Notice { first, dates }
}

/// A snapshot without the person's date has nothing of it.
proof fn lemma_absent_key(snapshot: Seq<Rostered>, k: PersonDay)
    requires
        !keys_of(snapshot).contains(k),
    ensures
        snapshot.filter(|r: Rostered| r.whose == k) == Seq::<Rostered>::empty(),
    decreases snapshot.len(),
{
    reveal(Seq::filter);
    if snapshot.len() > 0 {
        let rest = snapshot.drop_last();
        assert(keys_of(snapshot)[snapshot.len() - 1] == snapshot.last().whose);
        assert(!keys_of(rest).contains(k)) by {
            if keys_of(rest).contains(k) {
                let i = choose|i: int| 0 <= i < rest.len() && keys_of(rest)[i] == k;
                assert(keys_of(snapshot)[i] == k);
            }
        }
        lemma_absent_key(rest, k);
    }
}

/// Exactly the people and dates whose assignments differ are changed, each
/// once and in order.
pub proof fn law_changed_is_what_differs(
    before: Seq<Rostered>,
    after: Seq<Rostered>,
    k: PersonDay,
)
    ensures
        changed(before, after).contains(k) <==> differs(before, after, k),
        in_order(changed(before, after)),
{
    let keys = keys_of(before) + keys_of(after);
    let f = |k: PersonDay| differs(before, after, k);
    let kept = keys.filter(f);
    law_sorted_once(kept);
    broadcast use vstd::seq_lib::group_filter_ensures;

    if changed(before, after).contains(k) {
        assert(kept.contains(k));
    }
    if differs(before, after, k) {
        if keys_of(before).contains(k) {
            let i = choose|i: int| 0 <= i < before.len() && keys_of(before)[i] == k;
            assert(keys[i] == k);
        } else if keys_of(after).contains(k) {
            let i = choose|i: int| 0 <= i < after.len() && keys_of(after)[i] == k;
            assert(keys[before.len() + i] == k);
        } else {
            lemma_absent_key(before, k);
            lemma_absent_key(after, k);
        }
        assert(keys.contains(k));
        assert(f(k));
        assert(kept.contains(k));
    }
}

/// Nothing clashes exactly where, of any two shifts of one person of which one
/// is dated inside the range, one ends no later than the other starts.
pub proof fn law_no_clash_is_no_overlap(rows: Seq<ResolvedShift>, from: Day, to: Day)
    ensures
        no_clash(rows, from, to) <==> forall|a: int, b: int|
            #![trigger rows[a], rows[b]]
            0 <= a < b < rows.len() && rows[a].employee_id == rows[b].employee_id && (from
                <= rows[a].on_date <= to || from <= rows[b].on_date <= to)
                ==> rows[a].scheduled_end_at <= rows[b].scheduled_start_at
                || rows[b].scheduled_end_at <= rows[a].scheduled_start_at,
{
    if no_clash(rows, from, to) {
        assert forall|a: int, b: int|
            #![trigger rows[a], rows[b]]
            0 <= a < b < rows.len() && rows[a].employee_id == rows[b].employee_id && (from
                <= rows[a].on_date <= to || from <= rows[b].on_date
                <= to) implies rows[a].scheduled_end_at <= rows[b].scheduled_start_at
            || rows[b].scheduled_end_at <= rows[a].scheduled_start_at by {
            assert(!clash(rows[a], rows[b], from, to));
        }
    }
}

/// The sweep's record of a shift the roster no longer has goes, and no other: not
/// one somebody punched, made, asked about or covers, nor one still rostered at
/// its times.
pub proof fn law_only_the_sweeps_stale_records_go(
    records: Seq<SweptRecord>,
    r: SweptRecord,
    rostered: Seq<(Id, Moment, Moment)>,
)
    ensures
        ({
            let own = r.missed && !r.checked_in && !r.by_hand && !r.cover && !r.requested;
            let there = exists|i: int|
                0 <= i < rostered.len() && r.work_shift_id == Some((#[trigger] rostered[i]).0)
                    && r.scheduled_start_at == Some(rostered[i].1) && r.scheduled_end_at == Some(
                    rostered[i].2,
                );
            stale_of(records.push(r), rostered) == if own && !there {
                stale_of(records, rostered).push(r.id)
            } else {
                stale_of(records, rostered)
            }
        }),
        stale_of(Seq::empty(), rostered).len() == 0,
{
    assert(records.push(r).drop_last() =~= records);
}

/// A change of a published week is marked, and no other.
pub proof fn law_changes_of_published_weeks_are_marked(changes: Seq<Change>, c: Change)
    ensures
        to_mark(changes.push(c)) == if c.published {
            to_mark(changes).push(c.whose)
        } else {
            to_mark(changes)
        },
        to_mark(Seq::empty()).len() == 0,
{
    assert(changes.push(c).drop_last() =~= changes);
}

/// A person is told of their own dates, and of no one else's.
pub proof fn law_a_person_is_told_of_their_dates(marked: Seq<PersonDay>, m: PersonDay, u: Id)
    ensures
        dates_of(marked.push(m), u) == if m.employee_id == u {
            dates_of(marked, u).push(m.date)
        } else {
            dates_of(marked, u)
        },
        dates_of(Seq::empty(), u).len() == 0,
{
    assert(marked.push(m).drop_last() =~= marked);
}

/// Notices less than two minutes apart are of one edit.
pub proof fn law_one_edit_lasts_two_minutes(created_at: Moment, now: Moment)
    ensures
        same_edit(created_at, now) <==> now - created_at < 2 * 60_000_000_000,
{
}

/// The first pair of a list is the one whose earlier one stands first, and of
/// those the one whose later one does.
pub proof fn law_pairs_come_by_the_earlier_one(a: int, b: int, c: int, d: int)
    ensures
        earlier_pair((a, b), (c, d)) <==> a < c || (a == c && b < d),
        !(earlier_pair((a, b), (c, d)) && earlier_pair((c, d), (a, b))),
{
}

} // verus!
