//! Suggestions once they are made: kept, shown, decided, and what accepting one
//! changes.

pub mod pattern;

use vstd::prelude::*;

use crate::access::Subject;
use crate::calendar::{
    day_chars, day_text, id_chars, id_text, parse_day, parsed_day, valid_day, Day, Id, Moment,
    MAX_DAY, MIN_DAY, NANOS_PER_SECOND,
};
use crate::dawam::engine::{frozen, learning_stops};
use crate::dawam::roster::{RosterPerson, WorkShiftBrief};
use crate::dawam::suggest::hourly::{find_person, first_with};
use crate::dawam::suggest::search::Suggestion;
use crate::days::changes::{check_overlaps, names_first_clash, no_clash, ResolvedShift};
use crate::days::{
    add_block, added, block_refused, has_row, own_set, remove_block, removed, times_of,
    validate_block, Block, BlockInfo, DayRow, PatternBlock, Places,
};
use crate::errors::{
    bad_request, either, given, refusal, refused, vars_view, AppError, ErrorView, Var, VarView,
};
use crate::text::{chars_of, has_text, holds_text, join3, same_text, text_of};

verus! {

/// One on-demand recompute per branch-week in this time; within it a stale week
/// is served.
pub const RECOMPUTE_EVERY_SECS: i128 = 30;

/// A kept week can be shown: it is current, or was computed a moment ago.
pub fn usable(stale: bool, computed_at: Moment, now: Moment) -> (r: bool)
    requires
        crate::calendar::valid_moment(computed_at),
        crate::calendar::valid_moment(now),
    ensures
        r == (!stale || crate::calendar::whole_units(
            now - computed_at,
            NANOS_PER_SECOND as int,
        ) < RECOMPUTE_EVERY_SECS),
        !stale ==> r,
        stale && computed_at <= now ==> (r <==> now - computed_at < 30 * 1_000_000_000),
{
    if !stale {
        return true;
    }
    let span: i128 = now - computed_at;
    if span >= 0 {
        span / NANOS_PER_SECOND < RECOMPUTE_EVERY_SECS
    } else {
        true
    }
}

/// The suggestions not decided yet, in order.
pub open spec fn undecided(all: Seq<Suggestion>, decided: Seq<String>) -> Seq<Suggestion> {
    all.filter(|s: Suggestion| !holds_text(decided, s.id@))
}

/// The suggestions not decided yet.
pub fn cached_suggestions(all: Vec<Suggestion>, decided: &Vec<String>) -> (r: Vec<Suggestion>)
    ensures
        r@ == undecided(all@, decided@),
{
    let ghost f = |s: Suggestion| !holds_text(decided@, s.id@);
    let mut rest: Vec<Suggestion> = all;
    let mut out: Vec<Suggestion> = Vec::new();
    proof {
        assert(Seq::empty() + rest@.filter(f) =~= all@.filter(f));
    }
    while rest.len() > 0
        invariant
            f == (|s: Suggestion| !holds_text(decided@, s.id@)),
            all@.filter(f) == out@ + rest@.filter(f),
        decreases rest@.len(),
    {
        let ghost was = rest@;
        let ghost had = out@;
        let s: Suggestion = rest.remove(0);
        let keep: bool = !has_text(decided, s.id.as_str());
        proof {
            assert(was =~= seq![s] + rest@);
            Seq::filter_distributes_over_add(seq![s], rest@, f);
            reveal_with_fuel(Seq::filter, 2);
            assert(seq![s].drop_last() =~= Seq::empty());
            assert(seq![s].last() == s);
            assert(keep == f(s));
            if keep {
                assert(seq![s].filter(f) =~= seq![s]);
                assert(had + (seq![s] + rest@.filter(f)) =~= had.push(s) + rest@.filter(f));
            } else {
                assert(seq![s].filter(f) =~= Seq::empty());
                assert(Seq::empty() + rest@.filter(f) =~= rest@.filter(f));
            }
        }
        if keep {
            out.push(s);
        }
    }
    proof {
        reveal(Seq::filter);
        assert(rest@ =~= Seq::empty());
        assert(out@ + Seq::<Suggestion>::empty() =~= out@);
    }
    out
}

/// What becomes of a branch's learning, and what the owners are told of it.
#[derive(Debug, Clone, Copy, PartialEq, Eq)]
pub struct LearningState {
    pub frozen: bool,
    /// It is another than the one kept.
    pub changed: bool,
    /// The first sighting of a healthy branch is not news; a freeze or a thaw
    /// is.
    pub notice: Option<&'static str>,
}

/// Is learning frozen at this branch? Says when that flips.
pub fn learning_frozen(accepted: i64, decided: i64, was: Option<bool>) -> (r: LearningState)
    ensures
        ({
            let now = learning_stops(accepted as int, decided as int);
            &&& r.frozen == now
            &&& r.changed == (was != Some(now))
            &&& r.notice is Some <==> (was != Some(now) && (now || was == Some(true)))
            &&& r.notice matches Some(n) ==> n@ == if now {
                "staff.n_learning_frozen"@
            } else {
                "staff.n_learning_resumed"@
            }
        }),
{
    let now: bool = frozen(accepted, decided);
    let changed: bool = match was {
        Some(w) => w != now,
        None => true,
    };
    let was_frozen: bool = match was {
        Some(w) => w,
        None => false,
    };
    let notice: Option<&'static str> = if changed && (now || was_frozen) {
        if now {
            Some("staff.n_learning_frozen")
        } else {
            Some("staff.n_learning_resumed")
        }
    } else {
        None
    };
    LearningState { frozen: now, changed, notice }
}

/// Where the first bar stands from a place on, the length where there is none.
pub open spec fn bar_from(s: Seq<char>, i: int) -> int
    decreases s.len() - i,
{
    if i >= s.len() {
        s.len() as int
    } else if s[i] == '|' {
        i
    } else {
        bar_from(s, i + 1)
    }
}

/// The second of the parts a suggestion's id is made of, if it has two.
pub open spec fn second_part(s: Seq<char>) -> Option<Seq<char>> {
    let a = bar_from(s, 0);
    if a >= s.len() {
        None
    } else {
        Some(s.subrange(a + 1, bar_from(s, a + 1)))
    }
}

fn find_bar(cs: &Vec<char>, from: usize) -> (r: usize)
    requires
        from <= cs@.len(),
    ensures
        r == bar_from(cs@, from as int),
        from <= r <= cs@.len(),
{
    let mut i: usize = from;
    while i < cs.len() && cs[i] != '|'
        invariant
            from <= i <= cs@.len(),
            bar_from(cs@, from as int) == bar_from(cs@, i as int),
        decreases cs@.len() - i,
    {
        i += 1;
    }
    i
}

/// The date a suggestion's id names, if it names one.
pub open spec fn named_date(id: Seq<char>) -> Option<Day> {
    match second_part(id) {
        Some(p) => parsed_day(p),
        None => None,
    }
}

/// The date a suggestion's id names, if it names one.
pub fn suggestion_date(id: &str) -> (r: Option<Day>)
    ensures
        r == named_date(id@),
        r is Some ==> valid_day(r->0),
{
    let cs: Vec<char> = chars_of(id);
    let a: usize = find_bar(&cs, 0);
    if a >= cs.len() {
        return None;
    }
    let b: usize = find_bar(&cs, a + 1);
    parse_day(text_of(&cs, a + 1, b).as_str())
}

/// A suggestion decided.
pub struct DecideSuggestion {
    pub id: String,
    pub accept: bool,
}

/// What is known when a suggestion is to be decided.
pub struct DecideFacts {
    /// The caller may edit schedules somewhere.
    pub gate: Result<(), AppError>,
    /// The caller may edit schedules at the branch.
    pub right: Result<(), AppError>,
    /// Who it puts on the shift is an employee of the business the caller may
    /// schedule.
    pub to: Result<(), AppError>,
    /// So is who it takes off it.
    pub from: Result<(), AppError>,
}

/// Where the suggestion stands among those shown, if it does.
pub open spec fn shown_at(list: Seq<Suggestion>, id: Seq<char>) -> Option<int>
    decreases list.len(),
{
    if list.len() == 0 {
        None
    } else {
        match shown_at(list.drop_last(), id) {
            Some(i) => Some(i),
            None => if list.last().id@ == id {
                Some(list.len() - 1)
            } else {
                None
            },
        }
    }
}

fn find_shown(list: &Vec<Suggestion>, id: &str) -> (r: Option<usize>)
    ensures
        match r {
            Some(i) => i < list@.len() && shown_at(list@, id@) == Some(i as int),
            None => shown_at(list@, id@) is None,
        },
{
    let mut at: Option<usize> = None;
    let mut i: usize = 0;
    while i < list.len()
        invariant
            i <= list@.len(),
            match at {
                Some(k) => k < i && shown_at(list@.take(i as int), id@) == Some(k as int),
                None => shown_at(list@.take(i as int), id@) is None,
            },
        decreases list@.len() - i,
    {
        assert(list@.take(i + 1).drop_last() =~= list@.take(i as int));
        if at.is_none() && same_text(list[i].id.as_str(), id) {
            at = Some(i);
        }
        i += 1;
    }
    assert(list@.take(list@.len() as int) =~= list@);
    at
}

/// The suggestion is not one that is shown.
pub open spec fn stale_view(reason: Seq<char>) -> ErrorView {
    ErrorView::Refused { code: "SUGGESTION_STALE"@, reason }
}

/// What deciding a suggestion is refused for, if anything.
pub open spec fn decision_refused(
    f: DecideFacts,
    id: Seq<char>,
    shown: Seq<Suggestion>,
) -> Option<ErrorView> {
    either(
        refusal(f.gate),
        either(
            refusal(f.right),
            either(
                given(
                    named_date(id) is None,
                    ErrorView::BadRequest("Unknown suggestion"@),
                ),
                match shown_at(shown, id) {
                    None => Some(
                        stale_view(
                            "That suggestion no longer applies — refresh the suggestions."@,
                        ),
                    ),
                    Some(i) => either(
                        refusal(f.to),
                        if shown[i].from_employee_id is Some {
                            refusal(f.from)
                        } else {
                            None
                        },
                    ),
                },
            ),
        ),
    )
}

/// What a decision on a suggestion changes.
#[derive(Debug, Clone, Copy, PartialEq, Eq, Structural)]
pub enum Acceptance {
    /// Nothing: it was rejected.
    Rejected,
    /// The standing pattern of the weekday: this block, or a day off.
    Pattern(Option<Id>),
    /// That date alone, with this block.
    OneDate(Id),
}

/// A suggestion decided: where it stands among those shown, and what that
/// changes.
#[derive(Debug, Clone, Copy, PartialEq, Eq, Structural)]
pub struct Decision {
    pub at: usize,
    pub change: Acceptance,
    /// The block the decision teaches of; a pattern's teaches of none.
    pub taught: Option<Id>,
}

/// A suggestion of the standing pattern, by its id.
pub open spec fn of_pattern(id: Seq<char>) -> bool {
    id.len() >= 8 && id.take(8) == "pattern|"@
}

/// What deciding a suggestion that is shown comes to: the pattern's own are the
/// only ones that change it, and no block is a day off.
pub open spec fn decision_on(s: Suggestion, at: int, accept: bool) -> Decision {
    Decision {
        at: at as usize,
        change: if !accept {
            Acceptance::Rejected
        } else if of_pattern(s.id@) {
            Acceptance::Pattern(
                if s.work_shift_id == 0 {
                    None
                } else {
                    Some(s.work_shift_id)
                },
            )
        } else {
            Acceptance::OneDate(s.work_shift_id)
        },
        taught: if of_pattern(s.id@) {
            None
        } else {
            Some(s.work_shift_id)
        },
    }
}

fn is_of_pattern(id: &str) -> (r: bool)
    ensures
        r == of_pattern(id@),
{
    let cs: Vec<char> = chars_of(id);
    if cs.len() < 8 {
        return false;
    }
    let head: String = text_of(&cs, 0, 8);
    proof {
        assert(cs@.subrange(0, 8) =~= id@.take(8));
    }
    same_text(head.as_str(), "pattern|")
}

/// Accept or reject a suggestion: only one that was made for that branch's week
/// is taken (a crafted id is refused). Answers with where it stands among those
/// shown and what the decision changes: the pattern, that date alone or nothing.
pub fn decide_suggestion(f: DecideFacts, body: &DecideSuggestion, shown: &Vec<Suggestion>) -> (r:
    Result<Decision, AppError>)
    ensures
        match decision_refused(f, body.id@, shown@) {
            Some(e) => r is Err && r->Err_0@ == e,
            None => {
                let at = shown_at(shown@, body.id@)->0;
                0 <= at < shown@.len() && r == Ok::<Decision, AppError>(
                    decision_on(shown@[at], at, body.accept),
                )
            },
        },
{
    f.gate?;
    f.right?;
    if suggestion_date(body.id.as_str()).is_none() {
        return Err(bad_request("Unknown suggestion"));
    }
    let i: usize = match find_shown(shown, body.id.as_str()) {
        Some(i) => i,
        None => {
            return Err(
                refused(
                    "SUGGESTION_STALE",
                    "That suggestion no longer applies — refresh the suggestions.",
                ),
            );
        },
    };
    f.to?;
    if shown[i].from_employee_id.is_some() {
        f.from?;
    }
    let s: &Suggestion = &shown[i];
    let pattern: bool = is_of_pattern(s.id.as_str());
    let change: Acceptance = if !body.accept {
        Acceptance::Rejected
    } else if pattern {
        Acceptance::Pattern(
            if s.work_shift_id == 0 {
                None
            } else {
                Some(s.work_shift_id)
            },
        )
    } else {
        Acceptance::OneDate(s.work_shift_id)
    };
    Ok(
        Decision {
            at: i,
            change,
            taught: if pattern {
                None
            } else {
                Some(s.work_shift_id)
            },
        },
    )
}

/// How many days on an accepted pattern is checked.
pub const PATTERN_CHECK_DAYS: Day = 14;

/// The last date an accepted suggestion of a date is checked on.
pub open spec fn checked_to(change: Acceptance, date: Day) -> int {
    match change {
        Acceptance::Pattern(_) => date + PATTERN_CHECK_DAYS,
        _ => date as int,
    }
}

/// An accepted suggestion stays on the roster where nothing of the person's
/// overlaps on the dates it changes: the date alone, or the two weeks on for the
/// pattern. Else it is undone, with the first overlap named. `rows` are the
/// person's shifts as the roster has them with the change, from the day before
/// to the day after.
pub fn settle_accepted(change: Acceptance, date: Day, rows: &[ResolvedShift]) -> (r: Result<
    (),
    AppError,
>)
    requires
        valid_day(date),
        date <= MAX_DAY - PATTERN_CHECK_DAYS,
        forall|i: int| 0 <= i < rows@.len() ==> valid_day((#[trigger] rows@[i]).on_date),
    ensures
        match r {
            Ok(_) => change == Acceptance::Rejected || no_clash(
                rows@,
                date,
                checked_to(change, date) as Day,
            ),
            Err(e) => change != Acceptance::Rejected && names_first_clash(
                e@,
                rows@,
                date,
                checked_to(change, date) as Day,
            ),
        },
{
    match change {
        Acceptance::Rejected => Ok(()),
        Acceptance::Pattern(_) => check_overlaps(rows, date, date + PATTERN_CHECK_DAYS),
        Acceptance::OneDate(_) => check_overlaps(rows, date, date),
    }
}

/// A rejection changes nothing; of what is accepted, only the pattern's own
/// suggestions change the pattern.
pub proof fn law_only_its_own_suggestions_change_the_pattern(
    s: Suggestion,
    at: int,
    accept: bool,
)
    ensures
        decision_on(s, at, accept).change is Pattern <==> accept && of_pattern(s.id@),
        decision_on(s, at, accept).change is OneDate <==> accept && !of_pattern(s.id@),
        !accept <==> decision_on(s, at, accept).change == Acceptance::Rejected,
{
}

/// What the engine calls a pattern suggestion is read as one, whatever the day,
/// the block and the person.
pub proof fn law_a_pattern_suggestion_is_known_by_its_id(d: Day, shift: Option<Id>, who: Id)
    ensures
        of_pattern(pattern_id(d, shift, who)),
{
    reveal_strlit("pattern|");
    assert(pattern_id(d, shift, who).take(8) =~= "pattern|"@);
}

/// One person's date that accepting a suggestion changes.
pub struct ChangedDay {
    pub rows: Vec<DayRow>,
    pub pattern: Vec<PatternBlock>,
    pub places: Places,
}

impl ChangedDay {
    /// The date's own set.
    pub open spec fn set(self) -> Seq<DayRow> {
        own_set(self.rows@, self.pattern@, self.places)
    }
}

/// The block an accepted suggestion puts on the date: with the times it had
/// where it is taken from someone, worked where the roster has it.
pub open spec fn moved_block(from: Option<ChangedDay>, at: Option<Id>, shift: Id) -> Block {
    match from {
        Some(f) => Block { work_shift_id: shift, times: times_of(f.set(), shift), branch_id: at },
        None => Block { work_shift_id: shift, times: None, branch_id: at },
    }
}

/// What accepting a suggestion is refused for, if anything.
pub open spec fn accept_refused(
    from: Option<ChangedDay>,
    at: Option<Id>,
    info: Option<BlockInfo>,
    to: Subject,
    date: Day,
    shift: Id,
) -> Option<ErrorView> {
    either(
        given(
            from is Some && !has_row(from->0.set(), Some(shift)),
            stale_view("That shift moved since — refresh the suggestions."@),
        ),
        block_refused(info, to, date, moved_block(from, at, shift)),
    )
}

/// Accept a suggestion for one date: the block comes off whoever it is taken
/// from and goes on the date of who takes it; nothing else changes. Answers
/// with the rows of both dates.
pub fn accept_suggestion(
    from: Option<ChangedDay>,
    at: Option<Id>,
    info: &Option<BlockInfo>,
    to: &Subject,
    to_day: ChangedDay,
    date: Day,
    shift: Id,
) -> (r: Result<(Option<Vec<DayRow>>, Vec<DayRow>), AppError>)
    requires
        valid_day(date),
    ensures
        match accept_refused(from, at, *info, *to, date, shift) {
            Some(e) => r is Err && r->Err_0@ == e,
            None => {
                &&& r is Ok
                &&& (r->Ok_0).0 is Some <==> from is Some
                &&& from matches Some(f) ==> (r->Ok_0).0->0@ == removed(
                    f.rows@,
                    f.pattern@,
                    f.places,
                    shift,
                )
                &&& (r->Ok_0).1@ == added(
                    to_day.rows@,
                    to_day.pattern@,
                    to_day.places,
                    moved_block(from, at, shift),
                )
            },
        },
{
    let mut block: Block = Block { work_shift_id: shift, times: None, branch_id: at };
    let mut left: Option<Vec<DayRow>> = None;
    match from {
        Some(f) => {
            let mut rows: Vec<DayRow> = f.rows;
            match remove_block(&mut rows, &f.pattern, &f.places, shift, at) {
                Some(gone) => {
                    block = Block { work_shift_id: shift, times: gone.times, branch_id: at };
                },
                None => {
                    return Err(
                        refused(
                            "SUGGESTION_STALE",
                            "That shift moved since — refresh the suggestions.",
                        ),
                    );
                },
            }
            left = Some(rows);
        },
        None => {},
    }
    validate_block(info, to, date, &block)?;
    let mut rows: Vec<DayRow> = to_day.rows;
    add_block(&mut rows, &to_day.pattern, &to_day.places, &block);
    Ok((left, rows))
}

/// A day edited the same way on each of the four weeks before, and the only
/// change of its date.
pub struct PatternEdit {
    pub employee_id: Id,
    /// 0 = Sunday … 6 = Saturday.
    pub day_of_week: i32,
    /// The block, or none for a day off.
    pub shift: Option<Id>,
    /// What the pattern has for the day now.
    pub standing: Vec<Id>,
}

/// The day of the week to come that an edit is about: the week starts on
/// Saturday.
pub open spec fn edit_day(week: Day, dow: i32) -> int {
    week + (dow + 1) % 7
}

/// What a pattern suggestion is called.
pub open spec fn pattern_id(d: Day, shift: Option<Id>, who: Id) -> Seq<char> {
    "pattern|"@ + day_chars(d) + "|"@ + id_chars(
        match shift {
            Some(s) => s,
            None => 0,
        },
    ) + "|"@ + id_chars(who)
}

/// The blocks an edit leaves the day with.
pub open spec fn edit_blocks(shift: Option<Id>) -> Seq<Id> {
    match shift {
        Some(s) => seq![s],
        None => Seq::empty(),
    }
}

/// Where the block stands among the branch's.
pub open spec fn block_at(shifts: Seq<WorkShiftBrief>, id: Option<Id>) -> Option<int>
    decreases shifts.len(),
{
    if shifts.len() == 0 {
        None
    } else {
        match block_at(shifts.drop_last(), id) {
            Some(i) => Some(i),
            None => if Some(shifts.last().id) == id {
                Some(shifts.len() - 1)
            } else {
                None
            },
        }
    }
}

/// The edit is worth suggesting as the pattern: it is not the pattern yet, was
/// not decided, is about one of the staff, and its block runs that day.
pub open spec fn worth_keeping(
    e: PatternEdit,
    week: Day,
    staff: Seq<RosterPerson>,
    shifts: Seq<WorkShiftBrief>,
    decided: Seq<String>,
) -> bool {
    let d = edit_day(week, e.day_of_week) as Day;
    &&& e.standing@ != edit_blocks(e.shift)
    &&& !holds_text(decided, pattern_id(d, e.shift, e.employee_id))
    &&& first_with(staff, e.employee_id) is Some
    &&& block_at(shifts, e.shift) matches Some(i) ==> shifts[i].runs_on(d)
}

/// The edits worth suggesting, in order.
pub open spec fn kept_edits(
    edits: Seq<PatternEdit>,
    week: Day,
    staff: Seq<RosterPerson>,
    shifts: Seq<WorkShiftBrief>,
    decided: Seq<String>,
) -> Seq<PatternEdit> {
    edits.filter(|e: PatternEdit| worth_keeping(e, week, staff, shifts, decided))
}

/// The figures of a pattern suggestion: who, on which block if on one, after how
/// many weeks.
pub open spec fn pattern_args(name: Seq<char>, shift: Option<Seq<char>>) -> Seq<
    (Seq<char>, VarView),
> {
    seq![
        ("name"@, VarView::Text(name)),
        (
            "shift"@,
            match shift {
                Some(s) => VarView::Text(s),
                None => VarView::Nothing,
            },
        ),
        ("weeks"@, VarView::Int(4)),
    ]
}

/// The suggestion an edit is shown as.
pub open spec fn shown_as(
    e: PatternEdit,
    week: Day,
    staff: Seq<RosterPerson>,
    shifts: Seq<WorkShiftBrief>,
    s: Suggestion,
) -> bool {
    let d = edit_day(week, e.day_of_week) as Day;
    let p = staff[first_with(staff, e.employee_id)->0];
    let block = block_at(shifts, e.shift);
    &&& s.id@ == pattern_id(d, e.shift, e.employee_id)
    &&& s.date == d
    &&& s.work_shift_id == match e.shift {
        Some(x) => x,
        None => 0,
    }
    &&& s.shift_name@ == match block {
        Some(i) => shifts[i].name@,
        None => Seq::<char>::empty(),
    }
    &&& s.employee_id == e.employee_id
    &&& s.employee_name@ == p.name@
    &&& s.from_employee_id is None
    &&& s.from_employee_name is None
    &&& s.reason_key@ == if e.shift is Some {
        "staff.sg_pattern"@
    } else {
        "staff.sg_pattern_off"@
    }
    &&& vars_view(s.reason_args@) == pattern_args(
        p.name@,
        match block {
            Some(i) => Some(shifts[i].name@),
            None => None,
        },
    )
    &&& s.confidence == 80
    &&& !s.by_default
    &&& match block {
        Some(i) => s.start_time == Some(shifts[i].times(d).0) && s.end_time == Some(
            shifts[i].times(d).1,
        ),
        None => s.start_time is None && s.end_time is None,
    }
}

fn find_block(shifts: &Vec<WorkShiftBrief>, id: Option<Id>) -> (r: Option<usize>)
    ensures
        match r {
            Some(i) => i < shifts@.len() && block_at(shifts@, id) == Some(i as int),
            None => block_at(shifts@, id) is None,
        },
{
    let mut at: Option<usize> = None;
    let mut i: usize = 0;
    while i < shifts.len()
        invariant
            i <= shifts@.len(),
            match at {
                Some(k) => k < i && block_at(shifts@.take(i as int), id) == Some(k as int),
                None => block_at(shifts@.take(i as int), id) is None,
            },
        decreases shifts@.len() - i,
    {
        assert(shifts@.take(i + 1).drop_last() =~= shifts@.take(i as int));
        let is: bool = match id {
            Some(x) => shifts[i].id == x,
            None => false,
        };
        if at.is_none() && is {
            at = Some(i);
        }
        i += 1;
    }
    assert(shifts@.take(shifts@.len() as int) =~= shifts@);
    at
}

fn stands_already(standing: &Vec<Id>, shift: Option<Id>) -> (r: bool)
    ensures
        r == (standing@ == edit_blocks(shift)),
{
    match shift {
        Some(s) => {
            if standing.len() == 1 && standing[0] == s {
                assert(standing@ =~= seq![s]);
                true
            } else {
                proof {
                    if standing@ == seq![s] {
                        assert(standing@[0] == s);
                    }
                }
                false
            }
        },
        None => {
            proof {
                if standing@.len() == 0 {
                    assert(standing@ =~= Seq::empty());
                }
            }
            standing.len() == 0
        },
    }
}

/// After four identical weeks of the same day edit, suggest making it the
/// pattern.
pub fn pattern_updates(
    edits: &Vec<PatternEdit>,
    week: Day,
    staff: &Vec<RosterPerson>,
    shifts: &Vec<WorkShiftBrief>,
    decided: &Vec<String>,
) -> (r: Vec<Suggestion>)
    requires
        MIN_DAY <= week <= MAX_DAY - 6,
        forall|i: int| 0 <= i < edits@.len() ==> 0 <= (#[trigger] edits@[i]).day_of_week <= 6,
    ensures
        ({
            let kept = kept_edits(edits@, week, staff@, shifts@, decided@);
            &&& r@.len() == kept.len()
            &&& forall|i: int|
                0 <= i < r@.len() ==> shown_as(kept[i], week, staff@, shifts@, #[trigger] r@[i])
        }),
{
    let mut out: Vec<Suggestion> = Vec::new();
    let ghost f = |e: PatternEdit| worth_keeping(e, week, staff@, shifts@, decided@);
    proof {
        reveal(Seq::filter);
    }
    let mut i: usize = 0;
    while i < edits.len()
        invariant
            i <= edits@.len(),
            MIN_DAY <= week <= MAX_DAY - 6,
            f == (|e: PatternEdit| worth_keeping(e, week, staff@, shifts@, decided@)),
            forall|k: int| 0 <= k < edits@.len() ==> 0 <= (#[trigger] edits@[k]).day_of_week <= 6,
            out@.len() == edits@.take(i as int).filter(f).len(),
            forall|k: int|
                0 <= k < out@.len() ==> shown_as(
                    edits@.take(i as int).filter(f)[k],
                    week,
                    staff@,
                    shifts@,
                    #[trigger] out@[k],
                ),
        decreases edits@.len() - i,
    {
        let e: &PatternEdit = &edits[i];
        let ghost before = edits@.take(i as int).filter(f);
        let ghost after = edits@.take(i + 1).filter(f);
        assert(0 <= edits@[i as int].day_of_week <= 6);
        let d: Day = week + (e.day_of_week + 1) % 7;
        let mut id: String = join3("pattern|", day_text(d).as_str(), "|");
        let shift_id: Id = match e.shift {
            Some(s) => s,
            None => 0,
        };
        id.push_str(id_text(shift_id).as_str());
        id.push_str("|");
        id.push_str(id_text(e.employee_id).as_str());
        let who: Option<usize> = find_person(staff, e.employee_id);
        let block: Option<usize> = find_block(shifts, e.shift);
        let runs: bool = match block {
            Some(w) => shifts[w].valid_on(d),
            None => true,
        };
        let keep: bool = !stands_already(&e.standing, e.shift) && !has_text(decided, id.as_str())
            && who.is_some() && runs;
        proof {
            reveal(Seq::filter);
            assert(edits@.take(i + 1).drop_last() =~= edits@.take(i as int));
            assert(edits@.take(i + 1).last() == *e);
            assert(keep == f(*e));
        }
        if keep {
            if let Some(p) = who {
                let name: &str = staff[p].name.as_str();
                let mut args: Vec<(&'static str, Var)> = Vec::new();
                args.push(("name", Var::Text(name.to_owned())));
                let mut shift_name: String = String::new();
                let mut start: Option<u64> = None;
                let mut end: Option<u64> = None;
                match block {
                    Some(w) => {
                        shift_name = shifts[w].name.as_str().to_owned();
                        args.push(("shift", Var::Text(shifts[w].name.as_str().to_owned())));
                        let (s, t) = shifts[w].times_on(d);
                        start = Some(s);
                        end = Some(t);
                    },
                    None => {
                        args.push(("shift", Var::Nothing));
                    },
                }
                args.push(("weeks", Var::Int(4)));
                proof {
                    let name_of_block = match block_at(shifts@, e.shift) {
                        Some(i) => Some(shifts@[i].name@),
                        None => None,
                    };
                    assert(vars_view(args@) =~= pattern_args(staff@[p as int].name@, name_of_block));
                    assert(shift_name@ =~= match block_at(shifts@, e.shift) {
                        Some(i) => shifts@[i].name@,
                        None => Seq::<char>::empty(),
                    });
                }
                let made: Suggestion = Suggestion {
                    id,
                    date: d,
                    work_shift_id: shift_id,
                    shift_name,
                    employee_id: e.employee_id,
                    employee_name: name.to_owned(),
                    from_employee_id: None,
                    from_employee_name: None,
                    reason_key: if e.shift.is_some() {
                        "staff.sg_pattern"
                    } else {
                        "staff.sg_pattern_off"
                    },
                    reason_args: args,
                    confidence: 80,
                    by_default: false,
                    start_time: start,
                    end_time: end,
                };
                assert(shown_as(*e, week, staff@, shifts@, made));
                assert(after == before.push(*e));
                out.push(made);
            }
        } else {
            assert(after == before);
        }
        i += 1;
    }
    assert(edits@.take(edits@.len() as int) =~= edits@);
    out
}

/// A suggestion decided is not shown again.
pub proof fn law_a_decided_suggestion_is_gone(
    all: Seq<Suggestion>,
    decided: Seq<String>,
    i: int,
)
    requires
        0 <= i < undecided(all, decided).len(),
    ensures
        !holds_text(decided, undecided(all, decided)[i].id@),
{
    broadcast use vstd::seq_lib::group_filter_ensures;

    let f = |s: Suggestion| !holds_text(decided, s.id@);
    assert(undecided(all, decided) == all.filter(f));
    assert(f(undecided(all, decided)[i]));
}

/// The parts of an id lie between its bars: the second is what stands between
/// the first two, or up to the end.
pub proof fn law_parts_lie_between_the_bars(a: Seq<char>, b: Seq<char>, rest: Seq<char>)
    requires
        forall|i: int| 0 <= i < a.len() ==> #[trigger] a[i] != '|',
        forall|i: int| 0 <= i < b.len() ==> #[trigger] b[i] != '|',
    ensures
        second_part(a + seq!['|'] + b) == Some(b),
        second_part(a + seq!['|'] + b + seq!['|'] + rest) == Some(b),
        second_part(a) is None,
{
    let n = a.len() as int;
    let m = b.len() as int;
    let s = a + seq!['|'] + b;
    assert(forall|i: int| 0 <= i < n ==> s[i] == a[i]);
    assert(s[n] == '|');
    assert(forall|i: int| n < i < s.len() ==> s[i] == b[i - n - 1]);
    lemma_bar_from(s, 0, n);
    lemma_bar_from(s, n + 1, n + 1 + m);
    assert(s.subrange(n + 1, n + 1 + m) =~= b);
    let t = a + seq!['|'] + b + seq!['|'] + rest;
    assert(forall|i: int| 0 <= i < n ==> t[i] == a[i]);
    assert(t[n] == '|');
    assert(forall|i: int| n < i < n + 1 + m ==> t[i] == b[i - n - 1]);
    assert(t[n + 1 + m] == '|');
    lemma_bar_from(t, 0, n);
    lemma_bar_from(t, n + 1, n + 1 + m);
    assert(t.subrange(n + 1, n + 1 + m) =~= b);
    lemma_bar_from(a, 0, n);
}

proof fn lemma_bar_from(s: Seq<char>, i: int, at: int)
    requires
        0 <= i <= at <= s.len(),
        forall|k: int| i <= k < at ==> #[trigger] s[k] != '|',
        at < s.len() ==> s[at] == '|',
    ensures
        bar_from(s, i) == at,
    decreases at - i,
{
    if i < at {
        lemma_bar_from(s, i + 1, at);
    }
}

/// A suggestion is decided by who may edit schedules there, that names a date, is
/// one of those shown, and whose people the caller may schedule.
pub proof fn law_which_suggestion_may_be_decided(
    f: DecideFacts,
    id: Seq<char>,
    shown: Seq<Suggestion>,
)
    ensures
        decision_refused(f, id, shown) is None <==> {
            &&& f.gate is Ok
            &&& f.right is Ok
            &&& named_date(id) is Some
            &&& shown_at(shown, id) is Some
            &&& f.to is Ok
            &&& shown[shown_at(shown, id)->0].from_employee_id is Some ==> f.from is Ok
        },
        match shown_at(shown, id) {
            Some(i) => 0 <= i < shown.len() && shown[i].id@ == id && forall|j: int|
                0 <= j < i ==> (#[trigger] shown[j]).id@ != id,
            None => forall|j: int| 0 <= j < shown.len() ==> (#[trigger] shown[j]).id@ != id,
        },
{
    lemma_shown_at(shown, id);
}

proof fn lemma_shown_at(list: Seq<Suggestion>, id: Seq<char>)
    ensures
        match shown_at(list, id) {
            Some(i) => 0 <= i < list.len() && list[i].id@ == id && forall|j: int|
                0 <= j < i ==> (#[trigger] list[j]).id@ != id,
            None => forall|j: int| 0 <= j < list.len() ==> (#[trigger] list[j]).id@ != id,
        },
    decreases list.len(),
{
    if list.len() > 0 {
        let short = list.drop_last();
        lemma_shown_at(short, id);
        assert forall|j: int| 0 <= j < short.len() implies #[trigger] list[j] == short[j] by {}
        assert(list[list.len() - 1] == list.last());
    }
}

/// What a decision changes is the suggestion's own block; a pattern without one
/// is a day off and teaches nothing of any block.
pub proof fn law_a_decision_is_of_its_block(s: Suggestion, at: int, accept: bool)
    ensures
        ({
            let d = decision_on(s, at, accept);
            let pattern = s.id@.len() >= 8 && s.id@.take(8) == "pattern|"@;
            &&& accept && !pattern ==> d.change == Acceptance::OneDate(s.work_shift_id)
            &&& accept && pattern && s.work_shift_id != 0 ==> d.change == Acceptance::Pattern(
                Some(s.work_shift_id),
            )
            &&& accept && pattern && s.work_shift_id == 0 ==> d.change == Acceptance::Pattern(None)
            &&& pattern ==> d.taught is None
            &&& !pattern ==> d.taught == Some(s.work_shift_id)
        }),
{
}

/// A change of one date is checked on that date, and one of the pattern for two
/// weeks on.
pub proof fn law_a_pattern_is_checked_two_weeks_on(date: Day, shift: Option<Id>, one: Id)
    ensures
        checked_to(Acceptance::Pattern(shift), date) == date + 14,
        checked_to(Acceptance::OneDate(one), date) == date,
{
}

/// A shift taken from somebody keeps the times they had it at, and one that is
/// new has its usual ones; either is worked where the roster has it.
pub proof fn law_a_moved_shift_keeps_its_times(
    from: Option<ChangedDay>,
    at: Option<Id>,
    shift: Id,
)
    ensures
        moved_block(from, at, shift).work_shift_id == shift,
        moved_block(from, at, shift).branch_id == at,
        from is None ==> moved_block(from, at, shift).times is None,
        from is Some ==> moved_block(from, at, shift).times == times_of(from->0.set(), shift),
{
}

/// A suggestion is accepted where the shift is still there to take, and its new
/// person may work it.
pub proof fn law_which_suggestion_may_be_accepted(
    from: Option<ChangedDay>,
    at: Option<Id>,
    info: Option<BlockInfo>,
    to: Subject,
    date: Day,
    shift: Id,
)
    ensures
        accept_refused(from, at, info, to, date, shift) is None <==> {
            &&& from is Some ==> has_row(from->0.set(), Some(shift))
            &&& block_refused(info, to, date, moved_block(from, at, shift)) is None
        },
{
}

/// An edit is about the date of its weekday in the week, which starts on
/// Saturday.
pub proof fn law_an_edit_is_about_its_weekday(week: Day, dow: i32)
    requires
        week % 7 == 6,
        0 <= dow <= 6,
    ensures
        week <= edit_day(week, dow) <= week + 6,
        edit_day(week, dow) % 7 == dow,
{
}

/// An edit is worth keeping that is not the pattern yet, was not decided before,
/// is about one of the staff, and whose block, where the branch has it, runs that
/// day.
pub proof fn law_which_edit_is_worth_keeping(
    e: PatternEdit,
    week: Day,
    staff: Seq<RosterPerson>,
    shifts: Seq<WorkShiftBrief>,
    decided: Seq<String>,
)
    ensures
        worth_keeping(e, week, staff, shifts, decided) <==> {
            let d = edit_day(week, e.day_of_week) as Day;
            &&& e.shift is Some ==> e.standing@ != seq![e.shift->0]
            &&& e.shift is None ==> e.standing@.len() > 0
            &&& !holds_text(decided, pattern_id(d, e.shift, e.employee_id))
            &&& exists|i: int|
                0 <= i < staff.len() && (#[trigger] staff[i]).employee_id == e.employee_id
            &&& block_at(shifts, e.shift) is Some ==> shifts[block_at(
                shifts,
                e.shift,
            )->0].runs_on(d)
        },
{
    crate::dawam::suggest::hourly::lemma_first_with(staff, e.employee_id);
    let at = first_with(staff, e.employee_id);
    if at is Some {
        assert(staff[at->0].employee_id == e.employee_id);
    }
    if e.shift is None {
        assert(e.standing@.len() == 0 <==> e.standing@ =~= Seq::<Id>::empty());
    }
}

/// A block of the branch's is found by its id, the first that has it.
pub proof fn law_an_edits_block_is_the_first(shifts: Seq<WorkShiftBrief>, id: Id)
    ensures
        match block_at(shifts, Some(id)) {
            Some(i) => 0 <= i < shifts.len() && shifts[i].id == id && forall|j: int|
                0 <= j < i ==> (#[trigger] shifts[j]).id != id,
            None => forall|j: int| 0 <= j < shifts.len() ==> (#[trigger] shifts[j]).id != id,
        },
    decreases shifts.len(),
{
    if shifts.len() > 0 {
        let short = shifts.drop_last();
        law_an_edits_block_is_the_first(short, id);
        assert forall|j: int| 0 <= j < short.len() implies #[trigger] shifts[j] == short[j] by {}
        assert(shifts[shifts.len() - 1] == shifts.last());
    }
}

/// A suggestion nobody decided is still shown.
pub proof fn law_an_undecided_suggestion_stays(
    all: Seq<Suggestion>,
    x: Suggestion,
    decided: Seq<String>,
)
    ensures
        undecided(all.push(x), decided) == if exists|i: int|
            0 <= i < decided.len() && (#[trigger] decided[i])@ == x.id@ {
            undecided(all, decided)
        } else {
            undecided(all, decided).push(x)
        },
{
    reveal(Seq::filter);
    assert(all.push(x).drop_last() =~= all);
}

/// What deciding a suggestion is refused for first.
pub proof fn law_how_deciding_a_suggestion_is_refused(
    f: DecideFacts,
    id: Seq<char>,
    shown: Seq<Suggestion>,
)
    ensures
        ({
            decision_refused(f, id, shown) == if f.gate is Err {
                Some(f.gate->Err_0@)
            } else if f.right is Err {
                Some(f.right->Err_0@)
            } else if named_date(id) is None {
                Some(ErrorView::BadRequest("Unknown suggestion"@))
            } else if shown_at(shown, id) is None {
                Some(
                    ErrorView::Refused { code: "SUGGESTION_STALE"@,
                        reason: "That suggestion no longer applies — refresh the suggestions."@ },
                )
            } else if f.to is Err {
                Some(f.to->Err_0@)
            } else if shown[shown_at(shown, id)->0].from_employee_id is Some && f.from is Err {
                Some(f.from->Err_0@)
            } else {
                None
            }
        }),
{
}

/// A pattern suggestion says the date, the block or a day off, and whose it is;
/// it takes nothing from anybody and is eighty percent sure.
pub proof fn law_a_pattern_suggestion_says_the_edit(
    e: PatternEdit,
    week: Day,
    staff: Seq<RosterPerson>,
    shifts: Seq<WorkShiftBrief>,
    s: Suggestion,
)
    requires
        shown_as(e, week, staff, shifts, s),
    ensures
        s.date == edit_day(week, e.day_of_week) as Day,
        s.employee_id == e.employee_id,
        e.shift is Some ==> s.work_shift_id == e.shift->0 && s.reason_key@ == "staff.sg_pattern"@,
        e.shift is None ==> s.work_shift_id == 0 && s.reason_key@ == "staff.sg_pattern_off"@,
        s.from_employee_id is None,
        s.confidence == 80,
        !s.by_default,
        block_at(shifts, e.shift) is Some ==> s.start_time == Some(
            shifts[block_at(shifts, e.shift)->0].times(s.date).0,
        ),
{
}

} // verus!
