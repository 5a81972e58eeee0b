//! Today: a person's own state, and the team's.

use vstd::prelude::*;

use crate::calendar::{Id, Moment};
use crate::text::{maybe, text_is};

verus! {

/// Where someone clocks in today, in order of confidence: the branch of the
/// record they are clocked into; the branch of their rostered shift; their
/// branch, where they have exactly one.
pub open spec fn branch_of_day(
    open_branch: Option<Id>,
    shift_branch: Option<Id>,
    assigned: Seq<Id>,
) -> Option<Id> {
    if open_branch is Some {
        open_branch
    } else if shift_branch is Some {
        shift_branch
    } else if assigned.len() == 1 {
        Some(assigned[0])
    } else {
        None
    }
}

/// Where someone clocks in today. `None` when nothing settles it: guessing
/// wrong means clocking in somewhere they aren't.
pub fn resolve_my_branch(
    open_branch: Option<Id>,
    shift_branch: Option<Id>,
    assigned: &Vec<Id>,
) -> (r: Option<Id>)
    ensures
        r == branch_of_day(open_branch, shift_branch, assigned@),
{
    if open_branch.is_some() {
        open_branch
    } else if shift_branch.is_some() {
        shift_branch
    } else if assigned.len() == 1 {
        Some(assigned[0])
    } else {
        None
    }
}

/// What someone can do right now.
#[derive(Debug, Clone, PartialEq, Eq)]
pub struct MyAttendanceToday {
    /// The records of the day that are closed.
    pub closed_records: Vec<Id>,
    pub can_check_in: bool,
    pub can_check_out: bool,
    pub blocked_reason: Option<String>,
    pub branch_id: Option<Id>,
}

/// Why someone cannot check in, if they cannot.
pub open spec fn blocked(clocked_in: bool, branch: Option<Id>) -> Option<Seq<char>> {
    if clocked_in {
        Some("You are already checked in"@)
    } else if branch is None {
        Some("We can't tell which branch you work at — ask your manager to assign you to one."@)
    } else {
        None
    }
}

/// The records that are not the open one, in order.
pub open spec fn closed_of(records: Seq<Id>, open: Option<Id>) -> Seq<Id> {
    records.filter(|id: Id| Some(id) != open)
}

/// The day's records, the open one (which may be yesterday's night shift) and
/// where someone clocks in settle what they can do now: check out where a
/// record is open; check in where none is and their branch is known.
pub fn my_today(records: &Vec<Id>, open: Option<Id>, branch_id: Option<Id>) -> (r:
    MyAttendanceToday)
    ensures
        r.closed_records@ == closed_of(records@, open),
        r.can_check_out == (open is Some),
        r.can_check_in == (open is None && branch_id is Some),
        maybe(r.blocked_reason) == blocked(open is Some, branch_id),
        r.branch_id == branch_id,
{
    let mut closed: Vec<Id> = Vec::new();
    let mut i: usize = 0;
    while i < records.len()
        invariant
            i <= records@.len(),
            closed@ == closed_of(records@.take(i as int), open),
        decreases records@.len() - i,
    {
        let keep: bool = match open {
            Some(o) => records[i] != o,
            None => true,
        };
        proof {
            let f = |id: Id| Some(id) != open;
            reveal(Seq::filter);
            assert(records@.take(i + 1).drop_last() =~= records@.take(i as int));
            assert(keep == f(records@[i as int]));
        }
        if keep {
            closed.push(records[i]);
        }
        i += 1;
    }
    assert(records@.take(records@.len() as int) =~= records@);
    let blocked_reason: Option<String> = if open.is_some() {
        Some("You are already checked in".to_owned())
    } else if branch_id.is_none() {
        Some(
            "We can't tell which branch you work at — ask your manager to assign you to one.".to_owned(),
        )
    } else {
        None
    };
    MyAttendanceToday {
        closed_records: closed,
        can_check_in: open.is_none() && branch_id.is_some(),
        can_check_out: open.is_some(),
        blocked_reason,
        branch_id,
    }
}

/// One person's state right now.
#[derive(Debug, Clone, Copy, PartialEq, Eq, Structural)]
pub enum PresenceState {
    In,
    Late,
    Absent,
    OnLeave,
    Off,
    Done,
}

impl PresenceState {
    /// The name the app knows it by.
    pub open spec fn name(self) -> Seq<char> {
        match self {
            PresenceState::In => "in"@,
            PresenceState::Late => "late"@,
            PresenceState::Absent => "absent"@,
            PresenceState::OnLeave => "on_leave"@,
            PresenceState::Off => "off"@,
            PresenceState::Done => "done"@,
        }
    }

    pub fn as_str(&self) -> (r: &'static str)
        ensures
            r@ == self.name(),
    {
        match self {
            PresenceState::In => "in",
            PresenceState::Late => "late",
            PresenceState::Absent => "absent",
            PresenceState::OnLeave => "on_leave",
            PresenceState::Off => "off",
            PresenceState::Done => "done",
        }
    }
}

/// What is known of a person's today.
pub struct PresenceFacts {
    /// The status of their day's record.
    pub status: Option<String>,
    pub check_in_at: Option<Moment>,
    pub check_out_at: Option<Moment>,
    pub late_minutes: i32,
    /// An approved leave or mission covers the day.
    pub away: bool,
    pub scheduled_minutes: i64,
    /// When their first shift was due to start.
    pub due_at: Option<Moment>,
}

/// Someone rostered with no record yet is absent only once their shift was due;
/// before that they are simply off. On an approved leave they are on leave from
/// the moment it is approved.
pub open spec fn state_of(f: PresenceFacts, now: Moment) -> PresenceState {
    let clocked_in = f.check_in_at is Some && f.check_out_at is None;
    if maybe(f.status) == Some("on_leave"@) {
        PresenceState::OnLeave
    } else if clocked_in && f.late_minutes > 0 {
        PresenceState::Late
    } else if clocked_in {
        PresenceState::In
    } else if f.check_out_at is Some {
        PresenceState::Done
    } else if f.away && f.scheduled_minutes > 0 {
        PresenceState::OnLeave
    } else if f.scheduled_minutes > 0 && f.due_at is Some && f.due_at->0 <= now {
        PresenceState::Absent
    } else {
        PresenceState::Off
    }
}

pub fn presence_state(f: &PresenceFacts, now: Moment) -> (r: PresenceState)
    ensures
        r == state_of(*f, now),
{
    let clocked_in: bool = f.check_in_at.is_some() && f.check_out_at.is_none();
    let due: bool = match f.due_at {
        Some(t) => t <= now,
        None => false,
    };
    if text_is(&f.status, "on_leave") {
        PresenceState::OnLeave
    } else if clocked_in && f.late_minutes > 0 {
        PresenceState::Late
    } else if clocked_in {
        PresenceState::In
    } else if f.check_out_at.is_some() {
        PresenceState::Done
    } else if f.away && f.scheduled_minutes > 0 {
        PresenceState::OnLeave
    } else if f.scheduled_minutes > 0 && due {
        PresenceState::Absent
    } else {
        PresenceState::Off
    }
}

/// One person of the live team list.
#[derive(Debug, Clone, Copy, PartialEq, Eq, Structural)]
pub struct PresenceRow {
    pub state: PresenceState,
    pub worked_minutes: i32,
    /// Minutes this person is rostered for today.
    pub scheduled_minutes: i64,
}

/// How many of the people are in the state.
pub open spec fn in_state(rows: Seq<PresenceRow>, state: PresenceState) -> int
    decreases rows.len(),
{
    if rows.len() == 0 {
        0
    } else {
        in_state(rows.drop_last(), state) + if rows.last().state == state {
            1int
        } else {
            0int
        }
    }
}

/// The minutes worked, added up.
pub open spec fn worked_in_all(rows: Seq<PresenceRow>) -> int
    decreases rows.len(),
{
    if rows.len() == 0 {
        0
    } else {
        worked_in_all(rows.drop_last()) + rows.last().worked_minutes
    }
}

/// The minutes rostered, added up.
pub open spec fn planned_in_all(rows: Seq<PresenceRow>) -> int
    decreases rows.len(),
{
    if rows.len() == 0 {
        0
    } else {
        planned_in_all(rows.drop_last()) + rows.last().scheduled_minutes
    }
}

/// The whole team's state right now, plus the day's labour against plan.
#[derive(Debug, Clone, Copy, PartialEq, Eq, Structural)]
pub struct TeamPresence {
    pub present: u64,
    pub late: u64,
    pub absent: u64,
    pub on_leave: u64,
    /// Minutes worked so far today across the team.
    pub worked_minutes: i128,
    /// Minutes rostered for today across the team.
    pub planned_minutes: i128,
}

/// The team's counts and minutes. Someone who finished their shift was here, so
/// counts as present.
pub fn team_presence(rows: &Vec<PresenceRow>) -> (r: TeamPresence)
    ensures
        r.present == in_state(rows@, PresenceState::In) + in_state(rows@, PresenceState::Done),
        r.late == in_state(rows@, PresenceState::Late),
        r.absent == in_state(rows@, PresenceState::Absent),
        r.on_leave == in_state(rows@, PresenceState::OnLeave),
        r.worked_minutes == worked_in_all(rows@),
        r.planned_minutes == planned_in_all(rows@),
{
    let mut t: TeamPresence = TeamPresence {
        present: 0,
        late: 0,
        absent: 0,
        on_leave: 0,
        worked_minutes: 0,
        planned_minutes: 0,
    };
    let mut i: usize = 0;
    while i < rows.len()
        invariant
            i <= rows@.len(),
            t.present == in_state(rows@.take(i as int), PresenceState::In) + in_state(
                rows@.take(i as int),
                PresenceState::Done,
            ),
            t.late == in_state(rows@.take(i as int), PresenceState::Late),
            t.absent == in_state(rows@.take(i as int), PresenceState::Absent),
            t.on_leave == in_state(rows@.take(i as int), PresenceState::OnLeave),
            t.worked_minutes == worked_in_all(rows@.take(i as int)),
            t.planned_minutes == planned_in_all(rows@.take(i as int)),
            t.present <= i,
            t.late <= i,
            t.absent <= i,
            t.on_leave <= i,
            -(i * 9_223_372_036_854_775_808) <= t.worked_minutes <= i * 9_223_372_036_854_775_808,
            -(i * 9_223_372_036_854_775_808) <= t.planned_minutes <= i * 9_223_372_036_854_775_808,
        decreases rows@.len() - i,
    {
        let row: PresenceRow = rows[i];
        assert(rows@.take(i + 1).drop_last() =~= rows@.take(i as int));
        match row.state {
            PresenceState::In => {
                t.present = t.present + 1;
            },
            PresenceState::Done => {
                t.present = t.present + 1;
            },
            PresenceState::Late => {
                t.late = t.late + 1;
            },
            PresenceState::Absent => {
                t.absent = t.absent + 1;
            },
            PresenceState::OnLeave => {
                t.on_leave = t.on_leave + 1;
            },
            PresenceState::Off => {},
        }
        t.worked_minutes = t.worked_minutes + row.worked_minutes as i128;
        t.planned_minutes = t.planned_minutes + row.scheduled_minutes as i128;
        i += 1;
    }
    assert(rows@.take(rows@.len() as int) =~= rows@);
    t
}

/// Someone can check in exactly when nothing blocks them.
pub proof fn law_nothing_blocks_who_can_check_in(open: Option<Id>, branch: Option<Id>)
    ensures
        (open is None && branch is Some) <==> blocked(open is Some, branch) is None,
{
}

/// The branch of the open record settles it, then that of the shift, then the
/// only one assigned; among several nothing is guessed.
pub proof fn law_the_open_record_settles_the_branch(
    open_branch: Option<Id>,
    shift_branch: Option<Id>,
    assigned: Seq<Id>,
)
    ensures
        open_branch is Some ==> branch_of_day(open_branch, shift_branch, assigned) == open_branch,
        open_branch is None && shift_branch is Some ==> branch_of_day(
            open_branch,
            shift_branch,
            assigned,
        ) == shift_branch,
        open_branch is None && shift_branch is None ==> (branch_of_day(
            open_branch,
            shift_branch,
            assigned,
        ) is Some <==> assigned.len() == 1),
        open_branch is None && shift_branch is None && assigned.len() == 1 ==> branch_of_day(
            open_branch,
            shift_branch,
            assigned,
        ) == Some(assigned[0]),
{
}

/// Whoever came and did not leave is in, or late where they were; whoever left
/// is done. Somebody rostered who did not come is on leave where it is approved,
/// absent once their shift was due, and off until then; nobody is absent whom
/// nothing was planned for.
pub proof fn law_the_state_of_a_day(f: PresenceFacts, now: Moment)
    requires
        maybe(f.status) != Some("on_leave"@),
    ensures
        f.check_in_at is Some && f.check_out_at is None && f.late_minutes > 0 ==> state_of(f, now)
            == PresenceState::Late,
        f.check_in_at is Some && f.check_out_at is None && f.late_minutes <= 0 ==> state_of(f, now)
            == PresenceState::In,
        f.check_out_at is Some ==> state_of(f, now) == PresenceState::Done,
        f.check_in_at is None && f.check_out_at is None && f.scheduled_minutes <= 0 ==> state_of(
            f,
            now,
        ) == PresenceState::Off,
        f.check_in_at is None && f.check_out_at is None && f.scheduled_minutes > 0 && f.away
            ==> state_of(f, now) == PresenceState::OnLeave,
        f.check_in_at is None && f.check_out_at is None && f.scheduled_minutes > 0 && !f.away ==> (
        state_of(f, now) == PresenceState::Absent <==> f.due_at is Some && f.due_at->0 <= now),
{
}

/// A day on leave is on leave, whatever was punched.
pub proof fn law_leave_is_shown_as_leave(f: PresenceFacts, now: Moment)
    requires
        maybe(f.status) == Some("on_leave"@),
    ensures
        state_of(f, now) == PresenceState::OnLeave,
{
}

/// Everybody counts once, in their own state, with their own minutes.
pub proof fn law_everybody_counts_once(rows: Seq<PresenceRow>, x: PresenceRow, s: PresenceState)
    ensures
        in_state(rows.push(x), s) == in_state(rows, s) + if x.state == s {
            1int
        } else {
            0
        },
        worked_in_all(rows.push(x)) == worked_in_all(rows) + x.worked_minutes,
        planned_in_all(rows.push(x)) == planned_in_all(rows) + x.scheduled_minutes,
        in_state(Seq::empty(), s) == 0,
        worked_in_all(Seq::empty()) == 0,
        planned_in_all(Seq::empty()) == 0,
{
    assert(rows.push(x).drop_last() =~= rows);
}

/// Every record but the open one is closed, in order.
pub proof fn law_all_but_the_open_are_closed(records: Seq<Id>, x: Id, open: Option<Id>)
    ensures
        closed_of(records.push(x), open) == if open == Some(x) {
            closed_of(records, open)
        } else {
            closed_of(records, open).push(x)
        },
        closed_of(Seq::empty(), open).len() == 0,
{
    reveal(Seq::filter);
    assert(records.push(x).drop_last() =~= records);
}

} // verus!
