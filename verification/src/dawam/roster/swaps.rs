//! Swaps: two colleagues trade a shift; they agree first, then the manager.

use vstd::prelude::*;

use crate::access::Subject;
use crate::calendar::{max_of, min_of, valid_day, Day, Id, Moment};
use crate::dawam::presence::covers::has_id;
use crate::days::changes::{
    check_overlaps, clash, lemma_a_named_clash_is_one, names_first_clash, no_clash, ResolvedShift,
};
use crate::days::{
    add_block, added, block_refused, has_row, law_a_block_put_on_is_there,
    law_a_block_taken_off_is_gone, law_a_written_day_is_its_own,
    law_the_rest_of_the_day_stays, law_writers_keep_the_set, own_set, remove_block, removed,
    times_of, validate_block, well_formed, Block, BlockInfo, DayRow, PatternBlock, Places,
};
use crate::errors::{
    bad_request, coded, coded_view, conflict, either, given, not_found, refusal, refused, AppError,
    ErrorView,
};
use crate::text::same_text;

verus! {

/// Where a swap stands.
#[derive(Debug, Clone, Copy, PartialEq, Eq, Structural)]
pub enum SwapStatus {
    AwaitingPeer,
    Pending,
    Approved,
    Rejected,
    Cancelled,
}

impl SwapStatus {
    /// The name it is stored under.
    pub open spec fn name(self) -> Seq<char> {
        match self {
            SwapStatus::AwaitingPeer => "awaiting_peer"@,
            SwapStatus::Pending => "pending"@,
            SwapStatus::Approved => "approved"@,
            SwapStatus::Rejected => "rejected"@,
            SwapStatus::Cancelled => "cancelled"@,
        }
    }

    pub fn as_str(&self) -> (r: &'static str)
        ensures
            r@ == self.name(),
    {
        match self {
            SwapStatus::AwaitingPeer => "awaiting_peer",
            SwapStatus::Pending => "pending",
            SwapStatus::Approved => "approved",
            SwapStatus::Rejected => "rejected",
            SwapStatus::Cancelled => "cancelled",
        }
    }

    /// The status stored under a name; any other is as good as cancelled.
    pub fn stored(name: &str) -> (r: SwapStatus)
        ensures
            r == if name@ == "awaiting_peer"@ {
                SwapStatus::AwaitingPeer
            } else if name@ == "pending"@ {
                SwapStatus::Pending
            } else if name@ == "approved"@ {
                SwapStatus::Approved
            } else if name@ == "rejected"@ {
                SwapStatus::Rejected
            } else {
                SwapStatus::Cancelled
            },
    {
        if same_text(name, "awaiting_peer") {
            SwapStatus::AwaitingPeer
        } else if same_text(name, "pending") {
            SwapStatus::Pending
        } else if same_text(name, "approved") {
            SwapStatus::Approved
        } else if same_text(name, "rejected") {
            SwapStatus::Rejected
        } else {
            SwapStatus::Cancelled
        }
    }

    /// Still waiting for the colleague or the manager.
    pub open spec fn waits(self) -> bool {
        self == SwapStatus::AwaitingPeer || self == SwapStatus::Pending
    }
}

/// Which swaps are asked for.
pub struct SwapQuery {
    pub status: Option<String>,
}

/// A swap two people are in.
#[derive(Debug, Clone, Copy, PartialEq, Eq, Structural)]
pub struct Swap {
    pub requester_id: Id,
    pub requester_date: Day,
    pub requester_shift_id: Id,
    pub peer_id: Id,
    pub peer_date: Day,
    pub peer_shift_id: Id,
    pub status: SwapStatus,
}

/// This very swap is already asked and still open.
pub open spec fn exists_view() -> ErrorView {
    ErrorView::Refused {
        code: "SWAP_EXISTS"@,
        reason: "You've already asked for this swap — it's waiting."@,
    }
}

pub fn swap_exists() -> (e: AppError)
    ensures
        e@ == exists_view(),
{
    refused("SWAP_EXISTS", "You've already asked for this swap — it's waiting.")
}

/// A shift of a swap as the roster has it.
#[derive(Debug, Clone, Copy, PartialEq, Eq, Structural)]
pub struct SwapShift {
    pub start: Moment,
    pub branch_id: Option<Id>,
    /// Its week is published at its branch.
    pub published: bool,
}

/// What is known when someone asks to swap.
pub struct AskFacts {
    /// They are asked to swap with themselves.
    pub own: bool,
    /// The one who asks is an employee of the business.
    pub requester: Result<Subject, AppError>,
    /// The colleague is an employee of the business.
    pub peer: Result<Subject, AppError>,
    /// The shift given away, if it is on the roster.
    pub mine: Option<SwapShift>,
    /// The colleague's shift, if it is on the roster.
    pub theirs: Option<SwapShift>,
    /// The same swap is still open.
    pub open_already: bool,
    /// It fits on both sides.
    pub fits: Result<(), AppError>,
}

/// Where a shift is worked: no branch reads as the nil one, which is nobody's.
pub open spec fn at_branch(s: SwapShift) -> Id {
    match s.branch_id {
        Some(b) => b,
        None => 0,
    }
}

/// What one side's shift is refused for, if anything: at a branch both work at,
/// in a published week.
pub open spec fn side_refused(s: SwapShift, requester: Subject, peer: Subject) -> Option<
    ErrorView,
> {
    either(
        given(
            !requester.branches@.contains(at_branch(s)) || !peer.branches@.contains(at_branch(s)),
            ErrorView::Refused {
                code: "SWAP_OTHER_BRANCH"@,
                reason: "You can swap only with a colleague at the same branch."@,
            },
        ),
        given(
            !s.published,
            ErrorView::Refused {
                code: "WEEK_NOT_PUBLISHED"@,
                reason: "That week isn't published yet."@,
            },
        ),
    )
}

fn check_side(s: &SwapShift, requester: &Subject, peer: &Subject) -> (r: Result<(), AppError>)
    ensures
        refusal(r) == side_refused(*s, *requester, *peer),
{
    let at: Id = match s.branch_id {
        Some(b) => b,
        None => 0,
    };
    if !has_id(&requester.branches, at) || !has_id(&peer.branches, at) {
        return Err(
            refused(
                "SWAP_OTHER_BRANCH",
                "You can swap only with a colleague at the same branch.",
            ),
        );
    }
    if !s.published {
        return Err(refused("WEEK_NOT_PUBLISHED", "That week isn't published yet."));
    }
    Ok(())
}

/// A shift that began.
pub open spec fn started_view() -> ErrorView {
    ErrorView::Refused {
        code: "SWAP_STARTED"@,
        reason: "A shift that already started can't be swapped."@,
    }
}

/// What asking to swap two rostered shifts is refused for, if anything.
pub open spec fn pair_refused(f: AskFacts, now: Moment) -> Option<ErrorView> {
    match (f.mine, f.theirs) {
        (Some(mine), Some(theirs)) => either(
            given(mine.start <= now || theirs.start <= now, started_view()),
            either(
                side_refused(mine, f.requester->Ok_0, f.peer->Ok_0),
                either(
                    side_refused(theirs, f.requester->Ok_0, f.peer->Ok_0),
                    either(given(f.open_already, exists_view()), refusal(f.fits)),
                ),
            ),
        ),
        _ => Some(ErrorView::Conflict("Those shifts aren't on the roster."@)),
    }
}

/// What asking to swap is refused for, if anything.
pub open spec fn ask_refused(f: AskFacts, now: Moment) -> Option<ErrorView> {
    either(
        given(f.own, ErrorView::BadRequest("Pick a colleague."@)),
        either(
            refusal(f.requester),
            match f.peer {
                Err(e) => Some(e@),
                Ok(p) => either(
                    given(
                        p.employment_status@ != "active"@,
                        ErrorView::NotFound("Employee not found"@),
                    ),
                    pair_refused(f, now),
                ),
            },
        ),
    )
}

/// Ask a colleague to swap: they agree first, then the manager. Both shifts
/// must be on the published roster, ahead, at a branch both work at, and must
/// fit where they land.
pub fn ask_swap(f: AskFacts, now: Moment) -> (r: Result<SwapStatus, AppError>)
    ensures
        match ask_refused(f, now) {
            Some(e) => r is Err && r->Err_0@ == e,
            None => r == Ok::<SwapStatus, AppError>(SwapStatus::AwaitingPeer),
        },
{
    if f.own {
        return Err(bad_request("Pick a colleague."));
    }
    let requester: Subject = f.requester?;
    let peer: Subject = f.peer?;
    if !same_text(peer.employment_status.as_str(), "active") {
        return Err(not_found("Employee not found"));
    }
    let (mine, theirs): (SwapShift, SwapShift) = match (f.mine, f.theirs) {
        (Some(a), Some(b)) => (a, b),
        _ => {
            return Err(conflict("Those shifts aren't on the roster."));
        },
    };
    if mine.start <= now || theirs.start <= now {
        return Err(
            refused("SWAP_STARTED", "A shift that already started can't be swapped."),
        );
    }
    check_side(&mine, &requester, &peer)?;
    check_side(&theirs, &requester, &peer)?;
    if f.open_already {
        return Err(swap_exists());
    }
    f.fits?;
    Ok(SwapStatus::AwaitingPeer)
}

/// The colleague agrees or declines: only theirs, and only while it waits for
/// them.
pub fn answer_swap(swap: Option<Swap>, who: Id, approve: bool) -> (r: Result<
    SwapStatus,
    AppError,
>)
    ensures
        if swap is Some && swap->0.peer_id == who && swap->0.status == SwapStatus::AwaitingPeer {
            r == Ok::<SwapStatus, AppError>(
                if approve {
                    SwapStatus::Pending
                } else {
                    SwapStatus::Rejected
                },
            )
        } else {
            r is Err && r->Err_0@ == ErrorView::NotFound("No swap waiting for you here."@)
        },
{
    match swap {
        Some(s) => {
            let awaiting: bool = match s.status {
                SwapStatus::AwaitingPeer => true,
                _ => false,
            };
            if s.peer_id == who && awaiting {
                if approve {
                    return Ok(SwapStatus::Pending);
                }
                return Ok(SwapStatus::Rejected);
            }
        },
        None => {},
    }
    Err(not_found("No swap waiting for you here."))
}

/// The one who asked takes it back before the manager decides.
pub fn cancel_swap(swap: Option<Swap>, who: Id) -> (r: Result<SwapStatus, AppError>)
    ensures
        if swap is Some && swap->0.requester_id == who && swap->0.status.waits() {
            r == Ok::<SwapStatus, AppError>(SwapStatus::Cancelled)
        } else {
            r is Err && r->Err_0@ == ErrorView::NotFound("No swap of yours to cancel here."@)
        },
{
    match swap {
        Some(s) => {
            let waits: bool = match s.status {
                SwapStatus::AwaitingPeer => true,
                SwapStatus::Pending => true,
                _ => false,
            };
            if s.requester_id == who && waits {
                return Ok(SwapStatus::Cancelled);
            }
        },
        None => {},
    }
    Err(not_found("No swap of yours to cancel here."))
}

/// What is known when a manager decides a swap.
pub struct SwapDecisionFacts {
    /// The caller may edit schedules somewhere.
    pub gate: Result<(), AppError>,
    /// The swap, if it waits for a manager.
    pub pending: bool,
    /// Both people are employees of the business.
    pub found: Result<(), AppError>,
    /// The caller may edit the schedule of the one who asked.
    pub right_requester: Result<(), AppError>,
    /// The caller may edit the schedule of the colleague.
    pub right_peer: Result<(), AppError>,
    /// The caller is in the swap.
    pub own: bool,
    /// The shift given away, if it is still on the roster.
    pub mine: Option<SwapShift>,
    /// The colleague's shift, if it is still on the roster.
    pub theirs: Option<SwapShift>,
}

/// The shift, if it is still on the roster, began.
pub open spec fn began(s: Option<SwapShift>, now: Moment) -> bool {
    s is Some && s->0.start <= now
}

/// The shift, if it is still on the roster, is in a week that is not published
/// any more.
pub open spec fn unpublished(s: Option<SwapShift>) -> bool {
    s is Some && !s->0.published
}

/// What approving a swap is refused for by time that passed since it was asked,
/// if anything. A shift no longer on the roster is found when it is applied.
pub open spec fn stale_refused(f: SwapDecisionFacts, now: Moment) -> Option<ErrorView> {
    either(
        given(began(f.mine, now) || began(f.theirs, now), started_view()),
        given(
            unpublished(f.mine) || unpublished(f.theirs),
            ErrorView::Refused {
                code: "WEEK_NOT_PUBLISHED"@,
                reason: "That week isn't published any more."@,
            },
        ),
    )
}

/// What deciding a swap is refused for, if anything.
pub open spec fn swap_decision_refused(f: SwapDecisionFacts, approve: bool, now: Moment) -> Option<
    ErrorView,
> {
    either(
        refusal(f.gate),
        either(
            given(!f.pending, ErrorView::NotFound("No swap waiting here."@)),
            either(
                refusal(f.found),
                either(
                    refusal(f.right_requester),
                    either(
                        refusal(f.right_peer),
                        either(
                            given(
                                f.own,
                                coded_view(
                                    403,
                                    "OWN_SWAP"@,
                                    "You can't approve a swap you're part of."@,
                                ),
                            ),
                            if approve {
                                stale_refused(f, now)
                            } else {
                                None
                            },
                        ),
                    ),
                ),
            ),
        ),
    )
}

fn has_begun(s: &Option<SwapShift>, now: Moment) -> (r: bool)
    ensures
        r == began(*s, now),
{
    match s {
        Some(x) => x.start <= now,
        None => false,
    }
}

fn is_unpublished(s: &Option<SwapShift>) -> (r: bool)
    ensures
        r == unpublished(*s),
{
    match s {
        Some(x) => !x.published,
        None => false,
    }
}

/// The manager decides: both rosters change, so both sides' rights count, and
/// neither person in it decides. Approving checks again what the ask checked.
pub fn decide_swap(f: SwapDecisionFacts, approve: bool, now: Moment) -> (r: Result<
    SwapStatus,
    AppError,
>)
    ensures
        match swap_decision_refused(f, approve, now) {
            Some(e) => r is Err && r->Err_0@ == e,
            None => r == Ok::<SwapStatus, AppError>(
                if approve {
                    SwapStatus::Approved
                } else {
                    SwapStatus::Rejected
                },
            ),
        },
{
    f.gate?;
    if !f.pending {
        return Err(not_found("No swap waiting here."));
    }
    f.found?;
    f.right_requester?;
    f.right_peer?;
    if f.own {
        return Err(coded(403, "OWN_SWAP", "You can't approve a swap you're part of."));
    }
    if !approve {
        return Ok(SwapStatus::Rejected);
    }
    if has_begun(&f.mine, now) || has_begun(&f.theirs, now) {
        return Err(
            refused("SWAP_STARTED", "A shift that already started can't be swapped."),
        );
    }
    if is_unpublished(&f.mine) || is_unpublished(&f.theirs) {
        return Err(refused("WEEK_NOT_PUBLISHED", "That week isn't published any more."));
    }
    Ok(SwapStatus::Approved)
}

/// What the one who asked is told of their colleague's answer.
pub fn told_of_answer(approve: bool) -> (r: &'static str)
    ensures
        r@ == if approve {
            "staff.n_swap_agreed"@
        } else {
            "staff.n_swap_declined"@
        },
{
    if approve {
        "staff.n_swap_agreed"
    } else {
        "staff.n_swap_declined"
    }
}

/// What both are told of the manager's decision.
pub fn told_of_decision(approve: bool) -> (r: &'static str)
    ensures
        r@ == if approve {
            "staff.n_swap_approved"@
        } else {
            "staff.n_swap_rejected"@
        },
{
    if approve {
        "staff.n_swap_approved"
    } else {
        "staff.n_swap_rejected"
    }
}

/// A swap is decided once.
pub fn swap_decided_once(updated: bool) -> (r: Result<(), AppError>)
    ensures
        refusal(r) == given(!updated, ErrorView::Conflict("That swap was already decided."@)),
{
    if updated {
        Ok(())
    } else {
        Err(conflict("That swap was already decided."))
    }
}

/// One person's date of a swap: its own set, and what the pattern has for it.
pub struct SwapDay {
    pub rows: Vec<DayRow>,
    pub pattern: Vec<PatternBlock>,
}

/// One person's side of a swap: the date they give a shift away on, and the
/// date they take one on where that is another date.
pub struct SwapSide {
    pub gives: SwapDay,
    /// Where the shift given is worked, as the roster has it.
    pub gives_at: Option<Id>,
    pub takes: Option<SwapDay>,
    pub places: Places,
}

impl SwapSide {
    /// The side has the shift to give.
    pub open spec fn has(self, shift: Id) -> bool {
        has_row(own_set(self.gives.rows@, self.gives.pattern@, self.places), Some(shift))
    }

    /// What the side gives: the shift with its own times, where it is worked.
    pub open spec fn given_block(self, shift: Id) -> Block {
        Block {
            work_shift_id: shift,
            times: times_of(own_set(self.gives.rows@, self.gives.pattern@, self.places), shift),
            branch_id: self.gives_at,
        }
    }

    /// The date of the giving once the shift is off it.
    pub open spec fn after_giving(self, shift: Id) -> Seq<DayRow> {
        removed(self.gives.rows@, self.gives.pattern@, self.places, shift)
    }

    /// The dates once the side has given one shift and taken another: the
    /// giving one, and the taking one where it is another.
    pub open spec fn traded(self, shift: Id, block: Block) -> (Seq<DayRow>, Option<Seq<DayRow>>) {
        match self.takes {
            None => (
                added(self.after_giving(shift), self.gives.pattern@, self.places, block),
                None,
            ),
            Some(t) => (
                self.after_giving(shift),
                Some(added(t.rows@, t.pattern@, self.places, block)),
            ),
        }
    }

    /// The side's dates.
    pub open spec fn dates(self) -> (Seq<DayRow>, Option<Seq<DayRow>>) {
        (
            self.gives.rows@,
            match self.takes {
                Some(t) => Some(t.rows@),
                None => None,
            },
        )
    }

    fn give(&mut self, shift: Id) -> (r: Option<Block>)
        ensures
            r == if old(self).has(shift) {
                Some(old(self).given_block(shift))
            } else {
                None
            },
            final(self).gives.rows@ == old(self).after_giving(shift),
            final(self).gives.pattern == old(self).gives.pattern,
            final(self).gives_at == old(self).gives_at,
            final(self).takes == old(self).takes,
            final(self).places == old(self).places,
    {
        let at: Option<Id> = self.gives_at;
        match remove_block(&mut self.gives.rows, &self.gives.pattern, &self.places, shift, at) {
            Some(gone) => Some(
                Block { work_shift_id: shift, times: gone.times, branch_id: gone.branch_id },
            ),
            None => None,
        }
    }

    fn take(self, block: &Block) -> (r: SwapSide)
        ensures
            r.dates() == match self.takes {
                None => (
                    added(self.gives.rows@, self.gives.pattern@, self.places, *block),
                    None::<Seq<DayRow>>,
                ),
                Some(t) => (
                    self.gives.rows@,
                    Some(added(t.rows@, t.pattern@, self.places, *block)),
                ),
            },
    {
        match self.takes {
            None => {
                let mut gives: SwapDay = self.gives;
                add_block(&mut gives.rows, &gives.pattern, &self.places, block);
                SwapSide { gives, gives_at: self.gives_at, takes: None, places: self.places }
            },
            Some(t) => {
                let mut takes: SwapDay = t;
                add_block(&mut takes.rows, &takes.pattern, &self.places, block);
                SwapSide {
                    gives: self.gives,
                    gives_at: self.gives_at,
                    takes: Some(takes),
                    places: self.places,
                }
            },
        }
    }
}

/// What applying a swap is refused for, if anything.
pub open spec fn apply_refused(
    s: Swap,
    requester: Subject,
    peer: Subject,
    my_info: Option<BlockInfo>,
    their_info: Option<BlockInfo>,
    mine: SwapSide,
    theirs: SwapSide,
) -> Option<ErrorView> {
    either(
        given(
            !mine.has(s.requester_shift_id) || !theirs.has(s.peer_shift_id),
            ErrorView::Refused {
                code: "SWAP_STALE"@,
                reason: "Those shifts aren't on the roster any more."@,
            },
        ),
        either(
            block_refused(
                their_info,
                requester,
                s.peer_date,
                theirs.given_block(s.peer_shift_id),
            ),
            block_refused(
                my_info,
                peer,
                s.requester_date,
                mine.given_block(s.requester_shift_id),
            ),
        ),
    )
}

/// A swap on both rosters, before it is known to fit: the sides, and the dates
/// it is checked over.
pub struct SwapApplied {
    pub mine: SwapSide,
    pub theirs: SwapSide,
    pub from: Day,
    pub to: Day,
}

/// The two sides of a swap applied to the roster: each gives their block, with
/// its own times and where it is worked, and takes the other's, the rest of
/// both days unchanged. [`settle_swap`] then checks both people's shifts.
pub fn apply_swap(
    s: &Swap,
    requester: &Subject,
    peer: &Subject,
    my_info: &Option<BlockInfo>,
    their_info: &Option<BlockInfo>,
    mine: SwapSide,
    theirs: SwapSide,
) -> (r: Result<SwapApplied, AppError>)
    requires
        valid_day(s.requester_date),
        valid_day(s.peer_date),
    ensures
        match apply_refused(*s, *requester, *peer, *my_info, *their_info, mine, theirs) {
            Some(e) => r is Err && r->Err_0@ == e,
            None => {
                &&& r is Ok
                &&& (r->Ok_0).mine.dates() == mine.traded(
                    s.requester_shift_id,
                    theirs.given_block(s.peer_shift_id),
                )
                &&& (r->Ok_0).theirs.dates() == theirs.traded(
                    s.peer_shift_id,
                    mine.given_block(s.requester_shift_id),
                )
                &&& (r->Ok_0).from == min_of(s.requester_date as int, s.peer_date as int)
                &&& (r->Ok_0).to == max_of(s.requester_date as int, s.peer_date as int)
            },
        },
{
    let mut my_side: SwapSide = mine;
    let mut their_side: SwapSide = theirs;
    let gave: Option<Block> = my_side.give(s.requester_shift_id);
    let got: Option<Block> = their_side.give(s.peer_shift_id);
    let (to_peer, to_requester): (Block, Block) = match (gave, got) {
        (Some(a), Some(b)) => (a, b),
        _ => {
            return Err(refused("SWAP_STALE", "Those shifts aren't on the roster any more."));
        },
    };
    validate_block(their_info, requester, s.peer_date, &to_requester)?;
    validate_block(my_info, peer, s.requester_date, &to_peer)?;
    let (from, to): (Day, Day) = if s.requester_date <= s.peer_date {
        (s.requester_date, s.peer_date)
    } else {
        (s.peer_date, s.requester_date)
    };
    Ok(
        SwapApplied {
            mine: my_side.take(&to_requester),
            theirs: their_side.take(&to_peer),
            from,
            to,
        },
    )
}

/// A swap that is on both rosters stays there where nothing of either person's
/// overlaps on its dates; else it is undone, with the first overlap named, the
/// requester's before the peer's. `mine` and `theirs` are the shifts as the
/// rosters have them with the swap, from the day before to the day after.
pub fn settle_swap(
    applied: SwapApplied,
    mine: &[ResolvedShift],
    theirs: &[ResolvedShift],
) -> (r: Result<(SwapSide, SwapSide), AppError>)
    requires
        forall|i: int| 0 <= i < mine@.len() ==> valid_day((#[trigger] mine@[i]).on_date),
        forall|i: int| 0 <= i < theirs@.len() ==> valid_day((#[trigger] theirs@[i]).on_date),
    ensures
        match r {
            Ok(sides) => {
                &&& no_clash(mine@, applied.from, applied.to)
                &&& no_clash(theirs@, applied.from, applied.to)
                &&& sides == (applied.mine, applied.theirs)
            },
            Err(e) => if no_clash(mine@, applied.from, applied.to) {
                names_first_clash(e@, theirs@, applied.from, applied.to)
            } else {
                names_first_clash(e@, mine@, applied.from, applied.to)
            },
        },
{
    match check_overlaps(mine, applied.from, applied.to) {
        Ok(_) => {},
        Err(e) => {
            proof {
                lemma_a_named_clash_is_one(e@, mine@, applied.from, applied.to);
            }
            return Err(e);
        },
    }
    check_overlaps(theirs, applied.from, applied.to)?;
    Ok((applied.mine, applied.theirs))
}

/// After a settled swap no shift of either person on either date overlaps
/// another of theirs.
pub proof fn law_a_settled_swap_overlaps_nothing(
    s: Swap,
    shifts: Seq<ResolvedShift>,
    i: int,
    j: int,
)
    requires
        no_clash(
            shifts,
            min_of(s.requester_date as int, s.peer_date as int) as Day,
            max_of(s.requester_date as int, s.peer_date as int) as Day,
        ),
        0 <= i < shifts.len(),
        0 <= j < shifts.len(),
        i != j,
        shifts[i].employee_id == shifts[j].employee_id,
        shifts[i].on_date == s.requester_date || shifts[i].on_date == s.peer_date,
    ensures
        shifts[i].scheduled_start_at >= shifts[j].scheduled_end_at
            || shifts[j].scheduled_start_at >= shifts[i].scheduled_end_at,
{
    if i < j {
        assert(!clash(
            shifts[i],
            shifts[j],
            min_of(s.requester_date as int, s.peer_date as int) as Day,
            max_of(s.requester_date as int, s.peer_date as int) as Day,
        ));
    } else {
        assert(!clash(
            shifts[j],
            shifts[i],
            min_of(s.requester_date as int, s.peer_date as int) as Day,
            max_of(s.requester_date as int, s.peer_date as int) as Day,
        ));
    }
}

/// Nobody in a swap decides it, and it is approved only while both shifts are
/// ahead.
pub proof fn law_a_swap_is_decided_by_a_third_in_time(
    f: SwapDecisionFacts,
    approve: bool,
    now: Moment,
)
    requires
        swap_decision_refused(f, approve, now) is None,
    ensures
        !f.own,
        approve && f.mine is Some ==> f.mine->0.start > now,
        approve && f.theirs is Some ==> f.theirs->0.start > now,
{
}

/// A swap leaves every other shift of both days as it was.
pub proof fn law_a_swap_leaves_the_rest(side: SwapSide, shift: Id, block: Block, other: DayRow)
    requires
        well_formed(side.gives.rows@),
        side.takes matches Some(t) ==> well_formed(t.rows@),
        side.has(shift),
        other.work_shift_id is Some,
        other.work_shift_id != Some(shift),
        other.work_shift_id != Some(block.work_shift_id),
    ensures
        side.traded(shift, block).0.contains(other) <==> own_set(
            side.gives.rows@,
            side.gives.pattern@,
            side.places,
        ).contains(other),
        side.takes matches Some(t) ==> (side.traded(shift, block).1->0.contains(other) <==> own_set(
            t.rows@,
            t.pattern@,
            side.places,
        ).contains(other)),
{
    let gone = Block { work_shift_id: shift, times: None, branch_id: None };
    law_a_written_day_is_its_own(side.gives.rows@, side.gives.pattern@, side.places, shift);
    law_the_rest_of_the_day_stays(
        side.gives.rows@,
        side.gives.pattern@,
        side.places,
        gone,
        None,
        other,
    );
    match side.takes {
        Some(t) => {
            law_the_rest_of_the_day_stays(t.rows@, t.pattern@, side.places, block, None, other);
        },
        None => {
            let after = side.after_giving(shift);
            law_writers_keep_the_set(
                side.gives.rows@,
                side.gives.pattern@,
                side.places,
                block,
                Seq::empty(),
                shift,
                None,
            );
            law_the_rest_of_the_day_stays(
                after,
                side.gives.pattern@,
                side.places,
                block,
                None,
                other,
            );
        },
    }
}

/// A swap is asked of another, active colleague for two shifts on the roster
/// that both still lie ahead, each in a published week at a branch both work at;
/// it is not asked already, and fits.
pub proof fn law_which_swap_may_be_asked(f: AskFacts, now: Moment)
    ensures
        ask_refused(f, now) is None <==> {
            &&& !f.own
            &&& f.requester is Ok
            &&& f.peer is Ok
            &&& (f.peer->Ok_0).employment_status@ == "active"@
            &&& f.mine is Some
            &&& f.theirs is Some
            &&& now < f.mine->0.start
            &&& now < f.theirs->0.start
            &&& f.mine->0.published
            &&& f.theirs->0.published
            &&& (f.requester->Ok_0).branches@.contains(at_branch(f.mine->0))
            &&& (f.peer->Ok_0).branches@.contains(at_branch(f.mine->0))
            &&& (f.requester->Ok_0).branches@.contains(at_branch(f.theirs->0))
            &&& (f.peer->Ok_0).branches@.contains(at_branch(f.theirs->0))
            &&& !f.open_already
            &&& f.fits is Ok
        },
        f.mine is Some && f.mine->0.branch_id is Some ==> Some(at_branch(f.mine->0))
            == f.mine->0.branch_id,
{
}

/// A pending swap is decided by a third who may edit both schedules; approving
/// it also takes both shifts ahead and published, where they are still on the
/// roster.
pub proof fn law_who_decides_a_swap(f: SwapDecisionFacts, approve: bool, now: Moment)
    ensures
        swap_decision_refused(f, approve, now) is None <==> {
            &&& f.gate is Ok
            &&& f.pending
            &&& f.found is Ok
            &&& f.right_requester is Ok
            &&& f.right_peer is Ok
            &&& !f.own
            &&& approve && f.mine is Some ==> now < f.mine->0.start && f.mine->0.published
            &&& approve && f.theirs is Some ==> now < f.theirs->0.start && f.theirs->0.published
        },
{
}

/// A swap waits until the colleague declines, the manager decides or the one who
/// asked takes it back.
pub proof fn law_a_swap_waits_for_two(s: SwapStatus)
    ensures
        s.waits() <==> s != SwapStatus::Approved && s != SwapStatus::Rejected && s
            != SwapStatus::Cancelled,
{
}

/// A swap is applied where both still have the shift they give, and each may
/// work the other's on its date.
pub proof fn law_a_swap_is_of_shifts_they_have(
    s: Swap,
    requester: Subject,
    peer: Subject,
    my_info: Option<BlockInfo>,
    their_info: Option<BlockInfo>,
    mine: SwapSide,
    theirs: SwapSide,
)
    ensures
        apply_refused(s, requester, peer, my_info, their_info, mine, theirs) is None <==> {
            &&& mine.has(s.requester_shift_id)
            &&& theirs.has(s.peer_shift_id)
            &&& block_refused(
                their_info,
                requester,
                s.peer_date,
                theirs.given_block(s.peer_shift_id),
            ) is None
            &&& block_refused(
                my_info,
                peer,
                s.requester_date,
                mine.given_block(s.requester_shift_id),
            ) is None
        },
        mine.given_block(s.requester_shift_id).work_shift_id == s.requester_shift_id,
        mine.given_block(s.requester_shift_id).branch_id == mine.gives_at,
{
}

/// What asking to swap is refused for first.
pub proof fn law_how_asking_to_swap_is_refused(f: AskFacts, now: Moment)
    ensures
        ({
            ask_refused(f, now) == if f.own {
                Some(ErrorView::BadRequest("Pick a colleague."@))
            } else if f.requester is Err {
                Some(f.requester->Err_0@)
            } else if f.peer is Err {
                Some(f.peer->Err_0@)
            } else if (f.peer->Ok_0).employment_status@ != "active"@ {
                Some(ErrorView::NotFound("Employee not found"@))
            } else if !(f.mine is Some && f.theirs is Some) {
                Some(ErrorView::Conflict("Those shifts aren't on the roster."@))
            } else if !(now < f.mine->0.start && now < f.theirs->0.start) {
                Some(
                    ErrorView::Refused { code: "SWAP_STARTED"@,
                        reason: "A shift that already started can't be swapped."@ },
                )
            } else if side_refused(f.mine->0, f.requester->Ok_0, f.peer->Ok_0) is Some {
                Some(side_refused(f.mine->0, f.requester->Ok_0, f.peer->Ok_0)->0)
            } else if side_refused(f.theirs->0, f.requester->Ok_0, f.peer->Ok_0) is Some {
                Some(side_refused(f.theirs->0, f.requester->Ok_0, f.peer->Ok_0)->0)
            } else if f.open_already {
                Some(
                    ErrorView::Refused { code: "SWAP_EXISTS"@,
                        reason: "You've already asked for this swap — it's waiting."@ },
                )
            } else if f.fits is Err {
                Some(f.fits->Err_0@)
            } else {
                None
            }
        }),
{
}

/// What one side of a swap is refused for first.
pub proof fn law_how_one_side_of_a_swap_is_refused(s: SwapShift, requester: Subject, peer: Subject)
    ensures
        ({
            side_refused(s, requester, peer) == if !(requester.branches@.contains(at_branch(s))
                && peer.branches@.contains(at_branch(s))) {
                Some(
                    ErrorView::Refused { code: "SWAP_OTHER_BRANCH"@,
                        reason: "You can swap only with a colleague at the same branch."@ },
                )
            } else if !s.published {
                Some(
                    ErrorView::Refused { code: "WEEK_NOT_PUBLISHED"@,
                        reason: "That week isn't published yet."@ },
                )
            } else {
                None
            }
        }),
{
}

/// What deciding a swap is refused for first.
pub proof fn law_how_a_swaps_decision_is_refused(f: SwapDecisionFacts, approve: bool, now: Moment)
    ensures
        ({
            swap_decision_refused(f, approve, now) == if f.gate is Err {
                Some(f.gate->Err_0@)
            } else if !f.pending {
                Some(ErrorView::NotFound("No swap waiting here."@))
            } else if f.found is Err {
                Some(f.found->Err_0@)
            } else if f.right_requester is Err {
                Some(f.right_requester->Err_0@)
            } else if f.right_peer is Err {
                Some(f.right_peer->Err_0@)
            } else if f.own {
                Some(coded_view(403, "OWN_SWAP"@, "You can't approve a swap you're part of."@))
            } else if approve && (f.mine is Some && f.mine->0.start <= now || f.theirs is Some
                && f.theirs->0.start <= now) {
                Some(
                    ErrorView::Refused { code: "SWAP_STARTED"@,
                        reason: "A shift that already started can't be swapped."@ },
                )
            } else if approve && (f.mine is Some && !f.mine->0.published || f.theirs is Some
                && !f.theirs->0.published) {
                Some(
                    ErrorView::Refused { code: "WEEK_NOT_PUBLISHED"@,
                        reason: "That week isn't published any more."@ },
                )
            } else {
                None
            }
        }),
{
}

/// A swap trades: whoever gave a shift is off it, and on the one they took.
pub proof fn law_a_swap_trades_the_shifts(side: SwapSide, shift: Id, block: Block)
    requires
        well_formed(side.gives.rows@),
        side.takes matches Some(t) ==> well_formed(t.rows@),
        side.has(shift),
        block.work_shift_id != shift,
    ensures
        !has_row(side.traded(shift, block).0, Some(shift)),
        side.takes is None ==> has_row(side.traded(shift, block).0, Some(block.work_shift_id)),
        side.takes is Some ==> side.traded(shift, block).1 is Some && has_row(
            side.traded(shift, block).1->0,
            Some(block.work_shift_id),
        ),
{
    let rows = side.gives.rows@;
    let pattern = side.gives.pattern@;
    law_a_block_taken_off_is_gone(rows, pattern, side.places, shift);
    law_writers_keep_the_set(rows, pattern, side.places, block, Seq::empty(), shift, None);
    let after = side.after_giving(shift);
    match side.takes {
        None => {
            law_a_block_put_on_is_there(after, pattern, side.places, block, 0);
            let all = side.traded(shift, block).0;
            if has_row(all, Some(shift)) {
                let i = choose|i: int|
                    0 <= i < all.len() && (#[trigger] all[i]).work_shift_id == Some(shift);
                law_the_rest_of_the_day_stays(after, pattern, side.places, block, None, all[i]);
                assert(all.contains(all[i]));
                assert(after.contains(all[i]));
                let k = choose|k: int| 0 <= k < after.len() && after[k] == all[i];
                assert(after[k].work_shift_id == Some(shift));
            }
        },
        Some(t) => {
            law_a_block_put_on_is_there(t.rows@, t.pattern@, side.places, block, 0);
        },
    }
}

} // verus!
