//! The locations a phone sends between clock-in and clock-out.

use vstd::prelude::*;

use crate::calendar::{
    max_of, valid_moment, whole_units, Moment, NANOS_PER_MINUTE, NANOS_PER_SECOND,
};
use crate::errors::{either, given, refusal, refused, AppError, ErrorView};
use crate::text::texts;

verus! {

/// Two pings in a row outside the fence is "left".
pub const OUTSIDE_STREAK: usize = 2;

/// At or under this, the employee is told to charge and silence reads "phone
/// likely died".
pub const LOW_BATTERY: i16 = 15;

/// How many readings in a row, this one with them, make a frozen accuracy.
pub const FROZEN_RUN: usize = 4;

/// How many identical positions in a row, this one with them, read as a
/// replayed or cached location. One repeat is what an OS cache hands back;
/// three in a row across half an hour is not a person standing still.
pub const IDENTICAL_RUN: usize = 3;

/// Slack at the edges of an excused window: pings are 15 minutes apart.
pub const EXCUSE_SLACK_MIN: i128 = 10;

/// The least a left-mid-shift flag says: one ping apart.
pub const LEAST_AWAY: i64 = 15;

/// How good a reading says it is.
#[derive(Debug, Clone, Copy, PartialEq, Eq, Structural)]
pub enum Accuracy {
    /// The phone did not say.
    Unsaid,
    /// Zero metres or less: no real receiver reports that.
    Impossible,
    /// One of the fixed steps iOS reports: an honest phone repeats them.
    Step,
    /// Anything else.
    Measured,
}

/// How an earlier reading of the shift compares with this one.
#[derive(Debug, Clone, Copy, PartialEq, Eq, Structural)]
pub struct PriorPing {
    /// The very same coordinates.
    pub same_place: bool,
    /// The very same accuracy.
    pub same_accuracy: bool,
}

/// The `run - 1` newest readings all repeat the place.
pub open spec fn place_runs(prior: Seq<PriorPing>, run: int) -> bool {
    prior.len() + 1 >= run && forall|i: int|
        0 <= i < run - 1 && i < prior.len() ==> (#[trigger] prior[i]).same_place
}

/// The `run - 1` newest readings all repeat the accuracy.
pub open spec fn accuracy_runs(prior: Seq<PriorPing>, run: int) -> bool {
    prior.len() + 1 >= run && forall|i: int|
        0 <= i < run - 1 && i < prior.len() ==> (#[trigger] prior[i]).same_accuracy
}

/// Whether a reading looks made up: the OS's own mock marker, the same place
/// over and over, an accuracy that is impossible or frozen off iOS's steps, or
/// faster than anyone walks.
pub open spec fn spoofed(
    accuracy: Accuracy,
    is_mock: Option<bool>,
    too_fast: bool,
    prior: Seq<PriorPing>,
) -> bool {
    ||| is_mock == Some(true)
    ||| place_runs(prior, IDENTICAL_RUN as int)
    ||| accuracy == Accuracy::Impossible
    ||| accuracy == Accuracy::Measured && accuracy_runs(prior, FROZEN_RUN as int)
    ||| too_fast
}

/// The spoofing signals of one reading against the ones before it. `prior` is
/// newest first; `too_fast` says that the newest is further away than a person
/// gets in the time between.
pub fn spoof_signals(
    accuracy: Accuracy,
    is_mock: Option<bool>,
    too_fast: bool,
    prior: &[PriorPing],
) -> (r: bool)
    ensures
        r == spoofed(accuracy, is_mock, too_fast, prior@),
{
    let mut identical: bool = prior.len() >= IDENTICAL_RUN - 1;
    let mut i: usize = 0;
    while i < prior.len() && i < IDENTICAL_RUN - 1
        invariant
            i <= prior@.len(),
            i <= IDENTICAL_RUN - 1,
            identical == (prior@.len() + 1 >= IDENTICAL_RUN && forall|k: int|
                0 <= k < i ==> (#[trigger] prior@[k]).same_place),
        decreases prior@.len() - i,
    {
        identical = identical && prior[i].same_place;
        i += 1;
    }
    let mut frozen: bool = prior.len() >= FROZEN_RUN - 1;
    let mut j: usize = 0;
    while j < prior.len() && j < FROZEN_RUN - 1
        invariant
            j <= prior@.len(),
            j <= FROZEN_RUN - 1,
            frozen == (prior@.len() + 1 >= FROZEN_RUN && forall|k: int|
                0 <= k < j ==> (#[trigger] prior@[k]).same_accuracy),
        decreases prior@.len() - j,
    {
        frozen = frozen && prior[j].same_accuracy;
        j += 1;
    }
    let odd_accuracy: bool = match accuracy {
        Accuracy::Impossible => true,
        Accuracy::Measured => frozen,
        Accuracy::Unsaid => false,
        Accuracy::Step => false,
    };
    let mock: bool = match is_mock {
        Some(m) => m,
        None => false,
    };
    mock || identical || odd_accuracy || too_fast
}

/// The punch's own fix, judged like a ping's: the OS's mock marker, or an
/// accuracy no real receiver reports, is suspicious.
pub fn check_punch_fix(accuracy: Accuracy, is_mock: Option<bool>) -> (r: bool)
    ensures
        r == (is_mock == Some(true) || accuracy == Accuracy::Impossible),
{
    let impossible: bool = match accuracy {
        Accuracy::Impossible => true,
        _ => false,
    };
    match is_mock {
        Some(m) => m || impossible,
        None => impossible,
    }
}

/// The whole seconds from one instant to another, none where it runs backward.
pub open spec fn seconds_of(from: Moment, to: Moment) -> int {
    max_of(whole_units(to - from, NANOS_PER_SECOND as int), 0)
}

/// One of the windows covers the instant.
pub open spec fn covers(excused: Seq<(Moment, Moment)>, t: int) -> bool {
    exists|i: int| 0 <= i < excused.len() && (#[trigger] excused[i]).0 <= t < excused[i].1
}

/// How much of a stretch the windows cover, in nanoseconds: each instant counts
/// once, however many windows hold it.
pub open spec fn covered_time(from: int, to: int, excused: Seq<(Moment, Moment)>) -> int
    decreases to - from,
{
    if to <= from {
        0
    } else {
        covered_time(from, to - 1, excused) + if covers(excused, to - 1) {
            1int
        } else {
            0
        }
    }
}

/// What a stretch outside counts for: its seconds, less the excused ones.
pub open spec fn counted_seconds(from: Moment, to: Moment, excused: Seq<(Moment, Moment)>) -> int {
    seconds_of(from, to) - covered_time(from as int, to as int, excused) / NANOS_PER_SECOND as int
}

/// No more of a stretch is covered than there is.
proof fn lemma_covered_is_part(from: int, to: int, excused: Seq<(Moment, Moment)>)
    ensures
        0 <= covered_time(from, to, excused) <= max_of(to - from, 0),
    decreases to - from,
{
    if to > from {
        lemma_covered_is_part(from, to - 1, excused);
    }
}

/// What a stretch adds to the covered time where it is covered all through, or
/// not at all.
proof fn lemma_covered_grows(
    from: int,
    mid: int,
    to: int,
    excused: Seq<(Moment, Moment)>,
    all: bool,
)
    requires
        from <= mid <= to,
        forall|t: int| mid <= t < to ==> #[trigger] covers(excused, t) == all,
    ensures
        covered_time(from, to, excused) == covered_time(from, mid, excused) + if all {
            to - mid
        } else {
            0
        },
    decreases to - mid,
{
    if mid < to {
        lemma_covered_grows(from, mid, to - 1, excused, all);
        assert(covers(excused, to - 1) == all);
    }
}

/// A ping that counts: after the last one already dealt with.
pub open spec fn counts(at: Moment, since: Option<Moment>) -> bool {
    match since {
        Some(s) => at > s,
        None => true,
    }
}

/// Since when the person is outside after the pings, if they are.
pub open spec fn out_since(pings: Seq<(Moment, bool)>, since: Option<Moment>) -> Option<Moment>
    decreases pings.len(),
{
    if pings.len() == 0 {
        None
    } else {
        let before = out_since(pings.drop_last(), since);
        let (at, inside) = pings.last();
        if !counts(at, since) {
            before
        } else if inside {
            None
        } else {
            match before {
                Some(from) => Some(from),
                None => Some(at),
            }
        }
    }
}

/// The seconds of the stretches outside that a ping back inside ended.
pub open spec fn ended_seconds(
    pings: Seq<(Moment, bool)>,
    excused: Seq<(Moment, Moment)>,
    since: Option<Moment>,
) -> int
    decreases pings.len(),
{
    if pings.len() == 0 {
        0
    } else {
        let before = ended_seconds(pings.drop_last(), excused, since);
        let (at, inside) = pings.last();
        match out_since(pings.drop_last(), since) {
            Some(from) if counts(at, since) && inside => before + counted_seconds(from, at, excused),
            _ => before,
        }
    }
}

/// The seconds outside, up to `now`.
pub open spec fn away_seconds(
    pings: Seq<(Moment, bool)>,
    now: Moment,
    excused: Seq<(Moment, Moment)>,
    since: Option<Moment>,
) -> int {
    ended_seconds(pings, excused, since) + match out_since(pings, since) {
        Some(from) => counted_seconds(from, now, excused),
        None => 0,
    }
}

/// Pings the calendar holds, oldest first.
pub open spec fn oldest_first(pings: Seq<(Moment, bool)>) -> bool {
    &&& forall|i: int| 0 <= i < pings.len() ==> valid_moment((#[trigger] pings[i]).0)
    &&& forall|i: int, j: int|
        0 <= i <= j < pings.len() ==> (#[trigger] pings[i]).0 <= (#[trigger] pings[j]).0
}

/// Windows the calendar holds.
pub open spec fn valid_windows(excused: Seq<(Moment, Moment)>) -> bool {
    forall|i: int|
        0 <= i < excused.len() ==> valid_moment((#[trigger] excused[i]).0) && valid_moment(
            excused[i].1,
        )
}

/// Where the stretch of covered, or of uncovered, time that starts at an instant
/// ends at the latest known: the furthest end of a window that covers it, or the
/// next start of one.
fn next_change(at: Moment, to: Moment, excused: &[(Moment, Moment)]) -> (r: (bool, Moment))
    requires
        at < to,
    ensures
        at < r.1 <= to,
        forall|t: int| at <= t < r.1 ==> #[trigger] covers(excused@, t) == r.0,
{
    let mut covered: bool = false;
    // While covered, the furthest end so far; until then, the nearest start.
    let mut end: Moment = at;
    let mut start: Moment = to;
    let mut i: usize = 0;
    while i < excused.len()
        invariant
            i <= excused@.len(),
            at < to,
            at < start <= to,
            covered ==> at < end,
            covered ==> forall|t: int| at <= t < end ==> #[trigger] covers(excused@, t),
            forall|k: int, t: int|
                0 <= k < i && at <= t < start && !covered ==> !((#[trigger] excused@[k]).0 <= t
                    && #[trigger] identity(t) < excused@[k].1),
        decreases excused@.len() - i,
    {
        let (a, b) = excused[i];
        if a <= at && at < b {
            let ghost had = covered;
            let ghost was = end;
            if !covered || b > end {
                end = b;
            }
            covered = true;
            assert forall|t: int| at <= t < end implies #[trigger] covers(excused@, t) by {
                if had && t < was {
                    assert(covers(excused@, t));
                } else {
                    assert(excused@[i as int].0 <= t < excused@[i as int].1);
                }
            }
        } else if at < a && a < start && a < b {
            start = a;
        }
        i += 1;
    }
    if covered {
        if end < to {
            (true, end)
        } else {
            (true, to)
        }
    } else {
        assert forall|t: int| at <= t < start implies #[trigger] covers(excused@, t) == false by {
            if covers(excused@, t) {
                let k = choose|k: int|
                    0 <= k < excused@.len() && (#[trigger] excused@[k]).0 <= t < excused@[k].1;
                assert(identity(t) == t);
            }
        }
        (false, start)
    }
}

/// A number itself.
spec fn identity(t: int) -> int {
    t
}

fn count_seconds(from: Moment, to: Moment, excused: &[(Moment, Moment)]) -> (r: i64)
    requires
        valid_moment(from),
        valid_moment(to),
    ensures
        r == counted_seconds(from, to, excused@),
        r >= 0,
        from <= to ==> r * NANOS_PER_SECOND <= to - from,
        from > to ==> r == 0,
{
    let span: i128 = to - from;
    let whole: i128 = if span > 0 {
        span / NANOS_PER_SECOND
    } else {
        0
    };
    let mut less: i128 = 0;
    let mut at: Moment = from;
    while at < to
        invariant
            valid_moment(from),
            valid_moment(to),
            from <= at,
            from <= to ==> at <= to,
            from > to ==> at == from,
            less == covered_time(from as int, at as int, excused@),
            0 <= less <= at - from,
        decreases to - at,
    {
        let (covered, next) = next_change(at, to, excused);
        proof {
            lemma_covered_grows(from as int, at as int, next as int, excused@, covered);
        }
        if covered {
            less = less + (next - at);
        }
        at = next;
    }
    proof {
        lemma_covered_is_part(from as int, to as int, excused@);
    }
    (whole - less / NANOS_PER_SECOND) as i64
}

/// Minutes outside the fence on this shift, up to `now`: every outside run,
/// each from its first outside ping to the ping that found them back (or
/// `now`), less the time an approved excuse, mission or early departure
/// covers. Pings are oldest first; only those after `since` (a left-mid-shift
/// flag already handled) count.
pub fn away_minutes(
    pings: &[(Moment, bool)],
    now: Moment,
    excused: &[(Moment, Moment)],
    since: Option<Moment>,
) -> (r: i64)
    requires
        oldest_first(pings@),
        valid_moment(now),
        valid_windows(excused@),
    ensures
        r == away_seconds(pings@, now, excused@, since) / 60,
        r >= 0,
{
    let mut secs: i64 = 0;
    let mut out: Option<Moment> = None;
    let ghost low: int = (crate::calendar::MIN_DAY - crate::calendar::EPOCH_DAY)
        * crate::calendar::NANOS_PER_DAY;
    let mut i: usize = 0;
    while i < pings.len()
        invariant
            i <= pings@.len(),
            oldest_first(pings@),
            valid_windows(excused@),
            low == (crate::calendar::MIN_DAY - crate::calendar::EPOCH_DAY)
                * crate::calendar::NANOS_PER_DAY,
            out == out_since(pings@.take(i as int), since),
            secs == ended_seconds(pings@.take(i as int), excused@, since),
            secs >= 0,
            i == 0 ==> secs == 0,
            i > 0 ==> secs * NANOS_PER_SECOND <= pings@[i - 1].0 - low,
            out matches Some(from) ==> {
                &&& i > 0
                &&& valid_moment(from)
                &&& from <= pings@[i - 1].0
                &&& secs * NANOS_PER_SECOND <= from - low
            },
        decreases pings@.len() - i,
    {
        let (at, inside) = pings[i];
        proof {
            assert(pings@.take(i + 1).drop_last() =~= pings@.take(i as int));
            assert(pings@.take(i + 1).last() == pings@[i as int]);
            assert(valid_moment(pings@[i as int].0));
            if i > 0 {
                assert(pings@[i - 1].0 <= pings@[i as int].0);
            }
        }
        let counted: bool = match since {
            Some(s) => at > s,
            None => true,
        };
        if counted {
            if inside {
                if let Some(from) = out {
                    let run: i64 = count_seconds(from, at, excused);
                    secs = secs + run;
                }
                out = None;
            } else if out.is_none() {
                out = Some(at);
            }
        }
        i += 1;
    }
    assert(pings@.take(pings@.len() as int) =~= pings@);
    if let Some(from) = out {
        let run: i64 = count_seconds(from, now, excused);
        secs = secs + run;
    }
    secs / 60
}

/// How many pings in a row the person was outside, this one with them. `prior`
/// says of each earlier ping whether it was inside, newest first.
pub open spec fn streak(prior: Seq<bool>) -> int
    decreases prior.len(),
{
    if prior.len() == 0 || prior[0] {
        1
    } else {
        1 + streak(prior.skip(1))
    }
}

fn count_streak(prior: &[bool]) -> (r: u128)
    ensures
        r == streak(prior@),
{
    let mut n: u128 = 1;
    let mut i: usize = 0;
    assert(prior@.skip(0) =~= prior@);
    while i < prior.len() && !prior[i]
        invariant
            i <= prior@.len(),
            n == i + 1,
            streak(prior@) == i + streak(prior@.skip(i as int)),
        decreases prior@.len() - i,
    {
        assert(prior@.skip(i as int).skip(1) =~= prior@.skip(i + 1));
        n += 1;
        i += 1;
    }
    n
}

/// Whether an excused window, with its slack, holds the instant.
pub open spec fn excuses(window: (Moment, Moment), now: Moment) -> bool {
    window.0 - EXCUSE_SLACK_MIN * NANOS_PER_MINUTE <= now <= window.1 + EXCUSE_SLACK_MIN
        * NANOS_PER_MINUTE
}

/// Whether an approved excuse, early departure or mission covers the instant.
pub open spec fn is_excused(excused: Seq<(Moment, Moment)>, now: Moment) -> bool {
    exists|i: int| 0 <= i < excused.len() && #[trigger] excuses(excused[i], now)
}

fn covered_by_excuse(excused: &[(Moment, Moment)], now: Moment) -> (r: bool)
    requires
        valid_moment(now),
        valid_windows(excused@),
    ensures
        r == is_excused(excused@, now),
{
    let slack: i128 = EXCUSE_SLACK_MIN * NANOS_PER_MINUTE;
    let mut i: usize = 0;
    while i < excused.len()
        invariant
            i <= excused@.len(),
            slack == EXCUSE_SLACK_MIN * NANOS_PER_MINUTE,
            valid_windows(excused@),
            forall|k: int| 0 <= k < i ==> !#[trigger] excuses(excused@[k], now),
        decreases excused@.len() - i,
    {
        let (a, b) = excused[i];
        assert(valid_moment(excused@[i as int].0));
        if a - slack <= now && now <= b + slack {
            assert(excuses(excused@[i as int], now));
            return true;
        }
        i += 1;
    }
    false
}

/// What is known of a ping once its time is rebuilt and its record looked up.
pub struct PingFacts {
    /// When it was taken.
    pub at: Moment,
    /// Nothing vouches for that time.
    pub unverified: bool,
    /// It was queued offline.
    pub offline: bool,
    /// A record was open at its time.
    pub clocked_in: bool,
    /// The month of that record is still open.
    pub month_open: Result<(), AppError>,
    /// Inside the branch's fence.
    pub inside: bool,
    /// The readings before it look made up with it.
    pub spoofed: bool,
    /// Whether each earlier ping of the record was inside, newest first.
    pub prior: Vec<bool>,
    /// What excuses being away on the day.
    pub excused: Vec<(Moment, Moment)>,
    /// When the last left-mid-shift flag of the record was handled.
    pub since: Option<Moment>,
    /// The record's pings up to this one, oldest first.
    pub trail: Vec<(Moment, bool)>,
    pub battery_percent: Option<i16>,
    /// They were told to charge on this shift already.
    pub warned: bool,
}

impl PingFacts {
    pub open spec fn valid(self) -> bool {
        &&& valid_moment(self.at)
        &&& valid_windows(self.excused@)
        &&& oldest_first(self.trail@)
    }

    /// Left mid-shift: outside twice in a row and not excused.
    pub open spec fn left(self) -> bool {
        &&& !self.inside
        &&& streak(self.prior@) >= OUTSIDE_STREAK
        &&& !is_excused(self.excused@, self.at)
    }

    /// The minutes a left-mid-shift flag says.
    pub open spec fn minutes_away(self) -> i32 {
        max_of(
            away_seconds(self.trail@, self.at, self.excused@, self.since) / 60,
            LEAST_AWAY as int,
        ) as i64 as i32
    }

    pub open spec fn low_battery(self) -> bool {
        self.battery_percent is Some && self.battery_percent->0 <= LOW_BATTERY
    }

    /// What the ping is refused for, if anything.
    pub open spec fn refused(self) -> Option<ErrorView> {
        either(
            given(
                !self.clocked_in,
                ErrorView::Refused { code: "NOT_CLOCKED_IN"@, reason: "You are not clocked in."@ },
            ),
            refusal(self.month_open),
        )
    }
}

/// What a ping does beyond being stored.
#[derive(Debug, Clone, Copy, PartialEq, Eq, Structural)]
pub struct PingOutcome {
    /// Flag "left mid-shift", with the minutes away.
    pub left_mid_shift: Option<i32>,
    /// Flag "location suspicious".
    pub suspicious: bool,
    /// Flag "time unverified".
    pub time_unverified: bool,
    /// The app tells them to charge.
    pub charge_phone: bool,
    /// They are told to charge by push as well, once a shift.
    pub push_charge: bool,
}

/// The privacy notice, the clock-in and the month are looked at first; then
/// nothing is charged here: a flag opens for whoever left the fence twice in a
/// row unexcused, for a reading that looks made up and for a time nothing
/// vouches for.
pub fn ping(accepted: Result<(), AppError>, f: PingFacts) -> (r: Result<PingOutcome, AppError>)
    requires
        f.valid(),
    ensures
        match either(refusal(accepted), f.refused()) {
            Some(e) => r is Err && r->Err_0@ == e,
            None => r == Ok::<PingOutcome, AppError>(
                PingOutcome {
                    left_mid_shift: if f.left() {
                        Some(f.minutes_away())
                    } else {
                        None
                    },
                    suspicious: f.spoofed,
                    time_unverified: f.unverified,
                    charge_phone: f.low_battery(),
                    push_charge: f.low_battery() && !f.offline && !f.warned,
                },
            ),
        },
{
    accepted?;
    if !f.clocked_in {
        return Err(refused("NOT_CLOCKED_IN", "You are not clocked in."));
    }
    f.month_open?;
    let mut left: Option<i32> = None;
    if !f.inside && count_streak(f.prior.as_slice()) >= OUTSIDE_STREAK as u128
        && !covered_by_excuse(f.excused.as_slice(), f.at) {
        let minutes: i64 = away_minutes(
            f.trail.as_slice(),
            f.at,
            f.excused.as_slice(),
            f.since,
        );
        let shown: i64 = if minutes >= LEAST_AWAY {
            minutes
        } else {
            LEAST_AWAY
        };
        left = Some(#[verifier::truncate] (shown as i32));
    }
    let charge: bool = match f.battery_percent {
        Some(b) => b <= LOW_BATTERY,
        None => false,
    };
    Ok(
        PingOutcome {
            left_mid_shift: left,
            suspicious: f.spoofed,
            time_unverified: f.unverified,
            charge_phone: charge,
            push_charge: charge && !f.offline && !f.warned,
        },
    )
}

/// The flags a ping answers with, in order.
pub open spec fn flag_names(o: PingOutcome) -> Seq<Seq<char>> {
    let left = if o.left_mid_shift is Some {
        seq!["left_mid_shift"@]
    } else {
        Seq::empty()
    };
    if o.suspicious {
        left.push("suspicious"@)
    } else {
        left
    }
}

/// The flags a ping answers with, in order.
pub fn ping_flags(o: &PingOutcome) -> (r: Vec<String>)
    ensures
        texts(r@) =~= flag_names(*o),
{
    let mut out: Vec<String> = Vec::new();
    if o.left_mid_shift.is_some() {
        out.push("left_mid_shift".to_owned());
    }
    if o.suspicious {
        out.push("suspicious".to_owned());
    }
    out
}

/// A ping inside the fence never says that the person left.
pub proof fn law_inside_never_leaves(f: PingFacts)
    requires
        f.inside,
    ensures
        !f.left(),
{
}

/// One ping outside is not enough: the one before it was outside too.
pub proof fn law_leaving_takes_two_pings(f: PingFacts)
    requires
        f.left(),
    ensures
        f.prior@.len() > 0 && !f.prior@[0],
{
}

/// Someone inside at every ping was away for no time.
pub proof fn law_always_inside_is_never_away(
    pings: Seq<(Moment, bool)>,
    now: Moment,
    excused: Seq<(Moment, Moment)>,
    since: Option<Moment>,
)
    requires
        forall|i: int| 0 <= i < pings.len() ==> (#[trigger] pings[i]).1,
    ensures
        away_seconds(pings, now, excused, since) == 0,
    decreases pings.len(),
{
    if pings.len() > 0 {
        law_always_inside_is_never_away(pings.drop_last(), now, excused, since);
        lemma_inside_is_not_out(pings.drop_last(), since);
        lemma_inside_is_not_out(pings, since);
        assert(pings.last().1);
    }
}

proof fn lemma_inside_is_not_out(pings: Seq<(Moment, bool)>, since: Option<Moment>)
    requires
        forall|i: int| 0 <= i < pings.len() ==> (#[trigger] pings[i]).1,
    ensures
        out_since(pings, since) is None,
    decreases pings.len(),
{
    if pings.len() > 0 {
        assert(pings.last().1);
        lemma_inside_is_not_out(pings.drop_last(), since);
    }
}

/// Once a flag is handled, the pings up to it count no more.
pub proof fn law_handled_pings_count_no_more(
    pings: Seq<(Moment, bool)>,
    now: Moment,
    excused: Seq<(Moment, Moment)>,
    since: Moment,
)
    requires
        forall|i: int| 0 <= i < pings.len() ==> (#[trigger] pings[i]).0 <= since,
    ensures
        away_seconds(pings, now, excused, Some(since)) == 0,
    decreases pings.len(),
{
    if pings.len() > 0 {
        law_handled_pings_count_no_more(pings.drop_last(), now, excused, since);
        assert(pings.last().0 <= since);
    }
}

/// An excuse over the whole of a stretch outside leaves nothing of it.
pub proof fn law_an_excused_stretch_counts_for_nothing(
    from: Moment,
    to: Moment,
    excused: Seq<(Moment, Moment)>,
    k: int,
)
    requires
        0 <= k < excused.len(),
        excused[k].0 <= from,
        to <= excused[k].1,
    ensures
        counted_seconds(from, to, excused) == 0,
{
    if from < to {
        assert forall|t: int| from <= t < to implies #[trigger] covers(excused, t) by {
            assert(excused[k].0 <= t < excused[k].1);
        }
        lemma_covered_grows(from as int, from as int, to as int, excused, true);
    }
}

/// Time that two windows share is taken off once: a window held by another
/// changes nothing.
pub proof fn law_shared_excuses_count_once(
    from: Moment,
    to: Moment,
    excused: Seq<(Moment, Moment)>,
    window: (Moment, Moment),
    k: int,
)
    requires
        0 <= k < excused.len(),
        excused[k].0 <= window.0,
        window.1 <= excused[k].1,
    ensures
        counted_seconds(from, to, excused.push(window)) == counted_seconds(from, to, excused),
{
    lemma_window_held(from as int, to as int, excused, window, k);
}

proof fn lemma_window_held(
    from: int,
    to: int,
    excused: Seq<(Moment, Moment)>,
    window: (Moment, Moment),
    k: int,
)
    requires
        0 <= k < excused.len(),
        excused[k].0 <= window.0,
        window.1 <= excused[k].1,
    ensures
        covered_time(from, to, excused.push(window)) == covered_time(from, to, excused),
    decreases to - from,
{
    if from < to {
        lemma_window_held(from, to - 1, excused, window, k);
        let t = to - 1;
        let more = excused.push(window);
        if covers(excused, t) {
            let i = choose|i: int| 0 <= i < excused.len() && (#[trigger] excused[i]).0 <= t < excused[i].1;
            assert(more[i] == excused[i]);
        }
        if covers(more, t) {
            let i = choose|i: int| 0 <= i < more.len() && (#[trigger] more[i]).0 <= t < more[i].1;
            if i < excused.len() {
                assert(excused[i] == more[i]);
            } else {
                assert(excused[k].0 <= t < excused[k].1);
            }
        }
    }
}

/// Someone outside at every ping is away from the first of them on.
pub proof fn law_outside_from_the_first_ping(
    pings: Seq<(Moment, bool)>,
    now: Moment,
    excused: Seq<(Moment, Moment)>,
    since: Option<Moment>,
)
    requires
        pings.len() > 0,
        forall|i: int|
            0 <= i < pings.len() ==> !(#[trigger] pings[i]).1 && (since is Some ==> pings[i].0
                > since->0),
    ensures
        out_since(pings, since) == Some(pings[0].0),
        away_seconds(pings, now, excused, since) == counted_seconds(pings[0].0, now, excused),
    decreases pings.len(),
{
    let short = pings.drop_last();
    assert(pings.last() == pings[pings.len() - 1]);
    if short.len() > 0 {
        assert forall|i: int| 0 <= i < short.len() implies !(#[trigger] short[i]).1 && (since
            is Some ==> short[i].0 > since->0) by {
            assert(short[i] == pings[i]);
        }
        law_outside_from_the_first_ping(short, now, excused, since);
    } else {
        assert(out_since(short, since) is None);
        assert(ended_seconds(short, excused, since) == 0);
    }
}

/// A ping back inside ends a stretch at its own time: from then on no more is
/// added, whenever it is asked.
pub proof fn law_a_ping_inside_ends_the_stretch(
    pings: Seq<(Moment, bool)>,
    at: Moment,
    now: Moment,
    excused: Seq<(Moment, Moment)>,
    since: Option<Moment>,
)
    requires
        since is Some ==> at > since->0,
    ensures
        away_seconds(pings.push((at, true)), now, excused, since) == away_seconds(
            pings,
            at,
            excused,
            since,
        ),
        out_since(pings.push((at, true)), since) is None,
{
    assert(pings.push((at, true)).drop_last() =~= pings);
}

/// Stretches add up: once a ping found them back inside, what comes after counts
/// on its own.
pub proof fn law_stretches_add_up(
    pings: Seq<(Moment, bool)>,
    more: Seq<(Moment, bool)>,
    now: Moment,
    excused: Seq<(Moment, Moment)>,
    since: Option<Moment>,
)
    requires
        out_since(pings, since) is None,
    ensures
        away_seconds(pings + more, now, excused, since) == away_seconds(pings, now, excused, since)
            + away_seconds(more, now, excused, since),
{
    lemma_stretches(pings, more, excused, since);
}

proof fn lemma_stretches(
    pings: Seq<(Moment, bool)>,
    more: Seq<(Moment, bool)>,
    excused: Seq<(Moment, Moment)>,
    since: Option<Moment>,
)
    requires
        out_since(pings, since) is None,
    ensures
        out_since(pings + more, since) == out_since(more, since),
        ended_seconds(pings + more, excused, since) == ended_seconds(pings, excused, since)
            + ended_seconds(more, excused, since),
    decreases more.len(),
{
    if more.len() > 0 {
        assert((pings + more).drop_last() =~= pings + more.drop_last());
        lemma_stretches(pings, more.drop_last(), excused, since);
    } else {
        assert(pings + more =~= pings);
    }
}

/// A stretch with no excuse counts its whole seconds.
pub proof fn law_an_unexcused_stretch_counts_in_full(from: Moment, to: Moment, n: int)
    requires
        n >= 0,
        n * 1_000_000_000 <= to - from < (n + 1) * 1_000_000_000,
    ensures
        counted_seconds(from, to, Seq::empty()) == n,
{
    lemma_covered_grows(from as int, from as int, to as int, Seq::empty(), false);
}

/// An excuse within a stretch takes off its own whole seconds, and one that only
/// begins after it or ends before it takes off none.
pub proof fn law_an_excuse_takes_off_its_own_time(
    from: Moment,
    to: Moment,
    window: (Moment, Moment),
    n: int,
    k: int,
)
    requires
        from <= window.0 <= window.1 <= to,
        n * 1_000_000_000 <= to - from < (n + 1) * 1_000_000_000,
        k * 1_000_000_000 <= window.1 - window.0 < (k + 1) * 1_000_000_000,
    ensures
        counted_seconds(from, to, seq![window]) == n - k,
        counted_seconds(from, window.0, seq![window]) == counted_seconds(
            from,
            window.0,
            Seq::empty(),
        ),
        counted_seconds(window.1, to, seq![window]) == counted_seconds(
            window.1,
            to,
            Seq::empty(),
        ),
{
    let w = seq![window];
    let a = from as int;
    let b = window.0 as int;
    let c = window.1 as int;
    let d = to as int;
    assert forall|t: int| b <= t < c implies #[trigger] covers(w, t) by {
        assert(w[0].0 <= t < w[0].1);
    }
    lemma_covered_grows(a, a, b, w, false);
    lemma_covered_grows(a, b, c, w, true);
    lemma_covered_grows(a, c, d, w, false);
    lemma_covered_grows(c, c, d, w, false);
    lemma_covered_grows(a, a, b, Seq::empty(), false);
    lemma_covered_grows(c, c, d, Seq::empty(), false);
}

/// The streak counts this ping and those outside before it, back to the newest
/// one inside.
pub proof fn law_a_streak_runs_back_to_the_last_inside(prior: Seq<bool>, n: int)
    requires
        0 <= n <= prior.len(),
        forall|i: int| 0 <= i < n ==> !#[trigger] prior[i],
        n < prior.len() ==> prior[n],
    ensures
        streak(prior) == n + 1,
    decreases n,
{
    if n > 0 {
        let rest = prior.skip(1);
        assert(!prior[0]);
        assert forall|i: int| 0 <= i < n - 1 implies !#[trigger] rest[i] by {
            assert(rest[i] == prior[i + 1]);
        }
        law_a_streak_runs_back_to_the_last_inside(rest, n - 1);
    }
}

/// Somebody left mid-shift who is outside at this ping and was at the one before
/// it, unless an excuse holds the time, give or take ten minutes.
pub proof fn law_leaving_is_two_pings_unexcused(f: PingFacts)
    ensures
        f.left() <==> {
            &&& !f.inside
            &&& f.prior@.len() > 0 && !f.prior@[0]
            &&& forall|i: int|
                0 <= i < f.excused@.len() ==> f.at < (#[trigger] f.excused@[i]).0 - 10
                    * 60_000_000_000 || f.excused@[i].1 + 10 * 60_000_000_000 < f.at
        },
{
    if f.prior@.len() > 0 && !f.prior@[0] {
        lemma_streak_is_one_at_least(f.prior@.skip(1));
    }
    if is_excused(f.excused@, f.at) {
        let i = choose|i: int| 0 <= i < f.excused@.len() && #[trigger] excuses(f.excused@[i], f.at);
        assert(!(f.at < f.excused@[i].0 - 10 * 60_000_000_000));
    } else {
        assert forall|i: int| 0 <= i < f.excused@.len() implies f.at < (#[trigger] f.excused@[i]).0
            - 10 * 60_000_000_000 || f.excused@[i].1 + 10 * 60_000_000_000 < f.at by {
            assert(!excuses(f.excused@[i], f.at));
        }
    }
}

proof fn lemma_streak_is_one_at_least(prior: Seq<bool>)
    ensures
        streak(prior) >= 1,
    decreases prior.len(),
{
    if prior.len() > 0 && !prior[0] {
        lemma_streak_is_one_at_least(prior.skip(1));
    }
}

/// The time away that is said is in whole minutes, and a quarter of an hour at
/// the least.
pub proof fn law_the_time_away_is_said_in_minutes(f: PingFacts, minutes: int)
    requires
        minutes >= 0,
        minutes <= i32::MAX,
        minutes * 60 <= away_seconds(f.trail@, f.at, f.excused@, f.since) < (minutes + 1) * 60,
    ensures
        f.minutes_away() == if minutes >= 15 {
            minutes
        } else {
            15
        },
{
}

/// A battery is low at fifteen percent or less; one that is not said is not.
pub proof fn law_a_battery_is_low_at_fifteen(f: PingFacts)
    ensures
        f.low_battery() <==> f.battery_percent is Some && f.battery_percent->0 <= 15,
{
}

/// A ping is taken of somebody clocked in, in an open month.
pub proof fn law_a_ping_is_of_an_open_record(f: PingFacts)
    ensures
        f.refused() is None <==> f.clocked_in && f.month_open is Ok,
{
}

/// A reading looks made up that the phone marks so, that is faster than anyone
/// goes, that says an impossible accuracy, that repeats the place of the two
/// before it, or that repeats a measured accuracy of the three before it; and
/// no other.
pub proof fn law_a_reading_looks_made_up(
    accuracy: Accuracy,
    is_mock: Option<bool>,
    too_fast: bool,
    prior: Seq<PriorPing>,
)
    ensures
        spoofed(accuracy, is_mock, too_fast, prior) <==> {
            ||| is_mock == Some(true)
            ||| too_fast
            ||| accuracy == Accuracy::Impossible
            ||| prior.len() >= 2 && prior[0].same_place && prior[1].same_place
            ||| accuracy == Accuracy::Measured && prior.len() >= 3 && prior[0].same_accuracy
                && prior[1].same_accuracy && prior[2].same_accuracy
        },
{
}

/// The flags said are those raised: leaving, then a reading that looks made up.
pub proof fn law_the_flags_said_are_those_raised(o: PingOutcome)
    ensures
        flag_names(o).contains("left_mid_shift"@) <==> o.left_mid_shift is Some,
        flag_names(o).contains("suspicious"@) <==> o.suspicious,
{
    reveal_strlit("left_mid_shift");
    reveal_strlit("suspicious");
    assert("left_mid_shift"@.len() != "suspicious"@.len());
    let names = flag_names(o);
    if o.left_mid_shift is Some {
        assert(names[0] == "left_mid_shift"@);
    }
    if o.suspicious {
        assert(names[names.len() - 1] == "suspicious"@);
    }
}

} // verus!
