//! Who is told of a published week and of a posted open shift.

use vstd::prelude::*;

use crate::calendar::{Day, Id};
use crate::dawam::presence::covers::has_id;

verus! {

/// What somebody is told.
#[derive(Debug, Clone, Copy, PartialEq, Eq, Structural)]
pub enum RosterNews {
    /// The week from this date on is published.
    WeekPublished,
    /// There is an open shift on this date to claim.
    OpenShift,
}

impl RosterNews {
    /// The notice's key.
    pub open spec fn key(self) -> Seq<char> {
        match self {
            RosterNews::WeekPublished => "staff.n_week_published"@,
            RosterNews::OpenShift => "staff.n_open_shift"@,
        }
    }

    /// The notice's key.
    pub fn as_str(&self) -> (r: &'static str)
        ensures
            r@ == self.key(),
    {
        match self {
            RosterNews::WeekPublished => "staff.n_week_published",
            RosterNews::OpenShift => "staff.n_open_shift",
        }
    }
}

/// One notice to one person.
#[derive(Debug, Clone, Copy, PartialEq, Eq, Structural)]
pub struct RosterNotice {
    pub employee_id: Id,
    pub news: RosterNews,
    pub date: Day,
}

/// One person's notices of open shifts.
pub open spec fn open_shift_notices(who: Id, dates: Seq<Day>) -> Seq<RosterNotice> {
    Seq::new(
        dates.len(),
        |i: int| RosterNotice { employee_id: who, news: RosterNews::OpenShift, date: dates[i] },
    )
}

/// What a branch's people are told once a week is published: that it is, and
/// each date with an open shift. Whoever publishes is not told to claim one.
pub open spec fn week_notices(
    staff: Seq<Id>,
    own: Seq<Id>,
    week: Day,
    dates: Seq<Day>,
) -> Seq<RosterNotice>
    decreases staff.len(),
{
    if staff.len() == 0 {
        Seq::empty()
    } else {
        let who = staff.last();
        let before = week_notices(staff.drop_last(), own, week, dates).push(
            RosterNotice { employee_id: who, news: RosterNews::WeekPublished, date: week },
        );
        if own.contains(who) {
            before
        } else {
            before + open_shift_notices(who, dates)
        }
    }
}

/// What a branch's people are told of an open shift in a published week.
/// Whoever posts it is not told to claim it.
pub open spec fn shift_notices(staff: Seq<Id>, own: Seq<Id>, date: Day) -> Seq<RosterNotice>
    decreases staff.len(),
{
    if staff.len() == 0 {
        Seq::empty()
    } else {
        let who = staff.last();
        let before = shift_notices(staff.drop_last(), own, date);
        if own.contains(who) {
            before
        } else {
            before.push(RosterNotice { employee_id: who, news: RosterNews::OpenShift, date })
        }
    }
}

/// The notices of publishing a week, when it was not published before. `own`
/// holds the publisher's own employee records.
pub fn announce_week(
    fresh: bool,
    staff: &Vec<Id>,
    own: &Vec<Id>,
    week: Day,
    dates: &Vec<Day>,
) -> (r: Vec<RosterNotice>)
    ensures
        r@ == if fresh {
            week_notices(staff@, own@, week, dates@)
        } else {
            Seq::empty()
        },
{
    let mut out: Vec<RosterNotice> = Vec::new();
    if !fresh {
        return out;
    }
    let mut i: usize = 0;
    while i < staff.len()
        invariant
            i <= staff@.len(),
            out@ == week_notices(staff@.take(i as int), own@, week, dates@),
        decreases staff@.len() - i,
    {
        assert(staff@.take(i + 1).drop_last() =~= staff@.take(i as int));
        let who: Id = staff[i];
        out.push(RosterNotice { employee_id: who, news: RosterNews::WeekPublished, date: week });
        if !has_id(own, who) {
            let ghost before = out@;
            let mut k: usize = 0;
            assert(before + open_shift_notices(who, dates@.take(0)) =~= before);
            while k < dates.len()
                invariant
                    k <= dates@.len(),
                    out@ == before + open_shift_notices(who, dates@.take(k as int)),
                decreases dates@.len() - k,
            {
                out.push(
                    RosterNotice { employee_id: who, news: RosterNews::OpenShift, date: dates[k] },
                );
                k += 1;
                assert(out@ =~= before + open_shift_notices(who, dates@.take(k as int)));
            }
            assert(dates@.take(dates@.len() as int) =~= dates@);
        }
        i += 1;
    }
    assert(staff@.take(staff@.len() as int) =~= staff@);
    out
}

/// The notices of posting an open shift: none while its week is a draft (the
/// week announces it when it is published). `own` holds the poster's own
/// employee records.
pub fn announce_open_shift(
    published: bool,
    staff: &Vec<Id>,
    own: &Vec<Id>,
    date: Day,
) -> (r: Vec<RosterNotice>)
    ensures
        r@ == if published {
            shift_notices(staff@, own@, date)
        } else {
            Seq::empty()
        },
{
    let mut out: Vec<RosterNotice> = Vec::new();
    if !published {
        return out;
    }
    let mut i: usize = 0;
    while i < staff.len()
        invariant
            i <= staff@.len(),
            out@ == shift_notices(staff@.take(i as int), own@, date),
        decreases staff@.len() - i,
    {
        assert(staff@.take(i + 1).drop_last() =~= staff@.take(i as int));
        let who: Id = staff[i];
        if !has_id(own, who) {
            out.push(RosterNotice { employee_id: who, news: RosterNews::OpenShift, date });
        }
        i += 1;
    }
    assert(staff@.take(staff@.len() as int) =~= staff@);
    out
}

/// Whoever publishes a week is not told to claim its open shifts; everybody else
/// of the branch is told of each, and all are told of the week.
pub proof fn law_the_publisher_is_not_asked_to_claim(
    staff: Seq<Id>,
    own: Seq<Id>,
    week: Day,
    dates: Seq<Day>,
    who: Id,
    date: Day,
)
    ensures
        ({
            let told = week_notices(staff, own, week, dates);
            &&& told.contains(
                RosterNotice { employee_id: who, news: RosterNews::OpenShift, date },
            ) <==> staff.contains(who) && !own.contains(who) && dates.contains(date)
            &&& told.contains(
                RosterNotice { employee_id: who, news: RosterNews::WeekPublished, date: week },
            ) <==> staff.contains(who)
        }),
    decreases staff.len(),
{
    broadcast use vstd::seq_lib::group_seq_properties;

    if staff.len() > 0 {
        let short = staff.drop_last();
        let last = staff.last();
        law_the_publisher_is_not_asked_to_claim(short, own, week, dates, who, date);
        assert(staff =~= short.push(last));
        assert(staff.contains(who) <==> short.contains(who) || who == last);
        let told = week_notices(short, own, week, dates);
        let open = RosterNotice { employee_id: who, news: RosterNews::OpenShift, date };
        let news = RosterNotice { employee_id: who, news: RosterNews::WeekPublished, date: week };
        let more = open_shift_notices(last, dates);
        assert(more.contains(open) <==> who == last && dates.contains(date)) by {
            if who == last && dates.contains(date) {
                let k = choose|k: int| 0 <= k < dates.len() && dates[k] == date;
                assert(more[k] == open);
            }
            if more.contains(open) {
                let k = choose|k: int| 0 <= k < more.len() && more[k] == open;
                assert(dates[k] == date);
            }
        }
        assert(!more.contains(news)) by {
            if more.contains(news) {
                let k = choose|k: int| 0 <= k < more.len() && more[k] == news;
                assert(more[k].news == RosterNews::OpenShift);
            }
        }
        let mine = RosterNotice { employee_id: last, news: RosterNews::WeekPublished, date: week };
        let before = told.push(mine);
        assert(before.contains(open) <==> told.contains(open));
        assert(before.contains(news) <==> told.contains(news) || who == last);
        let all = before + more;
        assert(all.contains(open) <==> before.contains(open) || more.contains(open));
        assert(all.contains(news) <==> before.contains(news) || more.contains(news));
    }
}

/// Whoever posts an open shift is not told to claim it; everybody else of the
/// branch is.
pub proof fn law_the_poster_is_not_asked_to_claim(
    staff: Seq<Id>,
    own: Seq<Id>,
    date: Day,
    who: Id,
)
    ensures
        shift_notices(staff, own, date).contains(
            RosterNotice { employee_id: who, news: RosterNews::OpenShift, date },
        ) <==> staff.contains(who) && !own.contains(who),
    decreases staff.len(),
{
    broadcast use vstd::seq_lib::group_seq_properties;

    if staff.len() > 0 {
        let short = staff.drop_last();
        let last = staff.last();
        law_the_poster_is_not_asked_to_claim(short, own, date, who);
        assert(staff =~= short.push(last));
        assert(staff.contains(who) <==> short.contains(who) || who == last);
    }
}

} // verus!
