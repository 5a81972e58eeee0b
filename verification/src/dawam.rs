//! What the staff app needs: the roster week, clocking, presence, pay and
//! suggestions.

pub mod clock;
pub mod context;
pub mod engine;
pub mod holidays;
pub mod pay;
pub mod presence;
pub mod privacy;
pub mod reports;
pub mod roster;
pub mod signin;
pub mod suggest;

use vstd::prelude::*;

use crate::calendar::{day_of_week, Day, Id, MAX_DAY, MIN_DAY};
use crate::text::{same_text, trim, trimmed};

verus! {

/// A date whose roster week the calendar holds.
pub open spec fn roster_day(d: Day) -> bool {
    MIN_DAY + 6 <= d <= MAX_DAY
}

/// The Saturday on or before a date.
pub open spec fn saturday_of(d: Day) -> int {
    d - (d as int + 1) % 7
}

/// A roster week starts on Saturday.
pub fn week_start(d: Day) -> (r: Day)
    requires
        roster_day(d),
    ensures
        r == saturday_of(d),
{
    let back: u32 = (day_of_week(d) + 1) % 7;  // Sat=0 … Fri=6
    d - back as i32
}

/// The week of a date starts on a Saturday no more than six days before it.
pub proof fn law_week_starts_on_saturday(d: Day)
    requires
        roster_day(d),
    ensures
        saturday_of(d) % 7 == 6,
        saturday_of(d) <= d < saturday_of(d) + 7,
{
}

/// Two dates share a week exactly when one Saturday-to-Friday run holds both.
pub proof fn law_week_is_shared(a: Day, b: Day)
    requires
        roster_day(a),
        roster_day(b),
    ensures
        saturday_of(a) == saturday_of(b) <==> saturday_of(a) <= b < saturday_of(a) + 7,
{
}

/// The phone a person's notifications go to.
pub struct PushToken {
    /// The registration token; empty turns pushes off for this phone.
    pub token: String,
    /// `ar` or `en`.
    pub locale: Option<String>,
}

/// What a sent push token asks for.
#[derive(Debug, Clone, PartialEq, Eq)]
pub enum PushAction {
    /// No pushes for this phone any more.
    Revoke,
    /// Pushes to `token`, in English or else in Arabic.
    Register { token: String, english: bool },
}

/// A blank token turns pushes off; any other is registered without the white
/// space around it, in English where English was asked for.
pub fn set_push_token(body: &PushToken) -> (r: PushAction)
    ensures
        r is Revoke <==> trimmed(body.token@).len() == 0,
        r matches PushAction::Register { token, english } ==> {
            &&& token@ == trimmed(body.token@)
            &&& english <==> body.locale is Some && body.locale->0@ == "en"@
        },
{
    let english: bool = match &body.locale {
        Some(l) => same_text(l.as_str(), "en"),
        None => false,
    };
    let token: String = trim(body.token.as_str());
    if token.as_str().is_empty() {
        PushAction::Revoke
    } else {
        PushAction::Register { token, english }
    }
}

/// The people told, in order: everyone but the one left out.
pub open spec fn told(ids: Seq<Id>, except: Option<Id>) -> Seq<Id> {
    ids.filter(|id: Id| Some(id) != except)
}

/// Who among the managers is told of an act: everyone but the one who did it.
pub fn notify_managers(ids: &Vec<Id>, except: Option<Id>) -> (r: Vec<Id>)
    ensures
        r@ == told(ids@, except),
{
    let mut out: Vec<Id> = Vec::new();
    let mut i: usize = 0;
    while i < ids.len()
        invariant
            i <= ids@.len(),
            out@ == told(ids@.take(i as int), except),
        decreases ids@.len() - i,
    {
        let keep: bool = match except {
            Some(e) => ids[i] != e,
            None => true,
        };
        proof {
            let f = |id: Id| Some(id) != except;
            assert(ids@.take(i + 1) =~= ids@.take(i as int).push(ids@[i as int]));
            reveal(Seq::filter);
            assert(ids@.take(i + 1).drop_last() =~= ids@.take(i as int));
            assert(keep == f(ids@[i as int]));
        }
        if keep {
            out.push(ids[i]);
        }
        i += 1;
    }
    assert(ids@.take(ids@.len() as int) =~= ids@);
    out
}

/// Everybody is told but the one left out, in order.
pub proof fn law_everybody_else_is_told(ids: Seq<Id>, x: Id, except: Option<Id>)
    ensures
        told(ids.push(x), except) == if except == Some(x) {
            told(ids, except)
        } else {
            told(ids, except).push(x)
        },
        told(Seq::empty(), except).len() == 0,
{
    reveal(Seq::filter);
    assert(ids.push(x).drop_last() =~= ids);
}

} // verus!
