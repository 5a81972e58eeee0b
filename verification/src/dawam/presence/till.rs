//! A punch on the branch till, from its gates to the record.

use vstd::prelude::*;

use crate::attendance::punches::{not_active, require_active_employee};
use crate::calendar::Id;
use crate::dawam::clock::Stamped;
use crate::dawam::presence::punches::{
    no_employee, pin_refused, punch, punch_made, punch_refused, till_employee, till_holder,
    till_punch, till_refused, PinMatch, PunchFacts, Punched, TillFacts,
};
use crate::errors::{either, AppError, ErrorView};

verus! {

/// How far a punch on the till has come.
#[derive(Debug, Clone, Copy, PartialEq, Eq, Structural)]
pub enum TillStep {
    /// The gates are to be read.
    Gates,
    /// The till is the branch's: the PIN is to be looked up.
    Pin,
    /// The PIN is one person's: their employment is to be read.
    Holder,
    /// An active employee: their record and shift are to be read.
    Employee(Id),
    /// The punch is to be stored, and the branch's managers told.
    Made(Id, Punched),
}

/// The till user whose PIN it is.
pub struct TillHolder {
    pub name: String,
    /// The employee they are, if they are one.
    pub employee: Option<Id>,
    /// That employee's business and employment, where there is a row of it.
    pub row: Option<(Id, String)>,
}

/// What was read at a step.
pub enum TillEvent {
    Gates(TillFacts),
    Pin(PinMatch),
    Holder(TillHolder),
    Punch(PunchFacts),
}

/// The event is the one the step waits for.
pub open spec fn in_turn(step: TillStep, event: TillEvent) -> bool {
    match event {
        TillEvent::Gates(_) => step == TillStep::Gates,
        TillEvent::Pin(_) => step == TillStep::Pin,
        TillEvent::Holder(_) => step == TillStep::Holder,
        TillEvent::Punch(f) => step is Employee && (f.shift matches Some(s) ==> s.valid()),
    }
}

/// The employment of an employee, where there is a row of it.
pub open spec fn employment(row: Option<(Id, String)>) -> Option<Seq<char>> {
    match row {
        Some((_, status)) => Some(status@),
        None => None,
    }
}

/// What a holder is refused for: they are no employee, or not an active one.
pub open spec fn holder_refused(h: TillHolder) -> Option<ErrorView> {
    match h.employee {
        None => Some(no_employee(h.name@)),
        Some(_) => not_active(employment(h.row)),
    }
}

/// The till is online: the time is the server's own, and nobody doubts it.
pub open spec fn made_now(f: PunchFacts) -> PunchFacts {
    PunchFacts { stamped: Stamped { offline: false, unverified: false, ..f.stamped }, ..f }
}

/// What the punch is refused for at a step, if anything.
pub open spec fn step_refused(event: TillEvent) -> Option<ErrorView> {
    match event {
        TillEvent::Gates(f) => till_refused(f),
        TillEvent::Pin(found) => pin_refused(found),
        TillEvent::Holder(h) => holder_refused(h),
        TillEvent::Punch(f) => punch_refused(made_now(f)),
    }
}

/// The step after one whose event refuses nothing.
pub open spec fn next_step(step: TillStep, event: TillEvent) -> TillStep {
    match event {
        TillEvent::Gates(_) => TillStep::Pin,
        TillEvent::Pin(_) => TillStep::Holder,
        TillEvent::Holder(h) => TillStep::Employee(h.employee->0),
        TillEvent::Punch(f) => TillStep::Made(step->Employee_0, punch_made(made_now(f))),
    }
}

/// Where an event leads.
pub struct TillTurn {
    /// The next step, or the refusal that ends the punch.
    pub next: Result<TillStep, AppError>,
    /// The PIN is nobody's: the till's wrong PINs are one more. A right PIN
    /// clears none of them.
    pub wrong_pin: bool,
}

/// Takes a punch on the till one step on: the gates, the PIN, the employee, then
/// in or out.
pub fn till_step(step: TillStep, event: TillEvent) -> (r: TillTurn)
    requires
        in_turn(step, event),
    ensures
        match step_refused(event) {
            Some(e) => r.next is Err && r.next->Err_0@ == e,
            None => r.next == Ok::<TillStep, AppError>(next_step(step, event)),
        },
        r.wrong_pin == (event matches TillEvent::Pin(found) && found == PinMatch::Nobody),
{
    let wrong_pin: bool = match &event {
        TillEvent::Pin(found) => matches!(*found, PinMatch::Nobody),
        _ => false,
    };
    TillTurn { next: take_step(step, event), wrong_pin }
}

fn take_step(step: TillStep, event: TillEvent) -> (r: Result<TillStep, AppError>)
    requires
        in_turn(step, event),
    ensures
        match step_refused(event) {
            Some(e) => r is Err && r->Err_0@ == e,
            None => r == Ok::<TillStep, AppError>(next_step(step, event)),
        },
{
    match event {
        TillEvent::Gates(f) => {
            till_punch(f)?;
            Ok(TillStep::Pin)
        },
        TillEvent::Pin(found) => {
            till_holder(found)?;
            Ok(TillStep::Holder)
        },
        TillEvent::Holder(h) => {
            let employee: Id = till_employee(h.employee, h.name.as_str())?;
            require_active_employee(h.row)?;
            Ok(TillStep::Employee(employee))
        },
        TillEvent::Punch(f) => {
            let at: Stamped = f.stamped;
            let facts: PunchFacts = PunchFacts {
                stamped: Stamped { at: at.at, offline: false, unverified: false },
                ..f
            };
            let made: Punched = punch(facts)?;
            match step {
                TillStep::Employee(employee) => Ok(TillStep::Made(employee, made)),
                _ => Ok(step),
            }
        },
    }
}

/// What a punch on the till comes to, from everything that is read for it.
pub open spec fn till_outcome(
    gates: TillFacts,
    found: PinMatch,
    holder: TillHolder,
    f: PunchFacts,
) -> Result<TillStep, ErrorView> {
    match either(
        till_refused(gates),
        either(pin_refused(found), either(holder_refused(holder), punch_refused(made_now(f)))),
    ) {
        Some(e) => Err(e),
        None => Ok(TillStep::Made(holder.employee->0, punch_made(made_now(f)))),
    }
}

/// The four steps one after another, the first refusal ending them.
pub open spec fn till_run(
    gates: TillFacts,
    found: PinMatch,
    holder: TillHolder,
    f: PunchFacts,
) -> Result<TillStep, ErrorView> {
    match step_refused(TillEvent::Gates(gates)) {
        Some(e) => Err(e),
        None => {
            let s = next_step(TillStep::Gates, TillEvent::Gates(gates));
            match step_refused(TillEvent::Pin(found)) {
                Some(e) => Err(e),
                None => {
                    let s = next_step(s, TillEvent::Pin(found));
                    match step_refused(TillEvent::Holder(holder)) {
                        Some(e) => Err(e),
                        None => {
                            let s = next_step(s, TillEvent::Holder(holder));
                            match step_refused(TillEvent::Punch(f)) {
                                Some(e) => Err(e),
                                None => Ok(next_step(s, TillEvent::Punch(f))),
                            }
                        },
                    }
                },
            }
        },
    }
}

/// The steps of a till punch come to its outcome: the till's gates, then the
/// PIN, then an active employee, then in or out.
pub proof fn law_the_steps_come_to_the_outcome(
    gates: TillFacts,
    found: PinMatch,
    holder: TillHolder,
    f: PunchFacts,
)
    ensures
        till_run(gates, found, holder, f) == till_outcome(gates, found, holder, f),
{
}

/// A punch made on the till is an active employee's, whose PIN is theirs alone,
/// on the branch's own till, and never of a doubtful time.
pub proof fn law_a_till_punch_passed_every_gate(
    gates: TillFacts,
    found: PinMatch,
    holder: TillHolder,
    f: PunchFacts,
    employee: Id,
    made: Punched,
)
    requires
        till_run(gates, found, holder, f) == Ok::<TillStep, ErrorView>(
            TillStep::Made(employee, made),
        ),
    ensures
        till_refused(gates) is None,
        found == PinMatch::One,
        holder.employee == Some(employee),
        employment(holder.row) == Some("active"@),
        punch_refused(made_now(f)) is None,
        made.at == f.stamped.at,
        !made.time_unverified,
{
}

/// A punch is made on the till exactly where every gate is passed: the till's,
/// the PIN's, an active employee's and the punch's own.
pub proof fn law_who_punches_on_the_till(
    gates: TillFacts,
    found: PinMatch,
    holder: TillHolder,
    f: PunchFacts,
)
    ensures
        till_run(gates, found, holder, f) is Ok <==> {
            &&& till_refused(gates) is None
            &&& found == PinMatch::One
            &&& holder.employee is Some
            &&& holder.row is Some && (holder.row->0).1@ == "active"@
            &&& punch_refused(made_now(f)) is None
        },
{
}

} // verus!
