//! Records made, corrected and deleted by hand.

use vstd::prelude::*;

use crate::attendance::derive::{AttendanceStatus, Derived};
use crate::calendar::{Id, Moment};
use crate::errors::{
    bad_request, conflict, either, forbidden, given, not_found, refusal, AppError, ErrorView,
};
use crate::text::{blank_to_none, maybe, same_text, trim, trimmed, unblank};

verus! {

/// A day recorded by hand.
pub struct ManualRecordRequest {
    pub check_in_at: Option<Moment>,
    pub check_out_at: Option<Moment>,
    pub notes: Option<String>,
    /// Why; required.
    pub reason: String,
}

/// What is known when a day is recorded by hand.
pub struct ManualFacts {
    /// The caller may record attendance somewhere.
    pub gate: Result<(), AppError>,
    /// The caller may record attendance at the branch.
    pub right: Result<(), AppError>,
    /// The employee is one of the business.
    pub employee: Result<(), AppError>,
    /// The month of the day is still open.
    pub month_open: Result<(), AppError>,
    pub org_id: Id,
    /// The org of the branch.
    pub branch_org: Result<Id, AppError>,
    /// What the stamps imply.
    pub derived: Derived,
    /// The status set by hand, if one was: the only way to record an absence or
    /// a leave day, which have no stamps.
    pub status: Option<Result<AttendanceStatus, AppError>>,
}

/// The row a day recorded by hand becomes.
#[derive(Debug, Clone, PartialEq, Eq)]
pub struct ManualRecord {
    pub figures: Derived,
    /// The status was set by hand, and sticks.
    pub status_overridden: bool,
    pub notes: Option<String>,
    pub reason: String,
}

/// A check-out before its check-in.
pub open spec fn reversed(check_in_at: Option<Moment>, check_out_at: Option<Moment>) -> bool {
    check_in_at is Some && check_out_at is Some && check_out_at->0 < check_in_at->0
}

/// What the stamps of a day are refused for, if anything.
pub open spec fn stamps_refused(
    check_in_at: Option<Moment>,
    check_out_at: Option<Moment>,
) -> Option<ErrorView> {
    given(
        reversed(check_in_at, check_out_at),
        ErrorView::BadRequest("Check-out is before check-in"@),
    )
}

fn check_stamps(check_in_at: Option<Moment>, check_out_at: Option<Moment>) -> (r: Result<
    (),
    AppError,
>)
    ensures
        refusal(r) == stamps_refused(check_in_at, check_out_at),
{
    if let Some(i) = check_in_at {
        if let Some(o) = check_out_at {
            if o < i {
                return Err(bad_request("Check-out is before check-in"));
            }
        }
    }
    Ok(())
}

/// What recording a day by hand is refused for, if anything.
pub open spec fn manual_refused(f: ManualFacts, body: ManualRecordRequest) -> Option<ErrorView> {
    either(
        refusal(f.gate),
        either(
            refusal(f.right),
            either(
                refusal(f.employee),
                either(
                    refusal(f.month_open),
                    either(
                        given(
                            trimmed(body.reason@).len() == 0,
                            ErrorView::BadRequest("A manual attendance record needs a reason"@),
                        ),
                        either(
                            stamps_refused(body.check_in_at, body.check_out_at),
                            either(
                                given(
                                    body.check_out_at is Some && body.check_in_at is None,
                                    ErrorView::BadRequest("A check-out needs a check-in"@),
                                ),
                                match f.branch_org {
                                    Err(e) => Some(e@),
                                    Ok(org) => if org != f.org_id {
                                        Some(
                                            ErrorView::Forbidden(
                                                "That branch belongs to a different organization"@,
                                            ),
                                        )
                                    } else {
                                        match f.status {
                                            Some(Err(e)) => Some(e@),
                                            _ => None,
                                        }
                                    },
                                },
                            ),
                        ),
                    ),
                ),
            ),
        ),
    )
}

/// The figures a day is stored with: the derived ones, with the status set by
/// hand where one was.
pub open spec fn with_status(d: Derived, status: AttendanceStatus) -> Derived {
    Derived {
        late_minutes: d.late_minutes,
        early_leave_minutes: d.early_leave_minutes,
        overtime_minutes: d.overtime_minutes,
        worked_minutes: d.worked_minutes,
        status,
    }
}

fn set_status(d: Derived, status: AttendanceStatus) -> (r: Derived)
    ensures
        r == with_status(d, status),
{
    Derived {
        late_minutes: d.late_minutes,
        early_leave_minutes: d.early_leave_minutes,
        overtime_minutes: d.overtime_minutes,
        worked_minutes: d.worked_minutes,
        status,
    }
}

/// A day recorded by hand: with a reason, stamps in order, at a branch of the
/// business, in an open month.
pub fn create_manual_record(f: ManualFacts, body: &ManualRecordRequest) -> (r: Result<
    ManualRecord,
    AppError,
>)
    ensures
        match manual_refused(f, *body) {
            Some(e) => r is Err && r->Err_0@ == e,
            None => {
                &&& r is Ok
                &&& (r->Ok_0).figures == match f.status {
                    Some(s) => with_status(f.derived, s->Ok_0),
                    None => f.derived,
                }
                &&& (r->Ok_0).status_overridden == (f.status is Some)
                &&& maybe((r->Ok_0).notes) == unblank(maybe(body.notes))
                &&& (r->Ok_0).reason@ == trimmed(body.reason@)
            },
        },
{
    f.gate?;
    f.right?;
    f.employee?;
    f.month_open?;
    let reason: String = trim(body.reason.as_str());
    if reason.as_str().is_empty() {
        return Err(bad_request("A manual attendance record needs a reason"));
    }
    check_stamps(body.check_in_at, body.check_out_at)?;
    if body.check_out_at.is_some() && body.check_in_at.is_none() {
        return Err(bad_request("A check-out needs a check-in"));
    }
    let branch_org: Id = f.branch_org?;
    if branch_org != f.org_id {
        return Err(forbidden("That branch belongs to a different organization"));
    }
    let status_overridden: bool = f.status.is_some();
    let figures: Derived = match f.status {
        Some(s) => set_status(f.derived, s?),
        None => f.derived,
    };
    Ok(ManualRecord { figures, status_overridden, notes: blank_to_none(&body.notes), reason })
}

/// One record a day and shift: a second is a correction.
pub fn recorded_once(inserted: bool) -> (r: Result<(), AppError>)
    ensures
        refusal(r) == given(
            !inserted,
            ErrorView::Conflict(
                "This employee already has a record for that day and shift — correct it instead"@,
            ),
        ),
{
    if inserted {
        Ok(())
    } else {
        Err(
            conflict(
                "This employee already has a record for that day and shift — correct it instead",
            ),
        )
    }
}

/// What is known when a record is to be corrected or deleted.
pub struct RecordFacts {
    /// The caller may do that somewhere.
    pub gate: Result<(), AppError>,
    /// The record is there.
    pub found: bool,
    /// The caller may do that at the record's branch.
    pub right: Result<(), AppError>,
    /// The month of the day is still open.
    pub month_open: Result<(), AppError>,
}

/// What reaching for a record is refused for, if anything.
pub open spec fn record_refused(f: RecordFacts) -> Option<ErrorView> {
    either(
        refusal(f.gate),
        either(
            given(!f.found, ErrorView::NotFound("Attendance record not found"@)),
            refusal(f.right),
        ),
    )
}

/// A correction has a reason, and the month is open. Answers with the reason.
pub fn correct_record(f: RecordFacts, reason: &str) -> (r: Result<String, AppError>)
    ensures
        match either(
            record_refused(f),
            either(
                given(
                    trimmed(reason@).len() == 0,
                    ErrorView::BadRequest("A correction needs a reason"@),
                ),
                refusal(f.month_open),
            ),
        ) {
            Some(e) => r is Err && r->Err_0@ == e,
            None => r is Ok && (r->Ok_0)@ == trimmed(reason@),
        },
{
    f.gate?;
    if !f.found {
        return Err(not_found("Attendance record not found"));
    }
    f.right?;
    let said: String = trim(reason);
    if said.as_str().is_empty() {
        return Err(bad_request("A correction needs a reason"));
    }
    f.month_open?;
    Ok(said)
}

/// Why a record goes.
pub struct DeleteRecordQuery {
    /// Kept with the mark that keeps the absence sweep off the day.
    pub reason: Option<String>,
}

/// What deleting a record leaves: the mark that keeps the absence sweep from
/// writing the day back. A cover is nobody's absence and leaves none.
#[derive(Debug, Clone, PartialEq, Eq)]
pub struct Tombstone {
    pub reason: Option<String>,
}

/// A record is deleted in an open month; the absence sweep never writes back a
/// day a manager deleted.
pub fn delete_record(f: RecordFacts, cover: bool, query: &DeleteRecordQuery) -> (r: Result<
    Option<Tombstone>,
    AppError,
>)
    ensures
        match either(record_refused(f), refusal(f.month_open)) {
            Some(e) => r is Err && r->Err_0@ == e,
            None => {
                &&& r is Ok
                &&& (r->Ok_0) is Some <==> !cover
                &&& r->Ok_0 matches Some(t) ==> maybe(t.reason) == unblank(maybe(query.reason))
            },
        },
{
    f.gate?;
    if !f.found {
        return Err(not_found("Attendance record not found"));
    }
    f.right?;
    f.month_open?;
    if cover {
        Ok(None)
    } else {
        Ok(Some(Tombstone { reason: blank_to_none(&query.reason) }))
    }
}

/// The status someone asks for when a record is derived again.
pub enum StatusOverride {
    /// Nobody asks.
    Unasked,
    /// The day is handed back to the rules.
    Derived,
    /// A status set by hand, if there is such a status.
    ByHand(Result<AttendanceStatus, AppError>),
}

/// What a word asks for: nobody's word, the rules' own, or a status by its name.
pub open spec fn word_asks(
    word: Option<Seq<char>>,
    named: Result<AttendanceStatus, AppError>,
) -> StatusOverride {
    match word {
        None => StatusOverride::Unasked,
        Some(w) => if w == "derived"@ {
            StatusOverride::Derived
        } else {
            StatusOverride::ByHand(named)
        },
    }
}

/// What a word asks for when a record is derived again; `named` is the status of
/// that name, if there is one.
pub fn status_asked(word: &Option<String>, named: Result<AttendanceStatus, AppError>) -> (r:
    StatusOverride)
    ensures
        r == word_asks(maybe(*word), named),
{
    match word {
        None => StatusOverride::Unasked,
        Some(w) => if same_text(w.as_str(), "derived") {
            StatusOverride::Derived
        } else {
            StatusOverride::ByHand(named)
        },
    }
}

/// A record as it stands.
pub struct StoredRecord {
    pub check_in_at: Option<Moment>,
    pub check_out_at: Option<Moment>,
    /// Its status, if it is one.
    pub status: Result<AttendanceStatus, AppError>,
    /// Its status was set by hand.
    pub status_overridden: bool,
}

/// A time moved, or else the one that stands.
pub open spec fn moved(to: Option<Moment>, was: Option<Moment>) -> Option<Moment> {
    match to {
        Some(t) => Some(t),
        None => was,
    }
}

/// The times a record is derived from again.
pub fn corrected_stamps(
    existing: &StoredRecord,
    check_in_at: Option<Moment>,
    check_out_at: Option<Moment>,
) -> (r: Result<(Option<Moment>, Option<Moment>), AppError>)
    ensures
        ({
            let i = moved(check_in_at, existing.check_in_at);
            let o = moved(check_out_at, existing.check_out_at);
            match stamps_refused(i, o) {
                Some(e) => r is Err && r->Err_0@ == e,
                None => r == Ok::<(Option<Moment>, Option<Moment>), AppError>((i, o)),
            }
        }),
{
    let i: Option<Moment> = match check_in_at {
        Some(t) => Some(t),
        None => existing.check_in_at,
    };
    let o: Option<Moment> = match check_out_at {
        Some(t) => Some(t),
        None => existing.check_out_at,
    };
    check_stamps(i, o)?;
    Ok((i, o))
}

/// The status a record has after it is derived again, and whether it stays one
/// set by hand. A status set by hand sticks until someone hands the day back to
/// the rules.
pub open spec fn restated(
    existing: StoredRecord,
    ask: StatusOverride,
    derived: AttendanceStatus,
) -> Result<(AttendanceStatus, bool), ErrorView> {
    match ask {
        StatusOverride::Derived => Ok((derived, false)),
        StatusOverride::ByHand(Ok(s)) => Ok((s, true)),
        StatusOverride::ByHand(Err(e)) => Err(e@),
        StatusOverride::Unasked => if existing.status_overridden {
            match existing.status {
                Ok(s) => Ok((s, true)),
                Err(e) => Err(e@),
            }
        } else {
            Ok((derived, false))
        },
    }
}

/// Derive a record again: its figures from the stamps, its status by hand where
/// one was set.
pub fn rederive(existing: StoredRecord, ask: StatusOverride, derived: Derived) -> (r: Result<
    (Derived, bool),
    AppError,
>)
    ensures
        match restated(existing, ask, derived.status) {
            Ok((s, overridden)) => r == Ok::<(Derived, bool), AppError>(
                (with_status(derived, s), overridden),
            ),
            Err(e) => r is Err && r->Err_0@ == e,
        },
{
    match ask {
        StatusOverride::Derived => Ok((derived, false)),
        StatusOverride::ByHand(s) => Ok((set_status(derived, s?), true)),
        StatusOverride::Unasked => {
            if existing.status_overridden {
                Ok((set_status(derived, existing.status?), true))
            } else {
                Ok((derived, false))
            }
        },
    }
}

/// Who last edited a record by hand, why, and the note on it.
pub struct Audit {
    pub notes: Option<String>,
    pub edit_reason: Option<String>,
    pub edited_by: Option<Id>,
}

/// An audit as it is stored.
pub struct AuditView {
    pub notes: Option<Seq<char>>,
    pub edit_reason: Option<Seq<char>>,
    pub edited_by: Option<Id>,
}

impl View for Audit {
    type V = AuditView;

    open spec fn view(&self) -> AuditView {
        AuditView {
            notes: maybe(self.notes),
            edit_reason: maybe(self.edit_reason),
            edited_by: self.edited_by,
        }
    }
}

/// A person's edit of a record.
pub struct Edit {
    pub notes: Option<String>,
    pub reason: String,
    pub editor: Option<Id>,
}

/// The audit of a record after it is derived again: a person's edit puts down
/// their reason and who they are, and their note where they left one; automation
/// touches nothing.
pub open spec fn audited(was: AuditView, edit: Option<Edit>) -> AuditView {
    match edit {
        Some(e) => AuditView {
            notes: match unblank(maybe(e.notes)) {
                Some(n) => Some(n),
                None => was.notes,
            },
            edit_reason: Some(e.reason@),
            edited_by: e.editor,
        },
        None => was,
    }
}

/// The audit of a record after it is derived again, by a person or by
/// automation.
pub fn audit_after(was: Audit, edit: Option<Edit>) -> (r: Audit)
    ensures
        r@ == audited(was@, edit),
{
    match edit {
        Some(e) => {
            let notes: Option<String> = match blank_to_none(&e.notes) {
                Some(n) => Some(n),
                None => was.notes,
            };
            Audit { notes, edit_reason: Some(e.reason), edited_by: e.editor }
        },
        None => was,
    }
}

/// An automatic derivation never touches the note, the reason or the editor.
pub proof fn law_automation_leaves_the_audit_alone(was: AuditView)
    ensures
        audited(was, None) == was,
{
}

/// After a person's edit, every automatic derivation still names them and their
/// reason.
pub proof fn law_the_last_editor_stays(was: AuditView, e: Edit)
    ensures
        audited(audited(was, Some(e)), None).edit_reason == Some(e.reason@),
        audited(audited(was, Some(e)), None).edited_by == e.editor,
        audited(audited(was, Some(e)), Some(e)) == audited(was, Some(e)),
{
}

/// How a punch was made, once a record is derived again: a time that someone
/// moved is marked with how they did; any other keeps its mark, or gets
/// `manual` where it has a time and none.
pub open spec fn remarked(
    now: Option<Moment>,
    was: Option<Moment>,
    mark: Option<Seq<char>>,
    method: Option<Seq<char>>,
) -> Option<Seq<char>> {
    if method is Some && now is Some && now != was {
        method
    } else {
        match mark {
            Some(m) => Some(m),
            None => if now is Some {
                Some("manual"@)
            } else {
                None
            },
        }
    }
}

pub fn punch_method(
    now: Option<Moment>,
    was: Option<Moment>,
    mark: &Option<String>,
    method: &Option<String>,
) -> (r: Option<String>)
    ensures
        maybe(r) == remarked(now, was, maybe(*mark), maybe(*method)),
{
    let kept: Option<String> = match mark {
        Some(m) => Some(m.as_str().to_owned()),
        None => if now.is_some() {
            Some("manual".to_owned())
        } else {
            None
        },
    };
    let differs: bool = match now {
        Some(t) => match was {
            Some(w) => t != w,
            None => true,
        },
        None => false,
    };
    match method {
        Some(m) => if differs {
            Some(m.as_str().to_owned())
        } else {
            kept
        },
        None => kept,
    }
}

/// Deriving a record again automatically keeps the status someone set by hand.
pub proof fn law_a_status_set_by_hand_sticks(
    existing: StoredRecord,
    derived: AttendanceStatus,
    s: AttendanceStatus,
)
    requires
        existing.status_overridden,
        existing.status == Ok::<AttendanceStatus, AppError>(s),
    ensures
        restated(existing, StatusOverride::Unasked, derived) == Ok::<
            (AttendanceStatus, bool),
            ErrorView,
        >((s, true)),
{
}

/// Applying the same correction twice writes the same times, marks and status.
pub proof fn law_correcting_twice_is_correcting_once(
    to: Option<Moment>,
    was: Option<Moment>,
    mark: Option<Seq<char>>,
    method: Option<Seq<char>>,
    existing: StoredRecord,
    after: StoredRecord,
    ask: StatusOverride,
    derived: AttendanceStatus,
)
    requires
        restated(existing, ask, derived) is Ok,
        after.status == Ok::<AttendanceStatus, AppError>(
            (restated(existing, ask, derived)->Ok_0).0,
        ),
        after.status_overridden == (restated(existing, ask, derived)->Ok_0).1,
    ensures
        ({
            let once = moved(to, was);
            let marked = remarked(once, was, mark, method);
            &&& moved(to, once) == once
            &&& remarked(moved(to, once), once, marked, method) == marked
        }),
        restated(after, ask, derived) == restated(existing, ask, derived),
{
}

/// The attendance of an approved month is frozen: no record is entered there,
/// corrected or deleted.
pub proof fn law_an_approved_months_records_stay(
    new: ManualFacts,
    body: ManualRecordRequest,
    old_record: RecordFacts,
)
    requires
        new.month_open is Err,
        old_record.month_open is Err,
    ensures
        manual_refused(new, body) is Some,
        either(record_refused(old_record), refusal(old_record.month_open)) is Some,
{
}

/// Stamps are refused exactly where somebody leaves before they come.
pub proof fn law_nobody_leaves_before_they_come(
    check_in_at: Option<Moment>,
    check_out_at: Option<Moment>,
)
    ensures
        stamps_refused(check_in_at, check_out_at) is None <==> (check_in_at is Some && check_out_at
            is Some ==> check_in_at->0 <= check_out_at->0),
{
}

/// A day is recorded by hand by who may there, for an employee, in an open month,
/// with a reason, at a branch of the business, with stamps in order, no check-out
/// alone, and a status there is.
pub proof fn law_which_day_may_be_recorded(f: ManualFacts, body: ManualRecordRequest)
    ensures
        manual_refused(f, body) is None <==> {
            &&& f.gate is Ok
            &&& f.right is Ok
            &&& f.employee is Ok
            &&& f.month_open is Ok
            &&& trimmed(body.reason@).len() > 0
            &&& body.check_out_at is Some ==> body.check_in_at is Some && body.check_in_at->0
                <= body.check_out_at->0
            &&& f.branch_org is Ok
            &&& f.branch_org->Ok_0 == f.org_id
            &&& f.status is Some ==> f.status->0 is Ok
        },
{
}

/// A status set by hand changes the status alone.
pub proof fn law_a_status_set_by_hand_leaves_the_figures(d: Derived, status: AttendanceStatus)
    ensures
        with_status(d, status).status == status,
        with_status(d, status).late_minutes == d.late_minutes,
        with_status(d, status).early_leave_minutes == d.early_leave_minutes,
        with_status(d, status).overtime_minutes == d.overtime_minutes,
        with_status(d, status).worked_minutes == d.worked_minutes,
{
}

/// A record is reached for by who may, where it is there.
pub proof fn law_who_reaches_a_record(f: RecordFacts)
    ensures
        record_refused(f) is None <==> f.gate is Ok && f.found && f.right is Ok,
{
}

/// The word `derived` hands a day back to the rules, whatever stood there, and any
/// other sets a status that sticks; without one, what was not set by hand follows
/// the rules.
pub proof fn law_a_word_sets_the_status(
    existing: StoredRecord,
    word: Option<Seq<char>>,
    s: AttendanceStatus,
    derived: AttendanceStatus,
)
    ensures
        word == Some("derived"@) ==> restated(
            existing,
            word_asks(word, Ok(s)),
            derived,
        ) == Ok::<(AttendanceStatus, bool), ErrorView>((derived, false)),
        word is Some && word != Some("derived"@) ==> restated(
            existing,
            word_asks(word, Ok(s)),
            derived,
        ) == Ok::<(AttendanceStatus, bool), ErrorView>((s, true)),
        word is None && !existing.status_overridden ==> restated(
            existing,
            word_asks(word, Ok(s)),
            derived,
        ) == Ok::<(AttendanceStatus, bool), ErrorView>((derived, false)),
{
}

/// A time that is moved is the new one, and one that is not stays.
pub proof fn law_a_time_not_moved_stays(to: Option<Moment>, was: Option<Moment>)
    ensures
        to is Some ==> moved(to, was) == to,
        to is None ==> moved(to, was) == was,
{
}

/// A person's edit leaves their reason and their name, and their note where they
/// wrote one; an empty note keeps the one there.
pub proof fn law_an_edit_is_signed(was: AuditView, e: Edit)
    ensures
        audited(was, Some(e)).edit_reason == Some(e.reason@),
        audited(was, Some(e)).edited_by == e.editor,
        unblank(maybe(e.notes)) is Some ==> audited(was, Some(e)).notes == unblank(maybe(e.notes)),
        unblank(maybe(e.notes)) is None ==> audited(was, Some(e)).notes == was.notes,
{
}

/// A punch keeps its mark until its time is moved by somebody; one with a time
/// always has a mark.
pub proof fn law_a_moved_punch_is_marked(
    now: Option<Moment>,
    was: Option<Moment>,
    mark: Option<Seq<char>>,
    method: Option<Seq<char>>,
)
    ensures
        now == was && mark is Some ==> remarked(now, was, mark, method) == mark,
        now is Some && now != was && method is Some ==> remarked(now, was, mark, method) == method,
        method is None && mark is Some ==> remarked(now, was, mark, method) == mark,
        now is Some ==> remarked(now, was, mark, method) is Some,
        now is Some && mark is None && (method is None || now == was) ==> remarked(
            now,
            was,
            mark,
            method,
        ) == Some("manual"@),
        now is None && mark is None ==> remarked(now, was, mark, method) is None,
{
}

/// What recording a day by hand is refused for first.
pub proof fn law_how_recording_a_day_is_refused(f: ManualFacts, body: ManualRecordRequest)
    ensures
        ({
            manual_refused(f, body) == if f.gate is Err {
                Some(f.gate->Err_0@)
            } else if f.right is Err {
                Some(f.right->Err_0@)
            } else if f.employee is Err {
                Some(f.employee->Err_0@)
            } else if f.month_open is Err {
                Some(f.month_open->Err_0@)
            } else if trimmed(body.reason@).len() == 0 {
                Some(ErrorView::BadRequest("A manual attendance record needs a reason"@))
            } else if body.check_in_at is Some && body.check_out_at is Some
                && body.check_in_at->0 > body.check_out_at->0 {
                Some(ErrorView::BadRequest("Check-out is before check-in"@))
            } else if body.check_out_at is Some && body.check_in_at is None {
                Some(ErrorView::BadRequest("A check-out needs a check-in"@))
            } else if f.branch_org is Err {
                Some(f.branch_org->Err_0@)
            } else if f.branch_org->Ok_0 != f.org_id {
                Some(ErrorView::Forbidden("That branch belongs to a different organization"@))
            } else if f.status is Some && f.status->0 is Err {
                Some(f.status->0->Err_0@)
            } else {
                None
            }
        }),
{
}

/// What reaching for a record is refused for first.
pub proof fn law_how_reaching_a_record_is_refused(f: RecordFacts)
    ensures
        ({
            record_refused(f) == if f.gate is Err {
                Some(f.gate->Err_0@)
            } else if !f.found {
                Some(ErrorView::NotFound("Attendance record not found"@))
            } else if f.right is Err {
                Some(f.right->Err_0@)
            } else {
                None
            }
        }),
{
}

} // verus!
