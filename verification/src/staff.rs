//! Checks every staff request goes through.

use vstd::prelude::*;

use crate::calendar::{Day, Id};
use crate::errors::{bad_request, forbidden, not_found, outcome, unless, AppError, ErrorView};
use crate::text::{int_chars, int_text, join3, same_text};

verus! {

/// The organisation a staff query is scoped to: the caller's own, or the one a
/// caller without an organisation pinned.
pub fn scope_org(in_scope: Option<Id>) -> (r: Result<Id, AppError>)
    ensures
        outcome(r) == match in_scope {
            Some(org) => Ok::<Id, ErrorView>(org),
            None => Err(
                ErrorView::Forbidden(
                    "No organization in scope — pin one with the X-Org-Id header"@,
                ),
            ),
        },
{
    match in_scope {
        Some(org) => Ok(org),
        None => Err(forbidden("No organization in scope — pin one with the X-Org-Id header")),
    }
}

/// A named thing that must be there, 404 otherwise.
pub fn require_found(found: bool, missing: &str) -> (r: Result<(), AppError>)
    ensures
        outcome(r) == if found {
            Ok::<(), ErrorView>(())
        } else {
            Err(ErrorView::NotFound(missing@))
        },
{
    if found {
        Ok(())
    } else {
        Err(not_found(missing))
    }
}

/// A reporting window in order and no wider than `max_days`.
pub open spec fn range_refused(from: Day, to: Day, max_days: i64) -> Option<ErrorView> {
    if to < from {
        Some(ErrorView::BadRequest("`to` is before `from`"@))
    } else if to - from > max_days {
        Some(
            ErrorView::BadRequest(
                "Range too wide — at most "@ + int_chars(max_days as int) + " days per request"@,
            ),
        )
    } else {
        None
    }
}

/// Guard a reporting window so a single request cannot ask for a decade of
/// attendance rows.
pub fn validate_range(from: Day, to: Day, max_days: i64) -> (r: Result<(), AppError>)
    ensures
        outcome(r) == unless(range_refused(from, to, max_days), ()),
{
    if to < from {
        return Err(bad_request("`to` is before `from`"));
    }
    if to as i64 - from as i64 > max_days {
        let reason: String = join3(
            "Range too wide — at most ",
            int_text(max_days).as_str(),
            " days per request",
        );
        return Err(bad_request(reason.as_str()));
    }
    Ok(())
}

/// A decision the four-state request machine knows.
pub open spec fn is_decision(status: Seq<char>) -> bool {
    status == "approved"@ || status == "rejected"@ || status == "cancelled"@
}

/// The four-state request machine shared by leave requests, late passes, and
/// missions. Returns the canonical string for the `status` column.
pub fn validate_decision(status: &str) -> (r: Result<&'static str, AppError>)
    ensures
        is_decision(status@) ==> r is Ok && (r->Ok_0)@ == status@,
        !is_decision(status@) ==> r is Err && r->Err_0@ == ErrorView::BadRequest(
            "Unknown decision '"@ + status@ + "' — expected approved, rejected, or cancelled"@,
        ),
{
    if same_text(status, "approved") {
        return Ok("approved");
    }
    if same_text(status, "rejected") {
        return Ok("rejected");
    }
    if same_text(status, "cancelled") {
        return Ok("cancelled");
    }
    let reason: String = join3(
        "Unknown decision '",
        status,
        "' — expected approved, rejected, or cancelled",
    );
    Err(bad_request(reason.as_str()))
}

/// A reporting window runs forward and is no wider than allowed.
pub proof fn law_a_window_runs_forward(from: Day, to: Day, max_days: i64)
    ensures
        range_refused(from, to, max_days) is None <==> from <= to && to - from <= max_days,
        to < from ==> range_refused(from, to, max_days) == Some(
            ErrorView::BadRequest("`to` is before `from`"@),
        ),
{
}

} // verus!
