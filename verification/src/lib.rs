//! Rules of a staff and attendance service: rosters, clocking, pay windows and
//! the suggestions that fill a week.

pub mod access;
pub mod attendance;
pub mod calendar;
pub mod dawam;
pub mod days;
pub mod decimal;
pub mod directory;
pub mod discipline;
pub mod errors;
pub mod jobs;
pub mod ordered;
pub mod staff;
pub mod text;

use vstd::prelude::*;

verus! {

/// The largest number of months an advance may be paid back over.
pub const MAX_INSTALLMENTS: i64 = 24;

} // verus!
