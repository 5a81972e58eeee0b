//! Presence during a shift, covers, overtime approval and punching for
//! someone.

pub mod covers;
pub mod flags;
pub mod pings;
pub mod punches;
pub mod till;
