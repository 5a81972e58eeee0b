//! Attendance: the rules, what a day's stamps imply, and the punches.

pub mod derive;
pub mod effective;
pub mod punches;
pub mod records;
pub mod settings;
pub mod team;
