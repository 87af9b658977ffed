//! A recurrence engine for reminders: it lowers a parsed reminder pattern
//! against a time zone and the current instant, and computes, for any later
//! instant, when the reminder fires next.

pub mod calendar;
pub mod calendar_proofs;
pub mod countdown;
pub mod grammar;
pub mod holes;
pub mod interval;
pub mod laws;
pub mod lower;
pub mod next;
pub mod pattern;
pub mod stability;
pub mod validate;
pub mod weekdays;
pub mod zone;
