//! Iteration core of a recurrence-rule (RFC 5545 RRULE) expansion engine.
//!
//! Given a fully validated set of rule options, the functions here drive one
//! expansion cycle of the rule: they advance the counter date by the rule's
//! frequency and interval, filter candidate days of a year against the
//! BY-clauses, and build the time-of-day set that is crossed with the
//! surviving days.

pub mod datetime;
pub mod dayset;
pub mod easter;
pub mod error;
pub mod iter;
pub mod iterinfo;
pub mod laws;
pub mod nweekday;
pub mod options;
pub mod poslist;
pub mod utils;
