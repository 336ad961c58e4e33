//! Recurring tasks: each task has a due date and a repeat rule, and completing
//! it moves the due date to the next point of its schedule.
//!
//! Dates are calendar dates of the proleptic Gregorian calendar without a time
//! of day or a time zone; [`gregorian`] says what that means. The calendar
//! arithmetic itself is done by `chrono`, and a task is found by a loosely
//! typed name as `close_enough` finds it: what this crate takes on trust from
//! the two is collected in [`naive`] and in [`close_names`]. All else is
//! proved: [`recurrence`] holds the rule for the next due date, with the laws
//! that follow from it, [`repeat_text`] reads repeat rules, and [`data`] holds
//! the tasks, their schedule and the upgrade of schedules that were stored
//! in an earlier layout.

pub mod close_names;
pub mod data;
pub mod gregorian;
pub mod naive;
pub mod recurrence;
pub mod repeat_text;

pub use recurrence::{days_until_due, next_due_date};
pub use repeat_text::{repeat_from_string, ParseError};
