//! Repeat rules.

use vstd::prelude::*;

verus! {

/// How a task comes back after it was done.
#[derive(Debug, Copy, Clone, PartialEq, Eq, Structural)]
pub enum Repeat {
    /// Not at all: once done, the task is retired.
    Never,
    /// After this many days.
    Days(u32),
    /// After this many months.
    Months(u32),
    /// After this many years.
    Years(u32),
}

impl Repeat {
    /// A rule that repeats does so after at least one day, month or year.
    pub open spec fn wf(self) -> bool {
        match self {
            Repeat::Never => true,
            Repeat::Days(n) => n > 0,
            Repeat::Months(n) => n > 0,
            Repeat::Years(n) => n > 0,
        }
    }
}

} // verus!
