//! The data of a schedule: dates, repeat rules and tasks.

pub mod date;
pub mod repeat;
pub mod schedule;
pub mod task;

pub use date::{date_or, CalendarDate, Date, MalformedDate};
pub use repeat::Repeat;
pub use schedule::{Schedule, ScheduleError, VersionedSchedule};
pub use task::{Task, Task010, VersionedTask};
