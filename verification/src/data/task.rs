//! Tasks, and the records of an earlier layout with their upgrade.

use crate::data::date::{view_of, CalendarDate, Date, MalformedDate};
use crate::data::repeat::Repeat;
use crate::gregorian::Ymd;
use crate::naive::{date_text, parsed_date};
use crate::recurrence::{next_due, next_due_date};
use vstd::prelude::*;

verus! {

/// One tracked task.
#[derive(Debug)]
pub struct Task {
    /// What the task is called; no two tasks of a schedule share a name.
    pub name: String,
    /// When the task was last done, if ever.
    pub date_completed: Option<Date>,
    /// When the task is due.
    pub date_due: Date,
    /// How the task comes back.
    pub repeat: Repeat,
    /// Whether the next interval starts on the day the task was done, and
    /// not on the day it was due.
    pub at_least: bool,
}

/// A task as it was stored before due dates were: it repeats after a number
/// of days, counted from the day it was last done.
#[derive(Debug)]
pub struct Task010 {
    /// What the task is called.
    pub name: String,
    /// After how many days the task comes back.
    pub frequency_days: u32,
    /// When the task was last done, if ever.
    pub last_completed: Option<Date>,
}

/// A stored task in either layout.
#[derive(Debug)]
pub enum VersionedTask {
    Current(Task),
    Version010(Task010),
}

/// What a [`Task`] holds, with its texts as sequences of characters.
pub struct TaskView {
    pub name: Seq<char>,
    pub date_completed: Option<Seq<char>>,
    pub date_due: Seq<char>,
    pub repeat: Repeat,
    pub at_least: bool,
}

/// What a [`Task010`] holds.
pub struct Task010View {
    pub name: Seq<char>,
    pub frequency_days: u32,
    pub last_completed: Option<Seq<char>>,
}

/// What a [`VersionedTask`] holds.
pub enum VersionedTaskView {
    Current(TaskView),
    Version010(Task010View),
}

/// The text of a stored date that may be missing.
pub open spec fn text_of(date: Option<Date>) -> Option<Seq<char>> {
    match date {
        Some(d) => Some(d@),
        None => None,
    }
}

/// The view of a task that may be missing.
pub open spec fn task_of(task: Option<Task>) -> Option<TaskView> {
    match task {
        Some(t) => Some(t@),
        None => None,
    }
}

impl View for Task {
    type V = TaskView;

    open spec fn view(&self) -> TaskView {
        TaskView {
            name: self.name@,
            date_completed: text_of(self.date_completed),
            date_due: self.date_due@,
            repeat: self.repeat,
            at_least: self.at_least,
        }
    }
}

impl View for Task010 {
    type V = Task010View;

    open spec fn view(&self) -> Task010View {
        Task010View {
            name: self.name@,
            frequency_days: self.frequency_days,
            last_completed: text_of(self.last_completed),
        }
    }
}

impl View for VersionedTask {
    type V = VersionedTaskView;

    open spec fn view(&self) -> VersionedTaskView {
        match self {
            VersionedTask::Current(t) => VersionedTaskView::Current(t@),
            VersionedTask::Version010(t) => VersionedTaskView::Version010(t@),
        }
    }
}

/// The task that a record of the earlier layout becomes when it is read on
/// the day `today`, its date, if it has one, being `last_completed`. The
/// task repeats after the record's number of days, counted from due date to
/// due date. A record that was never done is due today. One that was done is
/// taken to have been done on the day it was due, and is due one interval
/// later. `None` where there is no such due date.
pub open spec fn legacy_task(
    name: Seq<char>,
    frequency_days: u32,
    last_completed: Option<Ymd>,
    today: Ymd,
) -> Option<TaskView> {
    let repeat = Repeat::Days(frequency_days);
    match last_completed {
        None => Some(
            TaskView {
                name,
                date_completed: None,
                date_due: date_text(today),
                repeat,
                at_least: false,
            },
        ),
        Some(done) => match next_due(done, done, repeat) {
            Some(due) => Some(
                TaskView {
                    name,
                    date_completed: Some(date_text(done)),
                    date_due: date_text(due),
                    repeat,
                    at_least: false,
                },
            ),
            None => None,
        },
    }
}

impl Task010View {
    /// The task that the record becomes when it is read on the day `today`:
    /// see [`legacy_task`]. `None` also where the record has a date that
    /// cannot be read.
    pub open spec fn upgraded(self, today: Ymd) -> Option<TaskView> {
        match self.last_completed {
            None => legacy_task(self.name, self.frequency_days, None, today),
            Some(text) => match parsed_date(text) {
                Some(done) => legacy_task(self.name, self.frequency_days, Some(done), today),
                None => None,
            },
        }
    }
}

impl VersionedTaskView {
    /// A task of the current layout is kept as it is; one of the earlier
    /// layout is upgraded.
    pub open spec fn upversioned(self, today: Ymd) -> Option<TaskView> {
        match self {
            VersionedTaskView::Current(t) => Some(t),
            VersionedTaskView::Version010(t) => t.upgraded(today),
        }
    }
}

impl TaskView {
    /// The dates of the task are texts that can be read as dates.
    pub open spec fn wf(self) -> bool {
        &&& parsed_date(self.date_due) is Some
        &&& self.date_completed matches Some(text) ==> parsed_date(text) is Some
    }

    /// The task after it was due on the day `due` and done on the day
    /// `done`, or `None` where it has no next due date and is to be retired.
    /// The next interval starts on the day the task was done where
    /// `at_least` is set, and on the day it was due where it is not.
    pub open spec fn rescheduled(self, due: Ymd, done: Ymd) -> Option<TaskView> {
        match next_due(if self.at_least { done } else { due }, done, self.repeat) {
            Some(next) => Some(
                TaskView {
                    name: self.name,
                    date_completed: Some(date_text(done)),
                    date_due: date_text(next),
                    repeat: self.repeat,
                    at_least: self.at_least,
                },
            ),
            None => None,
        }
    }

    /// The task after it was done on the day `done`: see
    /// [`TaskView::rescheduled`]. An error where the due date of the task
    /// cannot be read.
    pub open spec fn completed(self, done: Ymd) -> Result<Option<TaskView>, MalformedDate> {
        match parsed_date(self.date_due) {
            Some(due) => Ok(self.rescheduled(due, done)),
            None => Err(MalformedDate),
        }
    }
}

impl Task {
    /// The task that a record of the earlier layout becomes, the date of the
    /// record being read already.
    pub fn from_legacy(
        name: String,
        frequency_days: u32,
        last_completed: Option<CalendarDate>,
        today: CalendarDate,
    ) -> (r: Option<Task>)
        ensures
            task_of(r) == legacy_task(name@, frequency_days, view_of(last_completed), today@),
            r matches Some(task) ==> task@.wf(),
    {
        let repeat = Repeat::Days(frequency_days);
        let (date_completed, date_due) = match last_completed {
            Some(completed) => {
                let date_due = match next_due_date(completed, completed, repeat) {
                    Some(date) => date,
                    None => {
                        return None;
                    },
                };
                (Some(Date::from(completed)), Date::from(date_due))
            },
            None => (None, Date::from(today)),
        };
        Some(Task { name, date_completed, date_due, repeat, at_least: false })
    }

    /// Marks the task, which was due on `previous_date_due`, as done on
    /// `date_completed`, and moves its due date on. Returns `true`, and
    /// leaves the task as it is, where the task has no next due date and is
    /// to be removed from its schedule.
    pub fn reschedule(
        &mut self,
        previous_date_due: CalendarDate,
        date_completed: CalendarDate,
    ) -> (r: bool)
        ensures
            match old(self)@.rescheduled(previous_date_due@, date_completed@) {
                Some(task) => !r && final(self)@ == task,
                None => r && final(self)@ == old(self)@,
            },
            !r ==> final(self)@.wf(),
    {
        let repeat_start = if self.at_least {
            date_completed
        } else {
            previous_date_due
        };
        match next_due_date(repeat_start, date_completed, self.repeat) {
            Some(next_due_date) => {
                self.date_completed = Some(Date::from(date_completed));
                self.date_due = Date::from(next_due_date);
                false
            },
            None => true,
        }
    }

    /// Marks the task as done on `date_completed` and moves its due date
    /// on. Returns `true`, and leaves the task as it is, where the task has
    /// no next due date and is to be removed from its schedule.
    pub fn complete(&mut self, date_completed: CalendarDate) -> (r: Result<bool, MalformedDate>)
        ensures
            match old(self)@.completed(date_completed@) {
                Ok(Some(task)) => r matches Ok(false) && final(self)@ == task,
                Ok(None) => r matches Ok(true) && final(self)@ == old(self)@,
                Err(_) => r is Err && final(self)@ == old(self)@,
            },
            r matches Ok(false) ==> final(self)@.wf(),
    {
        match self.date_due.as_naive() {
            Some(previous_date_due) => Ok(self.reschedule(previous_date_due, date_completed)),
            None => Err(MalformedDate),
        }
    }
}

impl Task010 {
    /// The record as a task of the current layout, or `None` where it has
    /// none. `today` is the day on which the record is read.
    pub fn upgraded(self, today: CalendarDate) -> (r: Option<Task>)
        ensures
            task_of(r) == self@.upgraded(today@),
            r matches Some(task) ==> task@.wf(),
    {
        let Task010 { name, frequency_days, last_completed } = self;
        match last_completed {
            Some(text) => match text.as_naive() {
                Some(completed) => Task::from_legacy(name, frequency_days, Some(completed), today),
                None => None,
            },
            None => Task::from_legacy(name, frequency_days, None, today),
        }
    }
}

impl VersionedTask {
    /// The task in the current layout, or `None` where it has none.
    /// `today` is the day on which the stored schedule is read.
    pub fn upversioned(self, today: CalendarDate) -> (r: Option<Task>)
        ensures
            task_of(r) == self@.upversioned(today@),
            self is Version010 && r is Some ==> r.unwrap()@.wf(),
    {
        match self {
            VersionedTask::Current(t) => Some(t),
            VersionedTask::Version010(t) => t.upgraded(today),
        }
    }
}

} // verus!
