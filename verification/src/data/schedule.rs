//! Schedules: the tasks that are tracked, and what can be done with them.

use crate::close_names::{closest_name, closest_task_name, names_of};
use crate::data::date::{CalendarDate, Date};
use crate::data::repeat::Repeat;
use crate::data::task::{Task, TaskView, VersionedTask, VersionedTaskView};
use crate::gregorian::Ymd;
use crate::naive::date_text;
use vstd::prelude::*;

verus! {

/// The tasks of a stored schedule, each in either layout.
#[derive(Debug)]
pub struct VersionedSchedule {
    pub tasks: Vec<VersionedTask>,
}

/// The tasks of a schedule.
#[derive(Debug)]
pub struct Schedule {
    pub tasks: Vec<Task>,
}

/// The views of the tasks of a list, in its order.
pub open spec fn tasks_of(tasks: Seq<Task>) -> Seq<TaskView> {
    tasks.map_values(|t: Task| t@)
}

/// The tasks of a stored list in the current layout, in the order of the
/// list, without those that have none.
pub open spec fn upversioned_all(tasks: Seq<VersionedTask>, today: Ymd) -> Seq<TaskView>
    decreases tasks.len(),
{
    if tasks.len() == 0 {
        Seq::empty()
    } else {
        let before = upversioned_all(tasks.drop_last(), today);
        match tasks.last()@.upversioned(today) {
            Some(task) => before.push(task),
            None => before,
        }
    }
}

/// The dates of every task of the list can be read.
pub open spec fn all_wf(tasks: Seq<TaskView>) -> bool {
    forall|i: int| 0 <= i < tasks.len() ==> (#[trigger] tasks[i]).wf()
}

/// The dates of every task of the stored list that has the current layout
/// can be read.
pub open spec fn stored_wf(tasks: Seq<VersionedTask>) -> bool {
    forall|i: int|
        0 <= i < tasks.len() ==> ((#[trigger] tasks[i])@ matches VersionedTaskView::Current(task)
            ==> task.wf())
}

impl View for Schedule {
    type V = Seq<TaskView>;

    open spec fn view(&self) -> Seq<TaskView> {
        tasks_of(self.tasks@)
    }
}

impl Default for Schedule {
    /// The schedule without tasks.
    fn default() -> (r: Schedule)
        ensures
            r@ == Seq::<TaskView>::empty(),
    {
        Schedule { tasks: Vec::new() }
    }
}

impl VersionedSchedule {
    /// The schedule in the current layout: each task upgraded where it has
    /// to be, and left out where it cannot be. `today` is the day on which
    /// the stored schedule is read.
    pub fn upversioned(self, today: CalendarDate) -> (r: Schedule)
        ensures
            r@ == upversioned_all(self.tasks@, today@),
            stored_wf(self.tasks@) ==> all_wf(r@),
    {
        let ghost stored = self.tasks@;
        let mut tasks: Vec<Task> = Vec::new();
        for task in it: self.tasks
            invariant
                it.seq() == stored,
                tasks_of(tasks@) == upversioned_all(stored.take(it.index() as int), today@),
                stored_wf(stored) ==> all_wf(tasks_of(tasks@)),
        {
            proof {
                let i = it.index() as int;
                assert(stored.take(i + 1).drop_last() == stored.take(i));
                assert(stored.take(i + 1).last() == task);
            }
            let ghost before = tasks@;
            match task.upversioned(today) {
                Some(t) => {
                    tasks.push(t);
                    assert(tasks_of(tasks@) == tasks_of(before).push(t@));
                },
                None => {},
            }
        }
        proof {
            assert(stored.take(stored.len() as int) == stored);
        }
        Schedule { tasks }
    }
}

/// Why a schedule was left as it was.
#[derive(Debug, Copy, Clone, PartialEq, Eq, Structural)]
pub enum ScheduleError {
    /// No task of the schedule has the name.
    NoSuchTask,
    /// A task of the schedule has the name already.
    TaskExists,
    /// A task that never repeats cannot repeat from the day it was done.
    NeverAtLeast,
    /// The due date of the task cannot be read.
    MalformedDate,
}

/// The task at `index` is the first of the list that is called `name`.
pub open spec fn first_named_at(tasks: Seq<TaskView>, name: Seq<char>, index: int) -> bool {
    &&& 0 <= index < tasks.len()
    &&& tasks[index].name == name
    &&& forall|j: int| 0 <= j < index ==> (#[trigger] tasks[j]).name != name
}

/// No task of the list is called `name`.
pub open spec fn none_named(tasks: Seq<TaskView>, name: Seq<char>) -> bool {
    forall|j: int| 0 <= j < tasks.len() ==> (#[trigger] tasks[j]).name != name
}

/// The list without the task at `index`: the last task takes its place.
pub open spec fn without(tasks: Seq<TaskView>, index: int) -> Seq<TaskView> {
    tasks.update(index, tasks.last()).drop_last()
}

/// A task of the list other than the one at `index` is called `name`.
pub open spec fn other_named(tasks: Seq<TaskView>, name: Seq<char>, index: int) -> bool {
    exists|j: int| 0 <= j < tasks.len() && j != index && (#[trigger] tasks[j]).name == name
}

/// The list with the task at `index` called `name`, and nothing else changed.
pub open spec fn renamed(tasks: Seq<TaskView>, index: int, name: Seq<char>) -> Seq<TaskView> {
    tasks.update(
        index,
        TaskView {
            name,
            date_completed: tasks[index].date_completed,
            date_due: tasks[index].date_due,
            repeat: tasks[index].repeat,
            at_least: tasks[index].at_least,
        },
    )
}

/// A task as it is when it is added to a schedule: not done yet.
pub open spec fn new_task(name: Seq<char>, date_due: Ymd, repeat: Repeat, at_least: bool)
    -> TaskView {
    TaskView { name, date_completed: None, date_due: date_text(date_due), repeat, at_least }
}

impl Schedule {
    /// The place of the first task that is called `name`.
    pub fn position(&self, name: &str) -> (r: Option<usize>)
        ensures
            match r {
                Some(index) => first_named_at(self@, name@, index as int),
                None => none_named(self@, name@),
            },
    {
        let wanted = name.to_owned();
        let mut index: usize = 0;
        while index < self.tasks.len()
            invariant
                index <= self.tasks.len(),
                wanted@ == name@,
                forall|j: int| 0 <= j < index ==> (#[trigger] self@[j]).name != name@,
            decreases self.tasks.len() - index,
        {
            if self.tasks[index].name == wanted {
                return Some(index);
            }
            index = index + 1;
        }
        None
    }

    /// The place of the task whose name is closest to what was typed, or
    /// `None` where no name is close enough.
    pub fn close_enough(&self, query: &str) -> (r: Option<usize>)
        ensures
            match closest_name(names_of(self.tasks@), query@) {
                Some(name) => r matches Some(index) && first_named_at(self@, name, index as int),
                None => r is None,
            },
    {
        match closest_task_name(&self.tasks, query) {
            Some(name) => {
                proof {
                    let names = names_of(self.tasks@);
                    let i = choose|i: int| 0 <= i < names.len() && names[i] == name@;
                    assert(self@[i].name == name@);
                }
                self.position(name.as_str())
            },
            None => None,
        }
    }

    /// Adds a task that is due on `date_due` and was not done yet. A task
    /// that never repeats cannot repeat from the day it was done, and no two
    /// tasks can have one name.
    pub fn add(
        &mut self,
        name: &str,
        date_due: CalendarDate,
        repeat: Repeat,
        at_least: bool,
    ) -> (r: Result<(), ScheduleError>)
        ensures
            repeat is Never && at_least ==> {
                &&& r matches Err(ScheduleError::NeverAtLeast)
                &&& final(self)@ == old(self)@
            },
            !(repeat is Never && at_least) && !none_named(old(self)@, name@) ==> {
                &&& r matches Err(ScheduleError::TaskExists)
                &&& final(self)@ == old(self)@
            },
            !(repeat is Never && at_least) && none_named(old(self)@, name@) ==> {
                &&& r is Ok
                &&& final(self)@ == old(self)@.push(new_task(name@, date_due@, repeat, at_least))
            },
            all_wf(old(self)@) ==> all_wf(final(self)@),
    {
        if at_least {
            if let Repeat::Never = repeat {
                return Err(ScheduleError::NeverAtLeast);
            }
        }
        if self.position(name).is_some() {
            return Err(ScheduleError::TaskExists);
        }
        let ghost before = self.tasks@;
        let task = Task {
            name: name.to_owned(),
            repeat,
            date_completed: None,
            date_due: Date::from(date_due),
            at_least,
        };
        self.tasks.push(task);
        assert(tasks_of(self.tasks@) == tasks_of(before).push(task@));
        Ok(())
    }

    /// Gives the task at `index` the name `new_name`, unless another task
    /// of the schedule has that name already.
    pub fn rename(&mut self, index: usize, new_name: &str) -> (r: Result<(), ScheduleError>)
        ensures
            index >= old(self)@.len() ==> {
                &&& r matches Err(ScheduleError::NoSuchTask)
                &&& final(self)@ == old(self)@
            },
            index < old(self)@.len() && other_named(old(self)@, new_name@, index as int) ==> {
                &&& r matches Err(ScheduleError::TaskExists)
                &&& final(self)@ == old(self)@
            },
            index < old(self)@.len() && !other_named(old(self)@, new_name@, index as int) ==> {
                &&& r is Ok
                &&& final(self)@ == renamed(old(self)@, index as int, new_name@)
            },
            all_wf(old(self)@) ==> all_wf(final(self)@),
    {
        if index >= self.tasks.len() {
            return Err(ScheduleError::NoSuchTask);
        }
        let wanted = new_name.to_owned();
        let mut other: usize = 0;
        while other < self.tasks.len()
            invariant
                other <= self.tasks.len(),
                index < self.tasks.len(),
                *self == *old(self),
                wanted@ == new_name@,
                forall|j: int|
                    0 <= j < other && j != index ==> (#[trigger] self@[j]).name != new_name@,
            decreases self.tasks.len() - other,
        {
            if other != index && self.tasks[other].name == wanted {
                assert(self@[other as int].name == new_name@);
                return Err(ScheduleError::TaskExists);
            }
            other = other + 1;
        }
        let ghost before = self.tasks@;
        self.tasks[index].name = wanted;
        assert(tasks_of(self.tasks@) == renamed(tasks_of(before), index as int, new_name@));
        Ok(())
    }

    /// Removes the first task that is called `name`; the last task of the
    /// schedule takes its place.
    pub fn remove(&mut self, name: &str) -> (r: Result<(), ScheduleError>)
        ensures
            none_named(old(self)@, name@) ==> {
                &&& r matches Err(ScheduleError::NoSuchTask)
                &&& final(self)@ == old(self)@
            },
            forall|index: int|
                first_named_at(old(self)@, name@, index) ==> {
                    &&& r is Ok
                    &&& final(self)@ == without(old(self)@, index)
                },
            all_wf(old(self)@) ==> all_wf(final(self)@),
    {
        match self.position(name) {
            Some(index) => {
                let ghost before = self.tasks@;
                self.tasks.swap_remove(index);
                assert(tasks_of(self.tasks@) == without(tasks_of(before), index as int));
                Ok(())
            },
            None => Err(ScheduleError::NoSuchTask),
        }
    }

    /// Marks the first task that is called `name` as done on
    /// `date_completed`. Its due date moves on; where it has no next due
    /// date the task is removed, and the result is `true`.
    pub fn did(&mut self, name: &str, date_completed: CalendarDate) -> (r: Result<
        bool,
        ScheduleError,
    >)
        ensures
            none_named(old(self)@, name@) ==> {
                &&& r matches Err(ScheduleError::NoSuchTask)
                &&& final(self)@ == old(self)@
            },
            forall|index: int|
                first_named_at(old(self)@, name@, index) ==> match old(self)@[index].completed(
                    date_completed@,
                ) {
                    Ok(Some(task)) => {
                        &&& r matches Ok(false)
                        &&& final(self)@ == old(self)@.update(index, task)
                    },
                    Ok(None) => {
                        &&& r matches Ok(true)
                        &&& final(self)@ == without(old(self)@, index)
                    },
                    Err(_) => {
                        &&& r matches Err(ScheduleError::MalformedDate)
                        &&& final(self)@ == old(self)@
                    },
                },
            all_wf(old(self)@) ==> all_wf(final(self)@),
    {
        let index = match self.position(name) {
            Some(index) => index,
            None => {
                return Err(ScheduleError::NoSuchTask);
            },
        };
        let ghost before = self.tasks@;
        let remove = match self.tasks[index].complete(date_completed) {
            Ok(remove) => remove,
            Err(_) => {
                assert(tasks_of(self.tasks@) == tasks_of(before));
                return Err(ScheduleError::MalformedDate);
            },
        };
        if remove {
            let ghost kept = self.tasks@;
            assert(tasks_of(kept) == tasks_of(before));
            self.tasks.swap_remove(index);
            assert(tasks_of(self.tasks@) == without(tasks_of(kept), index as int));
        } else {
            assert(tasks_of(self.tasks@) == tasks_of(before).update(
                index as int,
                self.tasks@[index as int]@,
            ));
        }
        Ok(remove)
    }
}

} // verus!
