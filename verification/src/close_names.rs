//! Finding a task by a name that was typed loosely, as the crate
//! `close_enough` does it.
//!
//! The contract of the executable function of this file is not proved: the
//! function calls `close_enough`, and its contract gives the result a name.

use crate::data::task::Task;
use vstd::prelude::*;

verus! {

/// The name that `close_enough::close_enough` picks among `names` for a
/// `query`, or `None` where it finds none close enough.
pub uninterp spec fn closest_name(names: Seq<Seq<char>>, query: Seq<char>) -> Option<Seq<char>>;

/// The names of the tasks of a list, in its order.
pub open spec fn names_of(tasks: Seq<Task>) -> Seq<Seq<char>> {
    tasks.map_values(|t: Task| t.name@)
}

/// `close_enough::close_enough` on the names of the tasks. The contract
/// gives the result its name, and says that it is one of the names that
/// were offered.
#[verifier::external_body]
pub(crate) fn closest_task_name(tasks: &Vec<Task>, query: &str) -> (r: Option<String>)
    ensures
        match r {
            Some(name) => closest_name(names_of(tasks@), query@) == Some(name@),
            None => closest_name(names_of(tasks@), query@) is None,
        },
        r matches Some(name) ==> names_of(tasks@).contains(name@),
{
    close_enough::close_enough(tasks.iter().map(|t| &t.name), query).map(|name| name.to_owned())
}

} // verus!
