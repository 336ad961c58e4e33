//! The recurrence engine: from a due date, the day a task was done and its
//! repeat rule to the next due date.

use crate::data::date::view_of;
use crate::data::{CalendarDate, Repeat};
use crate::gregorian::{
    last_date, lemma_dates_within_range, lemma_months_later, lemma_next_day,
    lemma_on_day_past_range, lemma_on_day_within_range, months_later, next_day, on_day, Ymd,
};
use vstd::prelude::*;

verus! {

/// The date one interval of `repeat` after `from`: so many days later, or so
/// many months or years later with the day of the month kept where the month
/// reached has it, and the last day of that month taken where it has not.
/// `None` for a rule that never repeats, and where the supported range of
/// dates ends before the date.
pub open spec fn advanced(from: Ymd, repeat: Repeat) -> Option<Ymd> {
    match repeat {
        Repeat::Never => None,
        Repeat::Days(n) => on_day(from.day_number() + n),
        Repeat::Months(n) => months_later(from, n as int),
        Repeat::Years(n) => months_later(from, 12 * n),
    }
}

/// How far `anchor` is from having passed `completion`.
pub open spec fn days_to_pass(anchor: Ymd, completion: Ymd) -> int {
    if anchor.day_number() <= completion.day_number() {
        completion.day_number() - anchor.day_number() + 1
    } else {
        0
    }
}

/// The next due date of a task: the first of the dates `anchor`, one
/// interval after it, one interval after that, and so on, that lies after
/// `completion`. `None` for a rule that never repeats, and where these dates
/// end, or stand still, before one of them has passed `completion`.
pub open spec fn next_due(anchor: Ymd, completion: Ymd, repeat: Repeat) -> Option<Ymd>
    decreases days_to_pass(anchor, completion),
{
    if repeat is Never {
        None
    } else if anchor.day_number() > completion.day_number() {
        Some(anchor)
    } else {
        match advanced(anchor, repeat) {
            Some(next) => if next.day_number() > anchor.day_number() {
                next_due(next, completion, repeat)
            } else {
                None
            },
            None => None,
        }
    }
}

/// The days from `today` to the day `due`: positive while that day is to
/// come, zero on the day itself, negative once it has passed.
pub open spec fn days_until(due: Ymd, today: Ymd) -> int {
    due.day_number() - today.day_number()
}

/// The due dates of a task from `anchor` on: `anchor` itself, which is
/// number 0, then the date one interval after it, and so on, as far as the
/// supported range of dates goes.
pub open spec fn due_date(anchor: Ymd, repeat: Repeat, number: nat) -> Option<Ymd>
    decreases number,
{
    if number == 0 {
        Some(anchor)
    } else {
        match due_date(anchor, repeat, (number - 1) as nat) {
            Some(date) => advanced(date, repeat),
            None => None,
        }
    }
}

/// The days from `today` to the due date: positive while the task is not
/// yet due, zero on the day it is due, negative once it is overdue.
pub fn days_until_due(due_date: CalendarDate, today: CalendarDate) -> (r: i64)
    ensures
        r == days_until(due_date@, today@),
{
    due_date.days_between(&today)
}

/// The date on which a task is due next, given the date it was due, the date
/// it was done and its repeat rule. `None` says that the task has no next
/// due date and is to be retired.
pub fn next_due_date(
    previous_date_due: CalendarDate,
    date_completed: CalendarDate,
    repeat: Repeat,
) -> (r: Option<CalendarDate>)
    ensures
        view_of(r) == next_due(previous_date_due@, date_completed@, repeat),
        repeat is Never ==> r is None,
{
    if let Repeat::Never = repeat {
        return None;
    }
    let mut due_date = previous_date_due;
    while !due_date.is_after(&date_completed)
        invariant
            !(repeat is Never),
            next_due(due_date@, date_completed@, repeat) == next_due(
                previous_date_due@,
                date_completed@,
                repeat,
            ),
        decreases days_to_pass(due_date@, date_completed@),
    {
        let next = match repeat {
            Repeat::Never => None,
            Repeat::Days(n) => due_date.plus_days(n),
            Repeat::Months(n) => due_date.plus_months(n),
            Repeat::Years(n) => due_date.plus_years(n),
        };
        match next {
            Some(date) => {
                if date.is_after(&due_date) {
                    due_date = date;
                } else {
                    return None;
                }
            },
            None => {
                return None;
            },
        }
    }
    Some(due_date)
}

/// A day is no day away from itself, the day after it is one day away, and
/// seen from the day after it is one day overdue.
pub proof fn lemma_days_until_next_day(date: Ymd)
    requires
        date.is_date(),
    ensures
        days_until(date, date) == 0,
        days_until(next_day(date), date) == 1,
        days_until(date, next_day(date)) == -1,
{
    lemma_next_day(date);
}

/// One interval of a rule that repeats leads to a later date. For a rule in
/// days there is such a date as long as the last date is not passed.
pub proof fn lemma_advanced_is_later(from: Ymd, repeat: Repeat)
    requires
        from.is_date(),
        repeat.wf(),
    ensures
        advanced(from, repeat) matches Some(to) ==> to.is_date() && from.day_number()
            < to.day_number(),
        repeat matches Repeat::Days(n) ==> (advanced(from, repeat) is Some <==> from.day_number()
            + n <= last_date().day_number()),
{
    match repeat {
        Repeat::Never => {},
        Repeat::Days(n) => {
            lemma_dates_within_range(from);
            if from.day_number() + n <= last_date().day_number() {
                lemma_on_day_within_range(from.day_number() + n);
            } else {
                lemma_on_day_past_range(from.day_number() + n);
            }
        },
        Repeat::Months(n) => {
            lemma_months_later(from, n as int);
        },
        Repeat::Years(n) => {
            lemma_months_later(from, 12 * n);
        },
    }
}

/// A task whose rule never repeats has no next due date, whenever it was due
/// and whenever it was done.
pub proof fn lemma_never_has_no_next(anchor: Ymd, completion: Ymd)
    ensures
        next_due(anchor, completion, Repeat::Never) is None,
{
}

/// A task that repeats and is done on the day it is due is due again one
/// interval later, and that is a later day. (Where the supported range of
/// dates ends within that interval there is no such day: `requires` leaves
/// those dates out.)
pub proof fn lemma_done_when_due(date: Ymd, repeat: Repeat)
    requires
        date.is_date(),
        repeat.wf(),
        !(repeat is Never),
        advanced(date, repeat) is Some,
    ensures
        next_due(date, date, repeat) == advanced(date, repeat),
        next_due(date, date, repeat) matches Some(next) && date.day_number() < next.day_number(),
{
    lemma_advanced_is_later(date, repeat);
    let next = advanced(date, repeat).unwrap();
    assert(next_due(next, date, repeat) == Some(next));
}

/// Catching up: a task that is done one interval late, on its second due
/// date, is due next on its third due date, which is one interval after the
/// day it was done and one interval after the day it would have been due
/// next had it been done in time; no due date is skipped.
pub proof fn lemma_done_one_interval_late(anchor: Ymd, repeat: Repeat)
    requires
        anchor.is_date(),
        repeat.wf(),
        !(repeat is Never),
        advanced(anchor, repeat) is Some,
    ensures
        next_due(anchor, anchor, repeat) == advanced(anchor, repeat),
        next_due(anchor, advanced(anchor, repeat).unwrap(), repeat) == advanced(
            advanced(anchor, repeat).unwrap(),
            repeat,
        ),
{
    lemma_done_when_due(anchor, repeat);
    let late = advanced(anchor, repeat).unwrap();
    lemma_advanced_is_later(anchor, repeat);
    lemma_advanced_is_later(late, repeat);
    assert(next_due(anchor, late, repeat) == next_due(late, late, repeat));
    if let Some(third) = advanced(late, repeat) {
        assert(next_due(third, late, repeat) == Some(third));
    }
}

/// A task that repeats after a number of days and is done on the day it was
/// due, or later, is due next within one interval after the day it was done,
/// on a day that is a whole number of intervals after the day it was due: it
/// stays on the days that its due date and its interval mark out.
pub proof fn lemma_next_due_in_days(anchor: Ymd, completion: Ymd, days: u32)
    requires
        anchor.is_date(),
        days > 0,
        anchor.day_number() <= completion.day_number(),
    ensures
        next_due(anchor, completion, Repeat::Days(days)) matches Some(next) ==> {
            &&& completion.day_number() < next.day_number() <= completion.day_number() + days
            &&& (next.day_number() - anchor.day_number()) % (days as int) == 0
        },
    decreases days_to_pass(anchor, completion),
{
    let repeat = Repeat::Days(days);
    if let Some(second) = advanced(anchor, repeat) {
        if second.day_number() <= completion.day_number() {
            lemma_next_due_in_days(second, completion, days);
            if let Some(next) = next_due(second, completion, repeat) {
                vstd::arithmetic::div_mod::lemma_mod_add_multiples_vanish(
                    next.day_number() - second.day_number(),
                    days as int,
                );
            }
        } else {
            assert(next_due(second, completion, repeat) == Some(second));
            vstd::arithmetic::div_mod::lemma_mod_self_0(days as int);
        }
    }
}

/// Counting the due dates from the second on is counting them from the
/// first on, one further.
pub proof fn lemma_due_date_shift(anchor: Ymd, repeat: Repeat, number: nat)
    requires
        advanced(anchor, repeat) is Some,
    ensures
        due_date(advanced(anchor, repeat).unwrap(), repeat, number) == due_date(
            anchor,
            repeat,
            number + 1,
        ),
    decreases number,
{
    reveal_with_fuel(due_date, 2);
    if number > 0 {
        lemma_due_date_shift(anchor, repeat, (number - 1) as nat);
    }
}

/// Where the due dates end, they have ended for good.
pub proof fn lemma_due_dates_end(anchor: Ymd, repeat: Repeat, end: nat, number: nat)
    requires
        due_date(anchor, repeat, end) is None,
        end <= number,
    ensures
        due_date(anchor, repeat, number) is None,
    decreases number,
{
    if end < number {
        lemma_due_dates_end(anchor, repeat, end, (number - 1) as nat);
    }
}

/// The next due date is the first due date after the day the task was done:
/// it is one of the due dates, it lies after that day, and every due date
/// before it lies on that day or before it. Where there is no next due date
/// although the rule repeats, no due date lies after that day.
pub proof fn lemma_next_due_is_first_after(anchor: Ymd, completion: Ymd, repeat: Repeat)
    requires
        anchor.is_date(),
        repeat.wf(),
        !(repeat is Never),
    ensures
        next_due(anchor, completion, repeat) matches Some(next) ==> exists|number: nat|
            {
                &&& #[trigger] due_date(anchor, repeat, number) == Some(next)
                &&& completion.day_number() < next.day_number()
                &&& forall|earlier: nat|
                    earlier < number ==> {
                        &&& #[trigger] due_date(anchor, repeat, earlier) matches Some(date)
                        &&& date.day_number() <= completion.day_number()
                    }
            },
        next_due(anchor, completion, repeat) is None ==> forall|number: nat| #[trigger]
            due_date(anchor, repeat, number) matches Some(date) ==> date.day_number()
                <= completion.day_number(),
    decreases days_to_pass(anchor, completion),
{
    if anchor.day_number() > completion.day_number() {
        assert(due_date(anchor, repeat, 0) == Some(anchor));
    } else {
        lemma_advanced_is_later(anchor, repeat);
        match advanced(anchor, repeat) {
            Some(second) => {
                lemma_next_due_is_first_after(second, completion, repeat);
                assert forall|number: nat| #[trigger]
                    due_date(anchor, repeat, number) == if number == 0 {
                        Some(anchor)
                    } else {
                        due_date(second, repeat, (number - 1) as nat)
                    } by {
                    if number > 0 {
                        lemma_due_date_shift(anchor, repeat, (number - 1) as nat);
                    }
                }
                if let Some(next) = next_due(second, completion, repeat) {
                    let from_second = choose|number: nat|
                        {
                            &&& #[trigger] due_date(second, repeat, number) == Some(next)
                            &&& completion.day_number() < next.day_number()
                            &&& forall|earlier: nat|
                                earlier < number ==> {
                                    &&& #[trigger] due_date(second, repeat, earlier) matches Some(
                                        date,
                                    )
                                    &&& date.day_number() <= completion.day_number()
                                }
                        };
                    let number = from_second + 1;
                    assert(due_date(anchor, repeat, number) == Some(next));
                    assert forall|earlier: nat| earlier < number implies {
                        &&& #[trigger] due_date(anchor, repeat, earlier) matches Some(date)
                        &&& date.day_number() <= completion.day_number()
                    } by {
                        if earlier > 0 {
                            assert(due_date(anchor, repeat, earlier) == due_date(
                                second,
                                repeat,
                                (earlier - 1) as nat,
                            ));
                        }
                    }
                }
            },
            None => {
                assert forall|number: nat| #[trigger]
                    due_date(anchor, repeat, number) matches Some(date) ==> date.day_number()
                        <= completion.day_number() by {
                    if number > 0 {
                        assert(due_date(anchor, repeat, 1) is None);
                        lemma_due_dates_end(anchor, repeat, 1, number);
                    }
                }
            },
        }
    }
}

} // verus!
