//! Calendar dates, and dates as the text in which a schedule stores them.

use crate::gregorian::{
    days_in_month, is_leap_year, last_date, lemma_dates_within_range, lemma_day_number_orders,
    lemma_months_later, lemma_on_day_of_date, lemma_on_day_past_range, lemma_years_later,
    months_later, on_day, ymd, Ymd, MAX_YEAR, MIN_YEAR,
};
use crate::naive::{
    date_from_text, date_plus_days, date_plus_months, date_text, date_to_text, days_between,
    parsed_date,
};
use vstd::pervasive::unreached;
use vstd::prelude::*;

verus! {

/// A date of the calendar: a year from `MIN_YEAR` to `MAX_YEAR`, a month and
/// a day that exists in that month. No time of day, no time zone.
#[derive(Clone, Copy, Debug, PartialEq, Eq)]
pub struct CalendarDate {
    year: i32,
    month: u32,
    day: u32,
}

/// A text was to be read as a date and is none.
#[derive(Clone, Copy, Debug, PartialEq, Eq, Structural)]
pub struct MalformedDate;

impl View for CalendarDate {
    type V = Ymd;

    /// The year, month and day of the date.
    closed spec fn view(&self) -> Ymd {
        ymd(self.year as int, self.month as int, self.day as int)
    }
}

/// The view of a date that may be missing.
pub open spec fn view_of(date: Option<CalendarDate>) -> Option<Ymd> {
    match date {
        Some(d) => Some(d@),
        None => None,
    }
}

/// Whether `year` is a leap year.
pub fn leap_year(year: i32) -> (r: bool)
    ensures
        r == is_leap_year(year as int),
{
    reveal(is_leap_year);
    year % 4 == 0 && (year % 100 != 0 || year % 400 == 0)
}

/// The number of days of a month of a year; meaningful for months 1 to 12.
pub fn month_length(year: i32, month: u32) -> (r: u32)
    ensures
        r == days_in_month(year as int, month as int),
{
    if month == 2 {
        if leap_year(year) {
            29
        } else {
            28
        }
    } else if month == 4 || month == 6 || month == 9 || month == 11 {
        30
    } else {
        31
    }
}

impl CalendarDate {
    /// Every value of this type is a date.
    #[verifier::type_invariant]
    pub open spec fn wf(self) -> bool {
        self@.is_date()
    }

    /// The date with the given year, month and day, if there is one.
    pub fn from_ymd(year: i32, month: u32, day: u32) -> (r: Option<CalendarDate>)
        ensures
            match r {
                Some(date) => date@ == ymd(year as int, month as int, day as int) && date@.is_date(),
                None => !ymd(year as int, month as int, day as int).is_date(),
            },
    {
        if MIN_YEAR <= year && year <= MAX_YEAR && 1 <= month && month <= 12 && 1 <= day && day
            <= month_length(year, month) {
            Some(CalendarDate { year, month, day })
        } else {
            None
        }
    }

    /// Two dates of the same year, month and day are the same date.
    pub proof fn lemma_view_tells_apart(self, other: CalendarDate)
        ensures
            self@ == other@ <==> self == other,
    {
    }

    /// The year.
    pub fn year(&self) -> (r: i32)
        ensures
            r == self@.year,
    {
        self.year
    }

    /// The month, from 1 to 12.
    pub fn month(&self) -> (r: u32)
        ensures
            r == self@.month,
    {
        self.month
    }

    /// The day of the month, from 1.
    pub fn day(&self) -> (r: u32)
        ensures
            r == self@.day,
    {
        self.day
    }

    /// Whether this date comes after `other`.
    pub fn is_after(&self, other: &CalendarDate) -> (r: bool)
        ensures
            r == (self@.day_number() > other@.day_number()),
    {
        proof {
            use_type_invariant(self);
            use_type_invariant(other);
            lemma_day_number_orders(other@, self@);
        }
        self.year > other.year || (self.year == other.year && (self.month > other.month || (
        self.month == other.month && self.day > other.day)))
    }

    /// This date minus `other`, in days: positive where this date is the
    /// later one.
    pub fn days_between(&self, other: &CalendarDate) -> (r: i64)
        ensures
            r == self@.day_number() - other@.day_number(),
    {
        proof {
            use_type_invariant(self);
            use_type_invariant(other);
        }
        match days_between((self.year, self.month, self.day), (other.year, other.month, other.day)) {
            Some(days) => days,
            None => unreached(),
        }
    }

    /// The date `days` days later, or `None` where the supported range ends
    /// before it.
    pub fn plus_days(&self, days: u32) -> (r: Option<CalendarDate>)
        ensures
            view_of(r) == on_day(self@.day_number() + days),
            r is Some <==> self@.day_number() + days <= last_date().day_number(),
            r matches Some(d) ==> d@.is_date(),
    {
        proof {
            use_type_invariant(self);
        }
        match date_plus_days(self.year, self.month, self.day, days) {
            Some((year, month, day)) => {
                proof {
                    lemma_on_day_of_date(ymd(year as int, month as int, day as int));
                    lemma_dates_within_range(ymd(year as int, month as int, day as int));
                }
                Some(CalendarDate { year, month, day })
            },
            None => {
                proof {
                    lemma_on_day_past_range(self@.day_number() + days);
                }
                None
            },
        }
    }

    /// The date `months` months later, on the last day of its month where
    /// that month has no day of this number, or `None` where the supported
    /// range ends before it.
    pub fn plus_months(&self, months: u32) -> (r: Option<CalendarDate>)
        ensures
            view_of(r) == months_later(self@, months as int),
            r matches Some(d) ==> d@.is_date(),
    {
        proof {
            use_type_invariant(self);
            lemma_months_later(self@, months as int);
        }
        match date_plus_months(self.year, self.month, self.day, months) {
            Some((year, month, day)) => Some(CalendarDate { year, month, day }),
            None => None,
        }
    }

    /// The date `years` years later: the same month and day, but the 28th of
    /// February for the 29th where the year reached is no leap year; `None`
    /// where the supported range ends before it.
    pub fn plus_years(&self, years: u32) -> (r: Option<CalendarDate>)
        ensures
            view_of(r) == months_later(self@, 12 * years),
            r matches Some(d) ==> d@.is_date(),
    {
        if years <= u32::MAX / 12 {
            self.plus_months(12 * years)
        } else {
            proof {
                use_type_invariant(self);
                lemma_years_later(self@, years as int);
            }
            None
        }
    }

    /// Reads a date from its text.
    pub fn parse(text: &str) -> (r: Result<CalendarDate, MalformedDate>)
        ensures
            match r {
                Ok(date) => parsed_date(text@) == Some(date@),
                Err(_) => parsed_date(text@) is None,
            },
    {
        match date_from_text(text) {
            Some((year, month, day)) => Ok(CalendarDate { year, month, day }),
            None => Err(MalformedDate),
        }
    }

    /// The text of this date: `YYYY-MM-DD` for the years 0 to 9999. Reading
    /// it gives this date again.
    pub fn format(&self) -> (r: String)
        ensures
            r@ == date_text(self@),
            parsed_date(r@) == Some(self@),
    {
        proof {
            use_type_invariant(self);
        }
        match date_to_text(self.year, self.month, self.day) {
            Some(text) => text,
            None => unreached(),
        }
    }
}

/// The date that was typed, or `today` where none was typed. `today` is
/// handed in: nothing here reads a clock.
pub fn date_or(text: Option<&str>, today: CalendarDate) -> (r: Result<CalendarDate, MalformedDate>)
    ensures
        match text {
            None => r == Ok::<CalendarDate, MalformedDate>(today),
            Some(t) => match r {
                Ok(date) => parsed_date(t@) == Some(date@),
                Err(_) => parsed_date(t@) is None,
            },
        },
{
    match text {
        Some(t) => CalendarDate::parse(t),
        None => Ok(today),
    }
}

/// A date as the text in which a schedule stores it. The text of a stored
/// date need not be one that can be read: see [`Date::as_naive`].
#[derive(Debug)]
pub struct Date(String);

impl Clone for Date {
    /// A stored date of the same text.
    fn clone(&self) -> (r: Date)
        ensures
            r@ == self@,
    {
        Date(self.0.clone())
    }
}

impl View for Date {
    type V = Seq<char>;

    /// The text of the stored date.
    closed spec fn view(&self) -> Seq<char> {
        self.0@
    }
}

impl Date {
    /// The stored date with the given text.
    pub fn from_text(text: String) -> (r: Date)
        ensures
            r@ == text@,
    {
        Date(text)
    }

    /// The text of the stored date.
    pub fn as_str(&self) -> (r: &str)
        ensures
            r@ == self@,
    {
        self.0.as_str()
    }

    /// The calendar date that the text stands for, or `None` where it stands
    /// for none.
    pub fn as_naive(&self) -> (r: Option<CalendarDate>)
        ensures
            view_of(r) == parsed_date(self@),
    {
        match CalendarDate::parse(self.0.as_str()) {
            Ok(date) => Some(date),
            Err(_) => None,
        }
    }
}

/// A `String` cannot be made in a spec function, so the conversion below has
/// no spec function that computes it: what `from` returns is stated as the
/// `ensures` of `from` itself.
impl vstd::std_specs::convert::FromSpecImpl<CalendarDate> for Date {
    open spec fn obeys_from_spec() -> bool {
        false
    }

    open spec fn from_spec(date: CalendarDate) -> Date {
        arbitrary()
    }
}

impl From<CalendarDate> for Date {
    /// The stored form of a calendar date. Read again, it is that date.
    fn from(date: CalendarDate) -> (r: Date)
        ensures
            r@ == date_text(date@),
            parsed_date(r@) == Some(date@),
    {
        Date(date.format())
    }
}

} // verus!
