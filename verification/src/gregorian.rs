//! The proleptic Gregorian calendar as mathematics: which triples of year,
//! month and day are dates, how many days lie between two of them, and what
//! it means to move a date by a number of months.

use vstd::prelude::*;

verus! {

/// The first year of the supported range, which is that of
/// `chrono::NaiveDate`.
pub const MIN_YEAR: i32 = -262143;

/// The last year of the supported range.
pub const MAX_YEAR: i32 = 262142;

/// A year, a month (1 to 12) and a day of the month (1 to 31) as integers.
/// Not every value is a date: see [`Ymd::is_date`].
pub struct Ymd {
    pub year: int,
    pub month: int,
    pub day: int,
}

/// The triple as one value.
pub open spec fn ymd(year: int, month: int, day: int) -> Ymd {
    Ymd { year, month, day }
}

/// Every fourth year is a leap year, but of the years that end a century only
/// every fourth again. Year 0 is a leap year.
#[verifier::opaque]
pub open spec fn is_leap_year(year: int) -> bool {
    year % 4 == 0 && (year % 100 != 0 || year % 400 == 0)
}

/// The length of a year.
pub open spec fn days_in_year(year: int) -> int {
    if is_leap_year(year) {
        366
    } else {
        365
    }
}

/// The length of a month; meaningful for months 1 to 12.
pub open spec fn days_in_month(year: int, month: int) -> int {
    if month == 2 {
        if is_leap_year(year) {
            29
        } else {
            28
        }
    } else if month == 4 || month == 6 || month == 9 || month == 11 {
        30
    } else {
        31
    }
}

/// The days of `year` that lie before the first of `month`.
pub open spec fn days_before_month(year: int, month: int) -> int
    decreases month,
{
    if month <= 1 {
        0
    } else {
        days_before_month(year, month - 1) + days_in_month(year, month - 1)
    }
}

/// The leap years from year 0 up to, and without, `year`; for a negative
/// `year`, minus the number of leap years from `year` up to, and without, 0.
#[verifier::opaque]
pub open spec fn leap_years_before(year: int) -> int {
    (year + 3) / 4 - (year + 99) / 100 + (year + 399) / 400
}

/// The days from the first of January of year 0 to the first of January of
/// `year`; negative for negative years.
pub open spec fn days_before_year(year: int) -> int {
    365 * year + leap_years_before(year)
}

impl Ymd {
    /// The month exists and the day exists in that month of that year.
    pub open spec fn in_calendar(self) -> bool {
        &&& 1 <= self.month <= 12
        &&& 1 <= self.day <= days_in_month(self.year, self.month)
    }

    /// A date of the calendar whose year is in the supported range.
    pub open spec fn is_date(self) -> bool {
        &&& MIN_YEAR <= self.year <= MAX_YEAR
        &&& self.in_calendar()
    }

    /// The days from the first of January of year 0 to this date.
    pub open spec fn day_number(self) -> int {
        days_before_year(self.year) + days_before_month(self.year, self.month) + self.day - 1
    }

    /// Earlier in the calendar, comparing year, then month, then day.
    pub open spec fn precedes(self, other: Ymd) -> bool {
        ||| self.year < other.year
        ||| self.year == other.year && self.month < other.month
        ||| self.year == other.year && self.month == other.month && self.day < other.day
    }
}

/// The first date of the supported range.
pub open spec fn first_date() -> Ymd {
    ymd(MIN_YEAR as int, 1, 1)
}

/// The last date of the supported range.
pub open spec fn last_date() -> Ymd {
    ymd(MAX_YEAR as int, 12, 31)
}

/// A year is as long as its months together, and each month starts where the
/// table says.
pub proof fn lemma_month_starts(year: int)
    ensures
        days_before_month(year, 1) == 0,
        days_before_month(year, 2) == 31,
        days_before_month(year, 3) == 59 + days_in_year(year) - 365,
        days_before_month(year, 4) == 90 + days_in_year(year) - 365,
        days_before_month(year, 5) == 120 + days_in_year(year) - 365,
        days_before_month(year, 6) == 151 + days_in_year(year) - 365,
        days_before_month(year, 7) == 181 + days_in_year(year) - 365,
        days_before_month(year, 8) == 212 + days_in_year(year) - 365,
        days_before_month(year, 9) == 243 + days_in_year(year) - 365,
        days_before_month(year, 10) == 273 + days_in_year(year) - 365,
        days_before_month(year, 11) == 304 + days_in_year(year) - 365,
        days_before_month(year, 12) == 334 + days_in_year(year) - 365,
        days_before_month(year, 13) == days_in_year(year),
{
    reveal_with_fuel(days_before_month, 14);
}

/// The count of days before a year grows by the length of each year passed.
pub proof fn lemma_year_starts(year: int)
    ensures
        days_before_year(0) == 0,
        days_before_year(year + 1) == days_before_year(year) + days_in_year(year),
{
    reveal(leap_years_before);
    reveal(is_leap_year);
    lemma_multiples_before_step(year, 4);
    lemma_multiples_before_step(year, 100);
    lemma_multiples_before_step(year, 400);
    lemma_multiple_of_multiple(year, 100, 4);
    lemma_multiple_of_multiple(year, 4, 25);
}

/// A later year starts after the whole of an earlier one.
pub proof fn lemma_years_in_order(early: int, late: int)
    requires
        early < late,
    ensures
        days_before_year(early) + days_in_year(early) <= days_before_year(late),
    decreases late - early,
{
    lemma_year_starts(early);
    if early + 1 < late {
        lemma_years_in_order(early + 1, late);
    }
}

/// The day number orders dates as the calendar does, and tells them apart.
pub proof fn lemma_day_number_orders(a: Ymd, b: Ymd)
    requires
        a.in_calendar(),
        b.in_calendar(),
    ensures
        a.precedes(b) <==> a.day_number() < b.day_number(),
        a == b <==> a.day_number() == b.day_number(),
{
    lemma_month_starts(a.year);
    lemma_month_starts(b.year);
    if a.year < b.year {
        lemma_years_in_order(a.year, b.year);
    }
    if b.year < a.year {
        lemma_years_in_order(b.year, a.year);
    }
}

/// The date with the given day number, where the supported range has one.
pub open spec fn on_day(number: int) -> Option<Ymd> {
    if exists|v: Ymd| v.is_date() && #[trigger] v.day_number() == number {
        Some(choose|v: Ymd| v.is_date() && #[trigger] v.day_number() == number)
    } else {
        None
    }
}

/// The date `months` months after `from`: the month moves on by that many,
/// carrying into the year, and the day of the month stays, or becomes the
/// last day of the month reached where that month is too short for it.
/// `None` where the year reached lies outside the supported range.
pub open spec fn months_later(from: Ymd, months: int) -> Option<Ymd> {
    let index = from.year * 12 + (from.month - 1) + months;
    let year = index / 12;
    let month = index % 12 + 1;
    let length = days_in_month(year, month);
    if MIN_YEAR <= year <= MAX_YEAR {
        Some(Ymd { year, month, day: if from.day <= length { from.day } else { length } })
    } else {
        None
    }
}

/// No date of the supported range lies before the first or after the last.
pub proof fn lemma_dates_within_range(v: Ymd)
    requires
        v.is_date(),
    ensures
        first_date().day_number() <= v.day_number() <= last_date().day_number(),
{
    lemma_day_number_orders(first_date(), v);
    lemma_day_number_orders(v, last_date());
}

/// Each date is the one found on its own day number.
pub proof fn lemma_on_day_of_date(v: Ymd)
    requires
        v.is_date(),
    ensures
        on_day(v.day_number()) == Some(v),
{
    let found = choose|w: Ymd| w.is_date() && #[trigger] w.day_number() == v.day_number();
    lemma_day_number_orders(v, found);
}

/// Past the last date there is none.
pub proof fn lemma_on_day_past_range(number: int)
    requires
        number > last_date().day_number(),
    ensures
        on_day(number) is None,
{
    if exists|v: Ymd| v.is_date() && #[trigger] v.day_number() == number {
        let v = choose|v: Ymd| v.is_date() && #[trigger] v.day_number() == number;
        lemma_dates_within_range(v);
    }
}

/// Every day from the first date to the last is the day of a date.
pub proof fn lemma_on_day_within_range(number: int)
    requires
        first_date().day_number() <= number <= last_date().day_number(),
    ensures
        on_day(number) is Some,
    decreases number - first_date().day_number(),
{
    if number == first_date().day_number() {
        lemma_on_day_of_date(first_date());
    } else {
        lemma_on_day_within_range(number - 1);
        let before = on_day(number - 1).unwrap();
        let date = next_day(before);
        lemma_next_day(before);
        lemma_day_number_orders(last_date(), date);
        lemma_on_day_of_date(date);
    }
}

/// Moving by no months changes nothing; moving by one or more gives a date
/// of a later month, hence a later date.
pub proof fn lemma_months_later(from: Ymd, months: int)
    requires
        from.is_date(),
        months >= 0,
    ensures
        months == 0 ==> months_later(from, months) == Some(from),
        months_later(from, months) matches Some(to) ==> {
            &&& to.is_date()
            &&& to.year * 12 + to.month == from.year * 12 + from.month + months
            &&& months > 0 ==> from.day_number() < to.day_number()
        },
{
    if let Some(to) = months_later(from, months) {
        lemma_day_number_orders(from, to);
    }
}

/// Moving by whole years keeps the month, and the day but for the 29th of
/// February, which becomes the 28th in a year that is no leap year.
pub proof fn lemma_years_later(from: Ymd, years: int)
    requires
        from.is_date(),
        years >= 0,
    ensures
        months_later(from, 12 * years) == if from.year + years <= MAX_YEAR {
            let length = days_in_month(from.year + years, from.month);
            Some(
                Ymd {
                    year: from.year + years,
                    month: from.month,
                    day: if from.day <= length { from.day } else { length },
                },
            )
        } else {
            None
        },
{
}

/// The day after a day of the calendar.
pub open spec fn next_day(v: Ymd) -> Ymd {
    if v.day < days_in_month(v.year, v.month) {
        ymd(v.year, v.month, v.day + 1)
    } else if v.month < 12 {
        ymd(v.year, v.month + 1, 1)
    } else {
        ymd(v.year + 1, 1, 1)
    }
}

/// The day numbers count the days: the day after has the next number.
pub proof fn lemma_next_day(v: Ymd)
    requires
        v.in_calendar(),
    ensures
        next_day(v).in_calendar(),
        next_day(v).day_number() == v.day_number() + 1,
{
    lemma_month_starts(v.year);
    lemma_year_starts(v.year);
}

/// Counting the multiples of `d` below a number: one more after each multiple.
proof fn lemma_multiples_before_step(x: int, d: int)
    requires
        d > 0,
    ensures
        (x + 1 + (d - 1)) / d == (x + (d - 1)) / d + if x % d == 0 { 1int } else { 0int },
{
    lemma_floor_step(x + (d - 1), d);
    lemma_multiple_shift(x, d);
}

/// A multiple of `d * k` is a multiple of `d`.
proof fn lemma_multiple_of_multiple(x: int, d: int, k: int)
    requires
        d > 0,
        k > 0,
    ensures
        x % (d * k) == 0 ==> x % d == 0,
{
    assert(d * k > 0) by (nonlinear_arith)
        requires
            d > 0,
            k > 0,
    ;
    if x % (d * k) == 0 {
        vstd::arithmetic::div_mod::lemma_fundamental_div_mod(x, d * k);
        let q = x / (d * k);
        assert(x == (q * k) * d + 0) by (nonlinear_arith)
            requires
                x == (d * k) * q + 0,
        ;
        vstd::arithmetic::div_mod::lemma_fundamental_div_mod_converse(x, d, q * k, 0);
    }
}

/// Rounding down steps up by one exactly at the multiples of the divisor.
proof fn lemma_floor_step(x: int, d: int)
    requires
        d > 0,
    ensures
        (x + 1) / d == x / d + if (x + 1) % d == 0 { 1int } else { 0int },
{
    vstd::arithmetic::div_mod::lemma_fundamental_div_mod(x, d);
    vstd::arithmetic::div_mod::lemma_fundamental_div_mod(x + 1, d);
    let q = x / d;
    let r = x % d;
    if r + 1 < d {
        assert(x + 1 == q * d + (r + 1)) by (nonlinear_arith)
            requires
                x == d * q + r,
        ;
        vstd::arithmetic::div_mod::lemma_fundamental_div_mod_converse(x + 1, d, q, r + 1);
    } else {
        assert(x + 1 == (q + 1) * d + 0) by (nonlinear_arith)
            requires
                x == d * q + r,
                r + 1 == d,
        ;
        vstd::arithmetic::div_mod::lemma_fundamental_div_mod_converse(x + 1, d, q + 1, 0);
    }
}

/// Adding the divisor to a number does not change whether it is a multiple.
proof fn lemma_multiple_shift(x: int, d: int)
    requires
        d > 0,
    ensures
        (x + d) % d == x % d,
{
    vstd::arithmetic::div_mod::lemma_mod_add_multiples_vanish(x, d);
}

} // verus!
