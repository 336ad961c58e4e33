//! What this crate takes from `chrono`: parsing and printing a date, the days
//! between two dates, and moving a date by days or by months.
//!
//! The contracts of the executable functions of this file are not proved.
//! Each of them calls `chrono` on plain numbers and text, and its contract
//! says what `chrono` documents of the call, in the terms of
//! [`crate::gregorian`].

use crate::gregorian::{last_date, months_later, ymd, Ymd};
use chrono::{Datelike, Days, Months, NaiveDate};
use std::str::FromStr;
use vstd::prelude::*;

verus! {

/// The date that `chrono` reads from a text, or `None` where it reads none:
/// the result of `NaiveDate::from_str`, whose grammar is `chrono`'s own.
pub uninterp spec fn parsed_date(text: Seq<char>) -> Option<Ymd>;

/// The decimal digit for a number from 0 to 9.
pub open spec fn digit(n: int) -> char {
    if n == 0 {
        '0'
    } else if n == 1 {
        '1'
    } else if n == 2 {
        '2'
    } else if n == 3 {
        '3'
    } else if n == 4 {
        '4'
    } else if n == 5 {
        '5'
    } else if n == 6 {
        '6'
    } else if n == 7 {
        '7'
    } else if n == 8 {
        '8'
    } else {
        '9'
    }
}

/// The last `width` decimal digits of `n`, the most significant first.
pub open spec fn digits(n: int, width: nat) -> Seq<char>
    decreases width,
{
    if width == 0 {
        Seq::empty()
    } else {
        digits(n / 10, (width - 1) as nat).push(digit(n % 10))
    }
}

/// A year as it is printed: four digits from 0 to 9999; a sign and at least
/// four digits otherwise.
pub open spec fn year_text(year: int) -> Seq<char> {
    if 0 <= year <= 9999 {
        digits(year, 4)
    } else if year < 0 {
        seq!['-'] + digits(-year, if -year < 10000 { 4 } else if -year < 100000 { 5 } else { 6 })
    } else {
        seq!['+'] + digits(year, if year < 100000 { 5 } else { 6 })
    }
}

/// A date as it is printed: year, month and day, with `-` between them, and
/// month and day in two digits each.
pub open spec fn date_text(v: Ymd) -> Seq<char> {
    year_text(v.year) + seq!['-'] + digits(v.month, 2) + seq!['-'] + digits(v.day, 2)
}

/// `NaiveDate::from_str`. The contract gives the result its name, and says
/// that what `chrono` has read is a date of its range.
#[verifier::external_body]
pub(crate) fn date_from_text(text: &str) -> (r: Option<(i32, u32, u32)>)
    ensures
        match r {
            Some((year, month, day)) => {
                &&& parsed_date(text@) == Some(ymd(year as int, month as int, day as int))
                &&& ymd(year as int, month as int, day as int).is_date()
            },
            None => parsed_date(text@) is None,
        },
{
    let date = NaiveDate::from_str(text).ok()?;
    Some((date.year(), date.month(), date.day()))
}

/// `NaiveDate`'s `Display`, by way of `to_string`. The contract spells the
/// text out, and says that `NaiveDate::from_str` reads the same date back
/// from it, as `chrono` documents of what it prints.
#[verifier::external_body]
pub(crate) fn date_to_text(year: i32, month: u32, day: u32) -> (r: Option<String>)
    requires
        ymd(year as int, month as int, day as int).is_date(),
    ensures
        r is Some,
        r matches Some(text) ==> text@ == date_text(ymd(year as int, month as int, day as int)),
        r matches Some(text) ==> parsed_date(text@) == Some(
            ymd(year as int, month as int, day as int),
        ),
{
    let date = NaiveDate::from_ymd_opt(year, month, day)?;
    Some(date.to_string())
}

/// `NaiveDate::signed_duration_since` and `TimeDelta::num_days`: the days
/// from the second date to the first.
#[verifier::external_body]
pub(crate) fn days_between(to: (i32, u32, u32), from: (i32, u32, u32)) -> (r: Option<i64>)
    requires
        ymd(to.0 as int, to.1 as int, to.2 as int).is_date(),
        ymd(from.0 as int, from.1 as int, from.2 as int).is_date(),
    ensures
        r is Some,
        r matches Some(days) ==> days == ymd(to.0 as int, to.1 as int, to.2 as int).day_number()
            - ymd(from.0 as int, from.1 as int, from.2 as int).day_number(),
{
    let to = NaiveDate::from_ymd_opt(to.0, to.1, to.2)?;
    let from = NaiveDate::from_ymd_opt(from.0, from.1, from.2)?;
    Some(to.signed_duration_since(from).num_days())
}

/// `NaiveDate::checked_add_days`: the date that many days later, or `None`
/// where that is past the last date of `chrono`'s range.
#[verifier::external_body]
pub(crate) fn date_plus_days(year: i32, month: u32, day: u32, days: u32) -> (r: Option<
    (i32, u32, u32),
>)
    requires
        ymd(year as int, month as int, day as int).is_date(),
    ensures
        match r {
            Some((y, m, d)) => {
                &&& ymd(y as int, m as int, d as int).is_date()
                &&& ymd(y as int, m as int, d as int).day_number() == ymd(
                    year as int,
                    month as int,
                    day as int,
                ).day_number() + days
            },
            None => ymd(year as int, month as int, day as int).day_number() + days
                > last_date().day_number(),
        },
{
    let date = NaiveDate::from_ymd_opt(year, month, day)?;
    let later = date.checked_add_days(Days::new(u64::from(days)))?;
    Some((later.year(), later.month(), later.day()))
}

/// `NaiveDate::checked_add_months`: the date that many months later, on the
/// last day of its month where that month is too short, or `None` where the
/// year is past `chrono`'s range.
#[verifier::external_body]
pub(crate) fn date_plus_months(year: i32, month: u32, day: u32, months: u32) -> (r: Option<
    (i32, u32, u32),
>)
    requires
        ymd(year as int, month as int, day as int).is_date(),
    ensures
        match r {
            Some((y, m, d)) => months_later(
                ymd(year as int, month as int, day as int),
                months as int,
            ) == Some(ymd(y as int, m as int, d as int)),
            None => months_later(ymd(year as int, month as int, day as int), months as int)
                is None,
        },
{
    let date = NaiveDate::from_ymd_opt(year, month, day)?;
    let later = date.checked_add_months(Months::new(months))?;
    Some((later.year(), later.month(), later.day()))
}

} // verus!
