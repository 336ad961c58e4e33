use doq::data::date::{leap_year, month_length};
use doq::data::{date_or, CalendarDate, Date, MalformedDate};

fn day(year: i32, month: u32, day: u32) -> CalendarDate {
    CalendarDate::from_ymd(year, month, day).unwrap()
}

#[test]
fn from_ymd_takes_dates_only() {
    assert!(CalendarDate::from_ymd(2015, 3, 14).is_some());
    assert!(CalendarDate::from_ymd(2015, 0, 14).is_none());
    assert!(CalendarDate::from_ymd(2015, 13, 14).is_none());
    assert!(CalendarDate::from_ymd(2015, 3, 0).is_none());
    assert!(CalendarDate::from_ymd(2015, 3, 32).is_none());
    assert!(CalendarDate::from_ymd(2015, 4, 31).is_none());
    assert!(CalendarDate::from_ymd(2015, 2, 29).is_none());
    assert!(CalendarDate::from_ymd(2016, 2, 29).is_some());
    assert!(CalendarDate::from_ymd(1900, 2, 29).is_none());
    assert!(CalendarDate::from_ymd(2000, 2, 29).is_some());
    assert!(CalendarDate::from_ymd(-4, 2, 29).is_some());
    assert!(CalendarDate::from_ymd(400000, 1, 1).is_none());
    assert!(CalendarDate::from_ymd(-400000, 1, 1).is_none());
}

#[test]
fn from_ymd_keeps_year_month_and_day() {
    let d = day(2017, 5, 27);
    assert_eq!((d.year(), d.month(), d.day()), (2017, 5, 27));
    let d = day(-44, 3, 15);
    assert_eq!((d.year(), d.month(), d.day()), (-44, 3, 15));
}

#[test]
fn the_range_of_years() {
    assert!(CalendarDate::from_ymd(262142, 12, 31).is_some());
    assert!(CalendarDate::from_ymd(262143, 1, 1).is_none());
    assert!(CalendarDate::from_ymd(-262143, 1, 1).is_some());
    assert!(CalendarDate::from_ymd(-262144, 12, 31).is_none());
    assert!(CalendarDate::from_ymd(i32::MAX, 1, 1).is_none());
    assert!(CalendarDate::from_ymd(i32::MIN, 1, 1).is_none());
}

#[test]
fn leap_years() {
    assert!(leap_year(2016));
    assert!(!leap_year(2017));
    assert!(!leap_year(1900));
    assert!(leap_year(2000));
    assert!(leap_year(0));
    assert!(leap_year(-4));
    assert!(!leap_year(-1));
    assert!(!leap_year(-100));
    assert!(leap_year(-400));
}

#[test]
fn month_lengths() {
    let lengths: Vec<u32> = (1..=12).map(|m| month_length(2017, m)).collect();
    assert_eq!(lengths, vec![31, 28, 31, 30, 31, 30, 31, 31, 30, 31, 30, 31]);
    assert_eq!(month_length(2016, 2), 29);
    assert_eq!(month_length(1900, 2), 28);
    assert_eq!(month_length(2000, 2), 29);
    assert_eq!(lengths.iter().sum::<u32>(), 365);
}

#[test]
fn is_after_orders_by_year_then_month_then_day() {
    assert!(day(2017, 5, 28).is_after(&day(2017, 5, 27)));
    assert!(!day(2017, 5, 27).is_after(&day(2017, 5, 27)));
    assert!(!day(2017, 5, 26).is_after(&day(2017, 5, 27)));
    assert!(day(2017, 6, 1).is_after(&day(2017, 5, 31)));
    assert!(day(2018, 1, 1).is_after(&day(2017, 12, 31)));
    assert!(!day(2016, 12, 31).is_after(&day(2017, 1, 1)));
    assert!(day(0, 1, 1).is_after(&day(-1, 12, 31)));
}

#[test]
fn format_writes_year_month_day() {
    assert_eq!(day(2017, 5, 27).format(), "2017-05-27");
    assert_eq!(day(2015, 9, 5).format(), "2015-09-05");
    assert_eq!(day(0, 1, 1).format(), "0000-01-01");
    assert_eq!(day(7, 3, 9).format(), "0007-03-09");
    assert_eq!(day(9999, 12, 31).format(), "9999-12-31");
}

#[test]
fn format_signs_years_outside_four_digits() {
    assert_eq!(day(-1, 1, 1).format(), "-0001-01-01");
    assert_eq!(day(-9999, 1, 1).format(), "-9999-01-01");
    assert_eq!(day(-10000, 1, 1).format(), "-10000-01-01");
    assert_eq!(day(10000, 12, 31).format(), "+10000-12-31");
    assert_eq!(day(99999, 12, 31).format(), "+99999-12-31");
    assert_eq!(day(100000, 12, 31).format(), "+100000-12-31");
    assert_eq!(day(262142, 12, 31).format(), "+262142-12-31");
    assert_eq!(day(-262143, 1, 1).format(), "-262143-01-01");
}

#[test]
fn parse_reads_dates() {
    assert_eq!(CalendarDate::parse("2015-09-18"), Ok(day(2015, 9, 18)));
    assert_eq!(CalendarDate::parse("2020-01-01"), Ok(day(2020, 1, 1)));
    assert_eq!(CalendarDate::parse("+12345-6-7"), Ok(day(12345, 6, 7)));
    assert_eq!(CalendarDate::parse("-0001-01-01"), Ok(day(-1, 1, 1)));
    assert_eq!(CalendarDate::parse("2016-02-29"), Ok(day(2016, 2, 29)));
}

#[test]
fn parse_refuses_what_is_no_date() {
    assert_eq!(CalendarDate::parse("foo"), Err(MalformedDate));
    assert_eq!(CalendarDate::parse(""), Err(MalformedDate));
    assert_eq!(CalendarDate::parse("2015-02-29"), Err(MalformedDate));
    assert_eq!(CalendarDate::parse("2015-13-01"), Err(MalformedDate));
    assert_eq!(CalendarDate::parse("2015-00-10"), Err(MalformedDate));
    assert_eq!(CalendarDate::parse("2015-09-18x"), Err(MalformedDate));
    assert_eq!(CalendarDate::parse("2015/09/18"), Err(MalformedDate));
    assert_eq!(CalendarDate::parse("27.05.2017"), Err(MalformedDate));
    assert_eq!(CalendarDate::parse("+300000-01-01"), Err(MalformedDate));
}

#[test]
fn parse_of_format_is_the_date() {
    let years = [-262143, -100000, -10000, -9999, -401, -1, 0, 1, 999, 1970, 2017, 9999, 10000, 262142];
    let days = [(1, 1), (2, 28), (3, 1), (6, 30), (10, 9), (12, 31)];
    for year in years {
        for (month, d) in days {
            let date = day(year, month, d);
            assert_eq!(CalendarDate::parse(&date.format()), Ok(date));
            assert_eq!(Date::from(date).as_naive(), Some(date));
        }
    }
    let leap = day(2016, 2, 29);
    assert_eq!(CalendarDate::parse(&leap.format()), Ok(leap));
}

#[test]
fn a_stored_date_keeps_its_text() {
    let stored = Date::from_text(String::from("2017-05-27"));
    assert_eq!(stored.as_str(), "2017-05-27");
    assert_eq!(stored.as_naive(), Some(day(2017, 5, 27)));
    assert_eq!(stored.clone().as_str(), "2017-05-27");

    let odd = Date::from_text(String::from("next week"));
    assert_eq!(odd.as_str(), "next week");
    assert_eq!(odd.as_naive(), None);
}

#[test]
fn a_stored_date_is_written_as_format_writes() {
    assert_eq!(Date::from(day(2017, 5, 27)).as_str(), "2017-05-27");
    assert_eq!(Date::from(day(-5, 1, 2)).as_str(), "-0005-01-02");
    let stored: Date = day(2020, 1, 8).into();
    assert_eq!(stored.as_str(), "2020-01-08");
}

#[test]
fn days_between_counts_days() {
    assert_eq!(day(2017, 5, 27).days_between(&day(2017, 5, 27)), 0);
    assert_eq!(day(2017, 5, 27).days_between(&day(2017, 4, 27)), 30);
    assert_eq!(day(2017, 4, 27).days_between(&day(2017, 5, 27)), -30);
    assert_eq!(day(2017, 1, 1).days_between(&day(2016, 1, 1)), 366);
    assert_eq!(day(2014, 1, 1).days_between(&day(1614, 1, 1)), 365 * 400 + 97);
}

#[test]
fn plus_days_moves_by_days() {
    assert_eq!(day(2022, 2, 20).plus_days(9), Some(day(2022, 3, 1)));
    assert_eq!(day(2022, 7, 31).plus_days(2), Some(day(2022, 8, 2)));
    assert_eq!(day(2022, 7, 31).plus_days(0), Some(day(2022, 7, 31)));
    assert_eq!(day(2016, 2, 28).plus_days(1), Some(day(2016, 2, 29)));
    assert_eq!(day(2017, 2, 28).plus_days(1), Some(day(2017, 3, 1)));
    assert_eq!(day(2017, 12, 31).plus_days(1), Some(day(2018, 1, 1)));
    assert_eq!(day(1970, 1, 1).plus_days(10957), Some(day(2000, 1, 1)));
    assert_eq!(day(-1, 12, 31).plus_days(1), Some(day(0, 1, 1)));
}

#[test]
fn plus_days_ends_with_the_range() {
    assert_eq!(day(262142, 12, 31).plus_days(1), None);
    assert_eq!(day(262142, 12, 31).plus_days(0), Some(day(262142, 12, 31)));
    assert_eq!(day(262142, 1, 1).plus_days(364), Some(day(262142, 12, 31)));
    assert_eq!(day(262142, 1, 1).plus_days(365), None);
    assert_eq!(day(2017, 1, 1).plus_days(u32::MAX), None);
    assert_eq!(day(-262143, 1, 1).plus_days(191_491_528), Some(day(262142, 12, 31)));
    assert_eq!(day(-262143, 1, 1).plus_days(191_491_529), None);
}

#[test]
fn plus_months_moves_by_months() {
    assert_eq!(day(2022, 2, 20).plus_months(6), Some(day(2022, 8, 20)));
    assert_eq!(day(2022, 7, 31).plus_months(2), Some(day(2022, 9, 30)));
    assert_eq!(day(2022, 7, 31).plus_months(0), Some(day(2022, 7, 31)));
    assert_eq!(day(2017, 1, 31).plus_months(1), Some(day(2017, 2, 28)));
    assert_eq!(day(2016, 1, 31).plus_months(1), Some(day(2016, 2, 29)));
    assert_eq!(day(2017, 12, 15).plus_months(1), Some(day(2018, 1, 15)));
    assert_eq!(day(2017, 5, 27).plus_months(14), Some(day(2018, 7, 27)));
    assert_eq!(day(2017, 5, 27).plus_months(7), Some(day(2017, 12, 27)));
    assert_eq!(day(2017, 5, 27).plus_months(8), Some(day(2018, 1, 27)));
    assert_eq!(day(-1, 11, 30).plus_months(3), Some(day(0, 2, 29)));
}

#[test]
fn plus_months_ends_with_the_range() {
    assert_eq!(day(262142, 12, 1).plus_months(1), None);
    assert_eq!(day(262142, 11, 30).plus_months(1), Some(day(262142, 12, 30)));
    assert_eq!(day(2017, 5, 27).plus_months(u32::MAX), None);
    assert_eq!(day(2017, 5, 27).plus_months(i32::MAX as u32), None);
    assert_eq!(day(2017, 5, 27).plus_months(i32::MAX as u32 + 1), None);
}

#[test]
fn plus_years_moves_by_years() {
    assert_eq!(day(2017, 5, 27).plus_years(1), Some(day(2018, 5, 27)));
    assert_eq!(day(2017, 5, 27).plus_years(0), Some(day(2017, 5, 27)));
    assert_eq!(day(2016, 2, 29).plus_years(1), Some(day(2017, 2, 28)));
    assert_eq!(day(2016, 2, 29).plus_years(4), Some(day(2020, 2, 29)));
    assert_eq!(day(2016, 2, 29).plus_years(84), Some(day(2100, 2, 28)));
    assert_eq!(day(-3, 7, 4).plus_years(5), Some(day(2, 7, 4)));
}

#[test]
fn plus_years_ends_with_the_range() {
    assert_eq!(day(262141, 6, 1).plus_years(1), Some(day(262142, 6, 1)));
    assert_eq!(day(262142, 6, 1).plus_years(1), None);
    assert_eq!(day(2017, 5, 27).plus_years(u32::MAX / 12), None);
    assert_eq!(day(2017, 5, 27).plus_years(u32::MAX / 12 + 1), None);
    assert_eq!(day(2017, 5, 27).plus_years(u32::MAX), None);
}

#[test]
fn plus_days_gives_a_date_up_to_the_last() {
    let last = day(262142, 12, 31);
    for (y, m, d) in [(-262143, 1, 1), (0, 1, 1), (2017, 5, 27), (262142, 12, 1)] {
        let from = day(y, m, d);
        let left = last.days_between(&from) as u32;
        assert_eq!(from.plus_days(left), Some(last));
        assert_eq!(from.plus_days(left + 1), None);
        assert!(from.plus_days(left / 2).is_some());
        assert!(from.plus_days(1).is_some());
    }
}

#[test]
fn date_or_takes_what_was_typed_or_today() {
    let today = day(2024, 6, 1);
    assert_eq!(date_or(None, today), Ok(today));
    assert_eq!(date_or(Some("2017-05-27"), today), Ok(day(2017, 5, 27)));
    assert_eq!(date_or(Some("2024-06-01"), day(1999, 1, 1)), Ok(today));
    assert_eq!(date_or(Some("tomorrow"), today), Err(MalformedDate));
    assert_eq!(date_or(Some(""), today), Err(MalformedDate));
    assert_eq!(date_or(Some("2017-02-29"), today), Err(MalformedDate));
}
