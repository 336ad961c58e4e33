use doq::data::Repeat;
use doq::{repeat_from_string, ParseError};

#[test]
fn never_is_the_rule_that_never_repeats() {
    assert_eq!(repeat_from_string("never"), Ok(Repeat::Never));
}

#[test]
fn a_count_and_a_unit() {
    assert_eq!(repeat_from_string("1d"), Ok(Repeat::Days(1)));
    assert_eq!(repeat_from_string("10d"), Ok(Repeat::Days(10)));
    assert_eq!(repeat_from_string("2m"), Ok(Repeat::Months(2)));
    assert_eq!(repeat_from_string("14m"), Ok(Repeat::Months(14)));
    assert_eq!(repeat_from_string("1y"), Ok(Repeat::Years(1)));
    assert_eq!(repeat_from_string("365d"), Ok(Repeat::Days(365)));
}

#[test]
fn a_count_may_have_zeros_and_a_plus_before_it() {
    assert_eq!(repeat_from_string("007d"), Ok(Repeat::Days(7)));
    assert_eq!(repeat_from_string("+5d"), Ok(Repeat::Days(5)));
    assert_eq!(repeat_from_string("+0012y"), Ok(Repeat::Years(12)));
    assert_eq!(repeat_from_string("010m"), Ok(Repeat::Months(10)));
}

#[test]
fn a_count_of_nothing_is_no_count() {
    assert_eq!(repeat_from_string("0d"), Err(ParseError::InvalidCount));
    assert_eq!(repeat_from_string("0m"), Err(ParseError::InvalidCount));
    assert_eq!(repeat_from_string("0y"), Err(ParseError::InvalidCount));
    assert_eq!(repeat_from_string("000d"), Err(ParseError::InvalidCount));
    assert_eq!(repeat_from_string("+0d"), Err(ParseError::InvalidCount));
    // the count is looked at before the unit
    assert_eq!(repeat_from_string("0x"), Err(ParseError::InvalidCount));
    assert_eq!(repeat_from_string("00"), Err(ParseError::InvalidCount));
    assert!(repeat_from_string("0d").is_err());
}

#[test]
fn every_rule_read_repeats_after_at_least_one() {
    for text in ["1d", "0d", "00m", "+0y", "10y", "+1m", "never", "4294967295d"] {
        match repeat_from_string(text) {
            Ok(Repeat::Days(n)) | Ok(Repeat::Months(n)) | Ok(Repeat::Years(n)) => assert!(n > 0),
            Ok(Repeat::Never) => assert_eq!(text, "never"),
            Err(e) => assert_eq!(e, ParseError::InvalidCount),
        }
    }
}

#[test]
fn a_count_up_to_the_largest() {
    assert_eq!(repeat_from_string("4294967295d"), Ok(Repeat::Days(u32::MAX)));
    assert_eq!(repeat_from_string("4294967296d"), Err(ParseError::InvalidCount));
    assert_eq!(repeat_from_string("4294967300m"), Err(ParseError::InvalidCount));
    assert_eq!(repeat_from_string("99999999999999999999999999y"), Err(ParseError::InvalidCount));
    assert_eq!(repeat_from_string("00000000000000000000000001y"), Ok(Repeat::Years(1)));
}

#[test]
fn what_is_no_count() {
    assert_eq!(repeat_from_string(""), Err(ParseError::InvalidCount));
    assert_eq!(repeat_from_string("d"), Err(ParseError::InvalidCount));
    assert_eq!(repeat_from_string("5"), Err(ParseError::InvalidCount));
    assert_eq!(repeat_from_string("+d"), Err(ParseError::InvalidCount));
    assert_eq!(repeat_from_string("++5d"), Err(ParseError::InvalidCount));
    assert_eq!(repeat_from_string("-5d"), Err(ParseError::InvalidCount));
    assert_eq!(repeat_from_string(" 5d"), Err(ParseError::InvalidCount));
    assert_eq!(repeat_from_string("5 d"), Err(ParseError::InvalidCount));
    assert_eq!(repeat_from_string("1.5d"), Err(ParseError::InvalidCount));
    assert_eq!(repeat_from_string("xd"), Err(ParseError::InvalidCount));
    assert_eq!(repeat_from_string("1e3d"), Err(ParseError::InvalidCount));
    assert_eq!(repeat_from_string("\u{ff15}d"), Err(ParseError::InvalidCount));
    assert_eq!(repeat_from_string("abc"), Err(ParseError::InvalidCount));
    // the count is looked at before the unit
    assert_eq!(repeat_from_string("xx"), Err(ParseError::InvalidCount));
}

#[test]
fn what_is_no_unit() {
    assert_eq!(repeat_from_string("5x"), Err(ParseError::MissingUnit));
    assert_eq!(repeat_from_string("5w"), Err(ParseError::MissingUnit));
    assert_eq!(repeat_from_string("55"), Err(ParseError::MissingUnit));
    assert_eq!(repeat_from_string("5 "), Err(ParseError::MissingUnit));
    assert_eq!(repeat_from_string("5\u{e9}"), Err(ParseError::MissingUnit));
}

#[test]
fn units_and_never_are_in_lower_case() {
    assert_eq!(repeat_from_string("5D"), Err(ParseError::MissingUnit));
    assert_eq!(repeat_from_string("5M"), Err(ParseError::MissingUnit));
    assert_eq!(repeat_from_string("5Y"), Err(ParseError::MissingUnit));
    assert_eq!(repeat_from_string("Never"), Err(ParseError::InvalidCount));
    assert_eq!(repeat_from_string("NEVER"), Err(ParseError::InvalidCount));
    assert_eq!(repeat_from_string("never "), Err(ParseError::InvalidCount));
    assert_eq!(repeat_from_string("neverd"), Err(ParseError::InvalidCount));
}

#[test]
fn the_messages() {
    assert_eq!(ParseError::InvalidCount.message(), "Expected a number");
    assert_eq!(
        ParseError::MissingUnit.message(),
        "Expected a suffix (d, m, y) for days, months, or years"
    );
}

fn as_the_standard_library_counts(text: &str) -> Result<Repeat, ParseError> {
    if text == "never" {
        return Ok(Repeat::Never);
    }
    let mut chars = text.chars();
    let unit = chars.next_back();
    let count: u32 = match chars.as_str().parse() {
        Ok(0) | Err(_) => return Err(ParseError::InvalidCount),
        Ok(c) => c,
    };
    match unit {
        Some('d') => Ok(Repeat::Days(count)),
        Some('m') => Ok(Repeat::Months(count)),
        Some('y') => Ok(Repeat::Years(count)),
        _ => Err(ParseError::MissingUnit),
    }
}

#[test]
fn counts_are_read_as_the_standard_library_reads_them_but_for_nothing() {
    let counts = [
        "", "0", "1", "9", "10", "42", "+42", "-42", "+", "-", "+-1", "0000", "4294967295", "4294967296",
        "42949672950", "18446744073709551616", "1_000", "1,000", "0x10", " 1", "1 ", "１", "٣", "1a", "a1",
    ];
    for count in counts {
        for unit in ["d", "m", "y", "x", "0", "é"] {
            let text = format!("{}{}", count, unit);
            assert_eq!(repeat_from_string(&text), as_the_standard_library_counts(&text), "{:?}", text);
        }
    }
}
