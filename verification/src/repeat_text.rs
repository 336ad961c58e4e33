//! Repeat rules as they are typed: `never`, or a count and a unit, as in
//! `10d`, `2m` and `1y`.

use crate::data::Repeat;
use vstd::prelude::*;

verus! {

/// Why a text is no repeat rule.
#[derive(Debug, Copy, Clone, PartialEq, Eq, Structural)]
pub enum ParseError {
    /// What stands before the last character is no count, or counts nothing.
    InvalidCount,
    /// The last character is none of the units `d`, `m` and `y`.
    MissingUnit,
}

/// The text of the rule that never repeats.
pub open spec fn never_text() -> Seq<char> {
    seq!['n', 'e', 'v', 'e', 'r']
}

pub open spec fn is_digit(c: char) -> bool {
    '0' <= c <= '9'
}

/// The number that a sequence of decimal digits stands for.
pub open spec fn decimal(digits: Seq<char>) -> nat
    decreases digits.len(),
{
    if digits.len() == 0 {
        0
    } else {
        10 * decimal(digits.drop_last()) + (digits.last() as nat - '0' as nat) as nat
    }
}

/// The digits of a count: the text itself, or what follows its leading `+`.
pub open spec fn count_digits(text: Seq<char>) -> Seq<char> {
    if text.len() > 0 && text[0] == '+' {
        text.skip(1)
    } else {
        text
    }
}

/// The count that a text stands for: one or more decimal digits, with or
/// without a `+` before them, whose number is at most `u32::MAX`.
pub open spec fn count_of(text: Seq<char>) -> Option<u32> {
    let digits = count_digits(text);
    if digits.len() > 0 && (forall|i: int| 0 <= i < digits.len() ==> is_digit(#[trigger] digits[i]))
        && decimal(digits) <= u32::MAX {
        Some(decimal(digits) as u32)
    } else {
        None
    }
}

/// The repeat rule that a text stands for. `never` is the rule that never
/// repeats. Any other text is a count, which is all but its last character,
/// and a unit, which is its last character: `d` for days, `m` for months,
/// `y` for years, in lower case. The count is looked at first, and a count
/// of nothing is no count: a rule repeats after at least one day, month or
/// year.
pub open spec fn repeat_of(text: Seq<char>) -> Result<Repeat, ParseError> {
    if text == never_text() {
        Ok(Repeat::Never)
    } else if text.len() == 0 {
        Err(ParseError::InvalidCount)
    } else {
        match count_of(text.drop_last()) {
            None => Err(ParseError::InvalidCount),
            Some(count) => if count == 0 {
                Err(ParseError::InvalidCount)
            } else if text.last() == 'd' {
                Ok(Repeat::Days(count))
            } else if text.last() == 'm' {
                Ok(Repeat::Months(count))
            } else if text.last() == 'y' {
                Ok(Repeat::Years(count))
            } else {
                Err(ParseError::MissingUnit)
            },
        }
    }
}

/// A number only grows when a digit is put behind its digits.
proof fn lemma_decimal_grows(digits: Seq<char>, shorter: int)
    requires
        0 <= shorter <= digits.len(),
        forall|i: int| 0 <= i < digits.len() ==> is_digit(#[trigger] digits[i]),
    ensures
        decimal(digits.take(shorter)) <= decimal(digits),
    decreases digits.len() - shorter,
{
    if shorter < digits.len() {
        let longer = digits.take(shorter + 1);
        assert(longer.drop_last() == digits.take(shorter));
        lemma_decimal_grows(digits, shorter + 1);
    } else {
        assert(digits.take(shorter) == digits);
    }
}

impl ParseError {
    /// What to tell the person who typed the text.
    pub fn message(&self) -> (r: &'static str)
        ensures
            r@ == match *self {
                ParseError::InvalidCount => "Expected a number"@,
                ParseError::MissingUnit => "Expected a suffix (d, m, y) for days, months, or years"@,
            },
    {
        match self {
            ParseError::InvalidCount => "Expected a number",
            ParseError::MissingUnit => "Expected a suffix (d, m, y) for days, months, or years",
        }
    }
}

/// Whether the text is `never`.
fn is_never(text: &str) -> (r: bool)
    ensures
        r == (text@ == never_text()),
{
    if text.unicode_len() != 5 {
        return false;
    }
    let same = text.get_char(0) == 'n' && text.get_char(1) == 'e' && text.get_char(2) == 'v'
        && text.get_char(3) == 'e' && text.get_char(4) == 'r';
    proof {
        if same {
            assert(text@ =~= never_text());
        }
    }
    same
}

/// Reads the count that the first `end` characters of `text` stand for.
fn count_from_string(text: &str, end: usize) -> (r: Option<u32>)
    requires
        end <= text@.len(),
    ensures
        r == count_of(text@.take(end as int)),
{
    let ghost whole = text@.take(end as int);
    let start: usize = if end > 0 && text.get_char(0) == '+' {
        1
    } else {
        0
    };
    let ghost digits = count_digits(whole);
    assert(digits =~= text@.subrange(start as int, end as int));
    if start == end {
        return None;
    }
    let mut value: u32 = 0;
    let mut i: usize = start;
    while i < end
        invariant
            start <= i <= end <= text@.len(),
            digits == text@.subrange(start as int, end as int),
            digits == count_digits(text@.take(end as int)),
            forall|k: int| 0 <= k < i - start ==> is_digit(#[trigger] digits[k]),
            value == decimal(digits.take(i - start)),
        decreases end - i,
    {
        let c = text.get_char(i);
        if !('0' <= c && c <= '9') {
            assert(!is_digit(digits[i - start]));
            return None;
        }
        let d: u32 = c as u32 - '0' as u32;
        proof {
            assert(digits.take(i - start + 1).drop_last() == digits.take(i - start));
            assert(digits.take(i - start + 1).last() == c);
        }
        if value > (u32::MAX - d) / 10 {
            proof {
                if forall|k: int| 0 <= k < digits.len() ==> is_digit(#[trigger] digits[k]) {
                    lemma_decimal_grows(digits, i - start + 1);
                }
            }
            return None;
        }
        value = value * 10 + d;
        i = i + 1;
    }
    assert(digits.take(i - start) == digits);
    Some(value)
}

/// Reads a repeat rule from the text in which it is typed.
pub fn repeat_from_string(string: &str) -> (r: Result<Repeat, ParseError>)
    ensures
        r == repeat_of(string@),
        r matches Ok(rule) ==> rule.wf(),
{
    if is_never(string) {
        return Ok(Repeat::Never);
    }
    let len = string.unicode_len();
    if len == 0 {
        return Err(ParseError::InvalidCount);
    }
    let count = match count_from_string(string, len - 1) {
        Some(c) => c,
        None => {
            return Err(ParseError::InvalidCount);
        },
    };
    if count == 0 {
        return Err(ParseError::InvalidCount);
    }
    let unit = string.get_char(len - 1);
    let repeat = if unit == 'd' {
        Repeat::Days(count)
    } else if unit == 'm' {
        Repeat::Months(count)
    } else if unit == 'y' {
        Repeat::Years(count)
    } else {
        return Err(ParseError::MissingUnit);
    };
    Ok(repeat)
}

} // verus!
