//! Calendar dates, and how a field value is read as one.

use crate::billing_infos::swico::numeric::{all_digits, digit_value, is_digit, is_digits};
use crate::billing_infos::swico::syntax::{SpecSyntaxError, SyntaxValidatorError};
use crate::billing_infos::swico::DATE_FMT;
use chrono::{Datelike, NaiveDate};
use vstd::prelude::*;

verus! {

/// `chrono::ParseError`, the error of the date parser. Nothing is claimed
/// of what it holds.
#[verifier::external_type_specification]
#[verifier::external_body]
pub struct ExParseError(chrono::ParseError);

/// A leap year of the Gregorian calendar.
pub open spec fn is_leap_year(year: int) -> bool {
    year % 4 == 0 && (year % 100 != 0 || year % 400 == 0)
}

/// Number of days of the month `month` in the year `year`.
pub open spec fn days_in_month(year: int, month: int) -> int {
    if month == 2 {
        if is_leap_year(year) {
            29
        } else {
            28
        }
    } else if month == 4 || month == 6 || month == 9 || month == 11 {
        30
    } else {
        31
    }
}

/// A day that exists in the Gregorian calendar, in a year from 0 to 9999.
pub open spec fn is_calendar_date(date: (int, int, int)) -> bool {
    &&& 0 <= date.0 <= 9999
    &&& 1 <= date.1 <= 12
    &&& 1 <= date.2 <= days_in_month(date.0, date.1)
}

/// Whether the day `a` comes before the day `b`.
pub open spec fn date_lt(a: (int, int, int), b: (int, int, int)) -> bool {
    a.0 < b.0 || (a.0 == b.0 && (a.1 < b.1 || (a.1 == b.1 && a.2 < b.2)))
}

/// The character of the digit `n`.
pub open spec fn digit_char(n: int) -> char {
    ((n + 48) as u8) as char
}

/// The number `n`, below 100, as two digits.
pub open spec fn two_digits(n: int) -> Seq<char> {
    seq![digit_char(n / 10), digit_char(n % 10)]
}

/// A date written as year, month and day with hyphens between them: four
/// digits, two and two.
pub open spec fn iso_date_text(date: (int, int, int)) -> Seq<char> {
    two_digits(date.0 / 100) + two_digits(date.0 % 100) + seq!['-'] + two_digits(date.1) + seq![
        '-',
    ] + two_digits(date.2)
}

/// A day of the Gregorian calendar, in a year from 0 to 9999.
#[derive(Clone, Copy, Debug, PartialEq, Eq, Structural)]
pub struct Date {
    year: i32,
    month: u32,
    day: u32,
}

impl View for Date {
    type V = (int, int, int);

    closed spec fn view(&self) -> (int, int, int) {
        (self.year as int, self.month as int, self.day as int)
    }
}

impl Date {
    #[verifier::type_invariant]
    spec fn is_valid(self) -> bool {
        is_calendar_date(self@)
    }

    /// The day `day` of the month `month` of the year `year`, if that is a
    /// calendar date.
    pub fn new(year: i32, month: u32, day: u32) -> (r: Option<Date>)
        ensures
            match r {
                Some(date) => date@ == (year as int, month as int, day as int) && is_calendar_date(
                    date@,
                ),
                None => !is_calendar_date((year as int, month as int, day as int)),
            },
    {
        if year < 0 || year > 9999 || month < 1 || month > 12 || day < 1 {
            return None;
        }
        let leap = year % 4 == 0 && (year % 100 != 0 || year % 400 == 0);
        let days: u32 = if month == 2 {
            if leap {
                29
            } else {
                28
            }
        } else if month == 4 || month == 6 || month == 9 || month == 11 {
            30
        } else {
            31
        };
        if day > days {
            return None;
        }
        Some(Date { year, month, day })
    }

    /// The year of the day.
    pub fn year(&self) -> (year: i32)
        ensures
            year == self@.0,
    {
        self.year
    }

    /// The month of the day, from 1 to 12.
    pub fn month(&self) -> (month: u32)
        ensures
            month == self@.1,
    {
        self.month
    }

    /// The day of the month, from 1 on.
    pub fn day(&self) -> (day: u32)
        ensures
            day == self@.2,
    {
        self.day
    }

    /// Whether this day comes before `other`.
    pub fn is_before(&self, other: &Date) -> (b: bool)
        ensures
            b == date_lt(self@, other@),
    {
        self.year < other.year || (self.year == other.year && (self.month < other.month || (
        self.month == other.month && self.day < other.day)))
    }

    /// The date as text: year, month and day with hyphens between them.
    pub fn iso_text(&self) -> (text: String)
        ensures
            text@ == iso_date_text(self@),
    {
        proof {
            use_type_invariant(self);
        }
        date_text(self)
    }
}

/// The number that the two digits of `text` at `at` and after it stand for.
pub open spec fn pair_value(text: Seq<char>, at: int) -> int {
    (digit_value(text[at]) * 10 + digit_value(text[at + 1])) as int
}

/// The year that the last two digits `yy` of a year stand for: a year from
/// 1970 to 2069.
pub open spec fn full_year(yy: int) -> int {
    if yy < 70 {
        2000 + yy
    } else {
        1900 + yy
    }
}

/// The year, month and day that six digits stand for, two digits each.
pub open spec fn digits_date(text: Seq<char>) -> (int, int, int) {
    (full_year(pair_value(text, 0)), pair_value(text, 2), pair_value(text, 4))
}

/// The day that `chrono::NaiveDate::parse_from_str` reads from `text` under
/// the format `DATE_FMT`, as year, month and day; `None` where it reports
/// an error.
pub uninterp spec fn yymmdd_date(text: Seq<char>) -> Option<(int, int, int)>;

/// `chrono::NaiveDate::parse_from_str` with the format `DATE_FMT`, the day it
/// returns taken apart into year, month and day. The contract gives that
/// result the name `yymmdd_date`, and claims two things of it. A day so
/// read exists in the calendar and lies in a year from 0 to 9999. And of
/// six digits the parser takes two each for year, month and day, takes the
/// year from 1970 to 2069, and returns the day if the calendar has it and
/// an error if not.
#[verifier::external_body]
fn parse_date(text: &str) -> (r: Result<Date, chrono::ParseError>)
    ensures
        match r {
            Ok(date) => yymmdd_date(text@) == Some(date@) && is_calendar_date(date@),
            Err(_) => yymmdd_date(text@) is None,
        },
        text@.len() == 6 && all_digits(text@) ==> match r {
            Ok(date) => date@ == digits_date(text@),
            Err(_) => !is_calendar_date(digits_date(text@)),
        },
{
    match NaiveDate::parse_from_str(text, DATE_FMT) {
        Ok(d) => Ok(Date { year: d.year(), month: d.month(), day: d.day() }),
        Err(e) => Err(e),
    }
}

/// `chrono::NaiveDate::from_ymd_opt`, then `to_string` on the day it
/// returns. For a calendar date in a year from 0 to 9999 the first returns
/// the day, and the second writes the year in four digits, the month and
/// the day in two each, with a hyphen after the year and after the month.
#[verifier::external_body]
fn date_text(date: &Date) -> (text: String)
    requires
        is_calendar_date(date@),
    ensures
        text@ == iso_date_text(date@),
{
    match NaiveDate::from_ymd_opt(date.year, date.month, date.day) {
        Some(d) => d.to_string(),
        None => String::new(),
    }
}

/// What reading `text` as a day gives: the day, or `None` where the text
/// stands for none. Six digits are read by their value; of any other text
/// the date parser decides.
pub open spec fn read_day(text: Seq<char>) -> Option<(int, int, int)> {
    if text.len() == 6 && all_digits(text) {
        if is_calendar_date(digits_date(text)) {
            Some(digits_date(text))
        } else {
            None
        }
    } else {
        yymmdd_date(text)
    }
}

/// Six digits that stand for a day of the calendar.
pub open spec fn is_day_text(text: Seq<char>) -> bool {
    text.len() == 6 && all_digits(text) && is_calendar_date(digits_date(text))
}

/// A valid date field: six digits that stand for a day, or twelve that
/// stand for two days of which the first comes before the second.
pub open spec fn is_date_field(d: Seq<char>) -> bool {
    ||| is_day_text(d)
    ||| {
        &&& d.len() == 12
        &&& is_day_text(d.subrange(0, 6))
        &&& is_day_text(d.subrange(6, 12))
        &&& date_lt(digits_date(d.subrange(0, 6)), digits_date(d.subrange(6, 12)))
    }
}

/// What is wrong with the date field `d`, if anything. Six characters are
/// one day; twelve are a period, whose first day must come before its last;
/// any other length is refused for its format. A text that cannot be read
/// as a day is refused with the parser's error. A text that the parser
/// reads although it holds something else than digits (it passes over
/// white space before a number) is refused for its format.
pub open spec fn date_fault(d: Seq<char>) -> Option<SpecSyntaxError> {
    if d.len() == 6 {
        match read_day(d) {
            Some(_) => if all_digits(d) {
                None
            } else {
                Some(SpecSyntaxError::InvalidDateFormat(d))
            },
            None => Some(SpecSyntaxError::FromNaiveDateParse),
        }
    } else if d.len() == 12 {
        match (read_day(d.subrange(0, 6)), read_day(d.subrange(6, 12))) {
            (Some(start), Some(end)) => if !date_lt(start, end) {
                Some(SpecSyntaxError::StartDateEndDate(iso_date_text(start), iso_date_text(end)))
            } else if all_digits(d) {
                None
            } else {
                Some(SpecSyntaxError::InvalidDateFormat(d))
            },
            _ => Some(SpecSyntaxError::FromNaiveDateParse),
        }
    } else {
        Some(SpecSyntaxError::InvalidDateFormat(d))
    }
}

/// Reads `text` as a day.
fn read_date(text: &str) -> (r: Result<Date, chrono::ParseError>)
    ensures
        match r {
            Ok(date) => read_day(text@) == Some(date@),
            Err(_) => read_day(text@) is None,
        },
{
    parse_date(text)
}

/// Checks that the day `start` comes before the day `end`.
pub fn check_period(start: &Date, end: &Date) -> (r: Result<(), SyntaxValidatorError>)
    ensures
        match r {
            Ok(()) => date_lt(start@, end@),
            Err(e) => !date_lt(start@, end@) && e@ == SpecSyntaxError::StartDateEndDate(
                iso_date_text(start@),
                iso_date_text(end@),
            ),
        },
{
    if start.is_before(end) {
        Ok(())
    } else {
        Err(SyntaxValidatorError::StartDateEndDate(start.iso_text(), end.iso_text()))
    }
}

/// Checks a date field: one day in six digits, or a period in twelve.
pub fn is_date_ok(d: &str) -> (r: Result<(), SyntaxValidatorError>)
    ensures
        match r {
            Ok(()) => date_fault(d@) is None,
            Err(e) => date_fault(d@) == Some(e@),
        },
{
    let length = d.unicode_len();
    if length == 6 {
        match read_date(d) {
            Ok(_) => {},
            Err(e) => {
                return Err(SyntaxValidatorError::from(e));
            },
        }
    } else if length == 12 {
        let start = match read_date(d.substring_char(0, 6)) {
            Ok(date) => date,
            Err(e) => {
                return Err(SyntaxValidatorError::from(e));
            },
        };
        let end = match read_date(d.substring_char(6, 12)) {
            Ok(date) => date,
            Err(e) => {
                return Err(SyntaxValidatorError::from(e));
            },
        };
        check_period(&start, &end)?;
    } else {
        return Err(SyntaxValidatorError::InvalidDateFormat(d.to_owned()));
    }
    if !is_digits(d) {
        return Err(SyntaxValidatorError::InvalidDateFormat(d.to_owned()));
    }
    Ok(())
}

/// The two halves of twelve characters are digits exactly where all twelve
/// are.
proof fn lemma_digits_of_halves(d: Seq<char>)
    requires
        d.len() == 12,
    ensures
        all_digits(d) <==> all_digits(d.subrange(0, 6)) && all_digits(d.subrange(6, 12)),
{
    let first = d.subrange(0, 6);
    let second = d.subrange(6, 12);
    if all_digits(first) && all_digits(second) {
        assert forall|i: int| 0 <= i < d.len() implies is_digit(#[trigger] d[i]) by {
            if i < 6 {
                assert(first[i] == d[i]);
            } else {
                assert(second[i - 6] == d[i]);
            }
        }
    }
    if all_digits(d) {
        assert forall|i: int| 0 <= i < 6 implies is_digit(#[trigger] first[i]) by {
            assert(first[i] == d[i]);
        }
        assert forall|i: int| 0 <= i < 6 implies is_digit(#[trigger] second[i]) by {
            assert(second[i] == d[i + 6]);
        }
    }
}

/// A date field is accepted exactly where it is six digits that stand for a
/// day of the calendar, or twelve digits that stand for two days of which
/// the first comes before the second.
pub proof fn lemma_date_accepted(d: Seq<char>)
    ensures
        date_fault(d) is None <==> is_date_field(d),
{
    if d.len() == 12 {
        lemma_digits_of_halves(d);
    }
}

/// Six digits that stand for a day are a valid date field. The fault of a
/// text depends on the text alone, so the field is found valid each time it
/// is checked.
pub proof fn lemma_single_day_accepted(d: Seq<char>)
    requires
        is_day_text(d),
    ensures
        date_fault(d) is None,
{
}

/// Of two days in six digits each, the first before the second: the first
/// text followed by the second is a valid period; the second followed by
/// the first is refused for its order, and so is the first followed by
/// itself.
pub proof fn lemma_period_order(d1: Seq<char>, d2: Seq<char>)
    requires
        is_day_text(d1),
        is_day_text(d2),
        date_lt(digits_date(d1), digits_date(d2)),
    ensures
        date_fault(d1 + d2) is None,
        date_fault(d2 + d1) == Some(
            SpecSyntaxError::StartDateEndDate(
                iso_date_text(digits_date(d2)),
                iso_date_text(digits_date(d1)),
            ),
        ),
        date_fault(d1 + d1) == Some(
            SpecSyntaxError::StartDateEndDate(
                iso_date_text(digits_date(d1)),
                iso_date_text(digits_date(d1)),
            ),
        ),
{
    assert((d1 + d2).subrange(0, 6) =~= d1 && (d1 + d2).subrange(6, 12) =~= d2);
    assert((d2 + d1).subrange(0, 6) =~= d2 && (d2 + d1).subrange(6, 12) =~= d1);
    assert((d1 + d1).subrange(0, 6) =~= d1 && (d1 + d1).subrange(6, 12) =~= d1);
    lemma_digits_of_halves(d1 + d2);
}

/// A date field of any length but six and twelve is refused for its
/// format, whatever it holds.
pub proof fn lemma_other_length_refused(d: Seq<char>)
    requires
        d.len() != 6,
        d.len() != 12,
    ensures
        date_fault(d) == Some(SpecSyntaxError::InvalidDateFormat(d)),
{
}

} // verus!
