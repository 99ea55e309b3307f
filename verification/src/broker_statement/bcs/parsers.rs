//! The sections of a statement.

use vstd::prelude::*;
use vstd::string::StrSliceExecFns;
use crate::text::is_digit;
use crate::types::{date_of, next_day, parsed_day, Date};

verus! {

/// Why a period could not be read.
#[derive(Clone, Copy, Debug, PartialEq, Eq, Structural)]
pub enum PeriodError {
    /// The text does not name two dates in the form of a period.
    InvalidPeriod,
    /// One of the two dates is no date, or the calendar ends with the
    /// second.
    InvalidDate,
    /// The period ends before it starts.
    EmptyPeriod,
}

/// Reads the section that states the period of the statement.
pub struct PeriodParser {}

/// Reads the section that lists the assets.
pub struct AssetsParser {}

/// The format of a date in a statement: day, month and year with points
/// between them.
pub open spec fn statement_date_format() -> Seq<char> {
    "%d.%m.%Y"@
}

/// The text has the form of a date: two digits, two digits and four digits
/// with points between them.
pub open spec fn date_shaped(text: Seq<char>) -> bool {
    &&& text.len() == 10
    &&& is_digit(text[0]) && is_digit(text[1])
    &&& text[2] == '.'
    &&& is_digit(text[3]) && is_digit(text[4])
    &&& text[5] == '.'
    &&& is_digit(text[6]) && is_digit(text[7]) && is_digit(text[8]) && is_digit(text[9])
}

/// The text has the form of a period: the word for "from", a date, the word
/// for "to" and a date, with single spaces between them.
pub open spec fn period_shaped(text: Seq<char>) -> bool {
    &&& text.len() == 26
    &&& text[0] == '\u{441}'
    &&& text[1] == ' '
    &&& date_shaped(text.subrange(2, 12))
    &&& text[12] == ' '
    &&& text[13] == '\u{43f}'
    &&& text[14] == '\u{43e}'
    &&& text[15] == ' '
    &&& date_shaped(text.subrange(16, 26))
}

/// The period that a text states: from its first date up to but without
/// the day after its second date.
pub open spec fn period_of(text: Seq<char>) -> Result<(Date, Date), PeriodError> {
    if !period_shaped(text) {
        Err(PeriodError::InvalidPeriod)
    } else {
        match (
            date_of(parsed_day(text.subrange(2, 12), statement_date_format())),
            date_of(parsed_day(text.subrange(16, 26), statement_date_format())),
        ) {
            (Some(start), Some(last)) => match next_day(last) {
                Some(end) => if start.days <= last.days {
                    Ok((start, end))
                } else {
                    Err(PeriodError::EmptyPeriod)
                },
                None => Err(PeriodError::InvalidDate),
            },
            _ => Err(PeriodError::InvalidDate),
        }
    }
}

fn digit_at(text: &str, at: usize) -> (r: bool)
    requires
        at < text@.len(),
    ensures
        r == is_digit(text@[at as int]),
{
    let c = text.get_char(at);
    '0' <= c && c <= '9'
}

/// Whether the ten characters from `at` on have the form of a date.
fn date_at(text: &str, at: usize) -> (r: bool)
    requires
        at + 10 <= text@.len(),
    ensures
        r == date_shaped(text@.subrange(at as int, at + 10)),
{
    let ghost part = text@.subrange(at as int, at + 10);
    let _ = text.unicode_len();
    proof {
        assert forall|i: int| 0 <= i < 10 implies part[i] == text@[at + i] by {}
    }
    digit_at(text, at) && digit_at(text, at + 1) && text.get_char(at + 2) == '.' && digit_at(
        text,
        at + 3,
    ) && digit_at(text, at + 4) && text.get_char(at + 5) == '.' && digit_at(text, at + 6)
        && digit_at(text, at + 7) && digit_at(text, at + 8) && digit_at(text, at + 9)
}

/// Reads a period such as the one from 01.02.2019 to 28.02.2019, and gives
/// its first day and the day after its last.
pub fn parse_period(value: &str) -> (result: Result<(Date, Date), PeriodError>)
    ensures
        result == period_of(value@),
{
    let n = value.unicode_len();
    if n != 26 {
        return Err(PeriodError::InvalidPeriod);
    }
    if !(value.get_char(0) == '\u{441}' && value.get_char(1) == ' ' && date_at(value, 2)
        && value.get_char(12) == ' ' && value.get_char(13) == '\u{43f}' && value.get_char(14)
        == '\u{43e}' && value.get_char(15) == ' ' && date_at(value, 16)) {
        return Err(PeriodError::InvalidPeriod);
    }
    let start = Date::parse(value.substring_char(2, 12), "%d.%m.%Y");
    let last = Date::parse(value.substring_char(16, 26), "%d.%m.%Y");
    match (start, last) {
        (Some(start), Some(last)) => match last.succ_opt() {
            Some(end) => {
                if start.days <= last.days {
                    Ok((start, end))
                } else {
                    Err(PeriodError::EmptyPeriod)
                }
            },
            None => Err(PeriodError::InvalidDate),
        },
        _ => Err(PeriodError::InvalidDate),
    }
}

impl PeriodParser {
    /// The section has no title row of its own.
    pub fn consume_title(&self) -> (r: bool)
        ensures
            !r,
    {
        false
    }

    /// Reads the row of the section: two cells, the second of which states
    /// the period.
    pub fn parse(&self, row: &Vec<String>) -> (result: Result<(Date, Date), PeriodError>)
        ensures
            result == if row@.len() == 2 {
                period_of(row@[1]@)
            } else {
                Err(PeriodError::InvalidPeriod)
            },
    {
        if row.len() != 2 {
            return Err(PeriodError::InvalidPeriod);
        }
        parse_period(row[1].as_str())
    }
}

impl AssetsParser {
    /// The number of rows that the section takes after its empty rows.
    /// Nothing is read out of them.
    pub fn parse(&self) -> (rows: usize)
        ensures
            rows == 5,
    {
        5
    }
}

} // verus!
