//! Dates and decimal numbers as plain values.
//!
//! The calendar and decimal arithmetic are left to `chrono` and
//! `rust_decimal`; what they compute is named here, and the library decides
//! on the results.

use std::fmt::Write;
use vstd::prelude::*;

verus! {

/// A calendar day as its number in the proleptic Gregorian calendar, with
/// 1 January of the year 1 as day 1. Later days have larger numbers, and
/// the next day is one more.
#[derive(Clone, Copy, Debug, PartialEq, Eq, Structural)]
pub struct Date {
    pub days: i32,
}

/// A decimal number: `mantissa` with the last `scale` digits behind the
/// decimal point.
#[derive(Clone, Copy, Debug, PartialEq, Eq, Structural)]
pub struct Decimal {
    pub mantissa: i128,
    pub scale: u32,
}

/// The number of the day that a year, a month and a day of the month name,
/// or `None` where the calendar has no such day.
pub uninterp spec fn calendar_day(year: int, month: int, day: int) -> Option<int>;

/// The number of the day that a text names under a format, or `None` where
/// the text does not follow the format.
pub uninterp spec fn parsed_day(text: Seq<char>, format: Seq<char>) -> Option<int>;

/// The year that the day with the given number falls into, or `None` where
/// the number is beyond the calendar.
pub uninterp spec fn year_of_day(days: int) -> Option<int>;

/// The mantissa and scale of the decimal number that a text denotes, or
/// `None` where it denotes none.
pub uninterp spec fn parsed_decimal(text: Seq<char>) -> Option<(int, int)>;

/// The mantissa and scale of the sum of two decimal numbers, or `None`
/// where it cannot be represented.
pub uninterp spec fn decimal_sum(
    mantissa: int,
    scale: int,
    other_mantissa: int,
    other_scale: int,
) -> Option<(int, int)>;

/// The mantissa and scale of the difference of two decimal numbers, or
/// `None` where it cannot be represented.
pub uninterp spec fn decimal_difference(
    mantissa: int,
    scale: int,
    other_mantissa: int,
    other_scale: int,
) -> Option<(int, int)>;

/// The mantissa and scale of the quotient of two decimal numbers, or `None`
/// where there is none or it cannot be represented.
pub uninterp spec fn decimal_quotient(
    mantissa: int,
    scale: int,
    other_mantissa: int,
    other_scale: int,
) -> Option<(int, int)>;

/// The text that the day with the given number is written as under a
/// format, or `None` where the number is beyond the calendar or the format
/// cannot be followed.
pub uninterp spec fn formatted_day(days: int, format: Seq<char>) -> Option<Seq<char>>;

/// `chrono::NaiveDate::format` on the date that
/// `NaiveDate::from_num_days_from_ce_opt` makes of the number, written out
/// through `Display`; `None` where there is no such date or the writing
/// fails. The result is a function of the number and the format alone and
/// goes by the name `formatted_day`.
#[verifier::external_body]
fn text_from_day(days: i32, format: &str) -> (text: Option<String>)
    ensures
        match text {
            Some(t) => formatted_day(days as int, format@) == Some(t@),
            None => formatted_day(days as int, format@) is None,
        },
{
    let date = chrono::NaiveDate::from_num_days_from_ce_opt(days)?;
    let mut text = String::new();
    match write!(text, "{}", date.format(format)) {
        Ok(_) => Some(text),
        Err(_) => None,
    }
}

/// `str::replace` for a pattern and a replacement of one character each:
/// every occurrence of the one character becomes the other and nothing
/// else changes.
#[verifier::external_body]
fn replace_char(text: &str, from: &str, to: &str) -> (replaced: String)
    requires
        from@.len() == 1,
        to@.len() == 1,
    ensures
        replaced@ == with_char_replaced(text@, from@[0], to@[0]),
{
    text.replace(from, to)
}

/// The text with every `from` turned into `to`.
pub open spec fn with_char_replaced(text: Seq<char>, from: char, to: char) -> Seq<char> {
    Seq::new(
        text.len(),
        |i: int|
            if text[i] == from {
                to
            } else {
                text[i]
            },
    )
}

/// The text with every comma turned into a point.
pub fn with_decimal_point(text: &str) -> (replaced: String)
    ensures
        replaced@ == with_char_replaced(text@, ',', '.'),
{
    proof {
        reveal_strlit(",");
        reveal_strlit(".");
    }
    replace_char(text, ",", ".")
}

/// `chrono::NaiveDate::from_ymd_opt`, with the date given as
/// `Datelike::num_days_from_ce` counts it. The result is a function of the
/// three numbers alone and goes by the name `calendar_day`.
#[verifier::external_body]
fn day_from_ymd(year: i32, month: u32, day: u32) -> (days: Option<i32>)
    ensures
        match days {
            Some(n) => calendar_day(year as int, month as int, day as int) == Some(n as int),
            None => calendar_day(year as int, month as int, day as int) is None,
        },
{
    chrono::NaiveDate::from_ymd_opt(year, month, day).map(
        |date| chrono::Datelike::num_days_from_ce(&date),
    )
}

/// `chrono::NaiveDate::parse_from_str`, with the date given as
/// `Datelike::num_days_from_ce` counts it and any error as `None`. The
/// result is a function of the two texts alone and goes by the name
/// `parsed_day`.
#[verifier::external_body]
fn day_from_text(text: &str, format: &str) -> (days: Option<i32>)
    ensures
        match days {
            Some(n) => parsed_day(text@, format@) == Some(n as int),
            None => parsed_day(text@, format@) is None,
        },
{
    match chrono::NaiveDate::parse_from_str(text, format) {
        Ok(date) => Some(chrono::Datelike::num_days_from_ce(&date)),
        Err(_) => None,
    }
}

/// `chrono::NaiveDate::from_num_days_from_ce_opt` followed by
/// `Datelike::year`. The result is a function of the number alone and goes
/// by the name `year_of_day`.
#[verifier::external_body]
fn year_from_day(days: i32) -> (year: Option<i32>)
    ensures
        match year {
            Some(y) => year_of_day(days as int) == Some(y as int),
            None => year_of_day(days as int) is None,
        },
{
    chrono::NaiveDate::from_num_days_from_ce_opt(days).map(|date| chrono::Datelike::year(&date))
}

/// `rust_decimal::Decimal::from_str`, with the number given by its
/// mantissa and scale and any error as `None`. The result is a function of
/// the text alone and goes by the name `parsed_decimal`.
#[verifier::external_body]
fn decimal_from_text(text: &str) -> (number: Option<Decimal>)
    ensures
        match number {
            Some(d) => parsed_decimal(text@) == Some((d.mantissa as int, d.scale as int)),
            None => parsed_decimal(text@) is None,
        },
{
    match <rust_decimal::Decimal as std::str::FromStr>::from_str(text) {
        Ok(number) => Some(Decimal { mantissa: number.mantissa(), scale: number.scale() }),
        Err(_) => None,
    }
}

/// `rust_decimal::Decimal::checked_add` on the numbers that
/// `Decimal::try_from_i128_with_scale` makes of the two arguments; `None`
/// where one of them is no such number or the sum overflows. The result is
/// a function of the mantissas and scales alone and goes by the name
/// `decimal_sum`.
#[verifier::external_body]
fn decimal_add(a: Decimal, b: Decimal) -> (sum: Option<Decimal>)
    ensures
        match sum {
            Some(d) => decimal_sum(
                a.mantissa as int,
                a.scale as int,
                b.mantissa as int,
                b.scale as int,
            ) == Some((d.mantissa as int, d.scale as int)),
            None => decimal_sum(a.mantissa as int, a.scale as int, b.mantissa as int, b.scale as int)
                is None,
        },
{
    let left = rust_decimal::Decimal::try_from_i128_with_scale(a.mantissa, a.scale).ok()?;
    let right = rust_decimal::Decimal::try_from_i128_with_scale(b.mantissa, b.scale).ok()?;
    left.checked_add(right).map(|r| Decimal { mantissa: r.mantissa(), scale: r.scale() })
}

/// `rust_decimal::Decimal::checked_sub` on the numbers that
/// `Decimal::try_from_i128_with_scale` makes of the two arguments; `None`
/// where one of them is no such number or the difference overflows. The
/// result is a function of the mantissas and scales alone and goes by the
/// name `decimal_difference`.
#[verifier::external_body]
fn decimal_sub(a: Decimal, b: Decimal) -> (difference: Option<Decimal>)
    ensures
        match difference {
            Some(d) => decimal_difference(
                a.mantissa as int,
                a.scale as int,
                b.mantissa as int,
                b.scale as int,
            ) == Some((d.mantissa as int, d.scale as int)),
            None => decimal_difference(
                a.mantissa as int,
                a.scale as int,
                b.mantissa as int,
                b.scale as int,
            ) is None,
        },
{
    let left = rust_decimal::Decimal::try_from_i128_with_scale(a.mantissa, a.scale).ok()?;
    let right = rust_decimal::Decimal::try_from_i128_with_scale(b.mantissa, b.scale).ok()?;
    left.checked_sub(right).map(|r| Decimal { mantissa: r.mantissa(), scale: r.scale() })
}

/// `rust_decimal::Decimal::checked_div` on the numbers that
/// `Decimal::try_from_i128_with_scale` makes of the two arguments; `None`
/// where one of them is no such number, the divisor is zero or the quotient
/// overflows. The result is a function of the mantissas and scales alone
/// and goes by the name `decimal_quotient`.
#[verifier::external_body]
fn decimal_div(a: Decimal, b: Decimal) -> (quotient: Option<Decimal>)
    ensures
        match quotient {
            Some(d) => decimal_quotient(
                a.mantissa as int,
                a.scale as int,
                b.mantissa as int,
                b.scale as int,
            ) == Some((d.mantissa as int, d.scale as int)),
            None => decimal_quotient(
                a.mantissa as int,
                a.scale as int,
                b.mantissa as int,
                b.scale as int,
            ) is None,
        },
{
    let left = rust_decimal::Decimal::try_from_i128_with_scale(a.mantissa, a.scale).ok()?;
    let right = rust_decimal::Decimal::try_from_i128_with_scale(b.mantissa, b.scale).ok()?;
    left.checked_div(right).map(|r| Decimal { mantissa: r.mantissa(), scale: r.scale() })
}

/// The date that a named result stands for.
pub open spec fn date_of(days: Option<int>) -> Option<Date> {
    match days {
        Some(n) => Some(Date { days: n as i32 }),
        None => None,
    }
}

/// The day after a date, where the calendar has one.
pub open spec fn next_day(date: Date) -> Option<Date> {
    if date.days < i32::MAX && year_of_day(date.days + 1) is Some {
        Some(Date { days: (date.days + 1) as i32 })
    } else {
        None
    }
}

/// The day before a date, where the calendar has one.
pub open spec fn previous_day(date: Date) -> Option<Date> {
    if date.days > i32::MIN && year_of_day(date.days - 1) is Some {
        Some(Date { days: (date.days - 1) as i32 })
    } else {
        None
    }
}

/// The decimal number that a named result stands for.
pub open spec fn decimal_of(number: Option<(int, int)>) -> Option<Decimal> {
    match number {
        Some((mantissa, scale)) => Some(Decimal { mantissa: mantissa as i128, scale: scale as u32 }),
        None => None,
    }
}

impl Date {
    /// The date of a year, a month and a day of the month, if the calendar
    /// has one.
    pub fn from_ymd_opt(year: i32, month: u32, day: u32) -> (date: Option<Date>)
        ensures
            date == date_of(calendar_day(year as int, month as int, day as int)),
    {
        match day_from_ymd(year, month, day) {
            Some(days) => Some(Date { days }),
            None => None,
        }
    }

    /// The date that the text names under the format, if it names one.
    pub fn parse(text: &str, format: &str) -> (date: Option<Date>)
        ensures
            date == date_of(parsed_day(text@, format@)),
    {
        match day_from_text(text, format) {
            Some(days) => Some(Date { days }),
            None => None,
        }
    }

    /// The year that the date falls into, if the calendar reaches it.
    pub fn year(self) -> (year: Option<i32>)
        ensures
            match year {
                Some(y) => year_of_day(self.days as int) == Some(y as int),
                None => year_of_day(self.days as int) is None,
            },
    {
        year_from_day(self.days)
    }

    /// The date written under the format, where it can be written.
    pub fn format(self, format: &str) -> (text: Option<String>)
        ensures
            match text {
                Some(t) => formatted_day(self.days as int, format@) == Some(t@),
                None => formatted_day(self.days as int, format@) is None,
            },
    {
        text_from_day(self.days, format)
    }

    /// The day after, while the calendar goes on.
    pub fn succ_opt(self) -> (next: Option<Date>)
        ensures
            next == next_day(self),
    {
        if self.days < i32::MAX {
            match year_from_day(self.days + 1) {
                Some(_) => Some(Date { days: self.days + 1 }),
                None => None,
            }
        } else {
            None
        }
    }

    /// The day before, while the calendar reaches back.
    pub fn pred_opt(self) -> (previous: Option<Date>)
        ensures
            previous == previous_day(self),
    {
        if self.days > i32::MIN {
            match year_from_day(self.days - 1) {
                Some(_) => Some(Date { days: self.days - 1 }),
                None => None,
            }
        } else {
            None
        }
    }
}

/// The mantissa and scale without the zeros at the end of the digits
/// behind the decimal point.
pub open spec fn normalized(mantissa: int, scale: nat) -> (int, nat)
    decreases scale,
{
    if scale > 0 && mantissa % 10 == 0 {
        normalized(mantissa / 10, (scale - 1) as nat)
    } else {
        (mantissa, scale)
    }
}

/// Ten to the power of `n`.
pub open spec fn pow10(n: nat) -> int
    decreases n,
{
    if n == 0 {
        1
    } else {
        10 * pow10((n - 1) as nat)
    }
}

impl Decimal {
    /// The mantissa and scale in their shortest form.
    pub open spec fn shortest(self) -> (int, nat) {
        normalized(self.mantissa as int, self.scale as nat)
    }

    /// The magnitude of the number where it is whole and fits into 32 bits.
    pub open spec fn whole_magnitude(self) -> Option<u32> {
        let (mantissa, scale) = self.shortest();
        if scale == 0 && -(u32::MAX as int) <= mantissa <= u32::MAX {
            Some(
                (if mantissa < 0 {
                    -mantissa
                } else {
                    mantissa
                }) as u32,
            )
        } else {
            None
        }
    }

    /// The number counted in units of which `digits` decimal places make
    /// one whole, where it is a whole number of them.
    pub open spec fn units(self, digits: nat) -> Option<int> {
        let (mantissa, scale) = self.shortest();
        if scale <= digits {
            Some(mantissa * pow10((digits - scale) as nat))
        } else {
            None
        }
    }

    /// The decimal number that the text denotes, if it denotes one.
    pub fn parse(text: &str) -> (number: Option<Decimal>)
        ensures
            number == decimal_of(parsed_decimal(text@)),
    {
        decimal_from_text(text)
    }

    pub fn is_zero(self) -> (r: bool)
        ensures
            r == (self.mantissa == 0),
    {
        self.mantissa == 0
    }

    pub fn is_positive(self) -> (r: bool)
        ensures
            r == (self.mantissa > 0),
    {
        self.mantissa > 0
    }

    pub fn is_negative(self) -> (r: bool)
        ensures
            r == (self.mantissa < 0),
    {
        self.mantissa < 0
    }

    /// The number with the opposite sign, unless its mantissa has none.
    pub fn checked_neg(self) -> (negated: Option<Decimal>)
        ensures
            negated == if self.mantissa > i128::MIN {
                Some(Decimal { mantissa: (-self.mantissa) as i128, scale: self.scale })
            } else {
                None
            },
    {
        if self.mantissa > i128::MIN {
            Some(Decimal { mantissa: -self.mantissa, scale: self.scale })
        } else {
            None
        }
    }

    /// The sum, where it can be represented.
    pub fn checked_add(self, other: Decimal) -> (sum: Option<Decimal>)
        ensures
            sum == decimal_of(
                decimal_sum(
                    self.mantissa as int,
                    self.scale as int,
                    other.mantissa as int,
                    other.scale as int,
                ),
            ),
    {
        decimal_add(self, other)
    }

    /// The difference, where it can be represented.
    pub fn checked_sub(self, other: Decimal) -> (difference: Option<Decimal>)
        ensures
            difference == decimal_of(
                decimal_difference(
                    self.mantissa as int,
                    self.scale as int,
                    other.mantissa as int,
                    other.scale as int,
                ),
            ),
    {
        decimal_sub(self, other)
    }

    /// The quotient, where there is one that can be represented.
    pub fn checked_div(self, other: Decimal) -> (quotient: Option<Decimal>)
        ensures
            quotient == decimal_of(
                decimal_quotient(
                    self.mantissa as int,
                    self.scale as int,
                    other.mantissa as int,
                    other.scale as int,
                ),
            ),
    {
        decimal_div(self, other)
    }

    /// The same number without zeros at the end of its digits behind the
    /// decimal point.
    pub fn normalize(self) -> (short: Decimal)
        ensures
            (short.mantissa as int, short.scale as nat) == self.shortest(),
    {
        let mut mantissa: i128 = self.mantissa;
        let mut scale: u32 = self.scale;
        while scale > 0 && mantissa % 10 == 0
            invariant
                normalized(mantissa as int, scale as nat) == self.shortest(),
            decreases scale,
        {
            mantissa = mantissa / 10;
            scale = scale - 1;
        }
        Decimal { mantissa, scale }
    }

    /// Whether the number has no digits behind the decimal point but zeros.
    pub fn is_integer(self) -> (r: bool)
        ensures
            r == (self.shortest().1 == 0),
    {
        self.normalize().scale == 0
    }

    /// Whether the two denote the same number, whatever their scales.
    pub fn same_value(self, other: Decimal) -> (r: bool)
        ensures
            r == (self.shortest() == other.shortest()),
    {
        let a = self.normalize();
        let b = other.normalize();
        a.mantissa == b.mantissa && a.scale == b.scale
    }

    /// The magnitude of a whole number that fits into 32 bits.
    pub fn magnitude_u32(self) -> (r: Option<u32>)
        ensures
            r == self.whole_magnitude(),
    {
        let short = self.normalize();
        if short.scale != 0 {
            None
        } else if 0 <= short.mantissa && short.mantissa <= 0xffff_ffff {
            Some(short.mantissa as u32)
        } else if -0xffff_ffff <= short.mantissa && short.mantissa < 0 {
            Some((-short.mantissa) as u32)
        } else {
            None
        }
    }

    /// The number in whole units of which `digits` decimal places make one
    /// whole, such as an amount of money in hundredths; `None` where it is
    /// no whole number of them or does not fit.
    pub fn to_units(self, digits: u32) -> (r: Option<i64>)
        ensures
            r == match self.units(digits as nat) {
                Some(units) => if i64::MIN <= units <= i64::MAX {
                    Some(units as i64)
                } else {
                    None
                },
                None => None,
            },
    {
        let short = self.normalize();
        if short.scale > digits {
            return None;
        }
        let mut value: i128 = short.mantissa;
        let mut left: u32 = digits - short.scale;
        let ghost whole = short.mantissa * pow10(left as nat);
        proof {
            assert(pow10(0) == 1);
        }
        while left > 0
            invariant
                self.units(digits as nat) == Some(whole),
                whole == value * pow10(left as nat),
            decreases left,
        {
            if value > 0x7fff_ffff_ffff_ffff || value < -0x8000_0000_0000_0000 {
                proof {
                    lemma_pow10_positive(left as nat);
                    lemma_product_beyond(value as int, pow10(left as nat));
                }
                return None;
            }
            if value > 922_337_203_685_477_580 || value < -922_337_203_685_477_580 {
                proof {
                    lemma_pow10_positive((left - 1) as nat);
                    lemma_product_beyond(value * 10, pow10((left - 1) as nat));
                    assert(value * pow10(left as nat) == (value * 10) * pow10((left - 1) as nat))
                        by (nonlinear_arith)
                        requires
                            pow10(left as nat) == 10 * pow10((left - 1) as nat),
                    ;
                }
                return None;
            }
            proof {
                assert(value * pow10(left as nat) == (value * 10) * pow10((left - 1) as nat))
                    by (nonlinear_arith)
                    requires
                        pow10(left as nat) == 10 * pow10((left - 1) as nat),
                ;
            }
            value = value * 10;
            left = left - 1;
        }
        if value > 0x7fff_ffff_ffff_ffff || value < -0x8000_0000_0000_0000 {
            None
        } else {
            Some(value as i64)
        }
    }
}

/// No power of ten is less than one.
pub proof fn lemma_pow10_positive(n: nat)
    ensures
        pow10(n) >= 1,
    decreases n,
{
    if n > 0 {
        lemma_pow10_positive((n - 1) as nat);
    }
}

/// A number beyond the range of 64 bits stays beyond it when it is
/// multiplied by one or more.
pub proof fn lemma_product_beyond(value: int, factor: int)
    requires
        factor >= 1,
        value > i64::MAX || value < i64::MIN,
    ensures
        value * factor > i64::MAX || value * factor < i64::MIN,
{
    if value > 0 {
        assert(value * factor >= value) by (nonlinear_arith)
            requires
                value > 0,
                factor >= 1,
        ;
    } else {
        assert(value * factor <= value) by (nonlinear_arith)
            requires
                value < 0,
                factor >= 1,
        ;
    }
}

} // verus!
