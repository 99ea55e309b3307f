//! Checks on decimal numbers.

use vstd::prelude::*;
use crate::types::{decimal_of, parsed_decimal, Decimal};

verus! {

/// What sign a decimal number has to have.
#[derive(Clone, Copy, Debug, PartialEq, Eq, Structural)]
pub enum DecimalRestrictions {
    No,
    Zero,
    NonZero,
    NegativeOrZero,
    PositiveOrZero,
    StrictlyPositive,
    StrictlyNegative,
}

/// The number has the sign that the restriction asks for.
pub open spec fn meets(value: Decimal, restrictions: DecimalRestrictions) -> bool {
    match restrictions {
        DecimalRestrictions::No => true,
        DecimalRestrictions::Zero => value.mantissa == 0,
        DecimalRestrictions::NonZero => value.mantissa != 0,
        DecimalRestrictions::NegativeOrZero => value.mantissa <= 0,
        DecimalRestrictions::PositiveOrZero => value.mantissa >= 0,
        DecimalRestrictions::StrictlyPositive => value.mantissa > 0,
        DecimalRestrictions::StrictlyNegative => value.mantissa < 0,
    }
}

/// The number, if it has the sign that the restriction asks for.
pub fn validate_decimal(value: Decimal, restrictions: DecimalRestrictions) -> (r: Option<Decimal>)
    ensures
        r == if meets(value, restrictions) {
            Some(value)
        } else {
            None
        },
{
    let fits = match restrictions {
        DecimalRestrictions::No => true,
        DecimalRestrictions::Zero => value.is_zero(),
        DecimalRestrictions::NonZero => !value.is_zero(),
        DecimalRestrictions::NegativeOrZero => !value.is_positive(),
        DecimalRestrictions::PositiveOrZero => !value.is_negative(),
        DecimalRestrictions::StrictlyPositive => value.is_positive(),
        DecimalRestrictions::StrictlyNegative => value.is_negative(),
    };
    if fits {
        Some(value)
    } else {
        None
    }
}

/// The decimal number that the text denotes, if it denotes one with the
/// sign that the restriction asks for.
pub open spec fn restricted_decimal(
    text: Seq<char>,
    restrictions: DecimalRestrictions,
) -> Option<Decimal> {
    match decimal_of(parsed_decimal(text)) {
        Some(value) => if meets(value, restrictions) {
            Some(value)
        } else {
            None
        },
        None => None,
    }
}

/// Reads a decimal number and checks its sign.
pub fn parse_decimal(text: &str, restrictions: DecimalRestrictions) -> (r: Option<Decimal>)
    ensures
        r == restricted_decimal(text@, restrictions),
{
    match Decimal::parse(text) {
        Some(value) => validate_decimal(value, restrictions),
        None => None,
    }
}

} // verus!
