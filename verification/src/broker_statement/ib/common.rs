//! The records of a statement.

use vstd::prelude::*;
use crate::text::same_text;
use crate::types::{date_of, parsed_day, Date, Decimal};
use crate::util::{parse_decimal, restricted_decimal, DecimalRestrictions};

verus! {

/// One record of a statement: the values of its fields by their names.
/// Where a name occurs twice, the first field of that name counts.
pub struct Record {
    pub fields: Vec<(String, String)>,
}

/// What sign an amount of cash has to have.
#[derive(Clone, Copy, Debug, PartialEq, Eq, Structural)]
pub enum CashType {
    NonZero,
    StrictlyPositive,
}

/// Why a record could not be read.
#[derive(Clone, Copy, Debug, PartialEq, Eq, Structural)]
pub enum RecordError {
    /// The record has no field of the name asked for.
    MissingField,
    /// The field is no date.
    InvalidDate,
    /// The field is no amount with the sign asked for.
    InvalidAmount,
}

/// The format of a date in a record: year, month and day with hyphens
/// between them.
pub open spec fn record_date_format() -> Seq<char> {
    "%Y-%m-%d"@
}

pub open spec fn restrictions_of(cash_type: CashType) -> DecimalRestrictions {
    match cash_type {
        CashType::NonZero => DecimalRestrictions::NonZero,
        CashType::StrictlyPositive => DecimalRestrictions::StrictlyPositive,
    }
}

/// The place of the first field of the name among the first `k` fields, or
/// -1.
pub open spec fn field_place(fields: Seq<(String, String)>, name: Seq<char>, k: int) -> int
    decreases k,
{
    if k <= 0 {
        -1
    } else if field_place(fields, name, k - 1) >= 0 {
        field_place(fields, name, k - 1)
    } else if fields[k - 1].0@ == name {
        k - 1
    } else {
        -1
    }
}

/// The value of the first field of the name.
pub open spec fn field_value(fields: Seq<(String, String)>, name: Seq<char>) -> Option<
    Seq<char>,
> {
    let place = field_place(fields, name, fields.len() as int);
    if place >= 0 {
        Some(fields[place].1@)
    } else {
        None
    }
}

pub proof fn lemma_field_place(fields: Seq<(String, String)>, name: Seq<char>, k: int)
    requires
        0 <= k <= fields.len(),
    ensures
        -1 <= field_place(fields, name, k) < k,
        field_place(fields, name, k) >= 0 ==> fields[field_place(fields, name, k)].0@ == name,
    decreases k,
{
    if k > 0 {
        lemma_field_place(fields, name, k - 1);
    }
}

/// Reads a date of a record.
pub fn parse_date(text: &str) -> (date: Option<Date>)
    ensures
        date == date_of(parsed_day(text@, record_date_format())),
{
    Date::parse(text, "%Y-%m-%d")
}

impl Record {
    /// The value of the first field of the name.
    pub fn get_value(&self, name: &str) -> (result: Result<&str, RecordError>)
        ensures
            match result {
                Ok(value) => field_value(self.fields@, name@) == Some(value@),
                Err(error) => error == RecordError::MissingField && field_value(
                    self.fields@,
                    name@,
                ) is None,
            },
    {
        let n: usize = self.fields.len();
        let mut i: usize = 0;
        while i < n
            invariant
                i <= n,
                n == self.fields@.len(),
                field_place(self.fields@, name@, i as int) < 0,
            decreases n - i,
        {
            if same_text(self.fields[i].0.as_str(), name) {
                proof {
                    lemma_found_stays(self.fields@, name@, i as int + 1, n as int);
                }
                return Ok(self.fields[i].1.as_str());
            }
            i += 1;
        }
        Err(RecordError::MissingField)
    }

    /// The amount that the field of the name states, with the sign asked
    /// for.
    pub fn parse_cash(&self, name: &str, cash_type: CashType) -> (result: Result<
        Decimal,
        RecordError,
    >)
        ensures
            result == match field_value(self.fields@, name@) {
                None => Err::<Decimal, RecordError>(RecordError::MissingField),
                Some(text) => match restricted_decimal(text, restrictions_of(cash_type)) {
                    Some(amount) => Ok(amount),
                    None => Err(RecordError::InvalidAmount),
                },
            },
    {
        let text = match self.get_value(name) {
            Ok(text) => text,
            Err(error) => {
                return Err(error);
            },
        };
        let restrictions = match cash_type {
            CashType::NonZero => DecimalRestrictions::NonZero,
            CashType::StrictlyPositive => DecimalRestrictions::StrictlyPositive,
        };
        match parse_decimal(text, restrictions) {
            Some(amount) => Ok(amount),
            None => Err(RecordError::InvalidAmount),
        }
    }
}

/// A field found among the first `k` fields is the field found among more
/// of them.
pub proof fn lemma_found_stays(fields: Seq<(String, String)>, name: Seq<char>, k: int, n: int)
    requires
        0 <= k <= n,
        field_place(fields, name, k) >= 0,
    ensures
        field_place(fields, name, n) == field_place(fields, name, k),
    decreases n - k,
{
    if k < n {
        lemma_found_stays(fields, name, k, n - 1);
    }
}

} // verus!
