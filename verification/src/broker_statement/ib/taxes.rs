//! Taxes withheld by the broker.

use vstd::prelude::*;
use crate::broker_statement::ib::common::{
    field_value, parse_date, record_date_format, CashType, Record, RecordError,
};
use crate::currency::Cash;
use crate::text::same_text;
use crate::types::{date_of, parsed_day, Date, Decimal};
use crate::util::{restricted_decimal, DecimalRestrictions};

verus! {

/// A tax that was withheld: what identifies it, and how much it was.
pub struct WithheldTax {
    pub date: Date,
    pub description: String,
    pub tax: Cash,
}

/// What has been read of a statement so far.
pub struct IbStatementParser {
    pub taxes: Vec<WithheldTax>,
}

/// Why a record of a withheld tax could not be taken in.
#[derive(Clone, Copy, Debug, PartialEq, Eq, Structural)]
pub enum TaxError {
    Record(RecordError),
    /// The record cancels a tax that was not withheld, or not in that
    /// amount.
    InvalidWithholdingTax,
    /// A tax of the same date and description was taken in before.
    DuplicateWithholdingTax,
}

/// Reads the records of withheld taxes.
pub struct WithholdingTaxParser {}

/// What a record states.
pub struct TaxRecord {
    pub currency: Seq<char>,
    pub date: Date,
    pub description: Seq<char>,
    pub amount: Decimal,
}

/// What a record states: nothing where it is a line of totals, else a tax
/// with its currency, date, description and an amount other than zero.
pub open spec fn tax_record_of(record: Record) -> Result<Option<TaxRecord>, RecordError> {
    let fields = record.fields@;
    match field_value(fields, "Currency"@) {
        None => Err(RecordError::MissingField),
        Some(currency) => if currency == "Total"@ {
            Ok(None)
        } else {
            match field_value(fields, "Date"@) {
                None => Err(RecordError::MissingField),
                Some(day) => match date_of(parsed_day(day, record_date_format())) {
                    None => Err(RecordError::InvalidDate),
                    Some(date) => match field_value(fields, "Description"@) {
                        None => Err(RecordError::MissingField),
                        Some(description) => match field_value(fields, "Amount"@) {
                            None => Err(RecordError::MissingField),
                            Some(text) => match restricted_decimal(
                                text,
                                DecimalRestrictions::NonZero,
                            ) {
                                None => Err(RecordError::InvalidAmount),
                                Some(amount) => Ok(
                                    Some(TaxRecord { currency, date, description, amount }),
                                ),
                            },
                        },
                    },
                },
            }
        },
    }
}

/// The tax is the one of the date and description.
pub open spec fn is_tax(tax: WithheldTax, date: Date, description: Seq<char>) -> bool {
    tax.date == date && tax.description@ == description
}

/// The tax is of the currency and the amount, whatever the scale the amount
/// is written in.
pub open spec fn is_amount(tax: WithheldTax, currency: Seq<char>, amount: Decimal) -> bool {
    tax.tax.currency@ == currency && tax.tax.amount.shortest() == amount.shortest()
}

/// No two taxes have the same date and description.
pub open spec fn taxes_distinct(taxes: Seq<WithheldTax>) -> bool {
    forall|i: int, j: int|
        0 <= i < j < taxes.len() ==> !is_tax(#[trigger] taxes[i], (#[trigger] taxes[j]).date, taxes[j].description@)
}

/// The place of the tax of the date and description, if it was taken in.
pub fn find_tax(taxes: &Vec<WithheldTax>, date: Date, description: &str) -> (place: Option<usize>)
    ensures
        match place {
            Some(i) => i < taxes@.len() && is_tax(taxes@[i as int], date, description@)
                && forall|j: int| 0 <= j < i ==> !is_tax(taxes@[j], date, description@),
            None => forall|j: int| 0 <= j < taxes@.len() ==> !is_tax(taxes@[j], date, description@),
        },
{
    let n: usize = taxes.len();
    let mut i: usize = 0;
    while i < n
        invariant
            i <= n,
            n == taxes@.len(),
            forall|j: int| 0 <= j < i ==> !is_tax(taxes@[j], date, description@),
        decreases n - i,
    {
        if taxes[i].date.days == date.days && same_text(taxes[i].description.as_str(), description) {
            return Some(i);
        }
        i += 1;
    }
    None
}

/// What a record states.
pub fn read_tax_record<'a>(record: &'a Record) -> (result: Result<
    Option<(&'a str, Date, &'a str, Decimal)>,
    RecordError,
>)
    ensures
        match result {
            Err(error) => tax_record_of(*record) == Err::<Option<TaxRecord>, RecordError>(error),
            Ok(None) => tax_record_of(*record) == Ok::<Option<TaxRecord>, RecordError>(None),
            Ok(Some((currency, date, description, amount))) => tax_record_of(*record) == Ok::<
                Option<TaxRecord>,
                RecordError,
            >(
                Some(
                    TaxRecord { currency: currency@, date, description: description@, amount },
                ),
            ),
        },
{
    let currency = match record.get_value("Currency") {
        Ok(currency) => currency,
        Err(error) => {
            return Err(error);
        },
    };
    if same_text(currency, "Total") {
        return Ok(None);
    }
    let day = match record.get_value("Date") {
        Ok(day) => day,
        Err(error) => {
            return Err(error);
        },
    };
    let date = match parse_date(day) {
        Some(date) => date,
        None => {
            return Err(RecordError::InvalidDate);
        },
    };
    let description = match record.get_value("Description") {
        Ok(description) => description,
        Err(error) => {
            return Err(error);
        },
    };
    let amount = match record.parse_cash("Amount", CashType::NonZero) {
        Ok(amount) => amount,
        Err(error) => {
            return Err(error);
        },
    };
    Ok(Some((currency, date, description, amount)))
}

impl WithholdingTaxParser {
    /// Takes in a record of a withheld tax.
    ///
    /// A line of totals changes nothing. An amount below zero is a tax: it
    /// is taken in with the sign turned, and where a tax of its date and
    /// description was taken in before, it takes that one's place and the
    /// record is refused as a duplicate. An amount above zero cancels the
    /// tax of its date and description: that tax is taken out, and the
    /// record is refused unless there was one of just that currency and
    /// amount.
    pub fn parse(&self, parser: &mut IbStatementParser, record: &Record) -> (result: Result<
        (),
        TaxError,
    >)
        requires
            taxes_distinct(old(parser).taxes@),
        ensures
            taxes_distinct(final(parser).taxes@),
            match tax_record_of(*record) {
                Err(error) => {
                    &&& result == Err::<(), TaxError>(TaxError::Record(error))
                    &&& final(parser).taxes@ == old(parser).taxes@
                },
                Ok(None) => result is Ok && final(parser).taxes@ == old(parser).taxes@,
                Ok(Some(stated)) => {
                    let before = old(parser).taxes@;
                    let after = final(parser).taxes@;
                    if stated.amount.mantissa > 0 {
                        if exists|i: int|
                            0 <= i < before.len() && is_tax(
                                before[i],
                                stated.date,
                                stated.description,
                            ) {
                            exists|i: int|
                                0 <= i < before.len() && is_tax(
                                    #[trigger] before[i],
                                    stated.date,
                                    stated.description,
                                ) && after == before.remove(i) && result == if is_amount(
                                    before[i],
                                    stated.currency,
                                    stated.amount,
                                ) {
                                    Ok::<(), TaxError>(())
                                } else {
                                    Err(TaxError::InvalidWithholdingTax)
                                }
                        } else {
                            after == before && result == Err::<(), TaxError>(
                                TaxError::InvalidWithholdingTax,
                            )
                        }
                    } else if stated.amount.mantissa == i128::MIN {
                        after == before && result == Err::<(), TaxError>(
                            TaxError::Record(RecordError::InvalidAmount),
                        )
                    } else {
                        let turned = Decimal {
                            mantissa: (-stated.amount.mantissa) as i128,
                            scale: stated.amount.scale,
                        };
                        if exists|i: int|
                            0 <= i < before.len() && is_tax(
                                before[i],
                                stated.date,
                                stated.description,
                            ) {
                            &&& result == Err::<(), TaxError>(TaxError::DuplicateWithholdingTax)
                            &&& exists|i: int|
                                0 <= i < before.len() && is_tax(
                                    #[trigger] before[i],
                                    stated.date,
                                    stated.description,
                                ) && after.len() == before.len() && is_tax(
                                    after[i],
                                    stated.date,
                                    stated.description,
                                ) && after[i].tax.currency@ == stated.currency
                                    && after[i].tax.amount == turned && forall|j: int|
                                    0 <= j < before.len() && j != i ==> after[j] == before[j]
                        } else {
                            &&& result is Ok
                            &&& after.len() == before.len() + 1
                            &&& after.drop_last() == before
                            &&& is_tax(after.last(), stated.date, stated.description)
                            &&& after.last().tax.currency@ == stated.currency
                            &&& after.last().tax.amount == turned
                        }
                    }
                },
            },
    {
        let (currency, date, description, amount) = match read_tax_record(record) {
            Err(error) => {
                return Err(TaxError::Record(error));
            },
            Ok(None) => {
                return Ok(());
            },
            Ok(Some(stated)) => stated,
        };
        let ghost before = parser.taxes@;
        let place = find_tax(&parser.taxes, date, description);
        if amount.is_positive() {
            return match place {
                Some(i) => {
                    let cancelled = parser.taxes.remove(i);
                    let tax = Cash::new(currency, amount);
                    proof {
                        lemma_remove_distinct(before, i as int);
                    }
                    if cancelled.tax.same_as(&tax) {
                        Ok(())
                    } else {
                        Err(TaxError::InvalidWithholdingTax)
                    }
                },
                None => Err(TaxError::InvalidWithholdingTax),
            };
        }
        let turned = match amount.checked_neg() {
            Some(turned) => turned,
            None => {
                return Err(TaxError::Record(RecordError::InvalidAmount));
            },
        };
        let tax = WithheldTax {
            date,
            description: description.to_owned(),
            tax: Cash::new(currency, turned),
        };
        match place {
            Some(i) => {
                let _ = parser.taxes.remove(i);
                parser.taxes.insert(i, tax);
                proof {
                    let after = parser.taxes@;
                    assert forall|a: int, b: int| 0 <= a < b < after.len() implies !is_tax(
                        #[trigger] after[a],
                        (#[trigger] after[b]).date,
                        after[b].description@,
                    ) by {
                        assert(is_tax(before[i as int], date, description@));
                        if a != i {
                            assert(after[a] == before[a]);
                        }
                        if b != i {
                            assert(after[b] == before[b]);
                        }
                    }
                    assert forall|j: int| 0 <= j < before.len() && j != i implies after[j]
                        == before[j] by {}
                }
                Err(TaxError::DuplicateWithholdingTax)
            },
            None => {
                parser.taxes.push(tax);
                proof {
                    let after = parser.taxes@;
                    assert(after.drop_last() =~= before);
                    assert forall|a: int, b: int| 0 <= a < b < after.len() implies !is_tax(
                        #[trigger] after[a],
                        (#[trigger] after[b]).date,
                        after[b].description@,
                    ) by {
                        assert(after[a] == before[a]);
                        if b < before.len() {
                            assert(after[b] == before[b]);
                        }
                    }
                }
                Ok(())
            },
        }
    }
}

/// Taking one tax out leaves the others distinct.
pub proof fn lemma_remove_distinct(taxes: Seq<WithheldTax>, i: int)
    requires
        taxes_distinct(taxes),
        0 <= i < taxes.len(),
    ensures
        taxes_distinct(taxes.remove(i)),
{
    let rest = taxes.remove(i);
    assert forall|a: int, b: int| 0 <= a < b < rest.len() implies !is_tax(
        #[trigger] rest[a],
        (#[trigger] rest[b]).date,
        rest[b].description@,
    ) by {
        let x = if a < i {
            a
        } else {
            a + 1
        };
        let y = if b < i {
            b
        } else {
            b + 1
        };
        assert(rest[a] == taxes[x]);
        assert(rest[b] == taxes[y]);
    }
}

} // verus!
