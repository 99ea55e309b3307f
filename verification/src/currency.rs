//! Amounts of money and currency rates.

pub mod cbr;
pub mod rate_cache;

use vstd::prelude::*;
use crate::types::{Date, Decimal};

verus! {

/// An amount in a currency.
#[derive(Debug, PartialEq, Eq)]
pub struct Cash {
    pub currency: String,
    pub amount: Decimal,
}

/// An amount of cash that came in on a date.
#[derive(Debug, PartialEq, Eq)]
pub struct CashAssets {
    pub date: Date,
    pub cash: Cash,
}

/// The price of a currency on a date.
#[derive(Clone, Copy, Debug, PartialEq, Eq, Structural)]
pub struct CurrencyRate {
    pub date: Date,
    pub price: Decimal,
}

impl Cash {
    pub fn new(currency: &str, amount: Decimal) -> (cash: Cash)
        ensures
            cash.currency@ == currency@,
            cash.amount == amount,
    {
        Cash { currency: currency.to_owned(), amount }
    }

    pub fn is_positive(&self) -> (r: bool)
        ensures
            r == (self.amount.mantissa > 0),
    {
        self.amount.is_positive()
    }

    /// Whether the two are the same amount of the same currency.
    pub fn same_as(&self, other: &Cash) -> (r: bool)
        ensures
            r == (self.currency@ == other.currency@ && self.amount.shortest()
                == other.amount.shortest()),
    {
        crate::text::same_text(self.currency.as_str(), other.currency.as_str())
            && self.amount.same_value(other.amount)
    }
}

impl CashAssets {
    pub fn new(date: Date, currency: &str, amount: Decimal) -> (assets: CashAssets)
        ensures
            assets.date == date,
            assets.cash.currency@ == currency@,
            assets.cash.amount == amount,
    {
        CashAssets { date, cash: Cash::new(currency, amount) }
    }
}

} // verus!
