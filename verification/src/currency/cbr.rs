//! Currency rates as the central bank publishes them.

use vstd::prelude::*;
use crate::currency::CurrencyRate;
use crate::text::same_text;
use crate::types::{
    date_of, decimal_of, decimal_quotient, formatted_day, parsed_day, parsed_decimal,
    with_char_replaced, with_decimal_point, Date, Decimal,
};

verus! {

/// Why rates could not be asked for or read.
#[derive(Clone, Copy, Debug, PartialEq, Eq, Structural)]
pub enum RatesError {
    /// Rates are published for USD only.
    UnsupportedCurrency,
    /// A date cannot be written into the request.
    InvalidRequestDate,
    /// A date of the answer is no date.
    InvalidDate,
    /// The answer is for another period than was asked for.
    InvalidPeriod,
    /// The rate at this place is for a lot that is not positive.
    InvalidLot(usize),
    /// The price of the rate at this place is no decimal number.
    InvalidPrice(usize),
    /// The date of the rate at this place is no date.
    InvalidRateDate(usize),
    /// The price of the rate at this place cannot be divided by its lot.
    InvalidQuotient(usize),
}

/// The rates of a period as the answer states them, all in text.
pub struct RatesData {
    pub start_date: String,
    pub end_date: String,
    pub rates: Vec<RateData>,
}

pub struct RateData {
    pub date: String,
    pub lot: i32,
    pub price: String,
}

/// The parameters of a request for rates.
pub struct RatesRequest {
    pub date_req1: String,
    pub date_req2: String,
    pub val_nm_rq: String,
}

/// The format of the dates in a request.
pub open spec fn request_date_format() -> Seq<char> {
    "%d/%m/%Y"@
}

/// The format of the dates in an answer.
pub open spec fn answer_date_format() -> Seq<char> {
    "%d.%m.%Y"@
}

/// The code under which the rates of USD are published.
pub open spec fn usd_code() -> Seq<char> {
    "R01235"@
}

/// The request for the rates of a currency in a period: for USD only, with
/// both dates written day first.
pub fn rates_request(currency: &str, start_date: Date, end_date: Date) -> (result: Result<
    RatesRequest,
    RatesError,
>)
    ensures
        match result {
            Ok(request) => {
                &&& currency@ == "USD"@
                &&& formatted_day(start_date.days as int, request_date_format()) == Some(
                    request.date_req1@,
                )
                &&& formatted_day(end_date.days as int, request_date_format()) == Some(
                    request.date_req2@,
                )
                &&& request.val_nm_rq@ == usd_code()
            },
            Err(error) => if currency@ != "USD"@ {
                error == RatesError::UnsupportedCurrency
            } else {
                &&& error == RatesError::InvalidRequestDate
                &&& formatted_day(start_date.days as int, request_date_format()) is None
                    || formatted_day(end_date.days as int, request_date_format()) is None
            },
        },
{
    if !same_text(currency, "USD") {
        return Err(RatesError::UnsupportedCurrency);
    }
    let date_req1 = match start_date.format("%d/%m/%Y") {
        Some(text) => text,
        None => {
            return Err(RatesError::InvalidRequestDate);
        },
    };
    let date_req2 = match end_date.format("%d/%m/%Y") {
        Some(text) => text,
        None => {
            return Err(RatesError::InvalidRequestDate);
        },
    };
    Ok(RatesRequest { date_req1, date_req2, val_nm_rq: "R01235".to_owned() })
}

/// The rate that an entry of the answer states: the price, written with a
/// comma or a point, divided by the lot, which is positive.
pub open spec fn rate_of(rate: RateData, at: usize) -> Result<CurrencyRate, RatesError> {
    let price = decimal_of(parsed_decimal(with_char_replaced(rate.price@, ',', '.')));
    let date = date_of(parsed_day(rate.date@, answer_date_format()));
    if rate.lot <= 0 {
        Err(RatesError::InvalidLot(at))
    } else if price is None {
        Err(RatesError::InvalidPrice(at))
    } else if date is None {
        Err(RatesError::InvalidRateDate(at))
    } else {
        match decimal_of(
            decimal_quotient(
                price->0.mantissa as int,
                price->0.scale as int,
                rate.lot as int,
                0,
            ),
        ) {
            Some(quotient) => Ok(CurrencyRate { date: date->0, price: quotient }),
            None => Err(RatesError::InvalidQuotient(at)),
        }
    }
}

/// Reads one entry of the answer.
pub fn parse_rate(rate: &RateData, at: usize) -> (result: Result<CurrencyRate, RatesError>)
    ensures
        result == rate_of(*rate, at),
{
    if rate.lot <= 0 {
        return Err(RatesError::InvalidLot(at));
    }
    let text = with_decimal_point(rate.price.as_str());
    let price = match Decimal::parse(text.as_str()) {
        Some(price) => price,
        None => {
            return Err(RatesError::InvalidPrice(at));
        },
    };
    let date = match Date::parse(rate.date.as_str(), "%d.%m.%Y") {
        Some(date) => date,
        None => {
            return Err(RatesError::InvalidRateDate(at));
        },
    };
    match price.checked_div(Decimal { mantissa: rate.lot as i128, scale: 0 }) {
        Some(quotient) => Ok(CurrencyRate { date, price: quotient }),
        None => Err(RatesError::InvalidQuotient(at)),
    }
}

/// The period of the answer is the period asked for.
pub open spec fn period_matches(start_date: Date, end_date: Date, data: RatesData) -> Result<
    (),
    RatesError,
> {
    let start = date_of(parsed_day(data.start_date@, answer_date_format()));
    let end = date_of(parsed_day(data.end_date@, answer_date_format()));
    if start is None {
        Err(RatesError::InvalidDate)
    } else if start != Some(start_date) {
        Err(RatesError::InvalidPeriod)
    } else if end is None {
        Err(RatesError::InvalidDate)
    } else if end != Some(end_date) {
        Err(RatesError::InvalidPeriod)
    } else {
        Ok(())
    }
}

/// Reads the rates of an answer that is for the period asked for. Fails
/// where the period is another, and at the first entry that states no rate.
pub fn parse_rates(start_date: Date, end_date: Date, data: &RatesData) -> (result: Result<
    Vec<CurrencyRate>,
    RatesError,
>)
    ensures
        match result {
            Ok(rates) => {
                &&& period_matches(start_date, end_date, *data) is Ok
                &&& rates@.len() == data.rates@.len()
                &&& forall|i: int|
                    0 <= i < rates@.len() ==> rate_of(data.rates@[i], i as usize) == Ok::<
                        CurrencyRate,
                        RatesError,
                    >(#[trigger] rates@[i])
            },
            Err(error) => if period_matches(start_date, end_date, *data) is Err {
                period_matches(start_date, end_date, *data) == Err::<(), RatesError>(error)
            } else {
                exists|at: int|
                    0 <= at < data.rates@.len() && rate_of(
                        #[trigger] data.rates@[at],
                        at as usize,
                    ) == Err::<CurrencyRate, RatesError>(error) && forall|i: int|
                        0 <= i < at ==> rate_of(#[trigger] data.rates@[i], i as usize) is Ok
            },
        },
{
    match Date::parse(data.start_date.as_str(), "%d.%m.%Y") {
        Some(date) => {
            if date.days != start_date.days {
                return Err(RatesError::InvalidPeriod);
            }
        },
        None => {
            return Err(RatesError::InvalidDate);
        },
    }
    match Date::parse(data.end_date.as_str(), "%d.%m.%Y") {
        Some(date) => {
            if date.days != end_date.days {
                return Err(RatesError::InvalidPeriod);
            }
        },
        None => {
            return Err(RatesError::InvalidDate);
        },
    }
    let n: usize = data.rates.len();
    let mut rates: Vec<CurrencyRate> = Vec::new();
    let mut i: usize = 0;
    while i < n
        invariant
            i <= n,
            n == data.rates@.len(),
            rates@.len() == i,
            period_matches(start_date, end_date, *data) is Ok,
            forall|j: int|
                0 <= j < i ==> rate_of(data.rates@[j], j as usize) == Ok::<
                    CurrencyRate,
                    RatesError,
                >(#[trigger] rates@[j]),
        decreases n - i,
    {
        match parse_rate(&data.rates[i], i) {
            Ok(rate) => {
                rates.push(rate);
            },
            Err(error) => {
                proof {
                    assert(rate_of(data.rates@[i as int], i as usize) == Err::<
                        CurrencyRate,
                        RatesError,
                    >(error));
                    assert forall|j: int| 0 <= j < i implies rate_of(
                        #[trigger] data.rates@[j],
                        j as usize,
                    ) is Ok by {
                        assert(rate_of(data.rates@[j], j as usize) == Ok::<
                            CurrencyRate,
                            RatesError,
                        >(rates@[j]));
                    }
                }
                return Err(error);
            },
        }
        i += 1;
    }
    Ok(rates)
}

} // verus!
