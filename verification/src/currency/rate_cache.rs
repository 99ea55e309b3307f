//! What the cache of currency rates decides: which requests it takes, what
//! a stored price means, which days are missing, and what is stored for a
//! period. Reading and writing the store is left to the caller.

use vstd::prelude::*;
use crate::currency::CurrencyRate;
use crate::sorting::{in_date_order, sort_by_date};
use crate::types::{
    calendar_day, date_of, decimal_of, next_day, parsed_decimal, previous_day, year_of_day, Date,
    Decimal,
};

verus! {

/// What the cache knows about the rate of a day.
#[derive(Clone, Copy, Debug, PartialEq, Eq, Structural)]
pub enum CurrencyRateCacheResult {
    /// The day is stored, with its price or as a day without one.
    Exists(Option<Decimal>),
    /// The day is not stored; the rates of this period have to be fetched.
    Missing(Date, Date),
}

/// Why the cache refuses.
#[derive(Clone, Copy, Debug, PartialEq, Eq, Structural)]
pub enum CacheError {
    /// An attempt to get the price of today or of a later day.
    FutureDate,
    /// The stored price is no decimal number.
    InvalidStoredPrice,
    /// The calendar does not reach the year of the day, or the day after
    /// the last stored day, or yesterday.
    DateOutOfCalendar,
    /// The days stored leave no period to fetch before today.
    NothingToFetch,
    /// The period ends before it starts.
    InvalidDateRange,
    /// An attempt to save rates of today or of a later day.
    FutureRates,
    /// A rate lies outside the period.
    RatesOutOfRange,
}

impl CacheError {
    /// What went wrong, in words.
    pub fn message(&self) -> (text: String)
        ensures
            text@ == match *self {
                CacheError::FutureDate => "An attempt to get price for the future"@,
                CacheError::InvalidStoredPrice => "Got an invalid price from the database"@,
                CacheError::DateOutOfCalendar => "The date is out of the calendar"@,
                CacheError::NothingToFetch => "There is nothing to fetch before today"@,
                CacheError::InvalidDateRange => "Invalid date range"@,
                CacheError::FutureRates => "An attempt to save currency rates for the future"@,
                CacheError::RatesOutOfRange => "The specified currency rates don't match the specified date range"@,
            },
    {
        match self {
            CacheError::FutureDate => "An attempt to get price for the future".to_owned(),
            CacheError::InvalidStoredPrice => "Got an invalid price from the database".to_owned(),
            CacheError::DateOutOfCalendar => "The date is out of the calendar".to_owned(),
            CacheError::NothingToFetch => "There is nothing to fetch before today".to_owned(),
            CacheError::InvalidDateRange => "Invalid date range".to_owned(),
            CacheError::FutureRates => "An attempt to save currency rates for the future".to_owned(),
            CacheError::RatesOutOfRange => "The specified currency rates don't match the specified date range".to_owned(),
        }
    }
}

/// A day to store, with its price or without one.
#[derive(Clone, Copy, Debug, PartialEq, Eq, Structural)]
pub struct NewCurrencyRate {
    pub date: Date,
    pub price: Option<Decimal>,
}

/// The cache as far as it decides: it knows what day today is.
pub struct CurrencyRateCache {
    pub today: Date,
}

/// The period to fetch for a day that is not stored: from the day after the
/// last stored day of its year, or from the start of the year, to the end of
/// the year or to yesterday, whichever comes first.
pub open spec fn missing_period(today: Date, date: Date, last_date: Option<Date>) -> Result<
    (Date, Date),
    CacheError,
> {
    match year_of_day(date.days as int) {
        None => Err(CacheError::DateOutOfCalendar),
        Some(year) => match (
            date_of(calendar_day(year as i32 as int, 1, 1)),
            date_of(calendar_day(year as i32 as int, 12, 31)),
        ) {
            (Some(year_start), Some(year_end)) => {
                let start = match last_date {
                    Some(last) => next_day(last),
                    None => Some(year_start),
                };
                let end = if year_end.days >= today.days {
                    previous_day(today)
                } else {
                    Some(year_end)
                };
                match (start, end) {
                    (Some(first), Some(last)) => if first.days <= last.days {
                        Ok((first, last))
                    } else {
                        Err(CacheError::NothingToFetch)
                    },
                    _ => Err(CacheError::DateOutOfCalendar),
                }
            },
            _ => Err(CacheError::DateOutOfCalendar),
        },
    }
}

/// The days from `from` up to but without `to`, none with a price.
pub open spec fn gap(from: int, to: int) -> Seq<NewCurrencyRate>
    decreases to - from,
{
    if from >= to {
        Seq::empty()
    } else {
        gap(from, to - 1).push(NewCurrencyRate { date: Date { days: (to - 1) as i32 }, price: None })
    }
}

/// The day after the `k`-th rate, or `start` before the first.
pub open spec fn day_after(rates: Seq<(Date, Decimal)>, k: int, start: int) -> int {
    if k <= 0 {
        start
    } else {
        rates[k - 1].0.days + 1
    }
}

/// What is stored for the first `k` rates in the order of their dates: each
/// rate with its price, and before it the days since the rate before that,
/// or since `start`, without a price.
pub open spec fn stored(rates: Seq<(Date, Decimal)>, k: int, start: int) -> Seq<NewCurrencyRate>
    decreases k,
{
    if k <= 0 {
        Seq::empty()
    } else {
        (stored(rates, k - 1, start) + gap(
            day_after(rates, k - 1, start),
            rates[k - 1].0.days as int,
        )).push(NewCurrencyRate { date: rates[k - 1].0, price: Some(rates[k - 1].1) })
    }
}

/// What is stored for a period with the rates in the order of their dates:
/// what is stored for the rates, and then the days up to the end of the
/// period without a price.
pub open spec fn stored_for(rates: Seq<(Date, Decimal)>, start: int, end: int) -> Seq<
    NewCurrencyRate,
> {
    stored(rates, rates.len() as int, start) + gap(day_after(rates, rates.len() as int, start), end + 1)
}

pub open spec fn dated(rates: Seq<CurrencyRate>) -> Seq<(Date, Decimal)> {
    Seq::new(rates.len(), |i: int| (rates[i].date, rates[i].price))
}

pub open spec fn all_within(rates: Seq<CurrencyRate>, start: Date, end: Date) -> bool {
    forall|i: int|
        0 <= i < rates.len() ==> start.days <= (#[trigger] rates[i]).date.days <= end.days
}

impl CurrencyRateCache {
    pub fn new(today: Date) -> (cache: CurrencyRateCache)
        ensures
            cache.today == today,
    {
        CurrencyRateCache { today }
    }

    pub fn today(&self) -> (today: Date)
        ensures
            today == self.today,
    {
        self.today
    }

    /// Whether the price of the day may be asked for: only days before
    /// today have one.
    pub fn check_date(&self, date: Date) -> (result: Result<(), CacheError>)
        ensures
            result == if date.days >= self.today.days {
                Err::<(), CacheError>(CacheError::FutureDate)
            } else {
                Ok(())
            },
    {
        if date.days >= self.today.days {
            Err(CacheError::FutureDate)
        } else {
            Ok(())
        }
    }

    /// What a stored day means: no price, or the price that the stored
    /// text denotes.
    pub fn stored_price(&self, price: Option<&str>) -> (result: Result<
        CurrencyRateCacheResult,
        CacheError,
    >)
        ensures
            result == match price {
                None => Ok::<CurrencyRateCacheResult, CacheError>(
                    CurrencyRateCacheResult::Exists(None),
                ),
                Some(text) => match decimal_of(parsed_decimal(text@)) {
                    Some(value) => Ok(CurrencyRateCacheResult::Exists(Some(value))),
                    None => Err(CacheError::InvalidStoredPrice),
                },
            },
    {
        match price {
            None => Ok(CurrencyRateCacheResult::Exists(None)),
            Some(text) => match Decimal::parse(text) {
                Some(value) => Ok(CurrencyRateCacheResult::Exists(Some(value))),
                None => Err(CacheError::InvalidStoredPrice),
            },
        }
    }

    /// The first and last day of the year of `date`.
    pub fn year_bounds(&self, date: Date) -> (result: Result<(Date, Date), CacheError>)
        ensures
            match result {
                Ok((year_start, year_end)) => exists|year: i32|
                    year_of_day(date.days as int) == Some(year as int) && date_of(
                        calendar_day(year as int, 1, 1),
                    ) == Some(year_start) && date_of(calendar_day(year as int, 12, 31)) == Some(
                        year_end,
                    ),
                Err(error) => error == CacheError::DateOutOfCalendar && (match year_of_day(
                    date.days as int,
                ) {
                    None => true,
                    Some(year) => date_of(calendar_day(year as i32 as int, 1, 1)) is None
                        || date_of(calendar_day(year as i32 as int, 12, 31)) is None,
                }),
            },
    {
        let year = match date.year() {
            Some(year) => year,
            None => {
                return Err(CacheError::DateOutOfCalendar);
            },
        };
        match (Date::from_ymd_opt(year, 1, 1), Date::from_ymd_opt(year, 12, 31)) {
            (Some(year_start), Some(year_end)) => Ok((year_start, year_end)),
            _ => Err(CacheError::DateOutOfCalendar),
        }
    }

    /// What to fetch for a day that is not stored, given the last stored
    /// day of its year.
    pub fn missing(&self, date: Date, last_date: Option<Date>) -> (result: Result<
        CurrencyRateCacheResult,
        CacheError,
    >)
        ensures
            result == match missing_period(self.today, date, last_date) {
                Ok((start, end)) => Ok::<CurrencyRateCacheResult, CacheError>(
                    CurrencyRateCacheResult::Missing(start, end),
                ),
                Err(error) => Err(error),
            },
    {
        let (year_start, year_end) = match self.year_bounds(date) {
            Ok(bounds) => bounds,
            Err(error) => {
                return Err(error);
            },
        };
        let start = match last_date {
            Some(last) => last.succ_opt(),
            None => Some(year_start),
        };
        let end = if year_end.days >= self.today.days {
            self.today.pred_opt()
        } else {
            Some(year_end)
        };
        match (start, end) {
            (Some(first), Some(last)) => {
                if first.days <= last.days {
                    Ok(CurrencyRateCacheResult::Missing(first, last))
                } else {
                    Err(CacheError::NothingToFetch)
                }
            },
            _ => Err(CacheError::DateOutOfCalendar),
        }
    }

    /// What to store for a period whose rates were fetched: every day of
    /// the period in order, the days of the rates with their prices and the
    /// days between without one. The period has to lie before today and to
    /// hold every rate.
    pub fn plan_save(&self, start_date: Date, end_date: Date, rates: &Vec<CurrencyRate>) -> (result:
        Result<Vec<NewCurrencyRate>, CacheError>)
        ensures
            match result {
                Err(error) => error == if start_date.days > end_date.days {
                    CacheError::InvalidDateRange
                } else if end_date.days >= self.today.days {
                    CacheError::FutureRates
                } else {
                    CacheError::RatesOutOfRange
                } && (start_date.days > end_date.days || end_date.days >= self.today.days
                    || !all_within(rates@, start_date, end_date)),
                Ok(values) => {
                    &&& start_date.days <= end_date.days < self.today.days
                    &&& all_within(rates@, start_date, end_date)
                    &&& exists|sorted: Seq<(Date, Decimal)>|
                        {
                            &&& in_date_order(sorted)
                            &&& sorted.to_multiset() == dated(rates@).to_multiset()
                            &&& #[trigger] stored_for(
                                sorted,
                                start_date.days as int,
                                end_date.days as int,
                            ) == values@
                        }
                    &&& values@.len() > 0
                    &&& values@[0].date == start_date
                    &&& values@.last().date == end_date
                    &&& gapless(values@)
                },
            },
    {
        if start_date.days > end_date.days {
            return Err(CacheError::InvalidDateRange);
        } else if end_date.days >= self.today.days {
            return Err(CacheError::FutureRates);
        }
        let pairs = match dated_within(rates, start_date, end_date) {
            Some(pairs) => pairs,
            None => {
                return Err(CacheError::RatesOutOfRange);
            },
        };
        let sorted = sort_by_date(&pairs);
        proof {
            lemma_same_items_within(pairs@, sorted@, start_date.days as int, end_date.days as int);
        }
        let values = store_all(&sorted, start_date, end_date);
        Ok(values)
    }
}

/// The rates as pairs of date and price, provided every rate lies within
/// the period.
fn dated_within(rates: &Vec<CurrencyRate>, start_date: Date, end_date: Date) -> (pairs: Option<
    Vec<(Date, Decimal)>,
>)
    ensures
        match pairs {
            Some(pairs) => pairs@ == dated(rates@) && all_within(rates@, start_date, end_date),
            None => !all_within(rates@, start_date, end_date),
        },
{
    let n: usize = rates.len();
    let mut pairs: Vec<(Date, Decimal)> = Vec::new();
    let mut i: usize = 0;
    while i < n
        invariant
            i <= n,
            n == rates@.len(),
            pairs@ == dated(rates@).take(i as int),
            forall|j: int|
                0 <= j < i ==> start_date.days <= (#[trigger] rates@[j]).date.days
                    <= end_date.days,
        decreases n - i,
    {
        let rate = rates[i];
        if rate.date.days < start_date.days || rate.date.days > end_date.days {
            assert(!(start_date.days <= rates@[i as int].date.days <= end_date.days));
            return None;
        }
        pairs.push((rate.date, rate.price));
        proof {
            assert(dated(rates@).take(i as int + 1) =~= dated(rates@).take(i as int).push(
                (rate.date, rate.price),
            ));
        }
        i += 1;
    }
    proof {
        assert(dated(rates@).take(n as int) =~= dated(rates@));
    }
    Some(pairs)
}

/// Sequences that hold the same items have their dates within the same
/// bounds.
pub proof fn lemma_same_items_within(
    pairs: Seq<(Date, Decimal)>,
    sorted: Seq<(Date, Decimal)>,
    low: int,
    high: int,
)
    requires
        sorted.to_multiset() == pairs.to_multiset(),
        forall|j: int| 0 <= j < pairs.len() ==> low <= (#[trigger] pairs[j]).0.days <= high,
    ensures
        forall|j: int| 0 <= j < sorted.len() ==> low <= (#[trigger] sorted[j]).0.days <= high,
{
    sorted.to_multiset_ensures();
    pairs.to_multiset_ensures();
    assert forall|j: int| 0 <= j < sorted.len() implies low <= (#[trigger] sorted[j]).0.days
        <= high by {
        assert(sorted.contains(sorted[j]));
        assert(sorted.to_multiset().count(sorted[j]) > 0);
        assert(pairs.contains(sorted[j]));
        let k = choose|k: int| 0 <= k < pairs.len() && pairs[k] == sorted[j];
        assert(low <= pairs[k].0.days <= high);
    }
}

/// What is stored for a period: every day from its start to its end in
/// order, the days of the rates with their prices.
fn store_all(sorted: &Vec<(Date, Decimal)>, start_date: Date, end_date: Date) -> (values: Vec<
    NewCurrencyRate,
>)
    requires
        in_date_order(sorted@),
        start_date.days <= end_date.days < i32::MAX,
        forall|j: int|
            0 <= j < sorted@.len() ==> start_date.days <= (#[trigger] sorted@[j]).0.days
                <= end_date.days,
    ensures
        values@ == stored_for(sorted@, start_date.days as int, end_date.days as int),
        values@.len() > 0,
        values@[0].date == start_date,
        values@.last().date == end_date,
        gapless(values@),
{
    proof {
        assert forall|j: int| 0 < j < sorted@.len() implies sorted@[j - 1].0.days <= (
        #[trigger] sorted@[j]).0.days by {}
    }
    let m: usize = sorted.len();
    let mut values: Vec<NewCurrencyRate> = Vec::new();
    let mut next: i32 = start_date.days;
    let mut k: usize = 0;
    while k < m
        invariant
            k <= m,
            m == sorted@.len(),
            forall|j: int|
                0 < j < sorted@.len() ==> sorted@[j - 1].0.days <= (#[trigger] sorted@[j]).0.days,
            start_date.days <= end_date.days < i32::MAX,
            forall|j: int|
                0 <= j < m ==> start_date.days <= (#[trigger] sorted@[j]).0.days <= end_date.days,
            next == day_after(sorted@, k as int, start_date.days as int),
            start_date.days <= next <= end_date.days + 1,
            values@ == stored(sorted@, k as int, start_date.days as int),
            chained(values@, start_date.days as int, next as int),
        decreases m - k,
    {
        let (date, price) = sorted[k];
        proof {
            assert(start_date.days <= sorted@[k as int].0.days <= end_date.days);
            if k > 0 {
                assert(sorted@[k - 1].0.days <= sorted@[k as int].0.days);
            }
        }
        let ghost before = values@;
        append_rate(&mut values, next, date, price, Ghost(start_date.days as int));
        proof {
            assert(stored(sorted@, k as int + 1, start_date.days as int) == (before + gap(
                next as int,
                date.days as int,
            )).push(NewCurrencyRate { date, price: Some(price) }));
        }
        next = date.days + 1;
        k += 1;
    }
    fill_gap(&mut values, next, end_date.days + 1, Ghost(start_date.days as int));
    values
}

/// Every day is the day before it or the day after that.
pub open spec fn gapless(values: Seq<NewCurrencyRate>) -> bool {
    forall|i: int|
        0 < i < values.len() ==> 0 <= (#[trigger] values[i]).date.days - values[i - 1].date.days
            <= 1
}

/// The days go from `start` on without a gap and without going back, and
/// the day after the last one is `next`.
pub open spec fn chained(values: Seq<NewCurrencyRate>, start: int, next: int) -> bool {
    &&& values.len() == 0 ==> next == start
    &&& values.len() > 0 ==> values[0].date.days == start && values.last().date.days + 1 == next
    &&& gapless(values)
}

/// One more day, the day that is due or the last day again, carries the
/// chain on.
pub proof fn lemma_chained_push(
    values: Seq<NewCurrencyRate>,
    start: int,
    next: int,
    value: NewCurrencyRate,
)
    requires
        chained(values, start, next),
        value.date.days == next || (values.len() > 0 && value.date.days == next - 1),
    ensures
        chained(values.push(value), start, value.date.days + 1),
{
    let longer = values.push(value);
    assert forall|i: int| 0 < i < longer.len() implies 0 <= (#[trigger] longer[i]).date.days
        - longer[i - 1].date.days <= 1 by {
        if i < values.len() {
            assert(longer[i] == values[i]);
            assert(longer[i - 1] == values[i - 1]);
        } else {
            if values.len() > 0 {
                assert(longer[i - 1] == values.last());
            }
        }
    }
}

/// Adds the days from `next` up to the date without a price, and then the
/// date with its price.
fn append_rate(
    values: &mut Vec<NewCurrencyRate>,
    next: i32,
    date: Date,
    price: Decimal,
    Ghost(start): Ghost<int>,
)
    requires
        chained(old(values)@, start, next as int),
        date.days >= next || (old(values)@.len() > 0 && date.days == next - 1),
    ensures
        final(values)@ == (old(values)@ + gap(next as int, date.days as int)).push(
            NewCurrencyRate { date, price: Some(price) },
        ),
        chained(final(values)@, start, date.days + 1),
{
    fill_gap(values, next, date.days, Ghost(start));
    let ghost filled = values@;
    let value = NewCurrencyRate { date, price: Some(price) };
    values.push(value);
    proof {
        let due = if next <= date.days {
            date.days as int
        } else {
            next as int
        };
        lemma_chained_push(filled, start, due, value);
    }
}

/// Adds the days from `from` up to but without `to`, none with a price.
fn fill_gap(values: &mut Vec<NewCurrencyRate>, from: i32, to: i32, Ghost(start): Ghost<int>)
    requires
        chained(old(values)@, start, from as int),
    ensures
        final(values)@ == old(values)@ + gap(from as int, to as int),
        chained(
            final(values)@,
            start,
            if from <= to {
                to as int
            } else {
                from as int
            },
        ),
{
    let mut day: i32 = from;
    proof {
        assert(old(values)@ + gap(from as int, from as int) =~= old(values)@);
        if from > to {
            assert(old(values)@ + gap(from as int, to as int) =~= old(values)@);
        }
    }
    while day < to
        invariant
            from <= day,
            from <= to ==> day <= to,
            from > to ==> day == from,
            values@ == old(values)@ + gap(from as int, if from <= to { day as int } else { to as int }),
            chained(values@, start, day as int),
        decreases to - day,
    {
        let ghost before = values@;
        let value = NewCurrencyRate { date: Date { days: day }, price: None };
        values.push(value);
        proof {
            assert(gap(from as int, day + 1) == gap(from as int, day as int).push(value));
            assert(values@ =~= old(values)@ + gap(from as int, day + 1));
            lemma_chained_push(before, start, day as int, value);
        }
        day = day + 1;
    }
}

} // verus!
