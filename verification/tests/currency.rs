use investments::currency::cbr::{
    parse_rates, rates_request, RateData, RatesData, RatesError,
};
use investments::currency::rate_cache::{
    CacheError, CurrencyRateCache, CurrencyRateCacheResult, NewCurrencyRate,
};
use investments::currency::{Cash, CurrencyRate};
use investments::types::{Date, Decimal};

fn date(year: i32, month: u32, day: u32) -> Date {
    Date::from_ymd_opt(year, month, day).unwrap()
}

fn rate(date: &str, lot: i32, price: &str) -> RateData {
    RateData { date: date.to_owned(), lot, price: price.to_owned() }
}

// The answers are given as they stand once the document is read:
//
// <ValCurs ID="R01235" DateRange1="02.09.2018" DateRange2="03.09.2018" ...>
// </ValCurs>
#[test]
fn empty_rates() {
    let request = rates_request("USD", date(2018, 9, 2), date(2018, 9, 3)).unwrap();
    assert_eq!(request.date_req1, "02/09/2018");
    assert_eq!(request.date_req2, "03/09/2018");
    assert_eq!(request.val_nm_rq, "R01235");

    let data = RatesData {
        start_date: "02.09.2018".to_owned(),
        end_date: "03.09.2018".to_owned(),
        rates: vec![],
    };
    assert_eq!(parse_rates(date(2018, 9, 2), date(2018, 9, 3), &data).unwrap(), vec![]);
}

#[test]
fn rates() {
    let request = rates_request("USD", date(2018, 9, 1), date(2018, 9, 4)).unwrap();
    assert_eq!(request.date_req1, "01/09/2018");
    assert_eq!(request.date_req2, "04/09/2018");
    assert_eq!(request.val_nm_rq, "R01235");

    let data = RatesData {
        start_date: "01.09.2018".to_owned(),
        end_date: "04.09.2018".to_owned(),
        rates: vec![rate("01.09.2018", 1, "68,0447"), rate("04.09.2018", 1, "67,7443")],
    };
    assert_eq!(
        parse_rates(date(2018, 9, 1), date(2018, 9, 4), &data).unwrap(),
        vec![
            CurrencyRate { date: date(2018, 9, 1), price: Decimal::parse("68.0447").unwrap() },
            CurrencyRate { date: date(2018, 9, 4), price: Decimal::parse("67.7443").unwrap() },
        ],
    );
}

#[test]
fn price_is_divided_by_the_lot() {
    let data = RatesData {
        start_date: "01.09.2018".to_owned(),
        end_date: "01.09.2018".to_owned(),
        rates: vec![rate("01.09.2018", 10, "680,447")],
    };
    let rates = parse_rates(date(2018, 9, 1), date(2018, 9, 1), &data).unwrap();
    assert_eq!(rates.len(), 1);
    assert!(rates[0].price.same_value(Decimal { mantissa: 680_447, scale: 4 }));
}

#[test]
fn rates_errors() {
    let start = date(2018, 9, 1);
    let end = date(2018, 9, 4);
    let answer = |start_date: &str, end_date: &str, rates: Vec<RateData>| RatesData {
        start_date: start_date.to_owned(),
        end_date: end_date.to_owned(),
        rates,
    };
    assert_eq!(rates_request("EUR", start, end).err(), Some(RatesError::UnsupportedCurrency));
    assert_eq!(
        rates_request("USD", Date { days: i32::MAX }, end).err(),
        Some(RatesError::InvalidRequestDate)
    );
    assert_eq!(
        parse_rates(start, end, &answer("01.09.2018", "05.09.2018", vec![])),
        Err(RatesError::InvalidPeriod)
    );
    assert_eq!(
        parse_rates(start, end, &answer("02.09.2018", "04.09.2018", vec![])),
        Err(RatesError::InvalidPeriod)
    );
    assert_eq!(
        parse_rates(start, end, &answer("september", "04.09.2018", vec![])),
        Err(RatesError::InvalidDate)
    );
    assert_eq!(
        parse_rates(
            start,
            end,
            &answer("01.09.2018", "04.09.2018", vec![rate("01.09.2018", 0, "68,0447")])
        ),
        Err(RatesError::InvalidLot(0))
    );
    assert_eq!(
        parse_rates(
            start,
            end,
            &answer(
                "01.09.2018",
                "04.09.2018",
                vec![rate("01.09.2018", 1, "68,0447"), rate("04.09.2018", 1, "many")]
            )
        ),
        Err(RatesError::InvalidPrice(1))
    );
    assert_eq!(
        parse_rates(
            start,
            end,
            &answer("01.09.2018", "04.09.2018", vec![rate("the first", 1, "68,0447")])
        ),
        Err(RatesError::InvalidRateDate(0))
    );
}

// Stands for the store behind the cache.
struct Store {
    days: Vec<NewCurrencyRate>,
}

impl Store {
    fn get(&self, cache: &CurrencyRateCache, date: Date) -> Result<CurrencyRateCacheResult, CacheError> {
        cache.check_date(date)?;
        if let Some(stored) = self.days.iter().find(|stored| stored.date == date) {
            let text = stored.price.map(|price| format!("{}.{:028}", price.mantissa / 10i128.pow(28), price.mantissa % 10i128.pow(28)));
            return match text {
                Some(text) => {
                    assert_eq!(stored.price.unwrap().scale, 28);
                    cache.stored_price(Some(text.as_str()))
                }
                None => cache.stored_price(None),
            };
        }
        let (year_start, year_end) = cache.year_bounds(date)?;
        let last_date = self
            .days
            .iter()
            .map(|stored| stored.date)
            .filter(|stored| year_start.days <= stored.days && stored.days <= year_end.days)
            .max_by_key(|stored| stored.days);
        cache.missing(date, last_date)
    }

    fn save(
        &mut self,
        cache: &CurrencyRateCache,
        start_date: Date,
        end_date: Date,
        rates: Vec<CurrencyRate>,
    ) -> Result<(), CacheError> {
        for value in cache.plan_save(start_date, end_date, &rates)? {
            self.days.retain(|stored| stored.date != value.date);
            self.days.push(value);
        }
        Ok(())
    }
}

#[test]
fn rate_cache() {
    let mut store = Store { days: Vec::new() };
    let today = date(2018, 2, 9);
    let mut cache = CurrencyRateCache::new(today);

    let one = Decimal { mantissa: 1, scale: 0 };
    let currency_rates = vec![
        CurrencyRate {
            date: date(2018, 2, 4),
            price: one.checked_div(Decimal { mantissa: 3, scale: 0 }).unwrap(),
        },
        CurrencyRate {
            date: date(2018, 1, 10),
            price: one.checked_div(Decimal { mantissa: 7, scale: 0 }).unwrap(),
        },
    ];

    assert!(matches!(
        store.get(&cache, today),
        Err(ref e) if e.message() == "An attempt to get price for the future"
    ));

    assert!(matches!(
        store.get(&cache, currency_rates.first().unwrap().date).unwrap(),
        CurrencyRateCacheResult::Missing(from, to) if (
            from == date(2018, 1, 1) && to == date(2018, 2, 8))
    ));

    store.save(&cache, date(2018, 1, 1), date(2018, 2, 8), currency_rates.clone()).unwrap();

    for currency_rate in &currency_rates {
        assert!(matches!(
            store.get(&cache, currency_rate.date).unwrap(),
            CurrencyRateCacheResult::Exists(Some(ref price)) if *price == currency_rate.price
        ));
    }

    let mut day = date(2018, 1, 1);
    while day.days < cache.today.days {
        let mut skip = false;

        for currency_rate in &currency_rates {
            if day == currency_rate.date {
                skip = true;
                break;
            }
        }

        if !skip {
            let result = store.get(&cache, day).unwrap();
            assert!(matches!(result, CurrencyRateCacheResult::Exists(None)))
        }

        day = day.succ_opt().unwrap();
    }

    assert!(matches!(
        store.get(&cache, date(2017, 12, 31)).unwrap(),
        CurrencyRateCacheResult::Missing(from, to) if (
            from == date(2017, 1, 1) && to == date(2017, 12, 31))
    ));

    cache.today = Date { days: today.days + 10 };

    assert!(matches!(
        store.get(&cache, today).unwrap(),
        CurrencyRateCacheResult::Missing(from, to) if (
            from == today && to == cache.today.pred_opt().unwrap())
    ));
}

#[test]
fn saved_period_has_every_day_once() {
    let cache = CurrencyRateCache::new(date(2018, 2, 9));
    let price = Decimal { mantissa: 5, scale: 1 };
    let rates = vec![
        CurrencyRate { date: date(2018, 1, 3), price },
        CurrencyRate { date: date(2018, 1, 1), price },
    ];
    let values = cache.plan_save(date(2018, 1, 1), date(2018, 1, 4), &rates).unwrap();
    assert_eq!(
        values,
        vec![
            NewCurrencyRate { date: date(2018, 1, 1), price: Some(price) },
            NewCurrencyRate { date: date(2018, 1, 2), price: None },
            NewCurrencyRate { date: date(2018, 1, 3), price: Some(price) },
            NewCurrencyRate { date: date(2018, 1, 4), price: None },
        ]
    );
}

#[test]
fn save_is_refused() {
    let cache = CurrencyRateCache::new(date(2018, 2, 9));
    let price = Decimal { mantissa: 5, scale: 1 };
    assert_eq!(
        cache.plan_save(date(2018, 1, 2), date(2018, 1, 1), &vec![]),
        Err(CacheError::InvalidDateRange)
    );
    assert_eq!(
        cache.plan_save(date(2018, 1, 2), date(2018, 2, 9), &vec![]),
        Err(CacheError::FutureRates)
    );
    assert_eq!(
        cache.plan_save(
            date(2018, 1, 2),
            date(2018, 1, 5),
            &vec![CurrencyRate { date: date(2018, 1, 1), price }]
        ),
        Err(CacheError::RatesOutOfRange)
    );
    assert_eq!(
        cache.plan_save(
            date(2018, 1, 2),
            date(2018, 1, 5),
            &vec![CurrencyRate { date: date(2018, 1, 6), price }]
        ),
        Err(CacheError::RatesOutOfRange)
    );
    assert_eq!(CacheError::FutureRates.message(), "An attempt to save currency rates for the future");
}

#[test]
fn cache_errors() {
    let cache = CurrencyRateCache::new(date(2018, 2, 9));
    assert_eq!(cache.today(), date(2018, 2, 9));
    assert_eq!(cache.stored_price(Some("one")), Err(CacheError::InvalidStoredPrice));
    assert_eq!(
        cache.stored_price(Some("0.5")),
        Ok(CurrencyRateCacheResult::Exists(Some(Decimal { mantissa: 5, scale: 1 })))
    );
    assert_eq!(cache.missing(Date { days: i32::MAX }, None), Err(CacheError::DateOutOfCalendar));
    assert_eq!(
        cache.missing(date(2018, 2, 8), Some(date(2018, 2, 8))),
        Err(CacheError::NothingToFetch)
    );
}

#[test]
fn cash_of_the_same_value() {
    let a = Cash::new("USD", Decimal { mantissa: 150, scale: 2 });
    assert!(a.is_positive());
    assert!(a.same_as(&Cash::new("USD", Decimal { mantissa: 15, scale: 1 })));
    assert!(!a.same_as(&Cash::new("RUB", Decimal { mantissa: 15, scale: 1 })));
    assert!(!a.same_as(&Cash::new("USD", Decimal { mantissa: 16, scale: 1 })));
}
