use investments::config::{
    collect_stock_symbols, parse_cash_flows, parse_date, parse_tax_payment_day, parse_weight,
    AssetAllocationConfig, Broker, BrokerConfig, BrokersConfig, Config, ConfigError, Country,
    DepositConfig, PortfolioConfig, TaxPaymentDay, TaxRemappingConfig,
};
use investments::config_check::ConfigProblem;
use investments::types::{Date, Decimal};

fn date(year: i32, month: u32, day: u32) -> Date {
    Date::from_ymd_opt(year, month, day).unwrap()
}

fn number(mantissa: i128, scale: u32) -> Decimal {
    Decimal { mantissa, scale }
}

fn asset(name: &str, symbol: Option<&str>, assets: Option<Vec<AssetAllocationConfig>>) -> AssetAllocationConfig {
    AssetAllocationConfig {
        name: name.to_owned(),
        symbol: symbol.map(|symbol| symbol.to_owned()),
        weight: 50,
        restrict_buying: None,
        restrict_selling: None,
        assets,
    }
}

fn portfolio(name: &str) -> PortfolioConfig {
    PortfolioConfig {
        name: name.to_owned(),
        broker: Broker::Firstrade,
        plan: None,
        statements: "~/statements".to_owned(),
        symbol_remapping: Vec::new(),
        instrument_names: Vec::new(),
        tax_remapping: Vec::new(),
        currency: None,
        min_trade_volume: None,
        min_cash_assets: None,
        restrict_buying: None,
        restrict_selling: None,
        merge_performance: Vec::new(),
        assets: Vec::new(),
        tax_payment_day: TaxPaymentDay::Day { month: 3, day: 15 },
        tax_deductions: Vec::new(),
    }
}

fn deposit(name: &str, open_date: Date, close_date: Date) -> DepositConfig {
    DepositConfig {
        name: name.to_owned(),
        open_date,
        close_date,
        currency: None,
        amount: number(100_000, 0),
        interest: number(75, 1),
        capitalization: false,
        contributions: Vec::new(),
    }
}

fn pair(a: &str, b: &str) -> (String, String) {
    (a.to_owned(), b.to_owned())
}

#[test]
fn weights_are_percents() {
    assert_eq!(parse_weight("25%"), Some(25));
    assert_eq!(parse_weight("0%"), Some(0));
    assert_eq!(parse_weight("100%"), Some(100));
    assert_eq!(parse_weight("+5%"), Some(5));
    assert_eq!(parse_weight("007%"), Some(7));
    assert_eq!(parse_weight("101%"), None);
    assert_eq!(parse_weight("300%"), None);
    assert_eq!(parse_weight("25"), None);
    assert_eq!(parse_weight("%"), None);
    assert_eq!(parse_weight("+%"), None);
    assert_eq!(parse_weight("-5%"), None);
    assert_eq!(parse_weight("2.5%"), None);
    assert_eq!(parse_weight(""), None);
}

#[test]
fn tax_payment_days() {
    assert_eq!(parse_tax_payment_day("on-close", 2021), Some(TaxPaymentDay::OnClose));
    assert_eq!(parse_tax_payment_day("15.3", 2021), Some(TaxPaymentDay::Day { month: 3, day: 15 }));
    assert_eq!(parse_tax_payment_day("01.12", 2021), Some(TaxPaymentDay::Day { month: 12, day: 1 }));
    assert_eq!(parse_tax_payment_day("29.2", 2020), None);
    assert_eq!(parse_tax_payment_day("29.2", 2021), None);
    assert_eq!(parse_tax_payment_day("28.2", 2021), Some(TaxPaymentDay::Day { month: 2, day: 28 }));
    assert_eq!(parse_tax_payment_day("31.4", 2021), None);
    assert_eq!(parse_tax_payment_day("1.13", 2021), None);
    assert_eq!(parse_tax_payment_day("1.2.3", 2021), None);
    assert_eq!(parse_tax_payment_day("1.", 2021), None);
    assert_eq!(parse_tax_payment_day(".1", 2021), None);
    assert_eq!(parse_tax_payment_day("15", 2021), None);
    assert_eq!(parse_tax_payment_day("on close", 2021), None);
    assert_eq!(parse_tax_payment_day("99999999999.1", 2021), None);
}

#[test]
fn configuration_dates() {
    assert_eq!(parse_date("31.12.2018"), Some(date(2018, 12, 31)));
    assert_eq!(parse_date("2018-12-31"), None);
}

#[test]
fn cash_flows_are_put_in_date_order() {
    let entries = vec![pair("10.03.2019", "200.5"), pair("01.02.2018", "100"), pair("05.03.2019", "3")];
    assert_eq!(
        parse_cash_flows(&entries),
        Ok(vec![
            (date(2018, 2, 1), number(100, 0)),
            (date(2019, 3, 5), number(3, 0)),
            (date(2019, 3, 10), number(2005, 1)),
        ])
    );
    assert_eq!(parse_cash_flows(&vec![]), Ok(vec![]));
}

#[test]
fn cash_flows_are_refused() {
    assert_eq!(
        parse_cash_flows(&vec![pair("01.02.2018", "100"), pair("soon", "100")]),
        Err(ConfigError::InvalidCashFlowDate(1))
    );
    assert_eq!(
        parse_cash_flows(&vec![pair("01.02.2018", "0")]),
        Err(ConfigError::InvalidCashFlowAmount(0))
    );
    assert_eq!(
        parse_cash_flows(&vec![pair("01.02.2018", "-5")]),
        Err(ConfigError::InvalidCashFlowAmount(0))
    );
    assert_eq!(
        parse_cash_flows(&vec![pair("01.02.2018", "much")]),
        Err(ConfigError::InvalidCashFlowAmount(0))
    );
}

#[test]
fn mock_configuration() {
    let config = Config::mock();
    assert_eq!(config.db_path, "/mock");
    assert_eq!(config.cache_expire_time, 60);
    assert!(config.deposits.is_empty());
    assert!(config.portfolios.is_empty());
    assert!(config.notify_deposit_closing_days.is_none());
    assert!(config.alphavantage.is_none() && config.finnhub.is_none() && config.twelvedata.is_none());
    assert_eq!(config.validate(), Ok(()));
    let brokers = config.brokers.unwrap();
    assert!(brokers.bcs.unwrap().deposit_commissions.is_empty());
    assert!(brokers.firstrade.unwrap().deposit_commissions.is_empty());
    assert!(brokers.interactive_brokers.unwrap().deposit_commissions.is_empty());
    assert!(brokers.open_broker.unwrap().deposit_commissions.is_empty());
    assert!(brokers.tinkoff.unwrap().deposit_commissions.is_empty());
    assert!(BrokersConfig::mock().tinkoff.is_some());
    assert!(BrokerConfig::mock().deposit_commissions.is_empty());
}

#[test]
fn portfolio_by_name() {
    let mut config = Config::mock();
    config.portfolios.push(portfolio("first"));
    config.portfolios.push(portfolio("second"));
    config.portfolios[1].plan = Some("plan".to_owned());
    assert_eq!(config.get_portfolio("second").unwrap().plan, Some("plan".to_owned()));
    assert_eq!(config.get_portfolio("first").unwrap().plan, None);
    assert_eq!(config.get_portfolio("third").err(), Some(ConfigError::PortfolioNotDefined));
}

#[test]
fn stock_symbols_of_a_portfolio() {
    let mut config = portfolio("main");
    config.assets = vec![
        asset("Stocks", None, Some(vec![
            asset("A", Some("AAA"), None),
            asset("B", Some("BBB"), None),
            asset("More", Some("MMM"), Some(vec![asset("A again", Some("AAA"), None)])),
        ])),
        asset("C", Some("CCC"), None),
        asset("B again", Some("BBB"), None),
    ];
    assert_eq!(config.get_stock_symbols(), vec!["AAA", "BBB", "MMM", "CCC"]);
    assert!(portfolio("empty").get_stock_symbols().is_empty());
    assert_eq!(config.get_tax_country(), Country::Russia);

    let mut symbols = vec!["BBB".to_owned()];
    collect_stock_symbols(&config.assets, &mut symbols);
    assert_eq!(symbols, vec!["BBB", "AAA", "MMM", "CCC"]);
    let mut symbols = vec!["ZZZ".to_owned()];
    config.assets[1].get_stock_symbols(&mut symbols);
    assert_eq!(symbols, vec!["ZZZ", "CCC"]);
}

#[test]
fn tax_remapping_of_a_portfolio() {
    let mut config = portfolio("main");
    let entry = |day: u32, description: &str| TaxRemappingConfig {
        date: date(2019, 1, day),
        description: description.to_owned(),
        to_date: date(2019, 2, day),
    };
    config.tax_remapping = vec![entry(1, "tax"), entry(2, "tax"), entry(1, "other tax")];
    let remapping = config.get_tax_remapping().ok().unwrap();
    assert_eq!(remapping.entries.len(), 3);
    assert_eq!(remapping.entries[1].date, date(2019, 1, 2));
    assert_eq!(remapping.entries[1].description, "tax");
    assert_eq!(remapping.entries[1].to_date, date(2019, 2, 2));
    assert!(!remapping.entries[1].applied);
    assert!(remapping.contains(date(2019, 1, 1), "other tax"));
    assert!(!remapping.contains(date(2019, 1, 2), "other tax"));

    config.tax_remapping.push(entry(2, "tax"));
    assert_eq!(config.get_tax_remapping().err(), Some(ConfigError::DuplicatedTaxRemapping(3)));
}

#[test]
fn deposits_are_checked() {
    let mut config = Config::mock();
    config.deposits.push(deposit("good", date(2019, 1, 1), date(2019, 12, 31)));
    config.deposits[0].contributions = vec![(date(2019, 1, 1), number(1, 0)), (date(2019, 12, 31), number(1, 0))];
    assert_eq!(config.validate(), Ok(()));

    config.deposits.push(deposit("late", date(2019, 1, 1), date(2019, 12, 31)));
    config.deposits[1].contributions = vec![(date(2019, 6, 1), number(1, 0)), (date(2020, 1, 1), number(1, 0))];
    config.deposits.push(deposit("backwards", date(2019, 1, 2), date(2019, 1, 1)));
    assert_eq!(config.validate(), Err(ConfigProblem::InvalidDepositContributionDate(1)));

    config.deposits[1].contributions = vec![(date(2018, 12, 31), number(1, 0))];
    assert_eq!(config.validate(), Err(ConfigProblem::InvalidDepositContributionDate(1)));

    config.deposits[1].contributions.clear();
    assert_eq!(config.validate(), Err(ConfigProblem::InvalidDepositDates(2)));
}

#[test]
fn portfolios_are_checked() {
    let mut config = Config::mock();
    config.portfolios.push(portfolio("first"));
    config.portfolios.push(portfolio("second"));
    config.portfolios[0].currency = Some("RUB".to_owned());
    config.portfolios[1].currency = Some("USD".to_owned());
    config.portfolios[1].symbol_remapping = vec![pair("A", "B"), pair("C", "D")];
    config.portfolios[1].merge_performance = vec![
        ("A".to_owned(), vec!["B".to_owned(), "C".to_owned()]),
        ("D".to_owned(), vec![]),
    ];
    assert_eq!(config.validate(), Ok(()));

    config.portfolios.push(portfolio("first"));
    assert_eq!(config.validate(), Err(ConfigProblem::DuplicatePortfolioName(2)));

    config.portfolios[2].name = "third".to_owned();
    config.portfolios[2].currency = Some("EUR".to_owned());
    assert_eq!(config.validate(), Err(ConfigProblem::UnsupportedPortfolioCurrency(2)));

    config.portfolios[2].currency = None;
    config.portfolios[2].symbol_remapping = vec![pair("A", "B"), pair("B", "C")];
    assert_eq!(config.validate(), Err(ConfigProblem::RecursiveSymbolRemapping(2)));

    config.portfolios[2].symbol_remapping = vec![pair("A", "A")];
    assert_eq!(config.validate(), Err(ConfigProblem::RecursiveSymbolRemapping(2)));

    config.portfolios[2].symbol_remapping.clear();
    config.portfolios[2].merge_performance = vec![
        ("A".to_owned(), vec!["B".to_owned()]),
        ("C".to_owned(), vec!["D".to_owned(), "B".to_owned()]),
    ];
    assert_eq!(config.validate(), Err(ConfigProblem::DuplicatedMergedSymbol(2)));

    config.portfolios[2].merge_performance = vec![
        ("A".to_owned(), vec!["B".to_owned()]),
        ("B".to_owned(), vec![]),
    ];
    assert_eq!(config.validate(), Err(ConfigProblem::DuplicatedMergedSymbol(2)));

    config.portfolios[2].merge_performance = vec![("A".to_owned(), vec!["A".to_owned()])];
    assert_eq!(config.validate(), Err(ConfigProblem::DuplicatedMergedSymbol(2)));

    config.deposits.push(deposit("backwards", date(2019, 1, 2), date(2019, 1, 1)));
    assert_eq!(config.validate(), Err(ConfigProblem::InvalidDepositDates(0)));
}

#[test]
fn cash_flows_of_one_date_keep_their_order() {
    let entries = vec![
        pair("10.03.2019", "3"),
        pair("01.02.2018", "2"),
        pair("10.03.2019", "1"),
        pair("01.02.2018", "4"),
    ];
    assert_eq!(
        parse_cash_flows(&entries),
        Ok(vec![
            (date(2018, 2, 1), number(2, 0)),
            (date(2018, 2, 1), number(4, 0)),
            (date(2019, 3, 10), number(3, 0)),
            (date(2019, 3, 10), number(1, 0)),
        ])
    );
}
