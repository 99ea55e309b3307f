use investments::broker_statement::bcs::parsers::{parse_period, AssetsParser, PeriodError, PeriodParser};
use investments::broker_statement::firstrade::common::{validate_sub_account, TransactionError};
use investments::broker_statement::firstrade::security_info::{SecurityId, SecurityInfo, SecurityType};
use investments::broker_statement::firstrade::transactions::{
    CashFlowInfo, CashFlowTransaction, IncomeInfo, StockBuyInfo, StockSellInfo,
    StockTradeTransaction, TransactionInfo, Transactions,
};
use investments::broker_statement::ib::common::{parse_date, CashType, Record, RecordError};
use investments::broker_statement::ib::taxes::{IbStatementParser, TaxError, WithholdingTaxParser};
use investments::broker_statement::partial::PartialBrokerStatement;
use investments::currency::Cash;
use investments::types::{Date, Decimal};

fn date(year: i32, month: u32, day: u32) -> Date {
    Date::from_ymd_opt(year, month, day).unwrap()
}

fn number(text: &str) -> Decimal {
    Decimal::parse(text).unwrap()
}

#[test]
fn period_of_a_statement() {
    assert_eq!(
        parse_period("с 01.02.2019 по 28.02.2019"),
        Ok((date(2019, 2, 1), date(2019, 3, 1)))
    );
    assert_eq!(
        parse_period("с 28.02.2019 по 28.02.2019"),
        Ok((date(2019, 2, 28), date(2019, 3, 1)))
    );
    assert_eq!(parse_period("с 02.02.2019 по 01.02.2019"), Err(PeriodError::EmptyPeriod));
    assert_eq!(parse_period("с 01.02.2019 по 30.02.2019"), Err(PeriodError::InvalidDate));
    assert_eq!(parse_period("с 1.02.2019 по 28.02.2019"), Err(PeriodError::InvalidPeriod));
    assert_eq!(parse_period("с 01.02.2019 по 28.02.2019 "), Err(PeriodError::InvalidPeriod));
    assert_eq!(parse_period("c 01.02.2019 по 28.02.2019"), Err(PeriodError::InvalidPeriod));
    assert_eq!(parse_period("с 01-02-2019 по 28-02-2019"), Err(PeriodError::InvalidPeriod));
    assert_eq!(parse_period("с 01.02.2019 до 28.02.2019"), Err(PeriodError::InvalidPeriod));
    assert_eq!(parse_period(""), Err(PeriodError::InvalidPeriod));
}

#[test]
fn period_section() {
    let parser = PeriodParser {};
    assert!(!parser.consume_title());
    let row = vec!["Период:".to_owned(), "с 01.02.2019 по 28.02.2019".to_owned()];
    assert_eq!(parser.parse(&row), Ok((date(2019, 2, 1), date(2019, 3, 1))));
    assert_eq!(parser.parse(&vec!["с 01.02.2019 по 28.02.2019".to_owned()]), Err(PeriodError::InvalidPeriod));
    assert_eq!(AssetsParser {}.parse(), 5);
}

fn record(fields: &[(&str, &str)]) -> Record {
    Record { fields: fields.iter().map(|(name, value)| (name.to_string(), value.to_string())).collect() }
}

fn tax_record(date: &str, description: &str, amount: &str) -> Record {
    record(&[("Currency", "USD"), ("Date", date), ("Description", description), ("Amount", amount)])
}

#[test]
fn record_fields() {
    let fields = record(&[("Currency", "USD"), ("Amount", "-1.5"), ("Amount", "3")]);
    assert_eq!(fields.get_value("Amount"), Ok("-1.5"));
    assert_eq!(fields.get_value("Date"), Err(RecordError::MissingField));
    assert_eq!(fields.parse_cash("Amount", CashType::NonZero), Ok(Decimal { mantissa: -15, scale: 1 }));
    assert_eq!(fields.parse_cash("Amount", CashType::StrictlyPositive), Err(RecordError::InvalidAmount));
    assert_eq!(fields.parse_cash("Currency", CashType::NonZero), Err(RecordError::InvalidAmount));
    assert_eq!(fields.parse_cash("Total", CashType::NonZero), Err(RecordError::MissingField));
    assert_eq!(parse_date("2019-02-01"), Some(date(2019, 2, 1)));
    assert_eq!(parse_date("01.02.2019"), None);
}

#[test]
fn withheld_taxes() {
    let taxes = WithholdingTaxParser {};
    let mut parser = IbStatementParser { taxes: Vec::new() };

    assert_eq!(taxes.parse(&mut parser, &record(&[("Currency", "Total")])), Ok(()));
    assert!(parser.taxes.is_empty());

    assert_eq!(taxes.parse(&mut parser, &tax_record("2019-02-01", "AAA tax", "-1.50")), Ok(()));
    assert_eq!(taxes.parse(&mut parser, &tax_record("2019-02-01", "BBB tax", "-2")), Ok(()));
    assert_eq!(taxes.parse(&mut parser, &tax_record("2019-02-02", "AAA tax", "-3")), Ok(()));
    assert_eq!(parser.taxes.len(), 3);
    assert_eq!(parser.taxes[0].date, date(2019, 2, 1));
    assert_eq!(parser.taxes[0].description, "AAA tax");
    assert_eq!(parser.taxes[0].tax, Cash::new("USD", Decimal { mantissa: 150, scale: 2 }));

    // A positive amount cancels the tax of the same date, description and amount.
    assert_eq!(taxes.parse(&mut parser, &tax_record("2019-02-01", "AAA tax", "1.5")), Ok(()));
    assert_eq!(parser.taxes.len(), 2);
    assert_eq!(parser.taxes[0].description, "BBB tax");

    // Cancelling what was not withheld is refused.
    assert_eq!(
        taxes.parse(&mut parser, &tax_record("2019-02-01", "AAA tax", "1.5")),
        Err(TaxError::InvalidWithholdingTax)
    );
    assert_eq!(parser.taxes.len(), 2);

    // Cancelling another amount is refused, and the tax is gone.
    assert_eq!(
        taxes.parse(&mut parser, &tax_record("2019-02-01", "BBB tax", "1")),
        Err(TaxError::InvalidWithholdingTax)
    );
    assert_eq!(parser.taxes.len(), 1);

    // A second tax of the same date and description is refused, and takes the place of the first.
    assert_eq!(
        taxes.parse(&mut parser, &tax_record("2019-02-02", "AAA tax", "-4")),
        Err(TaxError::DuplicateWithholdingTax)
    );
    assert_eq!(parser.taxes.len(), 1);
    assert_eq!(parser.taxes[0].tax, Cash::new("USD", Decimal { mantissa: 4, scale: 0 }));
}

#[test]
fn withheld_tax_records_are_checked() {
    let taxes = WithholdingTaxParser {};
    let mut parser = IbStatementParser { taxes: Vec::new() };
    assert_eq!(
        taxes.parse(&mut parser, &record(&[("Date", "2019-02-01")])),
        Err(TaxError::Record(RecordError::MissingField))
    );
    assert_eq!(
        taxes.parse(&mut parser, &tax_record("01.02.2019", "AAA tax", "-1")),
        Err(TaxError::Record(RecordError::InvalidDate))
    );
    assert_eq!(
        taxes.parse(&mut parser, &tax_record("2019-02-01", "AAA tax", "0")),
        Err(TaxError::Record(RecordError::InvalidAmount))
    );
    assert_eq!(
        taxes.parse(&mut parser, &record(&[("Currency", "USD"), ("Date", "2019-02-01"), ("Amount", "-1")])),
        Err(TaxError::Record(RecordError::MissingField))
    );
    assert!(parser.taxes.is_empty());
}

fn security(id: &str) -> SecurityId {
    SecurityId { id: id.to_owned(), kind: "CUSIP".to_owned() }
}

fn securities() -> SecurityInfo {
    SecurityInfo {
        info: vec![
            (security("1"), SecurityType::Stock("AAA".to_owned())),
            (security("2"), SecurityType::Interest),
        ],
    }
}

fn info(conclusion: Date, execution: Date) -> TransactionInfo {
    TransactionInfo { conclusion_date: conclusion, execution_date: execution, memo: "memo".to_owned() }
}

fn trade(units: &str, price: &str, commission: &str, fees: &str, total: &str) -> StockTradeTransaction {
    StockTradeTransaction {
        info: info(date(2020, 1, 2), date(2020, 1, 6)),
        security_id: security("1"),
        units: units.to_owned(),
        price: number(price),
        commission: number(commission),
        fees: number(fees),
        total: number(total),
        sub_account_to: "CASH".to_owned(),
        sub_account_from: "CASH".to_owned(),
    }
}

fn cash_flow(kind: &str, amount: &str) -> CashFlowInfo {
    CashFlowInfo {
        transaction: CashFlowTransaction {
            _type: kind.to_owned(),
            date: date(2020, 1, 1),
            amount: number(amount),
            id: "id".to_owned(),
        },
        sub_account: "CASH".to_owned(),
    }
}

fn income(kind: &str, security_id: &str, total: &str) -> IncomeInfo {
    IncomeInfo {
        info: info(date(2020, 1, 31), date(2020, 1, 31)),
        security_id: security(security_id),
        _type: kind.to_owned(),
        total: number(total),
        sub_account_to: "CASH".to_owned(),
        sub_account_from: "CASH".to_owned(),
    }
}

#[test]
fn sub_accounts() {
    assert_eq!(validate_sub_account("CASH"), Ok(()));
    assert_eq!(validate_sub_account("MARGIN"), Err(TransactionError::UnsupportedSubAccount));
}

#[test]
fn transactions_are_taken_in() {
    let transactions = Transactions {
        start_date: date(2020, 1, 1),
        end_date: date(2020, 1, 31),
        cash_flows: vec![cash_flow("CREDIT", "1000.00")],
        stock_buys: vec![StockBuyInfo {
            _type: "BUY".to_owned(),
            transaction: trade("10.00", "12.3400", "1.5", "0.25", "-125.15"),
        }],
        stock_sells: vec![StockSellInfo {
            _type: "SELL".to_owned(),
            transaction: trade("-4", "13", "1", "0", "51"),
        }],
        income: vec![income("MISC", "2", "0.17")],
    };
    let mut statement = PartialBrokerStatement::new();
    assert_eq!(transactions.parse(&mut statement, "USD", &securities()), Ok(()));

    assert_eq!(statement.cash_flows.len(), 1);
    assert_eq!(statement.cash_flows[0].date, date(2020, 1, 1));
    assert_eq!(statement.cash_flows[0].cash, Cash::new("USD", number("1000.00")));

    assert_eq!(statement.stock_buys.len(), 1);
    let buy = &statement.stock_buys[0];
    assert_eq!(buy.symbol, "AAA");
    assert_eq!(buy.quantity, 10);
    assert_eq!(buy.price, Cash::new("USD", number("12.34")));
    assert_eq!(buy.commission, Cash::new("USD", number("1.75")));
    assert_eq!(buy.volume, Cash::new("USD", number("123.40")));
    assert_eq!(buy.conclusion_date, date(2020, 1, 2));
    assert_eq!(buy.execution_date, date(2020, 1, 6));

    assert_eq!(statement.stock_sells.len(), 1);
    let sell = &statement.stock_sells[0];
    assert_eq!(sell.symbol, "AAA");
    assert_eq!(sell.quantity, 4);
    assert_eq!(sell.price, Cash::new("USD", number("13")));
    assert_eq!(sell.commission, Cash::new("USD", number("1")));
    assert_eq!(sell.volume, Cash::new("USD", number("52")));
    assert!(!sell.emulation);

    assert_eq!(statement.idle_cash_interest.len(), 1);
    assert_eq!(statement.idle_cash_interest[0].date, date(2020, 1, 31));
    assert_eq!(statement.idle_cash_interest[0].amount, Cash::new("USD", number("0.17")));
}

#[test]
fn cash_flows_are_checked() {
    let mut statement = PartialBrokerStatement::new();
    assert_eq!(
        cash_flow("DEBIT", "10").parse(&mut statement, "USD"),
        Err(TransactionError::UnsupportedCashFlowType)
    );
    assert_eq!(
        cash_flow("CREDIT", "0").parse(&mut statement, "USD"),
        Err(TransactionError::InvalidTransactionAmount)
    );
    let mut margin = cash_flow("CREDIT", "10");
    margin.sub_account = "MARGIN".to_owned();
    assert_eq!(margin.parse(&mut statement, "USD"), Err(TransactionError::UnsupportedSubAccount));
    assert!(statement.cash_flows.is_empty());
}

#[test]
fn trades_are_checked() {
    let securities = securities();
    let read = |transaction: StockTradeTransaction, buy: bool| {
        let mut statement = PartialBrokerStatement::new();
        let result = transaction.parse(&mut statement, "USD", &securities, buy);
        assert_eq!(statement.stock_buys.len() + statement.stock_sells.len(), if result.is_ok() { 1 } else { 0 });
        result
    };
    assert_eq!(read(trade("10", "12.34", "1.5", "0.25", "-125.15"), true), Ok(()));
    assert_eq!(read(trade("-10", "12.34", "1.5", "0.25", "121.65"), false), Ok(()));

    let mut margin = trade("10", "12.34", "1.5", "0.25", "-125.15");
    margin.sub_account_from = "MARGIN".to_owned();
    assert_eq!(read(margin, true), Err(TransactionError::UnsupportedSubAccount));
    let mut margin = trade("10", "12.34", "1.5", "0.25", "-125.15");
    margin.sub_account_to = "MARGIN".to_owned();
    assert_eq!(read(margin, true), Err(TransactionError::UnsupportedSubAccount));

    let mut unknown = trade("10", "12.34", "1.5", "0.25", "-125.15");
    unknown.security_id = security("3");
    assert_eq!(read(unknown, true), Err(TransactionError::UnknownSecurity));
    let mut interest = trade("10", "12.34", "1.5", "0.25", "-125.15");
    interest.security_id = security("2");
    assert_eq!(read(interest, true), Err(TransactionError::UnexpectedSecurityType));

    assert_eq!(read(trade("-10", "12.34", "1.5", "0.25", "-125.15"), true), Err(TransactionError::InvalidTradeQuantity));
    assert_eq!(read(trade("10", "12.34", "1.5", "0.25", "121.65"), false), Err(TransactionError::InvalidTradeQuantity));
    assert_eq!(read(trade("1.5", "12.34", "1.5", "0.25", "-125.15"), true), Err(TransactionError::InvalidTradeQuantity));
    assert_eq!(read(trade("ten", "12.34", "1.5", "0.25", "-125.15"), true), Err(TransactionError::InvalidTradeQuantity));
    assert_eq!(read(trade("4294967296", "12.34", "1.5", "0.25", "-125.15"), true), Err(TransactionError::InvalidTradeQuantity));
    assert_eq!(read(trade("10", "0", "1.5", "0.25", "-125.15"), true), Err(TransactionError::InvalidPrice));
    assert_eq!(read(trade("10", "12.34", "-1.5", "0.25", "-125.15"), true), Err(TransactionError::InvalidCommission));
    assert_eq!(read(trade("10", "12.34", "1.5", "-0.25", "-125.15"), true), Err(TransactionError::InvalidFees));
    assert_eq!(read(trade("10", "12.34", "1.5", "0.25", "125.15"), true), Err(TransactionError::InvalidTradeVolume));
    assert_eq!(read(trade("-10", "12.34", "1.5", "0.25", "-121.65"), false), Err(TransactionError::InvalidTradeVolume));
    assert_eq!(
        read(trade("-10", "12.34", "1.5", "0.25", "79228162514264337593543950335"), false),
        Err(TransactionError::AmountOverflow)
    );
}

#[test]
fn incomes_are_checked() {
    let securities = securities();
    let mut statement = PartialBrokerStatement::new();
    assert_eq!(income("MISC", "2", "0.17").parse(&mut statement, "USD", &securities), Ok(()));
    assert_eq!(
        income("DIV", "2", "0.17").parse(&mut statement, "USD", &securities),
        Err(TransactionError::UnsupportedIncome)
    );
    assert_eq!(
        income("MISC", "1", "0.17").parse(&mut statement, "USD", &securities),
        Err(TransactionError::UnsupportedIncome)
    );
    assert_eq!(
        income("MISC", "3", "0.17").parse(&mut statement, "USD", &securities),
        Err(TransactionError::UnknownSecurity)
    );
    assert_eq!(
        income("MISC", "2", "0").parse(&mut statement, "USD", &securities),
        Err(TransactionError::InvalidIncomeAmount)
    );
    let mut late = income("MISC", "2", "0.17");
    late.info.execution_date = date(2020, 2, 1);
    assert_eq!(late.parse(&mut statement, "USD", &securities), Err(TransactionError::UnexpectedSettlementDate));
    let mut margin = income("MISC", "2", "0.17");
    margin.sub_account_to = "MARGIN".to_owned();
    assert_eq!(margin.parse(&mut statement, "USD", &securities), Err(TransactionError::UnsupportedSubAccount));
    assert_eq!(statement.idle_cash_interest.len(), 1);
}

#[test]
fn transactions_stop_at_the_first_problem() {
    let transactions = Transactions {
        start_date: date(2020, 1, 1),
        end_date: date(2020, 1, 31),
        cash_flows: vec![cash_flow("CREDIT", "1000.00")],
        stock_buys: vec![
            StockBuyInfo { _type: "BUY".to_owned(), transaction: trade("10", "12.34", "1.5", "0.25", "-125.15") },
            StockBuyInfo { _type: "BUYTOCOVER".to_owned(), transaction: trade("10", "12.34", "1.5", "0.25", "-125.15") },
        ],
        stock_sells: vec![StockSellInfo { _type: "SELL".to_owned(), transaction: trade("-4", "13", "1", "0", "51") }],
        income: vec![],
    };
    let mut statement = PartialBrokerStatement::new();
    assert_eq!(
        transactions.parse(&mut statement, "USD", &securities()),
        Err(TransactionError::UnsupportedStockPurchaseType)
    );
    assert_eq!(statement.cash_flows.len(), 1);
    assert_eq!(statement.stock_buys.len(), 1);
    assert_eq!(statement.stock_sells.len(), 0);

    let sells = Transactions {
        start_date: date(2020, 1, 1),
        end_date: date(2020, 1, 31),
        cash_flows: vec![],
        stock_buys: vec![],
        stock_sells: vec![StockSellInfo { _type: "SELLSHORT".to_owned(), transaction: trade("-4", "13", "1", "0", "51") }],
        income: vec![income("MISC", "2", "0.17")],
    };
    assert_eq!(
        sells.parse(&mut statement, "USD", &securities()),
        Err(TransactionError::UnsupportedStockSellType)
    );
    assert_eq!(statement.idle_cash_interest.len(), 0);
}
