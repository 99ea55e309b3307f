//! The configuration of deposits, portfolios and brokers.

use vstd::prelude::*;
use vstd::string::StrSliceExecFns;
use crate::text::{
    find_char, parse_plus_unsigned, parse_unsigned, plus_unsigned_of, same_text, unsigned_of,
};
use crate::sorting::{in_date_order, of_date, sort_by_date};
use crate::taxes::TaxRemapping;
use crate::types::{calendar_day, date_of, parsed_day, Date, Decimal};
use crate::util::{parse_decimal, restricted_decimal, DecimalRestrictions};

verus! {

/// The brokers whose statements are understood.
#[derive(Clone, Copy, Debug, PartialEq, Eq, Structural)]
pub enum Broker {
    Bcs,
    Firstrade,
    InteractiveBrokers,
    OpenBroker,
    Tinkoff,
}

/// The jurisdiction whose tax rules apply.
#[derive(Clone, Copy, Debug, PartialEq, Eq, Structural)]
pub enum Country {
    Russia,
}

/// When the tax of a year is paid.
#[derive(Clone, Copy, Debug, PartialEq, Eq, Structural)]
pub enum TaxPaymentDay {
    Day { month: u32, day: u32 },
    OnClose,
}

pub struct Config {
    pub db_path: String,
    /// For how many seconds a cached quote is good.
    pub cache_expire_time: i64,
    pub deposits: Vec<DepositConfig>,
    pub notify_deposit_closing_days: Option<u32>,
    pub portfolios: Vec<PortfolioConfig>,
    pub brokers: Option<BrokersConfig>,
    pub alphavantage: Option<AlphaVantageConfig>,
    pub finnhub: Option<FinnhubConfig>,
    pub twelvedata: Option<TwelveDataConfig>,
}

pub struct DepositConfig {
    pub name: String,
    pub open_date: Date,
    pub close_date: Date,
    pub currency: Option<String>,
    pub amount: Decimal,
    pub interest: Decimal,
    pub capitalization: bool,
    pub contributions: Vec<(Date, Decimal)>,
}

pub struct PortfolioConfig {
    pub name: String,
    pub broker: Broker,
    pub plan: Option<String>,
    pub statements: String,
    /// Pairs of a symbol and the symbol that replaces it. Where a symbol
    /// is listed twice, each of its pairs counts when the remapping is
    /// checked.
    pub symbol_remapping: Vec<(String, String)>,
    /// Pairs of a symbol and the name of its instrument. The library only
    /// carries them: a symbol that is listed twice is carried twice.
    pub instrument_names: Vec<(String, String)>,
    pub tax_remapping: Vec<TaxRemappingConfig>,
    pub currency: Option<String>,
    pub min_trade_volume: Option<Decimal>,
    pub min_cash_assets: Option<Decimal>,
    pub restrict_buying: Option<bool>,
    pub restrict_selling: Option<bool>,
    /// Pairs of a symbol and the symbols whose performance merges into it.
    /// A configuration is valid only where no symbol occurs twice among
    /// all of them.
    pub merge_performance: Vec<(String, Vec<String>)>,
    pub assets: Vec<AssetAllocationConfig>,
    pub tax_payment_day: TaxPaymentDay,
    pub tax_deductions: Vec<(Date, Decimal)>,
}

pub struct TaxRemappingConfig {
    pub date: Date,
    pub description: String,
    pub to_date: Date,
}

pub struct AssetAllocationConfig {
    pub name: String,
    pub symbol: Option<String>,
    /// Percent of the parent that the asset should hold.
    pub weight: u8,
    pub restrict_buying: Option<bool>,
    pub restrict_selling: Option<bool>,
    pub assets: Option<Vec<AssetAllocationConfig>>,
}

pub struct BrokersConfig {
    pub bcs: Option<BrokerConfig>,
    pub firstrade: Option<BrokerConfig>,
    pub interactive_brokers: Option<BrokerConfig>,
    pub open_broker: Option<BrokerConfig>,
    pub tinkoff: Option<BrokerConfig>,
}

pub struct BrokerConfig {
    /// Pairs of a currency and the commission for a deposit in it. The
    /// library only carries them: a currency that is listed twice is
    /// carried twice.
    pub deposit_commissions: Vec<(String, TransactionCommissionSpec)>,
}

#[derive(Clone, Copy, Debug, PartialEq, Eq, Structural)]
pub struct TransactionCommissionSpec {
    pub fixed_amount: Decimal,
}

pub struct AlphaVantageConfig {
    pub api_key: String,
}

pub struct FinnhubConfig {
    pub token: String,
}

pub struct TwelveDataConfig {
    pub token: String,
}

impl BrokerConfig {
    /// A broker without commissions.
    pub fn mock() -> (config: BrokerConfig)
        ensures
            config.deposit_commissions@.len() == 0,
    {
        BrokerConfig { deposit_commissions: Vec::new() }
    }
}

impl BrokersConfig {
    /// Every broker is configured, none with commissions.
    pub open spec fn all_without_commissions(self) -> bool {
        &&& self.bcs matches Some(broker) && broker.deposit_commissions@.len() == 0
        &&& self.firstrade matches Some(broker) && broker.deposit_commissions@.len() == 0
        &&& self.interactive_brokers matches Some(broker) && broker.deposit_commissions@.len() == 0
        &&& self.open_broker matches Some(broker) && broker.deposit_commissions@.len() == 0
        &&& self.tinkoff matches Some(broker) && broker.deposit_commissions@.len() == 0
    }

    /// Every broker configured, none with commissions.
    pub fn mock() -> (config: BrokersConfig)
        ensures
            config.all_without_commissions(),
    {
        BrokersConfig {
            bcs: Some(BrokerConfig::mock()),
            firstrade: Some(BrokerConfig::mock()),
            interactive_brokers: Some(BrokerConfig::mock()),
            open_broker: Some(BrokerConfig::mock()),
            tinkoff: Some(BrokerConfig::mock()),
        }
    }
}

impl PortfolioConfig {
    /// The country whose tax rules the portfolio falls under.
    pub fn get_tax_country(&self) -> (country: Country)
        ensures
            country == Country::Russia,
    {
        Country::Russia
    }
}

/// The asset or one below it is configured with the symbol.
pub open spec fn has_symbol(asset: AssetAllocationConfig, symbol: Seq<char>) -> bool
    decreases asset, 0int,
{
    ||| asset.symbol matches Some(own) && own@ == symbol
    ||| asset.assets matches Some(children) && any_has_symbol(children@, symbol)
}

/// One of the assets, or one below them, is configured with the symbol.
pub open spec fn any_has_symbol(assets: Seq<AssetAllocationConfig>, symbol: Seq<char>) -> bool
    decreases assets, 1int,
{
    exists|i: int| 0 <= i < assets.len() && has_symbol(#[trigger] assets[i], symbol)
}

/// The text is one of the strings.
pub open spec fn listed(strings: Seq<String>, text: Seq<char>) -> bool {
    exists|i: int| 0 <= i < strings.len() && (#[trigger] strings[i])@ == text
}

/// No text occurs twice among the strings.
pub open spec fn distinct(strings: Seq<String>) -> bool {
    forall|i: int, j: int|
        0 <= i < j < strings.len() ==> (#[trigger] strings[i])@ != (#[trigger] strings[j])@
}

/// Whether the text is among the strings.
pub fn contains(strings: &Vec<String>, text: &String) -> (found: bool)
    ensures
        found == listed(strings@, text@),
{
    let n: usize = strings.len();
    let mut i: usize = 0;
    while i < n
        invariant
            i <= n,
            n == strings@.len(),
            forall|j: int| 0 <= j < i ==> (#[trigger] strings@[j])@ != text@,
        decreases n - i,
    {
        if strings[i] == *text {
            return true;
        }
        i += 1;
    }
    false
}

/// Adds the text to the strings unless it is among them already.
pub fn insert(strings: &mut Vec<String>, text: &String) -> (added: bool)
    requires
        distinct(old(strings)@),
    ensures
        distinct(final(strings)@),
        added == !listed(old(strings)@, text@),
        final(strings)@ == if added {
            old(strings)@.push(*text)
        } else {
            old(strings)@
        },
        forall|other: Seq<char>| #[trigger]
            listed(final(strings)@, other) <==> listed(old(strings)@, other) || other == text@,
{
    if contains(strings, text) {
        false
    } else {
        strings.push(text.clone());
        proof {
            let grown = strings@;
            let n = old(strings)@.len() as int;
            assert(grown[n]@ == text@);
            assert forall|other: Seq<char>| #[trigger]
                listed(grown, other) <==> listed(old(strings)@, other) || other == text@ by {
                if listed(old(strings)@, other) {
                    let i = choose|i: int|
                        0 <= i < n && (#[trigger] old(strings)@[i])@ == other;
                    assert(grown[i]@ == other);
                }
                if listed(grown, other) {
                    let i = choose|i: int| 0 <= i < grown.len() && (#[trigger] grown[i])@ == other;
                    if i < n {
                        assert(old(strings)@[i]@ == other);
                    }
                }
            }
            assert forall|i: int, j: int| 0 <= i < j < grown.len() implies (#[trigger] grown[i])@
                != (#[trigger] grown[j])@ by {
                if j == n {
                    assert(old(strings)@[i]@ == grown[i]@);
                } else {
                    assert(old(strings)@[i]@ == grown[i]@);
                    assert(old(strings)@[j]@ == grown[j]@);
                }
            }
        }
        true
    }
}

/// Adds to `symbols` the symbols of the assets and of all below them that
/// it does not hold yet.
pub fn collect_stock_symbols(assets: &Vec<AssetAllocationConfig>, symbols: &mut Vec<String>)
    requires
        distinct(old(symbols)@),
    ensures
        distinct(final(symbols)@),
        old(symbols)@.len() <= final(symbols)@.len(),
        final(symbols)@.take(old(symbols)@.len() as int) == old(symbols)@,
        forall|symbol: Seq<char>| #[trigger]
            listed(final(symbols)@, symbol) <==> listed(old(symbols)@, symbol) || any_has_symbol(
                assets@,
                symbol,
            ),
    decreases assets@, 1int,
{
    let n: usize = assets.len();
    let mut i: usize = 0;
    while i < n
        invariant
            i <= n,
            n == assets@.len(),
            distinct(symbols@),
            old(symbols)@.len() <= symbols@.len(),
            symbols@.take(old(symbols)@.len() as int) == old(symbols)@,
            forall|symbol: Seq<char>| #[trigger]
                listed(symbols@, symbol) <==> listed(old(symbols)@, symbol) || any_has_symbol(
                    assets@.take(i as int),
                    symbol,
                ),
        decreases n - i,
    {
        let ghost before = symbols@;
        assets[i].get_stock_symbols(symbols);
        proof {
            assert(symbols@.take(old(symbols)@.len() as int) =~= before.take(
                old(symbols)@.len() as int,
            ));
            assert forall|symbol: Seq<char>| #[trigger]
                listed(symbols@, symbol) <==> listed(old(symbols)@, symbol) || any_has_symbol(
                    assets@.take(i as int + 1),
                    symbol,
                ) by {
                let shorter = assets@.take(i as int);
                let longer = assets@.take(i as int + 1);
                assert(listed(before, symbol) <==> listed(old(symbols)@, symbol)
                    || any_has_symbol(shorter, symbol));
                if any_has_symbol(shorter, symbol) {
                    let j = choose|j: int|
                        0 <= j < shorter.len() && has_symbol(#[trigger] shorter[j], symbol);
                    assert(longer[j] == shorter[j]);
                }
                if has_symbol(assets@[i as int], symbol) {
                    assert(longer[i as int] == assets@[i as int]);
                }
                if any_has_symbol(longer, symbol) {
                    let j = choose|j: int|
                        0 <= j < longer.len() && has_symbol(#[trigger] longer[j], symbol);
                    if j < i {
                        assert(shorter[j] == longer[j]);
                    }
                }
            }
        }
        i += 1;
    }
    proof {
        assert(assets@.take(n as int) =~= assets@);
    }
}

impl AssetAllocationConfig {
    /// Adds to `symbols` the symbols of this asset and of all below it that
    /// it does not hold yet.
    pub fn get_stock_symbols(&self, symbols: &mut Vec<String>)
        requires
            distinct(old(symbols)@),
        ensures
            distinct(final(symbols)@),
            old(symbols)@.len() <= final(symbols)@.len(),
            final(symbols)@.take(old(symbols)@.len() as int) == old(symbols)@,
            forall|symbol: Seq<char>| #[trigger]
                listed(final(symbols)@, symbol) <==> listed(old(symbols)@, symbol) || has_symbol(
                    *self,
                    symbol,
                ),
        decreases self, 0int,
    {
        match &self.symbol {
            Some(symbol) => {
                insert(symbols, symbol);
                assert(symbols@.take(old(symbols)@.len() as int) =~= old(symbols)@);
            },
            None => {},
        }
        let ghost before = symbols@;
        match &self.assets {
            Some(assets) => {
                collect_stock_symbols(assets, symbols);
                assert(symbols@.take(old(symbols)@.len() as int) =~= before.take(
                    old(symbols)@.len() as int,
                ));
            },
            None => {},
        }
    }
}

impl PortfolioConfig {
    /// The symbols that the portfolio's assets are configured with, each
    /// once, in the order in which the tree first names them.
    pub fn get_stock_symbols(&self) -> (symbols: Vec<String>)
        ensures
            distinct(symbols@),
            forall|symbol: Seq<char>| #[trigger]
                listed(symbols@, symbol) <==> any_has_symbol(self.assets@, symbol),
    {
        let mut symbols: Vec<String> = Vec::new();
        collect_stock_symbols(&self.assets, &mut symbols);
        symbols
    }
}

/// The weight in percent that a text such as `25%` states: a whole number
/// of at most a hundred, with or without a plus sign, and a percent sign
/// behind it.
pub open spec fn weight_of(text: Seq<char>) -> Option<int> {
    if text.len() > 0 && text.last() == '%' {
        plus_unsigned_of(text.drop_last(), 100)
    } else {
        None
    }
}

/// Reads a weight such as `25%`.
pub fn parse_weight(text: &str) -> (weight: Option<u8>)
    ensures
        match weight {
            Some(w) => weight_of(text@) == Some(w as int),
            None => weight_of(text@) is None,
        },
{
    let n = text.unicode_len();
    if n == 0 || text.get_char(n - 1) != '%' {
        return None;
    }
    let number = text.substring_char(0, n - 1);
    assert(number@ =~= text@.drop_last());
    match parse_plus_unsigned(number, 100) {
        Some(w) => Some(w as u8),
        None => None,
    }
}

/// The day of tax payment that a text states in a given year: `on-close`,
/// or a day and a month as two numbers with a point between them that name
/// a day of that year other than 29 February.
pub open spec fn tax_payment_day_of(text: Seq<char>, year: int) -> Option<TaxPaymentDay> {
    if text == "on-close"@ {
        Some(TaxPaymentDay::OnClose)
    } else if exists|i: int| 0 <= i < text.len() && text[i] == '.' {
        let point = choose|i: int|
            0 <= i < text.len() && text[i] == '.' && forall|j: int| 0 <= j < i ==> text[j] != '.';
        let day = unsigned_of(text.subrange(0, point), u32::MAX as int);
        let month = unsigned_of(text.subrange(point + 1, text.len() as int), u32::MAX as int);
        if day is Some && month is Some && calendar_day(year, month->0, day->0) is Some && !(
        day->0 == 29 && month->0 == 2) {
            Some(TaxPaymentDay::Day { month: month->0 as u32, day: day->0 as u32 })
        } else {
            None
        }
    } else {
        None
    }
}

/// Reads the day of tax payment. The year is the one in which the day has
/// to exist.
pub fn parse_tax_payment_day(text: &str, year: i32) -> (r: Option<TaxPaymentDay>)
    ensures
        r == tax_payment_day_of(text@, year as int),
{
    if same_text(text, "on-close") {
        return Some(TaxPaymentDay::OnClose);
    }
    let n = text.unicode_len();
    let point = match find_char(text, '.') {
        Some(point) => point,
        None => {
            return None;
        },
    };
    proof {
        let chosen = choose|i: int|
            0 <= i < text@.len() && text@[i] == '.' && forall|j: int|
                0 <= j < i ==> text@[j] != '.';
        assert(chosen == point) by {
            if chosen < point {
                assert(text@[chosen] != '.');
            }
            if point < chosen {
                assert(text@[point as int] != '.');
            }
        }
    }
    let day = match parse_unsigned(text, 0, point, u32::MAX) {
        Some(day) => day,
        None => {
            return None;
        },
    };
    let month = match parse_unsigned(text, point + 1, n, u32::MAX) {
        Some(month) => month,
        None => {
            return None;
        },
    };
    if Date::from_ymd_opt(year, month, day).is_none() || (day == 29 && month == 2) {
        return None;
    }
    Some(TaxPaymentDay::Day { month, day })
}

/// What is wrong with a configuration.
#[derive(Clone, Copy, Debug, PartialEq, Eq, Structural)]
pub enum ConfigError {
    /// No portfolio has the name asked for.
    PortfolioNotDefined,
    /// The tax remapping at this place repeats the date and description of
    /// an earlier one.
    DuplicatedTaxRemapping(usize),
    /// The date of the cash flow at this place is no date.
    InvalidCashFlowDate(usize),
    /// The amount of the cash flow at this place is no positive number.
    InvalidCashFlowAmount(usize),
}

/// The format of the dates in the configuration.
pub open spec fn date_format() -> Seq<char> {
    "%d.%m.%Y"@
}

/// Reads a date of the configuration, such as `31.12.2018`.
pub fn parse_date(text: &str) -> (date: Option<Date>)
    ensures
        date == date_of(parsed_day(text@, date_format())),
{
    Date::parse(text, "%d.%m.%Y")
}

/// The cash flow that a pair of texts states: a date and a positive
/// amount.
pub open spec fn cash_flow_of(entry: (String, String)) -> Option<(Date, Decimal)> {
    match (
        date_of(parsed_day(entry.0@, date_format())),
        restricted_decimal(entry.1@, DecimalRestrictions::StrictlyPositive),
    ) {
        (Some(date), Some(amount)) => Some((date, amount)),
        _ => None,
    }
}

/// The cash flows that the first `k` pairs state, provided each states one.
pub open spec fn cash_flows_of(entries: Seq<(String, String)>, k: int) -> Seq<(Date, Decimal)>
    decreases k,
{
    if k <= 0 {
        Seq::empty()
    } else {
        cash_flows_of(entries, k - 1).push(cash_flow_of(entries[k - 1])->0)
    }
}

/// Reads cash flows from pairs of a date and an amount, and puts them in
/// the order of their dates. Fails at the first pair that states no date or
/// no positive amount.
pub fn parse_cash_flows(entries: &Vec<(String, String)>) -> (result: Result<
    Vec<(Date, Decimal)>,
    ConfigError,
>)
    ensures
        match result {
            Ok(flows) => {
                &&& forall|i: int| 0 <= i < entries@.len() ==> cash_flow_of(entries@[i]) is Some
                &&& in_date_order(flows@)
                &&& flows@.to_multiset() == cash_flows_of(
                    entries@,
                    entries@.len() as int,
                ).to_multiset()
                &&& forall|days: int| #[trigger]
                    of_date(flows@, days) == of_date(
                        cash_flows_of(entries@, entries@.len() as int),
                        days,
                    )
            },
            Err(ConfigError::InvalidCashFlowDate(at)) => {
                &&& at < entries@.len()
                &&& forall|i: int| 0 <= i < at ==> cash_flow_of(entries@[i]) is Some
                &&& date_of(parsed_day(entries@[at as int].0@, date_format())) is None
            },
            Err(ConfigError::InvalidCashFlowAmount(at)) => {
                &&& at < entries@.len()
                &&& forall|i: int| 0 <= i < at ==> cash_flow_of(entries@[i]) is Some
                &&& date_of(parsed_day(entries@[at as int].0@, date_format())) is Some
                &&& restricted_decimal(
                    entries@[at as int].1@,
                    DecimalRestrictions::StrictlyPositive,
                ) is None
            },
            Err(_) => false,
        },
{
    let n: usize = entries.len();
    let mut flows: Vec<(Date, Decimal)> = Vec::new();
    let mut i: usize = 0;
    while i < n
        invariant
            i <= n,
            n == entries@.len(),
            forall|j: int| 0 <= j < i ==> cash_flow_of(entries@[j]) is Some,
            flows@ == cash_flows_of(entries@, i as int),
        decreases n - i,
    {
        let date = match parse_date(entries[i].0.as_str()) {
            Some(date) => date,
            None => {
                return Err(ConfigError::InvalidCashFlowDate(i));
            },
        };
        let amount = match parse_decimal(
            entries[i].1.as_str(),
            DecimalRestrictions::StrictlyPositive,
        ) {
            Some(amount) => amount,
            None => {
                return Err(ConfigError::InvalidCashFlowAmount(i));
            },
        };
        flows.push((date, amount));
        i += 1;
    }
    Ok(sort_by_date(&flows))
}

impl Config {
    /// A configuration for trying things out: no deposits, no portfolios,
    /// every broker without commissions, quotes good for a minute.
    pub fn mock() -> (config: Config)
        ensures
            config.db_path@ == "/mock"@,
            config.cache_expire_time == 60,
            config.deposits@.len() == 0,
            config.notify_deposit_closing_days is None,
            config.portfolios@.len() == 0,
            config.brokers matches Some(brokers) && brokers.all_without_commissions(),
            config.alphavantage is None,
            config.finnhub is None,
            config.twelvedata is None,
    {
        Config {
            db_path: "/mock".to_owned(),
            cache_expire_time: default_expire_time(),
            deposits: Vec::new(),
            notify_deposit_closing_days: None,
            portfolios: Vec::new(),
            brokers: Some(BrokersConfig::mock()),
            alphavantage: None,
            finnhub: None,
            twelvedata: None,
        }
    }

    /// The first portfolio of the given name.
    pub fn get_portfolio(&self, name: &str) -> (result: Result<&PortfolioConfig, ConfigError>)
        ensures
            match result {
                Ok(portfolio) => exists|i: int|
                    0 <= i < self.portfolios@.len() && *portfolio == self.portfolios@[i]
                        && portfolio.name@ == name@ && forall|j: int|
                        0 <= j < i ==> self.portfolios@[j].name@ != name@,
                Err(error) => error == ConfigError::PortfolioNotDefined && forall|j: int|
                    0 <= j < self.portfolios@.len() ==> self.portfolios@[j].name@ != name@,
            },
    {
        let n: usize = self.portfolios.len();
        let mut i: usize = 0;
        while i < n
            invariant
                i <= n,
                n == self.portfolios@.len(),
                forall|j: int| 0 <= j < i ==> self.portfolios@[j].name@ != name@,
            decreases n - i,
        {
            if same_text(self.portfolios[i].name.as_str(), name) {
                return Ok(&self.portfolios[i]);
            }
            i += 1;
        }
        Err(ConfigError::PortfolioNotDefined)
    }
}

/// For how many seconds a cached quote is good unless the configuration
/// says otherwise.
pub fn default_expire_time() -> (seconds: i64)
    ensures
        seconds == 60,
{
    60
}

/// The first `k` tax remappings of the configuration repeat no date and
/// description.
pub open spec fn tax_remapping_distinct(entries: Seq<TaxRemappingConfig>, k: int) -> bool {
    forall|i: int, j: int|
        0 <= i < j < k ==> !((#[trigger] entries[i]).date == (#[trigger] entries[j]).date
            && entries[i].description@ == entries[j].description@)
}

impl PortfolioConfig {
    /// The tax remappings of the portfolio, none applied yet, in the order
    /// of the configuration. Fails at the first one that repeats the date
    /// and description of an earlier one.
    pub fn get_tax_remapping(&self) -> (result: Result<TaxRemapping, ConfigError>)
        ensures
            match result {
                Ok(remapping) => {
                    &&& tax_remapping_distinct(self.tax_remapping@, self.tax_remapping@.len() as int)
                    &&& remapping.wf()
                    &&& remapping.entries@.len() == self.tax_remapping@.len()
                    &&& forall|i: int|
                        0 <= i < self.tax_remapping@.len() ==> {
                            &&& (#[trigger] remapping.entries@[i]).date
                                == self.tax_remapping@[i].date
                            &&& remapping.entries@[i].description@
                                == self.tax_remapping@[i].description@
                            &&& remapping.entries@[i].to_date == self.tax_remapping@[i].to_date
                            &&& !remapping.entries@[i].applied
                        }
                },
                Err(ConfigError::DuplicatedTaxRemapping(at)) => {
                    &&& at < self.tax_remapping@.len()
                    &&& tax_remapping_distinct(self.tax_remapping@, at as int)
                    &&& !tax_remapping_distinct(self.tax_remapping@, at + 1)
                },
                Err(_) => false,
            },
    {
        let mut remapping = TaxRemapping::new();
        let n: usize = self.tax_remapping.len();
        let mut i: usize = 0;
        while i < n
            invariant
                i <= n,
                n == self.tax_remapping@.len(),
                remapping.wf(),
                remapping.entries@.len() == i,
                tax_remapping_distinct(self.tax_remapping@, i as int),
                forall|j: int|
                    0 <= j < i ==> {
                        &&& (#[trigger] remapping.entries@[j]).date == self.tax_remapping@[j].date
                        &&& remapping.entries@[j].description@
                            == self.tax_remapping@[j].description@
                        &&& remapping.entries@[j].to_date == self.tax_remapping@[j].to_date
                        &&& !remapping.entries@[j].applied
                    },
            decreases n - i,
        {
            let config = &self.tax_remapping[i];
            let ghost before = remapping.entries@;
            match remapping.add(config.date, config.description.as_str(), config.to_date) {
                Ok(_) => {
                    proof {
                        let after = remapping.entries@;
                        assert forall|j: int| 0 <= j < i implies after[j] == before[j] by {
                            assert(after.drop_last()[j] == before[j]);
                        }
                        assert forall|a: int, b: int| 0 <= a < b < i + 1 implies !((
                        #[trigger] self.tax_remapping@[a]).date == (
                        #[trigger] self.tax_remapping@[b]).date
                            && self.tax_remapping@[a].description@
                            == self.tax_remapping@[b].description@) by {
                            if b == i {
                                assert(before[a].date == self.tax_remapping@[a].date);
                            }
                        }
                    }
                },
                Err(_) => {
                    proof {
                        let j = choose|j: int|
                            0 <= j < before.len() && (#[trigger] before[j]).date == config.date
                                && before[j].description@ == config.description@;
                        assert(self.tax_remapping@[j].date == self.tax_remapping@[i as int].date);
                    }
                    return Err(ConfigError::DuplicatedTaxRemapping(i));
                },
            }
            i += 1;
        }
        Ok(remapping)
    }
}

} // verus!
