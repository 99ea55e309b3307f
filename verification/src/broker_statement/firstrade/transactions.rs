//! The transactions of a statement.

use vstd::prelude::*;
use crate::broker_statement::firstrade::common::{validate_sub_account, TransactionError};
use crate::broker_statement::firstrade::security_info::{
    security_of, SecurityId, SecurityInfo, SecurityType,
};
use crate::broker_statement::partial::PartialBrokerStatement;
use crate::broker_statement::{IdleCashInterest, StockBuy, StockSell};
use crate::currency::{Cash, CashAssets};
use crate::text::same_text;
use crate::types::{decimal_difference, decimal_of, decimal_sum, Date, Decimal};
use crate::util::{parse_decimal, restricted_decimal, DecimalRestrictions};

verus! {

/// The transactions of a period.
pub struct Transactions {
    pub start_date: Date,
    pub end_date: Date,
    pub cash_flows: Vec<CashFlowInfo>,
    pub stock_buys: Vec<StockBuyInfo>,
    pub stock_sells: Vec<StockSellInfo>,
    pub income: Vec<IncomeInfo>,
}

pub struct CashFlowInfo {
    pub transaction: CashFlowTransaction,
    pub sub_account: String,
}

pub struct CashFlowTransaction {
    pub _type: String,
    pub date: Date,
    pub amount: Decimal,
    pub id: String,
}

pub struct StockBuyInfo {
    pub _type: String,
    pub transaction: StockTradeTransaction,
}

pub struct StockSellInfo {
    pub _type: String,
    pub transaction: StockTradeTransaction,
}

pub struct StockTradeTransaction {
    pub info: TransactionInfo,
    pub security_id: SecurityId,
    pub units: String,
    pub price: Decimal,
    pub commission: Decimal,
    pub fees: Decimal,
    pub total: Decimal,
    pub sub_account_to: String,
    pub sub_account_from: String,
}

pub struct IncomeInfo {
    pub info: TransactionInfo,
    pub security_id: SecurityId,
    pub _type: String,
    pub total: Decimal,
    pub sub_account_to: String,
    pub sub_account_from: String,
}

pub struct TransactionInfo {
    pub conclusion_date: Date,
    pub execution_date: Date,
    pub memo: String,
}

/// A trade as it is read out of a transaction.
pub struct Trade {
    pub symbol: String,
    pub quantity: u32,
    pub price: Decimal,
    pub volume: Decimal,
    pub commission: Decimal,
}

/// What a trade has to come to.
pub struct TradeFacts {
    pub symbol: Seq<char>,
    pub quantity: u32,
    pub price: Decimal,
    pub volume: Decimal,
    pub commission: Decimal,
}

/// What stands in the way of taking in a cash flow: it has to be a credit
/// to the cash account of an amount above zero.
pub open spec fn cash_flow_problem(info: CashFlowInfo) -> Option<TransactionError> {
    if info.transaction._type@ != "CREDIT"@ {
        Some(TransactionError::UnsupportedCashFlowType)
    } else if info.sub_account@ != "CASH"@ {
        Some(TransactionError::UnsupportedSubAccount)
    } else if info.transaction.amount.mantissa <= 0 {
        Some(TransactionError::InvalidTransactionAmount)
    } else {
        None
    }
}

/// The quantity that the units of a trade state: a whole number, above
/// zero for a purchase and below zero for a sale, taken without its sign.
pub open spec fn quantity_of(units: Seq<char>, buy: bool) -> Option<u32> {
    match restricted_decimal(
        units,
        if buy {
            DecimalRestrictions::StrictlyPositive
        } else {
            DecimalRestrictions::StrictlyNegative
        },
    ) {
        Some(quantity) => quantity.whole_magnitude(),
        None => None,
    }
}

/// The volume of a trade: what was paid less the commission for a
/// purchase, what was received and the commission for a sale.
pub open spec fn volume_of(total: Decimal, commission: Decimal, buy: bool) -> Result<
    Decimal,
    TransactionError,
> {
    if buy {
        if total.mantissa >= 0 {
            Err(TransactionError::InvalidTradeVolume)
        } else if total.mantissa == i128::MIN {
            Err(TransactionError::AmountOverflow)
        } else {
            match decimal_of(
                decimal_difference(
                    -total.mantissa,
                    total.scale as int,
                    commission.mantissa as int,
                    commission.scale as int,
                ),
            ) {
                Some(volume) => Ok(volume),
                None => Err(TransactionError::AmountOverflow),
            }
        }
    } else if total.mantissa <= 0 {
        Err(TransactionError::InvalidTradeVolume)
    } else {
        match decimal_of(
            decimal_sum(
                total.mantissa as int,
                total.scale as int,
                commission.mantissa as int,
                commission.scale as int,
            ),
        ) {
            Some(volume) => Ok(volume),
            None => Err(TransactionError::AmountOverflow),
        }
    }
}

/// The trade that a transaction states, or what stands in its way.
pub open spec fn trade_of(
    transaction: StockTradeTransaction,
    securities: SecurityInfo,
    buy: bool,
) -> Result<TradeFacts, TransactionError> {
    if transaction.sub_account_from@ != "CASH"@ || transaction.sub_account_to@ != "CASH"@ {
        Err(TransactionError::UnsupportedSubAccount)
    } else {
        match security_of(securities.info@, transaction.security_id) {
            None => Err(TransactionError::UnknownSecurity),
            Some(SecurityType::Interest) => Err(TransactionError::UnexpectedSecurityType),
            Some(SecurityType::Stock(symbol)) => match quantity_of(transaction.units@, buy) {
                None => Err(TransactionError::InvalidTradeQuantity),
                Some(quantity) => if transaction.price.mantissa <= 0 {
                    Err(TransactionError::InvalidPrice)
                } else if transaction.commission.mantissa < 0 {
                    Err(TransactionError::InvalidCommission)
                } else if transaction.fees.mantissa < 0 {
                    Err(TransactionError::InvalidFees)
                } else {
                    match decimal_of(
                        decimal_sum(
                            transaction.commission.mantissa as int,
                            transaction.commission.scale as int,
                            transaction.fees.mantissa as int,
                            transaction.fees.scale as int,
                        ),
                    ) {
                        None => Err(TransactionError::AmountOverflow),
                        Some(commission) => match volume_of(transaction.total, commission, buy) {
                            Err(error) => Err(error),
                            Ok(volume) => Ok(
                                TradeFacts {
                                    symbol: symbol@,
                                    quantity,
                                    price: Decimal {
                                        mantissa: transaction.price.shortest().0 as i128,
                                        scale: transaction.price.shortest().1 as u32,
                                    },
                                    volume,
                                    commission,
                                },
                            ),
                        },
                    }
                },
            },
        }
    }
}

/// What stands in the way of taking in an income: it has to be settled on
/// the day it was concluded, through the cash account, of an amount above
/// zero, and be interest on idle cash.
pub open spec fn income_problem(income: IncomeInfo, securities: SecurityInfo) -> Option<
    TransactionError,
> {
    if income.sub_account_from@ != "CASH"@ || income.sub_account_to@ != "CASH"@ {
        Some(TransactionError::UnsupportedSubAccount)
    } else if income.info.execution_date != income.info.conclusion_date {
        Some(TransactionError::UnexpectedSettlementDate)
    } else if income.total.mantissa <= 0 {
        Some(TransactionError::InvalidIncomeAmount)
    } else {
        match security_of(securities.info@, income.security_id) {
            None => Some(TransactionError::UnknownSecurity),
            Some(SecurityType::Interest) => if income._type@ == "MISC"@ {
                None
            } else {
                Some(TransactionError::UnsupportedIncome)
            },
            Some(SecurityType::Stock(_)) => Some(TransactionError::UnsupportedIncome),
        }
    }
}

/// The cash of the currency and the amount.
pub open spec fn is_cash(cash: Cash, currency: Seq<char>, amount: Decimal) -> bool {
    cash.currency@ == currency && cash.amount == amount
}

/// Only the cash flows of the statement may differ.
pub open spec fn only_cash_flows_differ(
    before: PartialBrokerStatement,
    after: PartialBrokerStatement,
) -> bool {
    &&& after.stock_buys@ == before.stock_buys@
    &&& after.stock_sells@ == before.stock_sells@
    &&& after.idle_cash_interest@ == before.idle_cash_interest@
}

/// Only the trades of the statement may differ.
pub open spec fn only_trades_differ(
    before: PartialBrokerStatement,
    after: PartialBrokerStatement,
) -> bool {
    &&& after.cash_flows@ == before.cash_flows@
    &&& after.idle_cash_interest@ == before.idle_cash_interest@
}

/// Only the interest of the statement may differ.
pub open spec fn only_interest_differs(
    before: PartialBrokerStatement,
    after: PartialBrokerStatement,
) -> bool {
    &&& after.cash_flows@ == before.cash_flows@
    &&& after.stock_buys@ == before.stock_buys@
    &&& after.stock_sells@ == before.stock_sells@
}

/// Nothing of the statement differs.
pub open spec fn nothing_differs(
    before: PartialBrokerStatement,
    after: PartialBrokerStatement,
) -> bool {
    &&& after.cash_flows@ == before.cash_flows@
    &&& after.stock_buys@ == before.stock_buys@
    &&& after.stock_sells@ == before.stock_sells@
    &&& after.idle_cash_interest@ == before.idle_cash_interest@
}

impl CashFlowInfo {
    /// Takes in a cash flow: a credit to the cash account of an amount
    /// above zero.
    pub fn parse(&self, statement: &mut PartialBrokerStatement, currency: &str) -> (result: Result<
        (),
        TransactionError,
    >)
        ensures
            only_cash_flows_differ(*old(statement), *final(statement)),
            match cash_flow_problem(*self) {
                Some(error) => result == Err::<(), TransactionError>(error) && final(statement).cash_flows@ == old(statement).cash_flows@,
                None => {
                    &&& result is Ok
                    &&& final(statement).cash_flows@.len() == old(statement).cash_flows@.len() + 1
                    &&& final(statement).cash_flows@.drop_last() == old(statement).cash_flows@
                    &&& final(statement).cash_flows@.last().date == self.transaction.date
                    &&& is_cash(
                        final(statement).cash_flows@.last().cash,
                        currency@,
                        self.transaction.amount,
                    )
                },
            },
    {
        if !same_text(self.transaction._type.as_str(), "CREDIT") {
            return Err(TransactionError::UnsupportedCashFlowType);
        }
        match validate_sub_account(self.sub_account.as_str()) {
            Err(error) => {
                return Err(error);
            },
            Ok(_) => {},
        }
        if !self.transaction.amount.is_positive() {
            return Err(TransactionError::InvalidTransactionAmount);
        }
        let ghost before = statement.cash_flows@;
        statement.cash_flows.push(
            CashAssets::new(self.transaction.date, currency, self.transaction.amount),
        );
        proof {
            assert(statement.cash_flows@.drop_last() =~= before);
        }
        Ok(())
    }
}

/// The volume of a trade.
pub fn trade_volume(total: Decimal, commission: Decimal, buy: bool) -> (result: Result<
    Decimal,
    TransactionError,
>)
    ensures
        result == volume_of(total, commission, buy),
{
    if buy {
        if !total.is_negative() {
            return Err(TransactionError::InvalidTradeVolume);
        }
        let paid = match total.checked_neg() {
            Some(paid) => paid,
            None => {
                return Err(TransactionError::AmountOverflow);
            },
        };
        match paid.checked_sub(commission) {
            Some(volume) => Ok(volume),
            None => Err(TransactionError::AmountOverflow),
        }
    } else {
        if !total.is_positive() {
            return Err(TransactionError::InvalidTradeVolume);
        }
        match total.checked_add(commission) {
            Some(volume) => Ok(volume),
            None => Err(TransactionError::AmountOverflow),
        }
    }
}

impl StockTradeTransaction {
    /// Reads the trade that the transaction states.
    pub fn read(&self, securities: &SecurityInfo, buy: bool) -> (result: Result<
        Trade,
        TransactionError,
    >)
        ensures
            match result {
                Ok(trade) => trade_of(*self, *securities, buy) == Ok::<
                    TradeFacts,
                    TransactionError,
                >(
                    TradeFacts {
                        symbol: trade.symbol@,
                        quantity: trade.quantity,
                        price: trade.price,
                        volume: trade.volume,
                        commission: trade.commission,
                    },
                ),
                Err(error) => trade_of(*self, *securities, buy) == Err::<
                    TradeFacts,
                    TransactionError,
                >(error),
            },
    {
        match validate_sub_account(self.sub_account_from.as_str()) {
            Err(error) => {
                return Err(error);
            },
            Ok(_) => {},
        }
        match validate_sub_account(self.sub_account_to.as_str()) {
            Err(error) => {
                return Err(error);
            },
            Ok(_) => {},
        }
        let symbol = match securities.get(&self.security_id) {
            Err(error) => {
                return Err(error);
            },
            Ok(SecurityType::Interest) => {
                return Err(TransactionError::UnexpectedSecurityType);
            },
            Ok(SecurityType::Stock(symbol)) => symbol,
        };
        let restrictions = if buy {
            DecimalRestrictions::StrictlyPositive
        } else {
            DecimalRestrictions::StrictlyNegative
        };
        let quantity = match parse_decimal(self.units.as_str(), restrictions) {
            Some(quantity) => match quantity.magnitude_u32() {
                Some(quantity) => quantity,
                None => {
                    return Err(TransactionError::InvalidTradeQuantity);
                },
            },
            None => {
                return Err(TransactionError::InvalidTradeQuantity);
            },
        };
        if !self.price.is_positive() {
            return Err(TransactionError::InvalidPrice);
        }
        let price = self.price.normalize();
        if self.commission.is_negative() {
            return Err(TransactionError::InvalidCommission);
        }
        if self.fees.is_negative() {
            return Err(TransactionError::InvalidFees);
        }
        let commission = match self.commission.checked_add(self.fees) {
            Some(commission) => commission,
            None => {
                return Err(TransactionError::AmountOverflow);
            },
        };
        let volume = match trade_volume(self.total, commission, buy) {
            Ok(volume) => volume,
            Err(error) => {
                return Err(error);
            },
        };
        Ok(Trade { symbol: symbol.clone(), quantity, price, volume, commission })
    }

    /// Takes in the trade that the transaction states, as a purchase or as
    /// a sale.
    pub fn parse(
        &self,
        statement: &mut PartialBrokerStatement,
        currency: &str,
        securities: &SecurityInfo,
        buy: bool,
    ) -> (result: Result<(), TransactionError>)
        ensures
            only_trades_differ(*old(statement), *final(statement)),
            match trade_of(*self, *securities, buy) {
                Err(error) => result == Err::<(), TransactionError>(error) && nothing_differs(
                    *old(statement),
                    *final(statement),
                ),
                Ok(trade) => {
                    &&& result is Ok
                    &&& if buy {
                        &&& final(statement).stock_sells@ == old(statement).stock_sells@
                        &&& final(statement).stock_buys@.len() == old(statement).stock_buys@.len()
                            + 1
                        &&& final(statement).stock_buys@.drop_last() == old(statement).stock_buys@
                        &&& is_purchase(
                            final(statement).stock_buys@.last(),
                            trade,
                            currency@,
                            self.info,
                        )
                    } else {
                        &&& final(statement).stock_buys@ == old(statement).stock_buys@
                        &&& final(statement).stock_sells@.len() == old(statement).stock_sells@.len() + 1
                        &&& final(statement).stock_sells@.drop_last() == old(statement).stock_sells@
                        &&& is_sale(
                            final(statement).stock_sells@.last(),
                            trade,
                            currency@,
                            self.info,
                        )
                    }
                },
            },
    {
        let trade = match self.read(securities, buy) {
            Ok(trade) => trade,
            Err(error) => {
                return Err(error);
            },
        };
        let price = Cash::new(currency, trade.price);
        let volume = Cash::new(currency, trade.volume);
        let commission = Cash::new(currency, trade.commission);
        if buy {
            let ghost before = statement.stock_buys@;
            statement.stock_buys.push(
                StockBuy::new(
                    trade.symbol.as_str(),
                    trade.quantity,
                    price,
                    volume,
                    commission,
                    self.info.conclusion_date,
                    self.info.execution_date,
                ),
            );
            proof {
                assert(statement.stock_buys@.drop_last() =~= before);
            }
        } else {
            let ghost before = statement.stock_sells@;
            statement.stock_sells.push(
                StockSell::new(
                    trade.symbol.as_str(),
                    trade.quantity,
                    price,
                    volume,
                    commission,
                    self.info.conclusion_date,
                    self.info.execution_date,
                    false,
                ),
            );
            proof {
                assert(statement.stock_sells@.drop_last() =~= before);
            }
        }
        Ok(())
    }
}

/// The purchase is the trade, in the currency, on the dates of the
/// transaction.
pub open spec fn is_purchase(
    purchase: StockBuy,
    trade: TradeFacts,
    currency: Seq<char>,
    info: TransactionInfo,
) -> bool {
    &&& purchase.symbol@ == trade.symbol
    &&& purchase.quantity == trade.quantity
    &&& is_cash(purchase.price, currency, trade.price)
    &&& is_cash(purchase.volume, currency, trade.volume)
    &&& is_cash(purchase.commission, currency, trade.commission)
    &&& purchase.conclusion_date == info.conclusion_date
    &&& purchase.execution_date == info.execution_date
}

/// The sale is the trade, in the currency, on the dates of the transaction,
/// and is no emulation.
pub open spec fn is_sale(
    sale: StockSell,
    trade: TradeFacts,
    currency: Seq<char>,
    info: TransactionInfo,
) -> bool {
    &&& sale.symbol@ == trade.symbol
    &&& sale.quantity == trade.quantity
    &&& is_cash(sale.price, currency, trade.price)
    &&& is_cash(sale.volume, currency, trade.volume)
    &&& is_cash(sale.commission, currency, trade.commission)
    &&& sale.conclusion_date == info.conclusion_date
    &&& sale.execution_date == info.execution_date
    &&& !sale.emulation
}

impl IncomeInfo {
    /// Takes in an income: interest on idle cash.
    pub fn parse(
        &self,
        statement: &mut PartialBrokerStatement,
        currency: &str,
        securities: &SecurityInfo,
    ) -> (result: Result<(), TransactionError>)
        ensures
            only_interest_differs(*old(statement), *final(statement)),
            match income_problem(*self, *securities) {
                Some(error) => result == Err::<(), TransactionError>(error) && final(statement).idle_cash_interest@ == old(statement).idle_cash_interest@,
                None => {
                    &&& result is Ok
                    &&& final(statement).idle_cash_interest@.len() == old(statement).idle_cash_interest@.len() + 1
                    &&& final(statement).idle_cash_interest@.drop_last() == old(statement).idle_cash_interest@
                    &&& final(statement).idle_cash_interest@.last().date
                        == self.info.conclusion_date
                    &&& is_cash(
                        final(statement).idle_cash_interest@.last().amount,
                        currency@,
                        self.total,
                    )
                },
            },
    {
        match validate_sub_account(self.sub_account_from.as_str()) {
            Err(error) => {
                return Err(error);
            },
            Ok(_) => {},
        }
        match validate_sub_account(self.sub_account_to.as_str()) {
            Err(error) => {
                return Err(error);
            },
            Ok(_) => {},
        }
        let date = self.info.conclusion_date;
        if self.info.execution_date.days != date.days {
            return Err(TransactionError::UnexpectedSettlementDate);
        }
        if !self.total.is_positive() {
            return Err(TransactionError::InvalidIncomeAmount);
        }
        match securities.get(&self.security_id) {
            Err(error) => {
                return Err(error);
            },
            Ok(SecurityType::Interest) => {
                if !same_text(self._type.as_str(), "MISC") {
                    return Err(TransactionError::UnsupportedIncome);
                }
            },
            Ok(SecurityType::Stock(_)) => {
                return Err(TransactionError::UnsupportedIncome);
            },
        }
        let ghost before = statement.idle_cash_interest@;
        statement.idle_cash_interest.push(
            IdleCashInterest::new(date, Cash::new(currency, self.total)),
        );
        proof {
            assert(statement.idle_cash_interest@.drop_last() =~= before);
        }
        Ok(())
    }
}

/// What stands in the way of taking in a purchase.
pub open spec fn purchase_problem(purchase: StockBuyInfo, securities: SecurityInfo) -> Option<
    TransactionError,
> {
    if purchase._type@ != "BUY"@ {
        Some(TransactionError::UnsupportedStockPurchaseType)
    } else {
        match trade_of(purchase.transaction, securities, true) {
            Err(error) => Some(error),
            Ok(_) => None,
        }
    }
}

/// What stands in the way of taking in a sale.
pub open spec fn sale_problem(sale: StockSellInfo, securities: SecurityInfo) -> Option<
    TransactionError,
> {
    if sale._type@ != "SELL"@ {
        Some(TransactionError::UnsupportedStockSellType)
    } else {
        match trade_of(sale.transaction, securities, false) {
            Err(error) => Some(error),
            Ok(_) => None,
        }
    }
}

/// The first problem among the cash flows from `from` on.
pub open spec fn cash_flows_problem(flows: Seq<CashFlowInfo>, from: int) -> Option<
    TransactionError,
>
    decreases flows.len() - from,
{
    if from < 0 || from >= flows.len() {
        None
    } else if cash_flow_problem(flows[from]) is Some {
        cash_flow_problem(flows[from])
    } else {
        cash_flows_problem(flows, from + 1)
    }
}

/// The first problem among the purchases from `from` on.
pub open spec fn purchases_problem(
    purchases: Seq<StockBuyInfo>,
    securities: SecurityInfo,
    from: int,
) -> Option<TransactionError>
    decreases purchases.len() - from,
{
    if from < 0 || from >= purchases.len() {
        None
    } else if purchase_problem(purchases[from], securities) is Some {
        purchase_problem(purchases[from], securities)
    } else {
        purchases_problem(purchases, securities, from + 1)
    }
}

/// The first problem among the sales from `from` on.
pub open spec fn sales_problem(sales: Seq<StockSellInfo>, securities: SecurityInfo, from: int) -> Option<
    TransactionError,
>
    decreases sales.len() - from,
{
    if from < 0 || from >= sales.len() {
        None
    } else if sale_problem(sales[from], securities) is Some {
        sale_problem(sales[from], securities)
    } else {
        sales_problem(sales, securities, from + 1)
    }
}

/// The first problem among the incomes from `from` on.
pub open spec fn incomes_problem(incomes: Seq<IncomeInfo>, securities: SecurityInfo, from: int) -> Option<
    TransactionError,
>
    decreases incomes.len() - from,
{
    if from < 0 || from >= incomes.len() {
        None
    } else if income_problem(incomes[from], securities) is Some {
        income_problem(incomes[from], securities)
    } else {
        incomes_problem(incomes, securities, from + 1)
    }
}

/// The first problem of the transactions: cash flows come first, then
/// purchases, sales and incomes.
pub open spec fn transactions_problem(transactions: Transactions, securities: SecurityInfo) -> Option<
    TransactionError,
> {
    if cash_flows_problem(transactions.cash_flows@, 0) is Some {
        cash_flows_problem(transactions.cash_flows@, 0)
    } else if purchases_problem(transactions.stock_buys@, securities, 0) is Some {
        purchases_problem(transactions.stock_buys@, securities, 0)
    } else if sales_problem(transactions.stock_sells@, securities, 0) is Some {
        sales_problem(transactions.stock_sells@, securities, 0)
    } else {
        incomes_problem(transactions.income@, securities, 0)
    }
}

/// Whatever the statement held before it holds still, in the same places.
pub open spec fn extends(before: PartialBrokerStatement, after: PartialBrokerStatement) -> bool {
    &&& before.cash_flows@.len() <= after.cash_flows@.len()
    &&& after.cash_flows@.take(before.cash_flows@.len() as int) == before.cash_flows@
    &&& before.stock_buys@.len() <= after.stock_buys@.len()
    &&& after.stock_buys@.take(before.stock_buys@.len() as int) == before.stock_buys@
    &&& before.stock_sells@.len() <= after.stock_sells@.len()
    &&& after.stock_sells@.take(before.stock_sells@.len() as int) == before.stock_sells@
    &&& before.idle_cash_interest@.len() <= after.idle_cash_interest@.len()
    &&& after.idle_cash_interest@.take(before.idle_cash_interest@.len() as int)
        == before.idle_cash_interest@
}

/// The cash flows from `base` on are those that the transactions state.
pub open spec fn cash_flows_taken(
    taken: Seq<CashAssets>,
    base: int,
    flows: Seq<CashFlowInfo>,
    currency: Seq<char>,
    k: int,
) -> bool {
    forall|i: int|
        0 <= i < k ==> {
            &&& taken[base + i].date == (#[trigger] flows[i]).transaction.date
            &&& is_cash(taken[base + i].cash, currency, flows[i].transaction.amount)
        }
}

/// The purchases from `base` on are those that the transactions state.
pub open spec fn purchases_taken(
    taken: Seq<StockBuy>,
    base: int,
    purchases: Seq<StockBuyInfo>,
    currency: Seq<char>,
    securities: SecurityInfo,
    k: int,
) -> bool {
    forall|i: int|
        0 <= i < k ==> trade_of((#[trigger] purchases[i]).transaction, securities, true) is Ok
            && is_purchase(
            taken[base + i],
            trade_of(purchases[i].transaction, securities, true)->Ok_0,
            currency,
            purchases[i].transaction.info,
        )
}

/// The sales from `base` on are those that the transactions state.
pub open spec fn sales_taken(
    taken: Seq<StockSell>,
    base: int,
    sales: Seq<StockSellInfo>,
    currency: Seq<char>,
    securities: SecurityInfo,
    k: int,
) -> bool {
    forall|i: int|
        0 <= i < k ==> trade_of((#[trigger] sales[i]).transaction, securities, false) is Ok
            && is_sale(
            taken[base + i],
            trade_of(sales[i].transaction, securities, false)->Ok_0,
            currency,
            sales[i].transaction.info,
        )
}

/// The interest from `base` on is what the incomes state.
pub open spec fn incomes_taken(
    taken: Seq<IdleCashInterest>,
    base: int,
    incomes: Seq<IncomeInfo>,
    currency: Seq<char>,
    k: int,
) -> bool {
    forall|i: int|
        0 <= i < k ==> {
            &&& taken[base + i].date == (#[trigger] incomes[i]).info.conclusion_date
            &&& is_cash(taken[base + i].amount, currency, incomes[i].total)
        }
}

/// The statement holds what it held before and then, in their order, what
/// the transactions state.
pub open spec fn taken_in(
    before: PartialBrokerStatement,
    after: PartialBrokerStatement,
    transactions: Transactions,
    currency: Seq<char>,
    securities: SecurityInfo,
) -> bool {
    &&& extends(before, after)
    &&& after.cash_flows@.len() == before.cash_flows@.len() + transactions.cash_flows@.len()
    &&& after.stock_buys@.len() == before.stock_buys@.len() + transactions.stock_buys@.len()
    &&& after.stock_sells@.len() == before.stock_sells@.len() + transactions.stock_sells@.len()
    &&& after.idle_cash_interest@.len() == before.idle_cash_interest@.len()
        + transactions.income@.len()
    &&& cash_flows_taken(
        after.cash_flows@,
        before.cash_flows@.len() as int,
        transactions.cash_flows@,
        currency,
        transactions.cash_flows@.len() as int,
    )
    &&& purchases_taken(
        after.stock_buys@,
        before.stock_buys@.len() as int,
        transactions.stock_buys@,
        currency,
        securities,
        transactions.stock_buys@.len() as int,
    )
    &&& sales_taken(
        after.stock_sells@,
        before.stock_sells@.len() as int,
        transactions.stock_sells@,
        currency,
        securities,
        transactions.stock_sells@.len() as int,
    )
    &&& incomes_taken(
        after.idle_cash_interest@,
        before.idle_cash_interest@.len() as int,
        transactions.income@,
        currency,
        transactions.income@.len() as int,
    )
}

/// Takes in the cash flows in their order up to the first that cannot be
/// taken in.
pub fn take_cash_flows(
    flows: &Vec<CashFlowInfo>,
    statement: &mut PartialBrokerStatement,
    currency: &str,
) -> (result: Result<(), TransactionError>)
    ensures
        only_cash_flows_differ(*old(statement), *final(statement)),
        old(statement).cash_flows@.len() <= final(statement).cash_flows@.len(),
        final(statement).cash_flows@.take(old(statement).cash_flows@.len() as int) == old(
            statement,
        ).cash_flows@,
        result == match cash_flows_problem(flows@, 0) {
            Some(error) => Err::<(), TransactionError>(error),
            None => Ok(()),
        },
        result is Ok ==> final(statement).cash_flows@.len() == old(statement).cash_flows@.len()
            + flows@.len() && cash_flows_taken(
            final(statement).cash_flows@,
            old(statement).cash_flows@.len() as int,
            flows@,
            currency@,
            flows@.len() as int,
        ),
{
    let ghost base = statement.cash_flows@.len() as int;
    let n: usize = flows.len();
    let mut i: usize = 0;
    proof {
        assert(statement.cash_flows@.take(base) =~= statement.cash_flows@);
    }
    while i < n
        invariant
            i <= n,
            n == flows@.len(),
            base == old(statement).cash_flows@.len(),
            cash_flows_problem(flows@, 0) == cash_flows_problem(flows@, i as int),
            only_cash_flows_differ(*old(statement), *statement),
            statement.cash_flows@.len() == base + i,
            statement.cash_flows@.take(base) == old(statement).cash_flows@,
            cash_flows_taken(statement.cash_flows@, base, flows@, currency@, i as int),
        decreases n - i,
    {
        let ghost before = statement.cash_flows@;
        match flows[i].parse(statement, currency) {
            Err(error) => {
                proof {
                    assert(statement.cash_flows@.take(base) =~= before.take(base));
                }
                return Err(error);
            },
            Ok(_) => {},
        }
        proof {
            let after = statement.cash_flows@;
            assert forall|j: int| 0 <= j < before.len() implies after[j] == before[j] by {
                assert(after.drop_last()[j] == before[j]);
            }
            assert(after.take(base) =~= before.take(base));
            assert forall|j: int| 0 <= j < i + 1 implies {
                &&& after[base + j].date == (#[trigger] flows@[j]).transaction.date
                &&& is_cash(after[base + j].cash, currency@, flows@[j].transaction.amount)
            } by {
                if j < i {
                    assert(after[base + j] == before[base + j]);
                }
            }
        }
        i += 1;
    }
    Ok(())
}

/// Takes in the purchases in their order up to the first that cannot be
/// taken in.
pub fn take_purchases(
    purchases: &Vec<StockBuyInfo>,
    statement: &mut PartialBrokerStatement,
    currency: &str,
    securities: &SecurityInfo,
) -> (result: Result<(), TransactionError>)
    ensures
        only_trades_differ(*old(statement), *final(statement)),
        final(statement).stock_sells@ == old(statement).stock_sells@,
        old(statement).stock_buys@.len() <= final(statement).stock_buys@.len(),
        final(statement).stock_buys@.take(old(statement).stock_buys@.len() as int) == old(
            statement,
        ).stock_buys@,
        result == match purchases_problem(purchases@, *securities, 0) {
            Some(error) => Err::<(), TransactionError>(error),
            None => Ok(()),
        },
        result is Ok ==> final(statement).stock_buys@.len() == old(statement).stock_buys@.len()
            + purchases@.len() && purchases_taken(
            final(statement).stock_buys@,
            old(statement).stock_buys@.len() as int,
            purchases@,
            currency@,
            *securities,
            purchases@.len() as int,
        ),
{
    let ghost base = statement.stock_buys@.len() as int;
    let n: usize = purchases.len();
    let mut i: usize = 0;
    proof {
        assert(statement.stock_buys@.take(base) =~= statement.stock_buys@);
    }
    while i < n
        invariant
            i <= n,
            n == purchases@.len(),
            base == old(statement).stock_buys@.len(),
            purchases_problem(purchases@, *securities, 0) == purchases_problem(
                purchases@,
                *securities,
                i as int,
            ),
            only_trades_differ(*old(statement), *statement),
            statement.stock_sells@ == old(statement).stock_sells@,
            statement.stock_buys@.len() == base + i,
            statement.stock_buys@.take(base) == old(statement).stock_buys@,
            purchases_taken(
                statement.stock_buys@,
                base,
                purchases@,
                currency@,
                *securities,
                i as int,
            ),
        decreases n - i,
    {
        let ghost before = statement.stock_buys@;
        if !same_text(purchases[i]._type.as_str(), "BUY") {
            return Err(TransactionError::UnsupportedStockPurchaseType);
        }
        match purchases[i].transaction.parse(statement, currency, securities, true) {
            Err(error) => {
                proof {
                    assert(statement.stock_buys@.take(base) =~= before.take(base));
                }
                return Err(error);
            },
            Ok(_) => {},
        }
        proof {
            let after = statement.stock_buys@;
            assert forall|j: int| 0 <= j < before.len() implies after[j] == before[j] by {
                assert(after.drop_last()[j] == before[j]);
            }
            assert(after.take(base) =~= before.take(base));
            assert forall|j: int| 0 <= j < i + 1 implies trade_of(
                (#[trigger] purchases@[j]).transaction,
                *securities,
                true,
            ) is Ok && is_purchase(
                after[base + j],
                trade_of(purchases@[j].transaction, *securities, true)->Ok_0,
                currency@,
                purchases@[j].transaction.info,
            ) by {
                if j < i {
                    assert(after[base + j] == before[base + j]);
                }
            }
        }
        i += 1;
    }
    Ok(())
}

/// Takes in the sales in their order up to the first that cannot be taken
/// in.
pub fn take_sales(
    sales: &Vec<StockSellInfo>,
    statement: &mut PartialBrokerStatement,
    currency: &str,
    securities: &SecurityInfo,
) -> (result: Result<(), TransactionError>)
    ensures
        only_trades_differ(*old(statement), *final(statement)),
        final(statement).stock_buys@ == old(statement).stock_buys@,
        old(statement).stock_sells@.len() <= final(statement).stock_sells@.len(),
        final(statement).stock_sells@.take(old(statement).stock_sells@.len() as int) == old(
            statement,
        ).stock_sells@,
        result == match sales_problem(sales@, *securities, 0) {
            Some(error) => Err::<(), TransactionError>(error),
            None => Ok(()),
        },
        result is Ok ==> final(statement).stock_sells@.len() == old(statement).stock_sells@.len()
            + sales@.len() && sales_taken(
            final(statement).stock_sells@,
            old(statement).stock_sells@.len() as int,
            sales@,
            currency@,
            *securities,
            sales@.len() as int,
        ),
{
    let ghost base = statement.stock_sells@.len() as int;
    let n: usize = sales.len();
    let mut i: usize = 0;
    proof {
        assert(statement.stock_sells@.take(base) =~= statement.stock_sells@);
    }
    while i < n
        invariant
            i <= n,
            n == sales@.len(),
            base == old(statement).stock_sells@.len(),
            sales_problem(sales@, *securities, 0) == sales_problem(sales@, *securities, i as int),
            only_trades_differ(*old(statement), *statement),
            statement.stock_buys@ == old(statement).stock_buys@,
            statement.stock_sells@.len() == base + i,
            statement.stock_sells@.take(base) == old(statement).stock_sells@,
            sales_taken(statement.stock_sells@, base, sales@, currency@, *securities, i as int),
        decreases n - i,
    {
        let ghost before = statement.stock_sells@;
        if !same_text(sales[i]._type.as_str(), "SELL") {
            return Err(TransactionError::UnsupportedStockSellType);
        }
        match sales[i].transaction.parse(statement, currency, securities, false) {
            Err(error) => {
                proof {
                    assert(statement.stock_sells@.take(base) =~= before.take(base));
                }
                return Err(error);
            },
            Ok(_) => {},
        }
        proof {
            let after = statement.stock_sells@;
            assert forall|j: int| 0 <= j < before.len() implies after[j] == before[j] by {
                assert(after.drop_last()[j] == before[j]);
            }
            assert(after.take(base) =~= before.take(base));
            assert forall|j: int| 0 <= j < i + 1 implies trade_of(
                (#[trigger] sales@[j]).transaction,
                *securities,
                false,
            ) is Ok && is_sale(
                after[base + j],
                trade_of(sales@[j].transaction, *securities, false)->Ok_0,
                currency@,
                sales@[j].transaction.info,
            ) by {
                if j < i {
                    assert(after[base + j] == before[base + j]);
                }
            }
        }
        i += 1;
    }
    Ok(())
}

/// Takes in the incomes in their order up to the first that cannot be
/// taken in.
pub fn take_incomes(
    incomes: &Vec<IncomeInfo>,
    statement: &mut PartialBrokerStatement,
    currency: &str,
    securities: &SecurityInfo,
) -> (result: Result<(), TransactionError>)
    ensures
        only_interest_differs(*old(statement), *final(statement)),
        old(statement).idle_cash_interest@.len() <= final(statement).idle_cash_interest@.len(),
        final(statement).idle_cash_interest@.take(
            old(statement).idle_cash_interest@.len() as int,
        ) == old(statement).idle_cash_interest@,
        result == match incomes_problem(incomes@, *securities, 0) {
            Some(error) => Err::<(), TransactionError>(error),
            None => Ok(()),
        },
        result is Ok ==> final(statement).idle_cash_interest@.len() == old(
            statement,
        ).idle_cash_interest@.len() + incomes@.len() && incomes_taken(
            final(statement).idle_cash_interest@,
            old(statement).idle_cash_interest@.len() as int,
            incomes@,
            currency@,
            incomes@.len() as int,
        ),
{
    let ghost base = statement.idle_cash_interest@.len() as int;
    let n: usize = incomes.len();
    let mut i: usize = 0;
    proof {
        assert(statement.idle_cash_interest@.take(base) =~= statement.idle_cash_interest@);
    }
    while i < n
        invariant
            i <= n,
            n == incomes@.len(),
            base == old(statement).idle_cash_interest@.len(),
            incomes_problem(incomes@, *securities, 0) == incomes_problem(
                incomes@,
                *securities,
                i as int,
            ),
            only_interest_differs(*old(statement), *statement),
            statement.idle_cash_interest@.len() == base + i,
            statement.idle_cash_interest@.take(base) == old(statement).idle_cash_interest@,
            incomes_taken(statement.idle_cash_interest@, base, incomes@, currency@, i as int),
        decreases n - i,
    {
        let ghost before = statement.idle_cash_interest@;
        match incomes[i].parse(statement, currency, securities) {
            Err(error) => {
                proof {
                    assert(statement.idle_cash_interest@.take(base) =~= before.take(base));
                }
                return Err(error);
            },
            Ok(_) => {},
        }
        proof {
            let after = statement.idle_cash_interest@;
            assert forall|j: int| 0 <= j < before.len() implies after[j] == before[j] by {
                assert(after.drop_last()[j] == before[j]);
            }
            assert(after.take(base) =~= before.take(base));
            assert forall|j: int| 0 <= j < i + 1 implies {
                &&& after[base + j].date == (#[trigger] incomes@[j]).info.conclusion_date
                &&& is_cash(after[base + j].amount, currency@, incomes@[j].total)
            } by {
                if j < i {
                    assert(after[base + j] == before[base + j]);
                }
            }
        }
        i += 1;
    }
    Ok(())
}

impl Transactions {
    /// Takes the transactions into the statement: the cash flows, then the
    /// purchases, the sales and the incomes, each in their order. Stops at
    /// the first transaction that cannot be taken in; what was taken in
    /// before it stays.
    pub fn parse(
        &self,
        statement: &mut PartialBrokerStatement,
        currency: &str,
        securities: &SecurityInfo,
    ) -> (result: Result<(), TransactionError>)
        ensures
            extends(*old(statement), *final(statement)),
            result == match transactions_problem(*self, *securities) {
                Some(error) => Err::<(), TransactionError>(error),
                None => Ok(()),
            },
            result is Ok ==> taken_in(
                *old(statement),
                *final(statement),
                *self,
                currency@,
                *securities,
            ),
    {
        proof {
            let start = *statement;
            assert(start.cash_flows@.take(start.cash_flows@.len() as int) =~= start.cash_flows@);
            assert(start.stock_buys@.take(start.stock_buys@.len() as int) =~= start.stock_buys@);
            assert(start.stock_sells@.take(start.stock_sells@.len() as int)
                =~= start.stock_sells@);
            assert(start.idle_cash_interest@.take(start.idle_cash_interest@.len() as int)
                =~= start.idle_cash_interest@);
        }
        match take_cash_flows(&self.cash_flows, statement, currency) {
            Err(error) => {
                return Err(error);
            },
            Ok(_) => {},
        }
        match take_purchases(&self.stock_buys, statement, currency, securities) {
            Err(error) => {
                return Err(error);
            },
            Ok(_) => {},
        }
        match take_sales(&self.stock_sells, statement, currency, securities) {
            Err(error) => {
                return Err(error);
            },
            Ok(_) => {},
        }
        match take_incomes(&self.income, statement, currency, securities) {
            Err(error) => {
                return Err(error);
            },
            Ok(_) => {},
        }
        Ok(())
    }
}

} // verus!
