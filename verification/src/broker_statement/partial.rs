//! A statement while it is being read.

use vstd::prelude::*;
use crate::broker_statement::{IdleCashInterest, StockBuy, StockSell};
use crate::currency::CashAssets;

verus! {

/// What has been read of a statement so far.
pub struct PartialBrokerStatement {
    pub cash_flows: Vec<CashAssets>,
    pub stock_buys: Vec<StockBuy>,
    pub stock_sells: Vec<StockSell>,
    pub idle_cash_interest: Vec<IdleCashInterest>,
}

impl PartialBrokerStatement {
    pub fn new() -> (statement: PartialBrokerStatement)
        ensures
            statement.cash_flows@.len() == 0,
            statement.stock_buys@.len() == 0,
            statement.stock_sells@.len() == 0,
            statement.idle_cash_interest@.len() == 0,
    {
        PartialBrokerStatement {
            cash_flows: Vec::new(),
            stock_buys: Vec::new(),
            stock_sells: Vec::new(),
            idle_cash_interest: Vec::new(),
        }
    }
}

} // verus!
