//! Reading what brokers report.

pub mod bcs;
pub mod firstrade;
pub mod ib;
pub mod partial;

use vstd::prelude::*;
use crate::currency::Cash;
use crate::types::Date;

verus! {

/// A purchase of stock.
pub struct StockBuy {
    pub symbol: String,
    pub quantity: u32,
    pub price: Cash,
    pub volume: Cash,
    pub commission: Cash,
    pub conclusion_date: Date,
    pub execution_date: Date,
}

/// A sale of stock.
pub struct StockSell {
    pub symbol: String,
    pub quantity: u32,
    pub price: Cash,
    pub volume: Cash,
    pub commission: Cash,
    pub conclusion_date: Date,
    pub execution_date: Date,
    pub emulation: bool,
}

/// Interest paid on cash that lay idle.
pub struct IdleCashInterest {
    pub date: Date,
    pub amount: Cash,
}

impl StockBuy {
    pub fn new(
        symbol: &str,
        quantity: u32,
        price: Cash,
        volume: Cash,
        commission: Cash,
        conclusion_date: Date,
        execution_date: Date,
    ) -> (trade: StockBuy)
        ensures
            trade.symbol@ == symbol@,
            trade.quantity == quantity,
            trade.price == price,
            trade.volume == volume,
            trade.commission == commission,
            trade.conclusion_date == conclusion_date,
            trade.execution_date == execution_date,
    {
        StockBuy {
            symbol: symbol.to_owned(),
            quantity,
            price,
            volume,
            commission,
            conclusion_date,
            execution_date,
        }
    }
}

impl StockSell {
    pub fn new(
        symbol: &str,
        quantity: u32,
        price: Cash,
        volume: Cash,
        commission: Cash,
        conclusion_date: Date,
        execution_date: Date,
        emulation: bool,
    ) -> (trade: StockSell)
        ensures
            trade.symbol@ == symbol@,
            trade.quantity == quantity,
            trade.price == price,
            trade.volume == volume,
            trade.commission == commission,
            trade.conclusion_date == conclusion_date,
            trade.execution_date == execution_date,
            trade.emulation == emulation,
    {
        StockSell {
            symbol: symbol.to_owned(),
            quantity,
            price,
            volume,
            commission,
            conclusion_date,
            execution_date,
            emulation,
        }
    }
}

impl IdleCashInterest {
    pub fn new(date: Date, amount: Cash) -> (interest: IdleCashInterest)
        ensures
            interest.date == date,
            interest.amount == amount,
    {
        IdleCashInterest { date, amount }
    }
}

} // verus!
