//! What the parts of a statement share.

use vstd::prelude::*;
use crate::text::same_text;

verus! {

/// Why a transaction could not be taken in.
#[derive(Clone, Copy, Debug, PartialEq, Eq, Structural)]
pub enum TransactionError {
    /// A cash flow of another type than a credit.
    UnsupportedCashFlowType,
    /// A sub-account other than the cash account.
    UnsupportedSubAccount,
    /// The amount of a cash flow is not above zero.
    InvalidTransactionAmount,
    /// The security is not among those that the statement lists.
    UnknownSecurity,
    /// A trade in a security that is no stock.
    UnexpectedSecurityType,
    /// The quantity of a trade is no whole number with the sign of the
    /// trade, or is beyond range.
    InvalidTradeQuantity,
    /// The price is not above zero.
    InvalidPrice,
    /// The commission is below zero.
    InvalidCommission,
    /// The fees are below zero.
    InvalidFees,
    /// The total of a trade does not have the sign of the trade.
    InvalidTradeVolume,
    /// An amount cannot be represented.
    AmountOverflow,
    /// A purchase of another type than a plain one.
    UnsupportedStockPurchaseType,
    /// A sale of another type than a plain one.
    UnsupportedStockSellType,
    /// An income settled on another day than it was concluded.
    UnexpectedSettlementDate,
    /// The amount of an income is not above zero.
    InvalidIncomeAmount,
    /// An income other than interest on idle cash.
    UnsupportedIncome,
}

/// Whether the sub-account is the cash account.
pub fn validate_sub_account(name: &str) -> (result: Result<(), TransactionError>)
    ensures
        result == if name@ == "CASH"@ {
            Ok::<(), TransactionError>(())
        } else {
            Err(TransactionError::UnsupportedSubAccount)
        },
{
    if same_text(name, "CASH") {
        Ok(())
    } else {
        Err(TransactionError::UnsupportedSubAccount)
    }
}

} // verus!
