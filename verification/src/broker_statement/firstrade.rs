//! Statements of Firstrade.

pub mod common;
pub mod security_info;
pub mod transactions;
