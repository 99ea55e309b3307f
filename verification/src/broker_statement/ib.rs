//! Statements of Interactive Brokers.

pub mod common;
pub mod taxes;
