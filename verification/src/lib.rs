//! Portfolio rebalancing, and the reading of the configuration, currency
//! rates and broker statements that feed it.
//!
//! A portfolio is a tree of weighted asset groups and stock holdings, with
//! all amounts in whole numbers of a unit fine enough for exact shares. The
//! engine in `portfolio` bounds every node by its trading restrictions,
//! distributes the portfolio's total value over the tree and reports what it
//! could not place.

pub mod broker_statement;
pub mod config;
pub mod config_check;
pub mod currency;
pub mod portfolio;
pub mod sorting;
pub mod taxes;
pub mod text;
pub mod types;
pub mod util;
