//! What can go wrong with a rebalancing run.

use vstd::prelude::*;

verus! {

/// The portfolio cannot be rebalanced as it is configured.
#[derive(Debug, Clone, Copy, PartialEq, Eq)]
pub enum ConfigurationError {
    /// An amount is negative or beyond the largest amount, or the current
    /// values of some siblings add up beyond it.
    ValueOutOfRange,
    /// A group is not worth what its children are worth together, so the
    /// limits that the children give it need not enclose its current value.
    InconsistentBounds,
    /// The weights of some siblings do not add up to the full weight.
    InvalidWeights,
    /// An amount is no whole multiple of the unit, or the assets lie more
    /// than three levels deep, so that a share would be no whole amount.
    InexactShares,
}

/// A part of the total value that no asset of a subtree could take.
#[derive(Debug, PartialEq, Eq)]
pub struct ReconciliationFailure {
    /// The name of the subtree whose assets could not take the amount.
    pub subtree: String,
    /// What was left over: positive where the assets cannot hold as much as
    /// they were given, negative where they cannot hold as little.
    pub amount: i64,
}

/// Why a rebalancing run did not resolve the portfolio.
#[derive(Debug, PartialEq, Eq)]
pub enum RebalanceError {
    Configuration(ConfigurationError),
    Reconciliation(ReconciliationFailure),
}

} // verus!
