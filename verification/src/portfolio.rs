//! The asset tree and the passes that run over it.

pub mod allocator;
pub mod asset_allocation;
pub mod debt;
pub mod debt_laws;
pub mod distribution;
pub mod failure;
pub mod grain;
pub mod laws;
pub mod placement;
pub mod rebalancing;
pub mod refining;
pub mod rerun;
pub mod selling;
pub mod sums;
pub mod tree;
pub mod validation;
