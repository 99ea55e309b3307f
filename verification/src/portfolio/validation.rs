//! Checks that a portfolio can be rebalanced at all.

use vstd::prelude::*;
use crate::portfolio::asset_allocation::{
    claims, currents, value_valid, values_valid, weight_valid, weights, weights_valid,
    AssetAllocation, Holding, Portfolio, FULL_WEIGHT, MAX_AMOUNT, UNIT,
};
use crate::portfolio::grain::{exact_fit, node_shallow, shallow, value_grained, values_grained};
use crate::portfolio::failure::ConfigurationError;
use crate::portfolio::sums::{lemma_total_nonnegative, lemma_total_take, total};

verus! {

/// No current value in the tree is negative, and the current values of any
/// siblings add up to no more than the largest amount.
pub open spec fn amounts_in_range(assets: Seq<AssetAllocation>) -> bool
    decreases assets, 1int,
{
    &&& total(currents(claims(assets))) <= MAX_AMOUNT
    &&& forall|i: int| 0 <= i < assets.len() ==> amount_in_range(#[trigger] assets[i])
}

pub open spec fn amount_in_range(asset: AssetAllocation) -> bool
    decreases asset, 0int,
{
    &&& 0 <= asset.current_value
    &&& match asset.holding {
        Holding::Group(children) => amounts_in_range(children@),
        Holding::Stock(_) => true,
    }
}

/// Every group is worth what its children are worth together.
pub open spec fn values_consistent(assets: Seq<AssetAllocation>) -> bool
    decreases assets, 1int,
{
    forall|i: int| 0 <= i < assets.len() ==> value_consistent(#[trigger] assets[i])
}

pub open spec fn value_consistent(asset: AssetAllocation) -> bool
    decreases asset, 0int,
{
    match asset.holding {
        Holding::Group(children) => {
            &&& values_consistent(children@)
            &&& asset.current_value == total(currents(claims(children@)))
        },
        Holding::Stock(_) => true,
    }
}

/// The total value and the minimum trade volume are in range, and so are
/// the amounts of the tree.
pub open spec fn in_range(portfolio: Portfolio) -> bool {
    &&& 0 <= portfolio.total_value <= MAX_AMOUNT
    &&& 0 <= portfolio.min_trade_volume <= MAX_AMOUNT
    &&& amounts_in_range(portfolio.assets@)
}

/// The portfolio can be rebalanced.
pub open spec fn portfolio_valid(portfolio: Portfolio) -> bool {
    &&& in_range(portfolio)
    &&& values_consistent(portfolio.assets@)
    &&& weights_valid(portfolio.assets@)
}

/// The error that stands in the way of rebalancing, if there is one: a
/// value out of range before an inconsistent group, and that before weights
/// that do not add up.
pub open spec fn configuration_error(portfolio: Portfolio) -> Option<ConfigurationError> {
    if !in_range(portfolio) {
        Some(ConfigurationError::ValueOutOfRange)
    } else if !values_consistent(portfolio.assets@) {
        Some(ConfigurationError::InconsistentBounds)
    } else if !weights_valid(portfolio.assets@) {
        Some(ConfigurationError::InvalidWeights)
    } else {
        None
    }
}

/// Amounts in range that are consistent are valid values, and the other way
/// round.
pub proof fn lemma_values_valid(assets: Seq<AssetAllocation>)
    ensures
        values_valid(assets) <==> amounts_in_range(assets) && values_consistent(assets),
    decreases assets,
{
    let values = currents(claims(assets));
    assert forall|i: int| 0 <= i < assets.len() implies (value_valid(#[trigger] assets[i]) ==> (
    amount_in_range(assets[i]) && value_consistent(assets[i]))) && ((amount_in_range(assets[i])
        && value_consistent(assets[i]) && assets[i].current_value <= MAX_AMOUNT) ==> value_valid(
        assets[i],
    )) by {
        match assets[i].holding {
            Holding::Group(children) => {
                lemma_values_valid(children@);
            },
            Holding::Stock(_) => {},
        }
    }
    if amounts_in_range(assets) && values_consistent(assets) {
        assert forall|i: int| 0 <= i < assets.len() implies value_valid(#[trigger] assets[i]) by {
            assert(amount_in_range(assets[i]));
            assert(value_consistent(assets[i]));
            assert forall|j: int| 0 <= j < values.len() implies values[j] >= 0 by {
                assert(amount_in_range(assets[j]));
            }
            lemma_total_nonnegative(values, i);
            assert(values[i] == assets[i].current_value);
        }
    }
    if values_valid(assets) {
        assert forall|i: int| 0 <= i < assets.len() implies amount_in_range(#[trigger] assets[i])
            && value_consistent(assets[i]) by {
            assert(value_valid(assets[i]));
        }
    }
}

/// Adds up the current values of the assets.
fn current_total(assets: &Vec<AssetAllocation>) -> (sum: i64)
    requires
        amounts_in_range(assets@),
    ensures
        sum == total(currents(claims(assets@))),
{
    let ghost values = currents(claims(assets@));
    proof {
        assert forall|j: int| 0 <= j < values.len() implies values[j] >= 0 by {
            assert(amount_in_range(assets@[j]));
        }
    }
    let n: usize = assets.len();
    let mut sum: i64 = 0;
    let mut i: usize = 0;
    while i < n
        invariant
            i <= n,
            n == assets@.len(),
            values == currents(claims(assets@)),
            forall|j: int| 0 <= j < values.len() ==> values[j] >= 0,
            total(values) <= MAX_AMOUNT,
            sum == total(values.take(i as int)),
        decreases n - i,
    {
        proof {
            lemma_total_take(values, i as int);
            lemma_total_nonnegative(values, i as int);
        }
        sum = sum + assets[i].current_value;
        i += 1;
    }
    proof {
        assert(values.take(n as int) =~= values);
    }
    sum
}

/// Whether no current value is negative and no siblings hold more than the
/// largest amount together.
pub fn amounts_within_range(assets: &Vec<AssetAllocation>) -> (r: bool)
    ensures
        r == amounts_in_range(assets@),
    decreases assets@,
{
    let ghost values = currents(claims(assets@));
    let n: usize = assets.len();
    let mut sum: i64 = 0;
    let mut i: usize = 0;
    while i < n
        invariant
            i <= n,
            n == assets@.len(),
            values == currents(claims(assets@)),
            forall|j: int| 0 <= j < i ==> amount_in_range(#[trigger] assets@[j]),
            sum == total(values.take(i as int)),
            0 <= sum <= MAX_AMOUNT,
        decreases n - i,
    {
        let value = assets[i].current_value;
        proof {
            lemma_total_take(values, i as int);
            if amounts_in_range(assets@) {
                assert forall|j: int| 0 <= j < values.len() implies values[j] >= 0 by {
                    assert(amount_in_range(assets@[j]));
                }
                lemma_total_nonnegative(values, i as int + 1);
                assert(amount_in_range(assets@[i as int]));
            }
        }
        if value < 0 || value > MAX_AMOUNT - sum {
            return false;
        }
        match &assets[i].holding {
            Holding::Group(children) => {
                if !amounts_within_range(children) {
                    return false;
                }
            },
            Holding::Stock(_) => {},
        }
        sum = sum + value;
        i += 1;
    }
    proof {
        assert(values.take(n as int) =~= values);
    }
    true
}

/// Whether every group is worth what its children are worth together.
pub fn values_add_up(assets: &Vec<AssetAllocation>) -> (r: bool)
    requires
        amounts_in_range(assets@),
    ensures
        r == values_consistent(assets@),
    decreases assets@,
{
    let n: usize = assets.len();
    let mut i: usize = 0;
    while i < n
        invariant
            i <= n,
            n == assets@.len(),
            amounts_in_range(assets@),
            forall|j: int| 0 <= j < i ==> value_consistent(#[trigger] assets@[j]),
        decreases n - i,
    {
        proof {
            assert(amount_in_range(assets@[i as int]));
        }
        match &assets[i].holding {
            Holding::Group(children) => {
                if current_total(children) != assets[i].current_value {
                    return false;
                }
                if !values_add_up(children) {
                    return false;
                }
            },
            Holding::Stock(_) => {},
        }
        i += 1;
    }
    true
}

/// Whether the weights of every set of siblings add up to the full weight.
pub fn weights_add_up(assets: &Vec<AssetAllocation>) -> (r: bool)
    ensures
        r == weights_valid(assets@),
    decreases assets@,
{
    let ghost parts = weights(claims(assets@));
    let n: usize = assets.len();
    let mut sum: u8 = 0;
    let mut i: usize = 0;
    while i < n
        invariant
            i <= n,
            n == assets@.len(),
            parts == weights(claims(assets@)),
            forall|j: int| 0 <= j < i ==> weight_valid(#[trigger] assets@[j]),
            sum == total(parts.take(i as int)),
            sum <= FULL_WEIGHT,
        decreases n - i,
    {
        let weight = assets[i].expected_weight;
        proof {
            lemma_total_take(parts, i as int);
            assert forall|j: int| 0 <= j < parts.len() implies parts[j] >= 0 by {}
            lemma_total_nonnegative(parts, i as int + 1);
        }
        if weight > FULL_WEIGHT - sum {
            return false;
        }
        match &assets[i].holding {
            Holding::Group(children) => {
                if !weights_add_up(children) {
                    return false;
                }
            },
            Holding::Stock(_) => {},
        }
        sum = sum + weight;
        i += 1;
    }
    proof {
        assert(parts.take(n as int) =~= parts);
    }
    sum == FULL_WEIGHT
}

/// Checks the portfolio before any pass runs over it.
pub fn validate(portfolio: &Portfolio) -> (result: Result<(), ConfigurationError>)
    ensures
        result is Ok <==> portfolio_valid(*portfolio),
        result matches Err(error) ==> configuration_error(*portfolio) == Some(error),
{
    if portfolio.total_value < 0 || portfolio.total_value > MAX_AMOUNT
        || portfolio.min_trade_volume < 0 || portfolio.min_trade_volume > MAX_AMOUNT {
        return Err(ConfigurationError::ValueOutOfRange);
    }
    if !amounts_within_range(&portfolio.assets) {
        return Err(ConfigurationError::ValueOutOfRange);
    }
    if !values_add_up(&portfolio.assets) {
        return Err(ConfigurationError::InconsistentBounds);
    }
    if !weights_add_up(&portfolio.assets) {
        return Err(ConfigurationError::InvalidWeights);
    }
    Ok(())
}

/// The portfolio can be rebalanced in exact shares: its total value, its
/// minimum trade volume and every current value are multiples of the unit,
/// and its assets lie no more than three levels deep.
pub open spec fn portfolio_exact(portfolio: Portfolio) -> bool {
    exact_fit(
        portfolio.assets@,
        portfolio.total_value as int,
        portfolio.min_trade_volume as int,
        UNIT as int,
    )
}

/// The error that stands in the way of rebalancing in exact shares, if
/// there is one: what stands in the way of rebalancing at all, or else
/// amounts that no exact shares can be made of.
pub open spec fn rebalancing_error(portfolio: Portfolio) -> Option<ConfigurationError> {
    if configuration_error(portfolio) is Some {
        configuration_error(portfolio)
    } else if !portfolio_exact(portfolio) {
        Some(ConfigurationError::InexactShares)
    } else {
        None
    }
}

/// Whether every current value is a multiple of the unit.
pub fn values_on_grain(assets: &Vec<AssetAllocation>) -> (r: bool)
    requires
        amounts_in_range(assets@),
    ensures
        r == values_grained(assets@, UNIT as int),
    decreases assets@,
{
    let n: usize = assets.len();
    let mut i: usize = 0;
    while i < n
        invariant
            i <= n,
            n == assets@.len(),
            amounts_in_range(assets@),
            forall|j: int| 0 <= j < i ==> value_grained(#[trigger] assets@[j], UNIT as int),
        decreases n - i,
    {
        proof {
            assert(amount_in_range(assets@[i as int]));
        }
        if assets[i].current_value % UNIT != 0 {
            return false;
        }
        match &assets[i].holding {
            Holding::Group(children) => {
                if !values_on_grain(children) {
                    return false;
                }
            },
            Holding::Stock(_) => {},
        }
        i += 1;
    }
    true
}

/// Whether the assets lie no deeper than the unit can serve.
pub fn is_shallow(assets: &Vec<AssetAllocation>, unit: i64) -> (r: bool)
    requires
        0 <= unit,
    ensures
        r == shallow(assets@, unit as int),
    decreases assets@,
{
    let n: usize = assets.len();
    let mut i: usize = 0;
    while i < n
        invariant
            i <= n,
            n == assets@.len(),
            0 <= unit,
            forall|j: int| 0 <= j < i ==> node_shallow(#[trigger] assets@[j], unit as int),
        decreases n - i,
    {
        match &assets[i].holding {
            Holding::Group(children) => {
                let fine: i64 = unit / 100;
                if fine < 100 || fine % 100 != 0 || !is_shallow(children, fine) {
                    return false;
                }
            },
            Holding::Stock(_) => {},
        }
        i += 1;
    }
    true
}

/// Whether the portfolio can be rebalanced in exact shares.
pub fn fits_unit(portfolio: &Portfolio) -> (r: bool)
    requires
        in_range(*portfolio),
    ensures
        r == portfolio_exact(*portfolio),
{
    portfolio.total_value % UNIT == 0 && portfolio.min_trade_volume % UNIT == 0 && is_shallow(
        &portfolio.assets,
        UNIT,
    ) && values_on_grain(&portfolio.assets)
}

} // verus!
