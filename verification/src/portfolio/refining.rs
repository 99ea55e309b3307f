//! Brings a portfolio from the unit it is given in to the unit that exact
//! shares need.

use vstd::prelude::*;
use crate::portfolio::asset_allocation::{AssetAllocation, Holding, Portfolio, UNIT};
use crate::portfolio::failure::ConfigurationError;
use crate::portfolio::grain::{multiple, value_grained, values_grained};

verus! {

/// The largest amount that can be refined: the unit makes the largest
/// amount of it.
pub const MAX_COARSE: i64 = 10_000_000_000;

/// `after` is `before` with every amount multiplied by the factor, and
/// nothing else changed. The price of a stock is no amount of the portfolio
/// and stays as it is.
pub open spec fn scaled(
    before: Seq<AssetAllocation>,
    after: Seq<AssetAllocation>,
    factor: int,
) -> bool
    decreases before, 1int,
{
    &&& after.len() == before.len()
    &&& forall|i: int| 0 <= i < before.len() ==> asset_scaled(#[trigger] before[i], after[i], factor)
}

pub open spec fn asset_scaled(before: AssetAllocation, after: AssetAllocation, factor: int) -> bool
    decreases before, 0int,
{
    &&& after.name == before.name
    &&& after.expected_weight == before.expected_weight
    &&& after.restrict_buying == before.restrict_buying
    &&& after.restrict_selling == before.restrict_selling
    &&& after.buy_blocked == before.buy_blocked
    &&& after.sell_blocked == before.sell_blocked
    &&& after.current_value == before.current_value * factor
    &&& after.target_value == before.target_value * factor
    &&& after.min_value == before.min_value * factor
    &&& match (before.max_value, after.max_value) {
        (Some(old_max), Some(max)) => max == old_max * factor,
        (None, None) => true,
        _ => false,
    }
    &&& match (before.holding, after.holding) {
        (Holding::Group(old_children), Holding::Group(children)) => scaled(
            old_children@,
            children@,
            factor,
        ),
        (Holding::Stock(old_stock), Holding::Stock(stock)) => stock == old_stock,
        _ => false,
    }
}

pub open spec fn coarse(amount: i64) -> bool {
    -MAX_COARSE <= amount <= MAX_COARSE
}

/// Every amount of the tree can be refined.
pub open spec fn refinable(assets: Seq<AssetAllocation>) -> bool
    decreases assets, 1int,
{
    forall|i: int| 0 <= i < assets.len() ==> asset_refinable(#[trigger] assets[i])
}

pub open spec fn asset_refinable(asset: AssetAllocation) -> bool
    decreases asset, 0int,
{
    &&& coarse(asset.current_value)
    &&& coarse(asset.target_value)
    &&& coarse(asset.min_value)
    &&& asset.max_value matches Some(max) ==> coarse(max)
    &&& match asset.holding {
        Holding::Group(children) => refinable(children@),
        Holding::Stock(_) => true,
    }
}

/// A tree whose amounts were multiplied by a factor has current values that
/// are multiples of the factor.
pub proof fn lemma_scaled_grained(
    before: Seq<AssetAllocation>,
    after: Seq<AssetAllocation>,
    factor: int,
)
    requires
        factor > 0,
        scaled(before, after, factor),
    ensures
        values_grained(after, factor),
    decreases before,
{
    assert forall|i: int| 0 <= i < after.len() implies value_grained(#[trigger] after[i], factor) by {
        assert(asset_scaled(before[i], after[i], factor));
        vstd::arithmetic::div_mod::lemma_mod_multiples_basic(
            before[i].current_value as int,
            factor,
        );
        match (before[i].holding, after[i].holding) {
            (Holding::Group(old_children), Holding::Group(children)) => {
                lemma_scaled_grained(old_children@, children@, factor);
            },
            _ => {},
        }
    }
}

fn is_coarse(amount: i64) -> (r: bool)
    ensures
        r == coarse(amount),
{
    -MAX_COARSE <= amount && amount <= MAX_COARSE
}

/// Whether every amount of the tree can be refined.
pub fn can_refine(assets: &Vec<AssetAllocation>) -> (r: bool)
    ensures
        r == refinable(assets@),
    decreases assets@,
{
    let n: usize = assets.len();
    let mut i: usize = 0;
    while i < n
        invariant
            i <= n,
            n == assets@.len(),
            forall|j: int| 0 <= j < i ==> asset_refinable(#[trigger] assets@[j]),
        decreases n - i,
    {
        let asset = &assets[i];
        let max_fits = match asset.max_value {
            Some(max) => is_coarse(max),
            None => true,
        };
        if !(is_coarse(asset.current_value) && is_coarse(asset.target_value) && is_coarse(
            asset.min_value,
        ) && max_fits) {
            return false;
        }
        match &asset.holding {
            Holding::Group(children) => {
                if !can_refine(children) {
                    return false;
                }
            },
            Holding::Stock(_) => {},
        }
        i += 1;
    }
    true
}

/// Multiplies every amount of the tree by the unit.
pub fn refine_assets(assets: &mut Vec<AssetAllocation>)
    requires
        refinable(old(assets)@),
    ensures
        scaled(old(assets)@, final(assets)@, UNIT as int),
    decreases old(assets)@,
{
    let n: usize = assets.len();
    let mut i: usize = 0;
    while i < n
        invariant
            i <= n,
            assets@.len() == n,
            old(assets)@.len() == n,
            refinable(old(assets)@),
            forall|j: int|
                0 <= j < i ==> asset_scaled(#[trigger] old(assets)@[j], assets@[j], UNIT as int),
            forall|j: int| i <= j < n ==> (#[trigger] assets@[j]) == old(assets)@[j],
        decreases n - i,
    {
        let ghost before = assets@;
        proof {
            assert(asset_refinable(old(assets)@[i as int]));
        }
        assets[i].current_value = assets[i].current_value * UNIT;
        assets[i].target_value = assets[i].target_value * UNIT;
        assets[i].min_value = assets[i].min_value * UNIT;
        assets[i].max_value = match assets[i].max_value {
            Some(max) => Some(max * UNIT),
            None => None,
        };
        match &mut assets[i].holding {
            Holding::Group(children) => {
                refine_assets(children);
            },
            Holding::Stock(_) => {},
        }
        proof {
            assert forall|j: int| 0 <= j < i implies asset_scaled(
                #[trigger] old(assets)@[j],
                assets@[j],
                UNIT as int,
            ) by {
                assert(assets@[j] == before[j]);
            }
        }
        i += 1;
    }
}

impl Portfolio {
    /// Brings the portfolio to the unit that exact shares need: multiplies
    /// its total value, its minimum trade volume and every amount of its
    /// assets by the unit. An amount of before is then that many units.
    /// Refuses, and changes nothing, where an amount is too large for that.
    pub fn refine(&mut self) -> (result: Result<(), ConfigurationError>)
        ensures
            result is Ok <==> {
                &&& coarse(old(self).total_value)
                &&& coarse(old(self).min_trade_volume)
                &&& refinable(old(self).assets@)
            },
            result matches Err(error) ==> {
                &&& error == ConfigurationError::ValueOutOfRange
                &&& *final(self) == *old(self)
            },
            result is Ok ==> {
                &&& final(self).name == old(self).name
                &&& final(self).total_value == old(self).total_value * UNIT
                &&& final(self).min_trade_volume == old(self).min_trade_volume * UNIT
                &&& scaled(old(self).assets@, final(self).assets@, UNIT as int)
                &&& values_grained(final(self).assets@, UNIT as int)
                &&& multiple(final(self).total_value as int, UNIT as int)
                &&& multiple(final(self).min_trade_volume as int, UNIT as int)
            },
    {
        if !is_coarse(self.total_value) || !is_coarse(self.min_trade_volume) || !can_refine(
            &self.assets,
        ) {
            return Err(ConfigurationError::ValueOutOfRange);
        }
        self.total_value = self.total_value * UNIT;
        self.min_trade_volume = self.min_trade_volume * UNIT;
        refine_assets(&mut self.assets);
        proof {
            lemma_scaled_grained(old(self).assets@, self.assets@, UNIT as int);
            vstd::arithmetic::div_mod::lemma_mod_multiples_basic(
                old(self).total_value as int,
                UNIT as int,
            );
            vstd::arithmetic::div_mod::lemma_mod_multiples_basic(
                old(self).min_trade_volume as int,
                UNIT as int,
            );
        }
        Ok(())
    }
}

} // verus!
