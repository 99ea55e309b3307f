//! The asset tree: weighted groups of assets with stock holdings as leaves.
//!
//! All amounts are whole numbers of one unit, which is fine enough for every
//! share to be a whole amount: sums, comparisons and shares are exact.
//! Weights are whole percents of the parent's value.

use vstd::prelude::*;
use crate::portfolio::sums::total;

verus! {

/// The largest amount the engine works with. Every value of a valid tree,
/// and every sum of sibling values, lies between zero and this limit, which
/// leaves room for a hundredfold product in `i64`.
pub const MAX_AMOUNT: i64 = 10_000_000_000_000_000;

/// The unit of the amounts of a portfolio that is to be rebalanced. Every
/// amount is a whole multiple of it; a share is a hundredth of a hundredth
/// of a hundredth of such an amount at the finest, three levels of assets
/// down, and so is a whole amount itself.
pub const UNIT: i64 = 1_000_000;

/// The weight that the children of one parent share out, in percent.
pub const FULL_WEIGHT: u8 = 100;

/// A position in a single tradable instrument.
pub struct StockHolding {
    pub symbol: String,
    pub quantity: u32,
    pub price: i64,
}

/// What an asset consists of: further assets, or one stock position.
pub enum Holding {
    Group(Vec<AssetAllocation>),
    Stock(StockHolding),
}

/// One node of the asset tree.
pub struct AssetAllocation {
    pub name: String,
    /// Percent of the parent's target value that this asset should hold.
    pub expected_weight: u8,
    pub restrict_buying: Option<bool>,
    pub restrict_selling: Option<bool>,
    pub holding: Holding,
    pub current_value: i64,
    pub target_value: i64,
    pub min_value: i64,
    /// `None` when nothing limits the asset from above.
    pub max_value: Option<i64>,
    pub buy_blocked: bool,
    pub sell_blocked: bool,
}

/// A portfolio to rebalance.
pub struct Portfolio {
    pub name: String,
    pub assets: Vec<AssetAllocation>,
    pub total_value: i64,
    pub min_trade_volume: i64,
}

/// What an asset brings to the distribution among its siblings.
pub struct Claim {
    pub weight: int,
    pub current: int,
    pub min: int,
    pub max: Option<int>,
}

/// What the distribution decides for an asset.
pub struct Share {
    pub target: int,
    pub buy_blocked: bool,
    pub sell_blocked: bool,
}

impl Claim {
    /// The limits enclose the current value, and nothing is negative.
    pub open spec fn consistent(self) -> bool {
        &&& 0 <= self.weight
        &&& 0 <= self.min <= self.current
        &&& self.max is Some ==> self.current <= self.max->0
    }

    /// `v` lies within the limits.
    pub open spec fn admits(self, v: int) -> bool {
        &&& self.min <= v
        &&& self.max is Some ==> v <= self.max->0
    }

    /// The limits are those of a leaf: each is the current value or absent.
    pub open spec fn leaf_shaped(self) -> bool {
        &&& self.min == 0 || self.min == self.current
        &&& self.max is Some ==> self.max->0 == self.current
    }
}

impl AssetAllocation {
    pub open spec fn claim(self) -> Claim {
        Claim {
            weight: self.expected_weight as int,
            current: self.current_value as int,
            min: self.min_value as int,
            max: match self.max_value {
                Some(v) => Some(v as int),
                None => None,
            },
        }
    }

    pub open spec fn share(self) -> Share {
        Share {
            target: self.target_value as int,
            buy_blocked: self.buy_blocked,
            sell_blocked: self.sell_blocked,
        }
    }

    /// The assets directly below this one; none for a stock.
    pub open spec fn children(self) -> Seq<AssetAllocation> {
        match self.holding {
            Holding::Group(assets) => assets@,
            Holding::Stock(_) => Seq::empty(),
        }
    }

    pub open spec fn selling_restricted(self) -> bool {
        self.restrict_selling == Some(true)
    }

    pub open spec fn buying_restricted(self) -> bool {
        self.restrict_buying == Some(true)
    }

    /// Everything but the distribution's outcome is the same in both.
    pub open spec fn same_claim_as(self, other: AssetAllocation) -> bool {
        &&& self.name == other.name
        &&& self.expected_weight == other.expected_weight
        &&& self.restrict_buying == other.restrict_buying
        &&& self.restrict_selling == other.restrict_selling
        &&& self.current_value == other.current_value
        &&& self.min_value == other.min_value
        &&& self.max_value == other.max_value
    }
}

pub open spec fn claims(assets: Seq<AssetAllocation>) -> Seq<Claim> {
    Seq::new(assets.len(), |i: int| assets[i].claim())
}

pub open spec fn shares(assets: Seq<AssetAllocation>) -> Seq<Share> {
    Seq::new(assets.len(), |i: int| assets[i].share())
}

pub open spec fn weights(claims: Seq<Claim>) -> Seq<int> {
    Seq::new(claims.len(), |i: int| claims[i].weight)
}

pub open spec fn currents(claims: Seq<Claim>) -> Seq<int> {
    Seq::new(claims.len(), |i: int| claims[i].current)
}

pub open spec fn floors(claims: Seq<Claim>) -> Seq<int> {
    Seq::new(claims.len(), |i: int| claims[i].min)
}

/// The upper limits, with zero standing in for an absent one.
pub open spec fn caps(claims: Seq<Claim>) -> Seq<int> {
    Seq::new(
        claims.len(),
        |i: int|
            match claims[i].max {
                Some(v) => v,
                None => 0,
            },
    )
}

pub open spec fn all_capped(claims: Seq<Claim>) -> bool {
    forall|i: int| 0 <= i < claims.len() ==> (#[trigger] claims[i]).max is Some
}

/// The most that the siblings can hold together; `None` when one of them is
/// unlimited.
pub open spec fn total_cap(claims: Seq<Claim>) -> Option<int> {
    if all_capped(claims) {
        Some(total(caps(claims)))
    } else {
        None
    }
}

pub open spec fn targets(shares: Seq<Share>) -> Seq<int> {
    Seq::new(shares.len(), |i: int| shares[i].target)
}

/// Every amount in the tree is in range, and a group is worth what its
/// parts are worth.
pub open spec fn values_valid(assets: Seq<AssetAllocation>) -> bool
    decreases assets, 1int,
{
    &&& total(currents(claims(assets))) <= MAX_AMOUNT
    &&& forall|i: int| 0 <= i < assets.len() ==> value_valid(#[trigger] assets[i])
}

pub open spec fn value_valid(asset: AssetAllocation) -> bool
    decreases asset, 0int,
{
    &&& 0 <= asset.current_value <= MAX_AMOUNT
    &&& match asset.holding {
        Holding::Group(children) => {
            &&& values_valid(children@)
            &&& asset.current_value == total(currents(claims(children@)))
        },
        Holding::Stock(_) => true,
    }
}

/// The weights of every set of siblings add up to the full weight.
pub open spec fn weights_valid(assets: Seq<AssetAllocation>) -> bool
    decreases assets, 1int,
{
    &&& total(weights(claims(assets))) == FULL_WEIGHT
    &&& forall|i: int| 0 <= i < assets.len() ==> weight_valid(#[trigger] assets[i])
}

pub open spec fn weight_valid(asset: AssetAllocation) -> bool
    decreases asset, 0int,
{
    match asset.holding {
        Holding::Group(children) => weights_valid(children@),
        Holding::Stock(_) => true,
    }
}

} // verus!
