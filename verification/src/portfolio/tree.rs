//! What the passes over the asset tree establish, node by node.

use vstd::prelude::*;
use crate::portfolio::asset_allocation::{
    caps, claims, currents, floors, shares, total_cap, value_valid, values_valid, weight_valid,
    weights, weights_valid, AssetAllocation, Holding,
};
use crate::portfolio::asset_allocation::MAX_AMOUNT;
use crate::portfolio::distribution::distributed;
use crate::portfolio::placement::{feasible, level_ready};
use crate::portfolio::sums::lemma_total_nonnegative;
use crate::portfolio::sums::{lemma_total_equal, lemma_total_le, total};

verus! {

/// The limits of a stock: the current value where the restriction holds it,
/// else zero below and nothing above.
pub open spec fn stock_limits(asset: AssetAllocation) -> bool {
    &&& asset.min_value == if asset.selling_restricted() {
        asset.current_value
    } else {
        0
    }
    &&& asset.max_value == if asset.buying_restricted() {
        Some(asset.current_value)
    } else {
        None
    }
}

/// The limits of a group: the sums of its children's limits.
pub open spec fn group_limits(asset: AssetAllocation, children: Seq<AssetAllocation>) -> bool {
    &&& asset.min_value == total(floors(claims(children)))
    &&& asset.claim().max == total_cap(claims(children))
}

/// Every node carries the limits that its restrictions give it.
pub open spec fn restricted(assets: Seq<AssetAllocation>) -> bool
    decreases assets, 1int,
{
    forall|i: int| 0 <= i < assets.len() ==> asset_restricted(#[trigger] assets[i])
}

pub open spec fn asset_restricted(asset: AssetAllocation) -> bool
    decreases asset, 0int,
{
    match asset.holding {
        Holding::Group(children) => restricted(children@) && group_limits(asset, children@),
        Holding::Stock(_) => stock_limits(asset),
    }
}

/// `after` is `before` with the limits of every node set from its
/// restrictions, and nothing else changed.
pub open spec fn limited(before: Seq<AssetAllocation>, after: Seq<AssetAllocation>) -> bool
    decreases before, 1int,
{
    &&& after.len() == before.len()
    &&& forall|i: int| 0 <= i < before.len() ==> asset_limited(#[trigger] before[i], after[i])
}

pub open spec fn asset_limited(before: AssetAllocation, after: AssetAllocation) -> bool
    decreases before, 0int,
{
    &&& after.name == before.name
    &&& after.expected_weight == before.expected_weight
    &&& after.restrict_buying == before.restrict_buying
    &&& after.restrict_selling == before.restrict_selling
    &&& after.current_value == before.current_value
    &&& after.share() == before.share()
    &&& match (before.holding, after.holding) {
        (Holding::Group(old_children), Holding::Group(children)) => {
            &&& limited(old_children@, children@)
            &&& group_limits(after, children@)
        },
        (Holding::Stock(old_stock), Holding::Stock(stock)) => {
            &&& stock == old_stock
            &&& stock_limits(after)
        },
        _ => false,
    }
}

/// `after` is `before` with the budget distributed over it: the siblings
/// hold the shares of the distribution, each group's share is distributed
/// over its children in turn, and nothing else changed.
pub open spec fn allocated(
    before: Seq<AssetAllocation>,
    after: Seq<AssetAllocation>,
    budget: int,
    min_trade_volume: int,
) -> bool
    decreases before, 1int,
{
    &&& after.len() == before.len()
    &&& shares(after) == distributed(claims(before), budget, min_trade_volume).0
    &&& forall|i: int|
        0 <= i < before.len() ==> asset_allocated(#[trigger] before[i], after[i], min_trade_volume)
}

pub open spec fn asset_allocated(
    before: AssetAllocation,
    after: AssetAllocation,
    min_trade_volume: int,
) -> bool
    decreases before, 0int,
{
    &&& after.same_claim_as(before)
    &&& match (before.holding, after.holding) {
        (Holding::Group(old_children), Holding::Group(children)) => allocated(
            old_children@,
            children@,
            after.target_value as int,
            min_trade_volume,
        ),
        (Holding::Stock(old_stock), Holding::Stock(stock)) => stock == old_stock,
        _ => false,
    }
}

/// Setting the limits leaves a tree with the limits that its restrictions
/// give, and with the values and weights it had.
pub proof fn lemma_limited(before: Seq<AssetAllocation>, after: Seq<AssetAllocation>)
    requires
        limited(before, after),
    ensures
        restricted(after),
        currents(claims(after)) == currents(claims(before)),
        weights(claims(after)) == weights(claims(before)),
        values_valid(before) ==> values_valid(after),
        weights_valid(before) ==> weights_valid(after),
    decreases before,
{
    assert(currents(claims(after)) =~= currents(claims(before)));
    assert(weights(claims(after)) =~= weights(claims(before)));
    assert forall|i: int| 0 <= i < after.len() implies asset_restricted(#[trigger] after[i]) && (
    value_valid(before[i]) ==> value_valid(after[i])) && (weight_valid(before[i])
        ==> weight_valid(after[i])) by {
        assert(asset_limited(before[i], after[i]));
        match (before[i].holding, after[i].holding) {
            (Holding::Group(old_children), Holding::Group(children)) => {
                lemma_limited(old_children@, children@);
            },
            _ => {},
        }
    }
}

/// In a tree of valid values with the limits that its restrictions give,
/// the limits of every sibling enclose its current value, and an upper limit
/// is the current value itself.
pub proof fn lemma_restricted_consistent(assets: Seq<AssetAllocation>)
    requires
        values_valid(assets),
        restricted(assets),
    ensures
        forall|i: int|
            0 <= i < assets.len() ==> {
                &&& 0 <= (#[trigger] claims(assets)[i]).min <= claims(assets)[i].current
                &&& claims(assets)[i].max is Some ==> claims(assets)[i].max == Some(
                    claims(assets)[i].current,
                )
            },
        total(floors(claims(assets))) <= total(currents(claims(assets))),
        total_cap(claims(assets)) is Some ==> total_cap(claims(assets)) == Some(
            total(currents(claims(assets))),
        ),
        0 <= total(floors(claims(assets))),
    decreases assets,
{
    let cs = claims(assets);
    assert forall|i: int| 0 <= i < assets.len() implies {
        &&& 0 <= (#[trigger] cs[i]).min <= cs[i].current
        &&& cs[i].max is Some ==> cs[i].max == Some(cs[i].current)
    } by {
        assert(value_valid(assets[i]));
        assert(asset_restricted(assets[i]));
        match assets[i].holding {
            Holding::Group(children) => {
                lemma_restricted_consistent(children@);
            },
            Holding::Stock(_) => {},
        }
    }
    assert forall|i: int| 0 <= i < cs.len() implies floors(cs)[i] <= currents(cs)[i] by {
        assert(cs[i].min <= cs[i].current);
    }
    lemma_total_le(floors(cs), currents(cs));
    if total_cap(cs) is Some {
        assert forall|i: int| 0 <= i < cs.len() implies currents(cs)[i] == caps(cs)[i] by {
            assert(cs[i].max is Some);
        }
        lemma_total_equal(currents(cs), caps(cs));
    }
    assert forall|i: int| 0 <= i < cs.len() implies floors(cs)[i] >= 0 by {
        assert(0 <= cs[i].min);
    }
    crate::portfolio::sums::lemma_total_floor(floors(cs));
}

/// The tree can be given a budget: its values and weights are valid and
/// its limits are those that its restrictions give.
pub open spec fn tree_ready(assets: Seq<AssetAllocation>) -> bool {
    &&& values_valid(assets)
    &&& weights_valid(assets)
    &&& restricted(assets)
}

/// The top level of a ready tree is ready for any budget and minimum trade
/// volume in range.
pub proof fn lemma_tree_level_ready(
    assets: Seq<AssetAllocation>,
    budget: int,
    min_trade_volume: int,
)
    requires
        tree_ready(assets),
        0 <= budget <= MAX_AMOUNT,
        0 <= min_trade_volume <= MAX_AMOUNT,
    ensures
        level_ready(claims(assets), budget, min_trade_volume),
{
    let cs = claims(assets);
    lemma_restricted_consistent(assets);
    let shares_of = weights(cs);
    assert forall|i: int| 0 <= i < cs.len() implies (#[trigger] cs[i]).consistent() && cs[i].weight
        <= 100 by {
        assert(0 <= cs[i].min <= cs[i].current);
        assert(forall|j: int| 0 <= j < shares_of.len() ==> shares_of[j] >= 0);
        lemma_total_nonnegative(shares_of, i);
        assert(shares_of[i] == cs[i].weight);
    }
}

/// The children of a group in a ready tree are a ready tree, and any share
/// within the group's limits is a feasible budget for them.
pub proof fn lemma_children_ready(assets: Seq<AssetAllocation>, i: int)
    requires
        tree_ready(assets),
        0 <= i < assets.len(),
        assets[i].holding is Group,
    ensures
        tree_ready(assets[i].children()),
        forall|budget: int| #[trigger]
            claims(assets)[i].admits(budget) ==> feasible(claims(assets[i].children()), budget),
{
    assert(value_valid(assets[i]));
    assert(weight_valid(assets[i]));
    assert(asset_restricted(assets[i]));
}

} // verus!
