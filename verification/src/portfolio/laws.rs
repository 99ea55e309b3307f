//! What holds of every tree that a budget was distributed over.

use vstd::prelude::*;
use crate::portfolio::asset_allocation::{
    claims, currents, shares, targets, AssetAllocation, Claim, Holding, MAX_AMOUNT,
};
use crate::portfolio::distribution::{
    distributed, free_all, grown, settled, settled_all, settled_balance, tradable, traded, Sweep,
};
use crate::portfolio::placement::{
    feasible, lemma_distributed, lemma_ready_currents, lemma_redistributed, lemma_settled_all,
    lemma_settled_bounds, lemma_spilled, level_ready,
};
use crate::portfolio::sums::total;
use crate::portfolio::tree::{
    allocated, asset_allocated, asset_restricted, lemma_children_ready,
    lemma_restricted_consistent, lemma_tree_level_ready, tree_ready,
};

verus! {

/// Every group holds exactly what its children hold together.
pub open spec fn conserved(assets: Seq<AssetAllocation>) -> bool
    decreases assets, 1int,
{
    forall|i: int| 0 <= i < assets.len() ==> asset_conserved(#[trigger] assets[i])
}

pub open spec fn asset_conserved(asset: AssetAllocation) -> bool
    decreases asset, 0int,
{
    match asset.holding {
        Holding::Group(children) => {
            &&& asset.target_value == total(targets(shares(children@)))
            &&& conserved(children@)
        },
        Holding::Stock(_) => true,
    }
}

/// The target of every node lies within its limits.
pub open spec fn in_limits(assets: Seq<AssetAllocation>) -> bool
    decreases assets, 1int,
{
    forall|i: int| 0 <= i < assets.len() ==> asset_in_limits(#[trigger] assets[i])
}

pub open spec fn asset_in_limits(asset: AssetAllocation) -> bool
    decreases asset, 0int,
{
    &&& asset.claim().admits(asset.target_value as int)
    &&& match asset.holding {
        Holding::Group(children) => in_limits(children@),
        Holding::Stock(_) => true,
    }
}

/// No stock that may not be sold has a target below its current value, and
/// none that may not be bought has one above it.
pub open spec fn restrictions_respected(assets: Seq<AssetAllocation>) -> bool
    decreases assets, 1int,
{
    forall|i: int| 0 <= i < assets.len() ==> asset_respected(#[trigger] assets[i])
}

pub open spec fn asset_respected(asset: AssetAllocation) -> bool
    decreases asset, 0int,
{
    match asset.holding {
        Holding::Group(children) => restrictions_respected(children@),
        Holding::Stock(_) => {
            &&& asset.selling_restricted() ==> asset.target_value >= asset.current_value
            &&& asset.buying_restricted() ==> asset.target_value <= asset.current_value
        },
    }
}

/// The trade of every stock is none at all or at least the minimum trade
/// volume.
pub open spec fn trades_tradable(assets: Seq<AssetAllocation>, min_trade_volume: int) -> bool
    decreases assets, 1int,
{
    forall|i: int|
        0 <= i < assets.len() ==> asset_tradable(#[trigger] assets[i], min_trade_volume)
}

pub open spec fn asset_tradable(asset: AssetAllocation, min_trade_volume: int) -> bool
    decreases asset, 0int,
{
    match asset.holding {
        Holding::Group(children) => trades_tradable(children@, min_trade_volume),
        Holding::Stock(_) => tradable(
            asset.target_value - asset.current_value,
            min_trade_volume,
        ),
    }
}

/// On every level of the tree the tradable amounts and the growing trades
/// took the whole balance, so that nothing had to be pressed into an asset
/// regardless of the size of its trade.
pub open spec fn settled_by_trades(
    assets: Seq<AssetAllocation>,
    budget: int,
    min_trade_volume: int,
) -> bool
    decreases assets, 1int,
{
    &&& grown(claims(assets), budget, min_trade_volume).1 == 0
    &&& forall|i: int|
        0 <= i < assets.len() ==> asset_settled_by_trades(#[trigger] assets[i], min_trade_volume)
}

pub open spec fn asset_settled_by_trades(asset: AssetAllocation, min_trade_volume: int) -> bool
    decreases asset, 0int,
{
    match asset.holding {
        Holding::Group(children) => settled_by_trades(
            children@,
            asset.target_value as int,
            min_trade_volume,
        ),
        Holding::Stock(_) => true,
    }
}

/// The portfolio is at rest: on every level the budget is what the assets
/// are worth, and the share that each asset settles at is its current
/// value, be it that its weight asks for just that, that a limit holds it
/// there, or that the difference is not worth a trade.
pub open spec fn at_rest(assets: Seq<AssetAllocation>, budget: int, min_trade_volume: int) -> bool
    decreases assets, 1int,
{
    &&& budget == total(currents(claims(assets)))
    &&& forall|i: int|
        0 <= i < assets.len() ==> asset_at_rest(#[trigger] assets[i], budget, min_trade_volume)
}

pub open spec fn asset_at_rest(asset: AssetAllocation, budget: int, min_trade_volume: int) -> bool
    decreases asset, 0int,
{
    &&& settled(asset.claim(), budget, min_trade_volume).target == asset.current_value
    &&& match asset.holding {
        Holding::Group(children) => at_rest(
            children@,
            asset.current_value as int,
            min_trade_volume,
        ),
        Holding::Stock(_) => true,
    }
}

/// Every target is the current value.
pub open spec fn untouched(assets: Seq<AssetAllocation>) -> bool
    decreases assets, 1int,
{
    forall|i: int| 0 <= i < assets.len() ==> asset_untouched(#[trigger] assets[i])
}

pub open spec fn asset_untouched(asset: AssetAllocation) -> bool
    decreases asset, 0int,
{
    &&& asset.target_value == asset.current_value
    &&& match asset.holding {
        Holding::Group(children) => untouched(children@),
        Holding::Stock(_) => true,
    }
}

/// What a distribution over a ready tree means for one of its assets: its
/// share is within its limits and in range, and where it is a group, its
/// children are a ready tree over which its share, a feasible budget for
/// them, was distributed.
pub proof fn lemma_allocated_asset(
    before: Seq<AssetAllocation>,
    after: Seq<AssetAllocation>,
    budget: int,
    min_trade_volume: int,
    i: int,
)
    requires
        tree_ready(before),
        0 <= budget <= MAX_AMOUNT,
        0 <= min_trade_volume <= MAX_AMOUNT,
        allocated(before, after, budget, min_trade_volume),
        0 <= i < before.len(),
    ensures
        after[i].same_claim_as(before[i]),
        after[i].claim() == claims(before)[i],
        after[i].share() == distributed(claims(before), budget, min_trade_volume).0[i],
        after[i].claim().admits(after[i].target_value as int),
        0 <= after[i].target_value <= MAX_AMOUNT,
        after[i].holding is Group <==> before[i].holding is Group,
        before[i].holding is Group ==> {
            &&& tree_ready(before[i].children())
            &&& allocated(
                before[i].children(),
                after[i].children(),
                after[i].target_value as int,
                min_trade_volume,
            )
            &&& feasible(claims(before[i].children()), after[i].target_value as int)
        },
{
    let asked = claims(before);
    lemma_tree_level_ready(before, budget, min_trade_volume);
    lemma_ready_currents(asked, budget, min_trade_volume);
    lemma_distributed(asked, budget, min_trade_volume, MAX_AMOUNT as int);
    let given = distributed(asked, budget, min_trade_volume).0;
    assert(shares(after)[i] == after[i].share());
    assert(asset_allocated(before[i], after[i], min_trade_volume));
    assert(asked[i].admits(given[i].target));
    assert(asked[i].consistent());
    if before[i].holding is Group {
        lemma_children_ready(before, i);
    }
}

/// Conservation: after a distribution over a ready tree every group holds
/// exactly what its children hold together, and the top-level assets hold
/// the budget less what the distribution reports as left over.
pub proof fn lemma_allocation_conserves(
    before: Seq<AssetAllocation>,
    after: Seq<AssetAllocation>,
    budget: int,
    min_trade_volume: int,
)
    requires
        tree_ready(before),
        0 <= budget <= MAX_AMOUNT,
        0 <= min_trade_volume <= MAX_AMOUNT,
        allocated(before, after, budget, min_trade_volume),
    ensures
        conserved(after),
        total(targets(shares(after))) + distributed(claims(before), budget, min_trade_volume).1
            == budget,
        feasible(claims(before), budget) ==> total(targets(shares(after))) == budget,
    decreases before,
{
    let asked = claims(before);
    lemma_tree_level_ready(before, budget, min_trade_volume);
    lemma_ready_currents(asked, budget, min_trade_volume);
    lemma_distributed(asked, budget, min_trade_volume, MAX_AMOUNT as int);
    assert forall|i: int| 0 <= i < after.len() implies asset_conserved(#[trigger] after[i]) by {
        lemma_allocated_asset(before, after, budget, min_trade_volume, i);
        if before[i].holding is Group {
            lemma_allocation_conserves(
                before[i].children(),
                after[i].children(),
                after[i].target_value as int,
                min_trade_volume,
            );
        }
    }
}

/// Range: after a distribution over a ready tree the target of every node
/// lies within its limits.
pub proof fn lemma_allocation_in_limits(
    before: Seq<AssetAllocation>,
    after: Seq<AssetAllocation>,
    budget: int,
    min_trade_volume: int,
)
    requires
        tree_ready(before),
        0 <= budget <= MAX_AMOUNT,
        0 <= min_trade_volume <= MAX_AMOUNT,
        allocated(before, after, budget, min_trade_volume),
    ensures
        in_limits(after),
    decreases before,
{
    assert forall|i: int| 0 <= i < after.len() implies asset_in_limits(#[trigger] after[i]) by {
        lemma_allocated_asset(before, after, budget, min_trade_volume, i);
        if before[i].holding is Group {
            lemma_allocation_in_limits(
                before[i].children(),
                after[i].children(),
                after[i].target_value as int,
                min_trade_volume,
            );
        }
    }
}

/// Restrictions: after a distribution over a ready tree no stock that may
/// not be sold is to be sold, and none that may not be bought is to be
/// bought.
pub proof fn lemma_allocation_respects_restrictions(
    before: Seq<AssetAllocation>,
    after: Seq<AssetAllocation>,
    budget: int,
    min_trade_volume: int,
)
    requires
        tree_ready(before),
        0 <= budget <= MAX_AMOUNT,
        0 <= min_trade_volume <= MAX_AMOUNT,
        allocated(before, after, budget, min_trade_volume),
    ensures
        restrictions_respected(after),
    decreases before,
{
    assert forall|i: int| 0 <= i < after.len() implies asset_respected(#[trigger] after[i]) by {
        lemma_allocated_asset(before, after, budget, min_trade_volume, i);
        assert(asset_restricted(before[i]));
        if before[i].holding is Group {
            lemma_allocation_respects_restrictions(
                before[i].children(),
                after[i].children(),
                after[i].target_value as int,
                min_trade_volume,
            );
        }
    }
}

/// A stock's settled share is at a tradable distance from its current
/// value.
pub proof fn lemma_settled_tradable(claim: Claim, budget: int, min_trade_volume: int)
    requires
        claim.consistent(),
        claim.leaf_shaped(),
        claim.weight <= 100,
        0 <= budget,
    ensures
        tradable(settled(claim, budget, min_trade_volume).target - claim.current, min_trade_volume),
{
    lemma_settled_bounds(claim, budget, min_trade_volume);
    crate::portfolio::placement::lemma_proportional_bounds(claim, budget);
}

/// Where the tradable amounts and the growing trades took the whole
/// balance of a level, every asset with the limits of a stock ends at a
/// tradable distance from its current value.
pub proof fn lemma_level_tradable(claims: Seq<Claim>, budget: int, min_trade_volume: int, i: int)
    requires
        level_ready(claims, budget, min_trade_volume),
        grown(claims, budget, min_trade_volume).1 == 0,
        0 <= i < claims.len(),
        claims[i].leaf_shaped(),
    ensures
        tradable(
            distributed(claims, budget, min_trade_volume).0[i].target - claims[i].current,
            min_trade_volume,
        ),
{
    let n = claims.len() as int;
    let limit = MAX_AMOUNT as int;
    lemma_ready_currents(claims, budget, min_trade_volume);
    let start = settled_all(claims, budget, min_trade_volume);
    lemma_settled_all(claims, budget, min_trade_volume, limit);
    assert(claims[i].consistent());
    lemma_settled_tradable(claims[i], budget, min_trade_volume);
    lemma_redistributed(
        claims,
        start,
        free_all(claims, budget, min_trade_volume),
        settled_balance(claims, budget, min_trade_volume),
        budget,
        min_trade_volume,
        limit,
        claims.len(),
    );
    let (handed, unhanded) = traded(claims, budget, min_trade_volume);
    assert(tradable(handed[i].target - claims[i].current, min_trade_volume));
    assert forall|j: int| 0 <= j < claims.len() implies (#[trigger] claims[j]).min >= 0 by {
        assert(claims[j].consistent());
    }
    lemma_spilled(claims, handed, unhanded, Sweep::Growing, budget, min_trade_volume, limit, n);
    let (enlarged, left) = grown(claims, budget, min_trade_volume);
    assert(tradable(enlarged[i].target - claims[i].current, min_trade_volume));
    lemma_spilled(claims, enlarged, left, Sweep::Trading, budget, min_trade_volume, limit, n);
    lemma_spilled(claims, enlarged, left, Sweep::Any, budget, min_trade_volume, limit, n);
}

/// Trade granularity: after a distribution over a ready tree in which the
/// tradable amounts and the growing trades took the whole balance of every
/// level, the trade of every stock is none at all or at least the minimum
/// trade volume.
pub proof fn lemma_allocation_tradable(
    before: Seq<AssetAllocation>,
    after: Seq<AssetAllocation>,
    budget: int,
    min_trade_volume: int,
)
    requires
        tree_ready(before),
        0 <= budget <= MAX_AMOUNT,
        0 <= min_trade_volume <= MAX_AMOUNT,
        allocated(before, after, budget, min_trade_volume),
        settled_by_trades(after, budget, min_trade_volume),
    ensures
        trades_tradable(after, min_trade_volume),
    decreases before,
{
    let asked = claims(before);
    lemma_tree_level_ready(before, budget, min_trade_volume);
    lemma_restricted_consistent(before);
    assert(claims(after) =~= asked) by {
        assert forall|i: int| 0 <= i < before.len() implies claims(after)[i] == asked[i] by {
            lemma_allocated_asset(before, after, budget, min_trade_volume, i);
        }
    }
    assert forall|i: int| 0 <= i < after.len() implies asset_tradable(
        #[trigger] after[i],
        min_trade_volume,
    ) by {
        lemma_allocated_asset(before, after, budget, min_trade_volume, i);
        assert(asset_settled_by_trades(after[i], min_trade_volume));
        assert(asset_restricted(before[i]));
        if before[i].holding is Group {
            lemma_allocation_tradable(
                before[i].children(),
                after[i].children(),
                after[i].target_value as int,
                min_trade_volume,
            );
        } else {
            assert(asked[i].leaf_shaped());
            lemma_level_tradable(asked, budget, min_trade_volume, i);
        }
    }
}

/// Where every asset of a level settles at its current value and the budget
/// is what the assets are worth, the distribution gives every asset its
/// current value and leaves nothing over.
pub proof fn lemma_level_at_rest(claims: Seq<Claim>, budget: int, min_trade_volume: int)
    requires
        level_ready(claims, budget, min_trade_volume),
        budget == total(currents(claims)),
        forall|i: int|
            0 <= i < claims.len() ==> settled(#[trigger] claims[i], budget, min_trade_volume).target
                == claims[i].current,
    ensures
        distributed(claims, budget, min_trade_volume).1 == 0,
        forall|i: int|
            0 <= i < claims.len() ==> (#[trigger] distributed(
                claims,
                budget,
                min_trade_volume,
            ).0[i]).target == claims[i].current,
{
    let n = claims.len() as int;
    let limit = MAX_AMOUNT as int;
    lemma_ready_currents(claims, budget, min_trade_volume);
    let start = settled_all(claims, budget, min_trade_volume);
    lemma_settled_all(claims, budget, min_trade_volume, limit);
    assert(targets(start) =~= currents(claims));
    lemma_redistributed(
        claims,
        start,
        free_all(claims, budget, min_trade_volume),
        0,
        budget,
        min_trade_volume,
        limit,
        claims.len(),
    );
    assert forall|j: int| 0 <= j < claims.len() implies (#[trigger] claims[j]).min >= 0 by {
        assert(claims[j].consistent());
    }
    lemma_spilled(claims, start, 0, Sweep::Growing, budget, min_trade_volume, limit, n);
    lemma_spilled(claims, start, 0, Sweep::Trading, budget, min_trade_volume, limit, n);
    lemma_spilled(claims, start, 0, Sweep::Any, budget, min_trade_volume, limit, n);
}

/// Fixed point: a distribution over a ready tree that is at rest gives
/// every node its current value as its target.
pub proof fn lemma_allocation_at_rest(
    before: Seq<AssetAllocation>,
    after: Seq<AssetAllocation>,
    budget: int,
    min_trade_volume: int,
)
    requires
        tree_ready(before),
        0 <= budget <= MAX_AMOUNT,
        0 <= min_trade_volume <= MAX_AMOUNT,
        allocated(before, after, budget, min_trade_volume),
        at_rest(before, budget, min_trade_volume),
    ensures
        untouched(after),
        distributed(claims(before), budget, min_trade_volume).1 == 0,
    decreases before,
{
    let asked = claims(before);
    lemma_tree_level_ready(before, budget, min_trade_volume);
    assert forall|i: int| 0 <= i < asked.len() implies settled(
        #[trigger] asked[i],
        budget,
        min_trade_volume,
    ).target == asked[i].current by {
        assert(asset_at_rest(before[i], budget, min_trade_volume));
    }
    lemma_level_at_rest(asked, budget, min_trade_volume);
    assert forall|i: int| 0 <= i < after.len() implies asset_untouched(#[trigger] after[i]) by {
        lemma_allocated_asset(before, after, budget, min_trade_volume, i);
        assert(asset_at_rest(before[i], budget, min_trade_volume));
        assert(distributed(asked, budget, min_trade_volume).0[i].target == asked[i].current);
        if before[i].holding is Group {
            lemma_allocation_at_rest(
                before[i].children(),
                after[i].children(),
                after[i].target_value as int,
                min_trade_volume,
            );
        }
    }
}

/// The trade of every stock is none at all or at least the minimum trade
/// volume, unless the last sweeps of its level, which press the balance
/// into assets whatever the size of the trade, changed its target.
pub open spec fn tradable_unless_pressed(
    assets: Seq<AssetAllocation>,
    budget: int,
    min_trade_volume: int,
) -> bool
    decreases assets, 1int,
{
    forall|i: int|
        0 <= i < assets.len() ==> asset_tradable_unless_pressed(
            #[trigger] assets[i],
            grown(claims(assets), budget, min_trade_volume).0[i].target,
            min_trade_volume,
        )
}

pub open spec fn asset_tradable_unless_pressed(
    asset: AssetAllocation,
    handed: int,
    min_trade_volume: int,
) -> bool
    decreases asset, 0int,
{
    match asset.holding {
        Holding::Group(children) => tradable_unless_pressed(
            children@,
            asset.target_value as int,
            min_trade_volume,
        ),
        Holding::Stock(_) => asset.target_value == handed ==> tradable(
            asset.target_value - asset.current_value,
            min_trade_volume,
        ),
    }
}

/// Once the tradable amounts are handed out and the growing trades
/// enlarged, every asset with the limits of a stock is at a tradable
/// distance from its current value.
pub proof fn lemma_grown_tradable(claims: Seq<Claim>, budget: int, min_trade_volume: int, i: int)
    requires
        level_ready(claims, budget, min_trade_volume),
        0 <= i < claims.len(),
        claims[i].leaf_shaped(),
    ensures
        tradable(
            grown(claims, budget, min_trade_volume).0[i].target - claims[i].current,
            min_trade_volume,
        ),
{
    let n = claims.len() as int;
    let limit = MAX_AMOUNT as int;
    lemma_ready_currents(claims, budget, min_trade_volume);
    let start = settled_all(claims, budget, min_trade_volume);
    lemma_settled_all(claims, budget, min_trade_volume, limit);
    assert(claims[i].consistent());
    lemma_settled_tradable(claims[i], budget, min_trade_volume);
    lemma_redistributed(
        claims,
        start,
        free_all(claims, budget, min_trade_volume),
        settled_balance(claims, budget, min_trade_volume),
        budget,
        min_trade_volume,
        limit,
        claims.len(),
    );
    let (handed, unhanded) = traded(claims, budget, min_trade_volume);
    assert(tradable(handed[i].target - claims[i].current, min_trade_volume));
    assert forall|j: int| 0 <= j < claims.len() implies (#[trigger] claims[j]).min >= 0 by {
        assert(claims[j].consistent());
    }
    lemma_spilled(claims, handed, unhanded, Sweep::Growing, budget, min_trade_volume, limit, n);
}

/// Trade granularity: after a distribution over a ready tree the trade of
/// every stock is none at all or at least the minimum trade volume, unless
/// the last sweeps of its level changed its target.
pub proof fn lemma_allocation_tradable_unless_pressed(
    before: Seq<AssetAllocation>,
    after: Seq<AssetAllocation>,
    budget: int,
    min_trade_volume: int,
)
    requires
        tree_ready(before),
        0 <= budget <= MAX_AMOUNT,
        0 <= min_trade_volume <= MAX_AMOUNT,
        allocated(before, after, budget, min_trade_volume),
    ensures
        tradable_unless_pressed(after, budget, min_trade_volume),
    decreases before,
{
    let asked = claims(before);
    lemma_tree_level_ready(before, budget, min_trade_volume);
    lemma_restricted_consistent(before);
    assert(claims(after) =~= asked) by {
        assert forall|i: int| 0 <= i < before.len() implies claims(after)[i] == asked[i] by {
            lemma_allocated_asset(before, after, budget, min_trade_volume, i);
        }
    }
    assert forall|i: int| 0 <= i < after.len() implies asset_tradable_unless_pressed(
        #[trigger] after[i],
        grown(claims(after), budget, min_trade_volume).0[i].target,
        min_trade_volume,
    ) by {
        lemma_allocated_asset(before, after, budget, min_trade_volume, i);
        assert(asset_restricted(before[i]));
        if before[i].holding is Group {
            lemma_allocation_tradable_unless_pressed(
                before[i].children(),
                after[i].children(),
                after[i].target_value as int,
                min_trade_volume,
            );
        } else {
            assert(asked[i].leaf_shaped());
            lemma_grown_tradable(asked, budget, min_trade_volume, i);
        }
    }
}

} // verus!
