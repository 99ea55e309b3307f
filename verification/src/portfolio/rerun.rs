//! What a second run makes of the outcome of a first.

use vstd::prelude::*;
use crate::portfolio::asset_allocation::{
    all_capped, claims, currents, floors, shares, targets, value_valid,
    AssetAllocation, Claim, Holding, MAX_AMOUNT,
};
use crate::portfolio::distribution::{
    clamped, distributed, free_all, grown, is_dust, is_free, pressed, settled, settled_all,
    settled_balance, traded, Sweep,
};
use crate::portfolio::laws::{
    asset_at_rest, asset_untouched, at_rest, lemma_allocated_asset, lemma_allocation_at_rest,
    lemma_allocation_conserves, untouched,
};
use crate::portfolio::placement::{
    lemma_proportional_bounds, lemma_ready_currents, lemma_redistributed, lemma_settled_all,
    lemma_settled_bounds, lemma_spilled, level_ready,
};
use crate::portfolio::sums::{lemma_total_le, lemma_total_update, total};
use crate::portfolio::tree::{
    allocated, asset_restricted, lemma_restricted_consistent,
    lemma_tree_level_ready, tree_ready,
};

verus! {

/// `next` is `after` made ready for another run: every stock is worth what
/// its target was, with its weight and restrictions as before.
pub open spec fn carried(after: Seq<AssetAllocation>, next: Seq<AssetAllocation>) -> bool
    decreases after, 1int,
{
    &&& next.len() == after.len()
    &&& forall|i: int| 0 <= i < after.len() ==> asset_carried(#[trigger] after[i], next[i])
}

pub open spec fn asset_carried(after: AssetAllocation, next: AssetAllocation) -> bool
    decreases after, 0int,
{
    &&& next.expected_weight == after.expected_weight
    &&& next.restrict_buying == after.restrict_buying
    &&& next.restrict_selling == after.restrict_selling
    &&& match (after.holding, next.holding) {
        (Holding::Group(children), Holding::Group(next_children)) => carried(
            children@,
            next_children@,
        ),
        (Holding::Stock(_), Holding::Stock(_)) => next.current_value == after.target_value,
        _ => false,
    }
}

/// The run over the tree is quiet: on every level the settled shares take
/// up the budget exactly, so that no balance is handed out, and no group is
/// held at its current value for the size of its trade.
pub open spec fn quiet(assets: Seq<AssetAllocation>, budget: int, min_trade_volume: int) -> bool
    decreases assets, 1int,
{
    &&& settled_balance(claims(assets), budget, min_trade_volume) == 0
    &&& forall|i: int|
        0 <= i < assets.len() ==> asset_quiet(#[trigger] assets[i], budget, min_trade_volume)
}

pub open spec fn asset_quiet(asset: AssetAllocation, budget: int, min_trade_volume: int) -> bool
    decreases asset, 0int,
{
    match asset.holding {
        Holding::Group(children) => {
            &&& !is_dust(asset.claim(), budget, min_trade_volume)
            &&& quiet(
                children@,
                settled(asset.claim(), budget, min_trade_volume).target,
                min_trade_volume,
            )
        },
        Holding::Stock(_) => true,
    }
}

/// Where the settled shares take up the budget exactly, they are the
/// outcome of the distribution, and nothing is left over.
pub proof fn lemma_quiet_level(claims: Seq<Claim>, budget: int, min_trade_volume: int)
    requires
        level_ready(claims, budget, min_trade_volume),
        settled_balance(claims, budget, min_trade_volume) == 0,
    ensures
        distributed(claims, budget, min_trade_volume) == (
            settled_all(claims, budget, min_trade_volume),
            0int,
        ),
{
    let n = claims.len() as int;
    let limit = MAX_AMOUNT as int;
    let start = settled_all(claims, budget, min_trade_volume);
    lemma_ready_currents(claims, budget, min_trade_volume);
    lemma_settled_all(claims, budget, min_trade_volume, limit);
    lemma_redistributed(
        claims,
        start,
        free_all(claims, budget, min_trade_volume),
        0,
        budget,
        min_trade_volume,
        limit,
        claims.len(),
    );
    assert(traded(claims, budget, min_trade_volume) == (start, 0int));
    assert forall|j: int| 0 <= j < claims.len() implies (#[trigger] claims[j]).min >= 0 by {
        assert(claims[j].consistent());
    }
    lemma_spilled(claims, start, 0, Sweep::Growing, budget, min_trade_volume, limit, n);
    assert(grown(claims, budget, min_trade_volume) == (start, 0int));
    lemma_spilled(claims, start, 0, Sweep::Trading, budget, min_trade_volume, limit, n);
    assert(pressed(claims, budget, min_trade_volume) == (start, 0int));
    lemma_spilled(claims, start, 0, Sweep::Any, budget, min_trade_volume, limit, n);
}

/// Sequences of which one is nowhere above the other and which add up to
/// the same are the same.
pub proof fn lemma_total_tight(a: Seq<int>, b: Seq<int>)
    requires
        a.len() == b.len(),
        forall|i: int| 0 <= i < a.len() ==> a[i] <= b[i],
        total(a) == total(b),
    ensures
        a == b,
{
    assert forall|i: int| 0 <= i < a.len() implies a[i] == b[i] by {
        if a[i] < b[i] {
            let raised = a.update(i, b[i]);
            lemma_total_update(a, i, b[i]);
            assert forall|j: int| 0 <= j < raised.len() implies raised[j] <= b[j] by {}
            lemma_total_le(raised, b);
        }
    }
    assert(a =~= b);
}

/// After a quiet run every asset holds its settled share, and in the tree
/// carried over every asset is worth that share.
pub proof fn lemma_carried_values(
    before: Seq<AssetAllocation>,
    after: Seq<AssetAllocation>,
    next: Seq<AssetAllocation>,
    budget: int,
    min_trade_volume: int,
)
    requires
        tree_ready(before),
        0 <= budget <= MAX_AMOUNT,
        0 <= min_trade_volume <= MAX_AMOUNT,
        allocated(before, after, budget, min_trade_volume),
        quiet(before, budget, min_trade_volume),
        tree_ready(next),
        carried(after, next),
    ensures
        targets(shares(after)) == targets(settled_all(claims(before), budget, min_trade_volume)),
        currents(claims(next)) == targets(shares(after)),
        total(currents(claims(next))) == budget,
    decreases before,
{
    let asked = claims(before);
    lemma_tree_level_ready(before, budget, min_trade_volume);
    lemma_quiet_level(asked, budget, min_trade_volume);
    let given = settled_all(asked, budget, min_trade_volume);
    assert(shares(after) == given);
    assert forall|i: int| 0 <= i < before.len() implies currents(claims(next))[i] == targets(
        shares(after),
    )[i] by {
        lemma_allocated_asset(before, after, budget, min_trade_volume, i);
        assert(asset_carried(after[i], next[i]));
        assert(asset_quiet(before[i], budget, min_trade_volume));
        assert(value_valid(next[i]));
        assert(given[i] == settled(asked[i], budget, min_trade_volume));
        match (before[i].holding, after[i].holding, next[i].holding) {
            (
                Holding::Group(old_children),
                Holding::Group(children),
                Holding::Group(next_children),
            ) => {
                let part = after[i].target_value as int;
                lemma_carried_values(
                    old_children@,
                    children@,
                    next_children@,
                    part,
                    min_trade_volume,
                );
                lemma_allocation_conserves(old_children@, children@, part, min_trade_volume);
            },
            _ => {},
        }
    }
    assert(currents(claims(next)) =~= targets(shares(after)));
    lemma_allocation_conserves(before, after, budget, min_trade_volume);
}

/// Whatever has an upper limit keeps one when it is carried over.
pub proof fn lemma_carried_caps(
    before: Seq<AssetAllocation>,
    after: Seq<AssetAllocation>,
    next: Seq<AssetAllocation>,
    budget: int,
    min_trade_volume: int,
)
    requires
        tree_ready(before),
        0 <= budget <= MAX_AMOUNT,
        0 <= min_trade_volume <= MAX_AMOUNT,
        allocated(before, after, budget, min_trade_volume),
        tree_ready(next),
        carried(after, next),
    ensures
        forall|i: int|
            0 <= i < before.len() && (#[trigger] claims(before)[i]).max is Some ==> claims(
                next,
            )[i].max is Some,
        all_capped(claims(before)) ==> all_capped(claims(next)),
    decreases before,
{
    assert forall|i: int|
        0 <= i < before.len() && (#[trigger] claims(before)[i]).max is Some implies claims(
        next,
    )[i].max is Some by {
        lemma_allocated_asset(before, after, budget, min_trade_volume, i);
        assert(asset_carried(after[i], next[i]));
        assert(asset_restricted(before[i]));
        assert(asset_restricted(next[i]));
        match (before[i].holding, after[i].holding, next[i].holding) {
            (
                Holding::Group(old_children),
                Holding::Group(children),
                Holding::Group(next_children),
            ) => {
                lemma_carried_caps(
                    old_children@,
                    children@,
                    next_children@,
                    after[i].target_value as int,
                    min_trade_volume,
                );
            },
            _ => {},
        }
    }
    if all_capped(claims(before)) {
        assert forall|i: int| 0 <= i < next.len() implies (#[trigger] claims(next)[i]).max
            is Some by {
            assert(claims(before)[i].max is Some);
        }
    }
}

/// Where a quiet run had no more to give than the lower limits, the tree
/// carried over has the same lower limits.
pub proof fn lemma_carried_floors(
    before: Seq<AssetAllocation>,
    after: Seq<AssetAllocation>,
    next: Seq<AssetAllocation>,
    budget: int,
    min_trade_volume: int,
)
    requires
        tree_ready(before),
        0 <= budget <= MAX_AMOUNT,
        0 <= min_trade_volume <= MAX_AMOUNT,
        allocated(before, after, budget, min_trade_volume),
        quiet(before, budget, min_trade_volume),
        tree_ready(next),
        carried(after, next),
        budget == total(floors(claims(before))),
    ensures
        floors(claims(next)) == floors(claims(before)),
    decreases before,
{
    let asked = claims(before);
    lemma_tree_level_ready(before, budget, min_trade_volume);
    lemma_carried_values(before, after, next, budget, min_trade_volume);
    let held = targets(shares(after));
    assert forall|i: int| 0 <= i < before.len() implies floors(asked)[i] <= held[i] by {
        lemma_allocated_asset(before, after, budget, min_trade_volume, i);
    }
    lemma_allocation_conserves(before, after, budget, min_trade_volume);
    lemma_quiet_level(asked, budget, min_trade_volume);
    lemma_total_tight(floors(asked), held);
    assert forall|i: int| 0 <= i < before.len() implies floors(claims(next))[i] == floors(
        asked,
    )[i] by {
        lemma_allocated_asset(before, after, budget, min_trade_volume, i);
        assert(asset_carried(after[i], next[i]));
        assert(asset_quiet(before[i], budget, min_trade_volume));
        assert(asset_restricted(before[i]));
        assert(asset_restricted(next[i]));
        assert(held[i] == after[i].target_value);
        assert(floors(asked)[i] == held[i]);
        assert(currents(claims(next))[i] == held[i]);
        match (before[i].holding, after[i].holding, next[i].holding) {
            (
                Holding::Group(old_children),
                Holding::Group(children),
                Holding::Group(next_children),
            ) => {
                lemma_carried_floors(
                    old_children@,
                    children@,
                    next_children@,
                    after[i].target_value as int,
                    min_trade_volume,
                );
            },
            _ => {},
        }
    }
    assert(floors(claims(next)) =~= floors(asked));
}

/// A claim whose current value is the share it settled at with its old
/// limits, and whose limits enclose that value in the way the old ones led
/// to it, settles at its current value.
pub proof fn lemma_settles_again(old_claim: Claim, claim: Claim, budget: int, min_trade_volume: int)
    requires
        old_claim.consistent(),
        claim.consistent(),
        old_claim.weight <= 100,
        claim.weight == old_claim.weight,
        0 <= budget,
        0 <= min_trade_volume,
        claim.current == settled(old_claim, budget, min_trade_volume).target,
        claim.max is Some ==> claim.max == Some(claim.current),
        clamped(old_claim, budget).buy_blocked ==> claim.max is Some,
        clamped(old_claim, budget).sell_blocked ==> claim.min == claim.current,
        is_dust(old_claim, budget, min_trade_volume) ==> claim.min == old_claim.min && (
        old_claim.max is None ==> claim.max is None),
    ensures
        settled(claim, budget, min_trade_volume).target == claim.current,
{
    lemma_proportional_bounds(old_claim, budget);
    lemma_settled_bounds(old_claim, budget, min_trade_volume);
}

/// A quiet run carried over leaves a tree at rest.
pub proof fn lemma_carried_at_rest(
    before: Seq<AssetAllocation>,
    after: Seq<AssetAllocation>,
    next: Seq<AssetAllocation>,
    budget: int,
    min_trade_volume: int,
)
    requires
        tree_ready(before),
        0 <= budget <= MAX_AMOUNT,
        0 <= min_trade_volume <= MAX_AMOUNT,
        allocated(before, after, budget, min_trade_volume),
        quiet(before, budget, min_trade_volume),
        tree_ready(next),
        carried(after, next),
    ensures
        at_rest(next, budget, min_trade_volume),
    decreases before,
{
    let asked = claims(before);
    lemma_tree_level_ready(before, budget, min_trade_volume);
    lemma_tree_level_ready(next, budget, min_trade_volume);
    lemma_carried_values(before, after, next, budget, min_trade_volume);
    lemma_carried_caps(before, after, next, budget, min_trade_volume);
    lemma_restricted_consistent(next);
    lemma_restricted_consistent(before);
    let given = settled_all(asked, budget, min_trade_volume);
    assert forall|i: int| 0 <= i < next.len() implies asset_at_rest(
        #[trigger] next[i],
        budget,
        min_trade_volume,
    ) by {
        lemma_allocated_asset(before, after, budget, min_trade_volume, i);
        assert(asset_carried(after[i], next[i]));
        assert(asset_quiet(before[i], budget, min_trade_volume));
        assert(asset_restricted(before[i]));
        assert(asset_restricted(next[i]));
        let old_claim = asked[i];
        let claim = claims(next)[i];
        assert(claim == next[i].claim());
        assert(old_claim == before[i].claim());
        assert(old_claim.consistent());
        assert(claim.consistent());
        assert(given[i] == settled(old_claim, budget, min_trade_volume));
        assert(targets(shares(after))[i] == after[i].target_value);
        assert(targets(given)[i] == given[i].target);
        assert(currents(claims(next))[i] == claim.current);
        assert(claim.current == settled(old_claim, budget, min_trade_volume).target);
        assert(claim.max is Some ==> claim.max == Some(claim.current));
        assert(old_claim.max is Some ==> claim.max is Some);
        match (before[i].holding, after[i].holding, next[i].holding) {
            (
                Holding::Group(old_children),
                Holding::Group(children),
                Holding::Group(next_children),
            ) => {
                let part = after[i].target_value as int;
                if clamped(old_claim, budget).sell_blocked {
                    assert(part == old_claim.min);
                    lemma_carried_floors(
                        old_children@,
                        children@,
                        next_children@,
                        part,
                        min_trade_volume,
                    );
                }
                lemma_settles_again(old_claim, claim, budget, min_trade_volume);
                lemma_carried_at_rest(
                    old_children@,
                    children@,
                    next_children@,
                    part,
                    min_trade_volume,
                );
            },
            _ => {
                lemma_settles_again(old_claim, claim, budget, min_trade_volume);
            },
        }
    }
}

/// Fixed point of a quiet run: where a run handed out no balance and held
/// no group for the size of its trade, a second run over its outcome, with
/// every stock worth what its target was, gives every node its current
/// value as its target and leaves nothing over.
pub proof fn lemma_second_run_changes_nothing(
    before: Seq<AssetAllocation>,
    after: Seq<AssetAllocation>,
    next: Seq<AssetAllocation>,
    again: Seq<AssetAllocation>,
    budget: int,
    min_trade_volume: int,
)
    requires
        tree_ready(before),
        0 <= budget <= MAX_AMOUNT,
        0 <= min_trade_volume <= MAX_AMOUNT,
        allocated(before, after, budget, min_trade_volume),
        quiet(before, budget, min_trade_volume),
        tree_ready(next),
        carried(after, next),
        allocated(next, again, budget, min_trade_volume),
    ensures
        untouched(again),
        distributed(claims(next), budget, min_trade_volume).1 == 0,
{
    lemma_carried_at_rest(before, after, next, budget, min_trade_volume);
    lemma_allocation_at_rest(next, again, budget, min_trade_volume);
}

/// The distribution of the budget gives every sibling its current value.
pub open spec fn level_steady(claims: Seq<Claim>, budget: int, min_trade_volume: int) -> bool {
    targets(distributed(claims, budget, min_trade_volume).0) == currents(claims)
}

/// On every level of the tree the distribution of the level's budget gives
/// every asset its current value, where the budget of a group's children is
/// what the group is worth.
pub open spec fn steady(assets: Seq<AssetAllocation>, budget: int, min_trade_volume: int) -> bool
    decreases assets, 1int,
{
    &&& level_steady(claims(assets), budget, min_trade_volume)
    &&& forall|i: int|
        0 <= i < assets.len() ==> children_steady(#[trigger] assets[i], min_trade_volume)
}

pub open spec fn children_steady(asset: AssetAllocation, min_trade_volume: int) -> bool
    decreases asset, 0int,
{
    match asset.holding {
        Holding::Group(children) => steady(
            children@,
            asset.current_value as int,
            min_trade_volume,
        ),
        Holding::Stock(_) => true,
    }
}

/// Exactly when a run moves no target: a distribution over a ready tree
/// gives every node its current value as its target if and only if the
/// tree is steady. A second run over the outcome of a first, with every
/// asset worth what its target was, moves a target exactly when that tree
/// is not steady.
pub proof fn lemma_untouched_exactly(
    before: Seq<AssetAllocation>,
    after: Seq<AssetAllocation>,
    budget: int,
    min_trade_volume: int,
)
    requires
        tree_ready(before),
        0 <= budget <= MAX_AMOUNT,
        0 <= min_trade_volume <= MAX_AMOUNT,
        allocated(before, after, budget, min_trade_volume),
    ensures
        untouched(after) <==> steady(before, budget, min_trade_volume),
    decreases before,
{
    let asked = claims(before);
    let given = distributed(asked, budget, min_trade_volume).0;
    lemma_tree_level_ready(before, budget, min_trade_volume);
    lemma_ready_currents(asked, budget, min_trade_volume);
    crate::portfolio::placement::lemma_distributed(asked, budget, min_trade_volume, MAX_AMOUNT as int);
    assert forall|i: int| 0 <= i < before.len() implies (asset_untouched(#[trigger] after[i]) <==> (
    given[i].target == asked[i].current && children_steady(before[i], min_trade_volume))) by {
        lemma_allocated_asset(before, after, budget, min_trade_volume, i);
        if before[i].holding is Group {
            lemma_untouched_exactly(
                before[i].children(),
                after[i].children(),
                after[i].target_value as int,
                min_trade_volume,
            );
        }
    }
    if untouched(after) {
        assert forall|i: int| 0 <= i < before.len() implies targets(given)[i] == currents(
            asked,
        )[i] && children_steady(#[trigger] before[i], min_trade_volume) by {
            assert(asset_untouched(after[i]));
        }
        assert(targets(given) =~= currents(asked));
    }
    if steady(before, budget, min_trade_volume) {
        assert forall|i: int| 0 <= i < after.len() implies asset_untouched(#[trigger] after[i]) by {
            assert(children_steady(before[i], min_trade_volume));
            assert(targets(given)[i] == currents(asked)[i]);
        }
    }
}

/// The siblings are worth the budget, and all but one settle at their
/// current value without being free to move; that one is free to move.
pub open spec fn one_mover(claims: Seq<Claim>, budget: int, min_trade_volume: int) -> bool {
    &&& budget == total(currents(claims))
    &&& exists|j: int| 0 <= j < claims.len() && #[trigger] sole_mover(claims, budget, min_trade_volume, j)
}

pub open spec fn sole_mover(claims: Seq<Claim>, budget: int, min_trade_volume: int, j: int) -> bool {
    &&& is_free(claims[j], budget, min_trade_volume)
    &&& forall|i: int|
        0 <= i < claims.len() && i != j ==> !is_free(#[trigger] claims[i], budget, min_trade_volume)
            && settled(claims[i], budget, min_trade_volume).target == claims[i].current
}

/// Where all siblings but one are held at their current value, by a limit
/// or for the size of their trade, the one that is free takes the whole
/// balance, which brings it to its current value: the level is steady.
pub proof fn lemma_one_mover(claims: Seq<Claim>, budget: int, min_trade_volume: int)
    requires
        level_ready(claims, budget, min_trade_volume),
        one_mover(claims, budget, min_trade_volume),
    ensures
        level_steady(claims, budget, min_trade_volume),
        distributed(claims, budget, min_trade_volume).1 == 0,
{
    let n = claims.len() as int;
    let limit = MAX_AMOUNT as int;
    let j = choose|j: int| 0 <= j < claims.len() && #[trigger] sole_mover(claims, budget, min_trade_volume, j);
    let start = settled_all(claims, budget, min_trade_volume);
    let waiting = free_all(claims, budget, min_trade_volume);
    let balance = settled_balance(claims, budget, min_trade_volume);
    lemma_ready_currents(claims, budget, min_trade_volume);
    lemma_settled_all(claims, budget, min_trade_volume, limit);
    assert(claims[j].consistent());
    lemma_settled_bounds(claims[j], budget, min_trade_volume);
    assert(targets(start) =~= currents(claims).update(j, start[j].target));
    lemma_total_update(currents(claims), j, start[j].target);
    assert(balance == claims[j].current - start[j].target);
    lemma_redistributed(claims, start, waiting, balance, budget, min_trade_volume, limit, claims.len());
    let (handed, unhanded) = traded(claims, budget, min_trade_volume);
    if balance == 0 {
        assert(handed == start);
        assert(unhanded == 0);
    } else {
        let pick = crate::portfolio::distribution::nearest(claims, start, waiting, n);
        crate::portfolio::placement::lemma_nearest(claims, start, waiting, n);
        assert(waiting[j]);
        assert(pick == j) by {
            if pick != j {
                assert(waiting[pick]);
                assert(is_free(claims[pick], budget, min_trade_volume));
            }
        }
        let target = crate::portfolio::distribution::adjusted(
            claims[j],
            start[j].target,
            balance,
            min_trade_volume,
        );
        assert(target == claims[j].current);
        let moved = crate::portfolio::distribution::with_target(start, j, target);
        reveal_with_fuel(crate::portfolio::distribution::redistributed, 2);
        assert(handed == moved);
        assert(unhanded == 0);
    }
    assert(targets(handed) =~= currents(claims)) by {
        assert forall|i: int| 0 <= i < n implies targets(handed)[i] == currents(claims)[i] by {
            if i != j {
                assert(!is_free(claims[i], budget, min_trade_volume));
            }
        }
    }
    assert forall|i: int| 0 <= i < claims.len() implies (#[trigger] claims[i]).min >= 0 by {
        assert(claims[i].consistent());
    }
    lemma_spilled(claims, handed, 0, Sweep::Growing, budget, min_trade_volume, limit, n);
    lemma_spilled(claims, handed, 0, Sweep::Trading, budget, min_trade_volume, limit, n);
    lemma_spilled(claims, handed, 0, Sweep::Any, budget, min_trade_volume, limit, n);
}

/// The tree is calm: on every level the siblings are worth the budget and
/// settle at their current values, but for at most one that is free to
/// move; the budget of a group's children is what the group is worth.
pub open spec fn calm(assets: Seq<AssetAllocation>, budget: int, min_trade_volume: int) -> bool
    decreases assets, 1int,
{
    &&& budget == total(currents(claims(assets)))
    &&& one_mover(claims(assets), budget, min_trade_volume) || forall|i: int|
        0 <= i < assets.len() ==> settled(
            #[trigger] claims(assets)[i],
            budget,
            min_trade_volume,
        ).target == claims(assets)[i].current
    &&& forall|i: int| 0 <= i < assets.len() ==> children_calm(#[trigger] assets[i], min_trade_volume)
}

pub open spec fn children_calm(asset: AssetAllocation, min_trade_volume: int) -> bool
    decreases asset, 0int,
{
    match asset.holding {
        Holding::Group(children) => calm(children@, asset.current_value as int, min_trade_volume),
        Holding::Stock(_) => true,
    }
}

/// A calm tree is steady.
pub proof fn lemma_calm_steady(assets: Seq<AssetAllocation>, budget: int, min_trade_volume: int)
    requires
        tree_ready(assets),
        0 <= budget <= MAX_AMOUNT,
        0 <= min_trade_volume <= MAX_AMOUNT,
        calm(assets, budget, min_trade_volume),
    ensures
        steady(assets, budget, min_trade_volume),
    decreases assets,
{
    let asked = claims(assets);
    lemma_tree_level_ready(assets, budget, min_trade_volume);
    if one_mover(asked, budget, min_trade_volume) {
        lemma_one_mover(asked, budget, min_trade_volume);
    } else {
        crate::portfolio::laws::lemma_level_at_rest(asked, budget, min_trade_volume);
        lemma_ready_currents(asked, budget, min_trade_volume);
        crate::portfolio::placement::lemma_distributed(
            asked,
            budget,
            min_trade_volume,
            MAX_AMOUNT as int,
        );
        let given = distributed(asked, budget, min_trade_volume).0;
        assert forall|i: int| 0 <= i < asked.len() implies targets(given)[i] == currents(
            asked,
        )[i] by {
            assert(given[i].target == asked[i].current);
        }
        assert(targets(given) =~= currents(asked));
    }
    assert forall|i: int| 0 <= i < assets.len() implies children_steady(
        #[trigger] assets[i],
        min_trade_volume,
    ) by {
        assert(children_calm(assets[i], min_trade_volume));
        assert(value_valid(assets[i]));
        if assets[i].holding is Group {
            crate::portfolio::tree::lemma_children_ready(assets, i);
            lemma_calm_steady(
                assets[i].children(),
                assets[i].current_value as int,
                min_trade_volume,
            );
        }
    }
}

/// Fixed point of a calm portfolio: a run over a ready tree that is calm,
/// such as the outcome of a run in which one asset took what a limit kept
/// from its sibling, gives every node its current value as its target.
pub proof fn lemma_allocation_calm(
    before: Seq<AssetAllocation>,
    after: Seq<AssetAllocation>,
    budget: int,
    min_trade_volume: int,
)
    requires
        tree_ready(before),
        0 <= budget <= MAX_AMOUNT,
        0 <= min_trade_volume <= MAX_AMOUNT,
        allocated(before, after, budget, min_trade_volume),
        calm(before, budget, min_trade_volume),
    ensures
        untouched(after),
{
    lemma_calm_steady(before, budget, min_trade_volume);
    lemma_untouched_exactly(before, after, budget, min_trade_volume);
}

/// The outcome of a distribution over a ready tree is a ready tree itself,
/// and is its own outcome under the same budget.
pub proof fn lemma_allocated_again(
    before: Seq<AssetAllocation>,
    after: Seq<AssetAllocation>,
    budget: int,
    min_trade_volume: int,
)
    requires
        tree_ready(before),
        0 <= budget <= MAX_AMOUNT,
        0 <= min_trade_volume <= MAX_AMOUNT,
        allocated(before, after, budget, min_trade_volume),
    ensures
        claims(after) == claims(before),
        tree_ready(after),
        allocated(after, after, budget, min_trade_volume),
    decreases before,
{
    assert(claims(after) =~= claims(before)) by {
        assert forall|i: int| 0 <= i < before.len() implies claims(after)[i] == claims(
            before,
        )[i] by {
            lemma_allocated_asset(before, after, budget, min_trade_volume, i);
        }
    }
    assert forall|i: int| 0 <= i < after.len() implies value_valid(#[trigger] after[i])
        && crate::portfolio::asset_allocation::weight_valid(after[i]) && asset_restricted(
        after[i],
    ) && crate::portfolio::tree::asset_allocated(after[i], after[i], min_trade_volume) by {
        lemma_allocated_asset(before, after, budget, min_trade_volume, i);
        assert(value_valid(before[i]));
        assert(crate::portfolio::asset_allocation::weight_valid(before[i]));
        assert(asset_restricted(before[i]));
        assert(crate::portfolio::tree::asset_allocated(before[i], after[i], min_trade_volume));
        if before[i].holding is Group {
            lemma_allocated_again(
                before[i].children(),
                after[i].children(),
                after[i].target_value as int,
                min_trade_volume,
            );
        }
    }
}

/// The outcome of a distribution over a ready tree leaves every target at
/// the current value exactly when the outcome is steady.
pub proof fn lemma_outcome_untouched(
    before: Seq<AssetAllocation>,
    after: Seq<AssetAllocation>,
    budget: int,
    min_trade_volume: int,
)
    requires
        tree_ready(before),
        0 <= budget <= MAX_AMOUNT,
        0 <= min_trade_volume <= MAX_AMOUNT,
        allocated(before, after, budget, min_trade_volume),
    ensures
        untouched(after) <==> steady(after, budget, min_trade_volume),
{
    lemma_allocated_again(before, after, budget, min_trade_volume);
    lemma_untouched_exactly(after, after, budget, min_trade_volume);
}

} // verus!
