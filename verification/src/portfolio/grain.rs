//! Amounts as whole multiples of a unit, so that hundredths of them are
//! whole amounts.

use vstd::prelude::*;
use crate::portfolio::asset_allocation::{
    caps, claims, floors, shares, total_cap, AssetAllocation, Claim, Holding, Share, UNIT,
};
use crate::portfolio::distribution::{
    adjusted, distributed, free_all, grown, nearest, pressed, proportional, reach,
    redistributed, settled, settled_all, settled_balance, spilled, traded, with_target,
    worth_trading, Sweep,
};
use crate::portfolio::laws::lemma_allocated_asset;
use crate::portfolio::placement::lemma_nearest;
use crate::portfolio::sums::total;
use crate::portfolio::tree::{
    allocated, asset_limited, asset_restricted, limited, restricted, tree_ready,
};
use crate::portfolio::asset_allocation::{targets, MAX_AMOUNT};

verus! {

/// `x` is a whole multiple of `unit`.
pub open spec fn multiple(x: int, unit: int) -> bool {
    x % unit == 0
}

/// The sum and the difference of multiples are multiples.
pub proof fn lemma_multiple_sum(a: int, b: int, unit: int)
    requires
        unit > 0,
        multiple(a, unit),
        multiple(b, unit),
    ensures
        multiple(a + b, unit),
        multiple(a - b, unit),
{
    vstd::arithmetic::div_mod::lemma_fundamental_div_mod(a, unit);
    vstd::arithmetic::div_mod::lemma_fundamental_div_mod(b, unit);
    let ka = a / unit;
    let kb = b / unit;
    assert(a + b == (ka + kb) * unit) by (nonlinear_arith)
        requires
            a == unit * ka,
            b == unit * kb,
    ;
    assert(a - b == (ka - kb) * unit) by (nonlinear_arith)
        requires
            a == unit * ka,
            b == unit * kb,
    ;
    vstd::arithmetic::div_mod::lemma_mod_multiples_basic(ka + kb, unit);
    vstd::arithmetic::div_mod::lemma_mod_multiples_basic(ka - kb, unit);
}

/// A multiple of a hundred units has whole hundredths, each a multiple of
/// the unit.
pub proof fn lemma_hundredths(x: int, weight: int, unit: int)
    requires
        unit > 0,
        multiple(x, 100 * unit),
    ensures
        100 * (x * weight / 100) == x * weight,
        multiple(x * weight / 100, unit),
        multiple(x, unit),
{
    vstd::arithmetic::div_mod::lemma_fundamental_div_mod(x, 100 * unit);
    let k = x / (100 * unit);
    assert(x * weight == 100 * (k * weight * unit)) by (nonlinear_arith)
        requires
            x == (100 * unit) * k,
    ;
    assert(x == (100 * k) * unit) by (nonlinear_arith)
        requires
            x == (100 * unit) * k,
    ;
    vstd::arithmetic::div_mod::lemma_mod_multiples_basic(k * weight, unit);
    vstd::arithmetic::div_mod::lemma_mod_multiples_basic(100 * k, unit);
}

/// A multiple of a multiple of a unit is a multiple of the unit.
pub proof fn lemma_multiple_of_multiple(x: int, coarse: int, unit: int)
    requires
        unit > 0,
        coarse > 0,
        multiple(x, coarse),
        multiple(coarse, unit),
    ensures
        multiple(x, unit),
{
    vstd::arithmetic::div_mod::lemma_fundamental_div_mod(x, coarse);
    vstd::arithmetic::div_mod::lemma_fundamental_div_mod(coarse, unit);
    let k = x / coarse;
    let m = coarse / unit;
    assert(x == (k * m) * unit) by (nonlinear_arith)
        requires
            x == coarse * k,
            coarse == unit * m,
    ;
    vstd::arithmetic::div_mod::lemma_mod_multiples_basic(k * m, unit);
}

/// Every share is a multiple of the unit.
pub open spec fn aligned(shares: Seq<Share>, unit: int) -> bool {
    forall|i: int| 0 <= i < shares.len() ==> multiple((#[trigger] shares[i]).target, unit)
}

/// The current value and the limits of every claim are multiples of the
/// unit.
pub open spec fn claims_aligned(claims: Seq<Claim>, unit: int) -> bool {
    forall|i: int|
        0 <= i < claims.len() ==> {
            &&& multiple((#[trigger] claims[i]).current, unit)
            &&& multiple(claims[i].min, unit)
            &&& claims[i].max is Some ==> multiple(claims[i].max->0, unit)
        }
}

/// The budget has whole hundredths for every weight, so that every
/// proportional part is exact.
pub open spec fn parts_whole(claims: Seq<Claim>, budget: int) -> bool {
    forall|i: int|
        0 <= i < claims.len() ==> 100 * proportional(#[trigger] claims[i], budget) == budget
            * claims[i].weight
}

/// Multiples add up to a multiple.
pub proof fn lemma_total_multiple(s: Seq<int>, unit: int)
    requires
        unit > 0,
        forall|i: int| 0 <= i < s.len() ==> multiple(#[trigger] s[i], unit),
    ensures
        multiple(total(s), unit),
    decreases s.len(),
{
    if s.len() > 0 {
        assert forall|i: int| 0 <= i < s.drop_last().len() implies multiple(
            #[trigger] s.drop_last()[i],
            unit,
        ) by {
            assert(s.drop_last()[i] == s[i]);
        }
        lemma_total_multiple(s.drop_last(), unit);
        assert(multiple(s[s.len() - 1], unit));
        lemma_multiple_sum(total(s.drop_last()), s.last(), unit);
    } else {
        vstd::arithmetic::div_mod::lemma_small_mod(0, unit as nat);
    }
}

/// What is settled for a claim is exact and a multiple of the unit.
pub proof fn lemma_settled_grain(claim: Claim, budget: int, min_trade_volume: int, unit: int)
    requires
        unit > 0,
        multiple(budget, 100 * unit),
        multiple(claim.current, unit),
        multiple(claim.min, unit),
        claim.max is Some ==> multiple(claim.max->0, unit),
    ensures
        100 * proportional(claim, budget) == budget * claim.weight,
        multiple(settled(claim, budget, min_trade_volume).target, unit),
{
    lemma_hundredths(budget, claim.weight, unit);
}

/// What the balance moves a share to is a multiple of the unit.
pub proof fn lemma_moved_grain(
    claim: Claim,
    target: int,
    balance: int,
    min_trade_volume: int,
    unit: int,
)
    requires
        unit > 0,
        multiple(target, unit),
        multiple(balance, unit),
        multiple(min_trade_volume, unit),
        multiple(claim.current, unit),
        multiple(claim.min, unit),
        claim.max is Some ==> multiple(claim.max->0, unit),
    ensures
        multiple(reach(claim, target, balance), unit),
        multiple(adjusted(claim, target, balance, min_trade_volume), unit),
        multiple(balance - (reach(claim, target, balance) - target), unit),
        multiple(balance - (adjusted(claim, target, balance, min_trade_volume) - target), unit),
{
    lemma_multiple_sum(target, balance, unit);
    lemma_multiple_sum(claim.current, min_trade_volume, unit);
    let pressed = reach(claim, target, balance);
    let moved = adjusted(claim, target, balance, min_trade_volume);
    lemma_multiple_sum(pressed, target, unit);
    lemma_multiple_sum(moved, target, unit);
    lemma_multiple_sum(balance, pressed - target, unit);
    lemma_multiple_sum(balance, moved - target, unit);
}

/// Handing out the balance keeps shares and balance multiples of the unit.
pub proof fn lemma_redistributed_grain(
    claims: Seq<Claim>,
    shares: Seq<Share>,
    waiting: Seq<bool>,
    balance: int,
    min_trade_volume: int,
    unit: int,
    rounds: nat,
)
    requires
        unit > 0,
        shares.len() == claims.len(),
        waiting.len() == claims.len(),
        claims_aligned(claims, unit),
        aligned(shares, unit),
        multiple(balance, unit),
        multiple(min_trade_volume, unit),
    ensures
        redistributed(claims, shares, waiting, balance, min_trade_volume, rounds).0.len()
            == claims.len(),
        aligned(redistributed(claims, shares, waiting, balance, min_trade_volume, rounds).0, unit),
        multiple(redistributed(claims, shares, waiting, balance, min_trade_volume, rounds).1, unit),
    decreases rounds,
{
    let n = claims.len() as int;
    let pick = nearest(claims, shares, waiting, n);
    lemma_nearest(claims, shares, waiting, n);
    if rounds == 0 || !worth_trading(balance, min_trade_volume) || pick < 0 {
    } else {
        let target = adjusted(claims[pick], shares[pick].target, balance, min_trade_volume);
        assert(multiple(claims[pick].current, unit));
        assert(multiple(shares[pick].target, unit));
        lemma_moved_grain(claims[pick], shares[pick].target, balance, min_trade_volume, unit);
        let moved = with_target(shares, pick, target);
        assert forall|i: int| 0 <= i < moved.len() implies multiple(
            (#[trigger] moved[i]).target,
            unit,
        ) by {
            if i != pick {
                assert(moved[i] == shares[i]);
            }
        }
        lemma_redistributed_grain(
            claims,
            moved,
            waiting.update(pick, false),
            balance - (target - shares[pick].target),
            min_trade_volume,
            unit,
            (rounds - 1) as nat,
        );
    }
}

/// Pressing the balance into assets keeps shares and balance multiples of
/// the unit.
pub proof fn lemma_spilled_grain(
    claims: Seq<Claim>,
    shares: Seq<Share>,
    balance: int,
    sweep: Sweep,
    unit: int,
    k: int,
)
    requires
        unit > 0,
        shares.len() == claims.len(),
        0 <= k <= claims.len(),
        claims_aligned(claims, unit),
        aligned(shares, unit),
        multiple(balance, unit),
    ensures
        spilled(claims, shares, balance, sweep, k).0.len() == claims.len(),
        aligned(spilled(claims, shares, balance, sweep, k).0, unit),
        multiple(spilled(claims, shares, balance, sweep, k).1, unit),
    decreases k,
{
    if k > 0 {
        lemma_spilled_grain(claims, shares, balance, sweep, unit, k - 1);
        let (before, left) = spilled(claims, shares, balance, sweep, k - 1);
        assert(multiple(claims[k - 1].current, unit));
        assert(multiple(before[k - 1].target, unit));
        assert(multiple(0, unit));
        lemma_moved_grain(claims[k - 1], before[k - 1].target, left, 0, unit);
        let after = spilled(claims, shares, balance, sweep, k);
        assert forall|i: int| 0 <= i < after.0.len() implies multiple(
            (#[trigger] after.0[i]).target,
            unit,
        ) by {
            if i != k - 1 {
                assert(after.0[i] == before[i]);
            }
        }
    }
}

/// Where the budget is a multiple of a hundred units and the claims and the
/// minimum trade volume are multiples of the unit, every proportional part
/// is exact, and every share of the distribution and what it leaves over
/// are multiples of the unit.
pub proof fn lemma_distributed_grain(
    claims: Seq<Claim>,
    budget: int,
    min_trade_volume: int,
    unit: int,
)
    requires
        unit > 0,
        multiple(budget, 100 * unit),
        claims_aligned(claims, unit),
        multiple(min_trade_volume, unit),
    ensures
        parts_whole(claims, budget),
        distributed(claims, budget, min_trade_volume).0.len() == claims.len(),
        aligned(distributed(claims, budget, min_trade_volume).0, unit),
        multiple(distributed(claims, budget, min_trade_volume).1, unit),
{
    let n = claims.len() as int;
    let start = settled_all(claims, budget, min_trade_volume);
    assert forall|i: int| 0 <= i < claims.len() implies 100 * proportional(
        #[trigger] claims[i],
        budget,
    ) == budget * claims[i].weight && multiple(start[i].target, unit) by {
        assert(multiple(claims[i].current, unit));
        lemma_settled_grain(claims[i], budget, min_trade_volume, unit);
    }
    assert forall|i: int| 0 <= i < start.len() implies multiple(
        (#[trigger] start[i]).target,
        unit,
    ) by {
        assert(multiple(claims[i].current, unit));
        lemma_settled_grain(claims[i], budget, min_trade_volume, unit);
    }
    lemma_hundredths(budget, 0, unit);
    assert forall|i: int| 0 <= i < targets(start).len() implies multiple(
        #[trigger] targets(start)[i],
        unit,
    ) by {
        assert(multiple(start[i].target, unit));
    }
    lemma_total_multiple(targets(start), unit);
    lemma_multiple_sum(budget, total(targets(start)), unit);
    let balance = settled_balance(claims, budget, min_trade_volume);
    lemma_redistributed_grain(
        claims,
        start,
        free_all(claims, budget, min_trade_volume),
        balance,
        min_trade_volume,
        unit,
        claims.len(),
    );
    let (handed, unhanded) = traded(claims, budget, min_trade_volume);
    lemma_spilled_grain(claims, handed, unhanded, Sweep::Growing, unit, n);
    let (enlarged, unplaced) = grown(claims, budget, min_trade_volume);
    lemma_spilled_grain(claims, enlarged, unplaced, Sweep::Trading, unit, n);
    let (held, left) = pressed(claims, budget, min_trade_volume);
    lemma_spilled_grain(claims, held, left, Sweep::Any, unit, n);
}

/// The current value of every node is a multiple of the grain.
pub open spec fn values_grained(assets: Seq<AssetAllocation>, grain: int) -> bool
    decreases assets, 1int,
{
    forall|i: int| 0 <= i < assets.len() ==> value_grained(#[trigger] assets[i], grain)
}

pub open spec fn value_grained(asset: AssetAllocation, grain: int) -> bool
    decreases asset, 0int,
{
    &&& multiple(asset.current_value as int, grain)
    &&& match asset.holding {
        Holding::Group(children) => values_grained(children@, grain),
        Holding::Stock(_) => true,
    }
}

/// The tree is shallow enough for the unit: the children of every group
/// can be given budgets in a hundredth of the unit, which has whole
/// hundredths itself.
pub open spec fn shallow(assets: Seq<AssetAllocation>, unit: int) -> bool
    decreases assets, 1int,
{
    forall|i: int| 0 <= i < assets.len() ==> node_shallow(#[trigger] assets[i], unit)
}

pub open spec fn node_shallow(asset: AssetAllocation, unit: int) -> bool
    decreases asset, 0int,
{
    match asset.holding {
        Holding::Group(children) => {
            &&& unit / 100 >= 100
            &&& multiple(unit / 100, 100)
            &&& shallow(children@, unit / 100)
        },
        Holding::Stock(_) => true,
    }
}

/// The budget can be distributed over the tree in exact shares: it is a
/// multiple of `unit`, which has whole hundredths and divides the unit of
/// all amounts; the tree is shallow enough for it; and the current values
/// and the minimum trade volume are multiples of the unit of all amounts.
pub open spec fn exact_fit(
    assets: Seq<AssetAllocation>,
    budget: int,
    min_trade_volume: int,
    unit: int,
) -> bool {
    &&& unit >= 100
    &&& multiple(unit, 100)
    &&& multiple(UNIT as int, unit)
    &&& multiple(budget, unit)
    &&& multiple(min_trade_volume, UNIT as int)
    &&& shallow(assets, unit)
    &&& values_grained(assets, UNIT as int)
}

/// The budget can be distributed over the tree in exact shares.
pub open spec fn exact_ready(
    assets: Seq<AssetAllocation>,
    budget: int,
    min_trade_volume: int,
) -> bool {
    exists|unit: int| exact_fit(assets, budget, min_trade_volume, unit)
}

/// On every level of the tree every proportional part is exactly what the
/// weight asks of the budget: a hundred times the part is the budget times
/// the weight in percent.
pub open spec fn shares_exact(assets: Seq<AssetAllocation>, budget: int) -> bool
    decreases assets, 1int,
{
    &&& parts_whole(claims(assets), budget)
    &&& forall|i: int| 0 <= i < assets.len() ==> children_exact(#[trigger] assets[i])
}

pub open spec fn children_exact(asset: AssetAllocation) -> bool
    decreases asset, 0int,
{
    match asset.holding {
        Holding::Group(children) => shares_exact(children@, asset.target_value as int),
        Holding::Stock(_) => true,
    }
}

/// With limits set from the restrictions, the limits are multiples of the
/// grain where the current values are.
pub proof fn lemma_restricted_grained(assets: Seq<AssetAllocation>, grain: int)
    requires
        grain > 0,
        restricted(assets),
        values_grained(assets, grain),
    ensures
        claims_aligned(claims(assets), grain),
    decreases assets,
{
    let cs = claims(assets);
    vstd::arithmetic::div_mod::lemma_small_mod(0, grain as nat);
    assert forall|i: int| 0 <= i < cs.len() implies {
        &&& multiple((#[trigger] cs[i]).current, grain)
        &&& multiple(cs[i].min, grain)
        &&& cs[i].max is Some ==> multiple(cs[i].max->0, grain)
    } by {
        assert(value_grained(assets[i], grain));
        assert(asset_restricted(assets[i]));
        match assets[i].holding {
            Holding::Group(children) => {
                lemma_restricted_grained(children@, grain);
                let below = claims(children@);
                assert forall|j: int| 0 <= j < floors(below).len() implies multiple(
                    #[trigger] floors(below)[j],
                    grain,
                ) by {
                    assert(multiple(below[j].min, grain));
                }
                lemma_total_multiple(floors(below), grain);
                if total_cap(below) is Some {
                    assert forall|j: int| 0 <= j < caps(below).len() implies multiple(
                        #[trigger] caps(below)[j],
                        grain,
                    ) by {
                        assert(below[j].max is Some);
                        assert(multiple(below[j].max->0, grain));
                    }
                    lemma_total_multiple(caps(below), grain);
                }
            },
            Holding::Stock(_) => {},
        }
    }
}

/// What a fitting budget means for one level of a ready tree: its parts
/// are exact, its shares are multiples of a hundredth of the unit, and the
/// share of every group fits the group's children in turn.
pub proof fn lemma_level_exact(
    assets: Seq<AssetAllocation>,
    budget: int,
    min_trade_volume: int,
    unit: int,
)
    requires
        restricted(assets),
        exact_fit(assets, budget, min_trade_volume, unit),
    ensures
        parts_whole(claims(assets), budget),
        distributed(claims(assets), budget, min_trade_volume).0.len() == assets.len(),
        aligned(distributed(claims(assets), budget, min_trade_volume).0, unit / 100),
        forall|i: int, part: int|
            0 <= i < assets.len() && multiple(part, unit / 100) ==> (
            #[trigger] assets[i]).holding is Group ==> #[trigger] exact_fit(
                assets[i].children(),
                part,
                min_trade_volume,
                unit / 100,
            ),
{
    let fine = unit / 100;
    let cs = claims(assets);
    assert(unit == 100 * fine);
    vstd::arithmetic::div_mod::lemma_mod_multiples_basic(100, fine);
    assert(multiple(unit, fine));
    lemma_multiple_of_multiple(UNIT as int, unit, fine);
    lemma_multiple_of_multiple(min_trade_volume, UNIT as int, fine);
    lemma_restricted_grained(assets, UNIT as int);
    assert forall|i: int| 0 <= i < cs.len() implies {
        &&& multiple((#[trigger] cs[i]).current, fine)
        &&& multiple(cs[i].min, fine)
        &&& cs[i].max is Some ==> multiple(cs[i].max->0, fine)
    } by {
        lemma_multiple_of_multiple(cs[i].current, UNIT as int, fine);
        lemma_multiple_of_multiple(cs[i].min, UNIT as int, fine);
        if cs[i].max is Some {
            lemma_multiple_of_multiple(cs[i].max->0, UNIT as int, fine);
        }
    }
    lemma_distributed_grain(cs, budget, min_trade_volume, fine);
    assert forall|i: int, part: int|
        0 <= i < assets.len() && multiple(part, unit / 100) && (
        #[trigger] assets[i]).holding is Group implies #[trigger] exact_fit(
        assets[i].children(),
        part,
        min_trade_volume,
        unit / 100,
    ) by {
        assert(node_shallow(assets[i], unit));
        assert(value_grained(assets[i], UNIT as int));
    }
}

/// Exact shares: a distribution of a fitting budget over a ready tree gives
/// on every level exactly what the weights ask of the level's budget.
pub proof fn lemma_allocation_exact(
    before: Seq<AssetAllocation>,
    after: Seq<AssetAllocation>,
    budget: int,
    min_trade_volume: int,
    unit: int,
)
    requires
        tree_ready(before),
        0 <= budget <= MAX_AMOUNT,
        0 <= min_trade_volume <= MAX_AMOUNT,
        exact_fit(before, budget, min_trade_volume, unit),
        allocated(before, after, budget, min_trade_volume),
    ensures
        shares_exact(after, budget),
    decreases before,
{
    lemma_level_exact(before, budget, min_trade_volume, unit);
    let given = distributed(claims(before), budget, min_trade_volume).0;
    assert(claims(after) =~= claims(before)) by {
        assert forall|i: int| 0 <= i < before.len() implies claims(after)[i] == claims(
            before,
        )[i] by {
            lemma_allocated_asset(before, after, budget, min_trade_volume, i);
        }
    }
    assert forall|i: int| 0 <= i < after.len() implies children_exact(#[trigger] after[i]) by {
        lemma_allocated_asset(before, after, budget, min_trade_volume, i);
        if before[i].holding is Group {
            let part = after[i].target_value as int;
            assert(multiple(given[i].target, unit / 100));
            assert(exact_fit(before[i].children(), part, min_trade_volume, unit / 100));
            lemma_allocation_exact(
                before[i].children(),
                after[i].children(),
                part,
                min_trade_volume,
                unit / 100,
            );
        }
    }
}

/// Setting the limits changes neither the grain of the values nor the
/// depth of the tree.
pub proof fn lemma_limited_fit(
    before: Seq<AssetAllocation>,
    after: Seq<AssetAllocation>,
    grain: int,
    unit: int,
)
    requires
        limited(before, after),
    ensures
        values_grained(before, grain) ==> values_grained(after, grain),
        shallow(before, unit) ==> shallow(after, unit),
    decreases before,
{
    assert forall|i: int| 0 <= i < after.len() implies (value_grained(before[i], grain)
        ==> value_grained(#[trigger] after[i], grain)) && (node_shallow(before[i], unit)
        ==> node_shallow(after[i], unit)) by {
        assert(asset_limited(before[i], after[i]));
        match (before[i].holding, after[i].holding) {
            (Holding::Group(old_children), Holding::Group(children)) => {
                lemma_limited_fit(old_children@, children@, grain, unit / 100);
            },
            _ => {},
        }
    }
    if values_grained(before, grain) {
        assert forall|i: int| 0 <= i < after.len() implies value_grained(
            #[trigger] after[i],
            grain,
        ) by {
            assert(value_grained(before[i], grain));
        }
    }
    if shallow(before, unit) {
        assert forall|i: int| 0 <= i < after.len() implies node_shallow(
            #[trigger] after[i],
            unit,
        ) by {
            assert(node_shallow(before[i], unit));
        }
    }
}

} // verus!
