//! Distributes a budget among the assets of one level of the tree.

use vstd::prelude::*;
use crate::portfolio::asset_allocation::{claims, shares, targets, AssetAllocation, MAX_AMOUNT};
use crate::portfolio::distribution::{
    adjusted, distributed, free_all, gap, grown, is_free, magnitude, nearest, reach,
    redistributed,
    settled, settled_all, settled_balance, spilled, traded, with_target, worth_trading, Sweep,
};
use crate::portfolio::grain::parts_whole;
use crate::portfolio::placement::{
    lemma_adjusted, lemma_move, lemma_reach, lemma_ready_currents, lemma_settled_all,
    lemma_settled_bounds, lemma_settled_prefix, lemma_spilled, level_ready, placement_ok,
    waiting_tradable, within,
};
use crate::portfolio::sums::{lemma_total_take, total};

verus! {

/// The distance between two amounts.
fn distance(a: i64, b: i64) -> (d: i64)
    requires
        -MAX_AMOUNT <= a <= MAX_AMOUNT,
        -MAX_AMOUNT <= b <= MAX_AMOUNT,
    ensures
        d == magnitude(a - b),
{
    if a < b {
        b - a
    } else {
        a - b
    }
}

/// Whether a change of value is worth trading.
fn is_tradable(difference: i64, min_trade_volume: i64) -> (r: bool)
    requires
        -4 * MAX_AMOUNT <= difference <= 4 * MAX_AMOUNT,
    ensures
        r == crate::portfolio::distribution::tradable(difference as int, min_trade_volume as int),
{
    if difference == 0 {
        true
    } else if difference < 0 {
        -difference >= min_trade_volume
    } else {
        difference >= min_trade_volume
    }
}

/// Gives the asset its share before any balance is handed out: the
/// proportional part of the budget, cut to the upper and then to the lower
/// limit, or the current value where the trade would be too small. Returns
/// whether the asset is free to take part of the balance.
fn settle(asset: &mut AssetAllocation, budget: i64, min_trade_volume: i64) -> (free: bool)
    requires
        old(asset).claim().consistent(),
        old(asset).expected_weight <= 100,
        old(asset).current_value <= MAX_AMOUNT,
        0 <= budget <= MAX_AMOUNT,
        0 <= min_trade_volume,
    ensures
        final(asset).share() == settled(
            old(asset).claim(),
            budget as int,
            min_trade_volume as int,
        ),
        free == is_free(old(asset).claim(), budget as int, min_trade_volume as int),
        final(asset).same_claim_as(*old(asset)),
        final(asset).holding == old(asset).holding,
{
    proof {
        lemma_settled_bounds(asset.claim(), budget as int, min_trade_volume as int);
        crate::portfolio::placement::lemma_proportional_bounds(asset.claim(), budget as int);
        assert(0 <= budget * asset.expected_weight <= 100 * MAX_AMOUNT) by (nonlinear_arith)
            requires
                0 <= budget <= MAX_AMOUNT,
                0 <= asset.expected_weight <= 100,
        ;
    }
    let weight: i64 = asset.expected_weight as i64;
    let asked: i64 = budget * weight;
    let mut target: i64 = asked / 100;
    let mut buy_blocked = false;
    match asset.max_value {
        Some(max_value) => {
            if asked as i128 > 100 * (max_value as i128) {
                target = max_value;
                buy_blocked = true;
            }
        },
        None => {},
    }
    let mut sell_blocked = false;
    if target < asset.min_value {
        target = asset.min_value;
        sell_blocked = true;
    }
    let blocked = buy_blocked || sell_blocked;
    let worth = is_tradable(target - asset.current_value, min_trade_volume);
    if !blocked && !worth {
        target = asset.current_value;
    }
    asset.target_value = target;
    asset.buy_blocked = buy_blocked;
    asset.sell_blocked = sell_blocked;
    !blocked && worth
}

/// Finds the waiting asset whose target is nearest to its current value,
/// the earliest of the nearest.
fn nearest_waiting(assets: &Vec<AssetAllocation>, waiting: &Vec<bool>) -> (pick: Option<usize>)
    requires
        waiting@.len() == assets@.len(),
        forall|j: int|
            0 <= j < assets@.len() ==> 0 <= (#[trigger] assets@[j]).current_value <= MAX_AMOUNT
                && 0 <= assets@[j].target_value <= MAX_AMOUNT,
    ensures
        match pick {
            Some(i) => i == nearest(
                claims(assets@),
                shares(assets@),
                waiting@,
                assets@.len() as int,
            ),
            None => nearest(claims(assets@), shares(assets@), waiting@, assets@.len() as int) < 0,
        },
{
    let n: usize = assets.len();
    let mut pick: Option<usize> = None;
    let mut best: i64 = 0;
    let mut j: usize = 0;
    while j < n
        invariant
            j <= n,
            n == assets@.len(),
            waiting@.len() == n,
            forall|j: int|
                0 <= j < assets@.len() ==> 0 <= (#[trigger] assets@[j]).current_value
                    <= MAX_AMOUNT && 0 <= assets@[j].target_value <= MAX_AMOUNT,
            match pick {
                Some(i) => i < j && i == nearest(
                    claims(assets@),
                    shares(assets@),
                    waiting@,
                    j as int,
                ) && best == gap(claims(assets@)[i as int], shares(assets@)[i as int]),
                None => nearest(claims(assets@), shares(assets@), waiting@, j as int) < 0,
            },
        decreases n - j,
    {
        if waiting[j] {
            let d = distance(assets[j].target_value, assets[j].current_value);
            let nearer = match pick {
                Some(_) => d < best,
                None => true,
            };
            if nearer {
                pick = Some(j);
                best = d;
            }
        }
        j += 1;
    }
    pick
}

/// The new target of a free asset that takes what it can of the balance in
/// a tradable amount.
fn adjust(asset: &AssetAllocation, balance: i64, min_trade_volume: i64) -> (target: i64)
    requires
        0 <= asset.current_value <= MAX_AMOUNT,
        0 <= asset.min_value <= asset.target_value <= MAX_AMOUNT,
        asset.max_value is Some ==> asset.target_value <= asset.max_value->0,
        -2 * MAX_AMOUNT <= balance <= 2 * MAX_AMOUNT,
        0 <= min_trade_volume <= MAX_AMOUNT,
    ensures
        target == adjusted(
            asset.claim(),
            asset.target_value as int,
            balance as int,
            min_trade_volume as int,
        ),
{
    let limit = press(asset, balance);
    if is_tradable(limit - asset.current_value, min_trade_volume) {
        limit
    } else if balance > 0 {
        if limit > asset.current_value {
            asset.current_value
        } else {
            asset.current_value - min_trade_volume
        }
    } else {
        if limit < asset.current_value {
            asset.current_value
        } else {
            asset.current_value + min_trade_volume
        }
    }
}

/// How far the balance can move the asset's target within its limits.
fn press(asset: &AssetAllocation, balance: i64) -> (target: i64)
    requires
        0 <= asset.min_value <= asset.target_value <= MAX_AMOUNT,
        asset.max_value is Some ==> asset.target_value <= asset.max_value->0,
        -2 * MAX_AMOUNT <= balance <= 2 * MAX_AMOUNT,
    ensures
        target == reach(asset.claim(), asset.target_value as int, balance as int),
        0 <= target <= 3 * MAX_AMOUNT,
{
    let wanted = asset.target_value + balance;
    if balance > 0 {
        match asset.max_value {
            Some(max_value) => {
                if wanted > max_value {
                    max_value
                } else {
                    wanted
                }
            },
            None => wanted,
        }
    } else if wanted < asset.min_value {
        asset.min_value
    } else {
        wanted
    }
}

/// The claims and holdings are those of `before`; only shares may differ.
pub open spec fn same_claims(before: Seq<AssetAllocation>, after: Seq<AssetAllocation>) -> bool {
    &&& after.len() == before.len()
    &&& forall|j: int|
        0 <= j < before.len() ==> (#[trigger] after[j]).same_claim_as(before[j])
            && after[j].holding == before[j].holding
}

/// Distributes the budget among the assets and returns what none of them
/// could take. The budget has to have whole hundredths for every weight.
/// Every asset first gets its proportional part, cut to its limits, with a trade below the minimum trade volume dropped. The balance
/// that this leaves goes in tradable amounts to the assets still free to
/// move, nearest to their current value first. What remains is pressed into
/// the room that the limits leave, in the order of the assets: first into
/// the trades that it enlarges, then into the assets that trade at all, and
/// at last into those that were to stay at their current value.
pub fn distribute(assets: &mut Vec<AssetAllocation>, budget: i64, min_trade_volume: i64) -> (residual:
    i64)
    requires
        level_ready(claims(old(assets)@), budget as int, min_trade_volume as int),
        parts_whole(claims(old(assets)@), budget as int),
    ensures
        same_claims(old(assets)@, final(assets)@),
        shares(final(assets)@) == distributed(
            claims(old(assets)@),
            budget as int,
            min_trade_volume as int,
        ).0,
        residual == distributed(claims(old(assets)@), budget as int, min_trade_volume as int).1,
{
    let n: usize = assets.len();
    let ghost asked = claims(old(assets)@);
    let ghost volume = min_trade_volume as int;
    proof {
        lemma_ready_currents(asked, budget as int, volume);
    }
    let mut waiting: Vec<bool> = Vec::new();
    let mut placed: i64 = 0;
    let mut i: usize = 0;
    while i < n
        invariant
            i <= n,
            assets@.len() == n,
            old(assets)@.len() == n,
            asked == claims(old(assets)@),
            volume == min_trade_volume as int,
            level_ready(asked, budget as int, volume),
            forall|j: int| 0 <= j < n ==> 0 <= (#[trigger] asked[j]).current <= MAX_AMOUNT,
            same_claims(old(assets)@, assets@),
            forall|j: int|
                0 <= j < i ==> (#[trigger] assets@[j]).share() == settled(
                    asked[j],
                    budget as int,
                    volume,
                ),
            forall|j: int| i <= j < n ==> (#[trigger] assets@[j]) == old(assets)@[j],
            waiting@.len() == i,
            forall|j: int|
                0 <= j < i ==> (#[trigger] waiting@[j]) == is_free(asked[j], budget as int, volume),
            placed == total(targets(settled_all(asked, budget as int, volume)).take(i as int)),
            0 <= placed <= budget + MAX_AMOUNT,
        decreases n - i,
    {
        proof {
            assert(asked[i as int] == assets@[i as int].claim());
            assert(asked[i as int].consistent());
            assert(asked[i as int].weight <= 100);
            lemma_settled_prefix(asked, budget as int, volume, i as int + 1);
            lemma_total_take(targets(settled_all(asked, budget as int, volume)), i as int);
            lemma_settled_bounds(asked[i as int], budget as int, volume);
        }
        let free = settle(&mut assets[i], budget, min_trade_volume);
        waiting.push(free);
        placed = placed + assets[i].target_value;
        i += 1;
    }
    let mut balance: i64 = budget - placed;
    let ghost start = settled_all(asked, budget as int, volume);
    proof {
        assert(claims(assets@) =~= asked);
        assert(shares(assets@) =~= start);
        assert(waiting@ =~= free_all(asked, budget as int, volume));
        assert(targets(start).take(n as int) =~= targets(start));
        assert(balance == settled_balance(asked, budget as int, volume));
        lemma_settled_all(asked, budget as int, volume, MAX_AMOUNT as int);
    }
    let mut round: usize = 0;
    let mut done = false;
    while round < n && !done
        invariant
            round <= n,
            assets@.len() == n,
            old(assets)@.len() == n,
            asked == claims(old(assets)@),
            volume == min_trade_volume as int,
            level_ready(asked, budget as int, volume),
            forall|j: int| 0 <= j < n ==> 0 <= (#[trigger] asked[j]).current <= MAX_AMOUNT,
            same_claims(old(assets)@, assets@),
            placement_ok(asked, shares(assets@), balance as int, budget as int),
            within(shares(assets@), MAX_AMOUNT as int),
            waiting_tradable(asked, shares(assets@), waiting@, volume),
            -2 * MAX_AMOUNT <= balance <= 2 * MAX_AMOUNT,
            redistributed(
                asked,
                shares(assets@),
                waiting@,
                balance as int,
                volume,
                (n - round) as nat,
            ) == traded(asked, budget as int, volume),
            done ==> !worth_trading(balance as int, volume) || nearest(
                asked,
                shares(assets@),
                waiting@,
                n as int,
            ) < 0,
        decreases n - round, (if done { 0int } else { 1int }),
    {
        proof {
            assert(claims(assets@) =~= asked);
            assert forall|j: int| 0 <= j < n implies 0 <= (#[trigger] assets@[j]).current_value
                <= MAX_AMOUNT && 0 <= assets@[j].target_value <= MAX_AMOUNT by {
                assert(asked[j].consistent());
                assert(asked[j].admits(shares(assets@)[j].target));
                assert(shares(assets@)[j].target <= MAX_AMOUNT);
            }
        }
        let trade = if balance == 0 {
            false
        } else if balance < 0 {
            -balance >= min_trade_volume
        } else {
            balance >= min_trade_volume
        };
        if !trade {
            done = true;
        } else {
            match nearest_waiting(assets, &waiting) {
                None => {
                    done = true;
                },
                Some(pick) => {
                    let ghost held = shares(assets@);
                    let ghost queue = waiting@;
                    proof {
                        crate::portfolio::placement::lemma_nearest(asked, held, queue, n as int);
                        assert(asked[pick as int].consistent());
                        assert(asked[pick as int].admits(held[pick as int].target));
                        assert(queue[pick as int]);
                        lemma_adjusted(
                            asked[pick as int],
                            held[pick as int].target,
                            balance as int,
                            volume,
                        );
                        assert forall|j: int| 0 <= j < asked.len() implies (#[trigger] asked[j]).min
                            >= 0 by {
                            assert(asked[j].consistent());
                        }
                    }
                    let was = assets[pick].target_value;
                    let target = adjust(&assets[pick], balance, min_trade_volume);
                    proof {
                        lemma_move(
                            asked,
                            held,
                            balance as int,
                            budget as int,
                            MAX_AMOUNT as int,
                            pick as int,
                            target as int,
                        );
                    }
                    assets[pick].target_value = target;
                    waiting.set(pick, false);
                    balance = balance - (target - was);
                    round += 1;
                    proof {
                        assert(shares(assets@) =~= with_target(held, pick as int, target as int));
                        assert(waiting@ =~= queue.update(pick as int, false));
                        assert forall|j: int|
                            0 <= j < asked.len() && #[trigger] waiting@[j] implies crate::portfolio::distribution::tradable(
                            shares(assets@)[j].target - asked[j].current,
                            volume,
                        ) by {
                            assert(j != pick);
                            assert(queue[j]);
                            assert(shares(assets@)[j] == held[j]);
                        }
                    }
                },
            }
        }
    }
    proof {
        assert(traded(asked, budget as int, volume) == (shares(assets@), balance as int));
        assert(claims(assets@) =~= asked);
        assert forall|j: int| 0 <= j < asked.len() implies (#[trigger] asked[j]).min >= 0 by {
            assert(asked[j].consistent());
        }
        lemma_spilled(
            asked,
            shares(assets@),
            balance as int,
            Sweep::Growing,
            budget as int,
            volume,
            MAX_AMOUNT as int,
            n as int,
        );
    }
    let ghost handed = shares(assets@);
    let ghost unhanded = balance as int;
    let balance = spill(assets, balance, Sweep::Growing, Ghost(budget as int));
    proof {
        assert(claims(assets@) =~= asked);
        assert((shares(assets@), balance as int) == grown(asked, budget as int, volume));
        lemma_spilled(
            asked,
            shares(assets@),
            balance as int,
            Sweep::Trading,
            budget as int,
            volume,
            MAX_AMOUNT as int,
            n as int,
        );
    }
    let balance = spill(assets, balance, Sweep::Trading, Ghost(budget as int));
    proof {
        assert(claims(assets@) =~= asked);
    }
    spill(assets, balance, Sweep::Any, Ghost(budget as int))
}

/// Presses the balance into the assets one after the other, as far as the
/// limits of each allow, and returns what is left of it. It passes over the
/// assets that the sweep does not take.
fn spill(
    assets: &mut Vec<AssetAllocation>,
    balance: i64,
    sweep: Sweep,
    Ghost(budget): Ghost<int>,
) -> (left: i64)
    requires
        placement_ok(claims(old(assets)@), shares(old(assets)@), balance as int, budget),
        within(shares(old(assets)@), MAX_AMOUNT as int),
        forall|j: int|
            0 <= j < old(assets)@.len() ==> 0 <= (#[trigger] claims(old(assets)@)[j]).min
                && 0 <= claims(old(assets)@)[j].current <= MAX_AMOUNT,
        budget <= MAX_AMOUNT,
        -2 * MAX_AMOUNT <= balance <= 2 * MAX_AMOUNT,
    ensures
        same_claims(old(assets)@, final(assets)@),
        (shares(final(assets)@), left as int) == spilled(
            claims(old(assets)@),
            shares(old(assets)@),
            balance as int,
            sweep,
            old(assets)@.len() as int,
        ),
        -2 * MAX_AMOUNT <= left <= 2 * MAX_AMOUNT,
{
    let n: usize = assets.len();
    let ghost asked = claims(old(assets)@);
    let ghost handed = shares(old(assets)@);
    let mut left: i64 = balance;
    let mut k: usize = 0;
    while k < n
        invariant
            k <= n,
            assets@.len() == n,
            old(assets)@.len() == n,
            asked == claims(old(assets)@),
            handed == shares(old(assets)@),
            forall|j: int|
                0 <= j < n ==> 0 <= (#[trigger] asked[j]).min && 0 <= asked[j].current
                    <= MAX_AMOUNT,
            same_claims(old(assets)@, assets@),
            placement_ok(asked, handed, balance as int, budget),
            within(handed, MAX_AMOUNT as int),
            budget <= MAX_AMOUNT,
            -2 * MAX_AMOUNT <= balance <= 2 * MAX_AMOUNT,
            spilled(asked, handed, balance as int, sweep, k as int) == (
                shares(assets@),
                left as int,
            ),
        decreases n - k,
    {
        proof {
            lemma_spilled(
                asked,
                handed,
                balance as int,
                sweep,
                budget,
                0,
                MAX_AMOUNT as int,
                k as int,
            );
            assert(claims(assets@) =~= asked);
            assert(asked[k as int].admits(shares(assets@)[k as int].target));
            assert(shares(assets@)[k as int].target <= MAX_AMOUNT);
            lemma_reach(asked[k as int], shares(assets@)[k as int].target, left as int);
        }
        let ghost held = shares(assets@);
        let was = assets[k].target_value;
        let takes_it = match sweep {
            Sweep::Growing => (left > 0 && was > assets[k].current_value) || (left < 0 && was
                < assets[k].current_value),
            Sweep::Trading => was != assets[k].current_value,
            Sweep::Any => true,
        };
        if takes_it {
            let target = press(&assets[k], left);
            assets[k].target_value = target;
            left = left - (target - was);
        }
        proof {
            assert(shares(assets@) =~= with_target(held, k as int, assets@[k as int].target_value as int));
        }
        k += 1;
    }
    proof {
        lemma_spilled(
            asked,
            handed,
            balance as int,
            sweep,
            budget,
            0,
            MAX_AMOUNT as int,
            n as int,
        );
    }
    left
}

} // verus!
