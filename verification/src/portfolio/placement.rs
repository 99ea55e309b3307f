//! What every stage of the distribution keeps: the shares stay within the
//! limits, and shares and balance together make up the budget.

use vstd::prelude::*;
use crate::portfolio::asset_allocation::{
    all_capped, caps, currents, floors, targets, total_cap, weights, Claim, Share, MAX_AMOUNT,
};
use crate::portfolio::distribution::{
    adjusted, clamped, distributed, free_all, gap, grown, is_free, nearest, pressed,
    proportional, reach, redistributed, takes, Sweep, settled, settled_all, settled_balance, spilled, tradable, traded,
    with_target, worth_trading,
};
use crate::portfolio::sums::{
    lemma_total_floor, lemma_total_le, lemma_total_nonnegative, lemma_total_take,
    lemma_total_update, total,
};

verus! {

/// The inputs of a distribution make sense: limits that enclose the current
/// values, weights of at most the full weight, nothing negative.
pub open spec fn level_valid(claims: Seq<Claim>, budget: int, min_trade_volume: int) -> bool {
    &&& forall|i: int| 0 <= i < claims.len() ==> (#[trigger] claims[i]).consistent()
    &&& forall|i: int| 0 <= i < claims.len() ==> (#[trigger] claims[i]).weight <= 100
    &&& 0 <= budget
    &&& 0 <= min_trade_volume
}

/// Every share is within its asset's limits, and the shares and the balance
/// add up to the budget.
pub open spec fn placement_ok(
    claims: Seq<Claim>,
    shares: Seq<Share>,
    balance: int,
    budget: int,
) -> bool {
    &&& shares.len() == claims.len()
    &&& forall|i: int|
        0 <= i < claims.len() ==> claims[i].admits((#[trigger] shares[i]).target)
    &&& balance + total(targets(shares)) == budget
}

/// No share exceeds `limit`.
pub open spec fn within(shares: Seq<Share>, limit: int) -> bool {
    forall|i: int| 0 <= i < shares.len() ==> (#[trigger] shares[i]).target <= limit
}

/// Every waiting asset has a share at a tradable distance from its current
/// value.
pub open spec fn waiting_tradable(
    claims: Seq<Claim>,
    shares: Seq<Share>,
    waiting: Seq<bool>,
    min_trade_volume: int,
) -> bool {
    &&& waiting.len() == claims.len()
    &&& forall|i: int|
        0 <= i < claims.len() && #[trigger] waiting[i] ==> tradable(
            shares[i].target - claims[i].current,
            min_trade_volume,
        )
}

/// The proportional part is between nothing and the whole budget.
pub proof fn lemma_proportional_bounds(claim: Claim, budget: int)
    requires
        0 <= claim.weight <= 100,
        0 <= budget,
    ensures
        0 <= proportional(claim, budget) <= budget,
{
    assert(0 <= budget * claim.weight <= budget * 100) by (nonlinear_arith)
        requires
            0 <= claim.weight <= 100,
            0 <= budget,
    ;
}

/// A settled share is within the limits, and no larger than the greater of
/// the budget and the current value.
pub proof fn lemma_settled_bounds(claim: Claim, budget: int, min_trade_volume: int)
    requires
        claim.consistent(),
        claim.weight <= 100,
        0 <= budget,
    ensures
        claim.admits(settled(claim, budget, min_trade_volume).target),
        claim.admits(clamped(claim, budget).target),
        settled(claim, budget, min_trade_volume).target <= budget
            || settled(claim, budget, min_trade_volume).target <= claim.current,
        settled(claim, budget, min_trade_volume).target <= proportional(claim, budget)
            + claim.current,
        is_free(claim, budget, min_trade_volume) ==> tradable(
            settled(claim, budget, min_trade_volume).target - claim.current,
            min_trade_volume,
        ),
{
    lemma_proportional_bounds(claim, budget);
}

/// Moving one share by part of the balance, towards the side the balance
/// points to and within the limits, keeps the placement sound, keeps the
/// sign of the balance, and keeps every share under the larger of the old
/// bound and the budget.
pub proof fn lemma_move(
    claims: Seq<Claim>,
    shares: Seq<Share>,
    balance: int,
    budget: int,
    limit: int,
    i: int,
    target: int,
)
    requires
        placement_ok(claims, shares, balance, budget),
        forall|j: int| 0 <= j < claims.len() ==> (#[trigger] claims[j]).min >= 0,
        within(shares, limit),
        budget <= limit,
        0 <= i < claims.len(),
        claims[i].admits(target),
        balance >= 0 ==> shares[i].target <= target <= shares[i].target + balance,
        balance <= 0 ==> shares[i].target + balance <= target <= shares[i].target,
    ensures
        placement_ok(
            claims,
            with_target(shares, i, target),
            balance - (target - shares[i].target),
            budget,
        ),
        within(with_target(shares, i, target), limit),
        balance >= 0 ==> balance - (target - shares[i].target) >= 0,
        balance <= 0 ==> balance - (target - shares[i].target) <= 0,
{
    let moved = with_target(shares, i, target);
    assert(targets(moved) =~= targets(shares).update(i, target));
    lemma_total_update(targets(shares), i, target);
    let others = targets(shares).update(i, 0);
    lemma_total_update(targets(shares), i, 0);
    assert forall|j: int| 0 <= j < others.len() implies others[j] >= 0 by {
        if j != i {
            assert(claims[j].admits(shares[j].target));
            assert(claims[j].min >= 0);
        }
    }
    lemma_total_floor(others);
    assert forall|j: int| 0 <= j < moved.len() implies (#[trigger] moved[j]).target <= limit by {
        if j != i {
            assert(moved[j] == shares[j]);
        }
    }
    assert forall|j: int| 0 <= j < claims.len() implies claims[j].admits(
        (#[trigger] moved[j]).target,
    ) by {
        if j != i {
            assert(moved[j] == shares[j]);
        }
    }
}

/// The settled shares are a sound placement, none above the limit that
/// bounds the budget and the current values, and every free asset is at a
/// tradable distance from its current value.
pub proof fn lemma_settled_all(
    claims: Seq<Claim>,
    budget: int,
    min_trade_volume: int,
    limit: int,
)
    requires
        level_valid(claims, budget, min_trade_volume),
        budget <= limit,
        forall|i: int| 0 <= i < claims.len() ==> (#[trigger] claims[i]).current <= limit,
    ensures
        placement_ok(
            claims,
            settled_all(claims, budget, min_trade_volume),
            settled_balance(claims, budget, min_trade_volume),
            budget,
        ),
        within(settled_all(claims, budget, min_trade_volume), limit),
        waiting_tradable(
            claims,
            settled_all(claims, budget, min_trade_volume),
            free_all(claims, budget, min_trade_volume),
            min_trade_volume,
        ),
{
    let shares = settled_all(claims, budget, min_trade_volume);
    assert forall|i: int| 0 <= i < claims.len() implies claims[i].admits(
        (#[trigger] shares[i]).target,
    ) && shares[i].target <= limit by {
        assert(claims[i].consistent());
        lemma_settled_bounds(claims[i], budget, min_trade_volume);
    }
    let waiting = free_all(claims, budget, min_trade_volume);
    assert forall|i: int| 0 <= i < claims.len() && #[trigger] waiting[i] implies tradable(
        shares[i].target - claims[i].current,
        min_trade_volume,
    ) by {
        assert(claims[i].consistent());
        lemma_settled_bounds(claims[i], budget, min_trade_volume);
    }
}

/// The nearest waiting asset is one of the first `k`, it waits, and no
/// waiting asset among them is nearer, nor equally near and earlier. Where
/// there is none, no asset among them waits.
pub proof fn lemma_nearest(claims: Seq<Claim>, shares: Seq<Share>, waiting: Seq<bool>, k: int)
    requires
        0 <= k <= claims.len(),
        shares.len() == claims.len(),
        waiting.len() == claims.len(),
    ensures
        -1 <= nearest(claims, shares, waiting, k) < k,
        nearest(claims, shares, waiting, k) >= 0 ==> waiting[nearest(claims, shares, waiting, k)],
        nearest(claims, shares, waiting, k) < 0 ==> forall|j: int|
            0 <= j < k ==> !#[trigger] waiting[j],
        nearest(claims, shares, waiting, k) >= 0 ==> forall|j: int|
            0 <= j < k && #[trigger] waiting[j] ==> {
                let best = nearest(claims, shares, waiting, k);
                gap(claims[best], shares[best]) < gap(claims[j], shares[j]) || (gap(
                    claims[best],
                    shares[best],
                ) == gap(claims[j], shares[j]) && best <= j)
            },
    decreases k,
{
    if k > 0 {
        lemma_nearest(claims, shares, waiting, k - 1);
    }
}

/// What a free asset takes of a balance worth trading lies between its
/// share and the share moved by the whole balance, within the limits, and
/// at a tradable distance from the current value.
pub proof fn lemma_adjusted(claim: Claim, target: int, balance: int, min_trade_volume: int)
    requires
        claim.consistent(),
        claim.admits(target),
        tradable(target - claim.current, min_trade_volume),
        0 <= min_trade_volume,
        balance != 0,
    ensures
        claim.admits(adjusted(claim, target, balance, min_trade_volume)),
        tradable(adjusted(claim, target, balance, min_trade_volume) - claim.current,
            min_trade_volume),
        balance > 0 ==> target <= adjusted(claim, target, balance, min_trade_volume) <= target
            + balance,
        balance < 0 ==> target + balance <= adjusted(claim, target, balance, min_trade_volume)
            <= target,
{
}

/// Pressing a balance into an asset moves its share towards the balance's
/// side by no more than the balance, within the limits.
pub proof fn lemma_reach(claim: Claim, target: int, balance: int)
    requires
        claim.admits(target),
    ensures
        claim.admits(reach(claim, target, balance)),
        balance >= 0 ==> target <= reach(claim, target, balance) <= target + balance,
        balance <= 0 ==> target + balance <= reach(claim, target, balance) <= target,
        balance - (reach(claim, target, balance) - target) > 0 ==> claim.max == Some(
            reach(claim, target, balance),
        ),
        balance - (reach(claim, target, balance) - target) < 0 ==> claim.min == reach(
            claim,
            target,
            balance,
        ),
{
}

/// Handing out the balance in tradable amounts keeps the placement sound
/// and the sign of the balance, changes no flag, leaves every tradable
/// distance tradable, and does nothing where there is no balance.
pub proof fn lemma_redistributed(
    claims: Seq<Claim>,
    shares: Seq<Share>,
    waiting: Seq<bool>,
    balance: int,
    budget: int,
    min_trade_volume: int,
    limit: int,
    rounds: nat,
)
    requires
        level_valid(claims, budget, min_trade_volume),
        placement_ok(claims, shares, balance, budget),
        within(shares, limit),
        budget <= limit,
        waiting_tradable(claims, shares, waiting, min_trade_volume),
    ensures
        ({
            let after = redistributed(claims, shares, waiting, balance, min_trade_volume, rounds);
            &&& placement_ok(claims, after.0, after.1, budget)
            &&& within(after.0, limit)
            &&& balance >= 0 ==> 0 <= after.1 <= balance
            &&& balance <= 0 ==> balance <= after.1 <= 0
            &&& balance == 0 ==> after.0 == shares
            &&& forall|i: int|
                0 <= i < claims.len() ==> (#[trigger] after.0[i]).buy_blocked
                    == shares[i].buy_blocked && after.0[i].sell_blocked == shares[i].sell_blocked
            &&& forall|i: int|
                0 <= i < claims.len() && tradable(
                    shares[i].target - claims[i].current,
                    min_trade_volume,
                ) ==> tradable((#[trigger] after.0[i]).target - claims[i].current, min_trade_volume)
        }),
    decreases rounds,
{
    let n = claims.len() as int;
    let pick = nearest(claims, shares, waiting, n);
    lemma_nearest(claims, shares, waiting, n);
    if rounds == 0 || !worth_trading(balance, min_trade_volume) || pick < 0 {
    } else {
        let target = adjusted(claims[pick], shares[pick].target, balance, min_trade_volume);
        assert(claims[pick].consistent());
        assert(claims[pick].admits(shares[pick].target));
        lemma_adjusted(claims[pick], shares[pick].target, balance, min_trade_volume);
        assert forall|j: int| 0 <= j < claims.len() implies (#[trigger] claims[j]).min >= 0 by {
            assert(claims[j].consistent());
        }
        lemma_move(claims, shares, balance, budget, limit, pick, target);
        let moved = with_target(shares, pick, target);
        let rest = waiting.update(pick, false);
        let left = balance - (target - shares[pick].target);
        assert forall|i: int| 0 <= i < claims.len() && #[trigger] rest[i] implies tradable(
            moved[i].target - claims[i].current,
            min_trade_volume,
        ) by {
            assert(i != pick);
            assert(waiting[i]);
        }
        lemma_redistributed(
            claims,
            moved,
            rest,
            left,
            budget,
            min_trade_volume,
            limit,
            (rounds - 1) as nat,
        );
        let after = redistributed(claims, shares, waiting, balance, min_trade_volume, rounds);
        assert forall|i: int|
            0 <= i < claims.len() && tradable(
                shares[i].target - claims[i].current,
                min_trade_volume,
            ) implies tradable((#[trigger] after.0[i]).target - claims[i].current, min_trade_volume) by {
            assert(tradable(moved[i].target - claims[i].current, min_trade_volume));
        }
        assert forall|i: int| 0 <= i < claims.len() implies (#[trigger] after.0[i]).buy_blocked
            == shares[i].buy_blocked && after.0[i].sell_blocked == shares[i].sell_blocked by {
            assert(moved[i].buy_blocked == shares[i].buy_blocked);
        }
    }
}

/// Pressing the balance into the first `k` assets keeps the placement sound
/// and the sign of the balance, changes no flag and no later share, and does
/// nothing where there is no balance. Where only growing trades take of it,
/// every tradable distance stays tradable. Where every asset takes of it
/// and some of a positive balance is left, each of the `k` is at its upper
/// limit; where some of a negative one is left, each is at its lower limit.
pub proof fn lemma_spilled(
    claims: Seq<Claim>,
    shares: Seq<Share>,
    balance: int,
    sweep: Sweep,
    budget: int,
    min_trade_volume: int,
    limit: int,
    k: int,
)
    requires
        placement_ok(claims, shares, balance, budget),
        forall|j: int| 0 <= j < claims.len() ==> (#[trigger] claims[j]).min >= 0,
        within(shares, limit),
        budget <= limit,
        0 <= k <= claims.len(),
    ensures
        ({
            let after = spilled(claims, shares, balance, sweep, k);
            &&& placement_ok(claims, after.0, after.1, budget)
            &&& within(after.0, limit)
            &&& balance >= 0 ==> 0 <= after.1 <= balance
            &&& balance <= 0 ==> balance <= after.1 <= 0
            &&& balance == 0 ==> after.0 == shares
            &&& forall|i: int|
                0 <= i < claims.len() ==> (#[trigger] after.0[i]).buy_blocked
                    == shares[i].buy_blocked && after.0[i].sell_blocked == shares[i].sell_blocked
            &&& forall|i: int| k <= i < claims.len() ==> #[trigger] after.0[i] == shares[i]
            &&& sweep is Growing ==> forall|i: int|
                0 <= i < claims.len() && tradable(
                    shares[i].target - claims[i].current,
                    min_trade_volume,
                ) ==> tradable((#[trigger] after.0[i]).target - claims[i].current, min_trade_volume)
            &&& sweep is Any && after.1 > 0 ==> forall|i: int|
                0 <= i < k ==> claims[i].max == Some((#[trigger] after.0[i]).target)
            &&& sweep is Any && after.1 < 0 ==> forall|i: int|
                0 <= i < k ==> claims[i].min == (#[trigger] after.0[i]).target
        }),
    decreases k,
{
    if k > 0 {
        lemma_spilled(
            claims,
            shares,
            balance,
            sweep,
            budget,
            min_trade_volume,
            limit,
            k - 1,
        );
        let (before, left) = spilled(claims, shares, balance, sweep, k - 1);
        let pressed = reach(claims[k - 1], before[k - 1].target, left);
        let target = if !takes(sweep, claims[k - 1], before[k - 1].target, left) {
            before[k - 1].target
        } else {
            pressed
        };
        assert(claims[k - 1].admits(before[k - 1].target));
        lemma_reach(claims[k - 1], before[k - 1].target, left);
        lemma_move(claims, before, left, budget, limit, k - 1, target);
        let after = spilled(claims, shares, balance, sweep, k);
        assert(after.0 == with_target(before, k - 1, target));
        if balance == 0 {
            assert(after.0 =~= shares);
        }
        assert forall|i: int| 0 <= i < claims.len() implies (#[trigger] after.0[i]).buy_blocked
            == shares[i].buy_blocked && after.0[i].sell_blocked == shares[i].sell_blocked by {
            assert(before[i].buy_blocked == shares[i].buy_blocked);
        }
        assert forall|i: int| k <= i < claims.len() implies #[trigger] after.0[i] == shares[i] by {
            assert(before[i] == shares[i]);
        }
        if sweep is Growing {
            assert forall|i: int|
                0 <= i < claims.len() && tradable(
                    shares[i].target - claims[i].current,
                    min_trade_volume,
                ) implies tradable(
                (#[trigger] after.0[i]).target - claims[i].current,
                min_trade_volume,
            ) by {
                assert(tradable(before[i].target - claims[i].current, min_trade_volume));
            }
        }
        if sweep is Any && after.1 > 0 {
            assert forall|i: int| 0 <= i < k implies claims[i].max == Some(
                (#[trigger] after.0[i]).target,
            ) by {
                if i < k - 1 {
                    assert(claims[i].max == Some(before[i].target));
                }
            }
        }
        if sweep is Any && after.1 < 0 {
            assert forall|i: int| 0 <= i < k implies claims[i].min == (
            #[trigger] after.0[i]).target by {
                if i < k - 1 {
                    assert(claims[i].min == before[i].target);
                }
            }
        }
    }
}

/// The budget lies between what the siblings must hold at least and what
/// they can hold at most.
pub open spec fn feasible(claims: Seq<Claim>, budget: int) -> bool {
    &&& total(floors(claims)) <= budget
    &&& total_cap(claims) is Some ==> budget <= total_cap(claims)->0
}

/// The distribution is a sound placement with every share under the limit
/// that bounds the budget and the current values. A positive remainder
/// means that every sibling is at its upper limit, a negative one that
/// every sibling is at its lower limit, and nothing remains exactly when
/// the budget is feasible.
pub proof fn lemma_distributed(claims: Seq<Claim>, budget: int, min_trade_volume: int, limit: int)
    requires
        level_valid(claims, budget, min_trade_volume),
        budget <= limit,
        forall|i: int| 0 <= i < claims.len() ==> (#[trigger] claims[i]).current <= limit,
    ensures
        ({
            let after = distributed(claims, budget, min_trade_volume);
            &&& placement_ok(claims, after.0, after.1, budget)
            &&& within(after.0, limit)
            &&& after.1 > 0 ==> forall|i: int|
                0 <= i < claims.len() ==> claims[i].max == Some((#[trigger] after.0[i]).target)
            &&& after.1 < 0 ==> forall|i: int|
                0 <= i < claims.len() ==> claims[i].min == (#[trigger] after.0[i]).target
            &&& after.1 == 0 <==> feasible(claims, budget)
        }),
{
    let n = claims.len() as int;
    let start = settled_all(claims, budget, min_trade_volume);
    let waiting = free_all(claims, budget, min_trade_volume);
    let balance = settled_balance(claims, budget, min_trade_volume);
    lemma_settled_all(claims, budget, min_trade_volume, limit);
    lemma_redistributed(
        claims,
        start,
        waiting,
        balance,
        budget,
        min_trade_volume,
        limit,
        claims.len(),
    );
    let (handed, unhanded) = traded(claims, budget, min_trade_volume);
    assert forall|j: int| 0 <= j < claims.len() implies (#[trigger] claims[j]).min >= 0 by {
        assert(claims[j].consistent());
    }
    lemma_spilled(claims, handed, unhanded, Sweep::Growing, budget, min_trade_volume, limit, n);
    let (enlarged, unplaced) = grown(claims, budget, min_trade_volume);
    lemma_spilled(claims, enlarged, unplaced, Sweep::Trading, budget, min_trade_volume, limit, n);
    let (shares, left) = pressed(claims, budget, min_trade_volume);
    lemma_spilled(claims, shares, left, Sweep::Any, budget, min_trade_volume, limit, n);
    let after = distributed(claims, budget, min_trade_volume);
    let held = targets(after.0);
    if after.1 > 0 {
        assert(all_capped(claims)) by {
            assert forall|i: int| 0 <= i < claims.len() implies (#[trigger] claims[i]).max
                is Some by {
                assert(claims[i].max == Some(after.0[i].target));
            }
        }
        assert(held =~= caps(claims)) by {
            assert forall|i: int| 0 <= i < n implies held[i] == caps(claims)[i] by {
                assert(claims[i].max == Some(after.0[i].target));
            }
        }
    } else if after.1 < 0 {
        assert(held =~= floors(claims)) by {
            assert forall|i: int| 0 <= i < n implies held[i] == floors(claims)[i] by {
                assert(claims[i].min == after.0[i].target);
            }
        }
    } else {
        assert forall|i: int| 0 <= i < n implies floors(claims)[i] <= held[i] by {
            assert(claims[i].admits(after.0[i].target));
        }
        lemma_total_le(floors(claims), held);
        if all_capped(claims) {
            assert forall|i: int| 0 <= i < n implies held[i] <= caps(claims)[i] by {
                assert(claims[i].admits(after.0[i].target));
                assert(claims[i].max is Some);
            }
            lemma_total_le(held, caps(claims));
        }
    }
}

/// The inputs of a distribution are valid and within the engine's range:
/// the weights make up no more than the full weight, and the budget, the
/// minimum trade volume and the sum of the current values stay under the
/// largest amount.
pub open spec fn level_ready(claims: Seq<Claim>, budget: int, min_trade_volume: int) -> bool {
    &&& level_valid(claims, budget, min_trade_volume)
    &&& budget <= MAX_AMOUNT
    &&& min_trade_volume <= MAX_AMOUNT
    &&& total(weights(claims)) <= 100
    &&& total(currents(claims)) <= MAX_AMOUNT
}

/// Where the inputs are in range, every current value is, too.
pub proof fn lemma_ready_currents(claims: Seq<Claim>, budget: int, min_trade_volume: int)
    requires
        level_ready(claims, budget, min_trade_volume),
    ensures
        forall|i: int| 0 <= i < claims.len() ==> 0 <= (#[trigger] claims[i]).current <= MAX_AMOUNT,
{
    let values = currents(claims);
    assert forall|i: int| 0 <= i < values.len() implies values[i] >= 0 by {
        assert(claims[i].consistent());
    }
    assert forall|i: int| 0 <= i < claims.len() implies 0 <= (#[trigger] claims[i]).current
        <= MAX_AMOUNT by {
        assert(claims[i].consistent());
        lemma_total_nonnegative(values, i);
        lemma_total_floor(values.take(i));
        assert(values[i] == claims[i].current);
    }
}

/// The first `k` settled shares together hold no more than the budget and
/// the current values of all siblings.
pub proof fn lemma_settled_prefix(claims: Seq<Claim>, budget: int, min_trade_volume: int, k: int)
    requires
        level_valid(claims, budget, min_trade_volume),
        total(weights(claims)) <= 100,
        0 <= k <= claims.len(),
    ensures
        0 <= total(targets(settled_all(claims, budget, min_trade_volume)).take(k)) <= budget
            + total(currents(claims)),
{
    let held = targets(settled_all(claims, budget, min_trade_volume));
    lemma_settled_weighted(claims, budget, min_trade_volume, k);
    let shares_of = weights(claims);
    let values = currents(claims);
    assert forall|i: int| 0 <= i < claims.len() implies shares_of[i] >= 0 && values[i] >= 0 by {
        assert(claims[i].consistent());
    }
    lemma_total_nonnegative(shares_of, k);
    lemma_total_nonnegative(values, k);
    let weight = total(shares_of.take(k));
    assert(budget * weight <= budget * 100) by (nonlinear_arith)
        requires
            0 <= budget,
            weight <= 100,
    ;
}

/// A hundred times what the first `k` settled shares hold is at most the
/// budget times their weights plus a hundred times their current values.
proof fn lemma_settled_weighted(claims: Seq<Claim>, budget: int, min_trade_volume: int, k: int)
    requires
        level_valid(claims, budget, min_trade_volume),
        0 <= k <= claims.len(),
    ensures
        0 <= total(targets(settled_all(claims, budget, min_trade_volume)).take(k)),
        100 * total(targets(settled_all(claims, budget, min_trade_volume)).take(k)) <= budget
            * total(weights(claims).take(k)) + 100 * total(currents(claims).take(k)),
    decreases k,
{
    let held = targets(settled_all(claims, budget, min_trade_volume));
    if k == 0 {
        assert(budget * 0 == 0) by (nonlinear_arith);
    } else {
        lemma_settled_weighted(claims, budget, min_trade_volume, k - 1);
        lemma_total_take(held, k - 1);
        lemma_total_take(weights(claims), k - 1);
        lemma_total_take(currents(claims), k - 1);
        let claim = claims[k - 1];
        assert(claim.consistent());
        lemma_settled_bounds(claim, budget, min_trade_volume);
        let part = proportional(claim, budget);
        let before = total(weights(claims).take(k - 1));
        assert(100 * part <= budget * claim.weight);
        assert(budget * (before + claim.weight) == budget * before + budget * claim.weight)
            by (nonlinear_arith);
    }
}

} // verus!
