//! How a budget is distributed among sibling assets.
//!
//! Each sibling first gets its proportional part of the budget, cut to its
//! limits, and a trade too small to carry out is dropped. What this leaves
//! unplaced is the balance. It goes to the siblings that are still free to
//! move, nearest to their current value first and in tradable amounts. What
//! then remains is pressed, whatever its size, first into the trades that it
//! enlarges, then into the assets that trade at all, and only at last into
//! those that were to stay at their current value.

use vstd::prelude::*;
use crate::portfolio::asset_allocation::{targets, Claim, Share};
use crate::portfolio::sums::total;

verus! {

pub open spec fn magnitude(v: int) -> int {
    if v < 0 {
        -v
    } else {
        v
    }
}

/// A change of value that is worth trading: none at all, or at least the
/// minimum trade volume.
pub open spec fn tradable(difference: int, min_trade_volume: int) -> bool {
    difference == 0 || magnitude(difference) >= min_trade_volume
}

/// The part of the budget that the claim's weight asks for. It is exact
/// wherever the budget has whole hundredths for the weight, which is all
/// that a budget is distributed for.
pub open spec fn proportional(claim: Claim, budget: int) -> int {
    budget * claim.weight / 100
}

/// The proportional part, lowered to the upper limit where what the weight
/// asks for exceeds it and then raised to the lower limit where it falls
/// short of it.
pub open spec fn clamped(claim: Claim, budget: int) -> Share {
    let part = proportional(claim, budget);
    let capped = claim.max is Some && budget * claim.weight > 100 * claim.max->0;
    let lowered = if capped {
        claim.max->0
    } else {
        part
    };
    let raised = lowered < claim.min;
    Share {
        target: if raised {
            claim.min
        } else {
            lowered
        },
        buy_blocked: capped,
        sell_blocked: raised,
    }
}

/// The clamped share asks for a trade below the minimum trade volume.
pub open spec fn is_dust(claim: Claim, budget: int, min_trade_volume: int) -> bool {
    let share = clamped(claim, budget);
    &&& !share.buy_blocked
    &&& !share.sell_blocked
    &&& !tradable(share.target - claim.current, min_trade_volume)
}

/// The share before any balance is handed out: the clamped share, or the
/// current value where the trade would be dust.
pub open spec fn settled(claim: Claim, budget: int, min_trade_volume: int) -> Share {
    let share = clamped(claim, budget);
    if is_dust(claim, budget, min_trade_volume) {
        Share { target: claim.current, ..share }
    } else {
        share
    }
}

/// The asset may take part of the balance: no limit has stopped it and its
/// trade was not dropped as dust.
pub open spec fn is_free(claim: Claim, budget: int, min_trade_volume: int) -> bool {
    let share = clamped(claim, budget);
    &&& !share.buy_blocked
    &&& !share.sell_blocked
    &&& tradable(share.target - claim.current, min_trade_volume)
}

pub open spec fn settled_all(claims: Seq<Claim>, budget: int, min_trade_volume: int) -> Seq<
    Share,
> {
    Seq::new(claims.len(), |i: int| settled(claims[i], budget, min_trade_volume))
}

pub open spec fn free_all(claims: Seq<Claim>, budget: int, min_trade_volume: int) -> Seq<bool> {
    Seq::new(claims.len(), |i: int| is_free(claims[i], budget, min_trade_volume))
}

/// How far a share is from the asset's current value.
pub open spec fn gap(claim: Claim, share: Share) -> int {
    magnitude(share.target - claim.current)
}

/// Among the first `k` assets, the waiting one with the smallest gap, the
/// earliest of them where several are equally near; -1 where none waits.
pub open spec fn nearest(claims: Seq<Claim>, shares: Seq<Share>, waiting: Seq<bool>, k: int) -> int
    decreases k,
{
    if k <= 0 {
        -1
    } else {
        let best = nearest(claims, shares, waiting, k - 1);
        if waiting[k - 1] && (best < 0 || gap(claims[k - 1], shares[k - 1]) < gap(
            claims[best],
            shares[best],
        )) {
            k - 1
        } else {
            best
        }
    }
}

/// The highest value up to `reach` that leaves a tradable difference from
/// `current`, for a target that is being raised.
pub open spec fn tradable_below(reach: int, current: int, min_trade_volume: int) -> int {
    if tradable(reach - current, min_trade_volume) {
        reach
    } else if reach > current {
        current
    } else {
        current - min_trade_volume
    }
}

/// The lowest value from `reach` up that leaves a tradable difference from
/// `current`, for a target that is being lowered.
pub open spec fn tradable_above(reach: int, current: int, min_trade_volume: int) -> int {
    if tradable(reach - current, min_trade_volume) {
        reach
    } else if reach < current {
        current
    } else {
        current + min_trade_volume
    }
}

/// How far the balance can move a target within the claim's limits.
pub open spec fn reach(claim: Claim, target: int, balance: int) -> int {
    let wanted = target + balance;
    if balance > 0 {
        if claim.max is Some && wanted > claim.max->0 {
            claim.max->0
        } else {
            wanted
        }
    } else if wanted < claim.min {
        claim.min
    } else {
        wanted
    }
}

/// The target of a free asset after it took what it can of the balance in a
/// tradable amount.
pub open spec fn adjusted(claim: Claim, target: int, balance: int, min_trade_volume: int) -> int {
    let limit = reach(claim, target, balance);
    if balance > 0 {
        tradable_below(limit, claim.current, min_trade_volume)
    } else {
        tradable_above(limit, claim.current, min_trade_volume)
    }
}

/// The balance is worth handing out in tradable amounts.
pub open spec fn worth_trading(balance: int, min_trade_volume: int) -> bool {
    balance != 0 && magnitude(balance) >= min_trade_volume
}

pub open spec fn with_target(shares: Seq<Share>, i: int, target: int) -> Seq<Share> {
    shares.update(i, Share { target, ..shares[i] })
}

/// Hands the balance to the waiting assets, nearest first, for at most
/// `rounds` of them. Gives the shares and the balance that is left.
pub open spec fn redistributed(
    claims: Seq<Claim>,
    shares: Seq<Share>,
    waiting: Seq<bool>,
    balance: int,
    min_trade_volume: int,
    rounds: nat,
) -> (Seq<Share>, int)
    decreases rounds,
{
    let pick = nearest(claims, shares, waiting, claims.len() as int);
    if rounds == 0 || !worth_trading(balance, min_trade_volume) || pick < 0 {
        (shares, balance)
    } else {
        let target = adjusted(claims[pick], shares[pick].target, balance, min_trade_volume);
        redistributed(
            claims,
            with_target(shares, pick, target),
            waiting.update(pick, false),
            balance - (target - shares[pick].target),
            min_trade_volume,
            (rounds - 1) as nat,
        )
    }
}

/// The balance would enlarge the trade that the target already asks for.
pub open spec fn grows(claim: Claim, target: int, balance: int) -> bool {
    (balance > 0 && target > claim.current) || (balance < 0 && target < claim.current)
}

/// Which assets a sweep presses the balance into.
#[derive(Clone, Copy, Debug, PartialEq, Eq, Structural)]
pub enum Sweep {
    /// Those whose trade the balance enlarges.
    Growing,
    /// Those that trade at all: whose target is not their current value.
    Trading,
    /// All.
    Any,
}

/// The sweep presses the balance into the asset.
pub open spec fn takes(sweep: Sweep, claim: Claim, target: int, balance: int) -> bool {
    match sweep {
        Sweep::Growing => grows(claim, target, balance),
        Sweep::Trading => target != claim.current,
        Sweep::Any => true,
    }
}

/// Presses the balance into the first `k` assets in turn, those that the
/// sweep takes, as far as the limits of each allow and whatever the size of
/// the trade.
pub open spec fn spilled(
    claims: Seq<Claim>,
    shares: Seq<Share>,
    balance: int,
    sweep: Sweep,
    k: int,
) -> (Seq<Share>, int)
    decreases k,
{
    if k <= 0 {
        (shares, balance)
    } else {
        let (before, left) = spilled(claims, shares, balance, sweep, k - 1);
        let target = if !takes(sweep, claims[k - 1], before[k - 1].target, left) {
            before[k - 1].target
        } else {
            reach(claims[k - 1], before[k - 1].target, left)
        };
        (with_target(before, k - 1, target), left - (target - before[k - 1].target))
    }
}

/// The balance that the settled shares leave of the budget.
pub open spec fn settled_balance(claims: Seq<Claim>, budget: int, min_trade_volume: int) -> int {
    budget - total(targets(settled_all(claims, budget, min_trade_volume)))
}

/// The shares and the balance once the tradable amounts are handed out.
pub open spec fn traded(claims: Seq<Claim>, budget: int, min_trade_volume: int) -> (
    Seq<Share>,
    int,
) {
    redistributed(
        claims,
        settled_all(claims, budget, min_trade_volume),
        free_all(claims, budget, min_trade_volume),
        settled_balance(claims, budget, min_trade_volume),
        min_trade_volume,
        claims.len(),
    )
}

/// The shares and the balance once what the tradable amounts left has
/// enlarged the trades that it could.
pub open spec fn grown(claims: Seq<Claim>, budget: int, min_trade_volume: int) -> (
    Seq<Share>,
    int,
) {
    let (shares, balance) = traded(claims, budget, min_trade_volume);
    spilled(claims, shares, balance, Sweep::Growing, claims.len() as int)
}

/// The shares and the balance once what the growing trades left is pressed
/// into the assets that trade at all.
pub open spec fn pressed(claims: Seq<Claim>, budget: int, min_trade_volume: int) -> (
    Seq<Share>,
    int,
) {
    let (shares, balance) = grown(claims, budget, min_trade_volume);
    spilled(claims, shares, balance, Sweep::Trading, claims.len() as int)
}

/// The final shares of the siblings and the part of the budget that no
/// sibling could take: positive where all are at their upper limit,
/// negative where all are at their lower limit.
pub open spec fn distributed(claims: Seq<Claim>, budget: int, min_trade_volume: int) -> (
    Seq<Share>,
    int,
) {
    let (shares, balance) = pressed(claims, budget, min_trade_volume);
    spilled(claims, shares, balance, Sweep::Any, claims.len() as int)
}

} // verus!
