//! What selling overbought assets arrives at.
//!
//! The budget of a set of siblings is smaller than what they are worth. The
//! assets that can be sold down take their fair part of what the others
//! leave of the budget, and together they take all of it. An asset that cannot, because it may not be sold or
//! because the sale would be too small, is held at its value, and the
//! others share what is left. This repeats until no further asset has to be
//! held. What the held assets exceed the budget by is the debt; as a last
//! resort the assets held only for the size of their sale sell the minimum
//! trade volume each until the debt is gone.

use vstd::prelude::*;
use crate::portfolio::asset_allocation::{AssetAllocation, Holding};
use crate::portfolio::sums::total;

verus! {

/// Where an asset stands while its siblings are sold down.
#[derive(Clone, Copy, Debug, PartialEq, Eq, Structural)]
pub enum Standing {
    /// It takes its part of the budget.
    Correctable,
    /// It is held at its current value because the sale that its part asks
    /// for is smaller than the minimum trade volume.
    Dust,
    /// It is held for good: it may not be sold, it is worth less than one
    /// trade, or its own children left a debt.
    Uncorrectable,
}

/// The state of one asset during the resolution.
pub struct Seat {
    pub target: int,
    pub standing: Standing,
    /// The part of the budget that the asset was last given.
    pub part: int,
}

pub open spec fn is_held(seat: Seat) -> bool {
    !(seat.standing is Correctable)
}

pub open spec fn held_weights(assets: Seq<AssetAllocation>, seats: Seq<Seat>) -> Seq<int> {
    Seq::new(
        assets.len(),
        |i: int|
            if is_held(seats[i]) {
                assets[i].expected_weight as int
            } else {
                0
            },
    )
}

pub open spec fn held_values(seats: Seq<Seat>) -> Seq<int> {
    Seq::new(
        seats.len(),
        |i: int|
            if is_held(seats[i]) {
                seats[i].target
            } else {
                0
            },
    )
}

pub open spec fn seat_targets(seats: Seq<Seat>) -> Seq<int> {
    Seq::new(seats.len(), |i: int| seats[i].target)
}

/// What the held assets leave of the budget.
pub open spec fn room(seats: Seq<Seat>, budget: int) -> int {
    let held = total(held_values(seats));
    if held > budget {
        0
    } else {
        budget - held
    }
}

/// What the held assets exceed the budget by.
pub open spec fn debt_of(seats: Seq<Seat>, budget: int) -> int {
    let held = total(held_values(seats));
    if held > budget {
        held - budget
    } else {
        0
    }
}

/// The weight that the assets not held share.
pub open spec fn divider(assets: Seq<AssetAllocation>, seats: Seq<Seat>) -> int {
    100 - total(held_weights(assets, seats))
}

/// The part of `room` that falls to `weight` out of `divider`, rounded down.
pub open spec fn fair_part(room: int, weight: int, divider: int) -> int {
    if divider > 0 {
        room * weight / divider
    } else {
        0
    }
}

/// The weights of the assets that are not held, nothing for the others.
pub open spec fn free_weights(assets: Seq<AssetAllocation>, seats: Seq<Seat>) -> Seq<int> {
    Seq::new(
        assets.len(),
        |i: int|
            if is_held(seats[i]) {
                0
            } else {
                assets[i].expected_weight as int
            },
    )
}

/// What the first `k` assets get of `room` together: the part that falls to
/// the weights of those of them that are not held, rounded down.
pub open spec fn share_upto(
    assets: Seq<AssetAllocation>,
    seats: Seq<Seat>,
    room: int,
    divider: int,
    k: int,
) -> int {
    fair_part(room, total(free_weights(assets, seats).take(k)), divider)
}

/// What the asset at `i` gets of `room`: what the assets up to it get
/// together less what those before it get, so that the parts of all assets
/// that are not held add up to the room exactly. Where the room divides
/// evenly this is the part that falls to the asset's own weight.
pub open spec fn part_at(
    assets: Seq<AssetAllocation>,
    seats: Seq<Seat>,
    room: int,
    divider: int,
    i: int,
) -> int {
    share_upto(assets, seats, room, divider, i + 1) - share_upto(assets, seats, room, divider, i)
}

/// Where a stock stands once it is given `part`.
pub open spec fn stock_seat(asset: AssetAllocation, part: int, min_trade_volume: int) -> Seat {
    if asset.current_value > part {
        if asset.selling_restricted() || asset.current_value < min_trade_volume {
            Seat { target: asset.current_value as int, standing: Standing::Uncorrectable, part }
        } else if asset.current_value - part < min_trade_volume {
            Seat { target: asset.current_value as int, standing: Standing::Dust, part }
        } else {
            Seat { target: part, standing: Standing::Correctable, part }
        }
    } else {
        Seat { target: part, standing: Standing::Correctable, part }
    }
}

/// Where a group stands once it is given `part` and its children leave
/// `debt` of it.
pub open spec fn group_seat(part: int, debt: int) -> Seat {
    if debt > 0 {
        Seat { target: part + debt, standing: Standing::Uncorrectable, part }
    } else {
        Seat { target: part, standing: Standing::Correctable, part }
    }
}

pub open spec fn seat_of(asset: AssetAllocation, part: int, min_trade_volume: int) -> Seat
    decreases asset, 0int, 0int,
{
    match asset.holding {
        Holding::Group(children) => group_seat(
            part,
            resolution(children@, part, min_trade_volume).1,
        ),
        Holding::Stock(_) => stock_seat(asset, part, min_trade_volume),
    }
}

/// One pass over the first `k` assets, starting from `seats`: each that is
/// not held is given its part of `room` and takes its seat.
pub open spec fn pass(
    assets: Seq<AssetAllocation>,
    seats: Seq<Seat>,
    room: int,
    divider: int,
    min_trade_volume: int,
    k: int,
) -> Seq<Seat>
    decreases assets, 0int, k,
{
    if k <= 0 {
        seats
    } else {
        let before = pass(assets, seats, room, divider, min_trade_volume, k - 1);
        if 0 < k <= assets.len() && !is_held(before[k - 1]) {
            before.update(
                k - 1,
                seat_of(
                    assets[k - 1],
                    part_at(assets, seats, room, divider, k - 1),
                    min_trade_volume,
                ),
            )
        } else {
            before
        }
    }
}

/// A whole pass over the assets.
pub open spec fn passed(
    assets: Seq<AssetAllocation>,
    seats: Seq<Seat>,
    budget: int,
    min_trade_volume: int,
) -> Seq<Seat>
    decreases assets, 0int, assets.len() + 1,
{
    pass(
        assets,
        seats,
        room(seats, budget),
        divider(assets, seats),
        min_trade_volume,
        assets.len() as int,
    )
}

/// Every asset stands where it stood.
pub open spec fn same_standings(a: Seq<Seat>, b: Seq<Seat>) -> bool {
    &&& a.len() == b.len()
    &&& forall|i: int| 0 <= i < a.len() ==> (#[trigger] a[i]).standing == b[i].standing
}

/// Passes over the assets until one of them holds no further asset, at most
/// `passes` times after the first.
pub open spec fn settled_seats(
    assets: Seq<AssetAllocation>,
    seats: Seq<Seat>,
    budget: int,
    min_trade_volume: int,
    passes: nat,
) -> Seq<Seat>
    decreases assets, 1int, passes,
{
    let next = passed(assets, seats, budget, min_trade_volume);
    if passes == 0 || same_standings(next, seats) {
        next
    } else {
        settled_seats(assets, next, budget, min_trade_volume, (passes - 1) as nat)
    }
}

/// Forced selling over the first `k` assets: while debt is left, each asset
/// held for the size of its sale sells the minimum trade volume.
pub open spec fn forced(
    assets: Seq<AssetAllocation>,
    seats: Seq<Seat>,
    debt: int,
    min_trade_volume: int,
    k: int,
) -> (Seq<Seat>, int)
    decreases k,
{
    if k <= 0 {
        (seats, debt)
    } else {
        let (before, left) = forced(assets, seats, debt, min_trade_volume, k - 1);
        if before[k - 1].standing is Dust && left > 0 {
            (
                before.update(
                    k - 1,
                    Seat {
                        target: assets[k - 1].current_value - min_trade_volume,
                        ..before[k - 1]
                    },
                ),
                if left > min_trade_volume {
                    left - min_trade_volume
                } else {
                    0
                },
            )
        } else {
            (before, left)
        }
    }
}

pub open spec fn all_held(seats: Seq<Seat>) -> bool {
    forall|i: int| 0 <= i < seats.len() ==> is_held(#[trigger] seats[i])
}

pub open spec fn initial_seats(assets: Seq<AssetAllocation>) -> Seq<Seat> {
    Seq::new(assets.len(), |i: int| Seat { target: 0, standing: Standing::Correctable, part: 0 })
}

/// Where the assets end up under the budget, and the debt that is left:
/// nothing where the assets could be brought under the budget.
pub open spec fn resolution(
    assets: Seq<AssetAllocation>,
    budget: int,
    min_trade_volume: int,
) -> (Seq<Seat>, int)
    decreases assets, 2int, 0int,
{
    let seats = settled_seats(
        assets,
        initial_seats(assets),
        budget,
        min_trade_volume,
        assets.len(),
    );
    let debt = debt_of(seats, budget);
    if debt == 0 || all_held(seats) {
        (seats, debt)
    } else {
        forced(assets, seats, debt, min_trade_volume, assets.len() as int)
    }
}

/// Selling down to the budget comes to forced selling: once no further asset
/// has to be held, the held assets exceed the budget and some asset is not
/// held.
pub open spec fn forced_sale(
    assets: Seq<AssetAllocation>,
    budget: int,
    min_trade_volume: int,
) -> bool {
    let seats = settled_seats(
        assets,
        initial_seats(assets),
        budget,
        min_trade_volume,
        assets.len(),
    );
    debt_of(seats, budget) > 0 && !all_held(seats)
}

/// `after` is `before` with the targets that selling down to the budget
/// arrives at, on every level of the tree: the children of a group are sold
/// down to the part that the group was last given.
pub open spec fn sold(
    before: Seq<AssetAllocation>,
    after: Seq<AssetAllocation>,
    budget: int,
    min_trade_volume: int,
) -> bool
    decreases before, 1int,
{
    &&& after.len() == before.len()
    &&& forall|i: int|
        0 <= i < before.len() ==> asset_sold(
            #[trigger] before[i],
            after[i],
            resolution(before, budget, min_trade_volume).0[i],
            min_trade_volume,
        )
}

pub open spec fn asset_sold(
    before: AssetAllocation,
    after: AssetAllocation,
    seat: Seat,
    min_trade_volume: int,
) -> bool
    decreases before, 0int,
{
    &&& after.same_claim_as(before)
    &&& after.buy_blocked == before.buy_blocked
    &&& after.sell_blocked == before.sell_blocked
    &&& after.target_value == seat.target
    &&& match (before.holding, after.holding) {
        (Holding::Group(old_children), Holding::Group(children)) => sold(
            old_children@,
            children@,
            seat.part,
            min_trade_volume,
        ),
        (Holding::Stock(old_stock), Holding::Stock(stock)) => stock == old_stock,
        _ => false,
    }
}

} // verus!
