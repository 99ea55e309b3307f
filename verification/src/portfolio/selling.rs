//! Sells overbought assets down to a budget.

use vstd::prelude::*;
use crate::portfolio::asset_allocation::{
    claims, currents, shares, targets, value_valid, values_valid, weight_valid, weights,
    weights_valid, AssetAllocation, Holding, MAX_AMOUNT,
};
use crate::portfolio::debt_laws::{
    accounted, covered, lemma_free_weight_prefix, lemma_part_at, lemma_sold, selling_respected,
};
use crate::portfolio::debt::{
    all_held, asset_sold, divider, forced, forced_sale, free_weights, held_values,
    held_weights, part_at, share_upto,
    initial_seats, is_held, pass, passed, resolution, room, same_standings, seat_of,
    settled_seats, sold, Seat, Standing,
};
use crate::portfolio::sums::{lemma_total_nonnegative, lemma_total_take, total};

verus! {

/// What selling down arrived at.
#[derive(Clone, Copy, Debug, PartialEq, Eq, Structural)]
pub enum SellResult {
    /// The assets are within the budget.
    Resolved,
    /// The assets exceed the budget by this amount, which is positive.
    Debt(i64),
}

/// The state of one asset while its siblings are sold down. There is one
/// for every asset, in the order of the assets, so that no asset stands in
/// two places at once.
#[derive(Clone, Copy, Debug, PartialEq, Eq, Structural)]
pub struct Position {
    pub target: i64,
    pub standing: Standing,
    /// The part of the budget that the asset was last given.
    pub part: i64,
}

impl Position {
    pub open spec fn seat(self) -> Seat {
        Seat { target: self.target as int, standing: self.standing, part: self.part as int }
    }
}

pub open spec fn seats(positions: Seq<Position>) -> Seq<Seat> {
    Seq::new(positions.len(), |i: int| positions[i].seat())
}

/// The seat is in range for its asset: a held asset at no more than its
/// current value, one that is not held at the part it was given, and that
/// part within the budget.
pub open spec fn seat_in_range(
    asset: AssetAllocation,
    seat: Seat,
    budget: int,
    min_trade_volume: int,
) -> bool {
    &&& 0 <= seat.part <= budget
    &&& is_held(seat) ==> 0 <= seat.target <= asset.current_value
    &&& !is_held(seat) ==> seat.target == seat.part
    &&& seat.standing is Dust ==> asset.current_value >= min_trade_volume
}

pub open spec fn seats_in_range(
    assets: Seq<AssetAllocation>,
    seats: Seq<Seat>,
    budget: int,
    min_trade_volume: int,
) -> bool {
    &&& seats.len() == assets.len()
    &&& forall|i: int|
        0 <= i < assets.len() ==> seat_in_range(
            assets[i],
            #[trigger] seats[i],
            budget,
            min_trade_volume,
        )
}

/// Adds up the weights and the targets of the held assets.
fn held_totals(assets: &Vec<AssetAllocation>, positions: &Vec<Position>) -> (sums: (i64, i64))
    requires
        values_valid(assets@),
        total(weights(claims(assets@))) <= 100,
        positions@.len() == assets@.len(),
        forall|i: int|
            0 <= i < assets@.len() && is_held(#[trigger] seats(positions@)[i]) ==> 0 <= positions@[i].target
                <= assets@[i].current_value,
    ensures
        sums.0 == total(held_weights(assets@, seats(positions@))),
        sums.1 == total(held_values(seats(positions@))),
        0 <= sums.0 <= 100,
        0 <= sums.1 <= total(currents(claims(assets@))),
{
    let n: usize = assets.len();
    let ghost held_w = held_weights(assets@, seats(positions@));
    let ghost held_v = held_values(seats(positions@));
    let ghost all_w = weights(claims(assets@));
    let ghost all_v = currents(claims(assets@));
    proof {
        assert forall|j: int| 0 <= j < n implies 0 <= #[trigger] held_v[j] <= all_v[j] by {
            assert(value_valid(assets@[j]));
            if is_held(seats(positions@)[j]) {
            }
        }
        assert forall|j: int| 0 <= j < n implies 0 <= #[trigger] all_v[j] by {
            assert(value_valid(assets@[j]));
        }
    }
    let mut weight: i64 = 0;
    let mut value: i64 = 0;
    let mut i: usize = 0;
    while i < n
        invariant
            i <= n,
            n == assets@.len(),
            positions@.len() == n,
            held_w == held_weights(assets@, seats(positions@)),
            held_v == held_values(seats(positions@)),
            all_w == weights(claims(assets@)),
            all_v == currents(claims(assets@)),
            total(all_w) <= 100,
            total(all_v) <= MAX_AMOUNT,
            forall|j: int| 0 <= j < n ==> 0 <= #[trigger] held_v[j] <= all_v[j],
            forall|j: int| 0 <= j < n ==> 0 <= #[trigger] all_v[j],
            weight == total(held_w.take(i as int)),
            value == total(held_v.take(i as int)),
            0 <= weight <= total(all_w.take(i as int)),
            0 <= value <= total(all_v.take(i as int)),
        decreases n - i,
    {
        proof {
            lemma_total_take(held_w, i as int);
            lemma_total_take(held_v, i as int);
            lemma_total_take(all_w, i as int);
            lemma_total_take(all_v, i as int);
            lemma_total_nonnegative(all_w, i as int + 1);
            lemma_total_nonnegative(all_v, i as int + 1);
            assert(0 <= held_v[i as int] <= all_v[i as int]);
        }
        match positions[i].standing {
            Standing::Correctable => {},
            _ => {
                weight = weight + assets[i].expected_weight as i64;
                value = value + positions[i].target;
            },
        }
        i += 1;
    }
    proof {
        assert(held_w.take(n as int) =~= held_w);
        assert(held_v.take(n as int) =~= held_v);
        assert(all_w.take(n as int) =~= all_w);
        assert(all_v.take(n as int) =~= all_v);
    }
    (weight, value)
}

/// Where a stock stands once it is given `part`: at that part, or held at
/// its current value where it may not be sold, is worth less than one
/// trade, or would sell less than one trade.
fn seat_stock(asset: &AssetAllocation, part: i64, min_trade_volume: i64) -> (position: Position)
    requires
        0 <= asset.current_value <= MAX_AMOUNT,
        0 <= part <= MAX_AMOUNT,
    ensures
        position.seat() == crate::portfolio::debt::stock_seat(
            *asset,
            part as int,
            min_trade_volume as int,
        ),
{
    let restricted = match asset.restrict_selling {
        Some(flag) => flag,
        None => false,
    };
    if asset.current_value > part {
        if restricted || asset.current_value < min_trade_volume {
            Position { target: asset.current_value, standing: Standing::Uncorrectable, part }
        } else if asset.current_value - part < min_trade_volume {
            Position { target: asset.current_value, standing: Standing::Dust, part }
        } else {
            Position { target: part, standing: Standing::Correctable, part }
        }
    } else {
        Position { target: part, standing: Standing::Correctable, part }
    }
}

/// Whether every asset is held.
fn all_positions_held(positions: &Vec<Position>) -> (r: bool)
    ensures
        r == all_held(seats(positions@)),
{
    let n: usize = positions.len();
    let mut i: usize = 0;
    while i < n
        invariant
            i <= n,
            n == positions@.len(),
            forall|j: int| 0 <= j < i ==> is_held(#[trigger] seats(positions@)[j]),
        decreases n - i,
    {
        match positions[i].standing {
            Standing::Correctable => {
                assert(!is_held(seats(positions@)[i as int]));
                return false;
            },
            _ => {},
        }
        i += 1;
    }
    true
}

/// Works out where the assets end up under the budget, and the debt that is
/// left, without touching them.
///
/// Every asset that is not held takes its part of what the held ones leave
/// of the budget; the parts add up to all of it. A stock that would have to sell but may not, or is worth
/// less than one trade, is held at its current value for good; one whose
/// sale would be smaller than the minimum trade volume is held for now; a
/// group whose children leave a debt is held at its part and that debt.
/// This repeats until a pass holds no further asset. If the held assets
/// then exceed the budget and some asset is not held, the assets held for
/// the size of their sale sell the minimum trade volume each, in order,
/// until the debt is gone.
pub fn resolve_debt(assets: &Vec<AssetAllocation>, budget: i64, min_trade_volume: i64) -> (r: (
    Vec<Position>,
    i64,
))
    requires
        values_valid(assets@),
        weights_valid(assets@),
        0 <= budget <= MAX_AMOUNT,
        0 <= min_trade_volume <= MAX_AMOUNT,
    ensures
        (seats(r.0@), r.1 as int) == resolution(assets@, budget as int, min_trade_volume as int),
        seats_in_range(assets@, seats(r.0@), budget as int, min_trade_volume as int),
        0 <= r.1,
        r.1 > 0 ==> budget + r.1 <= total(currents(claims(assets@))),
    decreases assets@,
{
    let n: usize = assets.len();
    let ghost volume = min_trade_volume as int;
    let mut positions: Vec<Position> = Vec::new();
    let mut i: usize = 0;
    while i < n
        invariant
            i <= n,
            positions@.len() == i,
            forall|j: int|
                0 <= j < i ==> (#[trigger] positions@[j]) == (Position {
                    target: 0,
                    standing: Standing::Correctable,
                    part: 0,
                }),
        decreases n - i,
    {
        positions.push(Position { target: 0, standing: Standing::Correctable, part: 0 });
        i += 1;
    }
    proof {
        assert(seats(positions@) =~= initial_seats(assets@));
    }
    let mut passes_left: usize = n;
    let mut done = false;
    while !done
        invariant
            n == assets@.len(),
            positions@.len() == n,
            passes_left <= n,
            values_valid(assets@),
            weights_valid(assets@),
            0 <= budget <= MAX_AMOUNT,
            0 <= min_trade_volume <= MAX_AMOUNT,
            volume == min_trade_volume as int,
            seats_in_range(assets@, seats(positions@), budget as int, volume),
            !done ==> settled_seats(
                assets@,
                seats(positions@),
                budget as int,
                volume,
                passes_left as nat,
            ) == settled_seats(assets@, initial_seats(assets@), budget as int, volume, n as nat),
            done ==> seats(positions@) == settled_seats(
                assets@,
                initial_seats(assets@),
                budget as int,
                volume,
                n as nat,
            ),
        decreases passes_left, (if done { 0int } else { 1int }),
    {
        let ghost start = seats(positions@);
        proof {
            assert forall|j: int|
                0 <= j < n && is_held(#[trigger] seats(positions@)[j]) implies 0
                <= positions@[j].target <= assets@[j].current_value by {
                assert(seat_in_range(assets@[j], start[j], budget as int, volume));
            }
        }
        let (held_weight, held_value) = held_totals(assets, &positions);
        let free: i64 = if held_value > budget {
            0
        } else {
            budget - held_value
        };
        let shared: i64 = 100 - held_weight;
        let mut moved = false;
        let mut weighed: i64 = 0;
        let mut given: i64 = 0;
        let mut k: usize = 0;
        proof {
            assert(free_weights(assets@, start).take(0) =~= Seq::<int>::empty());
            assert(free as int * 0 == 0) by (nonlinear_arith);
        }
        while k < n
            invariant
                k <= n,
                weighed == total(free_weights(assets@, start).take(k as int)),
                given == share_upto(assets@, start, free as int, shared as int, k as int),
                0 <= weighed <= shared,
                0 <= given <= free,
                total(weights(claims(assets@))) == 100,
                n == assets@.len(),
                positions@.len() == n,
                start.len() == n,
                values_valid(assets@),
                weights_valid(assets@),
                0 <= budget <= MAX_AMOUNT,
                0 <= min_trade_volume <= MAX_AMOUNT,
                volume == min_trade_volume as int,
                0 <= free <= budget,
                free == room(start, budget as int),
                shared == divider(assets@, start),
                0 <= shared <= 100,
                seats_in_range(assets@, start, budget as int, volume),
                seats_in_range(assets@, seats(positions@), budget as int, volume),
                seats(positions@) == pass(
                    assets@,
                    start,
                    free as int,
                    shared as int,
                    volume,
                    k as int,
                ),
                forall|j: int| k <= j < n ==> (#[trigger] seats(positions@)[j]) == start[j],
                moved == !(forall|j: int|
                    0 <= j < k ==> (#[trigger] seats(positions@)[j]).standing
                        == start[j].standing),
            decreases n - k,
        {
            let ghost before = seats(positions@);
            let ghost was_moved = moved;
            match positions[k].standing {
                Standing::Correctable => {
                    let weight: i64 = assets[k].expected_weight as i64;
                    proof {
                        assert(start[k as int] == before[k as int]);
                        lemma_free_weight_prefix(assets@, start, k as int);
                        lemma_free_weight_prefix(assets@, start, k as int + 1);
                        lemma_part_at(assets@, start, free as int, k as int);
                        assert(0 <= free * (weighed + weight) <= 100 * MAX_AMOUNT)
                            by (nonlinear_arith)
                            requires
                                0 <= free <= MAX_AMOUNT,
                                0 <= weighed + weight <= 100,
                        ;
                        assert(value_valid(assets@[k as int]));
                        assert(weight_valid(assets@[k as int]));
                    }
                    weighed = weighed + weight;
                    let upto: i64 = if shared > 0 {
                        free * weighed / shared
                    } else {
                        0
                    };
                    let part: i64 = upto - given;
                    given = upto;
                    let position = match &assets[k].holding {
                        Holding::Group(children) => {
                            let (_, debt) = resolve_debt(children, part, min_trade_volume);
                            if debt > 0 {
                                Position {
                                    target: part + debt,
                                    standing: Standing::Uncorrectable,
                                    part,
                                }
                            } else {
                                Position { target: part, standing: Standing::Correctable, part }
                            }
                        },
                        Holding::Stock(_) => seat_stock(&assets[k], part, min_trade_volume),
                    };
                    proof {
                        assert(part == part_at(
                            assets@,
                            start,
                            free as int,
                            shared as int,
                            k as int,
                        ));
                        assert(position.seat() == seat_of(assets@[k as int], part as int, volume));
                    }
                    match position.standing {
                        Standing::Correctable => {},
                        _ => {
                            moved = true;
                        },
                    }
                    positions.set(k, position);
                    proof {
                        assert(seats(positions@) =~= before.update(k as int, position.seat()));
                    }
                },
                _ => {
                    proof {
                        lemma_free_weight_prefix(assets@, start, k as int);
                        assert(is_held(start[k as int]));
                    }
                },
            }
            proof {
                let now = seats(positions@);
                assert forall|j: int| 0 <= j < k implies now[j] == before[j] by {}
                if was_moved {
                    let j = choose|j: int|
                        0 <= j < k && (#[trigger] before[j]).standing != start[j].standing;
                    assert(now[j] == before[j]);
                }
                if moved && !was_moved {
                    assert(now[k as int].standing != start[k as int].standing);
                }
            }
            k += 1;
        }
        proof {
            let next = seats(positions@);
            assert(next == passed(assets@, start, budget as int, volume));
            if !moved {
                assert(same_standings(next, start));
            } else {
                let j = choose|j: int|
                    0 <= j < n && (#[trigger] next[j]).standing != start[j].standing;
                assert(!same_standings(next, start));
            }
        }
        if passes_left == 0 || !moved {
            done = true;
        } else {
            passes_left -= 1;
        }
    }
    let ghost settled = seats(positions@);
    proof {
        assert forall|j: int|
            0 <= j < n && is_held(#[trigger] seats(positions@)[j]) implies 0 <= positions@[j].target
            <= assets@[j].current_value by {
            assert(seat_in_range(assets@[j], settled[j], budget as int, volume));
        }
    }
    let (_, held_value) = held_totals(assets, &positions);
    let debt: i64 = if held_value > budget {
        held_value - budget
    } else {
        0
    };
    if debt == 0 || all_positions_held(&positions) {
        return (positions, debt);
    }
    let mut left: i64 = debt;
    let mut k: usize = 0;
    while k < n
        invariant
            k <= n,
            n == assets@.len(),
            positions@.len() == n,
            settled.len() == n,
            values_valid(assets@),
            0 <= budget <= MAX_AMOUNT,
            0 <= min_trade_volume <= MAX_AMOUNT,
            volume == min_trade_volume as int,
            0 <= left <= debt,
            seats_in_range(assets@, seats(positions@), budget as int, volume),
            (seats(positions@), left as int) == forced(
                assets@,
                settled,
                debt as int,
                volume,
                k as int,
            ),
            forall|j: int| k <= j < n ==> (#[trigger] seats(positions@)[j]) == settled[j],
        decreases n - k,
    {
        let ghost before = seats(positions@);
        let position = positions[k];
        let dust = match position.standing {
            Standing::Dust => true,
            _ => false,
        };
        if dust && left > 0 {
            proof {
                assert(seat_in_range(assets@[k as int], before[k as int], budget as int, volume));
                assert(value_valid(assets@[k as int]));
            }
            let sold_down = Position {
                target: assets[k].current_value - min_trade_volume,
                standing: position.standing,
                part: position.part,
            };
            positions.set(k, sold_down);
            left = if left > min_trade_volume {
                left - min_trade_volume
            } else {
                0
            };
            proof {
                assert(seats(positions@) =~= before.update(k as int, sold_down.seat()));
            }
        }
        k += 1;
    }
    (positions, left)
}

/// Sells the assets down to the budget: gives every asset the target that
/// `resolve_debt` arrives at, sells the children of every group down to the
/// part that the group was last given, and reports the debt that is left.
/// Only targets change.
pub fn sell_overbought_assets(
    assets: &mut Vec<AssetAllocation>,
    target_total_value: i64,
    min_trade_volume: i64,
) -> (result: SellResult)
    requires
        values_valid(old(assets)@),
        weights_valid(old(assets)@),
        0 <= target_total_value <= MAX_AMOUNT,
        0 <= min_trade_volume <= MAX_AMOUNT,
    ensures
        sold(old(assets)@, final(assets)@, target_total_value as int, min_trade_volume as int),
        match result {
            SellResult::Resolved => resolution(
                old(assets)@,
                target_total_value as int,
                min_trade_volume as int,
            ).1 == 0,
            SellResult::Debt(debt) => debt > 0 && debt == resolution(
                old(assets)@,
                target_total_value as int,
                min_trade_volume as int,
            ).1,
        },
        match result {
            SellResult::Resolved => total(targets(shares(final(assets)@))) <= target_total_value,
            SellResult::Debt(debt) => total(targets(shares(final(assets)@)))
                == target_total_value + debt,
        },
        !forced_sale(old(assets)@, target_total_value as int, min_trade_volume as int) ==> total(
            targets(shares(final(assets)@)),
        ) == target_total_value + match result {
            SellResult::Resolved => 0,
            SellResult::Debt(debt) => debt as int,
        },
        covered(final(assets)@),
        accounted(
            old(assets)@,
            final(assets)@,
            target_total_value as int,
            min_trade_volume as int,
        ),
        selling_respected(final(assets)@),
    decreases old(assets)@,
{
    let ghost volume = min_trade_volume as int;
    let (positions, debt) = resolve_debt(assets, target_total_value, min_trade_volume);
    let ghost arrived = seats(positions@);
    let n: usize = assets.len();
    let mut i: usize = 0;
    while i < n
        invariant
            i <= n,
            assets@.len() == n,
            old(assets)@.len() == n,
            positions@.len() == n,
            arrived == seats(positions@),
            volume == min_trade_volume as int,
            0 <= min_trade_volume <= MAX_AMOUNT,
            0 <= target_total_value <= MAX_AMOUNT,
            values_valid(old(assets)@),
            weights_valid(old(assets)@),
            seats_in_range(old(assets)@, arrived, target_total_value as int, volume),
            forall|j: int|
                0 <= j < i ==> asset_sold(#[trigger] old(assets)@[j], assets@[j], arrived[j], volume),
            forall|j: int| i <= j < n ==> (#[trigger] assets@[j]) == old(assets)@[j],
        decreases n - i,
    {
        let ghost before = assets@;
        let position = positions[i];
        proof {
            assert(arrived[i as int] == position.seat());
            assert(seat_in_range(
                old(assets)@[i as int],
                arrived[i as int],
                target_total_value as int,
                volume,
            ));
            assert(value_valid(old(assets)@[i as int]));
            assert(weight_valid(old(assets)@[i as int]));
        }
        assets[i].target_value = position.target;
        match &mut assets[i].holding {
            Holding::Group(children) => {
                let _ = sell_overbought_assets(children, position.part, min_trade_volume);
            },
            Holding::Stock(_) => {},
        }
        proof {
            assert forall|j: int| 0 <= j < i implies asset_sold(
                #[trigger] old(assets)@[j],
                assets@[j],
                arrived[j],
                volume,
            ) by {
                assert(assets@[j] == before[j]);
            }
        }
        i += 1;
    }
    proof {
        lemma_sold(old(assets)@, assets@, target_total_value as int, volume);
    }
    if debt > 0 {
        SellResult::Debt(debt)
    } else {
        SellResult::Resolved
    }
}

} // verus!
