//! What holds of every set of assets that was sold down to a budget.

use vstd::prelude::*;
use crate::portfolio::asset_allocation::{
    claims, shares, targets, weights, weights_valid, AssetAllocation, Holding,
};
use crate::portfolio::debt::{
    all_held, asset_sold, debt_of, divider, fair_part, forced, forced_sale, free_weights,
    held_values,
    held_weights, group_seat, initial_seats, is_held, part_at, pass, passed, resolution, room,
    same_standings, seat_of, seat_targets, settled_seats, share_upto, sold, Seat,
};
use crate::portfolio::sums::{
    lemma_total_equal, lemma_total_floor, lemma_total_le, lemma_total_take, lemma_total_update,
    total,
};

verus! {

/// The seat suits its asset: its part is not negative, a group is at its
/// part and the debt that its children leave of it, one that is not held is
/// at the part it was given, one that is held is above it, one held for the
/// size of its sale is a stock that may be sold and
/// is at its current value, and a stock that may not be sold is at no less
/// than its current value.
pub open spec fn seat_sound(asset: AssetAllocation, seat: Seat, min_trade_volume: int) -> bool {
    &&& 0 <= seat.part
    &&& match asset.holding {
        Holding::Group(children) => seat.target == group_seat(
            seat.part,
            resolution(children@, seat.part, min_trade_volume).1,
        ).target,
        Holding::Stock(_) => true,
    }
    &&& !is_held(seat) ==> seat.target == seat.part
    &&& is_held(seat) ==> seat.target > seat.part
    &&& seat.standing is Dust ==> asset.holding is Stock && !asset.selling_restricted()
        && seat.target == asset.current_value
    &&& asset.holding is Stock && asset.selling_restricted() ==> seat.target
        >= asset.current_value
}

/// The seat that an asset takes with its part suits it.
pub proof fn lemma_seat_of(asset: AssetAllocation, part: int, min_trade_volume: int)
    requires
        0 <= part,
    ensures
        seat_sound(asset, seat_of(asset, part, min_trade_volume), min_trade_volume),
        seat_of(asset, part, min_trade_volume).part == part,
{
}

/// A larger weight gets no smaller part of a room.
pub proof fn lemma_fair_part_grows(room: int, lighter: int, heavier: int, divider: int)
    requires
        0 <= room,
        0 <= lighter <= heavier,
    ensures
        0 <= fair_part(room, lighter, divider) <= fair_part(room, heavier, divider),
        heavier <= divider ==> fair_part(room, heavier, divider) <= room,
        fair_part(room, 0, divider) == 0,
        divider > 0 ==> fair_part(room, divider, divider) == room,
{
    if divider > 0 {
        assert(0 <= room * lighter <= room * heavier) by (nonlinear_arith)
            requires
                0 <= room,
                0 <= lighter <= heavier,
        ;
        assert(0 <= (room * lighter) / divider <= (room * heavier) / divider) by (nonlinear_arith)
            requires
                0 <= room * lighter <= room * heavier,
                0 < divider,
        ;
        if heavier <= divider {
            assert(room * heavier <= room * divider) by (nonlinear_arith)
                requires
                    0 <= room,
                    heavier <= divider,
            ;
            assert((room * heavier) / divider <= room) by (nonlinear_arith)
                requires
                    room * heavier <= room * divider,
                    0 < divider,
            ;
        }
        assert((room * divider) / divider == room) by (nonlinear_arith)
            requires
                0 < divider,
        ;
        assert(room * 0 == 0) by (nonlinear_arith);
    }
}

/// The weights of the first `k` assets that are not held are part of the
/// weight that all of them share.
pub proof fn lemma_free_weight_prefix(assets: Seq<AssetAllocation>, seats: Seq<Seat>, k: int)
    requires
        seats.len() == assets.len(),
        total(weights(claims(assets))) == 100,
        0 <= k <= assets.len(),
    ensures
        0 <= total(free_weights(assets, seats).take(k)) <= divider(assets, seats),
        total(free_weights(assets, seats)) == divider(assets, seats),
        k < assets.len() ==> total(free_weights(assets, seats).take(k + 1)) == total(
            free_weights(assets, seats).take(k),
        ) + free_weights(assets, seats)[k],
{
    let shares_of = free_weights(assets, seats);
    lemma_total_sum(held_weights(assets, seats), shares_of, weights(claims(assets)));
    assert forall|j: int| 0 <= j < shares_of.len() implies shares_of[j] >= 0 by {}
    crate::portfolio::sums::lemma_total_nonnegative(shares_of, k);
    if k < assets.len() {
        lemma_total_take(shares_of, k);
    }
}

/// No part of a room is negative or more than the room; an asset that is
/// held or has no weight gets nothing.
pub proof fn lemma_part_at(
    assets: Seq<AssetAllocation>,
    seats: Seq<Seat>,
    room: int,
    i: int,
)
    requires
        seats.len() == assets.len(),
        total(weights(claims(assets))) == 100,
        0 <= i < assets.len(),
        0 <= room,
    ensures
        0 <= part_at(assets, seats, room, divider(assets, seats), i) <= room,
        0 <= share_upto(assets, seats, room, divider(assets, seats), i) <= share_upto(
            assets,
            seats,
            room,
            divider(assets, seats),
            i + 1,
        ) <= room,
        is_held(seats[i]) || assets[i].expected_weight == 0 ==> part_at(
            assets,
            seats,
            room,
            divider(assets, seats),
            i,
        ) == 0,
{
    let shared = divider(assets, seats);
    let shares_of = free_weights(assets, seats);
    lemma_free_weight_prefix(assets, seats, i);
    lemma_free_weight_prefix(assets, seats, i + 1);
    lemma_fair_part_grows(room, total(shares_of.take(i)), total(shares_of.take(i + 1)), shared);
}

/// A pass over the first `k` assets leaves the held ones and those behind
/// `k` as they are, and seats each of the others with its part.
pub proof fn lemma_pass(
    assets: Seq<AssetAllocation>,
    seats: Seq<Seat>,
    room: int,
    divider: int,
    min_trade_volume: int,
    k: int,
)
    requires
        seats.len() == assets.len(),
        0 <= k <= assets.len(),
    ensures
        ({
            let next = pass(assets, seats, room, divider, min_trade_volume, k);
            &&& next.len() == seats.len()
            &&& forall|j: int|
                0 <= j < seats.len() ==> (#[trigger] next[j]) == if j < k && !is_held(seats[j]) {
                    seat_of(assets[j], part_at(assets, seats, room, divider, j), min_trade_volume)
                } else {
                    seats[j]
                }
        }),
    decreases k,
{
    if k > 0 {
        lemma_pass(assets, seats, room, divider, min_trade_volume, k - 1);
    }
}

/// One for every asset that is not held.
pub open spec fn free_marks(seats: Seq<Seat>) -> Seq<int> {
    Seq::new(
        seats.len(),
        |i: int|
            if is_held(seats[i]) {
                0int
            } else {
                1int
            },
    )
}

/// A whole pass holds assets but frees none, and where it holds a further
/// asset, fewer are left that are not held.
pub proof fn lemma_passed_counts(
    assets: Seq<AssetAllocation>,
    seats: Seq<Seat>,
    budget: int,
    min_trade_volume: int,
)
    requires
        seats.len() == assets.len(),
    ensures
        ({
            let next = passed(assets, seats, budget, min_trade_volume);
            &&& next.len() == seats.len()
            &&& 0 <= total(free_marks(next)) <= total(free_marks(seats))
            &&& !same_standings(next, seats) ==> total(free_marks(next)) < total(
                free_marks(seats),
            )
            &&& total(free_marks(seats)) == 0 ==> same_standings(next, seats)
        }),
{
    let next = passed(assets, seats, budget, min_trade_volume);
    lemma_pass(
        assets,
        seats,
        room(seats, budget),
        divider(assets, seats),
        min_trade_volume,
        assets.len() as int,
    );
    let old_marks = free_marks(seats);
    let new_marks = free_marks(next);
    assert forall|j: int| 0 <= j < seats.len() implies 0 <= #[trigger] new_marks[j]
        <= old_marks[j] by {
        assert(next[j] == next[j]);
    }
    lemma_total_le(new_marks, old_marks);
    lemma_total_floor(new_marks);
    if !same_standings(next, seats) {
        let j = choose|j: int| 0 <= j < next.len() && (#[trigger] next[j]).standing
            != seats[j].standing;
        assert(!is_held(seats[j]));
        assert(is_held(next[j]));
        let bumped = new_marks.update(j, 1);
        lemma_total_update(new_marks, j, 1);
        assert forall|i: int| 0 <= i < seats.len() implies #[trigger] bumped[i] <= old_marks[i] by {
            assert(0 <= new_marks[i] <= old_marks[i]);
        }
        lemma_total_le(bumped, old_marks);
    }
    if total(old_marks) == 0 {
        assert forall|j: int| 0 <= j < seats.len() implies (#[trigger] next[j]).standing
            == seats[j].standing by {
            if !is_held(seats[j]) {
                let dropped = old_marks.update(j, 0);
                lemma_total_update(old_marks, j, 0);
                assert forall|i: int| 0 <= i < dropped.len() implies dropped[i] >= 0 by {}
                lemma_total_floor(dropped);
            }
        }
    }
}

/// The seats that the last pass of `settled_seats` started from.
pub open spec fn last_start(
    assets: Seq<AssetAllocation>,
    seats: Seq<Seat>,
    budget: int,
    min_trade_volume: int,
    passes: nat,
) -> Seq<Seat>
    decreases passes,
{
    let next = passed(assets, seats, budget, min_trade_volume);
    if passes == 0 || same_standings(next, seats) {
        seats
    } else {
        last_start(assets, next, budget, min_trade_volume, (passes - 1) as nat)
    }
}

/// Every held seat suits its asset.
pub open spec fn held_sound(
    assets: Seq<AssetAllocation>,
    seats: Seq<Seat>,
    min_trade_volume: int,
) -> bool {
    &&& seats.len() == assets.len()
    &&& forall|j: int|
        0 <= j < assets.len() && is_held(#[trigger] seats[j]) ==> seat_sound(
            assets[j],
            seats[j],
            min_trade_volume,
        )
}

/// Given as many passes as there are assets not held, the passes end with
/// one that holds no further asset: the seats arrived at are one pass from
/// seats with the same standings, and every one of them suits its asset.
pub proof fn lemma_settled_seats(
    assets: Seq<AssetAllocation>,
    seats: Seq<Seat>,
    budget: int,
    min_trade_volume: int,
    passes: nat,
)
    requires
        held_sound(assets, seats, min_trade_volume),
        total(free_marks(seats)) <= passes,
        total(weights(claims(assets))) == 100,
        owing(assets, seats, budget),
    ensures
        ({
            let start = last_start(assets, seats, budget, min_trade_volume, passes);
            let end = settled_seats(assets, seats, budget, min_trade_volume, passes);
            &&& start.len() == assets.len()
            &&& end == passed(assets, start, budget, min_trade_volume)
            &&& same_standings(end, start)
            &&& owing(assets, start, budget)
            &&& forall|j: int|
                0 <= j < assets.len() ==> seat_sound(
                    assets[j],
                    #[trigger] end[j],
                    min_trade_volume,
                )
        }),
    decreases passes,
{
    let next = passed(assets, seats, budget, min_trade_volume);
    lemma_passed_counts(assets, seats, budget, min_trade_volume);
    lemma_passed_owing(assets, seats, budget, min_trade_volume);
    lemma_pass(
        assets,
        seats,
        room(seats, budget),
        divider(assets, seats),
        min_trade_volume,
        assets.len() as int,
    );
    assert forall|j: int| 0 <= j < assets.len() implies seat_sound(
        assets[j],
        #[trigger] next[j],
        min_trade_volume,
    ) by {
        lemma_part_at(assets, seats, room(seats, budget), j);
        lemma_seat_of(
            assets[j],
            part_at(assets, seats, room(seats, budget), divider(assets, seats), j),
            min_trade_volume,
        );
    }
    if passes == 0 || same_standings(next, seats) {
    } else {
        lemma_settled_seats(assets, next, budget, min_trade_volume, (passes - 1) as nat);
    }
}

/// The parts of the assets in a pass that starts from `seats`.
pub open spec fn free_parts(
    assets: Seq<AssetAllocation>,
    seats: Seq<Seat>,
    room: int,
    divider: int,
) -> Seq<int> {
    Seq::new(assets.len(), |i: int| part_at(assets, seats, room, divider, i))
}

/// The sum of two sequences added element by element is the sum of their
/// sums.
pub proof fn lemma_total_sum(a: Seq<int>, b: Seq<int>, c: Seq<int>)
    requires
        a.len() == b.len(),
        a.len() == c.len(),
        forall|i: int| 0 <= i < a.len() ==> c[i] == a[i] + b[i],
    ensures
        total(c) == total(a) + total(b),
    decreases a.len(),
{
    if a.len() > 0 {
        lemma_total_sum(a.drop_last(), b.drop_last(), c.drop_last());
    }
}

/// The parts of the first `k` assets add up to what they get together.
proof fn lemma_parts_upto(
    assets: Seq<AssetAllocation>,
    seats: Seq<Seat>,
    room: int,
    divider: int,
    k: int,
)
    requires
        seats.len() == assets.len(),
        0 <= k <= assets.len(),
    ensures
        total(free_parts(assets, seats, room, divider).take(k)) == share_upto(
            assets,
            seats,
            room,
            divider,
            k,
        ) - share_upto(assets, seats, room, divider, 0),
    decreases k,
{
    let parts = free_parts(assets, seats, room, divider);
    if k > 0 {
        lemma_parts_upto(assets, seats, room, divider, k - 1);
        lemma_total_take(parts, k - 1);
    } else {
        assert(parts.take(0) =~= Seq::<int>::empty());
    }
}

/// The parts of a pass add up to the room where some weight is left to
/// share it, and are nothing where none is.
pub proof fn lemma_free_parts(assets: Seq<AssetAllocation>, seats: Seq<Seat>, room: int)
    requires
        seats.len() == assets.len(),
        total(weights(claims(assets))) == 100,
        0 <= room,
    ensures
        total(free_parts(assets, seats, room, divider(assets, seats))) == if divider(
            assets,
            seats,
        ) > 0 {
            room
        } else {
            0
        },
        forall|j: int|
            0 <= j < assets.len() ==> 0 <= #[trigger] free_parts(
                assets,
                seats,
                room,
                divider(assets, seats),
            )[j],
        room == 0 || divider(assets, seats) == 0 ==> forall|j: int|
            0 <= j < assets.len() ==> #[trigger] free_parts(
                assets,
                seats,
                room,
                divider(assets, seats),
            )[j] == 0,
{
    let shared = divider(assets, seats);
    let parts = free_parts(assets, seats, room, shared);
    let n = assets.len() as int;
    lemma_parts_upto(assets, seats, room, shared, n);
    assert(parts.take(n) =~= parts);
    lemma_free_weight_prefix(assets, seats, n);
    assert(free_weights(assets, seats).take(n) =~= free_weights(assets, seats));
    assert(free_weights(assets, seats).take(0) =~= Seq::<int>::empty());
    lemma_fair_part_grows(room, 0, shared, shared);
    assert forall|j: int| 0 <= j < assets.len() implies 0 <= #[trigger] parts[j] && (room == 0
        || shared == 0 ==> parts[j] == 0) by {
        lemma_part_at(assets, seats, room, j);
    }
}

/// Numbers that are not negative and add up to nothing are nothing each.
pub proof fn lemma_total_nothing(s: Seq<int>, i: int)
    requires
        forall|j: int| 0 <= j < s.len() ==> s[j] >= 0,
        total(s) == 0,
        0 <= i < s.len(),
    ensures
        s[i] == 0,
{
    let dropped = s.update(i, 0);
    lemma_total_update(s, i, 0);
    assert forall|j: int| 0 <= j < dropped.len() implies dropped[j] >= 0 by {}
    lemma_total_floor(dropped);
}

/// Where no weight is left to share the room, the held assets exceed the
/// budget.
pub open spec fn owing(assets: Seq<AssetAllocation>, seats: Seq<Seat>, budget: int) -> bool {
    divider(assets, seats) == 0 ==> total(held_values(seats)) > budget
}

/// A pass keeps it so that the held assets exceed the budget once no weight
/// is left to share the room: the assets that it holds are each held above
/// their part, and the parts made up the room.
pub proof fn lemma_passed_owing(
    assets: Seq<AssetAllocation>,
    seats: Seq<Seat>,
    budget: int,
    min_trade_volume: int,
)
    requires
        seats.len() == assets.len(),
        total(weights(claims(assets))) == 100,
        owing(assets, seats, budget),
    ensures
        owing(assets, passed(assets, seats, budget, min_trade_volume), budget),
{
    let next = passed(assets, seats, budget, min_trade_volume);
    let free = room(seats, budget);
    let shared = divider(assets, seats);
    lemma_pass(assets, seats, free, shared, min_trade_volume, assets.len() as int);
    if divider(assets, next) == 0 {
        let n = assets.len() as int;
        let parts = free_parts(assets, seats, free, shared);
        lemma_free_parts(assets, seats, free);
        lemma_free_weight_prefix(assets, next, n);
        let left = free_weights(assets, next);
        let before = held_values(seats);
        let after = held_values(next);
        let least = Seq::new(assets.len(), |j: int| before[j] + parts[j]);
        assert forall|j: int| 0 <= j < n implies #[trigger] least[j] <= after[j] && (!is_held(
            seats[j],
        ) && is_held(next[j]) ==> least[j] < after[j]) by {
            lemma_part_at(assets, seats, free, j);
            if is_held(seats[j]) {
                assert(next[j] == seats[j]);
            } else {
                lemma_seat_of(
                    assets[j],
                    part_at(assets, seats, free, shared, j),
                    min_trade_volume,
                );
                if !is_held(next[j]) {
                    assert forall|i: int| 0 <= i < left.len() implies left[i] >= 0 by {}
                    lemma_total_nothing(left, j);
                }
            }
        }
        lemma_total_le(least, after);
        lemma_total_sum(before, parts, least);
        assert(total(after) >= total(before) + total(parts));
        assert(free >= budget - total(before));
        lemma_free_weight_prefix(assets, seats, n);
        if shared > 0 {
            assert(total(parts) == free);
            lemma_free_weight_prefix(assets, seats, n);
            let shares_of = free_weights(assets, seats);
            if forall|j: int| 0 <= j < n ==> #[trigger] shares_of[j] == 0 {
                lemma_total_equal(shares_of, Seq::new(assets.len(), |j: int| 0int));
                lemma_zero_total(assets.len());
            }
            let j = choose|j: int| 0 <= j < n && #[trigger] shares_of[j] != 0;
            assert(!is_held(seats[j]));
            assert(is_held(next[j])) by {
                if !is_held(next[j]) {
                    assert forall|i: int| 0 <= i < left.len() implies left[i] >= 0 by {}
                    lemma_total_nothing(left, j);
                }
            }
            let raised = least.update(j, least[j] + 1);
            lemma_total_update(least, j, least[j] + 1);
            assert forall|i: int| 0 <= i < n implies #[trigger] raised[i] <= after[i] by {
                assert(least[i] <= after[i]);
            }
            lemma_total_le(raised, after);
            assert(total(after) >= total(least) + 1);
        } else {
            assert(total(before) > budget);
            assert(total(parts) == 0);
        }
        assert(total(held_values(next)) > budget);
    }
}

/// Zeros add up to zero.
pub proof fn lemma_zero_total(n: nat)
    ensures
        total(Seq::new(n, |j: int| 0int)) == 0,
    decreases n,
{
    if n > 0 {
        lemma_zero_total((n - 1) as nat);
        assert(Seq::new(n, |j: int| 0int).drop_last() =~= Seq::new((n - 1) as nat, |j: int| 0int));
    }
}

/// Forced selling over the first `k` assets keeps the account: while debt
/// is left the targets exceed the budget by just that debt, and once none
/// is left they are within the budget. It changes no standing and keeps
/// every stock that may not be sold where it is.
pub proof fn lemma_forced(
    assets: Seq<AssetAllocation>,
    seats: Seq<Seat>,
    debt: int,
    budget: int,
    min_trade_volume: int,
    k: int,
)
    requires
        seats.len() == assets.len(),
        0 <= k <= assets.len(),
        0 < debt,
        0 <= min_trade_volume,
        total(seat_targets(seats)) == budget + debt,
        forall|j: int|
            0 <= j < assets.len() ==> seat_sound(assets[j], #[trigger] seats[j], min_trade_volume),
    ensures
        ({
            let after = forced(assets, seats, debt, min_trade_volume, k);
            &&& after.0.len() == seats.len()
            &&& 0 <= after.1 <= debt
            &&& after.1 > 0 ==> total(seat_targets(after.0)) == budget + after.1
            &&& after.1 == 0 ==> total(seat_targets(after.0)) <= budget
            &&& forall|j: int| k <= j < assets.len() ==> (#[trigger] after.0[j]) == seats[j]
            &&& forall|j: int|
                0 <= j < assets.len() ==> (#[trigger] after.0[j]).standing == seats[j].standing
                    && after.0[j].part == seats[j].part && (assets[j].selling_restricted()
                    || assets[j].holding is Group ==> after.0[j] == seats[j])
        }),
    decreases k,
{
    if k > 0 {
        lemma_forced(assets, seats, debt, budget, min_trade_volume, k - 1);
        let (before, left) = forced(assets, seats, debt, min_trade_volume, k - 1);
        if before[k - 1].standing is Dust && left > 0 {
            let sold_down = Seat {
                target: assets[k - 1].current_value - min_trade_volume,
                ..before[k - 1]
            };
            assert(before[k - 1] == seats[k - 1]);
            assert(seat_sound(assets[k - 1], seats[k - 1], min_trade_volume));
            assert(seat_targets(before.update(k - 1, sold_down)) =~= seat_targets(before).update(
                k - 1,
                sold_down.target,
            ));
            lemma_total_update(seat_targets(before), k - 1, sold_down.target);
        }
    }
}

/// Once no further asset has to be held, the account is exact: the targets
/// are the budget and what the held assets exceed it by. Every seat suits
/// its asset.
pub proof fn lemma_settled_account(
    assets: Seq<AssetAllocation>,
    budget: int,
    min_trade_volume: int,
)
    requires
        total(weights(claims(assets))) == 100,
        0 <= min_trade_volume,
    ensures
        ({
            let seats = settled_seats(
                assets,
                initial_seats(assets),
                budget,
                min_trade_volume,
                assets.len(),
            );
            &&& seats.len() == assets.len()
            &&& total(seat_targets(seats)) == budget + debt_of(seats, budget)
            &&& forall|j: int|
                0 <= j < assets.len() ==> seat_sound(
                    assets[j],
                    #[trigger] seats[j],
                    min_trade_volume,
                )
        }),
{
    let n = assets.len();
    let first = initial_seats(assets);
    assert forall|j: int| 0 <= j < first.len() implies #[trigger] free_marks(first)[j] <= 1 by {}
    lemma_total_le(free_marks(first), Seq::new(n, |j: int| 1int));
    lemma_ones_total(n);
    lemma_total_equal(held_weights(assets, first), Seq::new(n, |j: int| 0int));
    lemma_zero_total(n);
    lemma_settled_seats(assets, first, budget, min_trade_volume, n);
    let start = last_start(assets, first, budget, min_trade_volume, n);
    let end = settled_seats(assets, first, budget, min_trade_volume, n);
    let free = room(start, budget);
    let shared = divider(assets, start);
    lemma_pass(assets, start, free, shared, min_trade_volume, n as int);
    assert(held_values(end) =~= held_values(start)) by {
        assert forall|j: int| 0 <= j < n implies held_values(end)[j] == held_values(start)[j] by {
            assert(end[j].standing == start[j].standing);
        }
    }
    let parts = free_parts(assets, start, free, shared);
    lemma_free_parts(assets, start, free);
    assert forall|j: int| 0 <= j < n implies seat_targets(end)[j] == held_values(end)[j]
        + parts[j] by {
        assert(end[j].standing == start[j].standing);
        lemma_part_at(assets, start, free, j);
        if !is_held(start[j]) {
            lemma_seat_of(assets[j], part_at(assets, start, free, shared, j), min_trade_volume);
        }
    }
    lemma_total_sum(held_values(end), parts, seat_targets(end));
    lemma_free_weight_prefix(assets, start, n as int);
    if debt_of(end, budget) > 0 {
        assert(free == 0);
        lemma_total_equal(parts, Seq::new(n, |j: int| 0int));
    } else {
        assert(shared > 0);
    }
}

/// Debt is accounted for: where selling down leaves a debt, the targets
/// exceed the budget by exactly that debt, which is positive; where it
/// leaves none, the targets are the budget, or less than the budget where
/// it came to forced selling. Every seat arrived at suits its asset but for
/// a forced sale.
pub proof fn lemma_resolution(assets: Seq<AssetAllocation>, budget: int, min_trade_volume: int)
    requires
        total(weights(claims(assets))) == 100,
        0 <= min_trade_volume,
    ensures
        ({
            let (seats, debt) = resolution(assets, budget, min_trade_volume);
            &&& seats.len() == assets.len()
            &&& 0 <= debt
            &&& debt > 0 ==> total(seat_targets(seats)) == budget + debt
            &&& debt == 0 ==> total(seat_targets(seats)) <= budget
            &&& !forced_sale(assets, budget, min_trade_volume) ==> total(seat_targets(seats))
                == budget + debt
            &&& forall|j: int|
                0 <= j < assets.len() && assets[j].holding is Stock
                    && assets[j].selling_restricted() ==> (#[trigger] seats[j]).target
                    >= assets[j].current_value
            &&& forall|j: int| 0 <= j < assets.len() ==> 0 <= (#[trigger] seats[j]).part
            &&& forall|j: int|
                0 <= j < assets.len() ==> match assets[j].holding {
                    Holding::Group(children) => (#[trigger] seats[j]).target == group_seat(
                        seats[j].part,
                        resolution(children@, seats[j].part, min_trade_volume).1,
                    ).target,
                    Holding::Stock(_) => true,
                }
        }),
{
    let n = assets.len();
    lemma_settled_account(assets, budget, min_trade_volume);
    let end = settled_seats(assets, initial_seats(assets), budget, min_trade_volume, n);
    let debt = debt_of(end, budget);
    if debt == 0 || all_held(end) {
        assert forall|j: int| 0 <= j < n implies seat_sound(
            assets[j],
            #[trigger] resolution(assets, budget, min_trade_volume).0[j],
            min_trade_volume,
        ) by {
            assert(seat_sound(assets[j], end[j], min_trade_volume));
        }
    } else {
        lemma_forced(assets, end, debt, budget, min_trade_volume, n as int);
        let after = forced(assets, end, debt, min_trade_volume, n as int);
        assert forall|j: int| 0 <= j < n implies 0 <= (#[trigger] after.0[j]).part && (
        assets[j].holding is Stock && assets[j].selling_restricted() ==> after.0[j].target
            >= assets[j].current_value) && match assets[j].holding {
            Holding::Group(children) => after.0[j].target == group_seat(
                after.0[j].part,
                resolution(children@, after.0[j].part, min_trade_volume).1,
            ).target,
            Holding::Stock(_) => true,
        } by {
            assert(seat_sound(assets[j], end[j], min_trade_volume));
        }
    }
}

/// Ones add up to their number.
pub proof fn lemma_ones_total(n: nat)
    ensures
        total(Seq::new(n, |j: int| 1int)) == n,
    decreases n,
{
    if n > 0 {
        lemma_ones_total((n - 1) as nat);
        assert(Seq::new(n, |j: int| 1int).drop_last() =~= Seq::new((n - 1) as nat, |j: int| 1int));
    }
}

/// No stock that may not be sold has a target below its current value.
pub open spec fn selling_respected(assets: Seq<AssetAllocation>) -> bool
    decreases assets, 1int,
{
    forall|i: int| 0 <= i < assets.len() ==> asset_selling_respected(#[trigger] assets[i])
}

pub open spec fn asset_selling_respected(asset: AssetAllocation) -> bool
    decreases asset, 0int,
{
    match asset.holding {
        Holding::Group(children) => selling_respected(children@),
        Holding::Stock(_) => asset.selling_restricted() ==> asset.target_value
            >= asset.current_value,
    }
}

/// No group holds less than its children hold together.
pub open spec fn covered(assets: Seq<AssetAllocation>) -> bool
    decreases assets, 1int,
{
    forall|i: int| 0 <= i < assets.len() ==> asset_covered(#[trigger] assets[i])
}

pub open spec fn asset_covered(asset: AssetAllocation) -> bool
    decreases asset, 0int,
{
    match asset.holding {
        Holding::Group(children) => {
            &&& total(targets(shares(children@))) <= asset.target_value
            &&& covered(children@)
        },
        Holding::Stock(_) => true,
    }
}

/// The targets of assets that were sold down are the targets of their
/// seats.
pub proof fn lemma_sold_targets(
    before: Seq<AssetAllocation>,
    after: Seq<AssetAllocation>,
    budget: int,
    min_trade_volume: int,
)
    requires
        sold(before, after, budget, min_trade_volume),
    ensures
        targets(shares(after)) == seat_targets(resolution(before, budget, min_trade_volume).0),
{
    let arrived = resolution(before, budget, min_trade_volume).0;
    lemma_resolution_len(before, budget, min_trade_volume);
    assert forall|i: int| 0 <= i < before.len() implies targets(shares(after))[i] == seat_targets(
        arrived,
    )[i] by {
        assert(asset_sold(before[i], after[i], arrived[i], min_trade_volume));
    }
    assert(targets(shares(after)) =~= seat_targets(arrived));
}

/// Selling down arrives at one seat for every asset.
pub proof fn lemma_resolution_len(
    assets: Seq<AssetAllocation>,
    budget: int,
    min_trade_volume: int,
)
    ensures
        resolution(assets, budget, min_trade_volume).0.len() == assets.len(),
{
    let n = assets.len();
    lemma_settled_len(assets, initial_seats(assets), budget, min_trade_volume, n);
    let end = settled_seats(assets, initial_seats(assets), budget, min_trade_volume, n);
    lemma_forced_len(assets, end, debt_of(end, budget), min_trade_volume, n as int);
}

proof fn lemma_settled_len(
    assets: Seq<AssetAllocation>,
    seats: Seq<Seat>,
    budget: int,
    min_trade_volume: int,
    passes: nat,
)
    requires
        seats.len() == assets.len(),
    ensures
        settled_seats(assets, seats, budget, min_trade_volume, passes).len() == assets.len(),
    decreases passes,
{
    let next = passed(assets, seats, budget, min_trade_volume);
    lemma_pass(
        assets,
        seats,
        room(seats, budget),
        divider(assets, seats),
        min_trade_volume,
        assets.len() as int,
    );
    if passes == 0 || same_standings(next, seats) {
    } else {
        lemma_settled_len(assets, next, budget, min_trade_volume, (passes - 1) as nat);
    }
}

proof fn lemma_forced_len(
    assets: Seq<AssetAllocation>,
    seats: Seq<Seat>,
    debt: int,
    min_trade_volume: int,
    k: int,
)
    requires
        0 <= k <= seats.len(),
    ensures
        forced(assets, seats, debt, min_trade_volume, k).0.len() == seats.len(),
    decreases k,
{
    if k > 0 {
        lemma_forced_len(assets, seats, debt, min_trade_volume, k - 1);
    }
}

/// Every group holds exactly what its children hold together, unless
/// selling its children down came to forced selling.
pub open spec fn accounted(
    before: Seq<AssetAllocation>,
    after: Seq<AssetAllocation>,
    budget: int,
    min_trade_volume: int,
) -> bool
    decreases before, 1int,
{
    forall|i: int|
        0 <= i < before.len() && i < after.len() ==> asset_accounted(
            #[trigger] before[i],
            after[i],
            resolution(before, budget, min_trade_volume).0[i],
            min_trade_volume,
        )
}

pub open spec fn asset_accounted(
    before: AssetAllocation,
    after: AssetAllocation,
    seat: Seat,
    min_trade_volume: int,
) -> bool
    decreases before, 0int,
{
    match (before.holding, after.holding) {
        (Holding::Group(old_children), Holding::Group(children)) => {
            &&& forced_sale(old_children@, seat.part, min_trade_volume) || total(
                targets(shares(children@)),
            ) == after.target_value
            &&& accounted(old_children@, children@, seat.part, min_trade_volume)
        },
        _ => true,
    }
}

/// Debt is accounted for in the whole tree: after selling down, the
/// top-level assets exceed the budget by exactly the debt that is left, and
/// hold exactly the budget where none is left, unless it came to forced
/// selling, where they may hold less. The same holds of every group and its
/// children. No stock that may not be sold has a target below its current
/// value.
pub proof fn lemma_sold(
    before: Seq<AssetAllocation>,
    after: Seq<AssetAllocation>,
    budget: int,
    min_trade_volume: int,
)
    requires
        weights_valid(before),
        0 <= budget,
        0 <= min_trade_volume,
        sold(before, after, budget, min_trade_volume),
    ensures
        resolution(before, budget, min_trade_volume).1 >= 0,
        resolution(before, budget, min_trade_volume).1 > 0 ==> total(targets(shares(after)))
            == budget + resolution(before, budget, min_trade_volume).1,
        resolution(before, budget, min_trade_volume).1 == 0 ==> total(targets(shares(after)))
            <= budget,
        !forced_sale(before, budget, min_trade_volume) ==> total(targets(shares(after)))
            == budget + resolution(before, budget, min_trade_volume).1,
        covered(after),
        accounted(before, after, budget, min_trade_volume),
        selling_respected(after),
    decreases before,
{
    let (arrived, debt) = resolution(before, budget, min_trade_volume);
    lemma_resolution(before, budget, min_trade_volume);
    lemma_sold_targets(before, after, budget, min_trade_volume);
    assert forall|i: int| 0 <= i < after.len() implies asset_covered(#[trigger] after[i])
        && asset_selling_respected(after[i]) && asset_accounted(
        before[i],
        after[i],
        arrived[i],
        min_trade_volume,
    ) by {
        assert(asset_sold(before[i], after[i], arrived[i], min_trade_volume));
        assert(crate::portfolio::asset_allocation::weight_valid(before[i]));
        match (before[i].holding, after[i].holding) {
            (Holding::Group(old_children), Holding::Group(children)) => {
                lemma_sold(old_children@, children@, arrived[i].part, min_trade_volume);
            },
            _ => {},
        }
    }
}

} // verus!
