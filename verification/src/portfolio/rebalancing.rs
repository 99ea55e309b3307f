//! The rebalancing passes: limits from the bottom up, targets from the top
//! down.

use vstd::prelude::*;
use crate::portfolio::allocator::distribute;
use crate::portfolio::asset_allocation::{
    caps, claims, currents, floors, shares, targets, total_cap, values_valid, AssetAllocation,
    Holding, Portfolio, MAX_AMOUNT, UNIT,
};
use crate::portfolio::debt::{forced_sale, resolution, sold};
use crate::portfolio::debt_laws::{accounted, covered, selling_respected};
use crate::portfolio::distribution::distributed;
use crate::portfolio::failure::{ConfigurationError, RebalanceError, ReconciliationFailure};
use crate::portfolio::grain::{
    aligned, exact_fit, exact_ready, lemma_allocation_exact, lemma_level_exact,
    lemma_limited_fit, multiple, shares_exact,
};
use crate::portfolio::laws::{
    at_rest, conserved, in_limits, lemma_allocation_at_rest, lemma_allocation_conserves,
    lemma_allocation_in_limits, lemma_allocation_respects_restrictions,
    lemma_allocation_tradable, lemma_allocation_tradable_unless_pressed,
    restrictions_respected, settled_by_trades, tradable_unless_pressed, trades_tradable,
    untouched,
};
use crate::portfolio::placement::{
    feasible, lemma_distributed, lemma_ready_currents, placement_ok, within,
};
use crate::portfolio::rerun::{lemma_outcome_untouched, lemma_untouched_exactly, steady};
use crate::portfolio::selling::{sell_overbought_assets, SellResult};
use crate::portfolio::sums::{lemma_total_nonnegative, lemma_total_take, total};
use crate::portfolio::tree::{
    allocated, asset_allocated, asset_limited, lemma_children_ready, lemma_limited,
    lemma_restricted_consistent, lemma_tree_level_ready, limited, tree_ready,
};
use crate::portfolio::validation::{
    configuration_error, fits_unit, lemma_values_valid, portfolio_valid, rebalancing_error,
    validate,
};

verus! {

/// Sets the limits of every node from the bottom up. A stock is held at its
/// current value on the side that a restriction closes, and is free down to
/// zero and unlimited upwards otherwise; a group's limits are the sums of
/// its children's. Returns the limits of the siblings taken together.
pub fn calculate_restrictions(assets: &mut Vec<AssetAllocation>) -> (limits: (i64, Option<i64>))
    requires
        values_valid(old(assets)@),
    ensures
        limited(old(assets)@, final(assets)@),
        limits.0 == total(floors(claims(final(assets)@))),
        match limits.1 {
            Some(v) => total_cap(claims(final(assets)@)) == Some(v as int),
            None => total_cap(claims(final(assets)@)) is None,
        },
    decreases old(assets)@,
{
    let n: usize = assets.len();
    let mut total_min_value: i64 = 0;
    let mut total_max_value: i64 = 0;
    let mut all_with_max_value = true;
    let mut i: usize = 0;
    while i < n
        invariant
            i <= n,
            assets@.len() == n,
            old(assets)@.len() == n,
            values_valid(old(assets)@),
            forall|j: int| 0 <= j < i ==> asset_limited(#[trigger] old(assets)@[j], assets@[j]),
            forall|j: int| i <= j < n ==> (#[trigger] assets@[j]) == old(assets)@[j],
            total_min_value == total(floors(claims(assets@)).take(i as int)),
            total_max_value == total(caps(claims(assets@)).take(i as int)),
            all_with_max_value == (forall|j: int|
                0 <= j < i ==> (#[trigger] assets@[j]).max_value is Some),
            0 <= total_min_value <= total(currents(claims(old(assets)@)).take(i as int)),
            0 <= total_max_value <= total(currents(claims(old(assets)@)).take(i as int)),
        decreases n - i,
    {
        let ghost before = assets@;
        let current_value = assets[i].current_value;
        let selling_restricted = match assets[i].restrict_selling {
            Some(flag) => flag,
            None => false,
        };
        let buying_restricted = match assets[i].restrict_buying {
            Some(flag) => flag,
            None => false,
        };
        proof {
            assert(crate::portfolio::asset_allocation::value_valid(old(assets)@[i as int]));
        }
        let (min_value, max_value) = match &mut assets[i].holding {
            Holding::Group(children) => {
                let ghost old_children = children@;
                let limits = calculate_restrictions(children);
                proof {
                    lemma_limited(old_children, children@);
                    lemma_restricted_consistent(children@);
                }
                limits
            },
            Holding::Stock(_) => {
                let min_value = if selling_restricted {
                    current_value
                } else {
                    0
                };
                let max_value = if buying_restricted {
                    Some(current_value)
                } else {
                    None
                };
                (min_value, max_value)
            },
        };
        assets[i].min_value = min_value;
        assets[i].max_value = max_value;
        proof {
            let cs = claims(assets@);
            let olds = currents(claims(old(assets)@));
            assert(asset_limited(old(assets)@[i as int], assets@[i as int]));
            assert(0 <= min_value <= current_value);
            assert(max_value is Some ==> max_value->0 == current_value);
            assert forall|j: int| 0 <= j < i implies (#[trigger] assets@[j]) == before[j] by {}
            if !all_with_max_value {
                let j = choose|j: int| 0 <= j < i && !((#[trigger] before[j]).max_value is Some);
                assert(assets@[j] == before[j]);
            }
            lemma_total_take(floors(cs), i as int);
            lemma_total_take(caps(cs), i as int);
            lemma_total_take(olds, i as int);
            assert(floors(cs).take(i as int) =~= floors(claims(before)).take(i as int));
            assert(caps(cs).take(i as int) =~= caps(claims(before)).take(i as int));
            assert forall|j: int| 0 <= j < olds.len() implies olds[j] >= 0 by {
                assert(crate::portfolio::asset_allocation::value_valid(old(assets)@[j]));
            }
            lemma_total_nonnegative(olds, i as int + 1);
        }
        total_min_value = total_min_value + min_value;
        match max_value {
            Some(max_value) => {
                total_max_value = total_max_value + max_value;
            },
            None => {
                all_with_max_value = false;
            },
        }
        i += 1;
    }
    proof {
        let cs = claims(assets@);
        assert(floors(cs).take(n as int) =~= floors(cs));
        assert(caps(cs).take(n as int) =~= caps(cs));
        if all_with_max_value {
            assert forall|j: int| 0 <= j < cs.len() implies (#[trigger] cs[j]).max is Some by {
                assert(assets@[j].max_value is Some);
            }
        } else {
            let j = choose|j: int| 0 <= j < n && !((#[trigger] assets@[j]).max_value is Some);
            assert(cs[j].max is None);
        }
    }
    let total_max_value = if all_with_max_value {
        Some(total_max_value)
    } else {
        None
    };
    (total_min_value, total_max_value)
}

/// Distributes the total value over the assets and, through every group,
/// over the whole tree below them: each group's target is the budget of its
/// children. Succeeds exactly when the total lies within the joint limits
/// of the assets; otherwise the failure names the subtree and carries what
/// could not be placed, while every asset still holds its share.
pub fn calculate_target_value(
    name: &str,
    assets: &mut Vec<AssetAllocation>,
    target_total_value: i64,
    min_trade_volume: i64,
) -> (result: Result<(), ReconciliationFailure>)
    requires
        tree_ready(old(assets)@),
        0 <= target_total_value <= MAX_AMOUNT,
        0 <= min_trade_volume <= MAX_AMOUNT,
        exact_ready(old(assets)@, target_total_value as int, min_trade_volume as int),
    ensures
        shares_exact(final(assets)@, target_total_value as int),
        allocated(
            old(assets)@,
            final(assets)@,
            target_total_value as int,
            min_trade_volume as int,
        ),
        result is Ok <==> feasible(claims(old(assets)@), target_total_value as int),
        result matches Err(failure) ==> failure.subtree@ == name@ && failure.amount
            == distributed(
            claims(old(assets)@),
            target_total_value as int,
            min_trade_volume as int,
        ).1,
        conserved(final(assets)@),
        total(targets(shares(final(assets)@))) == target_total_value - match result {
            Ok(_) => 0,
            Err(failure) => failure.amount as int,
        },
        in_limits(final(assets)@),
        restrictions_respected(final(assets)@),
        settled_by_trades(final(assets)@, target_total_value as int, min_trade_volume as int)
            ==> trades_tradable(final(assets)@, min_trade_volume as int),
        tradable_unless_pressed(
            final(assets)@,
            target_total_value as int,
            min_trade_volume as int,
        ),
        at_rest(old(assets)@, target_total_value as int, min_trade_volume as int) ==> untouched(
            final(assets)@,
        ),
        untouched(final(assets)@) <==> steady(
            old(assets)@,
            target_total_value as int,
            min_trade_volume as int,
        ),
    decreases old(assets)@,
{
    let ghost asked = claims(old(assets)@);
    let ghost budget = target_total_value as int;
    let ghost volume = min_trade_volume as int;
    let ghost unit = choose|unit: int| exact_fit(old(assets)@, budget, volume, unit);
    proof {
        lemma_tree_level_ready(old(assets)@, budget, volume);
        lemma_ready_currents(asked, budget, volume);
        lemma_distributed(asked, budget, volume, MAX_AMOUNT as int);
        lemma_level_exact(old(assets)@, budget, volume, unit);
    }
    let residual = distribute(assets, target_total_value, min_trade_volume);
    let ghost given = shares(assets@);
    let n: usize = assets.len();
    let mut i: usize = 0;
    while i < n
        invariant
            i <= n,
            assets@.len() == n,
            old(assets)@.len() == n,
            asked == claims(old(assets)@),
            volume == min_trade_volume as int,
            0 <= min_trade_volume <= MAX_AMOUNT,
            tree_ready(old(assets)@),
            exact_fit(old(assets)@, budget, volume, unit),
            aligned(given, unit / 100),
            forall|j: int, part: int|
                0 <= j < n && multiple(part, unit / 100) ==> (
                #[trigger] old(assets)@[j]).holding is Group ==> #[trigger] exact_fit(
                    old(assets)@[j].children(),
                    part,
                    volume,
                    unit / 100,
                ),
            given == distributed(asked, budget, volume).0,
            within(given, MAX_AMOUNT as int),
            placement_ok(asked, given, distributed(asked, budget, volume).1, budget),
            shares(assets@) == given,
            forall|j: int|
                0 <= j < n ==> (#[trigger] assets@[j]).same_claim_as(old(assets)@[j]),
            forall|j: int|
                0 <= j < i ==> asset_allocated(#[trigger] old(assets)@[j], assets@[j], volume),
            forall|j: int| i <= j < n ==> (#[trigger] assets@[j]).holding == old(assets)@[j].holding,
        decreases n - i,
    {
        let ghost before = assets@;
        let share = assets[i].target_value;
        let group_name = assets[i].name.clone();
        proof {
            assert(given[i as int] == assets@[i as int].share());
            assert(asked[i as int].admits(given[i as int].target));
            assert(given[i as int].target <= MAX_AMOUNT);
            lemma_restricted_consistent(old(assets)@);
            assert(0 <= asked[i as int].min);
        }
        match &mut assets[i].holding {
            Holding::Group(children) => {
                proof {
                    lemma_children_ready(old(assets)@, i as int);
                    assert(children@ == old(assets)@[i as int].children());
                    assert(multiple(given[i as int].target, unit / 100));
                    assert(exact_fit(children@, share as int, volume, unit / 100));
                }
                let _ = calculate_target_value(
                    group_name.as_str(),
                    children,
                    share,
                    min_trade_volume,
                );
            },
            Holding::Stock(_) => {},
        }
        proof {
            assert(shares(assets@) =~= given) by {
                assert forall|j: int| 0 <= j < n implies (#[trigger] assets@[j]).share()
                    == before[j].share() by {}
                assert(shares(before) == given);
                assert forall|j: int| 0 <= j < n implies shares(assets@)[j] == given[j] by {
                    assert(shares(before)[j] == before[j].share());
                }
            }
            assert forall|j: int| 0 <= j < i implies asset_allocated(
                #[trigger] old(assets)@[j],
                assets@[j],
                volume,
            ) by {
                assert(assets@[j] == before[j]);
            }
        }
        i += 1;
    }
    proof {
        lemma_allocation_conserves(old(assets)@, assets@, budget, volume);
        lemma_allocation_in_limits(old(assets)@, assets@, budget, volume);
        lemma_allocation_respects_restrictions(old(assets)@, assets@, budget, volume);
        if settled_by_trades(assets@, budget, volume) {
            lemma_allocation_tradable(old(assets)@, assets@, budget, volume);
        }
        lemma_allocation_tradable_unless_pressed(old(assets)@, assets@, budget, volume);
        lemma_allocation_exact(old(assets)@, assets@, budget, volume, unit);
        lemma_untouched_exactly(old(assets)@, assets@, budget, volume);
        if at_rest(old(assets)@, budget, volume) {
            lemma_allocation_at_rest(old(assets)@, assets@, budget, volume);
        }
    }
    if residual == 0 {
        Ok(())
    } else {
        Err(ReconciliationFailure { subtree: name.to_owned(), amount: residual })
    }
}

/// `after` is `before` with its limits set and the budget distributed over
/// the limited tree.
pub open spec fn rebalanced(
    before: Seq<AssetAllocation>,
    after: Seq<AssetAllocation>,
    budget: int,
    min_trade_volume: int,
) -> bool {
    exists|bounded: Seq<AssetAllocation>| #[trigger]
        limited(before, bounded) && allocated(bounded, after, budget, min_trade_volume)
}

/// What is left of the budget once it is distributed over `after`, a tree
/// that holds its limits.
pub open spec fn unplaced(after: Seq<AssetAllocation>, budget: int, min_trade_volume: int) -> int {
    distributed(claims(after), budget, min_trade_volume).1
}

/// Rebalances the portfolio: sets the limits of every asset from its
/// restrictions, then distributes the total value over the tree.
///
/// A portfolio that is not valid, or whose amounts no exact shares can be
/// made of, is left untouched and the configuration error is returned. Any
/// other always ends with limits and targets set, every proportional part
/// exactly what the weight asks of the budget;
/// the run succeeds when the total value lies within the joint limits of
/// the top-level assets, and otherwise reports, under the portfolio's name,
/// the amount that could not be placed.
pub fn rebalance_portfolio(portfolio: &mut Portfolio) -> (result: Result<(), RebalanceError>)
    ensures
        final(portfolio).name == old(portfolio).name,
        final(portfolio).total_value == old(portfolio).total_value,
        final(portfolio).min_trade_volume == old(portfolio).min_trade_volume,
        rebalancing_error(*old(portfolio)) is Some ==> *final(portfolio) == *old(portfolio)
            && match result {
            Err(RebalanceError::Configuration(error)) => rebalancing_error(*old(portfolio))
                == Some(error),
            _ => false,
        },
        rebalancing_error(*old(portfolio)) is None ==> {
            &&& shares_exact(final(portfolio).assets@, old(portfolio).total_value as int)
            &&& rebalanced(
                old(portfolio).assets@,
                final(portfolio).assets@,
                old(portfolio).total_value as int,
                old(portfolio).min_trade_volume as int,
            )
            &&& conserved(final(portfolio).assets@)
            &&& in_limits(final(portfolio).assets@)
            &&& restrictions_respected(final(portfolio).assets@)
            &&& settled_by_trades(
                final(portfolio).assets@,
                old(portfolio).total_value as int,
                old(portfolio).min_trade_volume as int,
            ) ==> trades_tradable(
                final(portfolio).assets@,
                old(portfolio).min_trade_volume as int,
            )
            &&& tradable_unless_pressed(
                final(portfolio).assets@,
                old(portfolio).total_value as int,
                old(portfolio).min_trade_volume as int,
            )
            &&& untouched(final(portfolio).assets@) <==> steady(
                final(portfolio).assets@,
                old(portfolio).total_value as int,
                old(portfolio).min_trade_volume as int,
            )
            &&& total(targets(shares(final(portfolio).assets@))) == old(portfolio).total_value
                - match result {
                Err(RebalanceError::Reconciliation(failure)) => failure.amount as int,
                _ => 0,
            }
            &&& match result {
                Ok(_) => feasible(
                    claims(final(portfolio).assets@),
                    old(portfolio).total_value as int,
                ),
                Err(RebalanceError::Reconciliation(failure)) => {
                    &&& !feasible(
                        claims(final(portfolio).assets@),
                        old(portfolio).total_value as int,
                    )
                    &&& failure.subtree@ == old(portfolio).name@
                    &&& failure.amount == unplaced(
                        final(portfolio).assets@,
                        old(portfolio).total_value as int,
                        old(portfolio).min_trade_volume as int,
                    )
                },
                Err(RebalanceError::Configuration(_)) => false,
            }
        },
{
    match validate(portfolio) {
        Err(error) => {
            return Err(RebalanceError::Configuration(error));
        },
        Ok(_) => {},
    }
    if !fits_unit(portfolio) {
        return Err(RebalanceError::Configuration(ConfigurationError::InexactShares));
    }
    proof {
        lemma_values_valid(portfolio.assets@);
    }
    let _ = calculate_restrictions(&mut portfolio.assets);
    let ghost bounded = portfolio.assets@;
    proof {
        lemma_limited(old(portfolio).assets@, bounded);
        lemma_limited_fit(old(portfolio).assets@, bounded, UNIT as int, UNIT as int);
        assert(exact_fit(
            bounded,
            portfolio.total_value as int,
            portfolio.min_trade_volume as int,
            UNIT as int,
        ));
    }
    let outcome = calculate_target_value(
        portfolio.name.as_str(),
        &mut portfolio.assets,
        portfolio.total_value,
        portfolio.min_trade_volume,
    );
    proof {
        assert(claims(portfolio.assets@) =~= claims(bounded)) by {
            assert forall|i: int| 0 <= i < bounded.len() implies claims(portfolio.assets@)[i]
                == claims(bounded)[i] by {
                assert(asset_allocated(
                    bounded[i],
                    portfolio.assets@[i],
                    portfolio.min_trade_volume as int,
                ));
            }
        }
        assert(limited(old(portfolio).assets@, bounded) && allocated(
            bounded,
            portfolio.assets@,
            portfolio.total_value as int,
            portfolio.min_trade_volume as int,
        ));
        lemma_outcome_untouched(
            bounded,
            portfolio.assets@,
            portfolio.total_value as int,
            portfolio.min_trade_volume as int,
        );
    }
    match outcome {
        Ok(_) => Ok(()),
        Err(failure) => Err(RebalanceError::Reconciliation(failure)),
    }
}

/// Sells the portfolio down to its total value where it is worth more.
///
/// A portfolio that is not valid is left untouched and the configuration
/// error is returned. In a valid one every asset gets the target that
/// selling down arrives at. Where the assets that cannot be sold still
/// exceed the total value, the failure reports, under the portfolio's name,
/// the debt as the negative amount that is missing from the total.
pub fn sell_overbought_portfolio(portfolio: &mut Portfolio) -> (result: Result<(), RebalanceError>)
    ensures
        final(portfolio).name == old(portfolio).name,
        final(portfolio).total_value == old(portfolio).total_value,
        final(portfolio).min_trade_volume == old(portfolio).min_trade_volume,
        !portfolio_valid(*old(portfolio)) ==> *final(portfolio) == *old(portfolio) && match result {
            Err(RebalanceError::Configuration(error)) => configuration_error(*old(portfolio))
                == Some(error),
            _ => false,
        },
        portfolio_valid(*old(portfolio)) ==> {
            &&& sold(
                old(portfolio).assets@,
                final(portfolio).assets@,
                old(portfolio).total_value as int,
                old(portfolio).min_trade_volume as int,
            )
            &&& covered(final(portfolio).assets@)
            &&& accounted(
                old(portfolio).assets@,
                final(portfolio).assets@,
                old(portfolio).total_value as int,
                old(portfolio).min_trade_volume as int,
            )
            &&& selling_respected(final(portfolio).assets@)
            &&& match result {
                Ok(_) => {
                    &&& resolution(
                        old(portfolio).assets@,
                        old(portfolio).total_value as int,
                        old(portfolio).min_trade_volume as int,
                    ).1 == 0
                    &&& total(targets(shares(final(portfolio).assets@))) <= old(
                        portfolio,
                    ).total_value
                    &&& !forced_sale(
                        old(portfolio).assets@,
                        old(portfolio).total_value as int,
                        old(portfolio).min_trade_volume as int,
                    ) ==> total(targets(shares(final(portfolio).assets@))) == old(
                        portfolio,
                    ).total_value
                },
                Err(RebalanceError::Reconciliation(failure)) => {
                    &&& failure.amount < 0
                    &&& -failure.amount == resolution(
                        old(portfolio).assets@,
                        old(portfolio).total_value as int,
                        old(portfolio).min_trade_volume as int,
                    ).1
                    &&& failure.subtree@ == old(portfolio).name@
                    &&& total(targets(shares(final(portfolio).assets@))) == old(
                        portfolio,
                    ).total_value - failure.amount
                },
                Err(RebalanceError::Configuration(_)) => false,
            }
        },
{
    match validate(portfolio) {
        Err(error) => {
            return Err(RebalanceError::Configuration(error));
        },
        Ok(_) => {},
    }
    proof {
        lemma_values_valid(portfolio.assets@);
    }
    match sell_overbought_assets(
        &mut portfolio.assets,
        portfolio.total_value,
        portfolio.min_trade_volume,
    ) {
        SellResult::Resolved => Ok(()),
        SellResult::Debt(debt) => Err(
            RebalanceError::Reconciliation(
                ReconciliationFailure { subtree: portfolio.name.clone(), amount: -debt },
            ),
        ),
    }
}

} // verus!
