use investments::portfolio::allocator::distribute;
use investments::portfolio::asset_allocation::{AssetAllocation, Holding, Portfolio, StockHolding};
use investments::portfolio::failure::{ConfigurationError, RebalanceError, ReconciliationFailure};
use investments::portfolio::rebalancing::{
    calculate_restrictions, calculate_target_value, rebalance_portfolio,
};

// Amounts are given in hundredths of the currency unit and held in millionths of those.
const U: i64 = 1_000_000;

fn stock(name: &str, weight: u8, hundredths: i64) -> AssetAllocation {
    let current_value = hundredths * U;
    AssetAllocation {
        name: name.to_owned(),
        expected_weight: weight,
        restrict_buying: None,
        restrict_selling: None,
        holding: Holding::Stock(StockHolding {
            symbol: name.to_owned(),
            quantity: 1,
            price: current_value,
        }),
        current_value,
        target_value: 0,
        min_value: 0,
        max_value: None,
        buy_blocked: false,
        sell_blocked: false,
    }
}

fn group(name: &str, weight: u8, assets: Vec<AssetAllocation>) -> AssetAllocation {
    let current_value = assets.iter().map(|asset| asset.current_value).sum();
    AssetAllocation {
        name: name.to_owned(),
        expected_weight: weight,
        restrict_buying: None,
        restrict_selling: None,
        holding: Holding::Group(assets),
        current_value,
        target_value: 0,
        min_value: 0,
        max_value: None,
        buy_blocked: false,
        sell_blocked: false,
    }
}

fn portfolio(assets: Vec<AssetAllocation>, total_value: i64, min_trade_volume: i64) -> Portfolio {
    Portfolio {
        name: "test".to_owned(),
        assets,
        total_value: total_value * U,
        min_trade_volume: min_trade_volume * U,
    }
}

fn children(asset: &AssetAllocation) -> &Vec<AssetAllocation> {
    match &asset.holding {
        Holding::Group(assets) => assets,
        Holding::Stock(_) => panic!("{} is not a group", asset.name),
    }
}

#[test]
fn equal_weights_split_the_total() {
    let mut p = portfolio(vec![stock("A", 50, 0), stock("B", 50, 0)], 100_000, 100);
    assert_eq!(rebalance_portfolio(&mut p), Ok(()));
    assert_eq!(p.assets[0].target_value, 50_000 * U);
    assert_eq!(p.assets[1].target_value, 50_000 * U);
    assert!(!p.assets[0].buy_blocked && !p.assets[0].sell_blocked);
    assert!(!p.assets[1].buy_blocked && !p.assets[1].sell_blocked);
}

#[test]
fn buying_restriction_moves_the_rest_to_the_sibling() {
    let mut a = stock("A", 50, 30_000);
    a.restrict_buying = Some(true);
    let mut p = portfolio(vec![a, stock("B", 50, 0)], 100_000, 100);
    assert_eq!(rebalance_portfolio(&mut p), Ok(()));
    assert_eq!(p.assets[0].target_value, 30_000 * U);
    assert!(p.assets[0].buy_blocked);
    assert_eq!(p.assets[0].max_value, Some(30_000 * U));
    assert_eq!(p.assets[1].target_value, 70_000 * U);
    assert!(!p.assets[1].buy_blocked);
}

#[test]
fn group_target_is_the_budget_of_its_children() {
    let g = group("G", 40, vec![stock("X", 50, 0), stock("Y", 50, 0)]);
    let mut p = portfolio(vec![g, stock("B", 60, 0)], 100_000, 100);
    assert_eq!(rebalance_portfolio(&mut p), Ok(()));
    assert_eq!(p.assets[0].target_value, 40_000 * U);
    assert_eq!(children(&p.assets[0])[0].target_value, 20_000 * U);
    assert_eq!(children(&p.assets[0])[1].target_value, 20_000 * U);
    assert_eq!(p.assets[1].target_value, 60_000 * U);
}

#[test]
fn dust_snaps_to_current_and_goes_to_the_sibling() {
    let mut p = portfolio(vec![stock("A", 50, 49_970), stock("B", 50, 0)], 100_000, 100);
    assert_eq!(rebalance_portfolio(&mut p), Ok(()));
    assert_eq!(p.assets[0].target_value, 49_970 * U);
    assert_eq!(p.assets[1].target_value, 50_030 * U);
}

#[test]
fn total_below_the_lower_limits_is_reported() {
    let mut a = stock("A", 100, 90_000);
    a.restrict_selling = Some(true);
    let mut p = portfolio(vec![a], 40_000, 100);
    assert_eq!(
        rebalance_portfolio(&mut p),
        Err(RebalanceError::Reconciliation(ReconciliationFailure {
            subtree: "test".to_owned(),
            amount: -50_000 * U,
        }))
    );
    assert_eq!(p.assets[0].target_value, 90_000 * U);
    assert!(p.assets[0].sell_blocked);
}

#[test]
fn total_above_the_upper_limits_is_reported() {
    let mut a = stock("A", 100, 10_000);
    a.restrict_buying = Some(true);
    let mut p = portfolio(vec![a], 40_000, 100);
    assert_eq!(
        rebalance_portfolio(&mut p),
        Err(RebalanceError::Reconciliation(ReconciliationFailure {
            subtree: "test".to_owned(),
            amount: 30_000 * U,
        }))
    );
    assert_eq!(p.assets[0].target_value, 10_000 * U);
}

#[test]
fn weights_that_do_not_add_up_are_rejected() {
    let mut p = portfolio(vec![stock("A", 50, 0), stock("B", 40, 0)], 100_000, 100);
    assert_eq!(
        rebalance_portfolio(&mut p),
        Err(RebalanceError::Configuration(ConfigurationError::InvalidWeights))
    );
    assert_eq!(p.assets[0].target_value, 0 * U);
}

#[test]
fn negative_value_is_rejected() {
    let mut p = portfolio(vec![stock("A", 50, -1), stock("B", 50, 0)], 100_000, 100);
    assert_eq!(
        rebalance_portfolio(&mut p),
        Err(RebalanceError::Configuration(ConfigurationError::ValueOutOfRange))
    );
}

#[test]
fn group_value_that_is_not_the_sum_is_rejected() {
    let mut g = group("G", 40, vec![stock("X", 50, 100), stock("Y", 50, 200)]);
    g.current_value = 500 * U;
    let mut p = portfolio(vec![g, stock("B", 60, 0)], 100_000, 100);
    assert_eq!(
        rebalance_portfolio(&mut p),
        Err(RebalanceError::Configuration(ConfigurationError::InconsistentBounds))
    );
}

#[test]
fn restrictions_set_limits_bottom_up() {
    let mut x = stock("X", 50, 100);
    x.restrict_selling = Some(true);
    let mut y = stock("Y", 50, 200);
    y.restrict_buying = Some(true);
    let mut z = stock("Z", 100, 400);
    z.restrict_buying = Some(true);
    z.restrict_selling = Some(true);
    let mut assets = vec![group("G", 40, vec![x, y]), group("H", 60, vec![z])];
    let limits = calculate_restrictions(&mut assets);
    assert_eq!(limits, (500 * U, None));
    assert_eq!(assets[0].min_value, 100 * U);
    assert_eq!(assets[0].max_value, None);
    assert_eq!(assets[1].min_value, 400 * U);
    assert_eq!(assets[1].max_value, Some(400 * U));
    assert_eq!(children(&assets[0])[0].min_value, 100 * U);
    assert_eq!(children(&assets[0])[0].max_value, None);
    assert_eq!(children(&assets[0])[1].min_value, 0 * U);
    assert_eq!(children(&assets[0])[1].max_value, Some(200 * U));
}

#[test]
fn proportional_parts_are_exact() {
    let mut assets = vec![stock("A", 33, 0), stock("B", 33, 0), stock("C", 34, 0)];
    calculate_restrictions(&mut assets);
    assert_eq!(calculate_target_value("root", &mut assets, 1_001 * U, 0), Ok(()));
    assert_eq!(assets[0].target_value, 330_330_000);
    assert_eq!(assets[1].target_value, 330_330_000);
    assert_eq!(assets[2].target_value, 340_340_000);
}

#[test]
fn odd_total_is_split_in_halves() {
    let mut p = portfolio(vec![stock("A", 50, 0), stock("B", 50, 0)], 601, 1);
    assert_eq!(rebalance_portfolio(&mut p), Ok(()));
    assert_eq!(p.assets[0].target_value, 300_500_000);
    assert_eq!(p.assets[1].target_value, 300_500_000);
    assert!(!p.assets[0].buy_blocked && !p.assets[1].buy_blocked);
}

#[test]
fn limit_below_the_exact_part_blocks_buying() {
    let mut a = stock("A", 50, 300);
    a.restrict_buying = Some(true);
    let mut p = portfolio(vec![a, stock("B", 50, 0)], 601, 1);
    assert_eq!(rebalance_portfolio(&mut p), Ok(()));
    assert_eq!(p.assets[0].target_value, 300 * U);
    assert!(p.assets[0].buy_blocked);
    assert_eq!(p.assets[1].target_value, 301 * U);
}

#[test]
fn negative_dust_goes_to_the_sibling_that_trades() {
    let mut p = portfolio(vec![stock("A", 50, 50_030), stock("B", 50, 0)], 100_000, 100);
    assert_eq!(rebalance_portfolio(&mut p), Ok(()));
    assert_eq!(p.assets[0].target_value, 50_030 * U);
    assert_eq!(p.assets[1].target_value, 49_970 * U);
    assert!(trades_tradable(&p.assets, 100 * U));
}

#[test]
fn amounts_that_make_no_exact_shares_are_rejected() {
    let inexact = Err(RebalanceError::Configuration(ConfigurationError::InexactShares));
    let mut p = portfolio(vec![stock("A", 50, 0), stock("B", 50, 0)], 601, 1);
    p.total_value += 1;
    assert_eq!(rebalance_portfolio(&mut p), inexact);
    let mut p = portfolio(vec![stock("A", 50, 0), stock("B", 50, 0)], 601, 1);
    p.min_trade_volume = 1;
    assert_eq!(rebalance_portfolio(&mut p), inexact);
    let mut p = portfolio(vec![stock("A", 50, 0), stock("B", 50, 0)], 601, 1);
    p.assets[1].current_value = 5;
    assert_eq!(rebalance_portfolio(&mut p), inexact);
    assert_eq!(p.assets[0].target_value, 0);
    // Four levels of assets are one too many.
    let deep = group("L1", 100, vec![group("L2", 100, vec![group("L3", 100, vec![stock("S", 100, 0)])])]);
    let mut p = portfolio(vec![deep], 601, 1);
    assert_eq!(rebalance_portfolio(&mut p), inexact);
    let flat = group("L1", 100, vec![group("L2", 100, vec![stock("S", 100, 0)])]);
    let mut p = portfolio(vec![flat], 601, 1);
    assert_eq!(rebalance_portfolio(&mut p), Ok(()));
}

fn total_of(assets: &Vec<AssetAllocation>) -> i64 {
    assets.iter().map(|asset| asset.target_value).sum()
}

fn conserved(assets: &Vec<AssetAllocation>) -> bool {
    assets.iter().all(|asset| match &asset.holding {
        Holding::Group(children) => total_of(children) == asset.target_value && conserved(children),
        Holding::Stock(_) => true,
    })
}

fn in_limits(assets: &Vec<AssetAllocation>) -> bool {
    assets.iter().all(|asset| {
        asset.min_value <= asset.target_value
            && asset.max_value.map_or(true, |max_value| asset.target_value <= max_value)
            && match &asset.holding {
                Holding::Group(children) => in_limits(children),
                Holding::Stock(_) => true,
            }
    })
}

fn restrictions_respected(assets: &Vec<AssetAllocation>) -> bool {
    assets.iter().all(|asset| match &asset.holding {
        Holding::Group(children) => restrictions_respected(children),
        Holding::Stock(_) => {
            (asset.restrict_selling != Some(true) || asset.target_value >= asset.current_value)
                && (asset.restrict_buying != Some(true) || asset.target_value <= asset.current_value)
        }
    })
}

fn trades_tradable(assets: &Vec<AssetAllocation>, min_trade_volume: i64) -> bool {
    assets.iter().all(|asset| match &asset.holding {
        Holding::Group(children) => trades_tradable(children, min_trade_volume),
        Holding::Stock(_) => {
            let difference = (asset.target_value - asset.current_value).abs();
            difference == 0 || difference >= min_trade_volume
        }
    })
}

fn untouched(assets: &Vec<AssetAllocation>) -> bool {
    assets.iter().all(|asset| {
        asset.target_value == asset.current_value
            && match &asset.holding {
                Holding::Group(children) => untouched(children),
                Holding::Stock(_) => true,
            }
    })
}

fn mixed_portfolio() -> Portfolio {
    let mut x = stock("X", 60, 40_050);
    x.restrict_selling = Some(true);
    let mut y = stock("Y", 40, 1_000);
    y.restrict_buying = Some(true);
    let mut b = stock("B", 20, 12_000);
    b.restrict_buying = Some(true);
    let inner = group("Inner", 50, vec![stock("P", 30, 700), stock("Q", 70, 0)]);
    portfolio(
        vec![
            group("G", 50, vec![x, y, inner]),
            b,
            stock("C", 30, 29_975),
        ],
        100_000,
        100,
    )
}

#[test]
fn every_group_holds_what_its_children_hold() {
    let mut p = mixed_portfolio();
    // The weights of G's children add up to 150: make them valid.
    if let Holding::Group(children) = &mut p.assets[0].holding {
        children[0].expected_weight = 30;
        children[1].expected_weight = 20;
    }
    assert_eq!(rebalance_portfolio(&mut p), Ok(()));
    assert_eq!(total_of(&p.assets), 100_000 * U);
    assert!(conserved(&p.assets));
    assert!(in_limits(&p.assets));
    assert!(restrictions_respected(&p.assets));
    // B may not be bought: it stays at 12 000 and the others share the rest.
    assert_eq!(p.assets[1].target_value, 12_000 * U);
    assert!(p.assets[1].buy_blocked);
    // X may not be sold: it holds at least what it is worth.
    assert!(children(&p.assets[0])[0].target_value >= 40_050 * U);
}

#[test]
fn reported_amount_accounts_for_the_difference() {
    let mut a = stock("A", 50, 30_000);
    a.restrict_selling = Some(true);
    let mut b = stock("B", 50, 25_000);
    b.restrict_selling = Some(true);
    let mut p = portfolio(vec![a, b], 40_000, 100);
    let failure = match rebalance_portfolio(&mut p) {
        Err(RebalanceError::Reconciliation(failure)) => failure,
        other => panic!("unexpected {:?}", other),
    };
    assert_eq!(failure.amount, -15_000 * U);
    assert_eq!(total_of(&p.assets), 40_000 * U - failure.amount);
    assert!(in_limits(&p.assets));
}

#[test]
fn portfolio_at_rest_stays_as_it_is() {
    let mut a = stock("A", 50, 30_000);
    a.restrict_buying = Some(true);
    let g = group("G", 30, vec![stock("X", 50, 15_020), stock("Y", 50, 14_980)]);
    let mut c = stock("C", 20, 40_000);
    c.restrict_selling = Some(true);
    let mut p = portfolio(vec![a, g, c], 100_000, 100);
    assert_eq!(rebalance_portfolio(&mut p), Ok(()));
    assert!(untouched(&p.assets));
    // Once more, from where it ended.
    assert_eq!(rebalance_portfolio(&mut p), Ok(()));
    assert!(untouched(&p.assets));
}

#[test]
fn second_run_keeps_the_targets_of_the_first() {
    let mut p = portfolio(vec![stock("A", 30, 0), stock("B", 70, 100_000)], 100_000, 100);
    assert_eq!(rebalance_portfolio(&mut p), Ok(()));
    assert_eq!(p.assets[0].target_value, 30_000 * U);
    assert_eq!(p.assets[1].target_value, 70_000 * U);
    for asset in p.assets.iter_mut() {
        asset.current_value = asset.target_value;
    }
    assert_eq!(rebalance_portfolio(&mut p), Ok(()));
    assert!(untouched(&p.assets));
}

#[test]
fn balance_goes_to_the_asset_nearest_to_its_value() {
    let restricted = |current_value| {
        let mut a = stock("A", 40, current_value);
        a.restrict_buying = Some(true);
        a
    };
    // B and C are equally far from their values: the first of them takes the balance.
    let mut p = portfolio(vec![restricted(10_000), stock("B", 30, 0), stock("C", 30, 0)], 100_000, 100);
    assert_eq!(rebalance_portfolio(&mut p), Ok(()));
    assert_eq!(p.assets[0].target_value, 10_000 * U);
    assert_eq!(p.assets[1].target_value, 60_000 * U);
    assert_eq!(p.assets[2].target_value, 30_000 * U);

    // With the values of that outcome C is at its part and B is not: now C takes the balance.
    let mut p = portfolio(
        vec![restricted(10_000), stock("B", 30, 60_000), stock("C", 30, 30_000)],
        100_000,
        100,
    );
    assert_eq!(rebalance_portfolio(&mut p), Ok(()));
    assert_eq!(p.assets[0].target_value, 10_000 * U);
    assert_eq!(p.assets[1].target_value, 30_000 * U);
    assert_eq!(p.assets[2].target_value, 60_000 * U);
    assert!(trades_tradable(&p.assets, 100 * U));
}

#[test]
fn shortfall_is_taken_from_the_free_asset() {
    let mut a = stock("A", 50, 70_000);
    a.restrict_selling = Some(true);
    let mut p = portfolio(vec![a, stock("B", 50, 0)], 100_000, 100);
    assert_eq!(rebalance_portfolio(&mut p), Ok(()));
    assert_eq!(p.assets[0].target_value, 70_000 * U);
    assert!(p.assets[0].sell_blocked);
    assert_eq!(p.assets[0].min_value, 70_000 * U);
    assert_eq!(p.assets[1].target_value, 30_000 * U);
    assert!(trades_tradable(&p.assets, 100 * U));
}

#[test]
fn balance_is_handed_out_in_tradable_amounts() {
    // A leaves 15 000. B is to sell 20 000 of 70 000; the whole balance would leave it a
    // sale of 5 000, less than a trade of 10 000, so it takes what leaves it one trade,
    // and the rest is pressed into it at last.
    let mut a = stock("A", 50, 35_000);
    a.restrict_buying = Some(true);
    let mut p = portfolio(vec![a, stock("B", 50, 70_000)], 100_000, 10_000);
    assert_eq!(rebalance_portfolio(&mut p), Ok(()));
    assert_eq!(p.assets[0].target_value, 35_000 * U);
    assert_eq!(p.assets[1].target_value, 65_000 * U);
    assert_eq!(total_of(&p.assets), 100_000 * U);
}

#[test]
fn remainder_is_pressed_into_any_room() {
    // The only asset is 30 short of the total: not worth a trade, but nothing else can take it.
    let mut p = portfolio(vec![stock("A", 100, 49_970)], 50_000, 100);
    assert_eq!(rebalance_portfolio(&mut p), Ok(()));
    assert_eq!(p.assets[0].target_value, 50_000 * U);
    assert!(!trades_tradable(&p.assets, 100 * U));
}

#[test]
fn no_minimum_trade_volume_means_no_dust() {
    let mut p = portfolio(vec![stock("A", 50, 49_999), stock("B", 50, 50_001)], 100_000, 0);
    assert_eq!(rebalance_portfolio(&mut p), Ok(()));
    assert_eq!(p.assets[0].target_value, 50_000 * U);
    assert_eq!(p.assets[1].target_value, 50_000 * U);
}

fn raw(assets: Vec<AssetAllocation>, total_value: i64, min_trade_volume: i64) -> Portfolio {
    Portfolio { name: "test".to_owned(), assets, total_value, min_trade_volume }
}

#[test]
fn amounts_beyond_the_range_are_rejected() {
    let limit = investments::portfolio::asset_allocation::MAX_AMOUNT;
    let out_of_range = Err(RebalanceError::Configuration(ConfigurationError::ValueOutOfRange));
    let mut p = raw(vec![stock("A", 100, 0)], limit + U, 100 * U);
    assert_eq!(rebalance_portfolio(&mut p), out_of_range);
    let mut p = raw(vec![stock("A", 100, 0)], limit, -U);
    assert_eq!(rebalance_portfolio(&mut p), out_of_range);
    let mut p = raw(vec![stock("A", 50, limit / U), stock("B", 50, 1)], limit, 100 * U);
    assert_eq!(rebalance_portfolio(&mut p), out_of_range);
    let mut p = raw(vec![stock("A", 50, limit / U), stock("B", 50, 0)], limit, 100 * U);
    assert_eq!(rebalance_portfolio(&mut p), Ok(()));
    assert_eq!(p.assets[0].target_value, limit / 2);
    let mut p = raw(vec![], 100 * U, 100 * U);
    assert_eq!(
        rebalance_portfolio(&mut p),
        Err(RebalanceError::Configuration(ConfigurationError::InvalidWeights))
    );
}

#[test]
fn weights_of_nested_groups_are_checked() {
    let g = group("G", 100, vec![stock("X", 50, 0), stock("Y", 60, 0)]);
    let mut p = portfolio(vec![g], 100_000, 100);
    assert_eq!(
        rebalance_portfolio(&mut p),
        Err(RebalanceError::Configuration(ConfigurationError::InvalidWeights))
    );
    assert_eq!(investments::portfolio::validation::validate(&p), Err(ConfigurationError::InvalidWeights));
}

#[test]
fn distribution_of_one_level() {
    let mut a = stock("A", 50, 30_000);
    a.max_value = Some(30_000 * U);
    let mut assets = vec![a, stock("B", 50, 0)];
    assert_eq!(distribute(&mut assets, 100_000 * U, 100 * U), 0);
    assert_eq!(assets[0].target_value, 30_000 * U);
    assert_eq!(assets[1].target_value, 70_000 * U);

    let mut a = stock("A", 100, 30_000);
    a.max_value = Some(30_000 * U);
    let mut assets = vec![a];
    assert_eq!(distribute(&mut assets, 100_000 * U, 100 * U), 70_000 * U);
    assert_eq!(assets[0].target_value, 30_000 * U);
}

fn carry_over(assets: &mut Vec<AssetAllocation>) -> i64 {
    let mut sum = 0;
    for asset in assets.iter_mut() {
        asset.current_value = match &mut asset.holding {
            Holding::Group(children) => carry_over(children),
            Holding::Stock(_) => asset.target_value,
        };
        sum += asset.current_value;
    }
    sum
}

#[test]
fn second_run_over_a_quiet_outcome_changes_nothing() {
    // Every share is the proportional part or a limit, and the limits make up for each other.
    let mut x = stock("X", 50, 30_000);
    x.restrict_selling = Some(true);
    let mut y = stock("Y", 50, 10_000);
    y.restrict_buying = Some(true);
    let g = group("G", 40, vec![x, y]);
    let mut p = portfolio(vec![g, stock("B", 35, 0), stock("C", 25, 5_000)], 100_000, 100);
    assert_eq!(rebalance_portfolio(&mut p), Ok(()));
    assert_eq!(p.assets[0].target_value, 40_000 * U);
    assert_eq!(children(&p.assets[0])[0].target_value, 30_000 * U);
    assert_eq!(children(&p.assets[0])[1].target_value, 10_000 * U);
    assert_eq!(p.assets[1].target_value, 35_000 * U);
    assert_eq!(p.assets[2].target_value, 25_000 * U);

    carry_over(&mut p.assets);
    assert_eq!(rebalance_portfolio(&mut p), Ok(()));
    assert!(untouched(&p.assets));
}

#[test]
fn second_run_after_a_limit_moved_value_changes_nothing() {
    let mut a = stock("A", 50, 30_000);
    a.restrict_buying = Some(true);
    let mut p = portfolio(vec![a, stock("B", 50, 0)], 100_000, 100);
    assert_eq!(rebalance_portfolio(&mut p), Ok(()));
    assert_eq!(p.assets[1].target_value, 70_000 * U);
    carry_over(&mut p.assets);
    assert_eq!(rebalance_portfolio(&mut p), Ok(()));
    assert!(untouched(&p.assets));
}

#[test]
fn refined_portfolio_is_rebalanced_in_exact_shares() {
    let plain = |name: &str, weight: u8, current_value: i64| {
        let mut asset = stock(name, weight, 0);
        asset.current_value = current_value;
        asset
    };
    let mut p = raw(vec![plain("A", 50, 100), plain("B", 50, 7)], 601, 1);
    assert_eq!(
        rebalance_portfolio(&mut p),
        Err(RebalanceError::Configuration(ConfigurationError::InexactShares))
    );
    assert_eq!(p.refine(), Ok(()));
    assert_eq!(p.total_value, 601 * U);
    assert_eq!(p.min_trade_volume, U);
    assert_eq!(p.assets[0].current_value, 100 * U);
    assert_eq!(p.assets[1].current_value, 7 * U);
    assert_eq!(rebalance_portfolio(&mut p), Ok(()));
    assert_eq!(p.assets[0].target_value, 300_500_000);
    assert_eq!(p.assets[1].target_value, 300_500_000);

    let mut p = raw(vec![plain("A", 100, 0)], 10_000_000_001, 1);
    assert_eq!(p.refine(), Err(ConfigurationError::ValueOutOfRange));
    assert_eq!(p.total_value, 10_000_000_001);
    let mut p = raw(vec![plain("A", 100, -10_000_000_001)], 1, 1);
    assert_eq!(p.refine(), Err(ConfigurationError::ValueOutOfRange));
}
