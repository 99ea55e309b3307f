use investments::portfolio::asset_allocation::{AssetAllocation, Holding, Portfolio, StockHolding};
use investments::portfolio::failure::{ConfigurationError, RebalanceError, ReconciliationFailure};
use investments::portfolio::rebalancing::sell_overbought_portfolio;
use investments::portfolio::debt::Standing;
use investments::portfolio::selling::{resolve_debt, sell_overbought_assets, SellResult};

fn holding(name: &str, weight: u8, current_value: i64) -> AssetAllocation {
    AssetAllocation {
        name: name.to_owned(),
        expected_weight: weight,
        restrict_buying: None,
        restrict_selling: None,
        holding: Holding::Stock(StockHolding {
            symbol: name.to_owned(),
            quantity: 1,
            price: current_value,
        }),
        current_value,
        target_value: current_value,
        min_value: 0,
        max_value: None,
        buy_blocked: false,
        sell_blocked: false,
    }
}

fn bundle(name: &str, weight: u8, assets: Vec<AssetAllocation>) -> AssetAllocation {
    let current_value = assets.iter().map(|asset| asset.current_value).sum();
    AssetAllocation {
        name: name.to_owned(),
        expected_weight: weight,
        restrict_buying: None,
        restrict_selling: None,
        holding: Holding::Group(assets),
        current_value,
        target_value: current_value,
        min_value: 0,
        max_value: None,
        buy_blocked: false,
        sell_blocked: false,
    }
}

fn parts(asset: &AssetAllocation) -> &Vec<AssetAllocation> {
    match &asset.holding {
        Holding::Group(assets) => assets,
        Holding::Stock(_) => panic!("{} is not a group", asset.name),
    }
}

#[test]
fn sell_restricted_leaf_leaves_debt() {
    let mut a = holding("A", 100, 90_000);
    a.restrict_selling = Some(true);
    let mut assets = vec![a];
    assert_eq!(sell_overbought_assets(&mut assets, 40_000, 100), SellResult::Debt(50_000));
    assert_eq!(assets[0].target_value, 90_000);
}

#[test]
fn free_leaves_are_sold_to_their_parts() {
    let mut assets = vec![holding("A", 50, 90_000), holding("B", 50, 10_000)];
    assert_eq!(sell_overbought_assets(&mut assets, 40_000, 100), SellResult::Resolved);
    assert_eq!(assets[0].target_value, 20_000);
    assert_eq!(assets[1].target_value, 20_000);
}

#[test]
fn held_asset_leaves_the_rest_to_its_sibling() {
    let mut a = holding("A", 50, 30_000);
    a.restrict_selling = Some(true);
    let mut assets = vec![a, holding("B", 50, 70_000)];
    assert_eq!(sell_overbought_assets(&mut assets, 40_000, 100), SellResult::Resolved);
    assert_eq!(assets[0].target_value, 30_000);
    assert_eq!(assets[1].target_value, 10_000);
    let (positions, debt) = resolve_debt(&assets, 40_000, 100);
    assert_eq!(debt, 0);
    assert_eq!(positions[0].standing, Standing::Uncorrectable);
    assert_eq!(positions[0].part, 20_000);
    assert_eq!(positions[1].standing, Standing::Correctable);
    assert_eq!(positions[1].part, 10_000);
}

#[test]
fn asset_worth_less_than_a_trade_is_held() {
    let mut assets = vec![holding("A", 50, 50), holding("B", 50, 70_000)];
    assert_eq!(sell_overbought_assets(&mut assets, 60, 100), SellResult::Resolved);
    assert_eq!(assets[0].target_value, 50);
    assert_eq!(assets[1].target_value, 10);
}

#[test]
fn sale_below_a_trade_is_held_as_dust() {
    // A's part is 19 980 of 20 000: selling 20 is not worth a trade.
    let mut assets = vec![holding("A", 50, 20_000), holding("B", 50, 19_960)];
    assert_eq!(sell_overbought_assets(&mut assets, 39_960, 100), SellResult::Resolved);
    assert_eq!(assets[0].target_value, 20_000);
    assert_eq!(assets[1].target_value, 19_960);
    let (positions, _) = resolve_debt(&assets, 39_960, 100);
    assert_eq!(positions[0].standing, Standing::Dust);
    assert_eq!(positions[1].standing, Standing::Correctable);
}

#[test]
fn forced_selling_sells_one_trade_of_a_dust_holding() {
    // A is held as dust, then B, restricted, is held above the budget:
    // 20 000 + 19 990 exceed 39 970 by 20. C stays free, so A is forced to
    // sell one trade.
    let mut b = holding("B", 49, 19_990);
    b.restrict_selling = Some(true);
    let mut assets = vec![holding("A", 50, 20_000), b, holding("C", 1, 0)];
    assert_eq!(sell_overbought_assets(&mut assets, 39_970, 100), SellResult::Resolved);
    assert_eq!(assets[0].target_value, 19_900);
    assert_eq!(assets[1].target_value, 19_990);
    assert_eq!(assets[2].target_value, 0);
}

#[test]
fn debt_of_a_group_holds_the_group() {
    let mut x = holding("X", 100, 50_000);
    x.restrict_selling = Some(true);
    let g = bundle("G", 50, vec![x]);
    let mut assets = vec![g, holding("B", 50, 50_000)];
    assert_eq!(sell_overbought_assets(&mut assets, 60_000, 100), SellResult::Resolved);
    // G is given 30 000, its child leaves 20 000 of debt, so G is held at 50 000
    // and B takes what is left.
    assert_eq!(assets[0].target_value, 50_000);
    assert_eq!(parts(&assets[0])[0].target_value, 50_000);
    assert_eq!(assets[1].target_value, 10_000);
}

#[test]
fn exhausted_assets_report_what_they_exceed_the_budget_by() {
    let mut a = holding("A", 50, 30_000);
    a.restrict_selling = Some(true);
    let mut b = holding("B", 50, 25_000);
    b.restrict_selling = Some(true);
    let mut assets = vec![a, b];
    assert_eq!(sell_overbought_assets(&mut assets, 40_000, 100), SellResult::Debt(15_000));
    assert_eq!(assets[0].target_value, 30_000);
    assert_eq!(assets[1].target_value, 25_000);
}

#[test]
fn portfolio_is_sold_down() {
    let mut a = holding("A", 100, 90_000);
    a.restrict_selling = Some(true);
    let mut p = Portfolio {
        name: "main".to_owned(),
        assets: vec![a],
        total_value: 40_000,
        min_trade_volume: 100,
    };
    assert_eq!(
        sell_overbought_portfolio(&mut p),
        Err(RebalanceError::Reconciliation(ReconciliationFailure {
            subtree: "main".to_owned(),
            amount: -50_000,
        }))
    );
    assert_eq!(p.assets[0].target_value, 90_000);

    p.assets[0].restrict_selling = None;
    assert_eq!(sell_overbought_portfolio(&mut p), Ok(()));
    assert_eq!(p.assets[0].target_value, 40_000);

    p.assets[0].expected_weight = 90;
    assert_eq!(
        sell_overbought_portfolio(&mut p),
        Err(RebalanceError::Configuration(ConfigurationError::InvalidWeights))
    );
    assert_eq!(p.assets[0].target_value, 40_000);
}

#[test]
fn sold_down_assets_account_for_the_budget() {
    let mut x = holding("X", 60, 30_000);
    x.restrict_selling = Some(true);
    let g = bundle("G", 40, vec![x, holding("Y", 40, 20_000)]);
    let mut assets = vec![g, holding("B", 35, 45_000), holding("C", 25, 5_050)];
    let result = sell_overbought_assets(&mut assets, 70_001, 100);
    assert_eq!(result, SellResult::Resolved);
    let sum: i64 = assets.iter().map(|asset| asset.target_value).sum();
    assert!(sum <= 70_001);
    let inner: i64 = parts(&assets[0]).iter().map(|asset| asset.target_value).sum();
    assert!(inner <= assets[0].target_value);
    assert!(parts(&assets[0])[0].target_value >= 30_000);
}

#[test]
fn parts_add_up_to_the_budget() {
    let mut assets = vec![holding("A", 50, 100), holding("B", 50, 100)];
    assert_eq!(sell_overbought_assets(&mut assets, 11, 1), SellResult::Resolved);
    assert_eq!(assets[0].target_value + assets[1].target_value, 11);
    assert_eq!(assets[0].target_value, 5);
    assert_eq!(assets[1].target_value, 6);

    // In a finer unit the halves are exact.
    let mut assets = vec![holding("A", 50, 10_000), holding("B", 50, 10_000)];
    assert_eq!(sell_overbought_assets(&mut assets, 1_100, 100), SellResult::Resolved);
    assert_eq!(assets[0].target_value, 550);
    assert_eq!(assets[1].target_value, 550);

    // What a held asset leaves is shared out whole.
    let mut a = holding("A", 30, 500);
    a.restrict_selling = Some(true);
    let mut assets = vec![a, holding("B", 35, 4_000), holding("C", 35, 4_000)];
    assert_eq!(sell_overbought_assets(&mut assets, 1_001, 10), SellResult::Resolved);
    assert_eq!(assets[0].target_value, 500);
    assert_eq!(assets[1].target_value, 250);
    assert_eq!(assets[2].target_value, 251);
}

#[test]
fn groups_hold_what_their_children_hold() {
    let g = bundle("G", 50, vec![holding("X", 30, 4_000), holding("Y", 70, 4_000)]);
    let mut assets = vec![g, holding("B", 50, 8_000)];
    assert_eq!(sell_overbought_assets(&mut assets, 1_001, 10), SellResult::Resolved);
    assert_eq!(assets[0].target_value, 500);
    assert_eq!(assets[1].target_value, 501);
    assert_eq!(parts(&assets[0])[0].target_value, 150);
    assert_eq!(parts(&assets[0])[1].target_value, 350);
}
