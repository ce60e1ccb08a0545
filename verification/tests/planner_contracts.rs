use darwin_sdk::baskets::{BasketManifest, BasketRebalancing, Constituent};
use darwin_sdk::monitor::{
    drift_status, max_drift_bps, mock_oracle_prices, price_for, synthesize_snapshot, DriftStatus,
};
use darwin_sdk::rebalance::{
    abs_drift_bps, constituent_weight_bps, plan, plan_is_defined, total_pool_value,
    ConstituentSnapshot, TradeKind,
};
use darwin_sdk::text::{missing_alias_message, size_mismatch_message, unknown_alias_message};
use darwin_sdk::SdkError;

fn constituent(alias: &str, weight: u32) -> Constituent {
    Constituent { faucet_alias: alias.to_string(), target_weight_bps: weight }
}

fn basket(cs: Vec<Constituent>, threshold: u32) -> BasketManifest {
    BasketManifest {
        symbol: "TST".to_string(),
        name: "Test basket".to_string(),
        constituents: cs,
        rebalancing: BasketRebalancing { drift_threshold_bps: threshold },
    }
}

fn snap<'a>(alias: &'a str, position: u64, price: u64) -> ConstituentSnapshot<'a> {
    ConstituentSnapshot { faucet_alias: alias, position_base_units: position, price_x1e8: price }
}

fn two_asset() -> BasketManifest {
    basket(vec![constituent("darwin-wbtc", 5000), constituent("darwin-eth", 5000)], 500)
}

#[test]
fn weight_is_floor_of_share_in_bps() {
    assert_eq!(constituent_weight_bps(&snap("a", 5000, 2), 15000), 6666);
    assert_eq!(constituent_weight_bps(&snap("a", 5000, 1), 15000), 3333);
    assert_eq!(constituent_weight_bps(&snap("a", 1, 1), 1), 10000);
}

#[test]
fn weight_of_empty_pool_is_zero() {
    assert_eq!(constituent_weight_bps(&snap("a", 5000, 2), 0), 0);
}

#[test]
fn weight_saturates_at_u32_max() {
    assert_eq!(constituent_weight_bps(&snap("a", u64::MAX, u64::MAX), 1), u32::MAX);
    assert_eq!(constituent_weight_bps(&snap("a", 1_000_000, 1), 1), u32::MAX);
}

#[test]
fn abs_drift_is_symmetric_distance() {
    assert_eq!(abs_drift_bps(3, 10), 7);
    assert_eq!(abs_drift_bps(10, 3), 7);
    assert_eq!(abs_drift_bps(0, u32::MAX), u32::MAX);
    assert_eq!(abs_drift_bps(42, 42), 0);
}

#[test]
fn pool_value_sums_clamped_products() {
    assert_eq!(total_pool_value(&[snap("a", 5000, 2), snap("b", 5000, 1)]), 15000);
    assert_eq!(total_pool_value(&[]), 0);
    assert_eq!(total_pool_value(&[snap("a", u64::MAX, 2)]), u64::MAX);
    assert_eq!(total_pool_value(&[snap("a", u64::MAX, 2), snap("b", 0, 9)]), u64::MAX);
}

#[test]
fn size_mismatch_error_text() {
    let manifest = basket(
        vec![constituent("a", 3000), constituent("b", 3000), constituent("c", 4000)],
        500,
    );
    match plan(&manifest, &[]) {
        Err(SdkError::InvalidInput(m)) => {
            assert_eq!(m, "snapshot has 0 entries but manifest declares 3")
        }
        other => panic!("unexpected: {:?}", other.map(|p| p.total_value_x1e8)),
    }
    let snaps = vec![snap("a", 1, 1); 12];
    match plan(&manifest, &snaps) {
        Err(SdkError::InvalidInput(m)) => {
            assert_eq!(m, "snapshot has 12 entries but manifest declares 3")
        }
        other => panic!("unexpected: {:?}", other.map(|p| p.total_value_x1e8)),
    }
}

#[test]
fn unknown_alias_error_names_the_first_unknown() {
    let manifest = basket(
        vec![constituent("a", 3000), constituent("b", 3000), constituent("c", 4000)],
        500,
    );
    let snaps = [snap("a", 1, 1), snap("bogus-1", 1, 1), snap("bogus-2", 1, 1)];
    match plan(&manifest, &snaps) {
        Err(SdkError::InvalidInput(m)) => {
            assert_eq!(m, "snapshot constituent 'bogus-1' is not in the manifest")
        }
        other => panic!("unexpected: {:?}", other.map(|p| p.total_value_x1e8)),
    }
}

#[test]
fn message_builders() {
    assert_eq!(size_mismatch_message(1234567890, 0), "snapshot has 1234567890 entries but manifest declares 0");
    assert_eq!(size_mismatch_message(10, 9), "snapshot has 10 entries but manifest declares 9");
    assert_eq!(unknown_alias_message("x"), "snapshot constituent 'x' is not in the manifest");
    assert_eq!(missing_alias_message("y"), "manifest constituent 'y' is missing from the snapshot");
}

#[test]
fn trade_sizes_at_three_to_one() {
    let manifest = two_asset();
    let snaps = [snap("darwin-wbtc", 5000, 3), snap("darwin-eth", 5000, 1)];
    let p = plan(&manifest, &snaps).unwrap();
    assert_eq!(p.total_value_x1e8, 20000);
    assert_eq!(p.drifts.len(), 2);
    assert_eq!(p.drifts[0].faucet_alias, "darwin-wbtc");
    assert_eq!(p.drifts[0].current_weight_bps, 7500);
    assert_eq!(p.drifts[0].target_weight_bps, 5000);
    assert_eq!(p.drifts[0].drift_bps, 2500);
    assert_eq!(p.drifts[1].current_weight_bps, 2500);
    assert_eq!(p.trades.len(), 2);
    assert_eq!(p.trades[0].faucet_alias, "darwin-wbtc");
    assert_eq!(p.trades[0].kind, TradeKind::Sell);
    // 2500 bps of 20000 is 5000 in value, 1666 base units at price 3.
    assert_eq!(p.trades[0].base_units, 1666);
    assert_eq!(p.trades[0].drift_bps, 2500);
    assert_eq!(p.trades[1].faucet_alias, "darwin-eth");
    assert_eq!(p.trades[1].kind, TradeKind::Buy);
    assert_eq!(p.trades[1].base_units, 5000);
}

#[test]
fn snapshot_order_does_not_matter() {
    let manifest = two_asset();
    let snaps = [snap("darwin-eth", 5000, 1), snap("darwin-wbtc", 5000, 3)];
    let p = plan(&manifest, &snaps).unwrap();
    // Drifts and trades follow the manifest's order.
    assert_eq!(p.drifts[0].faucet_alias, "darwin-wbtc");
    assert_eq!(p.drifts[0].current_weight_bps, 7500);
    assert_eq!(p.trades[0].faucet_alias, "darwin-wbtc");
    assert_eq!(p.trades[1].faucet_alias, "darwin-eth");
}

#[test]
fn drift_equal_to_threshold_does_not_trade() {
    let manifest = basket(vec![constituent("x", 5000), constituent("y", 5000)], 500);
    // x worth 5500 of 10000: weight 5500, drift exactly 500.
    let snaps = [snap("x", 5500, 1), snap("y", 4500, 1)];
    let p = plan(&manifest, &snaps).unwrap();
    assert_eq!(p.drifts[0].drift_bps, 500);
    assert_eq!(p.drifts[1].drift_bps, 500);
    assert!(p.trades.is_empty());
    // One more base unit pushes both over.
    let snaps = [snap("x", 5501, 1), snap("y", 4499, 1)];
    let p = plan(&manifest, &snaps).unwrap();
    assert_eq!(p.trades.len(), 2);
}

#[test]
fn zero_price_trades_zero_units() {
    let manifest = two_asset();
    let snaps = [snap("darwin-wbtc", 5000, 1), snap("darwin-eth", 5000, 0)];
    let p = plan(&manifest, &snaps).unwrap();
    assert_eq!(p.total_value_x1e8, 5000);
    assert_eq!(p.trades.len(), 2);
    assert_eq!(p.trades[0].kind, TradeKind::Sell);
    assert_eq!(p.trades[0].base_units, 2500);
    assert_eq!(p.trades[1].kind, TradeKind::Buy);
    assert_eq!(p.trades[1].base_units, 0);
}

#[test]
fn empty_pool_measures_every_weight_as_zero() {
    let manifest = two_asset();
    let snaps = [snap("darwin-wbtc", 0, 1), snap("darwin-eth", 5, 0)];
    let p = plan(&manifest, &snaps).unwrap();
    assert_eq!(p.total_value_x1e8, 0);
    assert_eq!(p.drifts[0].current_weight_bps, 0);
    assert_eq!(p.drifts[0].drift_bps, 5000);
    assert_eq!(p.trades.len(), 2);
    assert_eq!(p.trades[0].kind, TradeKind::Buy);
    assert_eq!(p.trades[0].base_units, 0);
}

#[test]
fn trade_notional_wraps_at_64_bits() {
    let manifest = basket(vec![constituent("a", 4_000_000_000), constituent("b", 0)], 500);
    let snaps = [snap("a", 1u64 << 63, 1), snap("b", (1u64 << 63) - 1, 1)];
    let p = plan(&manifest, &snaps).unwrap();
    assert_eq!(p.total_value_x1e8, u64::MAX);
    assert_eq!(p.drifts[0].current_weight_bps, 5000);
    assert_eq!(p.drifts[0].drift_bps, 3_999_995_000);
    assert_eq!(p.trades[0].kind, TradeKind::Buy);
    assert_eq!(p.trades[0].base_units, 9_223_372_036_854_375_808);
    assert_eq!(p.drifts[1].current_weight_bps, 4999);
    assert_eq!(p.trades[1].kind, TradeKind::Sell);
    assert_eq!(p.trades[1].base_units, 9_221_527_362_447_404_852);
}

#[test]
fn duplicate_manifest_alias_reads_the_first_entry() {
    let manifest = basket(vec![constituent("a", 5000), constituent("a", 5000)], 500);
    let snaps = [snap("a", 3, 1), snap("a", 1, 1)];
    let p = plan(&manifest, &snaps).unwrap();
    assert_eq!(p.drifts[0].current_weight_bps, 7500);
    assert_eq!(p.drifts[1].current_weight_bps, 7500);
}

#[test]
fn plan_precondition_detection() {
    let manifest = two_asset();
    // Missing darwin-eth: refused with an error, so defined.
    assert!(plan_is_defined(&manifest, &[snap("darwin-wbtc", 1, 1), snap("darwin-wbtc", 1, 1)]));
    // Pool value overflows.
    assert!(!plan_is_defined(
        &manifest,
        &[snap("darwin-wbtc", u64::MAX, 1), snap("darwin-eth", 1, 1)]
    ));
    // Refused inputs are answered with an error, so they are defined.
    assert!(plan_is_defined(&manifest, &[]));
    assert!(plan_is_defined(&manifest, &[snap("zzz", 1, 1), snap("darwin-eth", 1, 1)]));
    assert!(plan_is_defined(&manifest, &[snap("darwin-eth", 1, 7), snap("darwin-wbtc", 9, 1)]));
}

#[test]
fn mock_prices_table() {
    let prices = mock_oracle_prices();
    assert_eq!(
        prices,
        vec![
            ("darwin-dai", 100_000_000u64),
            ("darwin-eth", 200_000_000_000u64),
            ("darwin-usdt", 100_000_000u64),
            ("darwin-wbtc", 6_000_000_000_000u64),
        ]
    );
}

#[test]
fn price_lookup_defaults_to_one() {
    let prices = mock_oracle_prices();
    assert_eq!(price_for(&prices, "darwin-eth"), 200_000_000_000);
    assert_eq!(price_for(&prices, "darwin-wbtc"), 6_000_000_000_000);
    assert_eq!(price_for(&prices, "darwin-doge"), 1);
    assert_eq!(price_for(&[], "darwin-eth"), 1);
    assert_eq!(price_for(&[("x", 5), ("x", 6)], "x"), 5);
}

#[test]
fn synthesized_snapshot_follows_manifest() {
    let manifest = basket(
        vec![constituent("darwin-eth", 4000), constituent("darwin-wbtc", 4000), constituent("darwin-doge", 2000)],
        500,
    );
    let prices = mock_oracle_prices();
    let s = synthesize_snapshot(&manifest, &prices, 6000);
    assert_eq!(s.len(), 3);
    assert_eq!(s[0].faucet_alias, "darwin-eth");
    assert_eq!(s[0].position_base_units, 6000);
    assert_eq!(s[0].price_x1e8, 200_000_000_000);
    assert_eq!(s[1].faucet_alias, "darwin-wbtc");
    assert_eq!(s[1].position_base_units, 4000);
    assert_eq!(s[1].price_x1e8, 6_000_000_000_000);
    assert_eq!(s[2].position_base_units, 2000);
    assert_eq!(s[2].price_x1e8, 1);
    // With no price table every price is 1.
    let unit = synthesize_snapshot(&manifest, &[], 4000);
    assert!(unit.iter().all(|e| e.price_x1e8 == 1));
}

#[test]
fn tick_status_thresholds() {
    assert_eq!(drift_status(501, 500), DriftStatus::Rebalance);
    assert_eq!(drift_status(500, 500), DriftStatus::Watch);
    assert_eq!(drift_status(251, 500), DriftStatus::Watch);
    assert_eq!(drift_status(250, 500), DriftStatus::Within);
    assert_eq!(drift_status(0, 0), DriftStatus::Within);
    assert_eq!(drift_status(1, 0), DriftStatus::Rebalance);
}

#[test]
fn max_drift_of_plan() {
    let manifest = two_asset();
    let p = plan(&manifest, &[snap("darwin-wbtc", 5000, 2), snap("darwin-eth", 5000, 1)]).unwrap();
    assert_eq!(max_drift_bps(&p), 1667);
    let at_par = plan(&manifest, &[snap("darwin-wbtc", 1, 1), snap("darwin-eth", 1, 1)]).unwrap();
    assert_eq!(max_drift_bps(&at_par), 0);
    let empty = plan(&basket(vec![], 500), &[]).unwrap();
    assert_eq!(max_drift_bps(&empty), 0);
    assert_eq!(empty.total_value_x1e8, 0);
}

#[test]
fn snapshot_missing_a_constituent_errors() {
    let manifest = two_asset();
    let snaps = [snap("darwin-wbtc", 1, 1), snap("darwin-wbtc", 1, 1)];
    match plan(&manifest, &snaps) {
        Err(SdkError::InvalidInput(m)) => {
            assert_eq!(m, "manifest constituent 'darwin-eth' is missing from the snapshot")
        }
        other => panic!("unexpected: {:?}", other.map(|p| p.total_value_x1e8)),
    }
}

#[test]
fn unknown_alias_is_reported_before_a_missing_one() {
    let manifest = two_asset();
    let snaps = [snap("darwin-wbtc", 1, 1), snap("zzz", 1, 1)];
    match plan(&manifest, &snaps) {
        Err(SdkError::InvalidInput(m)) => {
            assert_eq!(m, "snapshot constituent 'zzz' is not in the manifest")
        }
        other => panic!("unexpected: {:?}", other.map(|p| p.total_value_x1e8)),
    }
}

#[test]
fn mock_price_aliases_are_strictly_increasing() {
    let prices = mock_oracle_prices();
    for w in prices.windows(2) {
        assert!(w[0].0 < w[1].0);
    }
}
