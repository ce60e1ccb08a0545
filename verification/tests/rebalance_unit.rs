use darwin_sdk::baskets::{BasketManifest, BasketRebalancing, Constituent};
use darwin_sdk::rebalance::{plan, ConstituentSnapshot, TradeKind};
use darwin_sdk::SdkError;

fn constituent(alias: &str, weight: u32) -> Constituent {
    Constituent { faucet_alias: alias.to_string(), target_weight_bps: weight }
}

/// The Core Crypto basket (DCC).
fn core_crypto() -> BasketManifest {
    BasketManifest {
        symbol: "DCC".to_string(),
        name: "Darwin Core Crypto".to_string(),
        constituents: vec![
            constituent("darwin-wbtc", 5000),
            constituent("darwin-eth", 3000),
            constituent("darwin-usdt", 2000),
        ],
        rebalancing: BasketRebalancing { drift_threshold_bps: 500 },
    }
}

fn snap<'a>(alias: &'a str, position: u64, price: u64) -> ConstituentSnapshot<'a> {
    ConstituentSnapshot {
        faucet_alias: alias,
        position_base_units: position,
        price_x1e8: price,
    }
}

#[test]
fn drift_at_par_is_zero_and_yields_no_trades() {
    let manifest = core_crypto();
    let snap_vec: Vec<_> = manifest
        .constituents
        .iter()
        .map(|c| snap(&c.faucet_alias, c.target_weight_bps as u64, 1))
        .collect();
    let plan = plan(&manifest, &snap_vec).expect("plan ok");
    assert!(plan.trades.is_empty(), "no drift => no trades");
    for d in plan.drifts {
        assert_eq!(d.current_weight_bps, d.target_weight_bps);
        assert_eq!(d.drift_bps, 0);
    }
}

#[test]
fn over_weighted_constituent_triggers_a_sell() {
    let manifest = core_crypto();
    let drift_threshold = manifest.rebalancing.drift_threshold_bps as u32;
    let mut snap_vec: Vec<_> = manifest
        .constituents
        .iter()
        .map(|c| snap(&c.faucet_alias, c.target_weight_bps as u64, 1))
        .collect();
    snap_vec[0].position_base_units = snap_vec[0].position_base_units.saturating_mul(3);

    let plan = plan(&manifest, &snap_vec).unwrap();
    let first_alias = &manifest.constituents[0].faucet_alias;
    let trade = plan
        .trades
        .iter()
        .find(|t| t.faucet_alias == *first_alias)
        .expect("first constituent should rebalance");
    assert_eq!(trade.kind, TradeKind::Sell);
    assert!(trade.drift_bps > drift_threshold);
}

#[test]
fn under_weighted_constituent_triggers_a_buy() {
    let manifest = core_crypto();
    let drift_threshold = manifest.rebalancing.drift_threshold_bps as u32;
    let mut snap_vec: Vec<_> = manifest
        .constituents
        .iter()
        .map(|c| snap(&c.faucet_alias, c.target_weight_bps as u64, 1))
        .collect();
    snap_vec[0].position_base_units /= 10;

    let plan = plan(&manifest, &snap_vec).unwrap();
    let first_alias = &manifest.constituents[0].faucet_alias;
    let trade = plan
        .trades
        .iter()
        .find(|t| t.faucet_alias == *first_alias)
        .expect("under-weighted constituent should buy");
    assert_eq!(trade.kind, TradeKind::Buy);
    assert!(trade.drift_bps > drift_threshold);
}

#[test]
fn unknown_alias_in_snapshot_errors() {
    let manifest = core_crypto();
    let snap_vec = vec![snap("not-a-real-alias", 100, 1); manifest.constituents.len()];
    assert!(matches!(
        plan(&manifest, &snap_vec),
        Err(SdkError::InvalidInput(_))
    ));
}

#[test]
fn snapshot_size_mismatch_errors() {
    let manifest = core_crypto();
    let err = plan(&manifest, &[]).unwrap_err();
    assert!(matches!(err, SdkError::InvalidInput(_)));
}

#[test]
fn weights_sum_close_to_ten_thousand_at_par() {
    let manifest = core_crypto();
    let snap_vec: Vec<_> = manifest
        .constituents
        .iter()
        .map(|c| snap(&c.faucet_alias, c.target_weight_bps as u64, 1))
        .collect();
    let plan = plan(&manifest, &snap_vec).unwrap();
    let sum: u32 = plan.drifts.iter().map(|d| d.current_weight_bps).sum();
    assert!((9_995..=10_000).contains(&sum), "got {sum}");
}
