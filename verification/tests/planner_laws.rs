use darwin_sdk::baskets::{BasketManifest, BasketRebalancing, Constituent};
use darwin_sdk::monitor::{drift_status, max_drift_bps, DriftStatus};
use darwin_sdk::rebalance::{constituent_weight_bps, plan, total_pool_value, ConstituentSnapshot, RebalancePlan, TradeKind};

fn constituent(alias: &str, weight: u32) -> Constituent {
    Constituent { faucet_alias: alias.to_string(), target_weight_bps: weight }
}

fn basket(cs: Vec<Constituent>, threshold: u32) -> BasketManifest {
    BasketManifest {
        symbol: "TST".to_string(),
        name: "Test basket".to_string(),
        constituents: cs,
        rebalancing: BasketRebalancing { drift_threshold_bps: threshold },
    }
}

fn snap<'a>(alias: &'a str, position: u64, price: u64) -> ConstituentSnapshot<'a> {
    ConstituentSnapshot { faucet_alias: alias, position_base_units: position, price_x1e8: price }
}

#[test]
fn at_par_with_real_prices_has_no_drift() {
    // Values 6000, 3000, 1000 of 10000 against targets 6000, 3000, 1000.
    let manifest = basket(
        vec![constituent("wbtc", 6000), constituent("eth", 3000), constituent("usdt", 1000)],
        0,
    );
    let snaps = [snap("usdt", 10, 100), snap("wbtc", 2, 3000), snap("eth", 3, 1000)];
    let p = plan(&manifest, &snaps).unwrap();
    assert_eq!(p.total_value_x1e8, 10000);
    for d in &p.drifts {
        assert_eq!(d.current_weight_bps, d.target_weight_bps);
        assert_eq!(d.drift_bps, 0);
    }
    assert!(p.trades.is_empty());
}

#[test]
fn weights_sum_within_rounding_of_full_pool() {
    // Three equal values: 3333 each, 9999 in all, one short per rounding.
    let manifest = basket(vec![constituent("a", 3333), constituent("b", 3333), constituent("c", 3334)], 100);
    let snaps = [snap("a", 1, 7), snap("b", 7, 1), snap("c", 1, 7)];
    let p = plan(&manifest, &snaps).unwrap();
    let sum: u32 = p.drifts.iter().map(|d| d.current_weight_bps).sum();
    assert_eq!(sum, 9999);
    assert!(sum > 10000 - 3 && sum <= 10000);
}

#[test]
fn every_trade_exceeds_threshold_and_sells_only_overweights() {
    let manifest = basket(
        vec![constituent("a", 2500), constituent("b", 2500), constituent("c", 2500), constituent("d", 2500)],
        400,
    );
    // Values 4000, 2000, 2300, 1700 of 10000.
    let snaps = [snap("a", 4000, 1), snap("b", 2000, 1), snap("c", 2300, 1), snap("d", 1700, 1)];
    let p = plan(&manifest, &snaps).unwrap();
    assert_eq!(p.trades.len(), 3);
    for t in &p.trades {
        assert!(t.drift_bps > 400);
        let d = p.drifts.iter().find(|d| d.faucet_alias == t.faucet_alias).unwrap();
        assert_eq!(t.kind == TradeKind::Sell, d.current_weight_bps > d.target_weight_bps);
    }
    assert_eq!(p.trades[0].faucet_alias, "a");
    assert_eq!(p.trades[1].faucet_alias, "b");
    assert_eq!(p.trades[2].faucet_alias, "d");
}

#[test]
fn drifts_within_threshold_plan_no_trades() {
    let manifest = basket(vec![constituent("a", 5000), constituent("b", 5000)], 1000);
    let snaps = [snap("a", 5900, 1), snap("b", 4100, 1)];
    let p = plan(&manifest, &snaps).unwrap();
    assert_eq!(p.drifts[0].drift_bps, 900);
    assert!(p.trades.is_empty());
}

fn same_plan(a: &RebalancePlan, b: &RebalancePlan) {
    assert_eq!(a.total_value_x1e8, b.total_value_x1e8);
    assert_eq!(a.drifts.len(), b.drifts.len());
    for (x, y) in a.drifts.iter().zip(b.drifts.iter()) {
        assert_eq!(x.faucet_alias, y.faucet_alias);
        assert_eq!(x.target_weight_bps, y.target_weight_bps);
        assert_eq!(x.current_weight_bps, y.current_weight_bps);
        assert_eq!(x.drift_bps, y.drift_bps);
    }
    assert_eq!(a.trades, b.trades);
}

#[test]
fn reordered_snapshot_gives_the_same_plan() {
    let manifest = basket(vec![constituent("a", 2000), constituent("b", 3000), constituent("c", 5000)], 300);
    let first = [snap("a", 40, 7), snap("b", 10, 20), snap("c", 3, 100)];
    let second = [snap("c", 3, 100), snap("a", 40, 7), snap("b", 10, 20)];
    let p1 = plan(&manifest, &first).unwrap();
    let p2 = plan(&manifest, &second).unwrap();
    assert!(!p1.trades.is_empty());
    same_plan(&p1, &p2);
}

#[test]
fn scaling_every_price_keeps_drifts_and_trades() {
    let manifest = basket(vec![constituent("a", 2000), constituent("b", 3000), constituent("c", 5000)], 300);
    let base = [snap("a", 40, 7), snap("b", 10, 20), snap("c", 3, 100)];
    let scaled = [snap("a", 40, 70_000), snap("b", 10, 200_000), snap("c", 3, 1_000_000)];
    let p1 = plan(&manifest, &base).unwrap();
    let p2 = plan(&manifest, &scaled).unwrap();
    assert_eq!(p2.total_value_x1e8, p1.total_value_x1e8 * 10_000);
    assert_eq!(p1.drifts.len(), p2.drifts.len());
    for (x, y) in p1.drifts.iter().zip(p2.drifts.iter()) {
        assert_eq!(x.current_weight_bps, y.current_weight_bps);
        assert_eq!(x.drift_bps, y.drift_bps);
    }
    assert_eq!(p1.trades, p2.trades);
}

#[test]
fn every_drift_above_threshold_is_traded() {
    let manifest = basket(vec![constituent("a", 2000), constituent("b", 3000), constituent("c", 5000)], 300);
    let snaps = [snap("a", 40, 7), snap("b", 10, 20), snap("c", 3, 100)];
    let p = plan(&manifest, &snaps).unwrap();
    for d in &p.drifts {
        let traded = p.trades.iter().any(|t| t.faucet_alias == d.faucet_alias);
        assert_eq!(traded, d.drift_bps > 300);
    }
}

#[test]
fn trades_exactly_when_status_is_rebalance() {
    let manifest = basket(vec![constituent("a", 5000), constituent("b", 5000)], 500);
    for (pa, pb) in [(1u64, 1u64), (11, 10), (2, 1), (3, 1), (1, 3)] {
        let p = plan(&manifest, &[snap("a", 5000, pa), snap("b", 5000, pb)]).unwrap();
        let status = drift_status(max_drift_bps(&p), 500);
        assert_eq!(!p.trades.is_empty(), status == DriftStatus::Rebalance);
    }
}

#[test]
fn any_snapshot_weights_stay_within_rounding() {
    let snaps = [snap("x", 3, 7), snap("y", 11, 13), snap("z", 1, 1), snap("x", 5, 2)];
    let total = total_pool_value(&snaps);
    let mut sum = 0u32;
    for s in &snaps {
        let w = constituent_weight_bps(s, total);
        assert!(w <= 10000);
        sum += w;
    }
    assert!(sum <= 10000 && sum > 10000 - 4, "got {sum}");
}
