//! Properties of the rebalance planner that hold across all inputs.

use vstd::prelude::*;
use vstd::arithmetic::div_mod::{
    lemma_div_by_multiple, lemma_div_is_ordered, lemma_fundamental_div_mod, lemma_mod_pos_bound,
};
use crate::baskets::{BasketManifest, Constituent};
use crate::monitor::{max_drift, status_of, DriftStatus};
use crate::rebalance::{
    abs_diff, lemma_trade_units_bracket, TradeKind,
    drift_for, expected_plan, is_first_match, lemma_first_match_is, manifest_lists, matched,
    planned_trades, plan_accepted, plan_defined, pool_value, snapshot_lists, snapshot_value,
    trade_for, weight_bps, ConstituentSnapshot, DriftModel, TradeModel,
};

verus! {

/// Sum of the current weights of a list of drift entries.
pub open spec fn current_weight_total(ds: Seq<DriftModel>) -> int
    decreases ds.len(),
{
    if ds.len() == 0 {
        0
    } else {
        current_weight_total(ds.drop_last()) + ds.last().current_weight_bps
    }
}

/// Sum of the weights of the entries of `snaps` inside a pool worth `total`.
pub open spec fn snapshot_weight_total(snaps: Seq<ConstituentSnapshot<'_>>, total: u64) -> int
    decreases snaps.len(),
{
    if snaps.len() == 0 {
        0
    } else {
        snapshot_weight_total(snaps.drop_last(), total) + weight_bps(
            snaps.last().position_base_units,
            snaps.last().price_x1e8,
            total,
        )
    }
}

/// The snapshot lists the manifest's constituents in manifest order, each
/// alias once.
pub open spec fn snapshot_in_manifest_order(
    manifest: &BasketManifest,
    snaps: Seq<ConstituentSnapshot<'_>>,
) -> bool {
    &&& snaps.len() == manifest.constituents@.len()
    &&& forall|i: int| 0 <= i < snaps.len()
        ==> #[trigger] snaps[i].faucet_alias@ == manifest.constituents@[i].faucet_alias@
    &&& forall|i: int, j: int| 0 <= i < j < snaps.len()
        ==> snaps[i].faucet_alias@ != snaps[j].faucet_alias@
}

/// No constituent's drift exceeds `threshold`.
pub open spec fn all_within_threshold(
    cs: Seq<Constituent>,
    snaps: Seq<ConstituentSnapshot<'_>>,
    total: u64,
    threshold: u32,
) -> bool {
    forall|j: int| 0 <= j < cs.len() ==> #[trigger] drift_for(cs[j], snaps, total).drift_bps <= threshold
}

/// Every constituent's value share is exactly its target:
/// `position * price * 10000 == target * total_pool_value`.
pub open spec fn at_par(manifest: &BasketManifest, snaps: Seq<ConstituentSnapshot<'_>>) -> bool {
    forall|j: int| 0 <= j < manifest.constituents@.len() ==> {
        let c = #[trigger] manifest.constituents@[j];
        let s = matched(snaps, c);
        s.position_base_units * s.price_x1e8 * 10000 == c.target_weight_bps * pool_value(snaps)
    }
}

/// No trade is planned for a constituent whose drift is within the
/// threshold: when no drift exceeds it, the plan holds no trades.
pub proof fn lemma_no_trades_within_threshold(
    cs: Seq<Constituent>,
    snaps: Seq<ConstituentSnapshot<'_>>,
    total: u64,
    threshold: u32,
)
    requires
        all_within_threshold(cs, snaps, total, threshold),
    ensures
        planned_trades(cs, snaps, total, threshold) == Seq::<TradeModel>::empty(),
    decreases cs.len(),
{
    if cs.len() > 0 {
        let rest = cs.drop_last();
        assert forall|j: int| 0 <= j < rest.len() implies #[trigger] drift_for(
            rest[j],
            snaps,
            total,
        ).drift_bps <= threshold by {
            assert(rest[j] == cs[j]);
        }
        lemma_no_trades_within_threshold(rest, snaps, total, threshold);
        assert(drift_for(cs[cs.len() - 1], snaps, total).drift_bps <= threshold);
    }
}

/// Every planned trade carries a drift above the threshold, and sells
/// exactly when its constituent is above its target.
pub proof fn lemma_trades_exceed_threshold(
    cs: Seq<Constituent>,
    snaps: Seq<ConstituentSnapshot<'_>>,
    total: u64,
    threshold: u32,
)
    ensures
        forall|t: int| 0 <= t < planned_trades(cs, snaps, total, threshold).len() ==> {
            let trade = #[trigger] planned_trades(cs, snaps, total, threshold)[t];
            trade.drift_bps > threshold
        },
        forall|t: int| 0 <= t < planned_trades(cs, snaps, total, threshold).len() ==>
            exists|j: int| 0 <= j < cs.len() && #[trigger] planned_trades(cs, snaps, total, threshold)[t]
                == trade_for(cs[j], snaps, total) && drift_for(cs[j], snaps, total).drift_bps
                > threshold,
        planned_trades(cs, snaps, total, threshold).len() <= cs.len(),
    decreases cs.len(),
{
    if cs.len() > 0 {
        let rest = cs.drop_last();
        lemma_trades_exceed_threshold(rest, snaps, total, threshold);
        let earlier = planned_trades(rest, snaps, total, threshold);
        let all = planned_trades(cs, snaps, total, threshold);
        assert forall|t: int| 0 <= t < all.len() implies exists|j: int|
            0 <= j < cs.len() && #[trigger] all[t] == trade_for(cs[j], snaps, total) && drift_for(
                cs[j],
                snaps,
                total,
            ).drift_bps > threshold by {
            if t < earlier.len() {
                let j = choose|j: int|
                    0 <= j < rest.len() && #[trigger] earlier[t] == trade_for(rest[j], snaps, total)
                        && drift_for(rest[j], snaps, total).drift_bps > threshold;
                assert(rest[j] == cs[j]);
                assert(all[t] == earlier[t]);
            } else {
                assert(all[t] == trade_for(cs[cs.len() - 1], snaps, total));
            }
        }
        assert forall|t: int| 0 <= t < all.len() implies (#[trigger] all[t]).drift_bps > threshold by {
            if t < earlier.len() {
                assert(all[t] == earlier[t]);
            }
        }
    }
}

/// A trade is planned for every constituent whose drift exceeds the
/// threshold.
pub proof fn lemma_drift_above_threshold_trades(
    cs: Seq<Constituent>,
    snaps: Seq<ConstituentSnapshot<'_>>,
    total: u64,
    threshold: u32,
)
    ensures
        forall|j: int|
            0 <= j < cs.len() && #[trigger] drift_for(cs[j], snaps, total).drift_bps > threshold
                ==> exists|t: int|
                0 <= t < planned_trades(cs, snaps, total, threshold).len()
                    && #[trigger] planned_trades(cs, snaps, total, threshold)[t] == trade_for(
                    cs[j],
                    snaps,
                    total,
                ),
    decreases cs.len(),
{
    if cs.len() > 0 {
        let rest = cs.drop_last();
        lemma_drift_above_threshold_trades(rest, snaps, total, threshold);
        let earlier = planned_trades(rest, snaps, total, threshold);
        let all = planned_trades(cs, snaps, total, threshold);
        assert forall|j: int|
            0 <= j < cs.len() && #[trigger] drift_for(cs[j], snaps, total).drift_bps
                > threshold implies exists|t: int|
            0 <= t < all.len() && #[trigger] all[t] == trade_for(cs[j], snaps, total) by {
            if j < rest.len() {
                assert(rest[j] == cs[j]);
                assert(drift_for(rest[j], snaps, total).drift_bps > threshold);
                let t = choose|t: int|
                    0 <= t < earlier.len() && #[trigger] earlier[t] == trade_for(rest[j], snaps, total);
                assert(all[t] == earlier[t]);
            } else {
                assert(cs.last() == cs[j]);
                assert(all[earlier.len() as int] == trade_for(cs[j], snaps, total));
            }
        }
    }
}

/// The largest drift exceeds `threshold` exactly when some drift does.
proof fn lemma_max_drift_exceeds(ds: Seq<DriftModel>, threshold: u32)
    ensures
        (max_drift(ds) > threshold) <==> exists|j: int|
            0 <= j < ds.len() && #[trigger] ds[j].drift_bps > threshold,
    decreases ds.len(),
{
    if ds.len() > 0 {
        let rest = ds.drop_last();
        lemma_max_drift_exceeds(rest, threshold);
        if max_drift(rest) > threshold {
            let j = choose|j: int| 0 <= j < rest.len() && #[trigger] rest[j].drift_bps > threshold;
            assert(ds[j] == rest[j]);
        }
        if exists|j: int| 0 <= j < ds.len() && #[trigger] ds[j].drift_bps > threshold {
            let j = choose|j: int| 0 <= j < ds.len() && #[trigger] ds[j].drift_bps > threshold;
            if j < rest.len() {
                assert(rest[j] == ds[j]);
            }
        }
    }
}

/// A basket's plan holds trades exactly when the bot's status for it is
/// `Rebalance`.
pub proof fn lemma_trades_iff_rebalance(manifest: &BasketManifest, snaps: Seq<ConstituentSnapshot<'_>>)
    ensures
        (expected_plan(manifest, snaps).trades.len() > 0) <==> status_of(
            max_drift(expected_plan(manifest, snaps).drifts),
            manifest.rebalancing.drift_threshold_bps,
        ) == DriftStatus::Rebalance,
{
    let cs = manifest.constituents@;
    let total = pool_value(snaps) as u64;
    let threshold = manifest.rebalancing.drift_threshold_bps;
    let p = expected_plan(manifest, snaps);
    assert(p.trades.len() > 0 ==> max_drift(p.drifts) > threshold) by {
        if p.trades.len() > 0 {
            lemma_trades_exceed_threshold(cs, snaps, total, threshold);
            let j = choose|j: int|
                0 <= j < cs.len() && #[trigger] p.trades[0] == trade_for(cs[j], snaps, total)
                    && drift_for(cs[j], snaps, total).drift_bps > threshold;
            assert(p.drifts[j] == drift_for(cs[j], snaps, total));
            lemma_max_drift_exceeds(p.drifts, threshold);
        }
    }
    assert(max_drift(p.drifts) > threshold ==> p.trades.len() > 0) by {
        if max_drift(p.drifts) > threshold {
            lemma_max_drift_exceeds(p.drifts, threshold);
            let j = choose|j: int| 0 <= j < p.drifts.len() && #[trigger] p.drifts[j].drift_bps > threshold;
            assert(p.drifts[j] == drift_for(cs[j], snaps, total));
            lemma_drift_above_threshold_trades(cs, snaps, total, threshold);
            assert(drift_for(cs[j], snaps, total).drift_bps > threshold);
        }
    }
}

/// A drift is the distance between the current and the target weight: it
/// does not depend on which of the two is larger, and adding it to the
/// smaller gives the larger.
pub proof fn lemma_drift_is_distance(current: u32, target: u32)
    ensures
        abs_diff(current, target) == abs_diff(target, current),
        current >= target ==> abs_diff(current, target) + target == current,
        current <= target ==> abs_diff(current, target) + current == target,
        abs_diff(current, target) >= 0,
{
}

/// Every drift entry of a plan holds the distance between its current and
/// its target weight.
pub proof fn lemma_plan_drifts_are_distances(manifest: &BasketManifest, snaps: Seq<ConstituentSnapshot<'_>>)
    ensures
        forall|j: int| 0 <= j < expected_plan(manifest, snaps).drifts.len() ==> {
            let d = #[trigger] expected_plan(manifest, snaps).drifts[j];
            &&& d.current_weight_bps >= d.target_weight_bps ==> d.drift_bps + d.target_weight_bps
                == d.current_weight_bps
            &&& d.current_weight_bps <= d.target_weight_bps ==> d.drift_bps + d.current_weight_bps
                == d.target_weight_bps
        },
{
}

/// Trade `t` of the plan belongs to the drift entry `j`: same alias and
/// drift; it sells exactly when the constituent's current weight is above
/// its target (buys exactly when at or below); and, at a positive price and
/// a drift of at most 10000 bps, its base units are the drift's notional
/// value `drift * pool value / 10000` divided by the price, rounded down
/// (zero at a zero price).
pub open spec fn trade_follows_drift(
    manifest: &BasketManifest,
    snaps: Seq<ConstituentSnapshot<'_>>,
    t: int,
    j: int,
) -> bool {
    let p = expected_plan(manifest, snaps);
    let tr = p.trades[t];
    let d = p.drifts[j];
    let price = matched(snaps, manifest.constituents@[j]).price_x1e8;
    &&& 0 <= j < manifest.constituents@.len()
    &&& tr.faucet_alias == d.faucet_alias
    &&& tr.drift_bps == d.drift_bps
    &&& (tr.kind == TradeKind::Sell) == (d.current_weight_bps > d.target_weight_bps)
    &&& (tr.kind == TradeKind::Buy) == (d.current_weight_bps <= d.target_weight_bps)
    &&& price == 0 ==> tr.base_units == 0
    &&& price > 0 && d.drift_bps <= 10000 ==> tr.base_units * price <= d.drift_bps
        * p.total_value_x1e8 / 10000 < (tr.base_units + 1) * price
}

/// Trade `t` of the plan follows some drift entry.
pub open spec fn trade_has_drift(manifest: &BasketManifest, snaps: Seq<ConstituentSnapshot<'_>>, t: int) -> bool {
    exists|j: int| #[trigger] trade_follows_drift(manifest, snaps, t, j)
}

/// Each planned trade follows the drift entry of its constituent: its
/// direction is set by whether the constituent is over or under its target,
/// and its size by the drift's notional value at the constituent's price.
pub proof fn lemma_trades_follow_drifts(manifest: &BasketManifest, snaps: Seq<ConstituentSnapshot<'_>>)
    ensures
        forall|t: int|
            0 <= t < expected_plan(manifest, snaps).trades.len() ==> #[trigger] trade_has_drift(
                manifest,
                snaps,
                t,
            ),
{
    let cs = manifest.constituents@;
    let total = pool_value(snaps) as u64;
    let threshold = manifest.rebalancing.drift_threshold_bps;
    lemma_trades_exceed_threshold(cs, snaps, total, threshold);
    assert forall|t: int|
        0 <= t < expected_plan(manifest, snaps).trades.len() implies #[trigger] trade_has_drift(
            manifest,
            snaps,
            t,
        ) by {
        let j = choose|j: int|
            0 <= j < cs.len() && #[trigger] expected_plan(manifest, snaps).trades[t] == trade_for(
                cs[j],
                snaps,
                total,
            ) && drift_for(cs[j], snaps, total).drift_bps > threshold;
        let d = drift_for(cs[j], snaps, total);
        let price = matched(snaps, cs[j]).price_x1e8;
        assert(expected_plan(manifest, snaps).drifts[j] == d);
        if price > 0 && d.drift_bps <= 10000 {
            lemma_trade_units_bracket(d.drift_bps, total, price);
        }
        assert(trade_follows_drift(manifest, snaps, t, j));
    }
}

/// The bot's status bands: `Rebalance` exactly when the largest drift
/// exceeds the threshold; below that, `Watch` exactly when it exceeds half
/// the threshold, `Within` otherwise.
pub proof fn lemma_status_bands(max_drift: u32, threshold: u32)
    ensures
        (status_of(max_drift, threshold) == DriftStatus::Rebalance) == (max_drift > threshold),
        max_drift <= threshold ==> ((status_of(max_drift, threshold) == DriftStatus::Watch) == (2
            * max_drift > threshold)),
        max_drift <= threshold ==> ((status_of(max_drift, threshold) == DriftStatus::Within) == (2
            * max_drift <= threshold)),
{
}

/// At par the plan shows every constituent at its target weight with zero
/// drift, and holds no trades.
pub proof fn lemma_at_par_no_drift(manifest: &BasketManifest, snaps: Seq<ConstituentSnapshot<'_>>)
    requires
        plan_defined(manifest, snaps),
        plan_accepted(manifest, snaps),
        pool_value(snaps) > 0,
        at_par(manifest, snaps),
    ensures
        forall|j: int| 0 <= j < manifest.constituents@.len() ==> {
            let d = #[trigger] expected_plan(manifest, snaps).drifts[j];
            &&& d.current_weight_bps == d.target_weight_bps
            &&& d.drift_bps == 0
        },
        expected_plan(manifest, snaps).trades.len() == 0,
{
    let cs = manifest.constituents@;
    let total = pool_value(snaps) as u64;
    assert forall|j: int| 0 <= j < cs.len() implies {
        let d = #[trigger] drift_for(cs[j], snaps, total);
        d.current_weight_bps == d.target_weight_bps && d.drift_bps == 0
    } by {
        let c = cs[j];
        let s = matched(snaps, c);
        let t = c.target_weight_bps;
        assert(s.position_base_units * s.price_x1e8 * 10000 == t * total);
        assert(t * total <= u128::MAX) by (nonlinear_arith)
            requires
                t <= u32::MAX,
                total <= u64::MAX,
        ;
        lemma_div_by_multiple(t as int, total as int);
        assert(weight_bps(s.position_base_units, s.price_x1e8, total) == t);
    }
    assert(all_within_threshold(cs, snaps, total, manifest.rebalancing.drift_threshold_bps)) by {
        assert forall|j: int| 0 <= j < cs.len() implies #[trigger] drift_for(
            cs[j],
            snaps,
            total,
        ).drift_bps <= manifest.rebalancing.drift_threshold_bps by {
            assert(drift_for(cs[j], snaps, total).drift_bps == 0);
        }
    }
    lemma_no_trades_within_threshold(cs, snaps, total, manifest.rebalancing.drift_threshold_bps);
}

/// Each entry's value is part of the pool value.
proof fn lemma_entry_within_pool(snaps: Seq<ConstituentSnapshot<'_>>, i: int)
    requires
        0 <= i < snaps.len(),
    ensures
        0 <= snapshot_value(snaps[i]) <= pool_value(snaps),
    decreases snaps.len(),
{
    assert(pool_value(snaps) == pool_value(snaps.drop_last()) + snapshot_value(snaps.last()));
    lemma_pool_value_nonneg(snaps.drop_last());
    if i < snaps.len() - 1 {
        lemma_entry_within_pool(snaps.drop_last(), i);
        assert(snaps.drop_last()[i] == snaps[i]);
    }
}

proof fn lemma_pool_value_nonneg(snaps: Seq<ConstituentSnapshot<'_>>)
    ensures
        pool_value(snaps) >= 0,
    decreases snaps.len(),
{
    if snaps.len() > 0 {
        lemma_pool_value_nonneg(snaps.drop_last());
    }
}

/// Weighting the entries of `snaps` against `total` loses less than one
/// basis point per entry to rounding, and never gains any:
/// `0 <= 10000 * pool - total * weights <= len * (total - 1)`.
proof fn lemma_rounding_loss(snaps: Seq<ConstituentSnapshot<'_>>, total: u64)
    requires
        total > 0,
        pool_value(snaps) <= total,
        forall|i: int| 0 <= i < snaps.len()
            ==> #[trigger] snaps[i].position_base_units * snaps[i].price_x1e8 <= u64::MAX,
    ensures
        0 <= 10000 * pool_value(snaps) - total * snapshot_weight_total(snaps, total),
        10000 * pool_value(snaps) - total * snapshot_weight_total(snaps, total) <= snaps.len() * (
        total - 1),
    decreases snaps.len(),
{
    if snaps.len() > 0 {
        let rest = snaps.drop_last();
        let s = snaps.last();
        let v = s.position_base_units * s.price_x1e8;
        assert(s == snaps[snaps.len() - 1]);
        assert forall|i: int| 0 <= i < rest.len() implies #[trigger] rest[i].position_base_units
            * rest[i].price_x1e8 <= u64::MAX by {
            assert(rest[i] == snaps[i]);
        }
        lemma_entry_within_pool(snaps, snaps.len() - 1);
        lemma_pool_value_nonneg(rest);
        lemma_rounding_loss(rest, total);
        assert(snapshot_value(s) == v);
        assert(v <= total);
        assert(v * 10000 <= total * 10000) by (nonlinear_arith)
            requires
                v <= total,
                v >= 0,
        ;
        let q = (v * 10000) / (total as int);
        let r = (v * 10000) % (total as int);
        lemma_fundamental_div_mod(v * 10000, total as int);
        lemma_mod_pos_bound(v * 10000, total as int);
        assert(q <= 10000) by (nonlinear_arith)
            requires
                v * 10000 == total * q + r,
                0 <= r,
                v * 10000 <= total * 10000,
                total > 0,
        ;
        assert(weight_bps(s.position_base_units, s.price_x1e8, total) == q);
        let wr = snapshot_weight_total(rest, total);
        assert(total * (wr + q) == total * wr + total * q) by (nonlinear_arith);
        assert(snaps.len() * (total - 1) == rest.len() * (total - 1) + (total - 1)) by (
        nonlinear_arith)
            requires
                snaps.len() == rest.len() + 1,
        ;
    }
}

/// Measured against the pool value of any snapshot whose entry values do
/// not overflow, each entry weighs at most 10000 bps, and the weights of all
/// entries add up to at most 10000 bps and fall short of it by less than the
/// number of entries (only per-entry rounding is lost).
pub proof fn lemma_snapshot_weights_near_full(snaps: Seq<ConstituentSnapshot<'_>>)
    requires
        0 < pool_value(snaps) <= u64::MAX,
        forall|i: int| 0 <= i < snaps.len()
            ==> #[trigger] snaps[i].position_base_units * snaps[i].price_x1e8 <= u64::MAX,
    ensures
        forall|i: int| 0 <= i < snaps.len() ==> weight_bps(
            #[trigger] snaps[i].position_base_units,
            snaps[i].price_x1e8,
            pool_value(snaps) as u64,
        ) <= 10000,
        10000 - snaps.len() < snapshot_weight_total(snaps, pool_value(snaps) as u64) <= 10000,
{
    let total = pool_value(snaps) as u64;
    assert forall|i: int| 0 <= i < snaps.len() implies weight_bps(
        #[trigger] snaps[i].position_base_units,
        snaps[i].price_x1e8,
        total,
    ) <= 10000 by {
        lemma_entry_within_pool(snaps, i);
        let v = snaps[i].position_base_units * snaps[i].price_x1e8;
        assert(snapshot_value(snaps[i]) == v);
        assert(v * 10000 <= (total as int) * 10000) by (nonlinear_arith)
            requires
                0 <= v <= total,
        ;
        lemma_div_is_ordered(v * 10000, (total as int) * 10000, total as int);
        lemma_div_by_multiple(10000, total as int);
        assert((total as int) * 10000 == 10000 * (total as int)) by (nonlinear_arith);
    }
    lemma_rounding_loss(snaps, total);
    let w = snapshot_weight_total(snaps, total);
    let n = snaps.len() as int;
    let t = total as int;
    assert(n > 0) by {
        if n == 0 {
            assert(pool_value(snaps) == 0);
        }
    }
    assert(t * (10000 - w) == 10000 * t - t * w) by (nonlinear_arith);
    assert(t * (10000 - w - n) == 10000 * t - t * w - n * t) by (nonlinear_arith);
    assert(n * (t - 1) == n * t - n) by (nonlinear_arith);
    assert(t == pool_value(snaps));
    assert(10000 * t - t * w <= n * (t - 1));
    assert(t * (10000 - w - n) <= -n);
    assert(w <= 10000) by (nonlinear_arith)
        requires
            t > 0,
            t * (10000 - w) >= 0,
    ;
    assert(w > 10000 - n) by (nonlinear_arith)
        requires
            t > 0,
            n >= 0,
            t * (10000 - w - n) < 0,
    ;
}

/// The current weight sum over the first `k` drift entries equals the
/// weight sum over the first `k` snapshot entries.
proof fn lemma_drift_weights_match(manifest: &BasketManifest, snaps: Seq<ConstituentSnapshot<'_>>, k: int)
    requires
        snapshot_in_manifest_order(manifest, snaps),
        0 <= k <= snaps.len(),
    ensures
        current_weight_total(expected_plan(manifest, snaps).drifts.take(k)) == snapshot_weight_total(
            snaps.take(k),
            pool_value(snaps) as u64,
        ),
    decreases k,
{
    let cs = manifest.constituents@;
    let total = pool_value(snaps) as u64;
    let ds = expected_plan(manifest, snaps).drifts;
    if k > 0 {
        lemma_drift_weights_match(manifest, snaps, k - 1);
        assert(ds.take(k).drop_last() =~= ds.take(k - 1));
        assert(snaps.take(k).drop_last() =~= snaps.take(k - 1));
        let i = k - 1;
        assert(snaps[i].faucet_alias@ == cs[i].faucet_alias@);
        assert forall|j: int| 0 <= j < i implies snaps[j].faucet_alias@ != cs[i].faucet_alias@ by {
            assert(snaps[j].faucet_alias@ != snaps[i].faucet_alias@);
        }
        assert(is_first_match(snaps, cs[i].faucet_alias@, i));
        lemma_first_match_is(snaps, cs[i].faucet_alias@, i);
        assert(ds.take(k).last() == ds[i]);
        assert(snaps.take(k).last() == snaps[i]);
    }
}

/// When the snapshot lists the manifest's constituents in order, each once,
/// and no entry's value overflows, the plan's current weights add up to at
/// most 10000 bps and fall short of it by less than the number of
/// constituents (integer-division round-off).
pub proof fn lemma_weights_sum_near_full(manifest: &BasketManifest, snaps: Seq<ConstituentSnapshot<'_>>)
    requires
        snapshot_in_manifest_order(manifest, snaps),
        0 < pool_value(snaps) <= u64::MAX,
        forall|i: int| 0 <= i < snaps.len()
            ==> #[trigger] snaps[i].position_base_units * snaps[i].price_x1e8 <= u64::MAX,
    ensures
        plan_accepted(manifest, snaps),
        plan_defined(manifest, snaps),
        10000 - manifest.constituents@.len() < current_weight_total(
            expected_plan(manifest, snaps).drifts,
        ) <= 10000,
{
    let cs = manifest.constituents@;
    assert forall|i: int| 0 <= i < snaps.len() implies manifest_lists(
        cs,
        #[trigger] snaps[i].faucet_alias@,
    ) by {
        assert(cs[i].faucet_alias@ == snaps[i].faucet_alias@);
    }
    assert forall|j: int| 0 <= j < cs.len() implies snapshot_lists(
        snaps,
        #[trigger] cs[j].faucet_alias@,
    ) by {
        assert(snaps[j].faucet_alias@ == cs[j].faucet_alias@);
    }
    lemma_drift_weights_match(manifest, snaps, snaps.len() as int);
    assert(snaps.take(snaps.len() as int) =~= snaps);
    assert(expected_plan(manifest, snaps).drifts.take(snaps.len() as int) =~= expected_plan(
        manifest,
        snaps,
    ).drifts);
    lemma_snapshot_weights_near_full(snaps);
}

} // verus!
