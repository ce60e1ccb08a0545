//! Off-chain rebalance planner.
//!
//! Computes each constituent's current weight inside the pool
//! (`position * price * 10000 / total_pool_value`, in basis points), its
//! drift from the manifest's target, and the swap legs that bring every
//! constituent whose drift exceeds the manifest's `drift_threshold_bps`
//! back to its target.

use vstd::prelude::*;
use crate::baskets::{BasketManifest, Constituent};
use crate::text::{
    missing_alias_message, missing_alias_text, size_mismatch_message, size_mismatch_text,
    unknown_alias_message, unknown_alias_text,
};
use crate::SdkError;
use vstd::arithmetic::div_mod::{
    lemma_div_by_multiple, lemma_div_is_ordered, lemma_div_is_ordered_by_denominator,
    lemma_fundamental_div_mod, lemma_mod_pos_bound,
};

verus! {

/// One basket constituent's current state as observed off-chain.
#[derive(Debug, Clone, Copy)]
pub struct ConstituentSnapshot<'a> {
    /// Faucet alias as it appears in the basket manifest.
    pub faucet_alias: &'a str,
    /// Position held by the protocol account, in the faucet's base units.
    pub position_base_units: u64,
    /// Price in USD with 8 decimals (`2_000_000_000` is `$20.0`).
    pub price_x1e8: u64,
}

/// One element of a rebalance plan.
#[derive(Debug, Clone, PartialEq, Eq)]
pub struct RebalanceTrade {
    pub faucet_alias: String,
    pub kind: TradeKind,
    /// Magnitude of the trade, in faucet base units.
    pub base_units: u64,
    pub drift_bps: u32,
}

/// Direction of a rebalance trade.
#[derive(Debug, Clone, Copy, PartialEq, Eq, Structural)]
pub enum TradeKind {
    /// The constituent is below its target weight: buy more of it.
    Buy,
    /// The constituent is above its target weight: sell some.
    Sell,
}

/// Top-level rebalance plan: per-constituent drift and the trades needed
/// to bring every drifting constituent back to its target.
#[derive(Debug, Clone)]
pub struct RebalancePlan {
    pub total_value_x1e8: u64,
    pub drifts: Vec<ConstituentDrift>,
    pub trades: Vec<RebalanceTrade>,
}

/// A constituent's target weight, current weight and drift.
#[derive(Debug, Clone)]
pub struct ConstituentDrift {
    pub faucet_alias: String,
    pub target_weight_bps: u32,
    pub current_weight_bps: u32,
    pub drift_bps: u32,
}

/// Abstract value of a [`RebalanceTrade`].
pub struct TradeModel {
    pub faucet_alias: Seq<char>,
    pub kind: TradeKind,
    pub base_units: u64,
    pub drift_bps: u32,
}

/// Abstract value of a [`ConstituentDrift`].
pub struct DriftModel {
    pub faucet_alias: Seq<char>,
    pub target_weight_bps: u32,
    pub current_weight_bps: u32,
    pub drift_bps: u32,
}

/// Abstract value of a [`RebalancePlan`].
pub struct PlanModel {
    pub total_value_x1e8: u64,
    pub drifts: Seq<DriftModel>,
    pub trades: Seq<TradeModel>,
}

impl View for RebalanceTrade {
    type V = TradeModel;

    open spec fn view(&self) -> TradeModel {
        TradeModel {
            faucet_alias: self.faucet_alias@,
            kind: self.kind,
            base_units: self.base_units,
            drift_bps: self.drift_bps,
        }
    }
}

impl View for ConstituentDrift {
    type V = DriftModel;

    open spec fn view(&self) -> DriftModel {
        DriftModel {
            faucet_alias: self.faucet_alias@,
            target_weight_bps: self.target_weight_bps,
            current_weight_bps: self.current_weight_bps,
            drift_bps: self.drift_bps,
        }
    }
}

impl View for RebalancePlan {
    type V = PlanModel;

    open spec fn view(&self) -> PlanModel {
        PlanModel {
            total_value_x1e8: self.total_value_x1e8,
            drifts: self.drifts@.map_values(|d: ConstituentDrift| d@),
            trades: self.trades@.map_values(|t: RebalanceTrade| t@),
        }
    }
}

// ---------------------------------------------------------------------------
// Arithmetic of the planner
// ---------------------------------------------------------------------------

/// `a * b`, clamped to `u64::MAX`.
pub open spec fn saturated_product(a: u64, b: u64) -> int {
    if a * b > u64::MAX {
        u64::MAX as int
    } else {
        a * b
    }
}

/// Value of one snapshot entry in price units: `position * price`, clamped
/// to `u64::MAX`.
pub open spec fn snapshot_value(s: ConstituentSnapshot<'_>) -> int {
    saturated_product(s.position_base_units, s.price_x1e8)
}

/// Sum of the values of all entries of a snapshot.
pub open spec fn pool_value(snaps: Seq<ConstituentSnapshot<'_>>) -> int
    decreases snaps.len(),
{
    if snaps.len() == 0 {
        0
    } else {
        pool_value(snaps.drop_last()) + snapshot_value(snaps.last())
    }
}

/// Weight in basis points of a position worth `position * price` inside a
/// pool worth `total`: `position * price * 10000 / total`, clamped to
/// `u32::MAX`; zero for an empty pool.
pub open spec fn weight_bps(position: u64, price: u64, total: u64) -> int {
    if total == 0 {
        0
    } else {
        let bps = position * price * 10000 / (total as int);
        if bps > u32::MAX {
            u32::MAX as int
        } else {
            bps
        }
    }
}

/// `|current - target|`.
pub open spec fn abs_diff(current: u32, target: u32) -> int {
    if current >= target {
        current - target
    } else {
        target - current
    }
}

/// Direction of the trade for a constituent at `current` bps whose target
/// is `target` bps.
pub open spec fn trade_kind(current: u32, target: u32) -> TradeKind {
    if current > target {
        TradeKind::Sell
    } else {
        TradeKind::Buy
    }
}

/// Base units to trade for a drift of `drift` bps of a pool worth `total`:
/// the notional `drift * total / 10000`, truncated to 64 bits, divided by
/// the constituent's price (zero at a zero price).
pub open spec fn trade_base_units(drift: u32, total: u64, price: u64) -> int {
    let drift_value = (drift * total / 10000) % 0x1_0000_0000_0000_0000;
    if price == 0 {
        0
    } else {
        drift_value / (price as int)
    }
}

// ---------------------------------------------------------------------------
// What a plan is
// ---------------------------------------------------------------------------

/// `k` is the first index of `snaps` whose alias is `alias`.
pub open spec fn is_first_match(snaps: Seq<ConstituentSnapshot<'_>>, alias: Seq<char>, k: int) -> bool {
    &&& 0 <= k < snaps.len()
    &&& snaps[k].faucet_alias@ == alias
    &&& forall|j: int| 0 <= j < k ==> snaps[j].faucet_alias@ != alias
}

/// The first index of `snaps` whose alias is `alias`.
pub open spec fn first_match(snaps: Seq<ConstituentSnapshot<'_>>, alias: Seq<char>) -> int {
    choose|k: int| is_first_match(snaps, alias, k)
}

/// Some entry of `snaps` carries `alias`.
pub open spec fn snapshot_lists(snaps: Seq<ConstituentSnapshot<'_>>, alias: Seq<char>) -> bool {
    exists|k: int| #![trigger snaps[k]] 0 <= k < snaps.len() && snaps[k].faucet_alias@ == alias
}

/// Some constituent of `cs` carries `alias`.
pub open spec fn manifest_lists(cs: Seq<Constituent>, alias: Seq<char>) -> bool {
    exists|j: int| #![trigger cs[j]] 0 <= j < cs.len() && cs[j].faucet_alias@ == alias
}

/// Entry `i` of `snaps` carries an alias that `cs` does not declare.
pub open spec fn is_unknown_at(cs: Seq<Constituent>, snaps: Seq<ConstituentSnapshot<'_>>, i: int) -> bool {
    0 <= i < snaps.len() && !manifest_lists(cs, snaps[i].faucet_alias@)
}

/// The first entry of `snaps` whose alias `cs` does not declare.
pub open spec fn first_unknown(cs: Seq<Constituent>, snaps: Seq<ConstituentSnapshot<'_>>) -> int {
    choose|i: int| is_unknown_at(cs, snaps, i) && forall|j: int| 0 <= j < i ==> !is_unknown_at(cs, snaps, j)
}

/// Manifest constituent `j` carries an alias that no entry of `snaps` has.
pub open spec fn is_missing_at(cs: Seq<Constituent>, snaps: Seq<ConstituentSnapshot<'_>>, j: int) -> bool {
    0 <= j < cs.len() && !snapshot_lists(snaps, cs[j].faucet_alias@)
}

/// The first manifest constituent whose alias no entry of `snaps` has.
pub open spec fn first_missing(cs: Seq<Constituent>, snaps: Seq<ConstituentSnapshot<'_>>) -> int {
    choose|j: int| is_missing_at(cs, snaps, j) && forall|m: int| 0 <= m < j ==> !is_missing_at(cs, snaps, m)
}

/// The planner accepts a snapshot with one entry per manifest constituent,
/// every one of which carries an alias the manifest declares, and that
/// carries every alias the manifest declares.
pub open spec fn plan_accepted(manifest: &BasketManifest, snaps: Seq<ConstituentSnapshot<'_>>) -> bool {
    &&& snaps.len() == manifest.constituents@.len()
    &&& forall|i: int| 0 <= i < snaps.len() ==> manifest_lists(manifest.constituents@, #[trigger] snaps[i].faucet_alias@)
    &&& forall|j: int| 0 <= j < manifest.constituents@.len()
        ==> snapshot_lists(snaps, #[trigger] manifest.constituents@[j].faucet_alias@)
}

/// The text with which the planner refuses a snapshot it does not accept:
/// a size mismatch first, then the first entry with an unknown alias, then
/// the first constituent the snapshot misses.
pub open spec fn rejection_text(manifest: &BasketManifest, snaps: Seq<ConstituentSnapshot<'_>>) -> Seq<char> {
    let cs = manifest.constituents@;
    if snaps.len() != cs.len() {
        size_mismatch_text(snaps.len(), cs.len())
    } else if exists|i: int| is_unknown_at(cs, snaps, i) {
        unknown_alias_text(snaps[first_unknown(cs, snaps)].faucet_alias@)
    } else {
        missing_alias_text(cs[first_missing(cs, snaps)].faucet_alias@)
    }
}

/// The inputs on which planning runs to completion: the pool value of an
/// accepted snapshot fits in a `u64`.
pub open spec fn plan_defined(manifest: &BasketManifest, snaps: Seq<ConstituentSnapshot<'_>>) -> bool {
    plan_accepted(manifest, snaps) ==> pool_value(snaps) <= u64::MAX
}

/// The snapshot entry a constituent is measured by: the first one with its
/// alias.
pub open spec fn matched<'a>(snaps: Seq<ConstituentSnapshot<'a>>, c: Constituent) -> ConstituentSnapshot<'a> {
    snaps[first_match(snaps, c.faucet_alias@)]
}

/// The drift entry of constituent `c` in a pool worth `total`.
pub open spec fn drift_for(c: Constituent, snaps: Seq<ConstituentSnapshot<'_>>, total: u64) -> DriftModel {
    let s = matched(snaps, c);
    let current = weight_bps(s.position_base_units, s.price_x1e8, total) as u32;
    DriftModel {
        faucet_alias: c.faucet_alias@,
        target_weight_bps: c.target_weight_bps,
        current_weight_bps: current,
        drift_bps: abs_diff(current, c.target_weight_bps) as u32,
    }
}

/// The trade that brings constituent `c` back to its target.
pub open spec fn trade_for(c: Constituent, snaps: Seq<ConstituentSnapshot<'_>>, total: u64) -> TradeModel {
    let d = drift_for(c, snaps, total);
    TradeModel {
        faucet_alias: c.faucet_alias@,
        kind: trade_kind(d.current_weight_bps, d.target_weight_bps),
        base_units: trade_base_units(d.drift_bps, total, matched(snaps, c).price_x1e8) as u64,
        drift_bps: d.drift_bps,
    }
}

/// The trades for the constituents of `cs`, in manifest order, of those
/// whose drift exceeds `threshold`.
pub open spec fn planned_trades(
    cs: Seq<Constituent>,
    snaps: Seq<ConstituentSnapshot<'_>>,
    total: u64,
    threshold: u32,
) -> Seq<TradeModel>
    decreases cs.len(),
{
    if cs.len() == 0 {
        seq![]
    } else {
        let earlier = planned_trades(cs.drop_last(), snaps, total, threshold);
        if drift_for(cs.last(), snaps, total).drift_bps > threshold {
            earlier.push(trade_for(cs.last(), snaps, total))
        } else {
            earlier
        }
    }
}

/// The plan for `manifest` and `snaps`: the pool value, one drift entry per
/// manifest constituent in manifest order, and the trades of those whose
/// drift exceeds the manifest's threshold.
pub open spec fn expected_plan(manifest: &BasketManifest, snaps: Seq<ConstituentSnapshot<'_>>) -> PlanModel {
    let total = pool_value(snaps) as u64;
    PlanModel {
        total_value_x1e8: total,
        drifts: manifest.constituents@.map_values(|c: Constituent| drift_for(c, snaps, total)),
        trades: planned_trades(
            manifest.constituents@,
            snaps,
            total,
            manifest.rebalancing.drift_threshold_bps,
        ),
    }
}

// ---------------------------------------------------------------------------
// Lemmas
// ---------------------------------------------------------------------------

pub(crate) proof fn lemma_first_match_is(snaps: Seq<ConstituentSnapshot<'_>>, alias: Seq<char>, k: int)
    requires
        is_first_match(snaps, alias, k),
    ensures
        first_match(snaps, alias) == k,
{
    let c = first_match(snaps, alias);
    assert(is_first_match(snaps, alias, c));
    if c < k {
        assert(snaps[c].faucet_alias@ != alias);
    }
    if k < c {
        assert(snaps[k].faucet_alias@ != alias);
    }
}

proof fn lemma_first_unknown_is(cs: Seq<Constituent>, snaps: Seq<ConstituentSnapshot<'_>>, i: int)
    requires
        is_unknown_at(cs, snaps, i),
        forall|j: int| 0 <= j < i ==> !is_unknown_at(cs, snaps, j),
    ensures
        first_unknown(cs, snaps) == i,
{
    let c = first_unknown(cs, snaps);
    assert(is_unknown_at(cs, snaps, c) && forall|j: int| 0 <= j < c ==> !is_unknown_at(cs, snaps, j));
    if c < i {
        assert(!is_unknown_at(cs, snaps, c));
    }
    if i < c {
        assert(!is_unknown_at(cs, snaps, i));
    }
}

/// Where some entry carries `alias`, the first such entry exists.
pub(crate) proof fn lemma_first_match_exists(snaps: Seq<ConstituentSnapshot<'_>>, alias: Seq<char>, w: int)
    requires
        0 <= w < snaps.len(),
        snaps[w].faucet_alias@ == alias,
    ensures
        is_first_match(snaps, alias, first_match(snaps, alias)),
    decreases w,
{
    if exists|m: int| 0 <= m < w && snaps[m].faucet_alias@ == alias {
        let m = choose|m: int| 0 <= m < w && snaps[m].faucet_alias@ == alias;
        lemma_first_match_exists(snaps, alias, m);
    } else {
        assert(is_first_match(snaps, alias, w));
    }
}

proof fn lemma_first_missing_is(cs: Seq<Constituent>, snaps: Seq<ConstituentSnapshot<'_>>, j: int)
    requires
        is_missing_at(cs, snaps, j),
        forall|m: int| 0 <= m < j ==> !is_missing_at(cs, snaps, m),
    ensures
        first_missing(cs, snaps) == j,
{
    let c = first_missing(cs, snaps);
    assert(is_missing_at(cs, snaps, c) && forall|m: int| 0 <= m < c ==> !is_missing_at(cs, snaps, m));
    if c < j {
        assert(!is_missing_at(cs, snaps, c));
    }
    if j < c {
        assert(!is_missing_at(cs, snaps, j));
    }
}

pub(crate) proof fn lemma_pool_value_prefix(snaps: Seq<ConstituentSnapshot<'_>>, i: int, j: int)
    requires
        0 <= i <= j <= snaps.len(),
    ensures
        0 <= pool_value(snaps.take(i)) <= pool_value(snaps.take(j)),
    decreases j,
{
    if j > 0 {
        assert(snaps.take(j).drop_last() =~= snaps.take(j - 1));
        if i < j {
            lemma_pool_value_prefix(snaps, i, j - 1);
        } else {
            lemma_pool_value_prefix(snaps, i - 1, j - 1);
        }
    } else {
        assert(snaps.take(0) =~= Seq::<ConstituentSnapshot>::empty());
    }
}

/// For a drift of at most 10000 bps and a positive price, the trade's base
/// units are the drift's notional value `drift * total / 10000` divided by
/// the price, rounded down: `units * price <= notional < (units + 1) * price`.
pub proof fn lemma_trade_units_bracket(drift: u32, total: u64, price: u64)
    requires
        price > 0,
        drift <= 10000,
    ensures
        0 <= trade_base_units(drift, total, price) <= u64::MAX,
        trade_base_units(drift, total, price) * price <= drift * total / 10000,
        drift * total / 10000 < (trade_base_units(drift, total, price) + 1) * price,
{
    let n = drift * total / 10000;
    assert(drift * total <= 10000 * (total as int)) by (nonlinear_arith)
        requires
            0 <= drift <= 10000,
            total >= 0,
    ;
    assert(drift * total >= 0) by (nonlinear_arith)
        requires
            drift >= 0,
            total >= 0,
    ;
    lemma_div_is_ordered(drift * total, 10000 * (total as int), 10000);
    lemma_div_by_multiple(total as int, 10000);
    assert((total as int) * 10000 == 10000 * (total as int)) by (nonlinear_arith);
    assert(0 <= n <= total);
    assert(n % 0x1_0000_0000_0000_0000 == n);
    let q = n / (price as int);
    lemma_fundamental_div_mod(n, price as int);
    lemma_mod_pos_bound(n, price as int);
    assert(q * price <= n) by (nonlinear_arith)
        requires
            n == price * q + n % (price as int),
            0 <= n % (price as int),
    ;
    assert(n < (q + 1) * price) by (nonlinear_arith)
        requires
            n == price * q + n % (price as int),
            n % (price as int) < price,
    ;
    lemma_div_is_ordered_by_denominator(n, 1, price as int);
    assert(n / 1 == n);
}

// ---------------------------------------------------------------------------
// Executable planner
// ---------------------------------------------------------------------------

/// `a * b`, clamped to `u64::MAX`.
fn saturating_mul_u64(a: u64, b: u64) -> (p: u64)
    ensures
        p == saturated_product(a, b),
{
    match a.checked_mul(b) {
        Some(p) => p,
        None => u64::MAX,
    }
}

/// `a * b`, clamped to `u128::MAX`.
fn saturating_mul_u128(a: u128, b: u128) -> (p: u128)
    ensures
        p == (if a * b > u128::MAX { u128::MAX as int } else { a * b }),
{
    match a.checked_mul(b) {
        Some(p) => p,
        None => u128::MAX,
    }
}

/// Sum of `position * price` (each clamped to `u64::MAX`) across all
/// entries: the total pool value in the oracle's price units.
pub fn total_pool_value(snapshot: &[ConstituentSnapshot<'_>]) -> (total: u64)
    requires
        pool_value(snapshot@) <= u64::MAX,
    ensures
        total == pool_value(snapshot@),
{
    let mut total: u64 = 0;
    let mut i: usize = 0;
    while i < snapshot.len()
        invariant
            i <= snapshot@.len(),
            pool_value(snapshot@) <= u64::MAX,
            total == pool_value(snapshot@.take(i as int)),
        decreases snapshot@.len() - i,
    {
        let s = &snapshot[i];
        let v = saturating_mul_u64(s.position_base_units, s.price_x1e8);
        proof {
            assert(snapshot@.take(i + 1).drop_last() =~= snapshot@.take(i as int));
            lemma_pool_value_prefix(snapshot@, i + 1, snapshot@.len() as int);
            assert(snapshot@.take(snapshot@.len() as int) =~= snapshot@);
        }
        total = total + v;
        i = i + 1;
    }
    proof {
        assert(snapshot@.take(snapshot@.len() as int) =~= snapshot@);
    }
    total
}

/// Current weight of `c` inside a pool worth `total`, in basis points:
/// `position * price * 10000 / total`, zero for an empty pool.
pub fn constituent_weight_bps(c: &ConstituentSnapshot<'_>, total: u64) -> (w: u32)
    ensures
        w == weight_bps(c.position_base_units, c.price_x1e8, total),
        total == 0 ==> w == 0,
        total > 0 && c.position_base_units * c.price_x1e8 * 10000 < (u32::MAX + 1) * total ==> w
            * total <= c.position_base_units * c.price_x1e8 * 10000 < (w + 1) * total,
        total > 0 && c.position_base_units * c.price_x1e8 * 10000 >= (u32::MAX + 1) * total ==> w
            == u32::MAX,
{
    if total == 0 {
        return 0;
    }
    let product = saturating_mul_u128(c.position_base_units as u128, c.price_x1e8 as u128);
    assert(c.position_base_units * c.price_x1e8 <= u128::MAX) by (nonlinear_arith)
        requires
            c.position_base_units <= u64::MAX,
            c.price_x1e8 <= u64::MAX,
    ;
    let numerator = saturating_mul_u128(product, 10_000);
    let bps = numerator / (total as u128);
    proof {
        // Where the numerator clamps at `u128::MAX`, both quotients exceed
        // `u32::MAX`, so the clamp does not change the weight.
        let x = c.position_base_units * c.price_x1e8 * 10000;
        if x > u128::MAX {
            let m = u128::MAX as int;
            lemma_div_is_ordered_by_denominator(m, total as int, u64::MAX as int);
            lemma_div_is_ordered(m, x, total as int);
            assert(m / (u64::MAX as int) > u32::MAX) by (nonlinear_arith)
                requires
                    m == 0xffff_ffff_ffff_ffff_ffff_ffff_ffff_ffff,
            ;
        }
        let q = x / (total as int);
        lemma_fundamental_div_mod(x, total as int);
        lemma_mod_pos_bound(x, total as int);
        assert(q * total <= x < (q + 1) * total) by (nonlinear_arith)
            requires
                x == total * q + x % (total as int),
                0 <= x % (total as int) < total,
        ;
        if x < (u32::MAX + 1) * total {
            assert(q <= u32::MAX) by (nonlinear_arith)
                requires
                    q * total <= x,
                    x < (u32::MAX + 1) * total,
                    total > 0,
            ;
        } else {
            assert(q >= u32::MAX + 1) by (nonlinear_arith)
                requires
                    x < (q + 1) * total,
                    x >= (u32::MAX + 1) * total,
                    total > 0,
            ;
        }
    }
    if bps > u32::MAX as u128 {
        u32::MAX
    } else {
        bps as u32
    }
}

/// Absolute deviation between an observed weight and its target.
pub fn abs_drift_bps(current: u32, target: u32) -> (d: u32)
    ensures
        d == abs_diff(current, target),
        current >= target ==> d + target == current,
        current <= target ==> d + current == target,
{
    if current >= target {
        current - target
    } else {
        target - current
    }
}

/// The trade for constituent `c`, measured by `snap`, at `current_bps`
/// against `target_bps` with a drift of `drift_bps`.
fn build_trade(
    c: &Constituent,
    snap: &ConstituentSnapshot<'_>,
    total: u64,
    current_bps: u32,
    target_bps: u32,
    drift_bps: u32,
) -> (t: RebalanceTrade)
    ensures
        t@ == (TradeModel {
            faucet_alias: c.faucet_alias@,
            kind: trade_kind(current_bps, target_bps),
            base_units: trade_base_units(drift_bps, total, snap.price_x1e8) as u64,
            drift_bps,
        }),
        (t.kind == TradeKind::Sell) == (current_bps > target_bps),
        (t.kind == TradeKind::Buy) == (current_bps <= target_bps),
        snap.price_x1e8 == 0 ==> t.base_units == 0,
        snap.price_x1e8 > 0 && drift_bps <= 10000 ==> t.base_units * snap.price_x1e8 <= drift_bps
            * total / 10000 < (t.base_units + 1) * snap.price_x1e8,
{
    proof {
        if snap.price_x1e8 > 0 && drift_bps <= 10000 {
            lemma_trade_units_bracket(drift_bps, total, snap.price_x1e8);
        }
    }
    let kind = if current_bps > target_bps {
        TradeKind::Sell
    } else {
        TradeKind::Buy
    };
    assert(drift_bps * total <= u128::MAX) by (nonlinear_arith)
        requires
            drift_bps <= u32::MAX,
            total <= u64::MAX,
    ;
    let notional = saturating_mul_u128(drift_bps as u128, total as u128);
    let drift_value = ((notional / 10_000) % 0x1_0000_0000_0000_0000u128) as u64;
    let base_units = if snap.price_x1e8 == 0 {
        0
    } else {
        drift_value / snap.price_x1e8
    };
    RebalanceTrade { faucet_alias: c.faucet_alias.clone(), kind, base_units, drift_bps }
}

/// Whether two aliases are the same text.
pub(crate) fn same_alias(a: &str, b: &str) -> (r: bool)
    ensures
        r == (a@ == b@),
{
    let x = a.to_owned();
    let y = b.to_owned();
    x == y
}

/// Whether some constituent of `cs` carries `alias`.
fn manifest_has_alias(cs: &Vec<Constituent>, alias: &str) -> (found: bool)
    ensures
        found == manifest_lists(cs@, alias@),
{
    let mut j: usize = 0;
    while j < cs.len()
        invariant
            j <= cs@.len(),
            forall|k: int| 0 <= k < j ==> cs@[k].faucet_alias@ != alias@,
        decreases cs@.len() - j,
    {
        if same_alias(cs[j].faucet_alias.as_str(), alias) {
            return true;
        }
        j = j + 1;
    }
    false
}

/// Index of the first entry of `snaps` that carries `alias`.
fn find_snapshot(snaps: &[ConstituentSnapshot<'_>], alias: &str) -> (k: usize)
    requires
        snapshot_lists(snaps@, alias@),
    ensures
        is_first_match(snaps@, alias@, k as int),
{
    let mut i: usize = 0;
    while i < snaps.len()
        invariant
            i <= snaps@.len(),
            snapshot_lists(snaps@, alias@),
            forall|j: int| 0 <= j < i ==> snaps@[j].faucet_alias@ != alias@,
        decreases snaps@.len() - i,
    {
        if same_alias(snaps[i].faucet_alias, alias) {
            return i;
        }
        i = i + 1;
    }
    proof {
        let k = choose|k: int| 0 <= k < snaps@.len() && snaps@[k].faucet_alias@ == alias@;
        assert(snaps@[k].faucet_alias@ != alias@);
    }
    0
}

/// Whether `snapshot` is one the planner accepts for `manifest`.
fn snapshot_accepted(manifest: &BasketManifest, snapshot: &[ConstituentSnapshot<'_>]) -> (b: bool)
    ensures
        b == plan_accepted(manifest, snapshot@),
{
    let cs = &manifest.constituents;
    if snapshot.len() != cs.len() {
        return false;
    }
    let mut i: usize = 0;
    while i < snapshot.len()
        invariant
            i <= snapshot@.len(),
            snapshot@.len() == cs@.len(),
            cs == &manifest.constituents,
            forall|j: int| 0 <= j < i ==> manifest_lists(cs@, #[trigger] snapshot@[j].faucet_alias@),
        decreases snapshot@.len() - i,
    {
        if !manifest_has_alias(cs, snapshot[i].faucet_alias) {
            return false;
        }
        i = i + 1;
    }
    let mut j: usize = 0;
    while j < cs.len()
        invariant
            j <= cs@.len(),
            cs == &manifest.constituents,
            forall|m: int| 0 <= m < j ==> snapshot_lists(snapshot@, #[trigger] cs@[m].faucet_alias@),
        decreases cs@.len() - j,
    {
        if !snapshot_has_alias(snapshot, cs[j].faucet_alias.as_str()) {
            return false;
        }
        j = j + 1;
    }
    true
}

/// Whether some entry of `snaps` carries `alias`.
fn snapshot_has_alias(snaps: &[ConstituentSnapshot<'_>], alias: &str) -> (found: bool)
    ensures
        found == snapshot_lists(snaps@, alias@),
{
    let mut i: usize = 0;
    while i < snaps.len()
        invariant
            i <= snaps@.len(),
            forall|j: int| 0 <= j < i ==> snaps@[j].faucet_alias@ != alias@,
        decreases snaps@.len() - i,
    {
        if same_alias(snaps[i].faucet_alias, alias) {
            return true;
        }
        i = i + 1;
    }
    false
}

/// The pool value of `snapshot`, or `None` where it does not fit in a `u64`.
fn checked_pool_value(snapshot: &[ConstituentSnapshot<'_>]) -> (r: Option<u64>)
    ensures
        match r {
            Some(v) => v == pool_value(snapshot@),
            None => pool_value(snapshot@) > u64::MAX,
        },
{
    let mut total: u64 = 0;
    let mut i: usize = 0;
    while i < snapshot.len()
        invariant
            i <= snapshot@.len(),
            total == pool_value(snapshot@.take(i as int)),
        decreases snapshot@.len() - i,
    {
        let s = &snapshot[i];
        let v = saturating_mul_u64(s.position_base_units, s.price_x1e8);
        proof {
            assert(snapshot@.take(i + 1).drop_last() =~= snapshot@.take(i as int));
        }
        match total.checked_add(v) {
            Some(t) => {
                total = t;
            },
            None => {
                proof {
                    lemma_pool_value_prefix(snapshot@, i + 1, snapshot@.len() as int);
                    assert(snapshot@.take(snapshot@.len() as int) =~= snapshot@);
                }
                return None;
            },
        }
        i = i + 1;
    }
    proof {
        assert(snapshot@.take(snapshot@.len() as int) =~= snapshot@);
    }
    Some(total)
}

/// Whether `plan` runs to completion on these inputs (its precondition):
/// it does unless the pool value of an accepted snapshot overflows a `u64`.
pub fn plan_is_defined(manifest: &BasketManifest, snapshot: &[ConstituentSnapshot<'_>]) -> (b: bool)
    ensures
        b == plan_defined(manifest, snapshot@),
{
    !snapshot_accepted(manifest, snapshot) || checked_pool_value(snapshot).is_some()
}

/// Builds the rebalance plan for `manifest` given a current `snapshot`.
///
/// Refuses, with `SdkError::InvalidInput`, a snapshot whose entry count
/// differs from the manifest's, one carrying an alias the manifest does not
/// declare (naming the first such alias), or one missing a constituent the
/// manifest declares (naming the first such constituent).
pub fn plan(manifest: &BasketManifest, snapshot: &[ConstituentSnapshot<'_>]) -> (r: Result<RebalancePlan, SdkError>)
    requires
        plan_defined(manifest, snapshot@),
    ensures
        match r {
            Ok(p) => plan_accepted(manifest, snapshot@) && p@ == expected_plan(manifest, snapshot@),
            Err(e) => !plan_accepted(manifest, snapshot@) && (e matches SdkError::InvalidInput(m)
                && m@ == rejection_text(manifest, snapshot@)),
        },
{
    let cs = &manifest.constituents;
    if snapshot.len() != cs.len() {
        return Err(SdkError::InvalidInput(size_mismatch_message(snapshot.len(), cs.len())));
    }
    let mut i: usize = 0;
    while i < snapshot.len()
        invariant
            i <= snapshot@.len(),
            snapshot@.len() == cs@.len(),
            cs == &manifest.constituents,
            forall|j: int| 0 <= j < i ==> manifest_lists(cs@, #[trigger] snapshot@[j].faucet_alias@),
        decreases snapshot@.len() - i,
    {
        if !manifest_has_alias(cs, snapshot[i].faucet_alias) {
            proof {
                assert forall|j: int| 0 <= j < i implies !is_unknown_at(cs@, snapshot@, j) by {
                    assert(manifest_lists(cs@, snapshot@[j].faucet_alias@));
                }
                lemma_first_unknown_is(cs@, snapshot@, i as int);
            }
            return Err(SdkError::InvalidInput(unknown_alias_message(snapshot[i].faucet_alias)));
        }
        i = i + 1;
    }
    assert(!exists|m: int| is_unknown_at(cs@, snapshot@, m));
    let mut j: usize = 0;
    while j < cs.len()
        invariant
            j <= cs@.len(),
            cs == &manifest.constituents,
            snapshot@.len() == cs@.len(),
            forall|m: int| 0 <= m < snapshot@.len() ==> manifest_lists(cs@, #[trigger] snapshot@[m].faucet_alias@),
            !exists|m: int| is_unknown_at(cs@, snapshot@, m),
            forall|m: int| 0 <= m < j ==> snapshot_lists(snapshot@, #[trigger] cs@[m].faucet_alias@),
        decreases cs@.len() - j,
    {
        if !snapshot_has_alias(snapshot, cs[j].faucet_alias.as_str()) {
            proof {
                assert forall|m: int| 0 <= m < j implies !is_missing_at(cs@, snapshot@, m) by {
                    assert(snapshot_lists(snapshot@, cs@[m].faucet_alias@));
                }
                lemma_first_missing_is(cs@, snapshot@, j as int);
            }
            return Err(SdkError::InvalidInput(missing_alias_message(cs[j].faucet_alias.as_str())));
        }
        j = j + 1;
    }
    assert(plan_accepted(manifest, snapshot@));

    let total = total_pool_value(snapshot);
    let threshold = manifest.rebalancing.drift_threshold_bps;
    let ghost snaps = snapshot@;

    let mut drifts: Vec<ConstituentDrift> = Vec::with_capacity(cs.len());
    let mut trades: Vec<RebalanceTrade> = Vec::new();
    let mut k: usize = 0;
    while k < cs.len()
        invariant
            k <= cs@.len(),
            snaps == snapshot@,
            cs == &manifest.constituents,
            plan_defined(manifest, snaps),
            plan_accepted(manifest, snaps),
            total == pool_value(snaps),
            threshold == manifest.rebalancing.drift_threshold_bps,
            drifts@.len() == k,
            forall|m: int| 0 <= m < k ==> #[trigger] drifts@[m]@ == drift_for(cs@[m], snaps, total),
            trades@.map_values(|t: RebalanceTrade| t@) == planned_trades(cs@.take(k as int), snaps, total, threshold),
        decreases cs@.len() - k,
    {
        let c = &cs[k];
        assert(snapshot_lists(snaps, cs@[k as int].faucet_alias@));
        let idx = find_snapshot(snapshot, c.faucet_alias.as_str());
        proof {
            lemma_first_match_is(snaps, c.faucet_alias@, idx as int);
        }
        let snap = &snapshot[idx];
        let current = constituent_weight_bps(snap, total);
        let target = c.target_weight_bps;
        let drift = abs_drift_bps(current, target);
        let ghost before = trades@;
        drifts.push(
            ConstituentDrift {
                faucet_alias: c.faucet_alias.clone(),
                target_weight_bps: target,
                current_weight_bps: current,
                drift_bps: drift,
            },
        );
        if drift > threshold {
            let t = build_trade(c, snap, total, current, target, drift);
            trades.push(t);
        }
        proof {
            assert(cs@.take(k + 1).drop_last() =~= cs@.take(k as int));
            assert(cs@.take(k + 1).last() == cs@[k as int]);
            if drift > threshold {
                assert(trades@.map_values(|t: RebalanceTrade| t@) =~= before.map_values(
                    |t: RebalanceTrade| t@,
                ).push(trade_for(cs@[k as int], snaps, total)));
            } else {
                assert(trades@ == before);
            }
        }
        k = k + 1;
    }
    let p = RebalancePlan { total_value_x1e8: total, drifts, trades };
    proof {
        assert(cs@.take(cs@.len() as int) =~= cs@);
        assert(p@.drifts =~= expected_plan(manifest, snaps).drifts);
    }
    Ok(p)
}

} // verus!
