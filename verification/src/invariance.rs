//! What a rebalance plan does not depend on: the order of the snapshot's
//! entries, and a common factor on every price.

use vstd::prelude::*;
use vstd::arithmetic::div_mod::{lemma_div_by_multiple, lemma_div_denominator, lemma_div_is_ordered};
use vstd::seq_lib::seq_to_set_is_finite;
use vstd::set_lib::lemma_len_subset;
use crate::baskets::{BasketManifest, Constituent};
use crate::rebalance::{
    drift_for, expected_plan, first_match, is_first_match, lemma_first_match_exists,
    lemma_first_match_is,
    manifest_lists, matched, planned_trades, plan_accepted, plan_defined, pool_value,
    snapshot_lists, snapshot_value, trade_base_units, trade_for, weight_bps, ConstituentSnapshot,
};

verus! {

/// `b` lists the entries of `a` in another order: `b[i] == a[p[i]]`, where
/// `p` is a bijection with inverse `q`.
pub open spec fn is_reordering(
    a: Seq<ConstituentSnapshot<'_>>,
    b: Seq<ConstituentSnapshot<'_>>,
    p: Seq<int>,
    q: Seq<int>,
) -> bool {
    &&& a.len() == b.len()
    &&& p.len() == b.len()
    &&& q.len() == a.len()
    &&& forall|i: int| 0 <= i < b.len() ==> {
        &&& 0 <= #[trigger] p[i] < a.len()
        &&& b[i] == a[p[i]]
        &&& q[p[i]] == i
    }
    &&& forall|k: int| 0 <= k < a.len() ==> 0 <= #[trigger] q[k] < b.len() && p[q[k]] == k
}

/// No two constituents of the manifest share an alias.
pub open spec fn manifest_aliases_distinct(manifest: &BasketManifest) -> bool {
    forall|i: int, j: int|
        0 <= i < j < manifest.constituents@.len() ==> #[trigger] manifest.constituents@[i].faucet_alias@
            != #[trigger] manifest.constituents@[j].faucet_alias@
}

/// `b` is `a` with every price multiplied by `factor`.
pub open spec fn prices_scaled(a: Seq<ConstituentSnapshot<'_>>, b: Seq<ConstituentSnapshot<'_>>, factor: int) -> bool {
    &&& a.len() == b.len()
    &&& forall|i: int| 0 <= i < a.len() ==> {
        &&& (#[trigger] b[i]).faucet_alias@ == a[i].faucet_alias@
        &&& b[i].position_base_units == a[i].position_base_units
        &&& b[i].price_x1e8 == a[i].price_x1e8 * factor
    }
}

proof fn lemma_pool_value_remove(a: Seq<ConstituentSnapshot<'_>>, k: int)
    requires
        0 <= k < a.len(),
    ensures
        pool_value(a) == pool_value(a.remove(k)) + snapshot_value(a[k]),
    decreases a.len(),
{
    if k == a.len() - 1 {
        assert(a.remove(k) =~= a.drop_last());
    } else {
        lemma_pool_value_remove(a.drop_last(), k);
        assert(a.remove(k).drop_last() =~= a.drop_last().remove(k));
        assert(a.remove(k).last() == a.last());
    }
}

/// Reordering a snapshot keeps its pool value.
proof fn lemma_pool_value_reorder(
    a: Seq<ConstituentSnapshot<'_>>,
    b: Seq<ConstituentSnapshot<'_>>,
    p: Seq<int>,
    q: Seq<int>,
)
    requires
        is_reordering(a, b, p, q),
    ensures
        pool_value(a) == pool_value(b),
    decreases a.len(),
{
    let n = a.len() as int;
    if n > 0 {
        let k = p[n - 1];
        assert(q[k] == n - 1);
        let a2 = a.remove(k);
        let b2 = b.drop_last();
        let p2 = Seq::new((n - 1) as nat, |i: int| if p[i] < k { p[i] } else { p[i] - 1 });
        let q2 = Seq::new((n - 1) as nat, |j: int| if j < k { q[j] } else { q[j + 1] });
        assert forall|i: int| 0 <= i < b2.len() implies {
            &&& 0 <= #[trigger] p2[i] < a2.len()
            &&& b2[i] == a2[p2[i]]
            &&& q2[p2[i]] == i
        } by {
            assert(q[p[i]] == i);
            assert(p[i] != k);
        }
        assert forall|j: int| 0 <= j < a2.len() implies 0 <= #[trigger] q2[j] < b2.len() && p2[q2[j]]
            == j by {
            let jj = if j < k { j } else { j + 1 };
            assert(p[q[jj]] == jj);
            assert(q[jj] != n - 1);
        }
        lemma_pool_value_reorder(a2, b2, p2, q2);
        lemma_pool_value_remove(a, k);
        assert(b.last() == a[k]);
    }
}

/// An accepted snapshot of a manifest whose aliases are distinct has
/// distinct aliases too: it carries every manifest alias in as many
/// entries as the manifest has constituents.
proof fn lemma_accepted_aliases_distinct(manifest: &BasketManifest, a: Seq<ConstituentSnapshot<'_>>)
    requires
        manifest_aliases_distinct(manifest),
        plan_accepted(manifest, a),
    ensures
        forall|i: int, j: int| 0 <= i < a.len() && 0 <= j < a.len() && i != j ==> a[i].faucet_alias@ != a[j].faucet_alias@,
{
    let cs = manifest.constituents@;
    let ma = cs.map_values(|c: Constituent| c.faucet_alias@);
    let sa = a.map_values(|s: ConstituentSnapshot| s.faucet_alias@);
    assert(ma.no_duplicates()) by {
        assert forall|i: int, j: int| 0 <= i < ma.len() && 0 <= j < ma.len() && i != j implies ma[i]
            != ma[j] by {
            if i < j {
                assert(cs[i].faucet_alias@ != cs[j].faucet_alias@);
            } else {
                assert(cs[j].faucet_alias@ != cs[i].faucet_alias@);
            }
        }
    }
    ma.unique_seq_to_set();
    assert(ma.to_set().subset_of(sa.to_set())) by {
        assert forall|x: Seq<char>| ma.to_set().contains(x) implies sa.to_set().contains(x) by {
            let j = choose|j: int| 0 <= j < ma.len() && ma[j] == x;
            assert(snapshot_lists(a, cs[j].faucet_alias@));
            let k = choose|k: int| 0 <= k < a.len() && #[trigger] a[k].faucet_alias@ == cs[j].faucet_alias@;
            assert(sa[k] == x);
        }
    }
    seq_to_set_is_finite(sa);
    lemma_len_subset(ma.to_set(), sa.to_set());
    sa.lemma_cardinality_of_set();
    sa.lemma_no_dup_set_cardinality();
    assert forall|i: int, j: int| 0 <= i < a.len() && 0 <= j < a.len() && i != j implies a[i].faucet_alias@
        != a[j].faucet_alias@ by {
        assert(sa[i] != sa[j]);
    }
}

/// Planned trades agree for two snapshots that measure every constituent
/// by the same entry.
proof fn lemma_trades_agree(
    cs: Seq<Constituent>,
    a: Seq<ConstituentSnapshot<'_>>,
    b: Seq<ConstituentSnapshot<'_>>,
    total: u64,
    threshold: u32,
)
    requires
        forall|j: int| 0 <= j < cs.len() ==> #[trigger] matched(a, cs[j]) == matched(b, cs[j]),
    ensures
        planned_trades(cs, a, total, threshold) == planned_trades(cs, b, total, threshold),
    decreases cs.len(),
{
    if cs.len() > 0 {
        let rest = cs.drop_last();
        assert forall|j: int| 0 <= j < rest.len() implies #[trigger] matched(a, rest[j]) == matched(
            b,
            rest[j],
        ) by {
            assert(rest[j] == cs[j]);
        }
        lemma_trades_agree(rest, a, b, total, threshold);
        assert(matched(a, cs[cs.len() - 1]) == matched(b, cs[cs.len() - 1]));
    }
}

/// The plan does not depend on the order of the snapshot's entries: for a
/// manifest with distinct aliases, any reordering of an accepted snapshot
/// is accepted too and gets the same pool value, drifts and trades.
pub proof fn lemma_plan_ignores_snapshot_order(
    manifest: &BasketManifest,
    a: Seq<ConstituentSnapshot<'_>>,
    b: Seq<ConstituentSnapshot<'_>>,
    p: Seq<int>,
    q: Seq<int>,
)
    requires
        manifest_aliases_distinct(manifest),
        plan_accepted(manifest, a),
        is_reordering(a, b, p, q),
    ensures
        plan_accepted(manifest, b),
        plan_defined(manifest, b) == plan_defined(manifest, a),
        expected_plan(manifest, b) == expected_plan(manifest, a),
{
    let cs = manifest.constituents@;
    lemma_accepted_aliases_distinct(manifest, a);
    lemma_pool_value_reorder(a, b, p, q);
    assert forall|i: int| 0 <= i < b.len() implies manifest_lists(cs, #[trigger] b[i].faucet_alias@) by {
        assert(b[i] == a[p[i]]);
        assert(manifest_lists(cs, a[p[i]].faucet_alias@));
    }
    assert forall|j: int| 0 <= j < cs.len() implies #[trigger] matched(a, cs[j]) == matched(b, cs[j])
        && snapshot_lists(b, cs[j].faucet_alias@) by {
        let alias = cs[j].faucet_alias@;
        assert(snapshot_lists(a, cs[j].faucet_alias@));
        let w = choose|w: int| 0 <= w < a.len() && #[trigger] a[w].faucet_alias@ == alias;
        assert forall|m: int| 0 <= m < w implies a[m].faucet_alias@ != alias by {
            assert(a[m].faucet_alias@ != a[w].faucet_alias@);
        }
        assert(is_first_match(a, alias, w));
        lemma_first_match_is(a, alias, w);
        let k = w;
        let i = q[k];
        assert(b[i] == a[k]);
        assert forall|m: int| 0 <= m < i implies b[m].faucet_alias@ != alias by {
            if b[m].faucet_alias@ == alias {
                assert(b[m] == a[p[m]]);
                assert(p[m] == k);
                assert(q[p[m]] == m);
            }
        }
        assert(is_first_match(b, alias, i));
        lemma_first_match_is(b, alias, i);
        assert(snapshot_lists(b, alias)) by {
            assert(b[i].faucet_alias@ == alias);
        }
    }
    assert forall|j: int| 0 <= j < cs.len() implies snapshot_lists(
        b,
        #[trigger] manifest.constituents@[j].faucet_alias@,
    ) by {
        assert(matched(a, cs[j]) == matched(b, cs[j]));
    }
    assert(plan_accepted(manifest, b));
    let total = pool_value(a) as u64;
    lemma_trades_agree(cs, a, b, total, manifest.rebalancing.drift_threshold_bps);
    assert(expected_plan(manifest, b).drifts =~= expected_plan(manifest, a).drifts) by {
        assert forall|j: int| 0 <= j < cs.len() implies drift_for(cs[j], b, total) == drift_for(
            cs[j],
            a,
            total,
        ) by {
            assert(matched(a, cs[j]) == matched(b, cs[j]));
        }
    }
}

/// `(x * f) / (y * f) == x / y` for a positive factor `f`.
proof fn lemma_cancel_factor(x: int, y: int, f: int)
    requires
        x >= 0,
        y > 0,
        f > 0,
    ensures
        (x * f) / (y * f) == x / y,
{
    assert(x * f >= 0) by (nonlinear_arith)
        requires
            x >= 0,
            f > 0,
    ;
    lemma_div_denominator(x * f, f, y);
    lemma_div_by_multiple(x, f);
    assert(f * y == y * f) by (nonlinear_arith);
}

/// Scaling every price scales the pool value by the same factor.
proof fn lemma_pool_value_scaled(a: Seq<ConstituentSnapshot<'_>>, b: Seq<ConstituentSnapshot<'_>>, factor: int)
    requires
        prices_scaled(a, b, factor),
        factor > 0,
        forall|i: int| 0 <= i < b.len() ==> #[trigger] b[i].position_base_units * b[i].price_x1e8 <= u64::MAX,
    ensures
        pool_value(b) == factor * pool_value(a),
        forall|i: int| 0 <= i < a.len() ==> #[trigger] a[i].position_base_units * a[i].price_x1e8 <= u64::MAX,
    decreases a.len(),
{
    assert forall|i: int| 0 <= i < a.len() implies #[trigger] a[i].position_base_units * a[i].price_x1e8
        <= u64::MAX by {
        let x = a[i].position_base_units;
        let y = a[i].price_x1e8;
        assert(b[i].position_base_units * b[i].price_x1e8 <= u64::MAX);
        assert(x * y <= x * (y * factor)) by (nonlinear_arith)
            requires
                x >= 0,
                y >= 0,
                factor >= 1,
        ;
    }
    if a.len() > 0 {
        let n = a.len() - 1;
        assert forall|i: int| 0 <= i < b.drop_last().len() implies #[trigger] b.drop_last()[i].position_base_units
            * b.drop_last()[i].price_x1e8 <= u64::MAX by {
            assert(b.drop_last()[i] == b[i]);
        }
        assert(prices_scaled(a.drop_last(), b.drop_last(), factor)) by {
            assert forall|i: int| 0 <= i < a.drop_last().len() implies {
                &&& (#[trigger] b.drop_last()[i]).faucet_alias@ == a.drop_last()[i].faucet_alias@
                &&& b.drop_last()[i].position_base_units == a.drop_last()[i].position_base_units
                &&& b.drop_last()[i].price_x1e8 == a.drop_last()[i].price_x1e8 * factor
            } by {
                assert(b.drop_last()[i] == b[i]);
                assert(a.drop_last()[i] == a[i]);
            }
        }
        lemma_pool_value_scaled(a.drop_last(), b.drop_last(), factor);
        let x = a[n].position_base_units;
        let y = a[n].price_x1e8;
        assert(b[n].position_base_units * b[n].price_x1e8 <= u64::MAX);
        assert(a[n].position_base_units * a[n].price_x1e8 <= u64::MAX);
        assert(x * (y * factor) == factor * (x * y)) by (nonlinear_arith);
        assert(factor * (pool_value(a.drop_last()) + x * y) == factor * pool_value(a.drop_last())
            + factor * (x * y)) by (nonlinear_arith);
    }
}

/// Drift and trade of one constituent agree for two snapshots that
/// differ by a common price factor.
proof fn lemma_constituent_scaled(
    c: Constituent,
    a: Seq<ConstituentSnapshot<'_>>,
    b: Seq<ConstituentSnapshot<'_>>,
    factor: int,
    ta: u64,
    tb: u64,
)
    requires
        factor > 0,
        tb == factor * ta,
        matched(b, c).position_base_units == matched(a, c).position_base_units,
        matched(b, c).price_x1e8 == matched(a, c).price_x1e8 * factor,
        matched(a, c).position_base_units * matched(a, c).price_x1e8 <= ta,
        c.target_weight_bps <= 10000,
    ensures
        drift_for(c, b, tb) == drift_for(c, a, ta),
        trade_for(c, b, tb) == trade_for(c, a, ta),
{
    let sa = matched(a, c);
    let x = sa.position_base_units * sa.price_x1e8;
    let pa = sa.price_x1e8 as int;
    let pb = matched(b, c).price_x1e8 as int;
    let u = sa.position_base_units as int;
    let v = sa.price_x1e8 as int;
    assert(u * (v * factor) * 10000 == (u * v * 10000) * factor) by (nonlinear_arith);
    let wa = weight_bps(sa.position_base_units, sa.price_x1e8, ta);
    if ta > 0 {
        assert(tb == (ta as int) * factor) by (nonlinear_arith)
            requires
                tb == factor * ta,
        ;
        lemma_cancel_factor(x * 10000, ta as int, factor);
        assert(x * 10000 <= (ta as int) * 10000) by (nonlinear_arith)
            requires
                0 <= x <= ta,
        ;
        lemma_div_is_ordered(x * 10000, (ta as int) * 10000, ta as int);
        lemma_div_by_multiple(10000, ta as int);
        assert((ta as int) * 10000 == 10000 * (ta as int)) by (nonlinear_arith);
        assert(wa <= 10000);
        let sb = matched(b, c);
        assert(sb.position_base_units * sb.price_x1e8 * 10000 == (x * 10000) * factor);
        assert((x * 10000) * factor / ((ta as int) * factor) == x * 10000 / (ta as int));
        assert((tb as int) == (ta as int) * factor);
        assert(tb > 0) by (nonlinear_arith)
            requires
                (tb as int) == (ta as int) * factor,
                ta > 0,
                factor > 0,
        ;
        assert(sb.position_base_units * sb.price_x1e8 * 10000 / (tb as int) == x * 10000 / (ta as int));
        assert(weight_bps(sb.position_base_units, sb.price_x1e8, tb) == wa);
    } else {
        assert(tb == 0);
    }
    assert(drift_for(c, b, tb) == drift_for(c, a, ta));
    let d = drift_for(c, a, ta).drift_bps as int;
    assert(d <= 10000);
    if ta > 0 && pa > 0 {
        let na = d * ta / 10000;
        let nb = d * tb / 10000;
        assert(d * ta <= 10000 * (ta as int)) by (nonlinear_arith)
            requires
                0 <= d <= 10000,
                ta >= 0,
        ;
        lemma_div_is_ordered(d * ta, 10000 * (ta as int), 10000);
        lemma_div_by_multiple(ta as int, 10000);
        assert((ta as int) * 10000 == 10000 * (ta as int)) by (nonlinear_arith);
        assert(d * tb <= 10000 * (tb as int)) by (nonlinear_arith)
            requires
                0 <= d <= 10000,
                tb >= 0,
        ;
        lemma_div_is_ordered(d * tb, 10000 * (tb as int), 10000);
        lemma_div_by_multiple(tb as int, 10000);
        assert((tb as int) * 10000 == 10000 * (tb as int)) by (nonlinear_arith);
        assert(na <= u64::MAX && nb <= u64::MAX);
        assert(d * ta >= 0) by (nonlinear_arith)
            requires
                d >= 0,
                ta >= 0,
        ;
        lemma_div_denominator(d * ta, 10000, pa);
        assert(pb == pa * factor);
        assert(pb > 0) by (nonlinear_arith)
            requires
                pb == pa * factor,
                pa > 0,
                factor > 0,
        ;
        assert(d * tb >= 0) by (nonlinear_arith)
            requires
                d >= 0,
                tb >= 0,
        ;
        lemma_div_denominator(d * tb, 10000, pb);
        assert(d * tb == (d * ta) * factor) by (nonlinear_arith)
            requires
                tb == (ta as int) * factor,
        ;
        assert(10000 * pb == (10000 * pa) * factor) by (nonlinear_arith)
            requires
                pb == pa * factor,
        ;
        lemma_cancel_factor(d * ta, 10000 * pa, factor);
        assert(trade_base_units(d as u32, tb, pb as u64) == trade_base_units(d as u32, ta, pa as u64));
    } else if ta > 0 {
        assert(pb == 0);
    } else {
        assert(tb == 0);
    }
}

/// Planned trades agree for two snapshots on which every constituent's
/// drift and trade agree.
proof fn lemma_trades_agree_scaled(
    cs: Seq<Constituent>,
    a: Seq<ConstituentSnapshot<'_>>,
    b: Seq<ConstituentSnapshot<'_>>,
    ta: u64,
    tb: u64,
    threshold: u32,
)
    requires
        forall|j: int| 0 <= j < cs.len() ==> #[trigger] drift_for(cs[j], b, tb) == drift_for(cs[j], a, ta)
            && trade_for(cs[j], b, tb) == trade_for(cs[j], a, ta),
    ensures
        planned_trades(cs, b, tb, threshold) == planned_trades(cs, a, ta, threshold),
    decreases cs.len(),
{
    if cs.len() > 0 {
        let rest = cs.drop_last();
        assert forall|j: int| 0 <= j < rest.len() implies #[trigger] drift_for(rest[j], b, tb) == drift_for(
            rest[j],
            a,
            ta,
        ) && trade_for(rest[j], b, tb) == trade_for(rest[j], a, ta) by {
            assert(rest[j] == cs[j]);
        }
        lemma_trades_agree_scaled(rest, a, b, ta, tb, threshold);
        assert(drift_for(cs[cs.len() - 1], b, tb) == drift_for(cs[cs.len() - 1], a, ta));
    }
}

/// Multiplying every price by the same positive factor scales the pool
/// value by that factor and leaves every drift and every trade (in base
/// units) unchanged, as long as the scaled entry values and pool value fit
/// in a `u64` and no target exceeds 10000 bps (so no trade notional wraps).
pub proof fn lemma_plan_ignores_price_scale(
    manifest: &BasketManifest,
    a: Seq<ConstituentSnapshot<'_>>,
    b: Seq<ConstituentSnapshot<'_>>,
    factor: int,
)
    requires
        plan_accepted(manifest, a),
        prices_scaled(a, b, factor),
        factor > 0,
        forall|i: int| 0 <= i < b.len() ==> #[trigger] b[i].position_base_units * b[i].price_x1e8 <= u64::MAX,
        pool_value(b) <= u64::MAX,
        forall|j: int| 0 <= j < manifest.constituents@.len()
            ==> #[trigger] manifest.constituents@[j].target_weight_bps <= 10000,
    ensures
        plan_accepted(manifest, b),
        pool_value(b) == factor * pool_value(a),
        expected_plan(manifest, b).drifts == expected_plan(manifest, a).drifts,
        expected_plan(manifest, b).trades == expected_plan(manifest, a).trades,
{
    let cs = manifest.constituents@;
    lemma_pool_value_scaled(a, b, factor);
    lemma_pool_value_nonneg_entries(a);
    assert(pool_value(a) <= pool_value(b)) by (nonlinear_arith)
        requires
            pool_value(b) == factor * pool_value(a),
            pool_value(a) >= 0,
            factor >= 1,
    ;
    let ta = pool_value(a) as u64;
    let tb = pool_value(b) as u64;
    assert forall|i: int| 0 <= i < b.len() implies manifest_lists(cs, #[trigger] b[i].faucet_alias@) by {
        assert(manifest_lists(cs, a[i].faucet_alias@));
    }
    assert forall|j: int| 0 <= j < cs.len() implies #[trigger] drift_for(cs[j], b, tb) == drift_for(
        cs[j],
        a,
        ta,
    ) && trade_for(cs[j], b, tb) == trade_for(cs[j], a, ta) && snapshot_lists(b, cs[j].faucet_alias@) by {
        let alias = cs[j].faucet_alias@;
        assert(snapshot_lists(a, manifest.constituents@[j].faucet_alias@));
        let w = choose|w: int| 0 <= w < a.len() && #[trigger] a[w].faucet_alias@ == alias;
        lemma_first_match_exists(a, alias, w);
        let k = first_match(a, alias);
        assert(is_first_match(a, alias, k));
        assert forall|m: int| 0 <= m < k implies b[m].faucet_alias@ != alias by {
            assert(a[m].faucet_alias@ != alias);
        }
        assert(is_first_match(b, alias, k));
        lemma_first_match_is(b, alias, k);
        assert(b[k].faucet_alias@ == alias);
        lemma_entry_value_within_pool(a, k);
        assert(cs[j].target_weight_bps <= 10000);
        lemma_constituent_scaled(cs[j], a, b, factor, ta, tb);
    }
    assert forall|j: int| 0 <= j < cs.len() implies snapshot_lists(
        b,
        #[trigger] manifest.constituents@[j].faucet_alias@,
    ) by {
        assert(drift_for(cs[j], b, tb) == drift_for(cs[j], a, ta));
    }
    assert(plan_accepted(manifest, b));
    lemma_trades_agree_scaled(cs, a, b, ta, tb, manifest.rebalancing.drift_threshold_bps);
    assert(expected_plan(manifest, b).drifts =~= expected_plan(manifest, a).drifts) by {
        assert forall|j: int| 0 <= j < cs.len() implies drift_for(cs[j], b, tb) == drift_for(
            cs[j],
            a,
            ta,
        ) by {
            assert(drift_for(cs[j], b, tb) == drift_for(cs[j], a, ta));
        }
    }
}

/// Each entry's value, unclamped, is at most the pool value when no entry
/// overflows.
proof fn lemma_entry_value_within_pool(a: Seq<ConstituentSnapshot<'_>>, k: int)
    requires
        0 <= k < a.len(),
        forall|i: int| 0 <= i < a.len() ==> #[trigger] a[i].position_base_units * a[i].price_x1e8 <= u64::MAX,
    ensures
        0 <= a[k].position_base_units * a[k].price_x1e8 <= pool_value(a),
    decreases a.len(),
{
    lemma_pool_value_nonneg_entries(a.drop_last());
    assert(a[a.len() - 1].position_base_units * a[a.len() - 1].price_x1e8 <= u64::MAX);
    if k < a.len() - 1 {
        assert forall|i: int| 0 <= i < a.drop_last().len() implies #[trigger] a.drop_last()[i].position_base_units
            * a.drop_last()[i].price_x1e8 <= u64::MAX by {
            assert(a.drop_last()[i] == a[i]);
        }
        lemma_entry_value_within_pool(a.drop_last(), k);
        assert(a.drop_last()[k] == a[k]);
    }
}

proof fn lemma_pool_value_nonneg_entries(a: Seq<ConstituentSnapshot<'_>>)
    ensures
        pool_value(a) >= 0,
    decreases a.len(),
{
    if a.len() > 0 {
        lemma_pool_value_nonneg_entries(a.drop_last());
    }
}

} // verus!
