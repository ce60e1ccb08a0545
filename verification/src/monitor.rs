//! Drift monitoring: the price table and synthetic snapshots the rebalance
//! bot and demo feed to the planner, and the status a tick reports.

use vstd::prelude::*;
use crate::baskets::{BasketManifest, Constituent};
use crate::rebalance::{same_alias, ConstituentSnapshot, DriftModel, RebalancePlan};

verus! {

/// The mock oracle's prices (8 decimals), ordered by alias.
pub open spec fn mock_price_table() -> Seq<(Seq<char>, u64)> {
    seq![
        ("darwin-dai"@, 100_000_000u64),
        ("darwin-eth"@, 200_000_000_000u64),
        ("darwin-usdt"@, 100_000_000u64),
        ("darwin-wbtc"@, 6_000_000_000_000u64),
    ]
}

/// `a` sorts strictly before `b`, comparing code points from the left.
pub open spec fn sorts_before(a: Seq<char>, b: Seq<char>) -> bool {
    exists|k: int|
        #![trigger a.take(k), b.take(k)]
        0 <= k <= a.len() && k <= b.len() && a.take(k) == b.take(k) && ((k == a.len() && k
            < b.len()) || (k < a.len() && k < b.len() && (a[k] as int) < (b[k] as int)))
}

/// A price table whose aliases are strictly increasing, so each alias
/// occurs once (as the keys of an ordered map).
pub open spec fn is_ordered_table(prices: Seq<(&str, u64)>) -> bool {
    forall|i: int, j: int|
        0 <= i < j < prices.len() ==> sorts_before(#[trigger] prices[i].0@, #[trigger] prices[j].0@)
            && prices[i].0@ != prices[j].0@
}

/// The text of each alias of a price table, beside its price.
pub open spec fn price_table_view(prices: Seq<(&str, u64)>) -> Seq<(Seq<char>, u64)> {
    prices.map_values(|p: (&str, u64)| (p.0@, p.1))
}

/// Price of `alias` in `prices`: that of its first entry, or 1 when the
/// table has none.
pub open spec fn price_lookup(prices: Seq<(&str, u64)>, alias: Seq<char>) -> u64
    decreases prices.len(),
{
    if prices.len() == 0 {
        1
    } else if prices[0].0@ == alias {
        prices[0].1
    } else {
        price_lookup(prices.drop_first(), alias)
    }
}

/// The largest drift of a list of drift entries, or 0 for none.
pub open spec fn max_drift(ds: Seq<DriftModel>) -> u32
    decreases ds.len(),
{
    if ds.len() == 0 {
        0
    } else {
        let rest = max_drift(ds.drop_last());
        if ds.last().drift_bps > rest {
            ds.last().drift_bps
        } else {
            rest
        }
    }
}

/// How far a basket has drifted, relative to its threshold.
#[derive(Debug, Clone, Copy, PartialEq, Eq, Structural)]
pub enum DriftStatus {
    /// Some drift exceeds the threshold: a rebalance is due.
    Rebalance,
    /// The largest drift exceeds half the threshold.
    Watch,
    /// Every drift is within half the threshold.
    Within,
}

/// Status of a basket whose largest drift is `max_drift` bps.
pub open spec fn status_of(max_drift: u32, threshold: u32) -> DriftStatus {
    if max_drift > threshold {
        DriftStatus::Rebalance
    } else if max_drift > threshold / 2 {
        DriftStatus::Watch
    } else {
        DriftStatus::Within
    }
}

/// A price table gives the price of the first entry carrying the alias, and
/// 1 when no entry carries it.
pub proof fn lemma_price_lookup_first_entry(prices: Seq<(&str, u64)>, alias: Seq<char>)
    ensures
        (forall|i: int| 0 <= i < prices.len() ==> (#[trigger] prices[i]).0@ != alias) ==> price_lookup(
            prices,
            alias,
        ) == 1,
        forall|i: int|
            0 <= i < prices.len() && (#[trigger] prices[i]).0@ == alias && (forall|m: int|
                0 <= m < i ==> prices[m].0@ != alias) ==> price_lookup(prices, alias) == prices[i].1,
    decreases prices.len(),
{
    if prices.len() > 0 {
        let rest = prices.drop_first();
        lemma_price_lookup_first_entry(rest, alias);
        assert forall|i: int|
            0 <= i < prices.len() && (#[trigger] prices[i]).0@ == alias && (forall|m: int|
                0 <= m < i ==> prices[m].0@ != alias) implies price_lookup(prices, alias)
            == prices[i].1 by {
            if i > 0 {
                assert(prices[0].0@ != alias);
                assert(rest[i - 1] == prices[i]);
                assert forall|m: int| 0 <= m < i - 1 implies rest[m].0@ != alias by {
                    assert(rest[m] == prices[m + 1]);
                }
            }
        }
        if forall|i: int| 0 <= i < prices.len() ==> (#[trigger] prices[i]).0@ != alias {
            assert forall|i: int| 0 <= i < rest.len() implies (#[trigger] rest[i]).0@ != alias by {
                assert(rest[i] == prices[i + 1]);
            }
        }
    }
}

/// Mock oracle prices (8-decimal scale), one entry per alias, ordered by
/// alias.
pub fn mock_oracle_prices() -> (prices: Vec<(&'static str, u64)>)
    ensures
        price_table_view(prices@) == mock_price_table(),
        is_ordered_table(prices@),
{
    let mut m: Vec<(&'static str, u64)> = Vec::new();
    m.push(("darwin-dai", 100_000_000u64));
    m.push(("darwin-eth", 200_000_000_000u64));
    m.push(("darwin-usdt", 100_000_000u64));
    m.push(("darwin-wbtc", 6_000_000_000_000u64));
    assert(price_table_view(m@) =~= mock_price_table());
    proof {
        reveal_strlit("darwin-dai");
        reveal_strlit("darwin-eth");
        reveal_strlit("darwin-usdt");
        reveal_strlit("darwin-wbtc");
        let a = m@;
        assert forall|i: int, j: int| 0 <= i < j < a.len() implies sorts_before(
            #[trigger] a[i].0@,
            #[trigger] a[j].0@,
        ) && a[i].0@ != a[j].0@ by {
            assert(a[i].0@.take(7) =~= a[j].0@.take(7));
            assert((a[i].0@[7] as int) < (a[j].0@[7] as int));
            assert(a[i].0@[7] != a[j].0@[7]);
        }
    }
    m
}

/// Price of `alias` in `prices`, 1 when the table lists none. Where the
/// table lists an alias more than once (it cannot in an ordered table), the
/// first entry wins.
pub fn price_for(prices: &[(&str, u64)], alias: &str) -> (p: u64)
    ensures
        p == price_lookup(prices@, alias@),
{
    let mut i: usize = 0;
    assert(prices@.skip(0) =~= prices@);
    while i < prices.len()
        invariant
            i <= prices@.len(),
            price_lookup(prices@, alias@) == price_lookup(prices@.skip(i as int), alias@),
        decreases prices@.len() - i,
    {
        proof {
            assert(prices@.skip(i as int).drop_first() =~= prices@.skip(i + 1));
            assert(prices@.skip(i as int)[0] == prices@[i as int]);
        }
        if same_alias(prices[i].0, alias) {
            return prices[i].1;
        }
        i = i + 1;
    }
    proof {
        assert(prices@.skip(i as int).len() == 0);
    }
    1
}

/// A synthetic snapshot of `basket`: each constituent at a position equal
/// to its target weight (the first at `first_position`), priced from
/// `prices` (1 where the table has no entry).
pub fn synthesize_snapshot<'a>(
    basket: &'a BasketManifest,
    prices: &[(&str, u64)],
    first_position: u64,
) -> (snap: Vec<ConstituentSnapshot<'a>>)
    ensures
        snap@.len() == basket.constituents@.len(),
        forall|i: int| 0 <= i < snap@.len() ==> {
            let c = basket.constituents@[i];
            let s = #[trigger] snap@[i];
            &&& s.faucet_alias@ == c.faucet_alias@
            &&& s.position_base_units == (if i == 0 { first_position } else { c.target_weight_bps as u64 })
            &&& s.price_x1e8 == price_lookup(prices@, c.faucet_alias@)
        },
{
    let cs: &'a Vec<Constituent> = &basket.constituents;
    let mut snap: Vec<ConstituentSnapshot<'a>> = Vec::with_capacity(cs.len());
    let mut idx: usize = 0;
    while idx < cs.len()
        invariant
            idx <= cs@.len(),
            cs == &basket.constituents,
            snap@.len() == idx,
            forall|i: int| 0 <= i < idx ==> {
                let c = basket.constituents@[i];
                let s = #[trigger] snap@[i];
                &&& s.faucet_alias@ == c.faucet_alias@
                &&& s.position_base_units == (if i == 0 { first_position } else { c.target_weight_bps as u64 })
                &&& s.price_x1e8 == price_lookup(prices@, c.faucet_alias@)
            },
        decreases cs@.len() - idx,
    {
        let c: &'a Constituent = &cs[idx];
        let position = if idx == 0 {
            first_position
        } else {
            c.target_weight_bps as u64
        };
        let alias: &'a str = c.faucet_alias.as_str();
        let price = price_for(prices, alias);
        snap.push(ConstituentSnapshot { faucet_alias: alias, position_base_units: position, price_x1e8: price });
        idx = idx + 1;
    }
    snap
}

/// The largest drift in `plan`, 0 when it has no drift entries.
pub fn max_drift_bps(plan: &RebalancePlan) -> (m: u32)
    ensures
        m == max_drift(plan@.drifts),
{
    let mut m: u32 = 0;
    let mut i: usize = 0;
    while i < plan.drifts.len()
        invariant
            i <= plan.drifts@.len(),
            m == max_drift(plan@.drifts.take(i as int)),
        decreases plan.drifts@.len() - i,
    {
        proof {
            assert(plan@.drifts.take(i + 1).drop_last() =~= plan@.drifts.take(i as int));
        }
        let d = plan.drifts[i].drift_bps;
        if d > m {
            m = d;
        }
        i = i + 1;
    }
    proof {
        assert(plan@.drifts.take(i as int) =~= plan@.drifts);
    }
    m
}

/// Status of a basket whose largest drift is `max_drift` bps against a
/// threshold of `threshold` bps.
pub fn drift_status(max_drift: u32, threshold: u32) -> (s: DriftStatus)
    ensures
        s == status_of(max_drift, threshold),
        (s == DriftStatus::Rebalance) == (max_drift > threshold),
        max_drift <= threshold ==> ((s == DriftStatus::Watch) == (2 * max_drift > threshold)),
        max_drift <= threshold ==> ((s == DriftStatus::Within) == (2 * max_drift <= threshold)),
{
    if max_drift > threshold {
        DriftStatus::Rebalance
    } else if max_drift > threshold / 2 {
        DriftStatus::Watch
    } else {
        DriftStatus::Within
    }
}

} // verus!
