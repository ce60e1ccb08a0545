//! The basket manifest as the planner reads it: which constituents a
//! basket holds, the weight each one should have, and the drift beyond
//! which a rebalance is due.

use vstd::prelude::*;

verus! {

/// One constituent of a basket, as declared by its manifest.
#[derive(Debug, Clone)]
pub struct Constituent {
    /// Faucet alias (`darwin-eth`, `darwin-wbtc`, ...), the key by which a
    /// snapshot entry is joined to this constituent.
    pub faucet_alias: String,
    /// Target share of the pool value, in basis points.
    pub target_weight_bps: u32,
}

/// Rebalancing parameters of a basket.
#[derive(Debug, Clone, Copy)]
pub struct BasketRebalancing {
    /// A constituent whose drift exceeds this many basis points is traded.
    pub drift_threshold_bps: u32,
}

/// A basket manifest: its identity, constituents and rebalancing policy.
#[derive(Debug, Clone)]
pub struct BasketManifest {
    pub symbol: String,
    pub name: String,
    pub constituents: Vec<Constituent>,
    pub rebalancing: BasketRebalancing,
}

} // verus!
