//! Deposit (Flow A): the request a user builds to deposit into a basket.

use vstd::prelude::*;
use crate::BasketHandle;

verus! {

/// A user's intent to deposit into a basket.
#[derive(Debug, Clone)]
pub struct DepositRequest {
    pub basket: BasketHandle,
    /// One entry per asset the user wants to deposit; a subset of the
    /// basket's constituents is allowed.
    pub assets: Vec<DepositAssetEntry>,
    /// Block at which the note expires if not consumed.
    pub expiry_block: u64,
}

/// One asset of a deposit: the faucet it comes from and the amount.
#[derive(Debug, Clone, Copy)]
pub struct DepositAssetEntry {
    pub faucet_id: u64,
    pub amount: u64,
}

} // verus!
