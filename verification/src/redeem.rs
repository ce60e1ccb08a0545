//! Redeem (Miden side of Flow C): the request a user builds to redeem
//! basket tokens for the underlyings.

use vstd::prelude::*;
use crate::BasketHandle;

verus! {

/// A user's intent to redeem from a basket.
#[derive(Debug, Clone)]
pub struct RedeemRequest {
    pub basket: BasketHandle,
    /// Amount of basket token to burn, in basket-token base units.
    pub burn_amount: u64,
    /// Miden account id that receives the underlyings.
    pub recipient_account_id: u64,
    pub expiry_block: u64,
}

} // verus!
