//! Darwin Protocol client SDK: basket handles, deposit and redeem
//! requests, and the off-chain rebalance planner.

pub mod baskets;
pub mod deposit;
pub mod invariance;
pub mod laws;
pub mod monitor;
pub mod rebalance;
pub mod redeem;
pub mod text;

use vstd::prelude::*;
use crate::baskets::BasketManifest;

verus! {

/// Errors surfaced by the SDK.
#[derive(Debug, Clone)]
pub enum SdkError {
    /// No basket manifest is known under the given symbol.
    UnknownBasket(String),
    /// No wallet is connected.
    NotConnected,
    /// The caller's input is inconsistent; the text says how.
    InvalidInput(String),
}

/// High-level handle to a Darwin basket from the SDK side: the manifest
/// plus the on-chain ids, which stay `None` until deployment populates them.
#[derive(Debug, Clone)]
pub struct BasketHandle {
    pub manifest: BasketManifest,
    pub protocol_account_id: Option<u64>,
    pub basket_token_faucet_id: Option<u64>,
}

/// A handle is resolved once both on-chain ids are known.
pub open spec fn handle_resolved(h: BasketHandle) -> bool {
    h.protocol_account_id is Some && h.basket_token_faucet_id is Some
}

impl BasketHandle {
    /// Builds the handle for `symbol` from the manifest that the basket
    /// catalogue resolved for it (`found`), with neither on-chain id set.
    /// A symbol the catalogue does not know is `SdkError::UnknownBasket`,
    /// carrying the symbol.
    pub fn from_symbol(symbol: &str, found: Option<BasketManifest>) -> (r: Result<Self, SdkError>)
        ensures
            match found {
                Some(m) => r == Ok::<BasketHandle, SdkError>(
                    BasketHandle {
                        manifest: m,
                        protocol_account_id: None,
                        basket_token_faucet_id: None,
                    },
                ),
                None => r matches Err(SdkError::UnknownBasket(s)) && s@ == symbol@,
            },
    {
        match found {
            Some(manifest) => Ok(
                BasketHandle { manifest, protocol_account_id: None, basket_token_faucet_id: None },
            ),
            None => Err(SdkError::UnknownBasket(symbol.to_owned())),
        }
    }

    /// Attaches the deployed protocol account id to this handle.
    pub fn with_protocol_account(self, account_id: u64) -> (h: Self)
        ensures
            h == (BasketHandle { protocol_account_id: Some(account_id), ..self }),
    {
        let mut h = self;
        h.protocol_account_id = Some(account_id);
        h
    }

    /// Attaches the deployed basket-token faucet id to this handle.
    pub fn with_basket_token_faucet(self, faucet_id: u64) -> (h: Self)
        ensures
            h == (BasketHandle { basket_token_faucet_id: Some(faucet_id), ..self }),
    {
        let mut h = self;
        h.basket_token_faucet_id = Some(faucet_id);
        h
    }

    /// True once both the protocol account and the basket faucet ids have
    /// been populated.
    pub fn is_resolved(&self) -> (b: bool)
        ensures
            b == handle_resolved(*self),
    {
        self.protocol_account_id.is_some() && self.basket_token_faucet_id.is_some()
    }
}

/// A handle is resolved after both on-chain ids are attached, in either
/// order, and not while either one is missing.
pub proof fn lemma_resolution_needs_both_ids(h: BasketHandle, account_id: u64, faucet_id: u64)
    ensures
        handle_resolved(
            BasketHandle {
                basket_token_faucet_id: Some(faucet_id),
                ..BasketHandle { protocol_account_id: Some(account_id), ..h }
            },
        ),
        handle_resolved(
            BasketHandle {
                protocol_account_id: Some(account_id),
                ..BasketHandle { basket_token_faucet_id: Some(faucet_id), ..h }
            },
        ),
        h.basket_token_faucet_id is None ==> !handle_resolved(
            BasketHandle { protocol_account_id: Some(account_id), ..h },
        ),
        h.protocol_account_id is None ==> !handle_resolved(
            BasketHandle { basket_token_faucet_id: Some(faucet_id), ..h },
        ),
{
}

} // verus!
