# darwin-sdk

Client SDK for Darwin Protocol baskets, with its planning logic proved in Verus.

- `src/` — the verified library:
  - `lib.rs`: `SdkError`, `BasketHandle` (manifest plus on-chain ids).
    `BasketHandle::from_symbol` takes the manifest that the caller's basket
    catalogue resolved for the symbol (`None` when it has none).
  - `baskets.rs`: the basket manifest the planner reads.
  - `rebalance.rs`: pool value, constituent weights, drift, and `plan`,
    which builds the per-constituent drift report and the rebalance trades.
  - `laws.rs`: properties of the planner across all inputs (no drift at par,
    no trades within the threshold, weights add up to the full pool up to
    rounding).
  - `invariance.rs`: the plan does not depend on the snapshot's order, nor
    on a common factor on every price.
  - `monitor.rs`: the price table, synthetic snapshots and drift status used
    by the bot and the demo.
  - `text.rs`: the planner's error messages.
  - `deposit.rs`, `redeem.rs`: deposit and redeem requests.
- `app/` — the command-line bot and demo (`darwin-sdk bot`, `darwin-sdk demo`),
  which read the bundled basket catalogue from `darwin_baskets`.
- `tests/` — tests of the library.
