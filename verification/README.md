# monad_gas

Gas estimates, gas prices and fee histories for an Ethereum JSON-RPC server, with the decisions
verified by Verus.

- `src/estimate_request.rs`, `src/estimation.rs`: the handling of `eth_estimateGas`, and the search
  for the lowest gas limit. The search asks for transactions to be built and executed and is told
  the outcomes; `src/estimation_laws.rs` proves what holds of every search.
- `src/fee_history.rs`, `src/rewards.rs`, `src/percentile.rs`: the handling of `eth_feeHistory`.
  `src/rewards_laws.rs` proves what holds of the rewards of every block.
- `src/gas_price.rs`: `eth_gasPrice`, `eth_maxPriorityFeePerGas` and base fees.
- `src/binary64.rs`, `src/double.rs`, `src/error_ratio.rs`: double-precision arithmetic on integers,
  exact to the last bit.
- `src/types.rs`: the values that requests, replies and results are made of.
- `app/`: the asynchronous handlers, which fetch what the library asks for.

Effective tips come from `alloy_consensus` and the order of a block's transactions from
`itertools`; what is trusted of them stands above the three wrappers in `src/rewards.rs`.
