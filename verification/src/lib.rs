//! Gas estimates, gas prices and fee histories for an Ethereum JSON-RPC server.
#![allow(unused_imports)]

pub mod binary64;
pub mod double;
pub mod error_ratio;
pub mod estimate_request;
pub mod estimate_request_laws;
pub mod estimation;
pub mod estimation_laws;
pub mod fee_history;
pub mod fee_history_laws;
pub mod gas_price;
pub mod percentile;
pub mod rewards;
pub mod rewards_laws;
pub mod search_laws;
pub mod types;
