//! A shadow-mode arbitrage evaluator for a two-venue token route: for
//! every new block it quotes a constant-product pair against a
//! concentrated-liquidity quoter, weighs the hypothetical two-leg trade
//! against flash-loan fee and gas, and emits one structured decision row
//! per configured input size. It never submits transactions.
//!
//! This crate holds the evaluator's whole logic — 256-bit saturating
//! arithmetic, quoting, classification, row and summary rendering, the
//! log-rate limiter, the rolling counters, configuration and route
//! validation — each function with a proved contract. The process around
//! it supplies the RPC transport, the ABI codec, the clock and the output
//! streams, and feeds every observed value in as a plain argument.

pub mod config;
pub mod gate;
pub mod market;
pub mod providers;
pub mod quoting;
pub mod route;
pub mod row;
pub mod sanitize;
pub mod scheduler;
pub mod stats;
pub mod text;
pub mod u256;

pub use u256::U256;
