//! Core of a cross-exchange arbitrage engine: per-(exchange, symbol) order
//! books with staleness and monotonicity invariants, a consolidated
//! best-bid/best-ask view, an arbitrage detector that nets out fees, and an
//! order-lifecycle execution engine with a two-leg compensation guarantee.
//!
//! Prices and quantities are fixed-point decimals: a `u64` holding the value
//! scaled by [`types::SCALE`]. Floating point is never used.

pub mod types;
pub mod book;
pub mod store;
pub mod consolidated;
pub mod detector;
pub mod execution;

pub use types::PriceLevel;
pub use types::Orderbook;
pub use types::Side;
