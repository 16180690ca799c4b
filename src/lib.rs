//! Matching and risk engine of a perpetual-futures exchange for one
//! instrument: a central limit order book with price-time priority, a
//! position tracker with funding, marking and liquidation, a wallet ledger and
//! a simulated index price.
pub mod fixed;
pub mod matching_laws;
pub mod oracle;
pub mod order;
pub mod position;
pub mod types;
pub mod wallet;
