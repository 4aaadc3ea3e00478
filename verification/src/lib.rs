//! Core engine of a prediction-market protocol: two-pool pricing for
//! binary YES/NO markets and multi-outcome markets, a
//! price-compatible limit-order matcher, a negative-risk rebalancer that
//! keeps a one-winner market's implied probabilities summing to 100%, and
//! a position ledger with split / merge / convert operations.
//!
//! Every operation is a single sequential computation over plain values.
//! The surrounding host is expected to supply records addressed by
//! `(market[, owner][, answer])`, the current time, and an authorization
//! decision, and to move collateral by the exact amounts the engine
//! reports; the engine itself never performs I/O and never decides
//! amounts twice.

pub mod convert;
pub mod errors;
pub mod fees;
pub mod market;
pub mod multi;
pub mod multi_trade;
pub mod negrisk;
pub mod orderbook;
pub mod pool;
