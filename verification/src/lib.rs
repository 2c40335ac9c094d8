//! Core of a terminal monitor for collateralized debt positions ("urns")
//! on a lending protocol: fixed-point unit conversions, time-based debt
//! accrual, collateral valuation (simple holdings and concentrated-liquidity
//! pool positions), per-vault health metrics, and the snapshot pipeline that
//! keeps a producer and a presentation consumer consistent.

pub mod accrual;
pub mod codec;
pub mod config;
pub mod errors;
pub mod events;
pub mod health;
pub mod keys;
pub mod pipeline;
pub mod units;
pub mod valuation;
pub mod view;
pub mod wide;
