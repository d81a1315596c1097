//! A two-asset constant-product liquidity pool over 18-decimal fixed-point
//! amounts, with the arithmetic of scrypto's `Decimal`.

pub mod asset;
pub mod error;
pub mod fixed;
pub mod laws;
pub mod pool;
pub mod rounding;
