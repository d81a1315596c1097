//! The ways in which an operation on a pool is turned down.

use vstd::prelude::*;

verus! {

/// Why an operation on a pool was turned down. An operation that is turned
/// down leaves the pool as it was.
#[derive(Clone, Copy, Debug, PartialEq, Eq, Structural)]
pub enum DexError {
    /// Both initial deposits are empty.
    InvalidInitialDeposit,
    /// The swap fee lies outside the range from zero to one.
    InvalidFee,
    /// A bucket holds an asset that does not belong to the pool.
    UnrecognizedAsset,
    /// More would leave the pool than it holds.
    InsufficientLiquidity,
    /// A ratio is asked for whose divisor, a reserve or the supply of
    /// liquidity tokens, is zero.
    EmptyPool,
    /// An amount handed in is negative, or an amount that the operation
    /// arrives at is too large for the 192 bits of a fixed-point number.
    AmountOutOfRange,
}

} // verus!
