//! Reasons for which an operation is rejected.

use vstd::prelude::*;

verus! {

/// Why an operation was rejected. A rejected operation leaves the pool as it
/// found it.
#[derive(Clone, Copy, Debug, PartialEq, Eq)]
pub enum ErrorCode {
    /// The parameters of a new pool are not acceptable.
    InvalidConfiguration,
    /// A quantity that has to be positive is zero.
    InsufficientAmount,
    /// The pool holds no reserves, or the shares to mint come to nothing.
    InsufficientLiquidity,
    /// The amount of asset A falls outside the caller's bounds.
    InsufficientAAmount,
    /// The amount of asset B falls outside the caller's bounds.
    InsufficientBAmount,
    /// The swap would pay out less than the caller's floor.
    SlippageExceeded,
    /// A reserve or the share supply would leave the range of `u64`.
    ArithmeticOverflow,
}

} // verus!
