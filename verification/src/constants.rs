//! Fixed parameters of the pricing rules.

use vstd::prelude::*;

verus! {

/// Pool shares withheld from the first deposit and never minted.
pub const MINIMUM_LIQUIDITY: u64 = 1000;

/// Part of every swap input, out of `FEE_DENOMINATOR`, that is priced.
pub const FEE_NUMERATOR: u64 = 997;

/// Scale of `FEE_NUMERATOR`.
pub const FEE_DENOMINATOR: u64 = 1000;

/// Largest fee rate, in basis points, that a pool may be created with.
pub const MAX_FEE_RATE: u16 = 10000;

} // verus!
