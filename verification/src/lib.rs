//! A constant-product automated market maker for one pair of assets.
//!
//! The crate holds the pool's bookkeeping and the integer arithmetic that
//! prices swaps, mints pool shares for deposits and redeems them on
//! withdrawal. It moves no tokens itself: every operation takes the pool
//! record, decides, and reports the amounts that the surrounding ledger has
//! to transfer, mint or burn.

pub mod constants;
pub mod error;
pub mod laws;
pub mod math;
pub mod pool;
pub mod pubkey;

pub use crate::error::ErrorCode;
pub use crate::pool::{add_liquidity, initialize_pool, remove_liquidity, swap, Pool};
pub use crate::pubkey::Pubkey;
