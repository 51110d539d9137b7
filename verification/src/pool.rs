//! The pool record and the four operations on it.

use vstd::prelude::*;

use crate::constants::{MAX_FEE_RATE, MINIMUM_LIQUIDITY};
use crate::error::ErrorCode;
use crate::laws::{
    lemma_bootstrap_below_lock_rejected, lemma_bootstrap_mints_root_less_lock,
    lemma_deposit_keeps_ratio, lemma_swap_grows_product,
};
use crate::math::{
    get_amount_out, get_amount_out_spec, integer_sqrt, lemma_amount_out_bounds,
    lemma_root_of_product, lemma_share_of_reserve, mul_wide, quote, quote_spec, sqrt_floor,
};
use crate::pubkey::Pubkey;

verus! {

/// The bookkeeping of one pool: which two assets it pairs, how much of each
/// it holds, and how many pool shares are outstanding.
#[derive(Clone, Copy, Debug, PartialEq, Eq)]
pub struct Pool {
    /// Identifier of asset A.
    pub token_a_mint: Pubkey,
    /// Identifier of asset B.
    pub token_b_mint: Pubkey,
    /// Units of asset A in the pool's custody.
    pub reserve_a: u64,
    /// Units of asset B in the pool's custody.
    pub reserve_b: u64,
    /// Pool shares outstanding.
    pub lp_supply: u64,
    /// Fee rate in basis points that the pool was created with. Swaps are
    /// priced with the fixed fee of `FEE_NUMERATOR / FEE_DENOMINATOR`.
    pub fee_rate: u16,
    /// The principal that created the pool.
    pub authority: Pubkey,
}

impl Pool {
    /// The invariant of a pool: two different assets, an accepted fee rate,
    /// and either nothing at all or both reserves funded and shares
    /// outstanding.
    pub open spec fn wf(self) -> bool {
        &&& self.token_a_mint@ != self.token_b_mint@
        &&& self.fee_rate <= MAX_FEE_RATE
        &&& (self.reserve_a == 0 <==> self.reserve_b == 0)
        &&& (self.lp_supply == 0 <==> self.reserve_a == 0 && self.reserve_b == 0)
    }

    /// Whether the pool holds nothing and has no shares outstanding.
    pub open spec fn is_empty(self) -> bool {
        self.reserve_a == 0 && self.reserve_b == 0 && self.lp_supply == 0
    }

    /// The pool with its reserves and share supply set to the given values,
    /// each within the range of `u64`, and nothing else changed.
    pub open spec fn with_balances(self, reserve_a: int, reserve_b: int, lp_supply: int) -> Pool
        recommends
            0 <= reserve_a <= u64::MAX,
            0 <= reserve_b <= u64::MAX,
            0 <= lp_supply <= u64::MAX,
    {
        Pool {
            reserve_a: reserve_a as u64,
            reserve_b: reserve_b as u64,
            lp_supply: lp_supply as u64,
            ..self
        }
    }

    /// The amounts of A and B that a deposit takes. An empty pool takes what
    /// the caller offers. A funded pool takes the offer of A with its quote
    /// in B if that quote is within the offer of B, and otherwise the offer
    /// of B with its quote in A.
    pub open spec fn deposit_amounts(
        self,
        amount_a_desired: u64,
        amount_b_desired: u64,
        amount_a_min: u64,
        amount_b_min: u64,
    ) -> Result<(int, int), ErrorCode> {
        if self.reserve_a == 0 && self.reserve_b == 0 {
            Ok((amount_a_desired as int, amount_b_desired as int))
        } else {
            match quote_spec(amount_a_desired, self.reserve_a, self.reserve_b) {
                Err(e) => Err(e),
                Ok(amount_b_optimal) => if amount_b_optimal <= amount_b_desired {
                    if amount_b_optimal >= amount_b_min {
                        Ok((amount_a_desired as int, amount_b_optimal))
                    } else {
                        Err(ErrorCode::InsufficientBAmount)
                    }
                } else {
                    match quote_spec(amount_b_desired, self.reserve_b, self.reserve_a) {
                        Err(e) => Err(e),
                        Ok(amount_a_optimal) => if amount_a_optimal <= amount_a_desired
                            && amount_a_optimal >= amount_a_min {
                            Ok((amount_a_optimal, amount_b_desired as int))
                        } else {
                            Err(ErrorCode::InsufficientAAmount)
                        },
                    }
                },
            }
        }
    }

    /// The shares that a deposit of `amount_a` and `amount_b` mints. With no
    /// shares outstanding it is the square root floor of the product, less
    /// the permanent lock; otherwise the smaller of the two proportional
    /// contributions.
    pub open spec fn deposit_shares(self, amount_a: int, amount_b: int) -> Result<int, ErrorCode> {
        if self.lp_supply == 0 {
            let root = sqrt_floor((amount_a * amount_b) as nat);
            if root > MINIMUM_LIQUIDITY {
                Ok(root - MINIMUM_LIQUIDITY)
            } else {
                Err(ErrorCode::InsufficientLiquidity)
            }
        } else if self.reserve_a == 0 || self.reserve_b == 0 {
            Err(ErrorCode::InsufficientLiquidity)
        } else {
            let by_a = amount_a * self.lp_supply / (self.reserve_a as int);
            let by_b = amount_b * self.lp_supply / (self.reserve_b as int);
            let shares = if by_a <= by_b {
                by_a
            } else {
                by_b
            };
            if shares > 0 {
                Ok(shares)
            } else {
                Err(ErrorCode::InsufficientLiquidity)
            }
        }
    }

    /// What a deposit comes to: the amounts of A and B taken and the shares
    /// minted, or the reason for which it is rejected.
    pub open spec fn add_liquidity_spec(
        self,
        amount_a_desired: u64,
        amount_b_desired: u64,
        amount_a_min: u64,
        amount_b_min: u64,
    ) -> Result<(int, int, int), ErrorCode> {
        match self.deposit_amounts(amount_a_desired, amount_b_desired, amount_a_min, amount_b_min) {
            Err(e) => Err(e),
            Ok((amount_a, amount_b)) => match self.deposit_shares(amount_a, amount_b) {
                Err(e) => Err(e),
                Ok(shares) => if self.reserve_a + amount_a > u64::MAX || self.reserve_b + amount_b
                    > u64::MAX || self.lp_supply + shares > u64::MAX {
                    Err(ErrorCode::ArithmeticOverflow)
                } else {
                    Ok((amount_a, amount_b, shares))
                },
            },
        }
    }

    /// The pool after a deposit: with the amounts taken added to its
    /// reserves and the shares minted added to its supply, or as it was if
    /// the deposit is rejected.
    pub open spec fn after_add_liquidity(
        self,
        amount_a_desired: u64,
        amount_b_desired: u64,
        amount_a_min: u64,
        amount_b_min: u64,
    ) -> Pool {
        match self.add_liquidity_spec(
            amount_a_desired,
            amount_b_desired,
            amount_a_min,
            amount_b_min,
        ) {
            Ok((amount_a, amount_b, shares)) => self.with_balances(
                self.reserve_a + amount_a,
                self.reserve_b + amount_b,
                self.lp_supply + shares,
            ),
            Err(_) => self,
        }
    }

    /// What a withdrawal of `liquidity` shares comes to: the amounts of A
    /// and B paid out, each the withdrawn part of its reserve rounded down,
    /// or the reason for which it is rejected.
    pub open spec fn remove_liquidity_spec(
        self,
        liquidity: u64,
        amount_a_min: u64,
        amount_b_min: u64,
    ) -> Result<(int, int), ErrorCode> {
        if self.lp_supply == 0 {
            Err(ErrorCode::InsufficientLiquidity)
        } else {
            let amount_a = liquidity * self.reserve_a / (self.lp_supply as int);
            let amount_b = liquidity * self.reserve_b / (self.lp_supply as int);
            if amount_a < amount_a_min {
                Err(ErrorCode::InsufficientAAmount)
            } else if amount_b < amount_b_min {
                Err(ErrorCode::InsufficientBAmount)
            } else if liquidity > self.lp_supply || amount_a > self.reserve_a || amount_b
                > self.reserve_b {
                Err(ErrorCode::ArithmeticOverflow)
            } else {
                Ok((amount_a, amount_b))
            }
        }
    }

    /// The pool after a withdrawal: with the amounts paid out taken from
    /// its reserves and the shares burned taken from its supply, or as it
    /// was if the withdrawal is rejected.
    pub open spec fn after_remove_liquidity(
        self,
        liquidity: u64,
        amount_a_min: u64,
        amount_b_min: u64,
    ) -> Pool {
        match self.remove_liquidity_spec(liquidity, amount_a_min, amount_b_min) {
            Ok((amount_a, amount_b)) => self.with_balances(
                self.reserve_a - amount_a,
                self.reserve_b - amount_b,
                self.lp_supply - liquidity,
            ),
            Err(_) => self,
        }
    }

    /// The reserve of the asset that a swap in the given direction sells to
    /// the pool.
    pub open spec fn reserve_in(self, a_to_b: bool) -> u64 {
        if a_to_b {
            self.reserve_a
        } else {
            self.reserve_b
        }
    }

    /// The reserve of the asset that a swap in the given direction buys
    /// from the pool.
    pub open spec fn reserve_out(self, a_to_b: bool) -> u64 {
        if a_to_b {
            self.reserve_b
        } else {
            self.reserve_a
        }
    }

    /// What a swap comes to: the amount paid out, or the reason for which
    /// it is rejected.
    pub open spec fn swap_spec(self, amount_in: u64, minimum_amount_out: u64, a_to_b: bool) -> Result<
        int,
        ErrorCode,
    > {
        match get_amount_out_spec(amount_in, self.reserve_in(a_to_b), self.reserve_out(a_to_b)) {
            Err(e) => Err(e),
            Ok(amount_out) => if amount_out < minimum_amount_out {
                Err(ErrorCode::SlippageExceeded)
            } else if self.reserve_in(a_to_b) + amount_in > u64::MAX {
                Err(ErrorCode::ArithmeticOverflow)
            } else {
                Ok(amount_out)
            },
        }
    }

    /// The pool after a swap: with the input added to the reserve of the
    /// asset sold and the output taken from the reserve of the asset
    /// bought, or as it was if the swap is rejected.
    pub open spec fn after_swap(self, amount_in: u64, minimum_amount_out: u64, a_to_b: bool) -> Pool {
        match self.swap_spec(amount_in, minimum_amount_out, a_to_b) {
            Ok(amount_out) => if a_to_b {
                self.with_balances(
                    self.reserve_a + amount_in,
                    self.reserve_b - amount_out,
                    self.lp_supply as int,
                )
            } else {
                self.with_balances(
                    self.reserve_a - amount_out,
                    self.reserve_b + amount_in,
                    self.lp_supply as int,
                )
            },
            Err(_) => self,
        }
    }
}

/// Creates the record of a pool that pairs `token_a_mint` with
/// `token_b_mint`, empty and with the given fee rate. The two assets have to
/// differ and the fee rate may not exceed `MAX_FEE_RATE`.
pub fn initialize_pool(
    token_a_mint: Pubkey,
    token_b_mint: Pubkey,
    authority: Pubkey,
    fee_rate: u16,
) -> (r: Result<Pool, ErrorCode>)
    ensures
        match r {
            Ok(pool) => {
                &&& token_a_mint@ != token_b_mint@
                &&& fee_rate <= MAX_FEE_RATE
                &&& pool.token_a_mint == token_a_mint
                &&& pool.token_b_mint == token_b_mint
                &&& pool.authority == authority
                &&& pool.fee_rate == fee_rate
                &&& pool.is_empty()
                &&& pool.wf()
            },
            Err(e) => {
                &&& e == ErrorCode::InvalidConfiguration
                &&& (token_a_mint@ == token_b_mint@ || fee_rate > MAX_FEE_RATE)
            },
        },
{
    if token_a_mint == token_b_mint || fee_rate > MAX_FEE_RATE {
        return Err(ErrorCode::InvalidConfiguration);
    }
    Ok(
        Pool {
            token_a_mint,
            token_b_mint,
            reserve_a: 0,
            reserve_b: 0,
            lp_supply: 0,
            fee_rate,
            authority,
        },
    )
}

/// Deposits into the pool. On success returns the amounts of A and B to
/// move into the pool's custody and the shares to mint for the depositor,
/// and books all three. A rejected deposit leaves the pool unchanged.
pub fn add_liquidity(
    pool: &mut Pool,
    amount_a_desired: u64,
    amount_b_desired: u64,
    amount_a_min: u64,
    amount_b_min: u64,
) -> (r: Result<(u64, u64, u64), ErrorCode>)
    ensures
        match r {
            Ok((amount_a, amount_b, liquidity)) => old(pool).add_liquidity_spec(
                amount_a_desired,
                amount_b_desired,
                amount_a_min,
                amount_b_min,
            ) == Ok::<(int, int, int), ErrorCode>(
                (amount_a as int, amount_b as int, liquidity as int),
            ),
            Err(e) => old(pool).add_liquidity_spec(
                amount_a_desired,
                amount_b_desired,
                amount_a_min,
                amount_b_min,
            ) == Err::<(int, int, int), ErrorCode>(e),
        },
        *final(pool) == old(pool).after_add_liquidity(
            amount_a_desired,
            amount_b_desired,
            amount_a_min,
            amount_b_min,
        ),
        old(pool).wf() ==> final(pool).wf(),
        // the first deposit is taken as offered and mints the root less the lock
        old(pool).is_empty() && sqrt_floor((amount_a_desired * amount_b_desired) as nat)
            > MINIMUM_LIQUIDITY ==> {
            &&& r matches Ok((amount_a, amount_b, liquidity))
            &&& amount_a == amount_a_desired
            &&& amount_b == amount_b_desired
            &&& liquidity == sqrt_floor((amount_a_desired * amount_b_desired) as nat)
                - MINIMUM_LIQUIDITY
            &&& final(pool).reserve_a == amount_a_desired
            &&& final(pool).reserve_b == amount_b_desired
            &&& final(pool).lp_supply == sqrt_floor((amount_a_desired * amount_b_desired) as nat)
                - MINIMUM_LIQUIDITY
        },
        // a first deposit that does not clear the lock is rejected
        old(pool).is_empty() && sqrt_floor((amount_a_desired * amount_b_desired) as nat)
            <= MINIMUM_LIQUIDITY ==> {
            &&& r == Err::<(u64, u64, u64), ErrorCode>(ErrorCode::InsufficientLiquidity)
            &&& final(pool).is_empty()
        },
        // a later deposit keeps the ratio of the reserves to within one unit
        r is Ok && old(pool).reserve_a > 0 && old(pool).reserve_b > 0 ==> {
            ||| 0 <= final(pool).reserve_a * old(pool).reserve_b
                - old(pool).reserve_a * final(pool).reserve_b < old(pool).reserve_a
            ||| 0 <= old(pool).reserve_a * final(pool).reserve_b
                - final(pool).reserve_a * old(pool).reserve_b < old(pool).reserve_b
        },
{
    proof {
        let root = sqrt_floor((amount_a_desired * amount_b_desired) as nat);
        if pool.is_empty() && root > MINIMUM_LIQUIDITY {
            lemma_bootstrap_mints_root_less_lock(
                *pool,
                amount_a_desired,
                amount_b_desired,
                amount_a_min,
                amount_b_min,
            );
        }
        if pool.is_empty() && root <= MINIMUM_LIQUIDITY {
            lemma_bootstrap_below_lock_rejected(
                *pool,
                amount_a_desired,
                amount_b_desired,
                amount_a_min,
                amount_b_min,
            );
        }
        if pool.reserve_a > 0 && pool.reserve_b > 0 && pool.add_liquidity_spec(
            amount_a_desired,
            amount_b_desired,
            amount_a_min,
            amount_b_min,
        ) is Ok {
            lemma_deposit_keeps_ratio(
                *pool,
                amount_a_desired,
                amount_b_desired,
                amount_a_min,
                amount_b_min,
            );
        }
    }
    let (amount_a, amount_b) = if pool.reserve_a == 0 && pool.reserve_b == 0 {
        (amount_a_desired, amount_b_desired)
    } else {
        let amount_b_optimal = quote(amount_a_desired, pool.reserve_a, pool.reserve_b)?;
        if amount_b_optimal <= amount_b_desired as u128 {
            if amount_b_optimal < amount_b_min as u128 {
                return Err(ErrorCode::InsufficientBAmount);
            }
            (amount_a_desired, amount_b_optimal as u64)
        } else {
            let amount_a_optimal = quote(amount_b_desired, pool.reserve_b, pool.reserve_a)?;
            if amount_a_optimal > amount_a_desired as u128 {
                return Err(ErrorCode::InsufficientAAmount);
            }
            if amount_a_optimal < amount_a_min as u128 {
                return Err(ErrorCode::InsufficientAAmount);
            }
            (amount_a_optimal as u64, amount_b_desired)
        }
    };

    let lp_supply = pool.lp_supply;
    let liquidity: u128 = if lp_supply == 0 {
        let sqrt_product = integer_sqrt(mul_wide(amount_a, amount_b));
        if sqrt_product <= MINIMUM_LIQUIDITY as u128 {
            return Err(ErrorCode::InsufficientLiquidity);
        }
        proof {
            lemma_root_of_product(amount_a, amount_b, sqrt_product as nat);
        }
        sqrt_product - MINIMUM_LIQUIDITY as u128
    } else {
        if pool.reserve_a == 0 || pool.reserve_b == 0 {
            return Err(ErrorCode::InsufficientLiquidity);
        }
        let by_a = mul_wide(amount_a, lp_supply) / pool.reserve_a as u128;
        let by_b = mul_wide(amount_b, lp_supply) / pool.reserve_b as u128;
        if by_a <= by_b {
            by_a
        } else {
            by_b
        }
    };
    if liquidity == 0 {
        return Err(ErrorCode::InsufficientLiquidity);
    }
    if amount_a > u64::MAX - pool.reserve_a || amount_b > u64::MAX - pool.reserve_b || liquidity > (
    u64::MAX - lp_supply) as u128 {
        return Err(ErrorCode::ArithmeticOverflow);
    }
    pool.reserve_a = pool.reserve_a + amount_a;
    pool.reserve_b = pool.reserve_b + amount_b;
    pool.lp_supply = lp_supply + liquidity as u64;
    Ok((amount_a, amount_b, liquidity as u64))
}

/// Withdraws from the pool. On success returns the amounts of A and B to
/// pay out of the pool's custody for the `liquidity` shares that are to be
/// burned, and books all three. A rejected withdrawal leaves the pool
/// unchanged.
pub fn remove_liquidity(pool: &mut Pool, liquidity: u64, amount_a_min: u64, amount_b_min: u64) -> (r:
    Result<(u64, u64), ErrorCode>)
    ensures
        match r {
            Ok((amount_a, amount_b)) => old(pool).remove_liquidity_spec(
                liquidity,
                amount_a_min,
                amount_b_min,
            ) == Ok::<(int, int), ErrorCode>((amount_a as int, amount_b as int)),
            Err(e) => old(pool).remove_liquidity_spec(liquidity, amount_a_min, amount_b_min)
                == Err::<(int, int), ErrorCode>(e),
        },
        *final(pool) == old(pool).after_remove_liquidity(liquidity, amount_a_min, amount_b_min),
        old(pool).wf() ==> final(pool).wf(),
{
    let lp_supply = pool.lp_supply;
    if lp_supply == 0 {
        return Err(ErrorCode::InsufficientLiquidity);
    }
    let amount_a = mul_wide(liquidity, pool.reserve_a) / lp_supply as u128;
    let amount_b = mul_wide(liquidity, pool.reserve_b) / lp_supply as u128;
    if amount_a < amount_a_min as u128 {
        return Err(ErrorCode::InsufficientAAmount);
    }
    if amount_b < amount_b_min as u128 {
        return Err(ErrorCode::InsufficientBAmount);
    }
    if liquidity > lp_supply || amount_a > pool.reserve_a as u128 || amount_b
        > pool.reserve_b as u128 {
        return Err(ErrorCode::ArithmeticOverflow);
    }
    proof {
        lemma_share_of_reserve(liquidity as int, pool.reserve_a as int, lp_supply as int);
        lemma_share_of_reserve(liquidity as int, pool.reserve_b as int, lp_supply as int);
    }
    pool.reserve_a = pool.reserve_a - amount_a as u64;
    pool.reserve_b = pool.reserve_b - amount_b as u64;
    pool.lp_supply = lp_supply - liquidity;
    Ok((amount_a as u64, amount_b as u64))
}

/// Swaps `amount_in` of one asset for the other: A for B if `a_to_b`, B for
/// A otherwise. On success returns the amount to pay out of the pool's
/// custody, and books both sides. A rejected swap leaves the pool
/// unchanged.
pub fn swap(pool: &mut Pool, amount_in: u64, minimum_amount_out: u64, a_to_b: bool) -> (r: Result<
    u64,
    ErrorCode,
>)
    ensures
        match r {
            Ok(amount_out) => old(pool).swap_spec(amount_in, minimum_amount_out, a_to_b) == Ok::<
                int,
                ErrorCode,
            >(amount_out as int),
            Err(e) => old(pool).swap_spec(amount_in, minimum_amount_out, a_to_b) == Err::<
                int,
                ErrorCode,
            >(e),
        },
        *final(pool) == old(pool).after_swap(amount_in, minimum_amount_out, a_to_b),
        old(pool).wf() ==> final(pool).wf(),
        // the fee stays in the pool: an accepted swap makes the product larger
        r is Ok ==> final(pool).reserve_a * final(pool).reserve_b
            > old(pool).reserve_a * old(pool).reserve_b,
{
    proof {
        if pool.swap_spec(amount_in, minimum_amount_out, a_to_b) is Ok {
            lemma_swap_grows_product(*pool, amount_in, minimum_amount_out, a_to_b);
        }
    }
    let (reserve_in, reserve_out) = if a_to_b {
        (pool.reserve_a, pool.reserve_b)
    } else {
        (pool.reserve_b, pool.reserve_a)
    };
    let amount_out = get_amount_out(amount_in, reserve_in, reserve_out)?;
    if amount_out < minimum_amount_out {
        return Err(ErrorCode::SlippageExceeded);
    }
    if amount_in > u64::MAX - reserve_in {
        return Err(ErrorCode::ArithmeticOverflow);
    }
    proof {
        lemma_amount_out_bounds(amount_in as int, reserve_in as int, reserve_out as int);
    }
    if a_to_b {
        pool.reserve_a = reserve_in + amount_in;
        pool.reserve_b = reserve_out - amount_out;
    } else {
        pool.reserve_b = reserve_in + amount_in;
        pool.reserve_a = reserve_out - amount_out;
    }
    Ok(amount_out)
}

} // verus!
