//! Integer arithmetic of the pricing rules: the floor of a square root, the
//! proportional quote and the fee-adjusted swap output. Every product is
//! taken in 128 bits before it is divided, and every division rounds down.

use vstd::arithmetic::div_mod::{lemma_fundamental_div_mod, lemma_hoist_over_denominator};
use vstd::prelude::*;

use crate::constants::{FEE_DENOMINATOR, FEE_NUMERATOR};
use crate::error::ErrorCode;

verus! {

/// Whether `root` is the largest integer whose square does not exceed `n`.
pub open spec fn is_sqrt_floor(n: nat, root: nat) -> bool {
    root * root <= n < (root + 1) * (root + 1)
}

/// The floor of the square root of `n`.
pub open spec fn sqrt_floor(n: nat) -> nat {
    choose|root: nat| is_sqrt_floor(n, root)
}

/// Every natural number has a square root floor.
pub proof fn lemma_sqrt_floor_exists(n: nat)
    ensures
        is_sqrt_floor(n, sqrt_floor(n)),
    decreases n,
{
    if n == 0 {
        assert(is_sqrt_floor(0, 0)) by (nonlinear_arith);
    } else {
        lemma_sqrt_floor_exists((n - 1) as nat);
        let below = sqrt_floor((n - 1) as nat);
        if (below + 1) * (below + 1) <= n {
            assert(n < (below + 1 + 1) * (below + 1 + 1)) by (nonlinear_arith)
                requires
                    n - 1 < (below + 1) * (below + 1),
            ;
            assert(is_sqrt_floor(n, below + 1));
        } else {
            assert(is_sqrt_floor(n, below));
        }
    }
}

/// No natural number has two square root floors.
pub proof fn lemma_sqrt_floor_unique(n: nat, root: nat)
    requires
        is_sqrt_floor(n, root),
    ensures
        sqrt_floor(n) == root,
{
    let other = sqrt_floor(n);
    assert(is_sqrt_floor(n, other));
    assert(other == root) by (nonlinear_arith)
        requires
            root * root <= n < (root + 1) * (root + 1),
            other * other <= n < (other + 1) * (other + 1),
    {
        if other < root {
            assert((other + 1) * (other + 1) <= root * root);
        } else if root < other {
            assert((root + 1) * (root + 1) <= other * other);
        }
    }
}

/// One step of Newton's iteration from any positive `x` lands at or above
/// the square root floor of `n`.
proof fn lemma_newton_step_bounds_root(n: int, x: int)
    requires
        0 <= n,
        1 <= x,
    ensures
        n < ((x + n / x) / 2 + 1) * ((x + n / x) / 2 + 1),
{
    let q = n / x;
    let y = (x + q) / 2;
    assert(n < (q + 1) * x && 0 <= q) by (nonlinear_arith)
        requires
            q == n / x,
            0 <= n,
            1 <= x,
    ;
    assert(2 * (y + 1) >= x + q + 1);
    assert(n < (y + 1) * (y + 1)) by (nonlinear_arith)
        requires
            n < (q + 1) * x,
            2 * (y + 1) >= x + q + 1,
            0 <= q,
            1 <= x,
    {
        assert((x + q + 1) * (x + q + 1) == (x - q - 1) * (x - q - 1) + 4 * ((q + 1) * x));
        assert((x - q - 1) * (x - q - 1) >= 0);
        assert((2 * (y + 1)) * (2 * (y + 1)) >= (x + q + 1) * (x + q + 1));
        assert((2 * (y + 1)) * (2 * (y + 1)) == 4 * ((y + 1) * (y + 1)));
    }
}

/// At or above the square root floor of a 128-bit `n`, and at or below
/// 2^127, the sum that Newton's iteration halves fits in 128 bits.
proof fn lemma_newton_sum_fits(n: int, x: int)
    requires
        1 <= n <= u128::MAX,
        1 <= x <= 0x8000_0000_0000_0000_0000_0000_0000_0000,
        n < (x + 1) * (x + 1),
    ensures
        2 <= x + n / x <= u128::MAX,
{
    let q = n / x;
    assert(q * x <= n && 0 <= q) by (nonlinear_arith)
        requires
            q == n / x,
            1 <= n,
            1 <= x,
    ;
    assert(q <= x + 2) by (nonlinear_arith)
        requires
            q * x <= n,
            n < (x + 1) * (x + 1),
            1 <= x,
    {
        if q >= x + 3 {
            assert(q * x >= (x + 3) * x);
            assert((x + 3) * x >= (x + 1) * (x + 1));
        }
    }
    if x >= 0x7fff_ffff_ffff_ffff_ffff_ffff_ffff_ffff {
        assert(q <= 2) by (nonlinear_arith)
            requires
                q * x <= n,
                n <= u128::MAX,
                x >= 0x7fff_ffff_ffff_ffff_ffff_ffff_ffff_ffff,
        {
            if q >= 3 {
                assert(q * x >= 3 * x);
            }
        }
    }
    if x == 1 {
        assert(n / 1 == n);
    }
}

/// The floor of the square root of `value`, by Newton's iteration from
/// `value` itself downwards until the iterate stops falling.
pub fn integer_sqrt(value: u128) -> (root: u128)
    ensures
        root == sqrt_floor(value as nat),
        root * root <= value < (root + 1) * (root + 1),
{
    if value == 0 {
        proof {
            lemma_sqrt_floor_unique(0, 0);
        }
        return 0;
    }
    let mut x: u128 = value;
    // (x + 1) / 2, written so that the largest value does not carry
    let mut y: u128 = x / 2 + x % 2;
    proof {
        assert(value / value == 1) by (nonlinear_arith)
            requires
                value >= 1,
        ;
        assert(value < (value + 1) * (value + 1)) by (nonlinear_arith)
            requires
                value >= 1,
        ;
    }
    while y < x
        invariant
            1 <= x <= value,
            y == (x as int + value as int / x as int) / 2,
            y <= 0x8000_0000_0000_0000_0000_0000_0000_0000,
            value < (x + 1) * (x + 1),
        decreases x,
    {
        proof {
            lemma_newton_step_bounds_root(value as int, x as int);
            if y == 0 {
                assert(x == 1);
                assert(value as int / 1 == value as int);
            }
            lemma_newton_sum_fits(value as int, y as int);
        }
        x = y;
        y = (x + value / x) / 2;
    }
    proof {
        let q = value as int / x as int;
        assert(q >= x);
        assert(x * x <= value) by (nonlinear_arith)
            requires
                q == value as int / x as int,
                q >= x,
                x >= 1,
        {
            assert(q * x <= value);
            assert(x * x <= q * x);
        }
        lemma_sqrt_floor_unique(value as nat, x as nat);
    }
    x
}

/// A positive square root floor has a positive argument, and the root of a
/// product of two 64-bit quantities fits in 64 bits.
pub proof fn lemma_root_of_product(amount_a: u64, amount_b: u64, root: nat)
    requires
        root * root <= amount_a * amount_b,
    ensures
        root <= u64::MAX,
        root > 0 ==> amount_a > 0 && amount_b > 0,
{
    assert(root <= u64::MAX) by (nonlinear_arith)
        requires
            root * root <= amount_a * amount_b,
            amount_a <= u64::MAX,
            amount_b <= u64::MAX,
    {
        if root > u64::MAX {
            assert(root * root >= (u64::MAX + 1) * (u64::MAX + 1));
            assert(amount_a * amount_b <= u64::MAX * u64::MAX);
        }
    }
    assert(root > 0 ==> amount_a > 0 && amount_b > 0) by (nonlinear_arith)
        requires
            root * root <= amount_a * amount_b,
    ;
}

/// The product of two 64-bit quantities, which always fits in 128 bits.
pub(crate) fn mul_wide(a: u64, b: u64) -> (product: u128)
    ensures
        product == a * b,
{
    proof {
        assert(a * b <= u64::MAX * u64::MAX) by (nonlinear_arith)
            requires
                a <= u64::MAX,
                b <= u64::MAX,
        ;
    }
    a as u128 * b as u128
}

/// What `amount` of one asset is worth in the other at the pool's current
/// ratio: `amount * reserve_to / reserve_from`, rounded down.
pub open spec fn quote_spec(amount: u64, reserve_from: u64, reserve_to: u64) -> Result<
    int,
    ErrorCode,
> {
    if amount == 0 {
        Err(ErrorCode::InsufficientAmount)
    } else if reserve_from == 0 || reserve_to == 0 {
        Err(ErrorCode::InsufficientLiquidity)
    } else {
        Ok(amount * reserve_to / (reserve_from as int))
    }
}

/// Quotes `amount` of one asset in the other, in 128 bits: the quote of a
/// large amount against a small reserve can exceed 64 bits.
pub fn quote(amount: u64, reserve_from: u64, reserve_to: u64) -> (r: Result<u128, ErrorCode>)
    ensures
        match r {
            Ok(value) => quote_spec(amount, reserve_from, reserve_to) == Ok::<int, ErrorCode>(
                value as int,
            ),
            Err(e) => quote_spec(amount, reserve_from, reserve_to) == Err::<int, ErrorCode>(e),
        },
{
    if amount == 0 {
        return Err(ErrorCode::InsufficientAmount);
    }
    if reserve_from == 0 || reserve_to == 0 {
        return Err(ErrorCode::InsufficientLiquidity);
    }
    Ok(mul_wide(amount, reserve_to) / reserve_from as u128)
}

/// A quotient rounded down lies within one divisor below its dividend:
/// `(x / d) * d <= x < (x / d + 1) * d`.
pub proof fn lemma_floor_div_bounds(x: int, d: int)
    requires
        0 <= x,
        0 < d,
    ensures
        0 <= x / d,
        (x / d) * d <= x < (x / d + 1) * d,
{
    lemma_fundamental_div_mod(x, d);
    assert(0 <= x / d && (x / d) * d <= x < (x / d + 1) * d) by (nonlinear_arith)
        requires
            x == d * (x / d) + x % d,
            0 <= x % d < d,
            0 <= x,
            0 < d,
    ;
}

/// Withdrawing part of the shares takes less than the whole of a funded
/// reserve, and withdrawing all of them takes all of it.
pub proof fn lemma_share_of_reserve(liquidity: int, reserve: int, lp_supply: int)
    requires
        0 <= liquidity <= lp_supply,
        0 < lp_supply,
        0 <= reserve,
    ensures
        0 <= liquidity * reserve / lp_supply <= reserve,
        liquidity == lp_supply ==> liquidity * reserve / lp_supply == reserve,
        liquidity < lp_supply && reserve > 0 ==> liquidity * reserve / lp_supply < reserve,
{
    let product = liquidity * reserve;
    let part = product / lp_supply;
    assert(0 <= product) by (nonlinear_arith)
        requires
            product == liquidity * reserve,
            0 <= liquidity,
            0 <= reserve,
    ;
    lemma_floor_div_bounds(product, lp_supply);
    assert(part <= reserve) by (nonlinear_arith)
        requires
            part * lp_supply <= product,
            product == liquidity * reserve,
            0 <= liquidity <= lp_supply,
            0 < lp_supply,
            0 <= reserve,
    {
        if part > reserve {
            assert(part * lp_supply >= (reserve + 1) * lp_supply);
            assert(liquidity * reserve <= lp_supply * reserve);
        }
    }
    if liquidity == lp_supply {
        assert(part >= reserve) by (nonlinear_arith)
            requires
                product < (part + 1) * lp_supply,
                product == lp_supply * reserve,
                0 < lp_supply,
        {
            if part < reserve {
                assert((part + 1) * lp_supply <= reserve * lp_supply);
            }
        }
    }
    if liquidity < lp_supply && reserve > 0 {
        assert(part < reserve) by (nonlinear_arith)
            requires
                part * lp_supply <= product,
                product == liquidity * reserve,
                0 <= liquidity < lp_supply,
                0 < reserve,
        {
            if part >= reserve {
                assert(part * lp_supply >= reserve * lp_supply);
                assert(liquidity * reserve < lp_supply * reserve);
            }
        }
    }
}

/// The fee-adjusted constant-product output for `amount_in`: the fee stays
/// in the input, and what is left of it is priced against the reserves
/// after it has been added to them.
pub open spec fn amount_out_value(amount_in: int, reserve_in: int, reserve_out: int) -> int {
    let amount_in_with_fee = amount_in * FEE_NUMERATOR;
    let numerator = amount_in_with_fee * reserve_out;
    let denominator = reserve_in * FEE_DENOMINATOR + amount_in_with_fee;
    numerator / denominator
}

/// What a swap of `amount_in` pays out against the given reserves.
pub open spec fn get_amount_out_spec(amount_in: u64, reserve_in: u64, reserve_out: u64) -> Result<
    int,
    ErrorCode,
> {
    if amount_in == 0 {
        Err(ErrorCode::InsufficientAmount)
    } else if reserve_in == 0 || reserve_out == 0 {
        Err(ErrorCode::InsufficientLiquidity)
    } else {
        Ok(amount_out_value(amount_in as int, reserve_in as int, reserve_out as int))
    }
}

/// The output of a swap is less than the output reserve, and less than
/// what the same input would fetch without a fee, taken as an exact ratio:
/// `amount_in * reserve_out / (reserve_in + amount_in)`.
pub proof fn lemma_amount_out_bounds(amount_in: int, reserve_in: int, reserve_out: int)
    requires
        amount_in > 0,
        reserve_in > 0,
        reserve_out > 0,
    ensures
        0 <= amount_out_value(amount_in, reserve_in, reserve_out) < reserve_out,
        amount_out_value(amount_in, reserve_in, reserve_out) * (reserve_in + amount_in) < amount_in
            * reserve_out,
{
    let out = amount_out_value(amount_in, reserve_in, reserve_out);
    let fee_in = amount_in * FEE_NUMERATOR;
    let numerator = fee_in * reserve_out;
    let denominator = reserve_in * FEE_DENOMINATOR + fee_in;
    assert(0 < fee_in < denominator);
    assert(0 <= numerator) by (nonlinear_arith)
        requires
            numerator == fee_in * reserve_out,
            fee_in > 0,
            reserve_out > 0,
    ;
    lemma_floor_div_bounds(numerator, denominator);
    assert(out < reserve_out) by (nonlinear_arith)
        requires
            out * denominator <= numerator,
            numerator == fee_in * reserve_out,
            0 < fee_in < denominator,
            reserve_out > 0,
            0 <= out,
    {
        if out >= reserve_out {
            assert(out * denominator >= reserve_out * denominator);
            assert(reserve_out * denominator > reserve_out * fee_in);
        }
    }
    assert(out * (reserve_in + amount_in) < amount_in * reserve_out) by (nonlinear_arith)
        requires
            out * denominator <= numerator,
            numerator == fee_in * reserve_out,
            denominator == reserve_in * 1000 + fee_in,
            fee_in == amount_in * 997,
            amount_in > 0,
            0 <= out < reserve_out,
    {
        assert(out * denominator == 1000 * (out * reserve_in) + 997 * (out * amount_in));
        assert(numerator == 997 * (amount_in * reserve_out));
        assert(out * amount_in < reserve_out * amount_in);
        assert(out * (reserve_in + amount_in) == out * reserve_in + out * amount_in);
    }
}

/// `factor * multiplier / divisor`, rounded down. The product may need more
/// than 128 bits, so the quotient is taken over the two 32-bit halves of
/// `multiplier` in turn.
fn mul_div_floor(factor: u128, multiplier: u64, divisor: u128) -> (quotient: u128)
    requires
        0 < divisor < 0x8000_0000_0000_0000_0000_0000,
        factor <= divisor,
    ensures
        quotient == factor * multiplier / (divisor as int),
{
    let high: u128 = (multiplier / 0x1_0000_0000) as u128;
    let low: u128 = (multiplier % 0x1_0000_0000) as u128;
    proof {
        assert(factor * high <= 0x8000_0000_0000_0000_0000_0000 * 0x1_0000_0000) by (nonlinear_arith)
            requires
                factor < 0x8000_0000_0000_0000_0000_0000,
                high < 0x1_0000_0000,
        ;
        assert(factor * low <= 0x8000_0000_0000_0000_0000_0000 * 0x1_0000_0000) by (nonlinear_arith)
            requires
                factor < 0x8000_0000_0000_0000_0000_0000,
                low < 0x1_0000_0000,
        ;
    }
    let upper: u128 = factor * high;
    let upper_quotient: u128 = upper / divisor;
    let upper_rest: u128 = upper % divisor;
    proof {
        lemma_fundamental_div_mod(upper as int, divisor as int);
        assert(upper_quotient <= high) by (nonlinear_arith)
            requires
                upper == divisor * upper_quotient + upper_rest,
                upper == factor * high,
                factor <= divisor,
                0 < divisor,
        {
            if upper_quotient > high {
                assert(divisor * upper_quotient >= divisor * (high + 1));
                assert(divisor * (high + 1) == divisor * high + divisor);
                assert(divisor * high >= factor * high);
            }
        }
    }
    let carried: u128 = upper_rest * 0x1_0000_0000 + factor * low;
    let lower_quotient: u128 = carried / divisor;
    proof {
        assert(lower_quotient < 0x2_0000_0000) by (nonlinear_arith)
            requires
                lower_quotient == carried / divisor,
                carried == upper_rest * 0x1_0000_0000 + factor * low,
                upper_rest < divisor,
                factor <= divisor,
                low < 0x1_0000_0000,
                0 < divisor,
        {
            assert(factor * low <= divisor * low);
            assert(divisor * low < divisor * 0x1_0000_0000);
            assert(carried < divisor * 0x2_0000_0000);
        }
        let whole = factor * multiplier;
        assert(whole == (upper_quotient * 0x1_0000_0000) * divisor + carried) by (nonlinear_arith)
            requires
                whole == factor * multiplier,
                multiplier == high * 0x1_0000_0000 + low,
                upper == factor * high,
                upper == divisor * upper_quotient + upper_rest,
                carried == upper_rest * 0x1_0000_0000 + factor * low,
        ;
        lemma_hoist_over_denominator(
            carried as int,
            upper_quotient * 0x1_0000_0000,
            divisor as nat,
        );
    }
    upper_quotient * 0x1_0000_0000 + lower_quotient
}

/// The amount that a swap of `amount_in` pays out, by the constant-product
/// rule with the fee taken from the input.
pub fn get_amount_out(amount_in: u64, reserve_in: u64, reserve_out: u64) -> (r: Result<
    u64,
    ErrorCode,
>)
    ensures
        match r {
            Ok(amount_out) => get_amount_out_spec(amount_in, reserve_in, reserve_out) == Ok::<
                int,
                ErrorCode,
            >(amount_out as int),
            Err(e) => get_amount_out_spec(amount_in, reserve_in, reserve_out) == Err::<
                int,
                ErrorCode,
            >(e),
        },
        // less than the output reserve, and less than the same input would
        // fetch without a fee
        r matches Ok(amount_out) ==> amount_out < reserve_out && amount_out * (reserve_in
            + amount_in) < amount_in * reserve_out,
{
    if amount_in == 0 {
        return Err(ErrorCode::InsufficientAmount);
    }
    if reserve_in == 0 || reserve_out == 0 {
        return Err(ErrorCode::InsufficientLiquidity);
    }
    proof {
        assert(amount_in * FEE_NUMERATOR == 997 * amount_in && reserve_in * FEE_DENOMINATOR == 1000
            * reserve_in) by (nonlinear_arith)
            requires
                FEE_NUMERATOR == 997,
                FEE_DENOMINATOR == 1000,
        ;
    }
    let amount_in_with_fee: u128 = amount_in as u128 * FEE_NUMERATOR as u128;
    let denominator: u128 = reserve_in as u128 * FEE_DENOMINATOR as u128 + amount_in_with_fee;
    let amount_out = mul_div_floor(amount_in_with_fee, reserve_out, denominator);
    proof {
        lemma_amount_out_bounds(amount_in as int, reserve_in as int, reserve_out as int);
    }
    Ok(amount_out as u64)
}

} // verus!
