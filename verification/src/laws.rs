//! What holds of the pool's operations on every input: how the first
//! deposit is priced, that later deposits keep the ratio of the reserves,
//! that a deposit can be withdrawn again, and that swaps never pay more
//! than the constant-product rule allows.

use vstd::prelude::*;

use crate::constants::MINIMUM_LIQUIDITY;
use crate::error::ErrorCode;
use crate::math::{
    amount_out_value, get_amount_out_spec, lemma_amount_out_bounds, lemma_floor_div_bounds,
    lemma_root_of_product, lemma_share_of_reserve, lemma_sqrt_floor_exists, quote_spec,
    sqrt_floor,
};
use crate::pool::Pool;

verus! {

/// The first deposit into an empty pool whose product has a square root
/// floor above the permanent lock is taken as offered and mints that root
/// less the lock: afterwards the reserves are the two amounts and the share
/// supply is the root less the lock.
pub proof fn lemma_bootstrap_mints_root_less_lock(
    pool: Pool,
    amount_a: u64,
    amount_b: u64,
    amount_a_min: u64,
    amount_b_min: u64,
)
    requires
        pool.is_empty(),
        sqrt_floor((amount_a * amount_b) as nat) > MINIMUM_LIQUIDITY,
    ensures
        pool.add_liquidity_spec(amount_a, amount_b, amount_a_min, amount_b_min) == Ok::<
            (int, int, int),
            ErrorCode,
        >(
            (
                amount_a as int,
                amount_b as int,
                sqrt_floor((amount_a * amount_b) as nat) - MINIMUM_LIQUIDITY,
            ),
        ),
        pool.after_add_liquidity(amount_a, amount_b, amount_a_min, amount_b_min).reserve_a
            == amount_a,
        pool.after_add_liquidity(amount_a, amount_b, amount_a_min, amount_b_min).reserve_b
            == amount_b,
        pool.after_add_liquidity(amount_a, amount_b, amount_a_min, amount_b_min).lp_supply
            == sqrt_floor((amount_a * amount_b) as nat) - MINIMUM_LIQUIDITY,
{
    let root = sqrt_floor((amount_a * amount_b) as nat);
    assert(0 <= amount_a * amount_b) by (nonlinear_arith);
    lemma_sqrt_floor_exists((amount_a * amount_b) as nat);
    lemma_root_of_product(amount_a, amount_b, root);
}

/// The first deposit into an empty pool whose product has a square root
/// floor at or below the permanent lock is rejected for want of liquidity,
/// and the pool stays empty.
pub proof fn lemma_bootstrap_below_lock_rejected(
    pool: Pool,
    amount_a: u64,
    amount_b: u64,
    amount_a_min: u64,
    amount_b_min: u64,
)
    requires
        pool.is_empty(),
        sqrt_floor((amount_a * amount_b) as nat) <= MINIMUM_LIQUIDITY,
    ensures
        pool.add_liquidity_spec(amount_a, amount_b, amount_a_min, amount_b_min) == Err::<
            (int, int, int),
            ErrorCode,
        >(ErrorCode::InsufficientLiquidity),
        pool.after_add_liquidity(amount_a, amount_b, amount_a_min, amount_b_min) == pool,
        pool.after_add_liquidity(amount_a, amount_b, amount_a_min, amount_b_min).is_empty(),
{
}

/// When the quote of the offered A exceeds the offered B, the quote of the
/// offered B is less than the offered A: a deposit into a funded pool is
/// never rejected for a counter-quote above the offer.
pub proof fn lemma_counter_quote_within_offer(
    pool: Pool,
    amount_a_desired: u64,
    amount_b_desired: u64,
)
    requires
        pool.reserve_a > 0,
        pool.reserve_b > 0,
        quote_spec(amount_a_desired, pool.reserve_a, pool.reserve_b) matches Ok(amount_b_optimal)
            && amount_b_optimal > amount_b_desired,
    ensures
        amount_b_desired * pool.reserve_a / (pool.reserve_b as int) < amount_a_desired,
{
    let reserve_a = pool.reserve_a as int;
    let reserve_b = pool.reserve_b as int;
    let offered_a = amount_a_desired as int;
    let offered_b = amount_b_desired as int;
    let forth = offered_a * reserve_b;
    let back = offered_b * reserve_a;
    assert(0 <= forth && 0 <= back) by (nonlinear_arith)
        requires
            forth == offered_a * reserve_b,
            back == offered_b * reserve_a,
            0 <= offered_a,
            0 <= offered_b,
            0 < reserve_a,
            0 < reserve_b,
    ;
    lemma_floor_div_bounds(forth, reserve_a);
    lemma_floor_div_bounds(back, reserve_b);
    let quoted_b = forth / reserve_a;
    let quoted_a = back / reserve_b;
    assert(quoted_a < offered_a) by (nonlinear_arith)
        requires
            quoted_b * reserve_a <= forth,
            quoted_a * reserve_b <= back,
            forth == offered_a * reserve_b,
            back == offered_b * reserve_a,
            quoted_b >= offered_b + 1,
            0 <= offered_a,
            0 <= offered_b,
            0 < reserve_a,
            0 < reserve_b,
    {
        assert(quoted_b * reserve_a >= (offered_b + 1) * reserve_a);
        assert((offered_b + 1) * reserve_a == back + reserve_a);
        assert(back < forth);
        if quoted_a >= offered_a {
            assert(quoted_a * reserve_b >= offered_a * reserve_b);
        }
    }
}

/// A deposit into a funded pool keeps the ratio of the reserves to within
/// one unit of rounding: the amounts taken are in the ratio of the reserves
/// except that the quoted side is rounded down, so one unit more of it
/// would tip the ratio the other way.
pub proof fn lemma_deposit_keeps_ratio(
    pool: Pool,
    amount_a_desired: u64,
    amount_b_desired: u64,
    amount_a_min: u64,
    amount_b_min: u64,
)
    requires
        pool.reserve_a > 0,
        pool.reserve_b > 0,
        pool.add_liquidity_spec(
            amount_a_desired,
            amount_b_desired,
            amount_a_min,
            amount_b_min,
        ) is Ok,
    ensures
        ({
            let after = pool.after_add_liquidity(
                amount_a_desired,
                amount_b_desired,
                amount_a_min,
                amount_b_min,
            );
            ||| 0 <= after.reserve_a * pool.reserve_b - pool.reserve_a * after.reserve_b
                < pool.reserve_a
            ||| 0 <= pool.reserve_a * after.reserve_b - after.reserve_a * pool.reserve_b
                < pool.reserve_b
        }),
{
    let after = pool.after_add_liquidity(
        amount_a_desired,
        amount_b_desired,
        amount_a_min,
        amount_b_min,
    );
    let reserve_a = pool.reserve_a as int;
    let reserve_b = pool.reserve_b as int;
    let amount_a = after.reserve_a - reserve_a;
    let amount_b = after.reserve_b - reserve_b;
    let forth = amount_a_desired * reserve_b;
    let back = amount_b_desired * reserve_a;
    assert(0 <= forth && 0 <= back) by (nonlinear_arith)
        requires
            forth == amount_a_desired * reserve_b,
            back == amount_b_desired * reserve_a,
            0 < reserve_a,
            0 < reserve_b,
    ;
    lemma_floor_div_bounds(forth, reserve_a);
    lemma_floor_div_bounds(back, reserve_b);
    if forth / reserve_a <= amount_b_desired {
        assert(amount_a == amount_a_desired && amount_b == forth / reserve_a);
        assert(0 <= (reserve_a + amount_a) * reserve_b - reserve_a * (reserve_b + amount_b)
            < reserve_a) by (nonlinear_arith)
            requires
                amount_b * reserve_a <= forth < (amount_b + 1) * reserve_a,
                forth == amount_a * reserve_b,
        ;
    } else {
        assert(amount_b == amount_b_desired && amount_a == back / reserve_b);
        assert(0 <= reserve_a * (reserve_b + amount_b) - (reserve_a + amount_a) * reserve_b
            < reserve_b) by (nonlinear_arith)
            requires
                amount_a * reserve_b <= back < (amount_a + 1) * reserve_b,
                back == amount_b * reserve_a,
        ;
    }
}

/// Depositing into an empty pool and withdrawing all the shares minted at
/// once pays out no more than was deposited, in fact exactly the deposit,
/// and leaves the pool empty again with no shares outstanding. The shares
/// of the permanent lock are never minted, so they are in nobody's hands
/// and not part of the supply. The withdrawal is rejected only where the
/// caller asks for more than was deposited.
pub proof fn lemma_deposit_then_withdraw_all(
    pool: Pool,
    amount_a: u64,
    amount_b: u64,
    deposit_a_min: u64,
    deposit_b_min: u64,
    withdraw_a_min: u64,
    withdraw_b_min: u64,
)
    requires
        pool.is_empty(),
        pool.add_liquidity_spec(amount_a, amount_b, deposit_a_min, deposit_b_min) is Ok,
    ensures
        ({
            let funded = pool.after_add_liquidity(amount_a, amount_b, deposit_a_min, deposit_b_min);
            let minted = funded.lp_supply;
            let paid = funded.remove_liquidity_spec(minted, withdraw_a_min, withdraw_b_min);
            let drained = funded.after_remove_liquidity(minted, withdraw_a_min, withdraw_b_min);
            &&& paid matches Ok((paid_a, paid_b)) ==> paid_a <= amount_a && paid_b <= amount_b
            &&& paid == if withdraw_a_min > amount_a {
                Err::<(int, int), ErrorCode>(ErrorCode::InsufficientAAmount)
            } else if withdraw_b_min > amount_b {
                Err::<(int, int), ErrorCode>(ErrorCode::InsufficientBAmount)
            } else {
                Ok::<(int, int), ErrorCode>((amount_a as int, amount_b as int))
            }
            &&& paid is Ok ==> drained.is_empty()
            &&& paid is Err ==> drained == funded
        }),
{
    let funded = pool.after_add_liquidity(amount_a, amount_b, deposit_a_min, deposit_b_min);
    let minted = funded.lp_supply;
    assert(0 <= amount_a * amount_b) by (nonlinear_arith);
    lemma_sqrt_floor_exists((amount_a * amount_b) as nat);
    lemma_root_of_product(amount_a, amount_b, sqrt_floor((amount_a * amount_b) as nat));
    assert(minted > 0);
    assert(funded.reserve_a == amount_a && funded.reserve_b == amount_b);
    lemma_share_of_reserve(minted as int, amount_a as int, minted as int);
    lemma_share_of_reserve(minted as int, amount_b as int, minted as int);
}

/// For fixed reserves the output of a swap never falls when the input
/// grows.
pub proof fn lemma_swap_output_monotonic(
    smaller_in: u64,
    larger_in: u64,
    reserve_in: u64,
    reserve_out: u64,
)
    requires
        0 < smaller_in <= larger_in,
        reserve_in > 0,
        reserve_out > 0,
    ensures
        get_amount_out_spec(smaller_in, reserve_in, reserve_out) matches Ok(smaller_out)
            && get_amount_out_spec(larger_in, reserve_in, reserve_out) matches Ok(larger_out)
            && smaller_out <= larger_out,
{
    let low = smaller_in * 997;
    let high = larger_in * 997;
    let base = reserve_in * 1000;
    let low_out = amount_out_value(smaller_in as int, reserve_in as int, reserve_out as int);
    let high_out = amount_out_value(larger_in as int, reserve_in as int, reserve_out as int);
    assert(0 <= low * reserve_out && 0 <= high * reserve_out) by (nonlinear_arith)
        requires
            0 <= low,
            0 <= high,
            0 <= reserve_out,
    ;
    lemma_floor_div_bounds(low * reserve_out, base + low);
    lemma_floor_div_bounds(high * reserve_out, base + high);
    assert(low_out == (low * reserve_out) / (base + low));
    assert(high_out == (high * reserve_out) / (base + high));
    assert(low_out <= high_out) by (nonlinear_arith)
        requires
            low_out * (base + low) <= low * reserve_out,
            high * reserve_out < (high_out + 1) * (base + high),
            0 < low <= high,
            0 < base,
            0 < reserve_out,
            0 <= low_out,
            0 <= high_out,
    {
        if low_out > high_out {
            // then the smaller output would be too large for the larger
            // input, though what is left of the output reserve is worth
            // more of it
            assert(low_out * (base + high) > high * reserve_out) by {
                assert((high_out + 1) * (base + high) <= low_out * (base + high));
            }
            assert(low_out * base <= low * (reserve_out - low_out)) by {
                assert(low_out * (base + low) == low_out * base + low_out * low);
                assert(low * (reserve_out - low_out) == low * reserve_out - low * low_out);
            }
            assert(low_out * base > high * (reserve_out - low_out)) by {
                assert(low_out * (base + high) == low_out * base + low_out * high);
                assert(high * (reserve_out - low_out) == high * reserve_out - high * low_out);
            }
            assert(reserve_out - low_out > 0) by {
                if reserve_out - low_out <= 0 {
                    assert(low * (reserve_out - low_out) <= 0);
                    assert(low_out * base > 0);
                }
            }
            assert(low * (reserve_out - low_out) <= high * (reserve_out - low_out));
        }
    }
}

/// A swap pays out less than the same input would fetch without a fee,
/// taken as the exact ratio `amount_in * reserve_out / (reserve_in +
/// amount_in)`, and so no more than that ratio rounded down.
pub proof fn lemma_swap_output_below_feeless(amount_in: u64, reserve_in: u64, reserve_out: u64)
    requires
        amount_in > 0,
        reserve_in > 0,
        reserve_out > 0,
    ensures
        get_amount_out_spec(amount_in, reserve_in, reserve_out) matches Ok(amount_out)
            && amount_out * (reserve_in + amount_in) < amount_in * reserve_out && amount_out
            <= amount_in * reserve_out / (reserve_in + amount_in),
{
    let amount_out = amount_out_value(amount_in as int, reserve_in as int, reserve_out as int);
    let feeless = amount_in * reserve_out;
    let grown = reserve_in + amount_in;
    lemma_amount_out_bounds(amount_in as int, reserve_in as int, reserve_out as int);
    assert(0 <= feeless) by (nonlinear_arith)
        requires
            feeless == amount_in * reserve_out,
    ;
    lemma_floor_div_bounds(feeless, grown);
    assert(amount_out <= feeless / grown) by (nonlinear_arith)
        requires
            amount_out * grown < feeless,
            feeless < (feeless / grown + 1) * grown,
            0 < grown,
    {
        if amount_out > feeless / grown {
            assert(amount_out * grown >= (feeless / grown + 1) * grown);
        }
    }
}

/// An accepted swap makes the product of the reserves strictly larger: the
/// fee stays in the pool.
pub proof fn lemma_swap_grows_product(
    pool: Pool,
    amount_in: u64,
    minimum_amount_out: u64,
    a_to_b: bool,
)
    requires
        pool.swap_spec(amount_in, minimum_amount_out, a_to_b) is Ok,
    ensures
        pool.after_swap(amount_in, minimum_amount_out, a_to_b).reserve_a * pool.after_swap(
            amount_in,
            minimum_amount_out,
            a_to_b,
        ).reserve_b > pool.reserve_a * pool.reserve_b,
{
    let reserve_in = pool.reserve_in(a_to_b) as int;
    let reserve_out = pool.reserve_out(a_to_b) as int;
    let after = pool.after_swap(amount_in, minimum_amount_out, a_to_b);
    let amount_out = amount_out_value(amount_in as int, reserve_in, reserve_out);
    lemma_amount_out_bounds(amount_in as int, reserve_in, reserve_out);
    assert(after.reserve_in(a_to_b) == reserve_in + amount_in);
    assert(after.reserve_out(a_to_b) == reserve_out - amount_out);
    assert((reserve_in + amount_in) * (reserve_out - amount_out) > reserve_in * reserve_out)
        by (nonlinear_arith)
        requires
            amount_out * (reserve_in + amount_in) < amount_in * reserve_out,
    ;
    if a_to_b {
        assert(after.reserve_a * after.reserve_b == (reserve_in + amount_in) * (reserve_out
            - amount_out));
    } else {
        assert(after.reserve_a * after.reserve_b == (reserve_in + amount_in) * (reserve_out
            - amount_out)) by (nonlinear_arith)
            requires
                after.reserve_b == reserve_in + amount_in,
                after.reserve_a == reserve_out - amount_out,
        ;
        assert(pool.reserve_a * pool.reserve_b == reserve_in * reserve_out) by (nonlinear_arith)
            requires
                pool.reserve_b == reserve_in,
                pool.reserve_a == reserve_out,
        ;
    }
}

/// A deposit into a funded pool mints no more shares than either amount
/// taken is worth: afterwards every share redeems at least as much of each
/// asset as before, so those who already held shares are not diluted.
pub proof fn lemma_deposit_never_dilutes(
    pool: Pool,
    amount_a_desired: u64,
    amount_b_desired: u64,
    amount_a_min: u64,
    amount_b_min: u64,
)
    requires
        pool.reserve_a > 0,
        pool.reserve_b > 0,
        pool.lp_supply > 0,
        pool.add_liquidity_spec(
            amount_a_desired,
            amount_b_desired,
            amount_a_min,
            amount_b_min,
        ) is Ok,
    ensures
        ({
            let after = pool.after_add_liquidity(
                amount_a_desired,
                amount_b_desired,
                amount_a_min,
                amount_b_min,
            );
            &&& after.reserve_a * pool.lp_supply >= pool.reserve_a * after.lp_supply
            &&& after.reserve_b * pool.lp_supply >= pool.reserve_b * after.lp_supply
        }),
{
    let after = pool.after_add_liquidity(
        amount_a_desired,
        amount_b_desired,
        amount_a_min,
        amount_b_min,
    );
    let reserve_a = pool.reserve_a as int;
    let reserve_b = pool.reserve_b as int;
    let lp_supply = pool.lp_supply as int;
    let amount_a = after.reserve_a - reserve_a;
    let amount_b = after.reserve_b - reserve_b;
    let shares = after.lp_supply - lp_supply;
    assert(0 <= amount_a && 0 <= amount_b);
    assert(0 <= amount_a * lp_supply && 0 <= amount_b * lp_supply) by (nonlinear_arith)
        requires
            0 <= amount_a,
            0 <= amount_b,
            0 < lp_supply,
    ;
    lemma_floor_div_bounds(amount_a * lp_supply, reserve_a);
    lemma_floor_div_bounds(amount_b * lp_supply, reserve_b);
    let by_a = amount_a * lp_supply / reserve_a;
    let by_b = amount_b * lp_supply / reserve_b;
    assert(shares <= by_a && shares <= by_b);
    assert((reserve_a + amount_a) * lp_supply >= reserve_a * (lp_supply + shares))
        by (nonlinear_arith)
        requires
            by_a * reserve_a <= amount_a * lp_supply,
            shares <= by_a,
            0 < reserve_a,
    {
        assert(shares * reserve_a <= by_a * reserve_a);
    }
    assert((reserve_b + amount_b) * lp_supply >= reserve_b * (lp_supply + shares))
        by (nonlinear_arith)
        requires
            by_b * reserve_b <= amount_b * lp_supply,
            shares <= by_b,
            0 < reserve_b,
    {
        assert(shares * reserve_b <= by_b * reserve_b);
    }
}

/// A withdrawal pays out no more than the withdrawn shares' part of each
/// reserve: afterwards every remaining share redeems at least as much of
/// each asset as before.
pub proof fn lemma_withdrawal_never_dilutes(
    pool: Pool,
    liquidity: u64,
    amount_a_min: u64,
    amount_b_min: u64,
)
    requires
        pool.remove_liquidity_spec(liquidity, amount_a_min, amount_b_min) is Ok,
    ensures
        ({
            let after = pool.after_remove_liquidity(liquidity, amount_a_min, amount_b_min);
            &&& after.reserve_a * pool.lp_supply >= pool.reserve_a * after.lp_supply
            &&& after.reserve_b * pool.lp_supply >= pool.reserve_b * after.lp_supply
        }),
{
    let after = pool.after_remove_liquidity(liquidity, amount_a_min, amount_b_min);
    let reserve_a = pool.reserve_a as int;
    let reserve_b = pool.reserve_b as int;
    let lp_supply = pool.lp_supply as int;
    let amount_a = liquidity * reserve_a / lp_supply;
    let amount_b = liquidity * reserve_b / lp_supply;
    assert(0 <= liquidity * reserve_a && 0 <= liquidity * reserve_b) by (nonlinear_arith)
        requires
            0 <= reserve_a,
            0 <= reserve_b,
    ;
    lemma_floor_div_bounds(liquidity * reserve_a, lp_supply);
    lemma_floor_div_bounds(liquidity * reserve_b, lp_supply);
    assert(after.reserve_a == reserve_a - amount_a);
    assert(after.reserve_b == reserve_b - amount_b);
    assert(after.lp_supply == lp_supply - liquidity);
    assert((reserve_a - amount_a) * lp_supply >= reserve_a * (lp_supply - liquidity))
        by (nonlinear_arith)
        requires
            amount_a * lp_supply <= liquidity * reserve_a,
    ;
    assert((reserve_b - amount_b) * lp_supply >= reserve_b * (lp_supply - liquidity))
        by (nonlinear_arith)
        requires
            amount_b * lp_supply <= liquidity * reserve_b,
    ;
}

/// A deposit keeps the invariant of the pool, whether it is accepted or
/// rejected: the two assets stay what they were, and the reserves and the
/// share supply stay all zero or all positive.
pub proof fn lemma_deposit_keeps_invariant(
    pool: Pool,
    amount_a_desired: u64,
    amount_b_desired: u64,
    amount_a_min: u64,
    amount_b_min: u64,
)
    requires
        pool.wf(),
    ensures
        pool.after_add_liquidity(
            amount_a_desired,
            amount_b_desired,
            amount_a_min,
            amount_b_min,
        ).wf(),
{
    if pool.lp_supply == 0 {
        assert(0 <= amount_a_desired * amount_b_desired) by (nonlinear_arith);
        lemma_sqrt_floor_exists((amount_a_desired * amount_b_desired) as nat);
        lemma_root_of_product(
            amount_a_desired,
            amount_b_desired,
            sqrt_floor((amount_a_desired * amount_b_desired) as nat),
        );
    }
}

/// A withdrawal keeps the invariant of the pool, whether it is accepted or
/// rejected. In particular it empties the reserves only when it burns the
/// last share.
pub proof fn lemma_withdrawal_keeps_invariant(
    pool: Pool,
    liquidity: u64,
    amount_a_min: u64,
    amount_b_min: u64,
)
    requires
        pool.wf(),
    ensures
        pool.after_remove_liquidity(liquidity, amount_a_min, amount_b_min).wf(),
{
    if pool.remove_liquidity_spec(liquidity, amount_a_min, amount_b_min) is Ok {
        lemma_share_of_reserve(liquidity as int, pool.reserve_a as int, pool.lp_supply as int);
        lemma_share_of_reserve(liquidity as int, pool.reserve_b as int, pool.lp_supply as int);
    }
}

/// A swap keeps the invariant of the pool, whether it is accepted or
/// rejected: it never pays out the whole of a reserve.
pub proof fn lemma_swap_keeps_invariant(
    pool: Pool,
    amount_in: u64,
    minimum_amount_out: u64,
    a_to_b: bool,
)
    requires
        pool.wf(),
    ensures
        pool.after_swap(amount_in, minimum_amount_out, a_to_b).wf(),
{
    if pool.swap_spec(amount_in, minimum_amount_out, a_to_b) is Ok {
        lemma_amount_out_bounds(
            amount_in as int,
            pool.reserve_in(a_to_b) as int,
            pool.reserve_out(a_to_b) as int,
        );
    }
}

} // verus!
