use vstd::prelude::*;
use crate::account::{Account, lex_lt};
use crate::ledger::{map_total, lemma_map_total_insert};
use crate::arith::{fits_i128, is_floor_sqrt, tdiv, floor_sqrt, lemma_floor_sqrt_unique, lemma_div_bounds, lemma_div_at_most};

verus! {

/// Square-root step: every `r >= 0` with `r * r <= y` stays at or below
/// the next Newton iterate from any positive `x`.
proof fn lemma_newton_stays_above_roots(y: int, x: int, r: int)
    requires
        x >= 1,
        r >= 0,
        r * r <= y,
    ensures
        r <= (y / x + x) / 2,
{
    let q = y / x;
    let m = y % x;
    assert(y == q * x + m && 0 <= m < x) by {
        vstd::arithmetic::div_mod::lemma_fundamental_div_mod(y, x);
    }
    assert(x * (2 * r - x) <= r * r) by (nonlinear_arith)
        requires x >= 1, r >= 0;
    assert(x * (2 * r - x) < (q + 1) * x) by (nonlinear_arith)
        requires x * (2 * r - x) <= r * r, r * r <= y, y == q * x + m, m < x;
    assert(2 * r - x < q + 1) by (nonlinear_arith)
        requires x * (2 * r - x) < (q + 1) * x, x >= 1;
}

/// Square-root step: above the root, the Newton iterate strictly decreases.
proof fn lemma_newton_decreases(y: int, z: int)
    requires
        z >= 1,
        y >= 0,
        z * z > y,
    ensures
        (y / z + z) / 2 < z,
{
    let q = y / z;
    let m = y % z;
    assert(y == q * z + m && 0 <= m < z) by {
        vstd::arithmetic::div_mod::lemma_fundamental_div_mod(y, z);
    }
    assert(q < z) by (nonlinear_arith)
        requires y == q * z + m, 0 <= m, z * z > y, z >= 1;
}

/// Bounds the Newton sum `y / x + x` so that it fits the machine type.
proof fn lemma_newton_sum_fits(y: int, x: int)
    requires
        4 <= y <= i128::MAX,
        2 <= x <= y / 2 + 1,
    ensures
        y / x + x <= i128::MAX,
        y / x + x >= 0,
{
    assert(y / x <= y / 2) by {
        vstd::arithmetic::div_mod::lemma_div_is_ordered_by_denominator(y, 2, x);
    }
    assert(2 * (y / 2) <= y) by {
        vstd::arithmetic::div_mod::lemma_fundamental_div_mod(y, 2);
    }
    assert(y / x >= 0) by {
        vstd::arithmetic::div_mod::lemma_div_pos_is_pos(y, x);
    }
    if y % 2 == 0 {
        assert(2 * (y / 2) == y) by {
            vstd::arithmetic::div_mod::lemma_fundamental_div_mod(y, 2);
        }
        assert(y < i128::MAX);
    } else {
        assert(2 * (y / 2) + 1 == y) by {
            vstd::arithmetic::div_mod::lemma_fundamental_div_mod(y, 2);
        }
    }
}

/// `r` is at most the square root of `y` (its square does not exceed `y`).
spec fn root_candidate(y: int, r: int) -> bool {
    0 <= r && r * r <= y
}


/// Reserves of the two pooled tokens and the number of LP shares issued.
#[derive(Clone, Copy, Debug, PartialEq, Eq, Structural)]
pub struct PoolState {
    pub reserve_a: i128,
    pub reserve_b: i128,
    pub lp_supply: i128,
}

/// The pair of tokens the pool trades, in canonical order.
#[derive(Clone, Debug, PartialEq, Eq)]
pub struct PoolTokens {
    pub token_a: Account,
    pub token_b: Account,
}

/// Why a pool operation is rejected.
#[derive(Clone, Copy, Debug, PartialEq, Eq, Structural)]
pub enum AmmError {
    AlreadyInitialized,
    NotInitialized,
    InsufficientLpBalance,
    InvalidToken,
    SlippageLimitExceeded,
    NegativeSqrt,
    AddOverflow,
    SubOverflow,
    MulOverflow,
    DivOverflow,
    DivisionByZero,
}

/// The text a rejection is reported with.
pub open spec fn amm_error_text(e: AmmError) -> Seq<char> {
    match e {
        AmmError::AlreadyInitialized => "Already initialized"@,
        AmmError::NotInitialized => "Not init"@,
        AmmError::InsufficientLpBalance => "Insufficient LP balance"@,
        AmmError::InvalidToken => "Invalid token"@,
        AmmError::SlippageLimitExceeded => "Slippage limit exceeded"@,
        AmmError::NegativeSqrt => "Negative sqrt"@,
        AmmError::AddOverflow => "attempt to add with overflow"@,
        AmmError::SubOverflow => "attempt to subtract with overflow"@,
        AmmError::MulOverflow => "attempt to multiply with overflow"@,
        AmmError::DivOverflow => "attempt to divide with overflow"@,
        AmmError::DivisionByZero => "attempt to divide by zero"@,
    }
}

impl AmmError {
    /// The message the contract aborts with.
    pub fn message(&self) -> (r: &'static str)
        ensures
            r@ == amm_error_text(*self),
    {
        match self {
            AmmError::AlreadyInitialized => "Already initialized",
            AmmError::NotInitialized => "Not init",
            AmmError::InsufficientLpBalance => "Insufficient LP balance",
            AmmError::InvalidToken => "Invalid token",
            AmmError::SlippageLimitExceeded => "Slippage limit exceeded",
            AmmError::NegativeSqrt => "Negative sqrt",
            AmmError::AddOverflow => "attempt to add with overflow",
            AmmError::SubOverflow => "attempt to subtract with overflow",
            AmmError::MulOverflow => "attempt to multiply with overflow",
            AmmError::DivOverflow => "attempt to divide with overflow",
            AmmError::DivisionByZero => "attempt to divide by zero",
        }
    }
}

/// What a deposit does: the amounts taken from the provider, the shares
/// minted, and the pool and provider balance afterwards.
#[derive(Clone, Copy, Debug, PartialEq, Eq, Structural)]
pub struct LiquidityAdded {
    pub amount_a: i128,
    pub amount_b: i128,
    pub lp_minted: i128,
    pub pool: PoolState,
    pub lp_balance: i128,
}

/// What a withdrawal does: the amounts paid out, and the pool and provider
/// balance afterwards.
#[derive(Clone, Copy, Debug, PartialEq, Eq, Structural)]
pub struct LiquidityRemoved {
    pub amount_a: i128,
    pub amount_b: i128,
    pub pool: PoolState,
    pub lp_balance: i128,
}

/// What a swap does: which side was paid in, the amount paid out in the
/// other token, that token, and the pool afterwards.
#[derive(Clone, Debug, PartialEq, Eq)]
pub struct SwapOutcome {
    pub a_in: bool,
    pub amount_out: i128,
    pub token_out: Account,
    pub pool: PoolState,
}

/// The amounts `(amount_a, amount_b, lp_minted)` a deposit settles on, with
/// the machine arithmetic's failures in the order the operations run.
pub open spec fn deposit_amounts(pool: PoolState, a: i128, b: i128) -> Result<(int, int, int), AmmError> {
    let ra = pool.reserve_a as int;
    let rb = pool.reserve_b as int;
    let supply = pool.lp_supply as int;
    if supply == 0 {
        let p = a * b;
        if !fits_i128(p) {
            Err(AmmError::MulOverflow)
        } else if p < 0 {
            Err(AmmError::NegativeSqrt)
        } else {
            Ok((a as int, b as int, floor_sqrt(p)))
        }
    } else if !fits_i128(a * rb) {
        Err(AmmError::MulOverflow)
    } else if ra == 0 {
        Err(AmmError::DivisionByZero)
    } else if !fits_i128(tdiv(a * rb, ra)) {
        Err(AmmError::DivOverflow)
    } else if tdiv(a * rb, ra) <= b {
        // the whole of `a` goes in, with the matching amount of `b`
        if !fits_i128(a * supply) {
            Err(AmmError::MulOverflow)
        } else if !fits_i128(tdiv(a * supply, ra)) {
            Err(AmmError::DivOverflow)
        } else {
            Ok((a as int, tdiv(a * rb, ra), tdiv(a * supply, ra)))
        }
    } else if !fits_i128(b * ra) {
        Err(AmmError::MulOverflow)
    } else if rb == 0 {
        Err(AmmError::DivisionByZero)
    } else if !fits_i128(tdiv(b * ra, rb)) {
        Err(AmmError::DivOverflow)
    } else if !fits_i128(b * supply) {
        Err(AmmError::MulOverflow)
    } else if !fits_i128(tdiv(b * supply, rb)) {
        Err(AmmError::DivOverflow)
    } else {
        // the whole of `b` goes in, with the matching amount of `a`
        Ok((tdiv(b * ra, rb), b as int, tdiv(b * supply, rb)))
    }
}

/// The full effect of a deposit of up to `a` and `b` by a provider holding
/// `lp_balance` shares.
pub open spec fn add_liquidity_spec(pool: PoolState, lp_balance: i128, a: i128, b: i128) -> Result<LiquidityAdded, AmmError> {
    match deposit_amounts(pool, a, b) {
        Err(e) => Err(e),
        Ok((amount_a, amount_b, lp)) => {
            let ra = pool.reserve_a + amount_a;
            let rb = pool.reserve_b + amount_b;
            let supply = pool.lp_supply + lp;
            let balance = lp_balance + lp;
            if !fits_i128(ra) || !fits_i128(rb) || !fits_i128(supply) || !fits_i128(balance) {
                Err(AmmError::AddOverflow)
            } else {
                Ok(LiquidityAdded {
                    amount_a: amount_a as i128,
                    amount_b: amount_b as i128,
                    lp_minted: lp as i128,
                    pool: PoolState { reserve_a: ra as i128, reserve_b: rb as i128, lp_supply: supply as i128 },
                    lp_balance: balance as i128,
                })
            }
        },
    }
}

/// The full effect of burning `lp_amount` shares of a provider holding
/// `lp_balance`.
pub open spec fn remove_liquidity_spec(initialized: bool, pool: PoolState, lp_balance: i128, lp_amount: i128) -> Result<LiquidityRemoved, AmmError> {
    let supply = pool.lp_supply as int;
    let pa = lp_amount * pool.reserve_a;
    let pb = lp_amount * pool.reserve_b;
    if lp_balance < lp_amount {
        Err(AmmError::InsufficientLpBalance)
    } else if !initialized {
        Err(AmmError::NotInitialized)
    } else if !fits_i128(pa) {
        Err(AmmError::MulOverflow)
    } else if supply == 0 {
        Err(AmmError::DivisionByZero)
    } else if !fits_i128(tdiv(pa, supply)) {
        Err(AmmError::DivOverflow)
    } else if !fits_i128(pb) {
        Err(AmmError::MulOverflow)
    } else if !fits_i128(tdiv(pb, supply)) {
        Err(AmmError::DivOverflow)
    } else {
        let amount_a = tdiv(pa, supply);
        let amount_b = tdiv(pb, supply);
        let ra = pool.reserve_a - amount_a;
        let rb = pool.reserve_b - amount_b;
        let new_supply = supply - lp_amount;
        let balance = lp_balance - lp_amount;
        if !fits_i128(ra) || !fits_i128(rb) || !fits_i128(new_supply) || !fits_i128(balance) {
            Err(AmmError::SubOverflow)
        } else {
            Ok(LiquidityRemoved {
                amount_a: amount_a as i128,
                amount_b: amount_b as i128,
                pool: PoolState { reserve_a: ra as i128, reserve_b: rb as i128, lp_supply: new_supply as i128 },
                lp_balance: balance as i128,
            })
        }
    }
}

/// Output of the constant-product formula with a 0.3% fee:
/// `reserve_out * (amount_in * 997) / (reserve_in * 1000 + amount_in * 997)`,
/// rounded toward zero.
pub open spec fn swap_output(reserve_in: int, reserve_out: int, amount_in: int) -> int {
    tdiv(amount_in * 997 * reserve_out, reserve_in * 1000 + amount_in * 997)
}

/// The effect of paying `amount_in` into side A (`a_in`) or side B: the
/// amount paid out of the other side and the pool afterwards.
pub open spec fn swap_spec(pool: PoolState, a_in: bool, amount_in: i128, min_amount_out: i128) -> Result<(i128, PoolState), AmmError> {
    let reserve_in = if a_in { pool.reserve_a as int } else { pool.reserve_b as int };
    let reserve_out = if a_in { pool.reserve_b as int } else { pool.reserve_a as int };
    let with_fee = amount_in * 997;
    let numerator = with_fee * reserve_out;
    let denominator = reserve_in * 1000 + with_fee;
    if !fits_i128(with_fee) || !fits_i128(numerator) || !fits_i128(reserve_in * 1000) {
        Err(AmmError::MulOverflow)
    } else if !fits_i128(denominator) {
        Err(AmmError::AddOverflow)
    } else if denominator == 0 {
        Err(AmmError::DivisionByZero)
    } else if !fits_i128(tdiv(numerator, denominator)) {
        Err(AmmError::DivOverflow)
    } else if tdiv(numerator, denominator) < min_amount_out {
        Err(AmmError::SlippageLimitExceeded)
    } else {
        let out = tdiv(numerator, denominator);
        let new_in = reserve_in + amount_in;
        let new_out = reserve_out - out;
        if a_in {
            // reserve A is written first
            if !fits_i128(new_in) {
                Err(AmmError::AddOverflow)
            } else if !fits_i128(new_out) {
                Err(AmmError::SubOverflow)
            } else {
                Ok((out as i128, PoolState { reserve_a: new_in as i128, reserve_b: new_out as i128, lp_supply: pool.lp_supply }))
            }
        } else if !fits_i128(new_out) {
            Err(AmmError::SubOverflow)
        } else if !fits_i128(new_in) {
            Err(AmmError::AddOverflow)
        } else {
            Ok((out as i128, PoolState { reserve_a: new_out as i128, reserve_b: new_in as i128, lp_supply: pool.lp_supply }))
        }
    }
}

/// The numeric part of a swap's result.
pub open spec fn swap_numbers(r: Result<SwapOutcome, AmmError>) -> Result<(i128, PoolState), AmmError> {
    match r {
        Ok(o) => Ok((o.amount_out, o.pool)),
        Err(e) => Err(e),
    }
}

fn mul_or_fail(x: i128, y: i128) -> (r: Result<i128, AmmError>)
    ensures
        r == (if fits_i128(x * y) { Ok::<i128, AmmError>((x * y) as i128) } else { Err(AmmError::MulOverflow) }),
{
    match x.checked_mul(y) {
        Some(v) => Ok(v),
        None => Err(AmmError::MulOverflow),
    }
}

fn add_or_fail(x: i128, y: i128) -> (r: Result<i128, AmmError>)
    ensures
        r == (if fits_i128(x + y) { Ok::<i128, AmmError>((x + y) as i128) } else { Err(AmmError::AddOverflow) }),
{
    match x.checked_add(y) {
        Some(v) => Ok(v),
        None => Err(AmmError::AddOverflow),
    }
}

fn sub_or_fail(x: i128, y: i128) -> (r: Result<i128, AmmError>)
    ensures
        r == (if fits_i128(x - y) { Ok::<i128, AmmError>((x - y) as i128) } else { Err(AmmError::SubOverflow) }),
{
    match x.checked_sub(y) {
        Some(v) => Ok(v),
        None => Err(AmmError::SubOverflow),
    }
}

fn div_or_fail(x: i128, d: i128) -> (r: Result<i128, AmmError>)
    ensures
        r == (if d == 0 {
            Err(AmmError::DivisionByZero)
        } else if fits_i128(tdiv(x as int, d as int)) {
            Ok::<i128, AmmError>(tdiv(x as int, d as int) as i128)
        } else {
            Err(AmmError::DivOverflow)
        }),
{
    if d == 0 {
        return Err(AmmError::DivisionByZero);
    }
    match x.checked_div(d) {
        Some(v) => Ok(v),
        None => Err(AmmError::DivOverflow),
    }
}


/// The output of a swap is below the output reserve, and the product of
/// the reserves does not shrink: `(x + d) * (y - out) >= x * y`.
proof fn lemma_swap_output_bounds(x: int, y: int, d: int)
    requires
        x > 0,
        y > 0,
        d >= 0,
    ensures
        0 <= swap_output(x, y, d) < y,
        (x + d) * (y - swap_output(x, y, d)) >= x * y,
{
    let f = d * 997;
    let den = x * 1000 + f;
    let num = f * y;
    assert(f >= 0 && den > f && num >= 0) by (nonlinear_arith)
        requires x > 0, d >= 0, y > 0, f == d * 997, den == x * 1000 + f, num == f * y;
    let out = num / den;
    assert(swap_output(x, y, d) == out);
    lemma_div_bounds(num, den);
    assert(num < den * y) by (nonlinear_arith)
        requires num == f * y, den > f, y > 0;
    assert(out < y) by (nonlinear_arith)
        requires out * den <= num, num < den * y, den > 0;
    assert(1000 * out * (x + d) <= 1000 * d * y) by (nonlinear_arith)
        requires
            out * den <= num,
            num == f * y,
            f == d * 997,
            den == x * 1000 + f,
            0 <= out < y,
            d >= 0;
    assert((x + d) * (y - out) >= x * y) by (nonlinear_arith)
        requires 1000 * out * (x + d) <= 1000 * d * y;
}

/// Swaps never lower the pool's constant product: on a pool with both
/// reserves positive, paying in a non-negative amount leaves
/// `reserve_a * reserve_b` at least as large, pays out less than the whole
/// output reserve and at least the caller's minimum, and issues no shares.
pub proof fn lemma_swap_never_decreases_product(pool: PoolState, a_in: bool, amount_in: i128, min_amount_out: i128)
    requires
        pool.reserve_a > 0,
        pool.reserve_b > 0,
        amount_in >= 0,
        swap_spec(pool, a_in, amount_in, min_amount_out) is Ok,
    ensures
        ({
            let (out, after) = swap_spec(pool, a_in, amount_in, min_amount_out)->Ok_0;
            &&& after.reserve_a * after.reserve_b >= pool.reserve_a * pool.reserve_b
            &&& 0 <= out
            &&& out >= min_amount_out
            &&& (if a_in { out < pool.reserve_b } else { out < pool.reserve_a })
            &&& after.lp_supply == pool.lp_supply
        }),
{
    let x = if a_in { pool.reserve_a as int } else { pool.reserve_b as int };
    let y = if a_in { pool.reserve_b as int } else { pool.reserve_a as int };
    lemma_swap_output_bounds(x, y, amount_in as int);
    let (out, after) = swap_spec(pool, a_in, amount_in, min_amount_out)->Ok_0;
    assert(out == swap_output(x, y, amount_in as int));
    if !a_in {
        assert(after.reserve_a * after.reserve_b == (x + amount_in) * (y - out)) by (nonlinear_arith)
            requires after.reserve_a == y - out, after.reserve_b == x + amount_in;
        assert(pool.reserve_a * pool.reserve_b == x * y) by (nonlinear_arith)
            requires pool.reserve_a == y, pool.reserve_b == x;
    }
}

/// Withdrawals are pro rata and bounded: burning at most the issued shares
/// of a pool with non-negative reserves pays out between zero and each
/// reserve, leaves the reserves non-negative, and burning every share pays
/// out both reserves exactly and empties the pool.
pub proof fn lemma_withdrawal_within_reserves(pool: PoolState, lp_balance: i128, lp_amount: i128)
    requires
        pool.reserve_a >= 0,
        pool.reserve_b >= 0,
        0 <= lp_amount <= pool.lp_supply,
        remove_liquidity_spec(true, pool, lp_balance, lp_amount) is Ok,
    ensures
        ({
            let w = remove_liquidity_spec(true, pool, lp_balance, lp_amount)->Ok_0;
            &&& 0 <= w.amount_a <= pool.reserve_a
            &&& 0 <= w.amount_b <= pool.reserve_b
            &&& w.pool.reserve_a >= 0 && w.pool.reserve_b >= 0
            &&& lp_amount == pool.lp_supply ==> w.amount_a == pool.reserve_a && w.amount_b == pool.reserve_b
                && w.pool == (PoolState { reserve_a: 0, reserve_b: 0, lp_supply: 0 })
        }),
{
    let s = pool.lp_supply as int;
    let l = lp_amount as int;
    let ra = pool.reserve_a as int;
    let rb = pool.reserve_b as int;
    assert(l * ra >= 0 && l * ra <= s * ra && l * rb >= 0 && l * rb <= s * rb) by (nonlinear_arith)
        requires 0 <= l <= s, ra >= 0, rb >= 0;
    lemma_div_bounds(l * ra, s);
    lemma_div_bounds(l * rb, s);
    assert(s * ra < (ra + 1) * s && s * rb < (rb + 1) * s) by (nonlinear_arith)
        requires s > 0;
    lemma_div_at_most(l * ra, s, ra);
    lemma_div_at_most(l * rb, s, rb);
    if l == s {
        vstd::arithmetic::div_mod::lemma_div_multiples_vanish(ra, s);
        vstd::arithmetic::div_mod::lemma_div_multiples_vanish(rb, s);
        assert(s * ra == ra * s && s * rb == rb * s) by (nonlinear_arith);
    }
}

/// The formula's output grows with the amount paid in.
proof fn lemma_swap_output_monotone(x: int, y: int, d1: int, d2: int)
    requires
        x > 0,
        y >= 0,
        0 <= d1 <= d2,
    ensures
        swap_output(x, y, d1) <= swap_output(x, y, d2),
{
    let n1 = d1 * 997 * y;
    let n2 = d2 * 997 * y;
    let e1 = x * 1000 + d1 * 997;
    let e2 = x * 1000 + d2 * 997;
    assert(n1 >= 0 && n2 >= 0 && e1 > 0 && e2 > 0) by (nonlinear_arith)
        requires x > 0, y >= 0, d1 >= 0, d2 >= 0, n1 == d1 * 997 * y, n2 == d2 * 997 * y,
            e1 == x * 1000 + d1 * 997, e2 == x * 1000 + d2 * 997;
    assert(n1 * e2 <= n2 * e1) by (nonlinear_arith)
        requires x > 0, y >= 0, 0 <= d1 <= d2, n1 == d1 * 997 * y, n2 == d2 * 997 * y,
            e1 == x * 1000 + d1 * 997, e2 == x * 1000 + d2 * 997;
    lemma_div_bounds(n1, e1);
    lemma_div_bounds(n2, e2);
    let q1 = n1 / e1;
    let q2 = n2 / e2;
    assert(q1 * e2 <= n2) by (nonlinear_arith)
        requires q1 * e1 <= n1, n1 * e2 <= n2 * e1, e1 > 0, e2 > 0, q1 >= 0;
    assert(q1 < q2 + 1) by (nonlinear_arith)
        requires q1 * e2 <= n2, n2 < (q2 + 1) * e2, e2 > 0;
    assert(swap_output(x, y, d1) == q1 && swap_output(x, y, d2) == q2);
}

/// Paying more in never gets less out: when the reserve paid into is
/// positive and the other is not negative, two swaps on the same side with
/// `0 <= d1 <= d2` that both go through pay out `out(d1) <= out(d2)`.
pub proof fn lemma_swap_output_grows_with_input(pool: PoolState, a_in: bool, d1: i128, d2: i128, min1: i128, min2: i128)
    requires
        (if a_in { pool.reserve_a } else { pool.reserve_b }) > 0,
        (if a_in { pool.reserve_b } else { pool.reserve_a }) >= 0,
        0 <= d1 <= d2,
        swap_spec(pool, a_in, d1, min1) is Ok,
        swap_spec(pool, a_in, d2, min2) is Ok,
    ensures
        swap_spec(pool, a_in, d1, min1)->Ok_0.0 <= swap_spec(pool, a_in, d2, min2)->Ok_0.0,
{
    let x = if a_in { pool.reserve_a as int } else { pool.reserve_b as int };
    let y = if a_in { pool.reserve_b as int } else { pool.reserve_a as int };
    lemma_swap_output_monotone(x, y, d1 as int, d2 as int);
    assert(swap_spec(pool, a_in, d1, min1)->Ok_0.0 == swap_output(x, y, d1 as int));
    assert(swap_spec(pool, a_in, d2, min2)->Ok_0.0 == swap_output(x, y, d2 as int));
}

/// Withdrawals never dilute the shares left behind: after burning a
/// non-negative number of shares of a pool with non-negative reserves, each
/// reserve per remaining share is at least what it was per share before
/// (`reserve' * supply >= reserve * supply'`).
pub proof fn lemma_withdrawal_keeps_share_value(pool: PoolState, lp_balance: i128, lp_amount: i128)
    requires
        pool.reserve_a >= 0,
        pool.reserve_b >= 0,
        0 <= lp_amount,
        remove_liquidity_spec(true, pool, lp_balance, lp_amount) is Ok,
    ensures
        ({
            let w = remove_liquidity_spec(true, pool, lp_balance, lp_amount)->Ok_0;
            &&& w.pool.reserve_a * pool.lp_supply >= pool.reserve_a * w.pool.lp_supply
            &&& w.pool.reserve_b * pool.lp_supply >= pool.reserve_b * w.pool.lp_supply
        }),
{
    let s = pool.lp_supply as int;
    let l = lp_amount as int;
    let ra = pool.reserve_a as int;
    let rb = pool.reserve_b as int;
    assert(l * ra >= 0 && l * rb >= 0) by (nonlinear_arith)
        requires l >= 0, ra >= 0, rb >= 0;
    lemma_share_value_side(l, ra, s);
    lemma_share_value_side(l, rb, s);
}

/// One reserve's part of `lemma_withdrawal_keeps_share_value`.
proof fn lemma_share_value_side(l: int, r: int, s: int)
    requires
        l >= 0,
        r >= 0,
        s != 0,
        l * r >= 0,
    ensures
        (r - tdiv(l * r, s)) * s >= r * (s - l),
{
    if s > 0 {
        lemma_div_bounds(l * r, s);
        let q = (l * r) / s;
        assert((r - q) * s >= r * (s - l)) by (nonlinear_arith)
            requires q * s <= l * r;
    } else {
        lemma_div_bounds(l * r, -s);
        let q = (l * r) / (-s);
        assert(tdiv(l * r, s) == -q);
        assert((r + q) * s >= r * (s - l)) by (nonlinear_arith)
            requires q * (-s) <= l * r, s < 0;
    }
}

/// How an LP balance counts toward the share total.
pub open spec fn share_amount() -> spec_fn(i128) -> int {
    |b: i128| b as int
}

/// The stored LP balance of `who` (none stored counts as zero).
pub open spec fn lp_held(balances: Map<Seq<u8>, i128>, who: Seq<u8>) -> i128 {
    if balances.dom().contains(who) { balances[who] } else { 0 }
}

/// The pool's share supply equals the sum of all stored LP balances.
pub open spec fn shares_balanced(pool: PoolState, balances: Map<Seq<u8>, i128>) -> bool {
    &&& balances.dom().finite()
    &&& pool.lp_supply as int == map_total(balances, share_amount())
}

/// The pool's reserves equal the amounts of each token the contract holds.
pub open spec fn reserves_held(pool: PoolState, held_a: int, held_b: int) -> bool {
    pool.reserve_a as int == held_a && pool.reserve_b as int == held_b
}

/// The pool's books stay straight across calls. If the share supply equals
/// the sum of all stored LP balances and the reserves equal the tokens the
/// contract holds, then after a deposit or a withdrawal by `who` (writing
/// `who`'s new balance) or a swap, the supply still equals the sum of the
/// balances, and the reserves still equal the holdings once the transfers
/// the call asks for are made.
pub proof fn lemma_pool_books_stay_balanced(
    pool: PoolState,
    balances: Map<Seq<u8>, i128>,
    held_a: int,
    held_b: int,
    who: Seq<u8>,
    a: i128,
    b: i128,
    lp_amount: i128,
    a_in: bool,
    amount_in: i128,
    min_amount_out: i128,
)
    requires
        shares_balanced(pool, balances),
        reserves_held(pool, held_a, held_b),
    ensures
        add_liquidity_spec(pool, lp_held(balances, who), a, b) matches Ok(o) ==> {
            &&& shares_balanced(o.pool, balances.insert(who, o.lp_balance))
            &&& reserves_held(o.pool, held_a + o.amount_a, held_b + o.amount_b)
        },
        remove_liquidity_spec(true, pool, lp_held(balances, who), lp_amount) matches Ok(w) ==> {
            &&& shares_balanced(w.pool, balances.insert(who, w.lp_balance))
            &&& reserves_held(w.pool, held_a - w.amount_a, held_b - w.amount_b)
        },
        swap_spec(pool, a_in, amount_in, min_amount_out) matches Ok((out, after)) ==> {
            &&& shares_balanced(after, balances)
            &&& a_in ==> reserves_held(after, held_a + amount_in, held_b - out)
            &&& !a_in ==> reserves_held(after, held_a - out, held_b + amount_in)
        },
{
    let held = lp_held(balances, who);
    if let Ok(o) = add_liquidity_spec(pool, held, a, b) {
        lemma_map_total_insert(balances, share_amount(), who, o.lp_balance);
    }
    if let Ok(w) = remove_liquidity_spec(true, pool, held, lp_amount) {
        lemma_map_total_insert(balances, share_amount(), who, w.lp_balance);
    }
}

/// Amounts up to 10^17 base units: every product of two of them, times
/// the 997 and 1000 of the fee, still fits the machine integers.
pub open spec fn in_everyday_range(x: int) -> bool {
    0 <= x <= 100_000_000_000_000_000
}

/// Products and quotients of amounts in the everyday range stay small.
proof fn lemma_everyday_products(x: int, y: int)
    requires
        in_everyday_range(x),
        in_everyday_range(y),
    ensures
        0 <= x * y <= 10_000_000_000_000_000_000_000_000_000_000_000,
        0 <= x * 997 * y <= 997 * 10_000_000_000_000_000_000_000_000_000_000_000,
        fits_i128(x * y),
        fits_i128(x * 997 * y),
{
    assert(0 <= x * y <= 10_000_000_000_000_000_000_000_000_000_000_000) by (nonlinear_arith)
        requires 0 <= x <= 100_000_000_000_000_000, 0 <= y <= 100_000_000_000_000_000;
    assert(x * 997 * y == 997 * (x * y)) by (nonlinear_arith);
}

/// Everyday deposits go through, proportionally: into a pool whose
/// reserves and supply are positive, a deposit of up to `a` and `b` takes
/// all of `a` with `(a * reserve_b) / reserve_a` of B when that does not
/// exceed `b`, and otherwise all of `b` with `(b * reserve_a) / reserve_b`
/// of A; it mints shares in the same proportion to the supply, adds the
/// amounts to the reserves and the shares to the provider's balance.
pub proof fn lemma_proportional_deposit(pool: PoolState, lp_balance: i128, a: i128, b: i128)
    requires
        pool.reserve_a > 0 && in_everyday_range(pool.reserve_a as int),
        pool.reserve_b > 0 && in_everyday_range(pool.reserve_b as int),
        pool.lp_supply > 0 && in_everyday_range(pool.lp_supply as int),
        in_everyday_range(lp_balance as int),
        in_everyday_range(a as int),
        in_everyday_range(b as int),
    ensures
        add_liquidity_spec(pool, lp_balance, a, b) matches Ok(o) && {
            let ra = pool.reserve_a as int;
            let rb = pool.reserve_b as int;
            let s = pool.lp_supply as int;
            &&& if (a * rb) / ra <= b {
                o.amount_a == a && o.amount_b == (a * rb) / ra && o.lp_minted == (a * s) / ra
            } else {
                o.amount_b == b && o.amount_a == (b * ra) / rb && o.lp_minted == (b * s) / rb
            }
            &&& o.pool.reserve_a == ra + o.amount_a
            &&& o.pool.reserve_b == rb + o.amount_b
            &&& o.pool.lp_supply == s + o.lp_minted
            &&& o.lp_balance == lp_balance + o.lp_minted
        },
{
    let ra = pool.reserve_a as int;
    let rb = pool.reserve_b as int;
    let s = pool.lp_supply as int;
    lemma_everyday_products(a as int, rb);
    lemma_everyday_products(a as int, s);
    lemma_everyday_products(b as int, ra);
    lemma_everyday_products(b as int, s);
    lemma_div_bounds(a * rb, ra);
    lemma_div_bounds(a * s, ra);
    lemma_div_bounds(b * ra, rb);
    lemma_div_bounds(b * s, rb);
    assert((a * rb) / ra <= a * rb && (a * s) / ra <= a * s && (b * ra) / rb <= b * ra && (b * s) / rb <= b * s) by (nonlinear_arith)
        requires ((a * rb) / ra) * ra <= a * rb, ((a * s) / ra) * ra <= a * s, ((b * ra) / rb) * rb <= b * ra,
            ((b * s) / rb) * rb <= b * s, ra >= 1, rb >= 1, (a * rb) / ra >= 0, (a * s) / ra >= 0,
            (b * ra) / rb >= 0, (b * s) / rb >= 0;
}

/// The first deposit into a pool with no shares takes both amounts in full
/// and mints the floor of the square root of their product; everyday
/// amounts always go through.
pub proof fn lemma_first_deposit(pool: PoolState, lp_balance: i128, a: i128, b: i128)
    requires
        pool.lp_supply == 0,
        in_everyday_range(pool.reserve_a as int),
        in_everyday_range(pool.reserve_b as int),
        in_everyday_range(lp_balance as int),
        in_everyday_range(a as int),
        in_everyday_range(b as int),
    ensures
        add_liquidity_spec(pool, lp_balance, a, b) matches Ok(o) && {
            &&& o.amount_a == a && o.amount_b == b
            &&& is_floor_sqrt(a * b, o.lp_minted as int)
            &&& o.pool.reserve_a == pool.reserve_a + a
            &&& o.pool.reserve_b == pool.reserve_b + b
            &&& o.pool.lp_supply == o.lp_minted
            &&& o.lp_balance == lp_balance + o.lp_minted
        },
{
    lemma_everyday_products(a as int, b as int);
    crate::arith::lemma_floor_sqrt(a * b);
    let l = floor_sqrt(a * b);
    assert(l <= a * b) by (nonlinear_arith)
        requires l * l <= a * b, l >= 0, a * b >= 0;
}

/// Everyday withdrawals go through, pro rata: burning `lp_amount` of the
/// provider's `lp_balance` shares pays `(lp_amount * reserve) / supply` of
/// each token, takes those amounts off the reserves and the shares off the
/// supply and the provider's balance.
pub proof fn lemma_pro_rata_withdrawal(pool: PoolState, lp_balance: i128, lp_amount: i128)
    requires
        in_everyday_range(pool.reserve_a as int),
        in_everyday_range(pool.reserve_b as int),
        pool.lp_supply > 0 && in_everyday_range(pool.lp_supply as int),
        in_everyday_range(lp_balance as int),
        0 <= lp_amount <= lp_balance,
    ensures
        remove_liquidity_spec(true, pool, lp_balance, lp_amount) matches Ok(w) && {
            let s = pool.lp_supply as int;
            &&& w.amount_a == (lp_amount * pool.reserve_a) / s
            &&& w.amount_b == (lp_amount * pool.reserve_b) / s
            &&& w.pool.reserve_a == pool.reserve_a - w.amount_a
            &&& w.pool.reserve_b == pool.reserve_b - w.amount_b
            &&& w.pool.lp_supply == s - lp_amount
            &&& w.lp_balance == lp_balance - lp_amount
        },
{
    let s = pool.lp_supply as int;
    lemma_everyday_products(lp_amount as int, pool.reserve_a as int);
    lemma_everyday_products(lp_amount as int, pool.reserve_b as int);
    lemma_div_bounds(lp_amount * pool.reserve_a, s);
    lemma_div_bounds(lp_amount * pool.reserve_b, s);
    let qa = (lp_amount * pool.reserve_a) / s;
    let qb = (lp_amount * pool.reserve_b) / s;
    assert(qa <= lp_amount * pool.reserve_a && qb <= lp_amount * pool.reserve_b) by (nonlinear_arith)
        requires qa * s <= lp_amount * pool.reserve_a, qb * s <= lp_amount * pool.reserve_b, s >= 1, qa >= 0, qb >= 0;
}

/// Everyday swaps are refused for slippage exactly when the constant-product
/// output `(997 * amount_in * reserve_out) / (1000 * reserve_in + 997 *
/// amount_in)` is below the caller's minimum; otherwise they go through,
/// paying that output, adding the input to its reserve and taking the
/// output off the other.
pub proof fn lemma_everyday_swap(pool: PoolState, a_in: bool, amount_in: i128, min_amount_out: i128)
    requires
        pool.reserve_a > 0 && in_everyday_range(pool.reserve_a as int),
        pool.reserve_b > 0 && in_everyday_range(pool.reserve_b as int),
        in_everyday_range(amount_in as int),
    ensures
        ({
            let x = if a_in { pool.reserve_a as int } else { pool.reserve_b as int };
            let y = if a_in { pool.reserve_b as int } else { pool.reserve_a as int };
            let out = (997 * amount_in * y) / (1000 * x + 997 * amount_in);
            &&& (swap_spec(pool, a_in, amount_in, min_amount_out) is Ok) <==> out >= min_amount_out
            &&& out < min_amount_out ==> swap_spec(pool, a_in, amount_in, min_amount_out)
                == Err::<(i128, PoolState), AmmError>(AmmError::SlippageLimitExceeded)
            &&& swap_spec(pool, a_in, amount_in, min_amount_out) matches Ok((o, after)) ==> {
                &&& o == out
                &&& after.lp_supply == pool.lp_supply
                &&& a_in ==> after.reserve_a == x + amount_in && after.reserve_b == y - out
                &&& !a_in ==> after.reserve_b == x + amount_in && after.reserve_a == y - out
            }
        }),
{
    let x = if a_in { pool.reserve_a as int } else { pool.reserve_b as int };
    let y = if a_in { pool.reserve_b as int } else { pool.reserve_a as int };
    let d = amount_in as int;
    lemma_everyday_products(d, y);
    lemma_everyday_products(d, 1);
    lemma_everyday_products(x, 1);
    assert(d * 997 * y == 997 * d * y && d * 997 == 997 * d) by (nonlinear_arith);
    assert(fits_i128(x * 1000) && fits_i128(x * 1000 + d * 997) && x * 1000 + d * 997 > 0) by (nonlinear_arith)
        requires 1 <= x <= 100_000_000_000_000_000, 0 <= d <= 100_000_000_000_000_000;
    lemma_swap_output_bounds(x, y, d);
    assert(swap_output(x, y, d) == (997 * d * y) / (1000 * x + 997 * d));
}

/// A provider can only burn shares it holds: a withdrawal of more shares
/// than the provider's balance is always refused as an insufficient
/// balance, and a withdrawal that goes through lowers the provider's balance
/// by exactly the shares burnt, so a non-negative balance stays
/// non-negative.
pub proof fn lemma_withdrawal_needs_shares(initialized: bool, pool: PoolState, lp_balance: i128, lp_amount: i128)
    ensures
        lp_amount > lp_balance ==> remove_liquidity_spec(initialized, pool, lp_balance, lp_amount)
            == Err::<LiquidityRemoved, AmmError>(AmmError::InsufficientLpBalance),
        remove_liquidity_spec(initialized, pool, lp_balance, lp_amount) matches Ok(w) ==> {
            &&& lp_amount <= lp_balance
            &&& w.lp_balance == lp_balance - lp_amount
            &&& lp_balance >= 0 && lp_amount >= 0 ==> 0 <= w.lp_balance <= lp_balance
        },
{
}

/// Share accounting: every deposit raises the share supply and the
/// provider's balance by the same amount, and every withdrawal lowers both
/// by the shares burnt, so the supply minus the sum of all balances never
/// changes.
pub proof fn lemma_shares_track_balances(pool: PoolState, lp_balance: i128, a: i128, b: i128, lp_amount: i128)
    ensures
        add_liquidity_spec(pool, lp_balance, a, b) matches Ok(o) ==> {
            &&& o.pool.lp_supply - pool.lp_supply == o.lp_minted
            &&& o.lp_balance - lp_balance == o.lp_minted
        },
        remove_liquidity_spec(true, pool, lp_balance, lp_amount) matches Ok(w) ==> {
            &&& pool.lp_supply - w.pool.lp_supply == lp_amount
            &&& lp_balance - w.lp_balance == lp_amount
        },
{
}

/// The first provider of a fresh pool receives `floor(sqrt(a * b))`
/// shares and, by burning all of them, takes back exactly what was
/// deposited; that withdrawal goes through whenever the provider's balance
/// was not negative and the products of the shares with each deposited
/// amount fit the machine integers.
pub proof fn lemma_first_deposit_round_trip(lp_balance: i128, a: i128, b: i128)
    requires
        a > 0,
        b > 0,
        add_liquidity_spec(PoolState { reserve_a: 0, reserve_b: 0, lp_supply: 0 }, lp_balance, a, b) is Ok,
    ensures
        ({
            let o = add_liquidity_spec(PoolState { reserve_a: 0, reserve_b: 0, lp_supply: 0 }, lp_balance, a, b)->Ok_0;
            let w = remove_liquidity_spec(true, o.pool, o.lp_balance, o.lp_minted);
            &&& is_floor_sqrt(a * b, o.lp_minted as int)
            &&& o.amount_a == a && o.amount_b == b
            &&& (lp_balance >= 0 && fits_i128(o.lp_minted * a) && fits_i128(o.lp_minted * b)) ==> w is Ok
            &&& w matches Ok(w) ==> w.amount_a == a && w.amount_b == b
                && w.pool == (PoolState { reserve_a: 0, reserve_b: 0, lp_supply: 0 })
                && w.lp_balance == lp_balance
        }),
{
    let o = add_liquidity_spec(PoolState { reserve_a: 0, reserve_b: 0, lp_supply: 0 }, lp_balance, a, b)->Ok_0;
    let p = a * b;
    crate::arith::lemma_floor_sqrt(p);
    let l = o.lp_minted as int;
    assert(l >= 1) by (nonlinear_arith)
        requires p == a * b, a >= 1, b >= 1, p < (l + 1) * (l + 1), l >= 0;
    vstd::arithmetic::div_mod::lemma_div_multiples_vanish(a as int, l);
    vstd::arithmetic::div_mod::lemma_div_multiples_vanish(b as int, l);
    assert(l * a == a * l && l * b == b * l) by (nonlinear_arith);
}

/// One side of a proportional deposit: `x` of a token with reserve `rx`
/// goes in with the matching `(x * ry) / rx` of the other token, for
/// `(x * s) / rx` new shares; burning those shares afterwards returns no
/// more of either token than went in.
proof fn lemma_matched_deposit_round_trip(x: int, rx: int, ry: int, s: int)
    requires
        x >= 0,
        rx > 0,
        ry >= 0,
        s > 0,
    ensures
        ({
            let y = (x * ry) / rx;
            let l = (x * s) / rx;
            &&& 0 <= y && 0 <= l
            &&& (l * (rx + x)) / (s + l) <= x
            &&& (l * (ry + y)) / (s + l) <= y
            &&& l * (rx + x) >= 0 && l * (ry + y) >= 0
        }),
{
    let y = (x * ry) / rx;
    let l = (x * s) / rx;
    assert(x * ry >= 0 && x * s >= 0) by (nonlinear_arith)
        requires x >= 0, ry >= 0, s > 0;
    lemma_div_bounds(x * ry, rx);
    lemma_div_bounds(x * s, rx);
    assert(l * (rx + x) >= 0 && l * (ry + y) >= 0) by (nonlinear_arith)
        requires l >= 0, rx > 0, x >= 0, ry >= 0, y >= 0;
    assert(l * (rx + x) < (x + 1) * (s + l)) by (nonlinear_arith)
        requires l * rx <= x * s, l >= 0, x >= 0, s > 0;
    lemma_div_at_most(l * (rx + x), s + l, x);
    assert(l * ry * rx < (y + 1) * s * rx) by (nonlinear_arith)
        requires l * rx <= x * s, x * ry < (y + 1) * rx, ry >= 0, s > 0, l >= 0, rx > 0;
    assert(l * ry < (y + 1) * s) by (nonlinear_arith)
        requires l * ry * rx < (y + 1) * s * rx, rx > 0;
    assert(l * (ry + y) < (y + 1) * (s + l)) by (nonlinear_arith)
        requires l * ry < (y + 1) * s, l >= 0, y >= 0;
    lemma_div_at_most(l * (ry + y), s + l, y);
}

/// Deposits into a live pool take no more than offered, and burning the
/// shares a deposit minted returns no more of either token than that
/// deposit put in: adding and then removing liquidity never profits.
pub proof fn lemma_deposit_then_withdraw_never_profits(pool: PoolState, lp_balance: i128, a: i128, b: i128)
    requires
        pool.reserve_a > 0,
        pool.reserve_b > 0,
        pool.lp_supply > 0,
        a >= 0,
        b >= 0,
        add_liquidity_spec(pool, lp_balance, a, b) is Ok,
    ensures
        ({
            let o = add_liquidity_spec(pool, lp_balance, a, b)->Ok_0;
            &&& 0 <= o.amount_a <= a
            &&& 0 <= o.amount_b <= b
            &&& o.lp_minted >= 0
            &&& remove_liquidity_spec(true, o.pool, o.lp_balance, o.lp_minted) matches Ok(w)
                ==> w.amount_a <= o.amount_a && w.amount_b <= o.amount_b
        }),
{
    let ra = pool.reserve_a as int;
    let rb = pool.reserve_b as int;
    let s = pool.lp_supply as int;
    let o = add_liquidity_spec(pool, lp_balance, a, b)->Ok_0;
    assert(a * rb >= 0) by (nonlinear_arith)
        requires a >= 0, rb > 0;
    lemma_div_bounds(a * rb, ra);
    if (a * rb) / ra <= b {
        lemma_matched_deposit_round_trip(a as int, ra, rb, s);
    } else {
        lemma_matched_deposit_round_trip(b as int, rb, ra, s);
        assert(b * ra >= 0) by (nonlinear_arith)
            requires b >= 0, ra > 0;
        lemma_div_bounds(b * ra, rb);
        assert(b * ra < a * rb) by (nonlinear_arith)
            requires (a * rb) / ra >= b + 1, ((a * rb) / ra) * ra <= a * rb, ra > 0;
        assert(b * ra < (a + 1) * rb) by (nonlinear_arith)
            requires b * ra < a * rb, rb > 0;
        lemma_div_at_most(b * ra, rb, a as int);
    }
}

/// Namespace of the liquidity pool's entry points.
pub struct ConstantProductAMM;

impl ConstantProductAMM {

    /// Sets up the pool for a pair of tokens, stored in canonical order
    /// (the lower address first), with empty reserves and no shares.
    /// Rejected if the pool already has its tokens.
    pub fn initialize(existing: &Option<PoolTokens>, token_a: Account, token_b: Account) -> (r: Result<(PoolTokens, PoolState), AmmError>)
        ensures
            existing.is_some() ==> r == Err::<(PoolTokens, PoolState), AmmError>(AmmError::AlreadyInitialized),
            existing.is_none() ==> (r matches Ok((tokens, pool)) && {
                &&& pool == (PoolState { reserve_a: 0, reserve_b: 0, lp_supply: 0 })
                &&& lex_lt(token_a@, token_b@) ==> tokens.token_a@ == token_a@ && tokens.token_b@ == token_b@
                &&& !lex_lt(token_a@, token_b@) ==> tokens.token_a@ == token_b@ && tokens.token_b@ == token_a@
            }),
    {
        if existing.is_some() {
            return Err(AmmError::AlreadyInitialized);
        }
        let tokens = if token_a.precedes(&token_b) {
            PoolTokens { token_a, token_b }
        } else {
            PoolTokens { token_a: token_b, token_b: token_a }
        };
        Ok((tokens, PoolState { reserve_a: 0, reserve_b: 0, lp_supply: 0 }))
    }

    /// Deposits up to `amount_a_desired` and `amount_b_desired` from a
    /// provider holding `lp_balance` shares. The first deposit (no shares
    /// issued) takes both amounts and mints the floor of the square root of
    /// their product; later deposits keep the reserve ratio, taking all of one
    /// side and the matching amount of the other, and mint shares in
    /// proportion.
    pub fn add_liquidity(
        tokens: &Option<PoolTokens>,
        pool: PoolState,
        lp_balance: i128,
        amount_a_desired: i128,
        amount_b_desired: i128,
    ) -> (r: Result<LiquidityAdded, AmmError>)
        ensures
            r == (if tokens.is_none() {
                Err(AmmError::NotInitialized)
            } else {
                add_liquidity_spec(pool, lp_balance, amount_a_desired, amount_b_desired)
            }),
    {
        if tokens.is_none() {
            return Err(AmmError::NotInitialized);
        }
        let a = amount_a_desired;
        let b = amount_b_desired;
        let (amount_a, amount_b, lp) = if pool.lp_supply == 0 {
            let p = mul_or_fail(a, b)?;
            if p < 0 {
                return Err(AmmError::NegativeSqrt);
            }
            let lp = Self::sqrt(p);
            proof {
                lemma_floor_sqrt_unique(p as int, lp as int);
            }
            (a, b, lp)
        } else {
            let t = mul_or_fail(a, pool.reserve_b)?;
            let b_optimal = div_or_fail(t, pool.reserve_a)?;
            if b_optimal <= b {
                let u = mul_or_fail(a, pool.lp_supply)?;
                let lp = div_or_fail(u, pool.reserve_a)?;
                (a, b_optimal, lp)
            } else {
                let v = mul_or_fail(b, pool.reserve_a)?;
                let a_optimal = div_or_fail(v, pool.reserve_b)?;
                let w = mul_or_fail(b, pool.lp_supply)?;
                let lp = div_or_fail(w, pool.reserve_b)?;
                (a_optimal, b, lp)
            }
        };
        assert(deposit_amounts(pool, a, b) == Ok::<(int, int, int), AmmError>((amount_a as int, amount_b as int, lp as int)));
        let reserve_a = add_or_fail(pool.reserve_a, amount_a)?;
        let reserve_b = add_or_fail(pool.reserve_b, amount_b)?;
        let lp_supply = add_or_fail(pool.lp_supply, lp)?;
        let balance = add_or_fail(lp_balance, lp)?;
        Ok(LiquidityAdded {
            amount_a,
            amount_b,
            lp_minted: lp,
            pool: PoolState { reserve_a, reserve_b, lp_supply },
            lp_balance: balance,
        })
    }

    /// Burns `lp_amount` of a provider's shares and pays out the matching
    /// fraction of each reserve, rounded toward zero.
    pub fn remove_liquidity(
        tokens: &Option<PoolTokens>,
        pool: PoolState,
        lp_balance: i128,
        lp_amount: i128,
    ) -> (r: Result<LiquidityRemoved, AmmError>)
        ensures
            r == remove_liquidity_spec(tokens.is_some(), pool, lp_balance, lp_amount),
    {
        if lp_balance < lp_amount {
            return Err(AmmError::InsufficientLpBalance);
        }
        if tokens.is_none() {
            return Err(AmmError::NotInitialized);
        }
        let pa = mul_or_fail(lp_amount, pool.reserve_a)?;
        let amount_a = div_or_fail(pa, pool.lp_supply)?;
        let pb = mul_or_fail(lp_amount, pool.reserve_b)?;
        let amount_b = div_or_fail(pb, pool.lp_supply)?;
        let reserve_a = sub_or_fail(pool.reserve_a, amount_a)?;
        let reserve_b = sub_or_fail(pool.reserve_b, amount_b)?;
        let lp_supply = sub_or_fail(pool.lp_supply, lp_amount)?;
        let balance = sub_or_fail(lp_balance, lp_amount)?;
        Ok(LiquidityRemoved {
            amount_a,
            amount_b,
            pool: PoolState { reserve_a, reserve_b, lp_supply },
            lp_balance: balance,
        })
    }

    /// Pays `amount_in` of `token_in` into the pool and takes out the other
    /// token by the constant-product formula with a 0.3% fee. Rejected if
    /// `token_in` is neither pooled token or the output falls below
    /// `min_amount_out`.
    pub fn swap(
        tokens: &Option<PoolTokens>,
        pool: PoolState,
        token_in: &Account,
        amount_in: i128,
        min_amount_out: i128,
    ) -> (r: Result<SwapOutcome, AmmError>)
        ensures
            match tokens {
                None => r == Err::<SwapOutcome, AmmError>(AmmError::NotInitialized),
                Some(t) => if token_in@ == t.token_a@ {
                    &&& swap_numbers(r) == swap_spec(pool, true, amount_in, min_amount_out)
                    &&& r matches Ok(o) ==> o.a_in && o.token_out@ == t.token_b@
                } else if token_in@ == t.token_b@ {
                    &&& swap_numbers(r) == swap_spec(pool, false, amount_in, min_amount_out)
                    &&& r matches Ok(o) ==> !o.a_in && o.token_out@ == t.token_a@
                } else {
                    r == Err::<SwapOutcome, AmmError>(AmmError::InvalidToken)
                },
            },
    {
        let t = match tokens {
            None => return Err(AmmError::NotInitialized),
            Some(t) => t,
        };
        let a_in = if token_in.same_as(&t.token_a) {
            true
        } else if token_in.same_as(&t.token_b) {
            false
        } else {
            return Err(AmmError::InvalidToken);
        };
        let (reserve_in, reserve_out) = if a_in {
            (pool.reserve_a, pool.reserve_b)
        } else {
            (pool.reserve_b, pool.reserve_a)
        };
        let with_fee = mul_or_fail(amount_in, 997)?;
        let numerator = mul_or_fail(with_fee, reserve_out)?;
        let scaled_in = mul_or_fail(reserve_in, 1000)?;
        let denominator = add_or_fail(scaled_in, with_fee)?;
        let amount_out = div_or_fail(numerator, denominator)?;
        if amount_out < min_amount_out {
            return Err(AmmError::SlippageLimitExceeded);
        }
        let new_pool = if a_in {
            let new_in = add_or_fail(reserve_in, amount_in)?;
            let new_out = sub_or_fail(reserve_out, amount_out)?;
            PoolState { reserve_a: new_in, reserve_b: new_out, lp_supply: pool.lp_supply }
        } else {
            let new_out = sub_or_fail(reserve_out, amount_out)?;
            let new_in = add_or_fail(reserve_in, amount_in)?;
            PoolState { reserve_a: new_out, reserve_b: new_in, lp_supply: pool.lp_supply }
        };
        let token_out = if a_in { t.token_b.duplicate() } else { t.token_a.duplicate() };
        Ok(SwapOutcome { a_in, amount_out, token_out, pool: new_pool })
    }

    /// The reserves and the number of shares issued.
    pub fn get_pool_info(pool: &PoolState) -> (r: (i128, i128, i128))
        ensures
            r == (pool.reserve_a, pool.reserve_b, pool.lp_supply),
    {
        (pool.reserve_a, pool.reserve_b, pool.lp_supply)
    }
    /// Integer square root by Newton's iteration: the largest `r` with
    /// `r * r <= y`.
    pub fn sqrt(y: i128) -> (r: i128)
        requires
            y >= 0,
        ensures
            is_floor_sqrt(y as int, r as int),
    {
        if y < 4 {
            if y == 0 {
                return 0;
            }
            return 1;
        }
        let mut z = y;
        let mut x = y / 2 + 1;
        proof {
            assert forall|r: int| #[trigger] root_candidate(y as int, r) implies r <= x && r <= z by {
                lemma_newton_stays_above_roots(y as int, 2, r);
                assert((y / 2 + 2) / 2 <= y / 2 + 1);
            }
            assert(root_candidate(y as int, 2));
        }
        while x < z
            invariant
                4 <= y,
                0 <= z <= y,
                2 <= x,
                forall|r: int| #[trigger] root_candidate(y as int, r) ==> r <= x && r <= z,
                (z == y && x == y / 2 + 1) || (z <= y / 2 + 1 && x == (y / z + z) / 2),
            decreases z,
        {
            proof {
                assert(root_candidate(y as int, 2));
                lemma_newton_sum_fits(y as int, x as int);
            }
            z = x;
            x = (y / x + x) / 2;
            proof {
                assert forall|r: int| #[trigger] root_candidate(y as int, r) implies r <= x by {
                    lemma_newton_stays_above_roots(y as int, z as int, r);
                }
                assert(root_candidate(y as int, 2));
            }
        }
        proof {
            assert(x == (y / z + z) / 2);
            if z * z > y {
                lemma_newton_decreases(y as int, z as int);
            }
            assert(root_candidate(y as int, z as int));
            if (z + 1) * (z + 1) <= y {
                assert(root_candidate(y as int, z + 1));
            }
        }
        z
    }
}

} // verus!
