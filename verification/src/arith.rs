use vstd::prelude::*;

verus! {

/// Whether a mathematical integer is representable as an `i128`.
pub open spec fn fits_i128(x: int) -> bool {
    i128::MIN <= x <= i128::MAX
}

/// Integer division rounding toward zero, as `/` on machine integers does.
pub open spec fn tdiv(x: int, d: int) -> int {
    if x >= 0 {
        if d > 0 { x / d } else { -(x / (-d)) }
    } else {
        if d > 0 { -((-x) / d) } else { (-x) / (-d) }
    }
}

/// Floor of the square root: the largest `r` with `r * r <= y`.
pub open spec fn is_floor_sqrt(y: int, r: int) -> bool {
    &&& 0 <= r
    &&& r * r <= y
    &&& y < (r + 1) * (r + 1)
}

/// The floor of the square root of a non-negative integer, counted up from zero.
pub open spec fn floor_sqrt(y: int) -> int
    decreases y,
{
    if y <= 0 {
        0
    } else {
        let r = floor_sqrt(y - 1);
        if (r + 1) * (r + 1) <= y { r + 1 } else { r }
    }
}

/// `floor_sqrt` is the floor of the square root.
pub proof fn lemma_floor_sqrt(y: int)
    requires
        y >= 0,
    ensures
        is_floor_sqrt(y, floor_sqrt(y)),
    decreases y,
{
    if y > 0 {
        lemma_floor_sqrt(y - 1);
        let r = floor_sqrt(y - 1);
        if (r + 1) * (r + 1) <= y {
            assert((r + 1) * (r + 1) < (r + 2) * (r + 2)) by (nonlinear_arith)
                requires r >= 0;
        }
    }
}

/// There is only one floor of the square root.
pub proof fn lemma_floor_sqrt_unique(y: int, r: int)
    requires
        y >= 0,
        is_floor_sqrt(y, r),
    ensures
        r == floor_sqrt(y),
{
    lemma_floor_sqrt(y);
    let s = floor_sqrt(y);
    if r < s {
        assert((r + 1) * (r + 1) <= s * s) by (nonlinear_arith)
            requires r + 1 <= s, r >= 0;
    } else if s < r {
        assert((s + 1) * (s + 1) <= r * r) by (nonlinear_arith)
            requires s + 1 <= r, s >= 0;
    }
}

/// Floor division of a non-negative by a positive number: the quotient is
/// non-negative and the largest `q` with `q * d <= n`.
pub proof fn lemma_div_bounds(n: int, d: int)
    requires
        n >= 0,
        d > 0,
    ensures
        0 <= n / d,
        (n / d) * d <= n,
        n < (n / d + 1) * d,
{
    vstd::arithmetic::div_mod::lemma_fundamental_div_mod(n, d);
    vstd::arithmetic::div_mod::lemma_div_pos_is_pos(n, d);
    let q = n / d;
    assert(q * d == d * q) by (nonlinear_arith);
    assert((q + 1) * d == q * d + d) by (nonlinear_arith);
}

/// `n / d <= k` as soon as `n < (k + 1) * d`.
pub proof fn lemma_div_at_most(n: int, d: int, k: int)
    requires
        n >= 0,
        d > 0,
        n < (k + 1) * d,
    ensures
        n / d <= k,
{
    lemma_div_bounds(n, d);
    let q = n / d;
    if q > k {
        assert(q * d >= (k + 1) * d) by (nonlinear_arith)
            requires q >= k + 1, d > 0;
    }
}

} // verus!
