//! Constant-product pricing: pure functions computing minted liquidity,
//! equivalent counter-token amounts, and pro-rata redemption outputs.
//!
//! All arithmetic is unsigned integer arithmetic; multiplication is performed
//! before division so rounding behaviour is exact, and callers must rule out
//! overflow and zero divisors up front.

use vstd::prelude::*;

use vstd::arithmetic::div_mod::{lemma_div_by_multiple, lemma_div_is_ordered, lemma_div_pos_is_pos};
use vstd::arithmetic::mul::{lemma_mul_inequality, lemma_mul_nonnegative};

use crate::TokenAmount;

verus! {

/// The largest `k <= r` with `k * k <= n`, or zero when there is none.
pub open spec fn sqrt_upto(n: int, r: int) -> int
    decreases r,
{
    if r <= 0 {
        0
    } else if r * r <= n {
        r
    } else {
        sqrt_upto(n, r - 1)
    }
}

/// The integer square root: the largest `s` with `s * s <= n`.
pub open spec fn spec_sqrt(n: int) -> int {
    sqrt_upto(n, n)
}

proof fn lemma_sqrt_upto(n: int, r: int)
    requires
        0 <= n,
        0 <= r,
    ensures
        0 <= sqrt_upto(n, r) <= r,
        sqrt_upto(n, r) * sqrt_upto(n, r) <= n,
        sqrt_upto(n, r) < r ==> n < (sqrt_upto(n, r) + 1) * (sqrt_upto(n, r) + 1),
    decreases r,
{
    if r == 0 {
    } else if r * r <= n {
    } else {
        lemma_sqrt_upto(n, r - 1);
        let s = sqrt_upto(n, r - 1);
        if s == r - 1 {
            assert(n < (s + 1) * (s + 1));
        }
    }
}

/// The defining properties of [`spec_sqrt`]: it is the unique nonnegative `s`
/// with `s * s <= n < (s + 1) * (s + 1)`, and it is zero exactly on zero.
pub proof fn lemma_spec_sqrt(n: int)
    requires
        0 <= n,
    ensures
        0 <= spec_sqrt(n),
        spec_sqrt(n) * spec_sqrt(n) <= n,
        n < (spec_sqrt(n) + 1) * (spec_sqrt(n) + 1),
        spec_sqrt(n) == 0 <==> n == 0,
{
    lemma_sqrt_upto(n, n);
    let s = spec_sqrt(n);
    if s == n {
        assert(n * n <= n);
        assert(n <= 1) by (nonlinear_arith)
            requires
                0 <= n,
                n * n <= n,
        ;
        assert(n < (s + 1) * (s + 1)) by (nonlinear_arith)
            requires
                0 <= n <= 1,
                s == n,
        ;
    }
    if s == 0 {
        assert(n < 1 * 1);
    } else {
        assert(1 <= s * s) by (nonlinear_arith)
            requires
                1 <= s,
        ;
    }
}

/// Two nonnegative integers whose squares bracket `n` the same way are equal.
pub proof fn lemma_sqrt_unique(n: int, r: int)
    requires
        0 <= r,
        r * r <= n,
        n < (r + 1) * (r + 1),
    ensures
        r == spec_sqrt(n),
{
    lemma_mul_nonnegative(r, r);
    lemma_spec_sqrt(n);
    let s = spec_sqrt(n);
    if r < s {
        lemma_mul_inequality(r + 1, s, r + 1);
        lemma_mul_inequality(r + 1, s, s);
        assert((r + 1) * (r + 1) <= s * s);
    } else if s < r {
        lemma_mul_inequality(s + 1, r, s + 1);
        lemma_mul_inequality(s + 1, r, r);
        assert((s + 1) * (s + 1) <= r * r);
    }
}

/// Floor of the square root of `n`, by binary search over the 64-bit range
/// that any `u128` square root fits in.
pub fn u128_sqrt(n: u128) -> (r: u128)
    ensures
        r == spec_sqrt(n as int),
        r * r <= n,
        (n as int) < (r + 1) * (r + 1),
{
    let mut lo: u128 = 0;
    let mut hi: u128 = 0x1_0000_0000_0000_0000;
    proof {
        assert((hi as int) * (hi as int) == 0x1_0000_0000_0000_0000_0000_0000_0000_0000int);
    }
    while hi - lo > 1
        invariant
            lo < hi,
            hi <= 0x1_0000_0000_0000_0000u128,
            (lo as int) * (lo as int) <= n as int,
            (n as int) < (hi as int) * (hi as int),
        decreases hi - lo,
    {
        let mid = lo + (hi - lo) / 2;
        proof {
            assert(lo < mid < hi);
            assert((mid as int) * (mid as int) <= u128::MAX as int) by (nonlinear_arith)
                requires
                    mid < 0x1_0000_0000_0000_0000u128,
            ;
        }
        if mid * mid <= n {
            lo = mid;
        } else {
            hi = mid;
        }
    }
    proof {
        lemma_sqrt_unique(n as int, lo as int);
    }
    lo
}

/// Liquidity minted for the very first provision: the floor of the square
/// root of the product of the two amounts. Used only when both reserves are
/// empty; the caller must reject a zero result.
pub fn initial_liquidity_tokens(token_a_amount: TokenAmount, token_b_amount: TokenAmount) -> (r:
    TokenAmount)
    requires
        token_a_amount * token_b_amount <= u128::MAX,
    ensures
        r == spec_sqrt(token_a_amount * token_b_amount),
        r * r <= token_a_amount * token_b_amount,
        token_a_amount * token_b_amount < (r + 1) * (r + 1),
        r == 0 <==> token_a_amount * token_b_amount == 0,
    {
    proof {
        lemma_spec_sqrt(token_a_amount * token_b_amount);
    }
    u128_sqrt(token_a_amount * token_b_amount)
}

/// The equivalent counter-token amount and the minted liquidity for providing
/// `token_in_amount` against reserves `(token_in_pool, token_out_pool)` and
/// an outstanding share supply of `total_minted_liquidity`.
///
/// For a nonzero input the counter amount is `floor(in * out_pool / in_pool)
/// + 1`: rounding deliberately biased upward, in the pool's favor, so a
/// depositor can never extract value through rounding. The minted liquidity
/// is `floor(in * supply / in_pool)`, rounded down.
pub fn calculate_equivalent_and_minted_tokens(
    token_in_amount: TokenAmount,
    token_in_pool: TokenAmount,
    token_out_pool: TokenAmount,
    total_minted_liquidity: TokenAmount,
) -> (r: (TokenAmount, TokenAmount))
    requires
        token_in_pool > 0,
        token_in_amount * token_out_pool <= u128::MAX,
        token_in_amount > 0 ==> token_in_amount * token_out_pool / token_in_pool as int + 1 <= u128::MAX,
        token_in_amount * total_minted_liquidity <= u128::MAX,
    ensures
        r.0 == if token_in_amount > 0 {
            token_in_amount * token_out_pool / token_in_pool as int + 1
        } else {
            0
        },
        r.1 == token_in_amount * total_minted_liquidity / token_in_pool as int,
        token_in_amount > 0 ==> r.0 >= token_in_amount * token_out_pool / token_in_pool as int + 1,
{
    // Handle zero-case
    let token_out_equivalent: TokenAmount = if token_in_amount > 0 {
        (token_in_amount * token_out_pool / token_in_pool) + 1
    } else {
        0
    };
    let minted_liquidity_tokens: TokenAmount = token_in_amount * total_minted_liquidity
        / token_in_pool;
    (token_out_equivalent, minted_liquidity_tokens)
}

/// Pro-rata redemption of `liquidity_token_amount` shares out of
/// `minted_liquidity` outstanding, against reserves `(pool_a, pool_b)`. Each
/// output is `floor(reserve * shares / supply)`: rounded down, so the pool
/// never pays out more than the pro-rata share and any remainder stays in
/// reserve.
pub fn calculate_reclaim_output(
    liquidity_token_amount: TokenAmount,
    pool_a: TokenAmount,
    pool_b: TokenAmount,
    minted_liquidity: TokenAmount,
) -> (r: (TokenAmount, TokenAmount))
    requires
        minted_liquidity > 0,
        pool_a * liquidity_token_amount <= u128::MAX,
        pool_b * liquidity_token_amount <= u128::MAX,
    ensures
        r.0 == pool_a * liquidity_token_amount / minted_liquidity as int,
        r.1 == pool_b * liquidity_token_amount / minted_liquidity as int,
{
    let a_output = pool_a * liquidity_token_amount / minted_liquidity;
    let b_output = pool_b * liquidity_token_amount / minted_liquidity;
    (a_output, b_output)
}

/// Redemption is pro rata: for any share amount up to the outstanding supply,
/// each output is at most the corresponding reserve, and redeeming the whole
/// supply drains both reserves exactly.
pub proof fn lemma_redeem_pro_rata(liquidity: int, pool_a: int, pool_b: int, total: int)
    requires
        0 <= liquidity <= total,
        0 < total,
        0 <= pool_a,
        0 <= pool_b,
    ensures
        0 <= pool_a * liquidity / total <= pool_a,
        0 <= pool_b * liquidity / total <= pool_b,
        liquidity == total ==> pool_a * liquidity / total == pool_a,
        liquidity == total ==> pool_b * liquidity / total == pool_b,
{
    lemma_mul_nonnegative(pool_a, liquidity);
    lemma_mul_nonnegative(pool_b, liquidity);
    lemma_div_pos_is_pos(pool_a * liquidity, total);
    lemma_div_pos_is_pos(pool_b * liquidity, total);
    lemma_mul_inequality(liquidity, total, pool_a);
    lemma_mul_inequality(liquidity, total, pool_b);
    lemma_div_is_ordered(pool_a * liquidity, pool_a * total, total);
    lemma_div_is_ordered(pool_b * liquidity, pool_b * total, total);
    lemma_div_by_multiple(pool_a, total);
    lemma_div_by_multiple(pool_b, total);
}

} // verus!
