use vstd::prelude::*;
use vstd::arithmetic::div_mod::lemma_div_is_ordered;
use crate::pools::curve::{amount_out_spec, get_amount_out, input_after_fee, lemma_pow10_positive, pow10, k, k_spec, scaled, stable_in_range, STABLE_UNIT};
use crate::pools::errors::ErrorCode;
use crate::pools::pair::Pair;

verus! {

/// Token movements of an accepted swap. Of each input, `fee_*` goes to the pair's fee
/// account and `into_reserve_*` to the reserve; the reserves pay out `amount_out_*`.
#[derive(Clone, Copy, Debug)]
pub struct Swap {
    pub fee_a: u64,
    pub fee_b: u64,
    pub into_reserve_a: u64,
    pub into_reserve_b: u64,
    pub amount_out_a: u64,
    pub amount_out_b: u64,
}

/// The 0.1% skimmed from an input to the fee account before pricing.
pub open spec fn fee_spec(amount_in: int) -> int {
    amount_in / 1000
}

/// Reserve A after a swap: it loses the A bought with B and gains the A paid in, less the fee.
pub open spec fn new_reserve_a(reserve_a: int, reserve_b: int, amount_in_a: int, amount_in_b: int) -> int {
    reserve_a - amount_out_spec(amount_in_b, reserve_b, reserve_a) + amount_in_a - fee_spec(amount_in_a)
}

/// Reserve B after a swap, symmetric to `new_reserve_a`.
pub open spec fn new_reserve_b(reserve_a: int, reserve_b: int, amount_in_a: int, amount_in_b: int) -> int {
    reserve_b - amount_out_spec(amount_in_a, reserve_a, reserve_b) + amount_in_b - fee_spec(amount_in_b)
}

/// Outcome of a swap: the amounts of A and B paid out, or the error.
pub open spec fn swap_spec(
    reserve_a: int,
    reserve_b: int,
    decimals_a: int,
    decimals_b: int,
    stable: bool,
    amount_in_a: int,
    amount_in_b: int,
    min_out_a: int,
    min_out_b: int,
) -> Result<(int, int), ErrorCode> {
    if amount_in_a == 0 && amount_in_b == 0 {
        Err(ErrorCode::InsufficientInput)
    } else if min_out_a > reserve_a || min_out_b > reserve_b {
        Err(ErrorCode::InsufficientLiquidity)
    } else if k_spec(
        new_reserve_a(reserve_a, reserve_b, amount_in_a, amount_in_b),
        decimals_a,
        new_reserve_b(reserve_a, reserve_b, amount_in_a, amount_in_b),
        decimals_b,
        stable,
    ) < k_spec(reserve_a, decimals_a, reserve_b, decimals_b, stable) {
        Err(ErrorCode::InvariantK)
    } else {
        Ok((amount_out_spec(amount_in_b, reserve_b, reserve_a), amount_out_spec(amount_in_a, reserve_a, reserve_b)))
    }
}

/// The swap's arithmetic fits its machine types: each reserve can take in its input, and
/// a stable pair's invariant fits in 128 bits up to those amounts.
pub open spec fn swap_in_range(
    reserve_a: int,
    reserve_b: int,
    decimals_a: int,
    decimals_b: int,
    stable: bool,
    amount_in_a: int,
    amount_in_b: int,
) -> bool {
    &&& reserve_a + amount_in_a <= u64::MAX
    &&& reserve_b + amount_in_b <= u64::MAX
    &&& stable ==> stable_in_range(reserve_a + amount_in_a, decimals_a, reserve_b + amount_in_b, decimals_b)
}

proof fn lemma_scaled_monotone(x: int, y: int, decimals: int)
    requires
        0 <= x <= y,
        decimals >= 0,
    ensures
        scaled(x, decimals) <= scaled(y, decimals),
{
    assert(x * STABLE_UNIT as int <= y * STABLE_UNIT as int) by (nonlinear_arith)
        requires x <= y;
    lemma_pow10_positive(decimals as nat);
    lemma_div_is_ordered(x * STABLE_UNIT as int, y * STABLE_UNIT as int, pow10(decimals as nat) as int);
}

/// Trades `amount_in_a` of A and `amount_in_b` of B, both at once if both are non-zero,
/// against the pair's reserves. `decimals_a` and `decimals_b` are the mints' decimals,
/// which the stable curve reads.
pub fn swap_exact_input(
    pair: &Pair,
    reserve_a: u64,
    reserve_b: u64,
    decimals_a: u8,
    decimals_b: u8,
    amount_in_a: u64,
    amount_in_b: u64,
    min_out_a: u64,
    min_out_b: u64,
) -> (r: Result<Swap, ErrorCode>)
    requires
        swap_in_range(
            reserve_a as int,
            reserve_b as int,
            decimals_a as int,
            decimals_b as int,
            pair.stable,
            amount_in_a as int,
            amount_in_b as int,
        ),
    ensures
        swap_spec(
            reserve_a as int,
            reserve_b as int,
            decimals_a as int,
            decimals_b as int,
            pair.stable,
            amount_in_a as int,
            amount_in_b as int,
            min_out_a as int,
            min_out_b as int,
        ) == (match r {
            Ok(s) => Ok((s.amount_out_a as int, s.amount_out_b as int)),
            Err(e) => Err(e),
        }),
        r matches Ok(s) ==> {
            &&& s.fee_a == fee_spec(amount_in_a as int)
            &&& s.fee_b == fee_spec(amount_in_b as int)
            &&& s.into_reserve_a == amount_in_a - fee_spec(amount_in_a as int)
            &&& s.into_reserve_b == amount_in_b - fee_spec(amount_in_b as int)
        },
{
    if amount_in_a == 0 && amount_in_b == 0 {
        return Err(ErrorCode::InsufficientInput);
    }
    if min_out_a > reserve_a || min_out_b > reserve_b {
        return Err(ErrorCode::InsufficientLiquidity);
    }
    let fee_a = amount_in_a / 1000;
    let fee_b = amount_in_b / 1000;
    let amount_out_a = get_amount_out(amount_in_b, reserve_b, reserve_a);
    let amount_out_b = get_amount_out(amount_in_a, reserve_a, reserve_b);
    let new_a = reserve_a - amount_out_a + (amount_in_a - fee_a);
    let new_b = reserve_b - amount_out_b + (amount_in_b - fee_b);
    proof {
        if pair.stable {
            lemma_scaled_monotone(new_a as int, reserve_a + amount_in_a, decimals_a as int);
            lemma_scaled_monotone(reserve_a as int, reserve_a + amount_in_a, decimals_a as int);
            lemma_scaled_monotone(new_b as int, reserve_b + amount_in_b, decimals_b as int);
            lemma_scaled_monotone(reserve_b as int, reserve_b + amount_in_b, decimals_b as int);
        }
    }
    let k_after = k(new_a, decimals_a, new_b, decimals_b, pair.stable);
    let k_before = k(reserve_a, decimals_a, reserve_b, decimals_b, pair.stable);
    if k_after < k_before {
        return Err(ErrorCode::InvariantK);
    }
    Ok(Swap {
        fee_a,
        fee_b,
        into_reserve_a: amount_in_a - fee_a,
        into_reserve_b: amount_in_b - fee_b,
        amount_out_a,
        amount_out_b,
    })
}

/// What an output of the pricing formula satisfies once its denominator is cleared.
proof fn lemma_amount_out_bound(amount_in: u64, reserve_in: u64, reserve_out: u64)
    ensures
        ({
            let x = input_after_fee(amount_in as int);
            let out = amount_out_spec(amount_in as int, reserve_in as int, reserve_out as int);
            &&& 0 <= out <= reserve_out
            &&& out * (reserve_in * 1000 + x) <= x * reserve_out
        }),
{
    let x = input_after_fee(amount_in as int);
    let out = amount_out_spec(amount_in as int, reserve_in as int, reserve_out as int);
    let ro = reserve_out as int;
    if x > 0 {
        let d = reserve_in * 1000 + x;
        let n = x * ro;
        assert(n >= 0) by (nonlinear_arith)
            requires n == x * ro, x > 0, ro >= 0;
        vstd::arithmetic::div_mod::lemma_fundamental_div_mod(n, d);
        assert(out * d <= n) by (nonlinear_arith)
            requires out == n / d, d > 0, n == d * (n / d) + n % d, n % d >= 0;
        vstd::arithmetic::div_mod::lemma_div_pos_is_pos(n, d);
        vstd::arithmetic::div_mod::lemma_div_is_ordered_by_denominator(n, x, d);
        vstd::arithmetic::div_mod::lemma_multiply_divide_le(n, x, ro);
    }
}

/// The core inequality behind the volatile invariant: after clearing the pricing
/// denominators `da` and `db`, what is left of each reserve plus the priced inputs still
/// spans the old product.
proof fn lemma_cleared_product(ra: int, rb: int, xa: int, xb: int, a: int, b: int)
    requires
        ra > 0,
        rb > 0,
        xa >= 0,
        xb >= 0,
        a >= 0,
        b >= 0,
        a * (1000 * rb + xb) >= 1000 * (ra * rb),
        b * (1000 * ra + xa) >= 1000 * (ra * rb),
    ensures
        a * b + a * xb + b * xa >= ra * rb,
{
    let r = ra * rb;
    let da = 1000 * ra + xa;
    let db = 1000 * rb + xb;
    let ad = a * db;
    let bd = b * da;
    assert(r > 0) by (nonlinear_arith)
        requires r == ra * rb, ra > 0, rb > 0;
    assert(ad * bd >= (1000 * r) * (1000 * r)) by (nonlinear_arith)
        requires ad >= 1000 * r, bd >= 1000 * r, r > 0;
    assert(ad * (xb * da) >= (1000 * r) * (xb * da)) by (nonlinear_arith)
        requires ad >= 1000 * r, xb >= 0, da > 0;
    assert(bd * (xa * db) >= (1000 * r) * (xa * db)) by (nonlinear_arith)
        requires bd >= 1000 * r, xa >= 0, db > 0;
    let lhs = a * b + a * xb + b * xa;
    let m = da * db;
    assert(m * lhs == m * (a * b) + m * (a * xb) + m * (b * xa)) by (nonlinear_arith)
        requires lhs == a * b + a * xb + b * xa;
    assert(m * (a * b) == ad * bd) by (nonlinear_arith)
        requires ad == a * db, bd == b * da, m == da * db;
    assert(m * (a * xb) == ad * (xb * da)) by (nonlinear_arith)
        requires ad == a * db, m == da * db;
    assert(m * (b * xa) == bd * (xa * db)) by (nonlinear_arith)
        requires bd == b * da, m == da * db;
    assert(da * db * lhs == ad * bd + ad * (xb * da) + bd * (xa * db));
    assert((1000 * r) * (1000 * r) + (1000 * r) * (xb * da) + (1000 * r) * (xa * db) >= da * db * r) by (nonlinear_arith)
        requires
            r == ra * rb,
            da == 1000 * ra + xa,
            db == 1000 * rb + xb,
            r > 0,
            ra > 0,
            rb > 0,
            xa >= 0,
            xb >= 0,
    ;
    assert(lhs >= r) by (nonlinear_arith)
        requires
            da * db * lhs >= da * db * r,
            da > 0,
            db > 0,
    ;
}

/// On a volatile pair no swap lowers the product of the reserves, one-sided or both ways
/// at once: the invariant check never refuses one.
pub proof fn lemma_volatile_swap_never_breaks_product(reserve_a: u64, reserve_b: u64, amount_in_a: u64, amount_in_b: u64)
    ensures
        new_reserve_a(reserve_a as int, reserve_b as int, amount_in_a as int, amount_in_b as int)
            * new_reserve_b(reserve_a as int, reserve_b as int, amount_in_a as int, amount_in_b as int)
            >= reserve_a * reserve_b,
{
    let ra = reserve_a as int;
    let rb = reserve_b as int;
    let xa = input_after_fee(amount_in_a as int);
    let xb = input_after_fee(amount_in_b as int);
    let paid_a = amount_in_a - fee_spec(amount_in_a as int);
    let paid_b = amount_in_b - fee_spec(amount_in_b as int);
    let u = amount_out_spec(amount_in_b as int, rb, ra);
    let v = amount_out_spec(amount_in_a as int, ra, rb);
    lemma_amount_out_bound(amount_in_b, reserve_b, reserve_a);
    lemma_amount_out_bound(amount_in_a, reserve_a, reserve_b);
    assert(0 <= xa <= paid_a && 0 <= xb <= paid_b);
    let a = ra - u;
    let b = rb - v;
    let p = new_reserve_a(ra, rb, amount_in_a as int, amount_in_b as int);
    let q = new_reserve_b(ra, rb, amount_in_a as int, amount_in_b as int);
    assert(p == a + paid_a && q == b + paid_b);
    if ra == 0 || rb == 0 {
        assert(p * q >= 0) by (nonlinear_arith)
            requires p >= 0, q >= 0;
        assert(ra * rb == 0) by (nonlinear_arith)
            requires ra == 0 || rb == 0;
    } else {
        assert(a * (1000 * rb + xb) >= 1000 * (ra * rb)) by (nonlinear_arith)
            requires u * (rb * 1000 + xb) <= xb * ra, a == ra - u;
        assert(b * (1000 * ra + xa) >= 1000 * (ra * rb)) by (nonlinear_arith)
            requires v * (ra * 1000 + xa) <= xa * rb, b == rb - v;
        lemma_cleared_product(ra, rb, xa, xb, a, b);
        assert(p * q >= a * b + a * xb + b * xa) by (nonlinear_arith)
            requires
                p == a + paid_a,
                q == b + paid_b,
                paid_a >= xa,
                paid_b >= xb,
                xa >= 0,
                xb >= 0,
                a >= 0,
                b >= 0,
        ;
    }
}

/// On a volatile pair the invariant check never refuses a swap.
pub proof fn lemma_volatile_swap_never_refused_for_invariant(
    reserve_a: u64,
    reserve_b: u64,
    decimals_a: u8,
    decimals_b: u8,
    amount_in_a: u64,
    amount_in_b: u64,
    min_out_a: u64,
    min_out_b: u64,
)
    ensures
        swap_spec(
            reserve_a as int,
            reserve_b as int,
            decimals_a as int,
            decimals_b as int,
            false,
            amount_in_a as int,
            amount_in_b as int,
            min_out_a as int,
            min_out_b as int,
        ) != Err::<(int, int), ErrorCode>(ErrorCode::InvariantK),
{
    lemma_volatile_swap_never_breaks_product(reserve_a, reserve_b, amount_in_a, amount_in_b);
}

} // verus!
