use vstd::prelude::*;
use vstd::arithmetic::div_mod::{lemma_div_is_ordered, lemma_div_is_ordered_by_denominator, lemma_multiply_divide_le};

verus! {

/// Liquidity tokens locked forever in the burner account when a pair is first funded.
pub const MINIMUM_LIQUIDITY: u64 = 1000;

/// Fixed-point unit of the stable curve: amounts are normalised to nine decimals.
pub const STABLE_UNIT: u128 = 1_000_000_000;

/// Largest normalised reserve for which the stable invariant stays within 128 bits.
pub const STABLE_SCALED_LIMIT: u128 = 100_000_000_000_000;

/// `amount` of one token priced in the other at the ratio of the reserves.
pub open spec fn quote_spec(amount: int, reserve_in: int, reserve_out: int) -> int {
    amount * reserve_out / reserve_in
}

/// Input that remains after the 0.1% pricing fee.
pub open spec fn input_after_fee(amount_in: int) -> int {
    amount_in * 999 / 1000
}

/// Output of the pricing formula. An input that is nothing after the fee buys nothing,
/// which also covers an empty input reserve.
pub open spec fn amount_out_spec(amount_in: int, reserve_in: int, reserve_out: int) -> int {
    let x = input_after_fee(amount_in);
    if x == 0 {
        0
    } else {
        x * reserve_out / (reserve_in * 1000 + x)
    }
}

/// Largest number of mint decimals whose power of ten fits in 128 bits.
pub const STABLE_MAX_DECIMALS: u8 = 38;

/// `10^d`.
pub open spec fn pow10(d: nat) -> nat
    decreases d,
{
    if d == 0 {
        1
    } else {
        10 * pow10((d - 1) as nat)
    }
}

pub proof fn lemma_pow10_positive(d: nat)
    ensures
        pow10(d) >= 1,
    decreases d,
{
    if d > 0 {
        lemma_pow10_positive((d - 1) as nat);
    }
}

pub proof fn lemma_pow10_monotone(d: nat, e: nat)
    requires
        d <= e,
    ensures
        pow10(d) <= pow10(e),
    decreases e,
{
    if d < e {
        lemma_pow10_monotone(d, (e - 1) as nat);
        lemma_pow10_positive((e - 1) as nat);
    }
}

/// A reserve of a mint with `decimals` decimals, normalised to nine decimals.
pub open spec fn scaled(x: int, decimals: int) -> int {
    x * STABLE_UNIT as int / pow10(decimals as nat) as int
}

/// The largest power of ten below 2^128.
proof fn lemma_pow10_max()
    ensures
        pow10(38) == 100000000000000000000000000000000000000,
{
    assert(pow10(0) == 1);
    assert(pow10(1) == 10);
    assert(pow10(2) == 100);
    assert(pow10(3) == 1000);
    assert(pow10(4) == 10000);
    assert(pow10(5) == 100000);
    assert(pow10(6) == 1000000);
    assert(pow10(7) == 10000000);
    assert(pow10(8) == 100000000);
    assert(pow10(9) == 1000000000);
    assert(pow10(10) == 10000000000);
    assert(pow10(11) == 100000000000);
    assert(pow10(12) == 1000000000000);
    assert(pow10(13) == 10000000000000);
    assert(pow10(14) == 100000000000000);
    assert(pow10(15) == 1000000000000000);
    assert(pow10(16) == 10000000000000000);
    assert(pow10(17) == 100000000000000000);
    assert(pow10(18) == 1000000000000000000);
    assert(pow10(19) == 10000000000000000000);
    assert(pow10(20) == 100000000000000000000);
    assert(pow10(21) == 1000000000000000000000);
    assert(pow10(22) == 10000000000000000000000);
    assert(pow10(23) == 100000000000000000000000);
    assert(pow10(24) == 1000000000000000000000000);
    assert(pow10(25) == 10000000000000000000000000);
    assert(pow10(26) == 100000000000000000000000000);
    assert(pow10(27) == 1000000000000000000000000000);
    assert(pow10(28) == 10000000000000000000000000000);
    assert(pow10(29) == 100000000000000000000000000000);
    assert(pow10(30) == 1000000000000000000000000000000);
    assert(pow10(31) == 10000000000000000000000000000000);
    assert(pow10(32) == 100000000000000000000000000000000);
    assert(pow10(33) == 1000000000000000000000000000000000);
    assert(pow10(34) == 10000000000000000000000000000000000);
    assert(pow10(35) == 100000000000000000000000000000000000);
    assert(pow10(36) == 1000000000000000000000000000000000000);
    assert(pow10(37) == 10000000000000000000000000000000000000);
    assert(pow10(38) == 100000000000000000000000000000000000000);
}

/// `10^d` for a number of decimals that a 128-bit integer can hold.
fn pow10_of(d: u8) -> (r: u128)
    requires
        d <= STABLE_MAX_DECIMALS,
    ensures
        r == pow10(d as nat),
        r >= 1,
{
    proof {
        lemma_pow10_positive(d as nat);
        lemma_pow10_max();
    }
    let mut r: u128 = 1;
    let mut i: u8 = 0;
    while i < d
        invariant
            i <= d <= STABLE_MAX_DECIMALS,
            r == pow10(i as nat),
            pow10(38) == 100_000_000_000_000_000_000_000_000_000_000_000_000,
        decreases d - i,
    {
        proof {
            lemma_pow10_monotone((i + 1) as nat, 38);
        }
        r = r * 10;
        i = i + 1;
    }
    r
}

/// The pair invariant: the plain product for volatile pairs, `(xy)(x^2 + y^2) / 2`
/// in nine-decimal fixed point for stable pairs.
pub open spec fn k_spec(x: int, x_decimals: int, y: int, y_decimals: int, stable: bool) -> int {
    if stable {
        let u = STABLE_UNIT as int;
        let sx = scaled(x, x_decimals);
        let sy = scaled(y, y_decimals);
        let a = sx * sy / u;
        let b = sx * sx / u + sy * sy / u;
        a * b / u / 2
    } else {
        x * y
    }
}

/// The stable invariant of these reserves can be computed in 128 bits.
pub open spec fn stable_in_range(x: int, x_decimals: int, y: int, y_decimals: int) -> bool {
    &&& 0 <= x_decimals <= STABLE_MAX_DECIMALS
    &&& 0 <= y_decimals <= STABLE_MAX_DECIMALS
    &&& scaled(x, x_decimals) <= STABLE_SCALED_LIMIT as int
    &&& scaled(y, y_decimals) <= STABLE_SCALED_LIMIT as int
}

/// `r` is the integer square root of `n`, rounded down.
pub open spec fn is_floor_sqrt(r: int, n: int) -> bool {
    0 <= r && r * r <= n < (r + 1) * (r + 1)
}

pub proof fn lemma_product_fits(a: u64, b: u64)
    ensures
        0 <= a * b <= u64::MAX * u64::MAX,
        u64::MAX * u64::MAX < u128::MAX,
{
    assert(0 <= a * b <= u64::MAX * u64::MAX) by (nonlinear_arith)
        requires
            a <= u64::MAX,
            b <= u64::MAX,
    ;
}

/// Amount of token B that matches `amount_a` of token A at the reserves' ratio.
pub fn quote(amount_a: u64, reserve_a: u64, reserve_b: u64) -> (r: u128)
    requires
        reserve_a > 0,
    ensures
        r == quote_spec(amount_a as int, reserve_a as int, reserve_b as int),
{
    proof {
        lemma_product_fits(amount_a, reserve_b);
    }
    (amount_a as u128) * (reserve_b as u128) / (reserve_a as u128)
}

/// Output bought by `amount_in` against the given reserves, after the pricing fee.
pub fn get_amount_out(amount_in: u64, reserve_in: u64, reserve_out: u64) -> (r: u64)
    ensures
        r == amount_out_spec(amount_in as int, reserve_in as int, reserve_out as int),
        r <= reserve_out,
{
    let x: u128 = (amount_in as u128) * 999 / 1000;
    if x == 0 {
        return 0;
    }
    proof {
        lemma_product_fits(x as u64, reserve_out);
    }
    let numerator: u128 = x * (reserve_out as u128);
    let denominator: u128 = (reserve_in as u128) * 1000 + x;
    proof {
        lemma_div_is_ordered_by_denominator(numerator as int, x as int, denominator as int);
        lemma_multiply_divide_le(numerator as int, x as int, reserve_out as int);
    }
    (numerator / denominator) as u64
}

proof fn lemma_stable_bounds(sx: int, sy: int)
    requires
        0 <= sx <= STABLE_SCALED_LIMIT,
        0 <= sy <= STABLE_SCALED_LIMIT,
    ensures
        sx * sy <= 10_000_000_000_000_000_000_000_000_000,
        sx * sx <= 10_000_000_000_000_000_000_000_000_000,
        sy * sy <= 10_000_000_000_000_000_000_000_000_000,
        0 <= sx * sy,
        0 <= sx * sx,
        0 <= sy * sy,
{
    assert(0 <= sx * sy <= 10_000_000_000_000_000_000_000_000_000) by (nonlinear_arith)
        requires 0 <= sx <= 100_000_000_000_000, 0 <= sy <= 100_000_000_000_000;
    assert(0 <= sx * sx <= 10_000_000_000_000_000_000_000_000_000) by (nonlinear_arith)
        requires 0 <= sx <= 100_000_000_000_000;
    assert(0 <= sy * sy <= 10_000_000_000_000_000_000_000_000_000) by (nonlinear_arith)
        requires 0 <= sy <= 100_000_000_000_000;
}

/// The pair invariant of reserves `x` and `y`.
pub fn k(x: u64, x_decimals: u8, y: u64, y_decimals: u8, stable: bool) -> (r: u128)
    requires
        stable ==> stable_in_range(x as int, x_decimals as int, y as int, y_decimals as int),
    ensures
        r == k_spec(x as int, x_decimals as int, y as int, y_decimals as int, stable),
{
    if stable {
        let u: u128 = STABLE_UNIT;
        let sx: u128 = (x as u128) * u / pow10_of(x_decimals);
        let sy: u128 = (y as u128) * u / pow10_of(y_decimals);
        proof {
            lemma_stable_bounds(sx as int, sy as int);
        }
        let xy: u128 = sx * sy;
        let xx: u128 = sx * sx;
        let yy: u128 = sy * sy;
        let a: u128 = xy / u;
        let b: u128 = xx / u + yy / u;
        proof {
            let bound: int = 10_000_000_000_000_000_000_000_000_000;
            lemma_div_is_ordered(xy as int, bound, u as int);
            lemma_div_is_ordered(xx as int, bound, u as int);
            lemma_div_is_ordered(yy as int, bound, u as int);
            assert(0 <= a * b <= 200_000_000_000_000_000_000_000_000_000_000_000_000) by (nonlinear_arith)
                requires
                    0 <= a <= 10_000_000_000_000_000_000,
                    0 <= b <= 20_000_000_000_000_000_000,
            ;
        }
        a * b / u / 2
    } else {
        proof {
            lemma_product_fits(x, y);
        }
        (x as u128) * (y as u128)
    }
}

/// Relies on spl_math::approximations::sqrt, the binary digit-by-digit integer square
/// root: for an unsigned radicand it returns `Some` of the root rounded down.
#[verifier::external_body]
fn floor_sqrt(n: u128) -> (r: Option<u128>)
    ensures
        r.is_some(),
        is_floor_sqrt(r.unwrap() as int, n as int),
{
    spl_math::approximations::sqrt(n)
}

/// Integer square root of the product of two token amounts, rounded down.
pub fn sqrt_product(a: u64, b: u64) -> (r: u64)
    ensures
        is_floor_sqrt(r as int, a as int * b as int),
{
    proof {
        lemma_product_fits(a, b);
    }
    let n: u128 = (a as u128) * (b as u128);
    let root = floor_sqrt(n).unwrap();
    proof {
        // A root of at least 2^64 would square past the largest product of two u64 values.
        if root >= 0x1_0000_0000_0000_0000 {
            assert(root * root >= 0x1_0000_0000_0000_0000 * 0x1_0000_0000_0000_0000) by (nonlinear_arith)
                requires root >= 0x1_0000_0000_0000_0000;
        }
    }
    root as u64
}

} // verus!
