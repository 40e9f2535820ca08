use vstd::prelude::*;
use vstd::arithmetic::div_mod::{lemma_fundamental_div_mod, lemma_multiply_divide_le, lemma_multiply_divide_lt};
use crate::pools::curve::{MINIMUM_LIQUIDITY, is_floor_sqrt, quote, quote_spec, sqrt_product};
use crate::pools::errors::ErrorCode;

verus! {

/// Token movements of an accepted deposit: `amount_a` and `amount_b` go from the provider
/// to the pair, `liquidity` new pair tokens go to the provider and `burned` to the burner.
/// `liquidity` is wider than a token amount: the pair mint refuses to issue more than its
/// supply can hold.
#[derive(Clone, Copy, Debug)]
pub struct Deposit {
    pub amount_a: u64,
    pub amount_b: u64,
    pub liquidity: u128,
    pub burned: u64,
}

/// Token movements of a withdrawal: `burned` pair tokens are destroyed and the reserves
/// pay out `amount_a` and `amount_b`.
#[derive(Clone, Copy, Debug)]
pub struct Withdrawal {
    pub amount_a: u64,
    pub amount_b: u64,
    pub burned: u64,
}

/// The integer square root of `n`, rounded down.
pub open spec fn floor_sqrt_spec(n: int) -> int {
    choose|r: int| is_floor_sqrt(r, n)
}

pub proof fn lemma_floor_sqrt_unique(r: int, n: int)
    requires
        is_floor_sqrt(r, n),
    ensures
        floor_sqrt_spec(n) == r,
{
    let s = floor_sqrt_spec(n);
    assert(is_floor_sqrt(s, n));
    if s < r {
        assert((s + 1) * (s + 1) <= r * r) by (nonlinear_arith)
            requires 0 <= s + 1 <= r;
    } else if r < s {
        assert((r + 1) * (r + 1) <= s * s) by (nonlinear_arith)
            requires 0 <= r + 1 <= s;
    }
}

/// The amounts a deposit takes: the desired amounts when the pair is empty, otherwise the
/// desired amount of A with B quoted at the current price, or, when that quote exceeds
/// the desired B, the desired B with A quoted.
pub open spec fn deposit_amounts(
    reserve_a: int,
    reserve_b: int,
    desired_a: int,
    desired_b: int,
    min_a: int,
    min_b: int,
) -> Result<(int, int), ErrorCode> {
    if reserve_a == 0 && reserve_b == 0 {
        Ok((desired_a, desired_b))
    } else if desired_a == 0 {
        Err(ErrorCode::InsufficientAmount)
    } else if reserve_a == 0 || reserve_b == 0 {
        Err(ErrorCode::InsufficientLiquidity)
    } else if quote_spec(desired_a, reserve_a, reserve_b) <= desired_b {
        if quote_spec(desired_a, reserve_a, reserve_b) < min_b {
            Err(ErrorCode::InsufficientAmount)
        } else {
            Ok((desired_a, quote_spec(desired_a, reserve_a, reserve_b)))
        }
    } else if quote_spec(desired_b, reserve_b, reserve_a) < min_a {
        Err(ErrorCode::InsufficientAmount)
    } else {
        Ok((quote_spec(desired_b, reserve_b, reserve_a), desired_b))
    }
}

/// Pair tokens that a deposit of `a` and `b` is worth: the geometric mean less the
/// locked minimum when no pair token exists yet, else the smaller proportional share.
pub open spec fn liquidity_spec(a: int, b: int, reserve_a: int, reserve_b: int, supply: int) -> int {
    if supply == 0 {
        floor_sqrt_spec(a * b) - MINIMUM_LIQUIDITY
    } else {
        let lhs = a * supply / reserve_a;
        let rhs = b * supply / reserve_b;
        if lhs > rhs { rhs } else { lhs }
    }
}

/// Outcome of a deposit: the amounts taken and the pair tokens minted, or the error.
pub open spec fn add_liquidity_spec(
    reserve_a: int,
    reserve_b: int,
    supply: int,
    desired_a: int,
    desired_b: int,
    min_a: int,
    min_b: int,
) -> Result<(int, int, int), ErrorCode> {
    match deposit_amounts(reserve_a, reserve_b, desired_a, desired_b, min_a, min_b) {
        Err(e) => Err(e),
        Ok((a, b)) => {
            if supply != 0 && (reserve_a == 0 || reserve_b == 0) {
                Err(ErrorCode::InsufficientLiquidity)
            } else if liquidity_spec(a, b, reserve_a, reserve_b, supply) <= 0 {
                Err(ErrorCode::InsufficientLiquidityMinted)
            } else {
                Ok((a, b, liquidity_spec(a, b, reserve_a, reserve_b, supply)))
            }
        },
    }
}

/// When the quote for the desired A exceeds the desired B, the quote for the desired B
/// stays below the desired A.
proof fn lemma_fallback_within_desired(desired_a: int, desired_b: int, reserve_a: int, reserve_b: int)
    requires
        desired_a >= 0,
        desired_b >= 0,
        reserve_a > 0,
        reserve_b > 0,
        quote_spec(desired_a, reserve_a, reserve_b) > desired_b,
    ensures
        quote_spec(desired_b, reserve_b, reserve_a) < desired_a,
{
    let n = desired_a * reserve_b;
    let q = n / reserve_a;
    lemma_fundamental_div_mod(n, reserve_a);
    assert(reserve_a * q >= reserve_a * (desired_b + 1)) by (nonlinear_arith)
        requires q >= desired_b + 1, reserve_a > 0;
    assert(desired_b * reserve_a < reserve_b * desired_a) by (nonlinear_arith)
        requires
            n == desired_a * reserve_b,
            n >= reserve_a * q,
            reserve_a * q >= reserve_a * (desired_b + 1),
            reserve_a > 0,
    ;
    lemma_multiply_divide_lt(desired_b * reserve_a, reserve_b, desired_a);
}

/// Deposits up to the desired amounts into a pair holding `reserve_a` and `reserve_b`
/// whose pair token has `supply` in circulation.
pub fn add_liquidity(
    reserve_a: u64,
    reserve_b: u64,
    supply: u64,
    desired_a: u64,
    desired_b: u64,
    min_a: u64,
    min_b: u64,
) -> (r: Result<Deposit, ErrorCode>)
    ensures
        add_liquidity_spec(
            reserve_a as int,
            reserve_b as int,
            supply as int,
            desired_a as int,
            desired_b as int,
            min_a as int,
            min_b as int,
        ) == (match r {
            Ok(d) => Ok((d.amount_a as int, d.amount_b as int, d.liquidity as int)),
            Err(e) => Err(e),
        }),
        r matches Ok(d) ==> d.burned == (if supply == 0 { MINIMUM_LIQUIDITY } else { 0 }),
{
    let amount_a: u64;
    let amount_b: u64;
    if reserve_a == 0 && reserve_b == 0 {
        amount_a = desired_a;
        amount_b = desired_b;
    } else {
        if desired_a == 0 {
            return Err(ErrorCode::InsufficientAmount);
        }
        if reserve_a == 0 || reserve_b == 0 {
            return Err(ErrorCode::InsufficientLiquidity);
        }
        let b_optimal = quote(desired_a, reserve_a, reserve_b);
        if b_optimal <= desired_b as u128 {
            if b_optimal < min_b as u128 {
                return Err(ErrorCode::InsufficientAmount);
            }
            amount_a = desired_a;
            amount_b = b_optimal as u64;
        } else {
            let a_optimal = quote(desired_b, reserve_b, reserve_a);
            proof {
                lemma_fallback_within_desired(
                    desired_a as int,
                    desired_b as int,
                    reserve_a as int,
                    reserve_b as int,
                );
            }
            if a_optimal < min_a as u128 {
                return Err(ErrorCode::InsufficientAmount);
            }
            amount_a = a_optimal as u64;
            amount_b = desired_b;
        }
    }
    let liquidity: u128;
    if supply == 0 {
        let root = sqrt_product(amount_a, amount_b);
        proof {
            lemma_floor_sqrt_unique(root as int, amount_a as int * amount_b as int);
        }
        if root <= MINIMUM_LIQUIDITY {
            return Err(ErrorCode::InsufficientLiquidityMinted);
        }
        liquidity = (root - MINIMUM_LIQUIDITY) as u128;
    } else {
        if reserve_a == 0 || reserve_b == 0 {
            return Err(ErrorCode::InsufficientLiquidity);
        }
        let lhs = quote(amount_a, reserve_a, supply);
        let rhs = quote(amount_b, reserve_b, supply);
        liquidity = if lhs > rhs { rhs } else { lhs };
        if liquidity == 0 {
            return Err(ErrorCode::InsufficientLiquidityMinted);
        }
    }
    let burned = if supply == 0 { MINIMUM_LIQUIDITY } else { 0 };
    Ok(Deposit { amount_a, amount_b, liquidity, burned })
}

/// The share of a reserve that `liquidity` pair tokens out of `supply` are worth.
pub open spec fn share_spec(liquidity: int, reserve: int, supply: int) -> int {
    liquidity * reserve / supply
}

/// Redeems `liquidity` pair tokens for their share of both reserves.
pub fn remove_liquidity(reserve_a: u64, reserve_b: u64, supply: u64, liquidity: u64) -> (r: Withdrawal)
    requires
        0 < supply,
        liquidity <= supply,
    ensures
        r.amount_a == share_spec(liquidity as int, reserve_a as int, supply as int),
        r.amount_b == share_spec(liquidity as int, reserve_b as int, supply as int),
        r.burned == liquidity,
        r.amount_a <= reserve_a,
        r.amount_b <= reserve_b,
{
    let amount_a = quote(liquidity, supply, reserve_a);
    let amount_b = quote(liquidity, supply, reserve_b);
    proof {
        assert(liquidity as int * reserve_a as int <= supply as int * reserve_a as int) by (nonlinear_arith)
            requires liquidity <= supply;
        assert(liquidity as int * reserve_b as int <= supply as int * reserve_b as int) by (nonlinear_arith)
            requires liquidity <= supply;
        lemma_multiply_divide_le(liquidity as int * reserve_a as int, supply as int, reserve_a as int);
        lemma_multiply_divide_le(liquidity as int * reserve_b as int, supply as int, reserve_b as int);
    }
    Withdrawal { amount_a: amount_a as u64, amount_b: amount_b as u64, burned: liquidity }
}


/// Pair tokens `l` minted as the rounded-down share `x * s / r` of a deposit `x` into a
/// reserve `r` redeem, right after, for `x` less under one pair token's worth plus one.
proof fn lemma_rounding_loss(x: int, r: int, s: int, l: int)
    requires
        x >= 0,
        r > 0,
        s > 0,
        l == x * s / r,
    ensures
        (x - share_spec(l, r + x, s + l)) * (s + l) < r + (s + l),
{
    assert(x * s >= 0) by (nonlinear_arith)
        requires x >= 0, s > 0;
    lemma_fundamental_div_mod(x * s, r);
    vstd::arithmetic::div_mod::lemma_div_pos_is_pos(x * s, r);
    let n = s + l;
    let m = l * (r + x);
    assert(m > x * n - r) by (nonlinear_arith)
        requires
            x * s == r * l + (x * s) % r,
            (x * s) % r < r,
            m == l * (r + x),
            n == s + l,
    ;
    assert(m >= 0) by (nonlinear_arith)
        requires l >= 0, r > 0, x >= 0, m == l * (r + x);
    lemma_fundamental_div_mod(m, n);
    assert((x - m / n) * n < r + n) by (nonlinear_arith)
        requires
            m == n * (m / n) + m % n,
            m % n < n,
            m > x * n - r,
            n > 0,
    ;
}

/// Withdrawing the pair tokens of a deposit right after making it returns the deposit up
/// to rounding, for a pair that is either empty or already has pair tokens in circulation:
/// never more of either token than was put in, exactly the deposit when no share
/// computation rounds, and, on the side whose share set the minted amount, less by under
/// one pair token's worth plus one. (A pair holding reserves but no pair tokens hands them
/// to its first depositor.)
pub proof fn lemma_round_trip_within_rounding(
    reserve_a: u64,
    reserve_b: u64,
    supply: u64,
    desired_a: u64,
    desired_b: u64,
    min_a: u64,
    min_b: u64,
)
    requires
        supply == 0 ==> reserve_a == 0 && reserve_b == 0,
        add_liquidity_spec(
            reserve_a as int,
            reserve_b as int,
            supply as int,
            desired_a as int,
            desired_b as int,
            min_a as int,
            min_b as int,
        ) is Ok,
    ensures
        ({
            let (a, b, l) = add_liquidity_spec(
                reserve_a as int,
                reserve_b as int,
                supply as int,
                desired_a as int,
                desired_b as int,
                min_a as int,
                min_b as int,
            )->Ok_0;
            let new_supply = supply + l + (if supply == 0 { MINIMUM_LIQUIDITY as int } else { 0 });
            &&& share_spec(l, reserve_a + a, new_supply) <= a
            &&& share_spec(l, reserve_b + b, new_supply) <= b
            &&& (supply > 0 && (a * supply) % (reserve_a as int) == 0 && (b * supply) % (reserve_b as int) == 0
                && a * supply / (reserve_a as int) == b * supply / (reserve_b as int))
                ==> share_spec(l, reserve_a + a, new_supply) == a && share_spec(l, reserve_b + b, new_supply) == b
            &&& (supply > 0 && l == a * supply / (reserve_a as int))
                ==> (a - share_spec(l, reserve_a + a, new_supply)) * new_supply < reserve_a + new_supply
            &&& (supply > 0 && l == b * supply / (reserve_b as int))
                ==> (b - share_spec(l, reserve_b + b, new_supply)) * new_supply < reserve_b + new_supply
        }),
{
    let (a, b, l) = add_liquidity_spec(
        reserve_a as int,
        reserve_b as int,
        supply as int,
        desired_a as int,
        desired_b as int,
        min_a as int,
        min_b as int,
    )->Ok_0;
    let ra = reserve_a as int;
    let rb = reserve_b as int;
    let s = supply as int;
    assert(a >= 0 && b >= 0) by {
        if !(ra == 0 && rb == 0) && desired_a != 0 && ra != 0 && rb != 0 {
            vstd::arithmetic::div_mod::lemma_div_pos_is_pos(desired_a * rb, ra);
            vstd::arithmetic::div_mod::lemma_div_pos_is_pos(desired_b * ra, rb);
            assert(desired_a * rb >= 0) by (nonlinear_arith)
                requires desired_a >= 0, rb >= 0;
            assert(desired_b * ra >= 0) by (nonlinear_arith)
                requires desired_b >= 0, ra >= 0;
        }
    }
    if s == 0 {
        let total = l + MINIMUM_LIQUIDITY;
        assert(l * a <= total * a) by (nonlinear_arith)
            requires l <= total, a >= 0;
        assert(l * b <= total * b) by (nonlinear_arith)
            requires l <= total, b >= 0;
        lemma_multiply_divide_le(l * a, total, a);
        lemma_multiply_divide_le(l * b, total, b);
    } else {
        let lhs = a * s / ra;
        let rhs = b * s / rb;
        lemma_fundamental_div_mod(a * s, ra);
        lemma_fundamental_div_mod(b * s, rb);
        assert(l * ra <= a * s) by (nonlinear_arith)
            requires
                l <= lhs,
                ra > 0,
                a * s == ra * lhs + (a * s) % ra,
                (a * s) % ra >= 0,
        ;
        assert(l * rb <= b * s) by (nonlinear_arith)
            requires
                l <= rhs,
                rb > 0,
                b * s == rb * rhs + (b * s) % rb,
                (b * s) % rb >= 0,
        ;
        assert(l * (ra + a) <= (s + l) * a) by (nonlinear_arith)
            requires l * ra <= a * s;
        assert(l * (rb + b) <= (s + l) * b) by (nonlinear_arith)
            requires l * rb <= b * s;
        lemma_multiply_divide_le(l * (ra + a), s + l, a);
        lemma_multiply_divide_le(l * (rb + b), s + l, b);
        if l == lhs {
            lemma_rounding_loss(a, ra, s, l);
        }
        if l == rhs {
            lemma_rounding_loss(b, rb, s, l);
        }
        if (a * s) % ra == 0 && (b * s) % rb == 0 && lhs == rhs {
            assert(l * (ra + a) == (s + l) * a) by (nonlinear_arith)
                requires a * s == ra * lhs, l == lhs;
            assert(l * (rb + b) == (s + l) * b) by (nonlinear_arith)
                requires b * s == rb * rhs, l == rhs;
            vstd::arithmetic::div_mod::lemma_div_multiples_vanish(a, s + l);
            vstd::arithmetic::div_mod::lemma_div_multiples_vanish(b, s + l);
        }
    }
}

} // verus!
