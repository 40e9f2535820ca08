use ouroboros::address::Address;
use ouroboros::pools::curve::{get_amount_out, k, quote, sqrt_product, MINIMUM_LIQUIDITY};
use ouroboros::pools::errors::ErrorCode;
use ouroboros::pools::liquidity::{add_liquidity, remove_liquidity};
use ouroboros::pools::pair::{claim_fees, create_pair, Pair};
use ouroboros::pools::swap::swap_exact_input;

fn address(b: u8) -> Address {
    Address { bytes: [b; 32] }
}

fn volatile_pair() -> Pair {
    create_pair(address(1), address(2), false, address(3), address(4))
}

#[test]
fn create_pair_keeps_its_fields() {
    let p = create_pair(address(1), address(2), true, address(3), address(4));
    assert_eq!(p.mint_a.bytes, [1; 32]);
    assert_eq!(p.mint_b.bytes, [2; 32]);
    assert!(p.stable);
    assert_eq!(p.pair_mint.bytes, [3; 32]);
    assert_eq!(p.authority.bytes, [4; 32]);
}

#[test]
fn sqrt_product_rounds_down() {
    assert_eq!(sqrt_product(3, 12), 6);
    assert_eq!(sqrt_product(2, 3), 2);
    assert_eq!(sqrt_product(0, 5), 0);
    assert_eq!(sqrt_product(1000, 1000), 1000);
    assert_eq!(sqrt_product(u64::MAX, u64::MAX), u64::MAX);
}

#[test]
fn quote_follows_reserve_ratio() {
    assert_eq!(quote(400, 4000, 9000), 900);
    assert_eq!(quote(800, 9000, 4000), 355);
    assert_eq!(quote(u64::MAX, 1, u64::MAX), (u64::MAX as u128) * (u64::MAX as u128));
}

#[test]
fn amount_out_formula() {
    assert_eq!(get_amount_out(100, 1000, 1000), 0);
    assert_eq!(get_amount_out(1_000_000, 1_000_000, 1_000_000), 998);
    assert_eq!(get_amount_out(1, 0, 1000), 0);
    assert_eq!(get_amount_out(2000, 0, 1000), 1000);
}

#[test]
fn invariant_volatile_and_stable() {
    assert_eq!(k(1000, 9, 2000, 9, false), 2_000_000);
    // Stable: each side is normalised to nine decimals, x * 10^9 / 10^decimals.
    // Two whole tokens a side: a = 4 * 10^9, b = 8 * 10^9, k = a * b / 10^9 / 2.
    assert_eq!(k(2_000_000_000, 9, 2_000_000_000, 9, true), 16_000_000_000);
    assert_eq!(k(2_000_000, 6, 2_000_000_000, 9, true), 16_000_000_000);
    assert_eq!(k(2_000_000_000, 9, 2_000, 3, true), 16_000_000_000);
    // On nine decimals the reserves are taken as they are.
    assert_eq!(k(9, 9, 9, 9, true), 0);
}

#[test]
fn bootstrap_deposit_locks_minimum_liquidity() {
    let d = add_liquidity(0, 0, 0, 4000, 9000, 0, 0).unwrap();
    assert_eq!(d.amount_a, 4000);
    assert_eq!(d.amount_b, 9000);
    assert_eq!(d.liquidity, 6000 - MINIMUM_LIQUIDITY as u128);
    assert_eq!(d.burned, MINIMUM_LIQUIDITY);
}

#[test]
fn bootstrap_of_exactly_minimum_liquidity_mints_nothing() {
    // sqrt(1000 * 1000) - 1000 = 0: nothing would go to the provider.
    assert_eq!(add_liquidity(0, 0, 0, 1000, 1000, 0, 0).unwrap_err(), ErrorCode::InsufficientLiquidityMinted);
    assert_eq!(add_liquidity(0, 0, 0, 10, 10, 0, 0).unwrap_err(), ErrorCode::InsufficientLiquidityMinted);
}

#[test]
fn deposit_matches_desired_a() {
    let d = add_liquidity(4000, 9000, 6000, 400, 1000, 0, 0).unwrap();
    assert_eq!((d.amount_a, d.amount_b, d.liquidity, d.burned), (400, 900, 600, 0));
}

#[test]
fn deposit_falls_back_to_desired_b() {
    let d = add_liquidity(4000, 9000, 6000, 400, 800, 0, 0).unwrap();
    assert_eq!((d.amount_a, d.amount_b, d.liquidity, d.burned), (355, 800, 532, 0));
}

#[test]
fn deposit_below_minimum_is_refused() {
    assert_eq!(add_liquidity(4000, 9000, 6000, 400, 1000, 0, 950).unwrap_err(), ErrorCode::InsufficientAmount);
    assert_eq!(add_liquidity(4000, 9000, 6000, 400, 800, 356, 0).unwrap_err(), ErrorCode::InsufficientAmount);
    assert_eq!(add_liquidity(4000, 9000, 6000, 0, 800, 0, 0).unwrap_err(), ErrorCode::InsufficientAmount);
}

#[test]
fn deposit_against_one_sided_reserves_is_refused() {
    assert_eq!(add_liquidity(0, 500, 0, 10, 10, 0, 0).unwrap_err(), ErrorCode::InsufficientLiquidity);
    assert_eq!(add_liquidity(0, 0, 5, 10, 10, 0, 0).unwrap_err(), ErrorCode::InsufficientLiquidity);
}

#[test]
fn withdrawal_is_proportional() {
    let w = remove_liquidity(4400, 9900, 6600, 600);
    assert_eq!((w.amount_a, w.amount_b, w.burned), (400, 900, 600));
}

#[test]
fn round_trip_returns_the_deposit() {
    let d = add_liquidity(4000, 9000, 6000, 400, 1000, 0, 0).unwrap();
    let w = remove_liquidity(4000 + d.amount_a, 9000 + d.amount_b, 6000 + d.liquidity as u64, d.liquidity as u64);
    assert_eq!((w.amount_a, w.amount_b), (d.amount_a, d.amount_b));
}

#[test]
fn round_trip_after_bootstrap_leaves_the_locked_share() {
    let d = add_liquidity(0, 0, 0, 4000, 9000, 0, 0).unwrap();
    let supply = (d.liquidity as u64) + d.burned;
    let w = remove_liquidity(d.amount_a, d.amount_b, supply, d.liquidity as u64);
    assert_eq!((w.amount_a, w.amount_b), (3333, 7500));
}

#[test]
fn small_swap_pays_nothing_and_keeps_invariant() {
    let s = swap_exact_input(&volatile_pair(), 1000, 1000, 9, 9, 100, 0, 0, 0).unwrap();
    assert_eq!((s.fee_a, s.into_reserve_a, s.amount_out_a, s.amount_out_b), (0, 100, 0, 0));
    let s = swap_exact_input(&volatile_pair(), 1000, 1000, 9, 9, 1000, 0, 0, 0).unwrap();
    assert_eq!((s.fee_a, s.into_reserve_a, s.amount_out_a, s.amount_out_b), (1, 999, 0, 0));
}

#[test]
fn swap_a_for_b() {
    let s = swap_exact_input(&volatile_pair(), 1_000_000, 1_000_000, 9, 9, 1_000_000, 0, 0, 0).unwrap();
    assert_eq!((s.fee_a, s.into_reserve_a, s.amount_out_b, s.amount_out_a), (1000, 999_000, 998, 0));
    let after = (1_000_000u128 + 999_000) * (1_000_000u128 - 998);
    assert!(after >= 1_000_000u128 * 1_000_000);
}

#[test]
fn swap_b_for_a() {
    let s = swap_exact_input(&volatile_pair(), 1_000_000, 4_000_000, 9, 9, 0, 2_000_000, 0, 0).unwrap();
    assert_eq!((s.fee_b, s.into_reserve_b, s.amount_out_a, s.amount_out_b), (2000, 1_998_000, 499, 0));
}

#[test]
fn swap_on_stable_pair() {
    let p = create_pair(address(1), address(2), true, address(3), address(4));
    let s = swap_exact_input(&p, 100_000, 100_000, 9, 9, 100_000, 0, 0, 0).unwrap();
    assert_eq!((s.fee_a, s.amount_out_b), (100, 99));
}

#[test]
fn swap_without_input_is_refused() {
    assert_eq!(swap_exact_input(&volatile_pair(), 1000, 1000, 9, 9, 0, 0, 0, 0).unwrap_err(), ErrorCode::InsufficientInput);
}

#[test]
fn swap_minimum_above_reserves_is_refused() {
    assert_eq!(swap_exact_input(&volatile_pair(), 1000, 1000, 9, 9, 10, 0, 1001, 0).unwrap_err(), ErrorCode::InsufficientLiquidity);
    assert_eq!(swap_exact_input(&volatile_pair(), 1000, 1000, 9, 9, 10, 0, 0, 1001).unwrap_err(), ErrorCode::InsufficientLiquidity);
}

#[test]
fn fee_claim_sweeps_the_whole_pot() {
    let c = claim_fees(17, 42);
    assert_eq!((c.amount_a, c.amount_b), (17, 42));
}

#[test]
fn error_messages() {
    assert_eq!(ErrorCode::InsufficientOutput.message(), "Insufficient output");
    assert_eq!(ErrorCode::InvariantK.message(), "Violated invariant K");
    assert_eq!(ErrorCode::InsufficientAmount.message(), "Insufficient amount");
}

#[test]
fn two_sided_swap_keeps_product() {
    let s = swap_exact_input(&volatile_pair(), 1_000_000, 4_000_000, 9, 9, 500_000, 3_000_000, 0, 0).unwrap();
    assert_eq!((s.amount_out_a, s.amount_out_b, s.fee_a, s.fee_b), (748, 1997, 500, 3000));
    let new_a = 1_000_000u128 - 748 + 499_500;
    let new_b = 4_000_000u128 - 1997 + 2_997_000;
    assert!(new_a * new_b >= 1_000_000u128 * 4_000_000);
}

#[test]
fn round_trip_with_rounding_loses_less_than_a_share() {
    let d = add_liquidity(4000, 9000, 6000, 400, 800, 0, 0).unwrap();
    assert_eq!((d.amount_a, d.amount_b, d.liquidity), (355, 800, 532));
    let w = remove_liquidity(4355, 9800, 6532, 532);
    assert_eq!((w.amount_a, w.amount_b), (354, 798));
    assert!((d.amount_a - w.amount_a) * 6532 < 4000 + 6532);
}
