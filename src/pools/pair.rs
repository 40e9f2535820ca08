use vstd::prelude::*;
use crate::address::Address;

verus! {

/// A pool of two tokens. Its reserves sit in token accounts of the pair authority and
/// its liquidity shares are tokens of `pair_mint`.
#[derive(Clone, Copy, Debug)]
pub struct Pair {
    pub mint_a: Address,
    pub mint_b: Address,
    /// Correlated assets priced on the stable curve instead of the constant product.
    pub stable: bool,
    pub pair_mint: Address,
    pub authority: Address,
}

/// Token movements of a fee claim: the whole balance of each fee account goes to the caller.
#[derive(Clone, Copy, Debug)]
pub struct FeeClaim {
    pub amount_a: u64,
    pub amount_b: u64,
}

/// A new pair of two mints; its reserves and liquidity supply start empty.
pub fn create_pair(mint_a: Address, mint_b: Address, stable: bool, pair_mint: Address, authority: Address) -> (r: Pair)
    ensures
        r.mint_a == mint_a,
        r.mint_b == mint_b,
        r.stable == stable,
        r.pair_mint == pair_mint,
        r.authority == authority,
{
    Pair { mint_a, mint_b, stable, pair_mint, authority }
}

/// Sweeps both fee accounts. The whole pot goes to whichever provider calls, not a share
/// proportional to its liquidity.
pub fn claim_fees(fees_a: u64, fees_b: u64) -> (r: FeeClaim)
    ensures
        r.amount_a == fees_a,
        r.amount_b == fees_b,
{
    FeeClaim { amount_a: fees_a, amount_b: fees_b }
}

} // verus!
