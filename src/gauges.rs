use vstd::prelude::*;
use crate::address::Address;

verus! {

/// A staking wrapper that routes one reward token to the depositors of one pair's
/// liquidity tokens.
#[derive(Clone, Copy, Debug)]
pub struct Gauge {
    pub pair: Address,
    /// The receipt token minted one for one against deposited liquidity tokens.
    pub gauge_mint: Address,
    pub mint_rewards: Address,
    pub authority: Address,
    pub cumulative_fees: u64,
}

/// A depositor's record in a gauge.
#[derive(Clone, Copy, Debug)]
pub struct Staker {
    pub owner: Address,
    pub last_collect: u64,
}

/// Token movements of a gauge deposit: `liquidity_in` liquidity tokens go into the gauge
/// and `receipts_minted` gauge receipts go to the depositor.
#[derive(Clone, Copy, Debug)]
pub struct GaugeDeposit {
    pub liquidity_in: u64,
    pub receipts_minted: u64,
}

/// A new gauge for `pair` paying out `mint_rewards`, with nothing collected yet.
pub fn create_gauge(pair: Address, gauge_mint: Address, mint_rewards: Address, authority: Address) -> (r: Gauge)
    ensures
        r.pair == pair,
        r.gauge_mint == gauge_mint,
        r.mint_rewards == mint_rewards,
        r.authority == authority,
        r.cumulative_fees == 0,
{
    Gauge { pair, gauge_mint, mint_rewards, authority, cumulative_fees: 0 }
}

/// Deposits `amount` liquidity tokens of `provider` into the gauge against as many gauge
/// receipts, and takes the staker record into use on the first deposit.
pub fn collect_rewards(staker: &mut Staker, provider: Address, amount: u64) -> (r: GaugeDeposit)
    ensures
        r.liquidity_in == amount,
        r.receipts_minted == amount,
        *final(staker) == (if old(staker).owner.is_zero() {
            Staker { owner: provider, ..*old(staker) }
        } else {
            *old(staker)
        }),
{
    if staker.owner.is_unset() {
        staker.owner = provider;
    }
    GaugeDeposit { liquidity_in: amount, receipts_minted: amount }
}

} // verus!
