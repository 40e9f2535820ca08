use vstd::prelude::*;
use vstd::arithmetic::div_mod::{lemma_div_denominator, lemma_fundamental_div_mod};
use crate::address::Address;

verus! {

/// Seconds in the week on which lock durations are normalised.
pub const WEEK_SECONDS: u64 = 604800;

/// One whole in basis points.
pub const BASIS_POINTS: u64 = 10000;

/// The protocol's root record: its epoch clock and vote totals.
#[derive(Clone, Copy, Debug)]
pub struct Ouroboros {
    pub id: u64,
    pub authority: Address,
    /// The token that is locked and emitted.
    pub mint: Address,
    /// Length of an epoch in seconds.
    pub period: u64,
    /// Start of the current epoch.
    pub last_period: i64,
    /// Vote total frozen when the current epoch began: the denominator of its weights.
    pub last_period_votes: u64,
    /// Live sum of the votes of every beneficiary.
    pub total_votes: u64,
    /// Supply expansion per epoch, in basis points of the unlocked supply.
    pub expansion_factor: u64,
    /// Votes per locked token for a week-long lock, in basis points.
    pub time_multiplier: u64,
}

/// A registered recipient of emissions.
#[derive(Clone, Copy, Debug)]
pub struct Beneficiary {
    /// The account that receives the emitted tokens.
    pub account: Address,
    /// Sum of the votes of the lockers pointed at this beneficiary.
    pub votes: u64,
    /// Share of the last settled epoch's emission, in basis points.
    pub weight: u16,
    /// Start of the last epoch this beneficiary was settled for.
    pub last_update: i64,
}

/// Tokens escrowed for a fixed duration in exchange for a fixed vote weight.
#[derive(Clone, Copy, Debug)]
pub struct Locker {
    pub id: Address,
    /// The mint of the single receipt token that authorises redeeming and revoting.
    pub receipt: Address,
    /// Index of the beneficiary this locker votes for, if it has voted.
    pub beneficiary: Option<usize>,
    pub amount: u64,
    pub votes: u64,
    pub creation_timestamp: i64,
    pub unlock_timestamp: i64,
}

/// Votes earned by locking `amount` for `duration` seconds: linear in both, normalised to
/// a week and to basis points.
pub open spec fn votes_spec(amount: int, duration: int, time_multiplier: int) -> int {
    amount * duration * time_multiplier / WEEK_SECONDS as int / BASIS_POINTS as int
}

impl Ouroboros {
    /// Epochs have a positive length that fits a timestamp.
    pub open spec fn wf(&self) -> bool {
        0 < self.period <= i64::MAX
    }

    /// The clock has reached the end of the current epoch.
    pub open spec fn epoch_due(&self, now: i64) -> bool {
        now >= self.last_period + self.period
    }

    /// The record after an epoch-crossing instruction observed the clock at `now`: one
    /// period later, with the live vote total frozen, when the epoch is due.
    pub open spec fn rolled(&self, now: i64) -> Ouroboros {
        if self.epoch_due(now) {
            Ouroboros {
                last_period: (self.last_period + self.period) as i64,
                last_period_votes: self.total_votes,
                ..*self
            }
        } else {
            *self
        }
    }

    /// A new protocol whose first epoch starts at `start_date`, with no votes yet.
    pub fn new(
        id: u64,
        authority: Address,
        mint: Address,
        period: u64,
        start_date: i64,
        expansion_factor: u64,
        time_multiplier: u64,
    ) -> (r: Ouroboros)
        requires
            0 < period <= i64::MAX,
        ensures
            r.wf(),
            r.id == id,
            r.authority == authority,
            r.mint == mint,
            r.period == period,
            r.last_period == start_date,
            r.last_period_votes == 0,
            r.total_votes == 0,
            r.expansion_factor == expansion_factor,
            r.time_multiplier == time_multiplier,
    {
        Ouroboros {
            id,
            authority,
            mint,
            period,
            last_period: start_date,
            last_period_votes: 0,
            total_votes: 0,
            expansion_factor,
            time_multiplier,
        }
    }

    /// Whether the clock has reached the end of the current epoch.
    pub fn is_epoch_due(&self, now: i64) -> (r: bool)
        ensures
            r == self.epoch_due(now),
    {
        (now as i128) >= (self.last_period as i128) + (self.period as i128)
    }

    /// The record with the epoch rolled forward by one period if it is due.
    pub fn maybe_advance_epoch(&self, now: i64) -> (r: Ouroboros)
        ensures
            r == self.rolled(now),
    {
        if self.is_epoch_due(now) {
            Ouroboros {
                last_period: (self.last_period as i128 + self.period as i128) as i64,
                last_period_votes: self.total_votes,
                ..*self
            }
        } else {
            *self
        }
    }

    /// Votes a lock of `amount` for `duration` seconds earns under this protocol.
    pub fn locker_votes(&self, amount: u64, duration: u64) -> (r: u64)
        requires
            votes_spec(amount as int, duration as int, self.time_multiplier as int) <= u64::MAX,
        ensures
            r == votes_spec(amount as int, duration as int, self.time_multiplier as int),
    {
        let ghost product: int = amount as int * duration as int * self.time_multiplier as int;
        let ghost divisor: int = WEEK_SECONDS as int * BASIS_POINTS as int;
        proof {
            crate::pools::curve::lemma_product_fits(amount, duration);
            assert(product >= 0) by (nonlinear_arith)
                requires product == amount as int * duration as int * self.time_multiplier as int;
            lemma_div_denominator(product, WEEK_SECONDS as int, BASIS_POINTS as int);
            lemma_fundamental_div_mod(product, divisor);
            assert(product < (u64::MAX + 1) * divisor) by (nonlinear_arith)
                requires
                    product == divisor * (product / divisor) + product % divisor,
                    product % divisor < divisor,
                    product / divisor <= u64::MAX,
                    divisor > 0,
            ;
        }
        let lots: u128 = (amount as u128) * (duration as u128);
        let weighted: u128 = lots * (self.time_multiplier as u128);
        (weighted / (WEEK_SECONDS as u128) / (BASIS_POINTS as u128)) as u64
    }
}

/// Rolling the epoch twice at the same instant advances it at most once per elapsed
/// period: an advance never carries the epoch start past the clock, and with fewer than
/// two periods elapsed the second roll changes nothing.
pub proof fn lemma_epoch_roll_idempotent(o: Ouroboros, now: i64)
    requires
        o.wf(),
    ensures
        o.rolled(now).rolled(now).last_period == o.last_period
            || o.rolled(now).rolled(now).last_period <= now,
        now < o.last_period + 2 * o.period ==> o.rolled(now).rolled(now) == o.rolled(now),
{
}

} // verus!
