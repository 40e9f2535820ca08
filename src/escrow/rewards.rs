use vstd::prelude::*;
use vstd::arithmetic::div_mod::{lemma_div_denominator, lemma_div_multiples_vanish_quotient};
use vstd::arithmetic::mul::lemma_mul_is_commutative;
use crate::address::Address;
use crate::escrow::errors::ErrorCode;
use crate::escrow::ledger::{Escrow, EscrowView};
use crate::escrow::state::{Locker, Ouroboros};

verus! {

/// Fixed-point unit of a fee claim.
pub const CLAIM_UNIT: u64 = 1_000_000_000;

/// A reward token that the protocol receives, and the index of its open snapshot.
#[derive(Clone, Copy, Debug)]
pub struct Asset {
    pub mint: Address,
    pub authority: Address,
    /// Amount received when the asset was first seen.
    pub reward_height: u64,
    /// Start of the epoch the snapshot index was last advanced for.
    pub last_update: i64,
    pub last_snapshot_index: u64,
}

/// Rewards of one asset donated during one epoch, with the votes of that epoch.
#[derive(Clone, Copy, Debug)]
pub struct Snapshot {
    pub mint: Address,
    /// End of the epoch snapshotted; zero while the snapshot is unused.
    pub timestamp: i64,
    pub index: u64,
    pub rewards: u64,
    pub votes: u64,
}

/// A locker's claim history for one asset.
#[derive(Clone, Copy, Debug)]
pub struct Claimant {
    /// The locker that claims.
    pub owner: Address,
    /// The asset claimed; not yet `mint` while the claimant is unused.
    pub mint: Address,
    /// High-water mark of the time claimed up to.
    pub last_claim: i64,
}

/// Outcome of a donation of `amount` of `mint` at `now` against the root record `o`:
/// the new root, asset and snapshot, or the error. The caller names the snapshot it
/// believes open by `snapshot_index`.
pub open spec fn receive_outcome(
    o: Ouroboros,
    asset: Asset,
    snapshot: Snapshot,
    mint: Address,
    authority: Address,
    snapshot_index: u64,
    amount: u64,
    now: i64,
) -> Result<(Ouroboros, Asset, Snapshot), ErrorCode> {
    let o2 = o.rolled(now);
    let end = o2.last_period + o2.period;
    let a1 = if asset.mint.bytes@ == mint.bytes@ {
        asset
    } else {
        Asset {
            mint,
            authority,
            reward_height: (asset.reward_height + amount) as u64,
            last_update: o2.last_period,
            ..asset
        }
    };
    if snapshot_index != asset.last_snapshot_index {
        Err(ErrorCode::InvalidSnapshot)
    } else if snapshot.timestamp != 0 && (snapshot.timestamp != end || snapshot.index != snapshot_index) {
        Err(ErrorCode::InvalidSnapshot)
    } else {
        let s1 = if snapshot.timestamp == 0 {
            Snapshot { mint, timestamp: end as i64, index: a1.last_snapshot_index, ..snapshot }
        } else {
            snapshot
        };
        let a2 = if a1.last_update + o2.period < now {
            Asset {
                last_update: (a1.last_update + o2.period) as i64,
                last_snapshot_index: (a1.last_snapshot_index + 1) as u64,
                ..a1
            }
        } else {
            a1
        };
        Ok((o2, a2, Snapshot { rewards: (s1.rewards + amount) as u64, votes: o2.total_votes, ..s1 }))
    }
}

/// Records a donation of `amount` of `mint` at `now`: rolls the epoch if due, sets up the
/// asset and its open snapshot on first use, and adds `amount` to the open snapshot along
/// with the current vote total. The host moves the tokens. Refused when the snapshot named
/// by the caller is no longer the open one; nothing changes then.
pub fn receive_asset(
    escrow: &mut Escrow,
    asset: &mut Asset,
    snapshot: &mut Snapshot,
    mint: Address,
    authority: Address,
    snapshot_index: u64,
    amount: u64,
    now: i64,
) -> (r: Result<(), ErrorCode>)
    requires
        old(escrow)@.wf(),
        old(escrow)@.ouroboros.last_period + 2 * old(escrow)@.ouroboros.period <= i64::MAX,
        old(asset).reward_height + amount <= u64::MAX,
        old(asset).last_snapshot_index < u64::MAX,
        old(snapshot).rewards + amount <= u64::MAX,
    ensures
        final(escrow)@.wf(),
        receive_outcome(old(escrow)@.ouroboros, *old(asset), *old(snapshot), mint, authority, snapshot_index, amount, now)
            == (match r {
            Ok(_) => Ok((final(escrow)@.ouroboros, *final(asset), *final(snapshot))),
            Err(e) => Err(e),
        }),
        final(escrow)@ == (EscrowView { ouroboros: final(escrow)@.ouroboros, ..old(escrow)@ }),
        r is Err ==> final(escrow)@ == old(escrow)@ && *final(asset) == *old(asset) && *final(snapshot) == *old(snapshot),
{
    let o = escrow.ouroboros().maybe_advance_epoch(now);
    let end: i64 = (o.last_period as i128 + o.period as i128) as i64;
    if snapshot_index != asset.last_snapshot_index {
        return Err(ErrorCode::InvalidSnapshot);
    }
    if snapshot.timestamp != 0 && (snapshot.timestamp != end || snapshot.index != snapshot_index) {
        return Err(ErrorCode::InvalidSnapshot);
    }
    escrow.advance_epoch(now);
    if !asset.mint.same_as(&mint) {
        *asset = Asset {
            mint,
            authority,
            reward_height: asset.reward_height + amount,
            last_update: o.last_period,
            ..*asset
        };
    }
    if snapshot.timestamp == 0 {
        *snapshot = Snapshot { mint, timestamp: end, index: asset.last_snapshot_index, ..*snapshot };
    }
    if (asset.last_update as i128) + (o.period as i128) < (now as i128) {
        asset.last_update = (asset.last_update as i128 + o.period as i128) as i64;
        asset.last_snapshot_index = asset.last_snapshot_index + 1;
    }
    snapshot.rewards = snapshot.rewards + amount;
    snapshot.votes = o.total_votes;
    Ok(())
}

/// The claimant a fee claim works with: an unused claimant starts for `locker`, with its
/// high-water mark at the end of the previous snapshot.
pub open spec fn effective_claimant(c: Claimant, locker: Locker, mint: Address, previous: Snapshot) -> Claimant {
    if c.mint.bytes@ == mint.bytes@ {
        c
    } else {
        Claimant { owner: locker.id, mint, last_claim: previous.timestamp }
    }
}

/// The two snapshots bound a window the claimant may collect: `current` directly follows
/// `previous`, `previous` closed before the locker was created or before the high-water
/// mark, and `current` closes after the high-water mark.
pub open spec fn claim_window_open(c: Claimant, locker: Locker, previous: Snapshot, current: Snapshot) -> bool {
    &&& previous.timestamp < locker.creation_timestamp || previous.timestamp < c.last_claim
    &&& current.index == previous.index + 1
    &&& current.timestamp > c.last_claim
}

/// What a claim over `elapsed` seconds collects. The previous snapshot's rewards cancel
/// out, so this is `CLAIM_UNIT * elapsed / period` whatever the rewards, and it does not
/// scale with the claimant's votes.
pub open spec fn collectible_spec(rewards: int, elapsed: int, period: int) -> int {
    rewards * CLAIM_UNIT as int * elapsed / period / rewards
}

/// Outcome of a fee claim at `now`: the claimant afterwards and the amount collected, or
/// the error.
pub open spec fn collect_outcome(
    o: Ouroboros,
    locker: Locker,
    claimant: Claimant,
    previous: Snapshot,
    current: Snapshot,
    mint: Address,
    now: i64,
) -> Result<(Claimant, int), ErrorCode> {
    let c = effective_claimant(claimant, locker, mint, previous);
    if !claim_window_open(c, locker, previous, current) {
        Err(ErrorCode::InvalidSnapshot)
    } else {
        Ok((
            Claimant { last_claim: if now < current.timestamp { now } else { current.timestamp }, ..c },
            collectible_spec(previous.rewards as int, current.timestamp - c.last_claim, o.period as int),
        ))
    }
}

/// Collects the fees of `locker` for the window that ends with `current`, and advances the
/// claimant's high-water mark to `now` or to the window's end, whichever comes first.
/// Returns the amount the host transfers; a transfer refuses more than a token amount.
pub fn collect_fees(
    ouroboros: &Ouroboros,
    locker: &Locker,
    claimant: &mut Claimant,
    previous: &Snapshot,
    current: &Snapshot,
    mint: Address,
    now: i64,
) -> (r: Result<u128, ErrorCode>)
    requires
        ouroboros.wf(),
        previous.rewards > 0,
    ensures
        collect_outcome(*ouroboros, *locker, *old(claimant), *previous, *current, mint, now)
            == (match r {
            Ok(amount) => Ok((*final(claimant), amount as int)),
            Err(e) => Err(e),
        }),
        r is Err ==> *final(claimant) == *old(claimant),
{
    let c = if claimant.mint.same_as(&mint) {
        *claimant
    } else {
        Claimant { owner: locker.id, mint, last_claim: previous.timestamp }
    };
    let follows = previous.index < current.index && current.index - previous.index == 1;
    if !((previous.timestamp < locker.creation_timestamp || previous.timestamp < c.last_claim) && follows
        && current.timestamp > c.last_claim) {
        return Err(ErrorCode::InvalidSnapshot);
    }
    let elapsed: u128 = (current.timestamp as i128 - c.last_claim as i128) as u128;
    let collectible: u128 = (CLAIM_UNIT as u128) * elapsed / (ouroboros.period as u128);
    proof {
        let rewards = previous.rewards as int;
        let scaled = CLAIM_UNIT as int * elapsed as int;
        let period = ouroboros.period as int;
        assert(rewards * CLAIM_UNIT as int * elapsed == rewards * scaled) by (nonlinear_arith)
            requires scaled == CLAIM_UNIT as int * elapsed as int;
        assert(rewards * scaled >= 0) by (nonlinear_arith)
            requires rewards > 0, scaled >= 0;
        lemma_div_denominator(rewards * scaled, period, rewards);
        lemma_div_multiples_vanish_quotient(rewards, scaled, period);
        lemma_mul_is_commutative(period, rewards);
    }
    *claimant = Claimant { last_claim: if now < current.timestamp { now } else { current.timestamp }, ..c };
    Ok(collectible)
}

/// A fee claim never moves the claimant's high-water mark back, given a clock that has
/// reached it, and moves it strictly forward when the clock is past it. A window claimed
/// once it has closed cannot be claimed again, at any later time.
pub proof fn lemma_claims_monotonic(
    o: Ouroboros,
    locker: Locker,
    claimant: Claimant,
    previous: Snapshot,
    current: Snapshot,
    mint: Address,
    now: i64,
    later: i64,
)
    requires
        collect_outcome(o, locker, claimant, previous, current, mint, now) is Ok,
        now >= effective_claimant(claimant, locker, mint, previous).last_claim,
    ensures
        ({
            let before = effective_claimant(claimant, locker, mint, previous);
            let after = collect_outcome(o, locker, claimant, previous, current, mint, now)->Ok_0.0;
            &&& after.last_claim >= before.last_claim
            &&& now > before.last_claim ==> after.last_claim > before.last_claim
            &&& now >= current.timestamp ==> collect_outcome(o, locker, after, previous, current, mint, later) is Err
        }),
{
}

} // verus!
