use ouroboros::address::Address;
use ouroboros::escrow::errors::ErrorCode;
use ouroboros::escrow::ledger::Escrow;
use ouroboros::escrow::rewards::{collect_fees, receive_asset, Asset, Claimant, Snapshot};
use ouroboros::escrow::state::{Locker, Ouroboros};

const WEEK: u64 = 604800;

fn address(b: u8) -> Address {
    Address { bytes: [b; 32] }
}

fn weekly_escrow() -> Escrow {
    Escrow::initialize_ouroboros(7, address(1), address(2), WEEK, 0, 100, 10000)
}

fn fresh_asset() -> Asset {
    Asset { mint: Address::zero(), authority: Address::zero(), reward_height: 0, last_update: 0, last_snapshot_index: 0 }
}

fn fresh_snapshot() -> Snapshot {
    Snapshot { mint: Address::zero(), timestamp: 0, index: 0, rewards: 0, votes: 0 }
}

#[test]
fn initialize_sets_the_root_record() {
    let e = weekly_escrow();
    let o = e.ouroboros();
    assert_eq!((o.id, o.period, o.last_period, o.last_period_votes, o.total_votes), (7, WEEK, 0, 0, 0));
    assert_eq!((o.expansion_factor, o.time_multiplier), (100, 10000));
    assert_eq!((e.beneficiary_count(), e.locker_count()), (0, 0));
}

#[test]
fn week_long_lock_earns_one_vote_per_token() {
    let mut e = weekly_escrow();
    let k = e.create_locker(address(10), address(11), 1000, WEEK, 5);
    let l = e.locker(k);
    assert_eq!(l.votes, 1000);
    assert_eq!((l.amount, l.creation_timestamp, l.unlock_timestamp), (1000, 5, 5 + WEEK as i64));
    assert!(l.beneficiary.is_none());
}

#[test]
fn locker_votes_are_linear_in_duration_and_multiplier() {
    let o = Ouroboros::new(1, address(1), address(2), WEEK, 0, 0, 192);
    // 1000 * 2 weeks * 192 / 604800 / 10000
    assert_eq!(o.locker_votes(1000, 2 * WEEK), 38);
    assert_eq!(o.locker_votes(1_000_000, 3 * WEEK / 2), 28800);
}

#[test]
fn new_beneficiary_is_settled_and_empty() {
    let mut e = weekly_escrow();
    let b = e.create_beneficiary(address(20));
    assert_eq!(b, 0);
    assert!(e.is_settled(b));
    assert_eq!(e.beneficiary(b).votes, 0);
}

fn two_lockers_for_one_beneficiary() -> (Escrow, usize, usize, usize, usize) {
    let mut e = weekly_escrow();
    let b0 = e.create_beneficiary(address(20));
    let b1 = e.create_beneficiary(address(21));
    let k0 = e.create_locker(address(10), address(11), 1000, WEEK, 0);
    let k1 = e.create_locker(address(12), address(13), 2000, WEEK, 0);
    e.initialize_vote(k0, b0).unwrap();
    e.cast_vote(k1, b0).unwrap();
    (e, b0, b1, k0, k1)
}

#[test]
fn votes_add_up_on_first_vote() {
    let (e, b0, b1, k0, k1) = two_lockers_for_one_beneficiary();
    assert_eq!(e.beneficiary(b0).votes, 3000);
    assert_eq!(e.beneficiary(b1).votes, 0);
    assert_eq!(e.ouroboros().total_votes, 3000);
    assert_eq!(e.locker(k0).beneficiary, Some(b0));
    assert_eq!(e.locker(k1).beneficiary, Some(b0));
}

#[test]
fn reset_vote_moves_exactly_the_locker_votes() {
    let (mut e, b0, b1, k0, _k1) = two_lockers_for_one_beneficiary();
    e.reset_vote(k0, b1).unwrap();
    assert_eq!(e.beneficiary(b0).votes, 2000);
    assert_eq!(e.beneficiary(b1).votes, 1000);
    assert_eq!(e.ouroboros().total_votes, 3000);
    assert_eq!(e.locker(k0).beneficiary, Some(b1));
}

#[test]
fn voting_for_the_same_beneficiary_again_changes_nothing() {
    let (mut e, b0, _b1, k0, _k1) = two_lockers_for_one_beneficiary();
    e.cast_vote(k0, b0).unwrap();
    assert_eq!(e.beneficiary(b0).votes, 3000);
    assert_eq!(e.ouroboros().total_votes, 3000);
}

#[test]
fn vote_move_waits_for_settlement() {
    let (mut e, b0, b1, k0, _k1) = two_lockers_for_one_beneficiary();
    e.advance_epoch(WEEK as i64);
    assert_eq!(e.reset_vote(k0, b1).unwrap_err(), ErrorCode::UnclaimedIncentives);
    assert_eq!(e.beneficiary(b0).votes, 3000);
    assert_eq!(e.claim_incentives(b1, WEEK as i64, 1_000_000), Some(0));
    // The source is still unsettled.
    assert_eq!(e.reset_vote(k0, b1).unwrap_err(), ErrorCode::UnclaimedIncentives);
    e.claim_incentives(b0, WEEK as i64, 1_003_000).unwrap();
    e.reset_vote(k0, b1).unwrap();
    assert_eq!(e.beneficiary(b1).votes, 1000);
}

#[test]
fn epoch_rolls_once_per_period() {
    let mut e = weekly_escrow();
    let b = e.create_beneficiary(address(20));
    let k = e.create_locker(address(10), address(11), 1000, WEEK, 0);
    e.cast_vote(k, b).unwrap();
    e.advance_epoch(WEEK as i64 - 1);
    assert_eq!(e.ouroboros().last_period, 0);
    e.advance_epoch(WEEK as i64 + 10);
    e.advance_epoch(WEEK as i64 + 10);
    let o = e.ouroboros();
    assert_eq!((o.last_period, o.last_period_votes), (WEEK as i64, 1000));
    // Three periods elapsed: a single roll catches up by one period only.
    e.advance_epoch(4 * WEEK as i64);
    assert_eq!(e.ouroboros().last_period, 2 * WEEK as i64);
}

#[test]
fn maybe_advance_epoch_is_pure() {
    let o = Ouroboros::new(1, address(1), address(2), 100, 1000, 0, 10000);
    assert!(!o.is_epoch_due(1099));
    assert!(o.is_epoch_due(1100));
    let next = o.maybe_advance_epoch(1100);
    assert_eq!((next.last_period, o.last_period), (1100, 1000));
    assert_eq!(o.maybe_advance_epoch(1050).last_period, 1000);
}

#[test]
fn claim_mints_the_weighted_share_once_per_epoch() {
    let (mut e, b0, b1, k0, _k1) = two_lockers_for_one_beneficiary();
    e.reset_vote(k0, b1).unwrap();
    // The epoch rolls inside the claim: 3000 votes are frozen.
    // Emission (1_003_000 - 3000) * 100 / 10000 = 10000; weight 10000 * 2000 / 3000 = 6666.
    assert_eq!(e.claim_incentives(b0, WEEK as i64, 1_003_000), Some(6666));
    let b = e.beneficiary(b0);
    assert_eq!((b.weight, b.last_update), (6666, WEEK as i64));
    assert_eq!(e.ouroboros().last_period_votes, 3000);
    assert_eq!(e.claim_incentives(b0, WEEK as i64 + 5, 1_003_000), Some(0));
    assert_eq!(e.claim_incentives(b1, WEEK as i64 + 5, 1_003_000), Some(3333));
}

#[test]
fn claim_with_supply_below_votes_is_refused() {
    let (mut e, b0, _b1, _k0, _k1) = two_lockers_for_one_beneficiary();
    assert_eq!(e.claim_incentives(b0, WEEK as i64, 2999), None);
    assert_eq!(e.ouroboros().last_period, 0);
    assert!(e.is_settled(b0));
}

#[test]
fn claim_in_an_epoch_without_frozen_votes_gives_no_weight() {
    let mut e = weekly_escrow();
    let b = e.create_beneficiary(address(20));
    let k = e.create_locker(address(10), address(11), 1000, WEEK, 0);
    e.advance_epoch(WEEK as i64);
    e.claim_incentives(b, WEEK as i64, 10_000).unwrap();
    e.cast_vote(k, b).unwrap();
    e.advance_epoch(2 * WEEK as i64);
    assert_eq!(e.claim_incentives(b, 2 * WEEK as i64, 1_000_000), Some(9990));
    assert_eq!(e.beneficiary(b).weight, 10000);
}

#[test]
fn donations_fill_the_open_snapshot() {
    let mut e = Escrow::initialize_ouroboros(1, address(1), address(2), 100, 0, 0, 10000);
    let mut asset = fresh_asset();
    let mut snap = fresh_snapshot();
    receive_asset(&mut e, &mut asset, &mut snap, address(30), address(31), 0, 500, 50).unwrap();
    assert_eq!(asset.mint.bytes, [30; 32]);
    assert_eq!((asset.reward_height, asset.last_update, asset.last_snapshot_index), (500, 0, 0));
    assert_eq!((snap.timestamp, snap.index, snap.rewards, snap.votes), (100, 0, 500, 0));
    receive_asset(&mut e, &mut asset, &mut snap, address(30), address(31), 0, 250, 60).unwrap();
    assert_eq!((snap.rewards, asset.reward_height), (750, 500));
}

#[test]
fn donation_to_a_stale_snapshot_is_refused() {
    let mut e = Escrow::initialize_ouroboros(1, address(1), address(2), 100, 0, 0, 10000);
    let mut asset = fresh_asset();
    let mut snap = fresh_snapshot();
    receive_asset(&mut e, &mut asset, &mut snap, address(30), address(31), 0, 500, 50).unwrap();
    assert_eq!(
        receive_asset(&mut e, &mut asset, &mut snap, address(30), address(31), 1, 5, 60).unwrap_err(),
        ErrorCode::InvalidSnapshot
    );
    // After the epoch ends the snapshot closing at 100 is no longer open.
    assert_eq!(
        receive_asset(&mut e, &mut asset, &mut snap, address(30), address(31), 0, 5, 150).unwrap_err(),
        ErrorCode::InvalidSnapshot
    );
    assert_eq!(e.ouroboros().last_period, 0);
    assert_eq!(snap.rewards, 500);
    let mut next = fresh_snapshot();
    receive_asset(&mut e, &mut asset, &mut next, address(30), address(31), 0, 5, 150).unwrap();
    assert_eq!(e.ouroboros().last_period, 100);
    assert_eq!((next.timestamp, next.index, next.rewards), (200, 0, 5));
    assert_eq!((asset.last_update, asset.last_snapshot_index), (100, 1));
}

fn claim_setup() -> (Ouroboros, Locker, Snapshot, Snapshot) {
    let o = Ouroboros::new(1, address(1), address(2), 100, 0, 0, 10000);
    let locker = Locker {
        id: address(10),
        receipt: address(11),
        beneficiary: None,
        amount: 1000,
        votes: 1000,
        creation_timestamp: 150,
        unlock_timestamp: 1000,
    };
    let previous = Snapshot { mint: address(30), timestamp: 100, index: 0, rewards: 500, votes: 0 };
    let current = Snapshot { mint: address(30), timestamp: 200, index: 1, rewards: 0, votes: 0 };
    (o, locker, previous, current)
}

#[test]
fn fee_claim_advances_the_high_water_mark() {
    let (o, locker, previous, current) = claim_setup();
    let mut c = Claimant { owner: Address::zero(), mint: Address::zero(), last_claim: 0 };
    let amount = collect_fees(&o, &locker, &mut c, &previous, &current, address(30), 250).unwrap();
    assert_eq!(amount, 1_000_000_000);
    assert_eq!(c.last_claim, 200);
    assert_eq!(c.owner.bytes, [10; 32]);
    assert_eq!(
        collect_fees(&o, &locker, &mut c, &previous, &current, address(30), 300).unwrap_err(),
        ErrorCode::InvalidSnapshot
    );
    assert_eq!(c.last_claim, 200);
}

#[test]
fn fee_claim_before_the_window_closes_stops_at_now() {
    let (o, locker, previous, current) = claim_setup();
    let mut c = Claimant { owner: Address::zero(), mint: Address::zero(), last_claim: 0 };
    assert_eq!(collect_fees(&o, &locker, &mut c, &previous, &current, address(30), 180).unwrap(), 1_000_000_000);
    assert_eq!(c.last_claim, 180);
    assert_eq!(collect_fees(&o, &locker, &mut c, &previous, &current, address(30), 250).unwrap(), 200_000_000);
    assert_eq!(c.last_claim, 200);
}

#[test]
fn fee_claim_needs_adjacent_snapshots() {
    let (o, locker, previous, mut current) = claim_setup();
    current.index = 2;
    let mut c = Claimant { owner: Address::zero(), mint: Address::zero(), last_claim: 0 };
    assert_eq!(
        collect_fees(&o, &locker, &mut c, &previous, &current, address(30), 250).unwrap_err(),
        ErrorCode::InvalidSnapshot
    );
    let old_locker = Locker { creation_timestamp: 50, ..locker };
    current.index = 1;
    assert_eq!(
        collect_fees(&o, &old_locker, &mut c, &previous, &current, address(30), 250).unwrap_err(),
        ErrorCode::InvalidSnapshot
    );
}

#[test]
fn escrow_error_messages() {
    assert_eq!(ErrorCode::UnclaimedIncentives.message(), "Incentives need to be claimed first");
    assert_eq!(ErrorCode::InvalidSnapshot.message(), "Given snapshot is invalid");
}
