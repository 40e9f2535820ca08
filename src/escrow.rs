//! Vote-escrow and emission engine: lockers, vote tallies, epoch rolls, incentive
//! settlement, and the snapshot ledger of donated rewards.
pub mod errors;
pub mod ledger;
pub mod rewards;
pub mod state;
