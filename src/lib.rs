//! Accounting core of an on-chain exchange, a vote-escrow emission protocol
//! and a liquidity gauge: pricing, liquidity shares, vote tallies, epoch
//! rolls and snapshot rewards, each stated and proved as a pure state
//! transition. Token movements are returned as plans for the host to carry out.
pub mod address;
pub mod escrow;
pub mod gauges;
pub mod pools;
