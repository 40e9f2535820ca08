//! Pair accounting engine: pricing, liquidity shares and the swap invariant.
pub mod curve;
pub mod errors;
pub mod liquidity;
pub mod pair;
pub mod swap;
