use vstd::prelude::*;

verus! {

/// Failures of the pair engine. Each aborts the whole instruction.
#[derive(Clone, Copy, Debug, PartialEq, Eq, Structural)]
pub enum ErrorCode {
    InsufficientAmount,
    InsufficientLiquidity,
    InsufficientLiquidityMinted,
    InsufficientInput,
    InsufficientOutput,
    InvariantK,
}

impl ErrorCode {
    /// The message shown to the caller.
    pub fn message(&self) -> (r: &'static str)
        ensures
            *self == ErrorCode::InsufficientAmount ==> r@ == "Insufficient amount"@,
            *self == ErrorCode::InsufficientLiquidity ==> r@ == "Insufficient liquidity"@,
            *self == ErrorCode::InsufficientLiquidityMinted ==> r@ == "Insufficient liquidity minted"@,
            *self == ErrorCode::InsufficientInput ==> r@ == "Insufficient input"@,
            *self == ErrorCode::InsufficientOutput ==> r@ == "Insufficient output"@,
            *self == ErrorCode::InvariantK ==> r@ == "Violated invariant K"@,
    {
        match self {
            ErrorCode::InsufficientAmount => "Insufficient amount",
            ErrorCode::InsufficientLiquidity => "Insufficient liquidity",
            ErrorCode::InsufficientLiquidityMinted => "Insufficient liquidity minted",
            ErrorCode::InsufficientInput => "Insufficient input",
            ErrorCode::InsufficientOutput => "Insufficient output",
            ErrorCode::InvariantK => "Violated invariant K",
        }
    }
}

} // verus!
