use vstd::prelude::*;

verus! {

/// Failures of the escrow engine. Each aborts the whole instruction.
#[derive(Clone, Copy, Debug, PartialEq, Eq, Structural)]
pub enum ErrorCode {
    UnclaimedIncentives,
    InvalidSnapshot,
}

impl ErrorCode {
    /// The message shown to the caller.
    pub fn message(&self) -> (r: &'static str)
        ensures
            *self == ErrorCode::UnclaimedIncentives ==> r@ == "Incentives need to be claimed first"@,
            *self == ErrorCode::InvalidSnapshot ==> r@ == "Given snapshot is invalid"@,
    {
        match self {
            ErrorCode::UnclaimedIncentives => "Incentives need to be claimed first",
            ErrorCode::InvalidSnapshot => "Given snapshot is invalid",
        }
    }
}

} // verus!
