//! The ways in which a deployment can be refused.

use vstd::prelude::*;

verus! {

/// Why no deployment was made.
#[derive(Clone, Copy, Debug, PartialEq, Eq, Structural)]
pub enum DeployError {
    /// The instruction is not known, or its record has the wrong length.
    InvalidInstructionData,
    /// The round record is too short.
    InvalidAccountData,
    /// The request names no block or more than five, or gives no unit price.
    InvalidRequest,
    /// The request is in order, but no candidate met the threshold.
    NoViableAllocation,
}

} // verus!
